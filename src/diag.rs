use vstd::prelude::*;

verus! {

/// The kinds of problem the checker reports.
#[derive(PartialEq, Eq, Structural, Clone, Copy, Debug)]
pub enum ErrorKind {
    /// A binding was read after its value had been moved out.
    UseAfterMove,
    /// A binding was moved out of a second time.
    MoveAfterMove,
    /// A reference would outlive the value it points to.
    BorrowOutlivesOwner,
    /// Overlapping exclusive and shared access; kept for completeness, never produced
    /// since the checked language has no mutability model.
    ConflictingBorrow,
    /// Two different method bodies are equally eligible for one call.
    AmbiguousTraitImpl,
    /// No implementation and no default body answers a call.
    UnresolvedMethod,
    /// The supertrait graph has a cycle.
    CyclicSupertrait,
}

/// One reported problem: its kind and the location handle of the statement that caused it.
#[derive(PartialEq, Eq, Structural, Clone, Copy, Debug)]
pub struct Diagnostic {
    pub kind: ErrorKind,
    pub at: usize,
}

/// The text that describes each kind.
pub open spec fn message_of(k: ErrorKind) -> Seq<char> {
    match k {
        ErrorKind::UseAfterMove => "value used after it was moved"@,
        ErrorKind::MoveAfterMove => "value moved after it was already moved"@,
        ErrorKind::BorrowOutlivesOwner => "reference outlives the value it borrows"@,
        ErrorKind::ConflictingBorrow => "conflicting borrows of one value"@,
        ErrorKind::AmbiguousTraitImpl => "more than one implementation fits this call"@,
        ErrorKind::UnresolvedMethod => "no implementation or default body for this call"@,
        ErrorKind::CyclicSupertrait => "supertrait declarations form a cycle"@,
    }
}

impl ErrorKind {
    /// A human-readable description of the kind.
    pub fn message(&self) -> (r: &'static str)
        ensures
            r@ == message_of(*self),
    {
        match self {
            ErrorKind::UseAfterMove => "value used after it was moved",
            ErrorKind::MoveAfterMove => "value moved after it was already moved",
            ErrorKind::BorrowOutlivesOwner => "reference outlives the value it borrows",
            ErrorKind::ConflictingBorrow => "conflicting borrows of one value",
            ErrorKind::AmbiguousTraitImpl => "more than one implementation fits this call",
            ErrorKind::UnresolvedMethod => "no implementation or default body for this call",
            ErrorKind::CyclicSupertrait => "supertrait declarations form a cycle",
        }
    }
}

} // verus!
