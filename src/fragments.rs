use vstd::prelude::*;

verus! {

// The small program fragments whose ownership, lifetime and trait rules the checker models,
// written as verified Rust.

/// A struct holding one value; it moves on assignment.
pub struct Object {
    pub value: i32,
}

/// A trait with one required method.
pub trait MyTrait {
    /// The value the required method reports.
    spec fn reported(&self) -> int;

    fn a_method(&self) -> (r: i32)
        ensures
            r == self.reported(),
    ;
}

/// A trait that extends `MyTrait` with a default method built on the required one.
pub trait SubTrait: MyTrait {
    fn times_two(&self) -> (r: i32)
        requires
            i32::MIN <= 2 * self.reported() <= i32::MAX,
        ensures
            r == 2 * self.reported(),
    {
        self.a_method() * 2
    }
}

impl MyTrait for Object {
    open spec fn reported(&self) -> int {
        self.value as int
    }

    fn a_method(&self) -> (r: i32) {
        self.value
    }
}

impl SubTrait for Object {}

impl MyTrait for i32 {
    open spec fn reported(&self) -> int {
        *self as int
    }

    fn a_method(&self) -> (r: i32) {
        *self
    }
}

/// Both parameters share `'a`, so the result may borrow from either; this one borrows from `x`.
pub fn lifetime<'a>(x: &'a Object, y: &'a Object) -> (r: &'a i32)
    ensures
        *r == x.value,
{
    &x.value
}

/// The result is tied to `'a` alone, so it may borrow from `x` but not from `y`.
pub fn lifetimes<'a, 'b>(x: &'a Object, y: &'b Object) -> (r: &'a i32)
    ensures
        *r == x.value,
{
    &x.value
}

/// A generic call resolved, for each concrete type, to that type's implementation.
pub fn call_trait<T: MyTrait>(obj: T) -> (r: i32)
    ensures
        r == obj.reported(),
{
    obj.a_method()
}

} // verus!
