use semcheck::fragments::{call_trait, lifetime, lifetimes, MyTrait, Object, SubTrait};

#[test]
fn lifetime_borrows_first_argument() {
    let obj1 = Object { value: 0 };
    let obj2 = Object { value: 1 };
    assert_eq!(*lifetime(&obj1, &obj2), 0);
    assert_eq!(*lifetimes(&obj2, &obj1), 1);
    assert_eq!(*lifetimes(&obj1, &obj2), 0);
}

#[test]
fn generic_call_dispatches_per_type() {
    assert_eq!(call_trait(Object { value: 42 }), 42);
    assert_eq!(call_trait(100), 100);
    assert_eq!(7i32.a_method(), 7);
}

#[test]
fn default_method_uses_required_one() {
    assert_eq!(Object { value: 21 }.times_two(), 42);
}
