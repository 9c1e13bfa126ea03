use quickcheck::{QuickCheck, Testable};

// What the test attribute makes of `static static_bool: bool = true;`: a test
// function that runs the value as a property.
fn static_bool() {
    let static_bool: bool = true;
    let prop = move |(): ()| static_bool;
    assert!(QuickCheck::new().quickcheck(&prop).is_ok());
    let _ = static_bool.result(&mut quickcheck::Gen::new(1));
}

#[test]
fn static_bool_test_is_function() {
    static_bool()
}

#[test]
fn macro_static_bool_test_is_function() {
    static_bool()
}
