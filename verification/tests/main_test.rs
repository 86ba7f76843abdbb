use tellstickreport::retvalue;

#[test]
fn main_test_retvalue() {
    assert!(retvalue() == 2);
}

#[test]
fn main_test_test_retvalue() {
    assert_eq!(2, retvalue());
}

#[test]
fn mod_test_retvalue() {
    assert!(retvalue() == 2);
}
