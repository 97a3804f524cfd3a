use algar::Applicative;

#[test]
fn option_of() {
    let a = Option::<i32>::of(31337);
    assert_eq!(a, Option::Some(31337));
}

#[test]
fn result_of() {
    let a = Result::<i32, ()>::of(31337);
    assert_eq!(a, Result::Ok(31337));
}
