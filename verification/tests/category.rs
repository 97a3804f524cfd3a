use algar::Category;

#[test]
fn category_option_compose() {
    let a = Option::Some(String::from("FOO"));

    assert_eq!(Option::Some(String::from("FOO")), a.identity());
}
