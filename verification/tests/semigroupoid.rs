use algar::semigroupoid;
use algar::Semigroup;
use algar::Semigroupoid;

#[test]
fn fun_compose() {
    let f = |a: i32| a.to_string();
    let g = |a: String| a.mappend("BAR".to_string());
    assert_eq!("12BAR".to_string(), semigroupoid::compose(f, g)(12));
}

#[test]
fn semigroupoid_option_compose() {
    let a = Option::Some(String::from("FOO"));
    let b = Option::Some(String::from("BAR"));

    assert_eq!("FOOBAR".to_string(), a.compose(b).unwrap());
}

#[test]
fn option_compose_absent() {
    let a = Option::Some(String::from("FOO"));
    assert_eq!(None, a.compose(None));
    let b = Option::Some(String::from("BAR"));
    assert_eq!(None, Option::<String>::None.compose(b));
}

#[test]
fn option_compose_is_associative() {
    let a = || Some("a".to_string());
    let b = || Some("b".to_string());
    let c = || Some("c".to_string());
    assert_eq!(a().compose(b()).compose(c()), a().compose(b().compose(c())));
    assert_eq!(a().compose(b()).compose(c()), Some("abc".to_string()));
}
