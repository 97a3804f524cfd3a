use algar::Bind;

#[test]
fn bind_option_bind() {
    let a = Option::Some(31337);
    let b = a.bind(|x| Some(format!("{}", x)));
    assert_eq!(b, Option::Some("31337".to_string()));
}

#[test]
fn bind_option_chain() {
    let a = Option::Some(31337);
    let b: Option<i32> = a.bind(|x| Some(format!("{}", x))).bind(|_| Option::None);
    assert_eq!(b, Option::None);

    let c = a.bind(|x| Some(format!("{}", x))).bind(|mut y| {
        y.push_str("foo");
        Some(y)
    });
    assert_eq!(c, Option::Some("31337foo".to_string()));
}

#[test]
fn bind_result_bind() {
    let a: Result<i32, ()> = Result::Ok(31337);
    let b = a.bind(|x| Result::Ok(format!("{}", x)));
    assert_eq!(b, Result::Ok("31337".to_string()));
}

#[test]
fn bind_option_absent_skips_the_function() {
    let a: Option<i32> = None;
    let mut called = false;
    let b = a.bind(|x| {
        called = true;
        Some(x + 1)
    });
    assert_eq!(b, None);
    assert!(!called);
}

#[test]
fn bind_result_error_is_handed_on() {
    let a: Result<i32, String> = Err("broken".to_string());
    let b = a.bind(|x| Result::<i32, String>::Ok(x + 1));
    assert_eq!(b, Err("broken".to_string()));
}
