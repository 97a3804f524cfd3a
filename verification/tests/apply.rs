use algar::Apply;

#[test]
fn option_ap() {
    let a = Option::Some(31337);
    let b = a.ap(Some(|x| format!("{}", x)));
    assert_eq!(b, Option::Some("31337".to_string()));
}

#[test]
fn option_lifta2() {
    let a = Option::Some(42);
    let b = Option::Some(2);
    let res = a.lift_a2(b, |u1, u2| u1 + u2);
    assert_eq!(res, Option::Some(44));
}

#[test]
fn result_ap() {
    let a: Result<i32, ()> = Result::Ok(31337);
    let b = a.ap(Result::Ok(|x| format!("{}", x)));
    assert_eq!(b, Result::Ok("31337".to_string()));
}

#[test]
fn option_ap_absent_value() {
    let a: Option<i32> = None;
    let b = a.ap(Some(|x: i32| x + 1));
    assert_eq!(b, None);
}

#[test]
fn option_ap_absent_function() {
    let a = Some(1);
    let f: Option<fn(i32) -> i32> = None;
    assert_eq!(a.ap(f), None);
}

#[test]
fn option_lifta2_absent() {
    let a: Option<i32> = None;
    assert_eq!(a.lift_a2(Some(2), |u1, u2: i32| u1 + u2), None);
    let a = Some(1);
    let b: Option<i32> = None;
    assert_eq!(a.lift_a2(b, |u1, u2| u1 + u2), None);
}

#[test]
fn result_ap_value_failure_comes_first() {
    let a: Result<i32, &str> = Err("value");
    let f: Result<fn(i32) -> i32, &str> = Err("function");
    assert_eq!(a.ap(f), Err("value"));
}

#[test]
fn result_ap_function_failure() {
    let a: Result<i32, &str> = Ok(1);
    let f: Result<fn(i32) -> i32, &str> = Err("function");
    assert_eq!(a.ap(f), Err("function"));
}

#[test]
fn result_lifta2_first_failure_comes_first() {
    let a: Result<i32, &str> = Err("first");
    let b: Result<i32, &str> = Err("second");
    assert_eq!(a.lift_a2(b, |x, y| x + y), Err("first"));
}

#[test]
fn result_lifta2() {
    let a: Result<i32, &str> = Ok(40);
    let b: Result<i32, &str> = Ok(2);
    assert_eq!(a.lift_a2(b, |x, y| x + y), Ok(42));
    let a: Result<i32, &str> = Ok(40);
    let b: Result<i32, &str> = Err("second");
    assert_eq!(a.lift_a2(b, |x, y| x + y), Err("second"));
}

#[test]
fn option_lifta2_is_two_aps() {
    let curried = |x: i32| move |y: i32| x + y;
    let partial = Some(40).ap(Some(curried));
    assert_eq!(Some(2).ap(partial), Some(42));
    assert_eq!(Some(40).lift_a2(Some(2), |x, y| x + y), Some(42));

    let partial = Option::<i32>::None.ap(Some(curried));
    assert_eq!(Some(2).ap(partial), None);
}

#[test]
fn result_lifta2_is_two_aps_unless_both_fail() {
    let curried = |x: i32| move |y: i32| x + y;
    let ok = |v: i32| -> Result<i32, &str> { Ok(v) };
    let err = |e: &'static str| -> Result<i32, &str> { Err(e) };

    let partial = ok(40).ap(Ok(curried));
    assert_eq!(ok(2).ap(partial), ok(40).lift_a2(ok(2), |x, y| x + y));
    let partial = err("first").ap(Ok(curried));
    assert_eq!(ok(2).ap(partial), err("first").lift_a2(ok(2), |x, y| x + y));
    let partial = ok(40).ap(Ok(curried));
    assert_eq!(err("second").ap(partial), ok(40).lift_a2(err("second"), |x, y| x + y));

    let partial = err("first").ap(Ok(curried));
    assert_eq!(err("second").ap(partial), Err("second"));
    assert_eq!(err("first").lift_a2(err("second"), |x, y| x + y), Err("first"));
}
