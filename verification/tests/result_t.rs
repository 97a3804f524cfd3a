use algar::ResultT;

#[test]
fn result_t_bind() {
    let r_t = ResultT::new(Option::Some(Result::<i32, String>::Ok(1)));

    let r_t2 = r_t.bind(move |a| ResultT::new(Option::Some(Result::Ok(a + 41))));

    assert_eq!(r_t2.runner, Option::Some(Result::Ok(42)));
}

#[test]
fn result_t_fail() {
    let r_t = ResultT::new(Option::Some(Result::<i32, String>::Ok(1)));
    let r_t2 = r_t.bind(move |_a| ResultT::new(Option::<Result<i32, String>>::None));

    assert_eq!(r_t2.runner, Option::None);
}

#[test]
fn result_t_lift() {
    let a = Option::Some(42);
    let lifted = ResultT::lift::<i32, String>(a);
    // lifted type is ResultT<Option<Result<i32, String>>>!

    assert_eq!(
        Result::Ok(43),
        lifted
            .bind(|a| ResultT::new(Option::Some(Ok(a + 1))))
            .execute()
            .unwrap()
    );

    // But if the value we lift is None, we get...
    let b: Option<i32> = None;
    let lifted2 = ResultT::lift::<i32, String>(b);

    assert!(lifted2
        .bind(|a| ResultT::new(Option::Some(Ok(a + 1))))
        .execute()
        .is_none());
}

#[test]
fn result_t_bind_short_circuits_on_err() {
    let r_t = ResultT::new(Option::Some(Result::<i32, String>::Err("stop".to_string())));
    let mut called = false;
    let r_t2 = r_t.bind(|a| {
        called = true;
        ResultT::new(Option::Some(Result::<i32, String>::Ok(a + 41)))
    });

    assert_eq!(r_t2.execute(), Option::Some(Result::Err("stop".to_string())));
    assert!(!called);
}
