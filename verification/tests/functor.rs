use algar::Functor;

#[test]
fn functor_option_functor() {
    let a = Option::Some(31337);
    let b = a.fmap(|x| format!("{}", x));
    assert_eq!(b, Option::Some("31337".to_string()));
}

#[test]
fn result_functor() {
    let a: Result<i32, ()> = Result::Ok(31337);
    let b = a.fmap(|x| format!("{}", x));
    assert_eq!(b, Result::Ok("31337".to_string()));
}

#[test]
fn vec_functor() {
    let a = vec![1, 2, 3];
    let b = a.fmap(|x| format!("{}", x));
    assert_eq!(vec!["1", "2", "3"], b);
}

#[test]
fn option_functor_absent() {
    let a: Option<i32> = None;
    assert_eq!(a.fmap(|x| x + 1), None);
}

#[test]
fn result_functor_error_is_kept() {
    let a: Result<i32, String> = Err("broken".to_string());
    assert_eq!(a.fmap(|x| x + 1), Err("broken".to_string()));
}

#[test]
fn vec_functor_empty() {
    let a: Vec<i32> = vec![];
    assert_eq!(a.fmap(|x| x + 1), Vec::<i32>::new());
}

#[test]
fn functor_identity_law() {
    assert_eq!(Some(7).fmap(|x| x), Some(7));
    assert_eq!(Option::<i32>::None.fmap(|x| x), None);
    assert_eq!(Result::<i32, &str>::Ok(7).fmap(|x| x), Ok(7));
    assert_eq!(Result::<i32, &str>::Err("e").fmap(|x| x), Err("e"));
    assert_eq!(vec![1, 2, 3].fmap(|x| x), vec![1, 2, 3]);
}

#[test]
fn functor_composition_law() {
    let f = |x: i32| x + 1;
    let g = |x: i32| format!("<{}>", x);
    assert_eq!(Some(7).fmap(|x| g(f(x))), Some(7).fmap(f).fmap(g));
    assert_eq!(Some(7).fmap(f).fmap(g), Some("<8>".to_string()));
    assert_eq!(
        Result::<i32, &str>::Ok(7).fmap(|x| g(f(x))),
        Result::<i32, &str>::Ok(7).fmap(f).fmap(g)
    );
    assert_eq!(vec![1, 2].fmap(|x| g(f(x))), vec![1, 2].fmap(f).fmap(g));
    assert_eq!(vec![1, 2].fmap(f).fmap(g), vec!["<2>", "<3>"]);
}
