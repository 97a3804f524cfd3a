use algar::Monad;

#[test]
fn monad_option_bind() {
    let a = Option::Some(31337);
    let b = a.bind(|x| Some(format!("{}", x)));
    assert_eq!(b, Option::Some("31337".to_string()));
}

#[test]
fn monad_option_chain() {
    let a = Option::Some(31337);
    let b: Option<i32> = a.bind(|x| Some(format!("{}", x))).bind(|_| Option::None);
    assert_eq!(b, Option::None);

    let c = a.bind(|x| Some(format!("{}", x))).bind(|mut y| {
        y.push_str("foo");
        Some(y)
    });
    assert_eq!(c, Option::Some("31337foo".to_string()));
}

#[test]
fn monad_result_bind() {
    let a: Result<i32, ()> = Result::Ok(31337);
    let b = a.bind(|x| Result::Ok(format!("{}", x)));
    assert_eq!(b, Result::Ok("31337".to_string()));
}

#[test]
fn result_macro() {
    let r: Result<i32, &str> = Ok(3).bind(move |v| Ok(v));

    assert_eq!(r, Ok(3));

    let r: Result<i32, &str> = r.bind(move |v| Ok(10).bind(move |x| Ok(v * x)));

    assert_eq!(r, Ok(30));

    let n: Result<i32, &str> = Err("error");
    let r: Result<i32, &str> = Ok(314).bind(move |v| n.bind(move |x| Ok(v * x)));

    assert_eq!(r, Err("error"));

    let r = Result::<&str, &str>::Ok("a").bind(move |_| {
        Ok("b").bind(move |b| Result::<&str, &str>::Err("nope").bind(move |_| Ok(b)))
    });

    assert_eq!(r, Err("nope"));
}

#[test]
fn monad_of() {
    assert_eq!(<Option<()> as Monad<i32>>::of(7), Some(7));
    assert_eq!(<Result<(), &str> as Monad<i32>>::of(7), Ok(7));
}

#[test]
fn monad_left_identity_law() {
    let f = |x: i32| if x > 0 { Some(x * 2) } else { None };
    assert_eq!(<Option<i32> as Monad<i32>>::of(21).bind(f), f(21));
    assert_eq!(<Option<i32> as Monad<i32>>::of(-1).bind(f), f(-1));
    let g = |x: i32| if x > 0 { Ok(x * 2) } else { Err("negative") };
    assert_eq!(<Result<i32, &str> as Monad<i32>>::of(21).bind(g), g(21));
    assert_eq!(<Result<i32, &str> as Monad<i32>>::of(-1).bind(g), g(-1));
}

#[test]
fn monad_right_identity_law() {
    assert_eq!(Some(7).bind(<Option<i32> as Monad<i32>>::of), Some(7));
    assert_eq!(Option::<i32>::None.bind(<Option<i32> as Monad<i32>>::of), None);
    assert_eq!(Result::<i32, &str>::Ok(7).bind(<Result<i32, &str> as Monad<i32>>::of), Ok(7));
    assert_eq!(
        Result::<i32, &str>::Err("e").bind(<Result<i32, &str> as Monad<i32>>::of),
        Err("e")
    );
}

#[test]
fn monad_associativity_law() {
    let f = |x: i32| if x > 0 { Some(x - 1) } else { None };
    let g = |x: i32| if x % 2 == 0 { Some(x / 2) } else { None };
    for m in [Some(5), Some(4), Some(0), None] {
        assert_eq!(m.bind(f).bind(g), m.bind(|x| f(x).bind(g)));
    }
    assert_eq!(Some(5).bind(f).bind(g), Some(2));

    let f = |x: i32| if x > 0 { Ok(x - 1) } else { Err("not positive") };
    let g = |x: i32| if x % 2 == 0 { Ok(x / 2) } else { Err("odd") };
    for m in [Ok(5), Ok(4), Ok(0), Err("gone")] {
        assert_eq!(m.bind(f).bind(g), m.bind(|x| f(x).bind(g)));
    }
    assert_eq!(Ok(4).bind(f).bind(g), Err("odd"));
    assert_eq!(Ok(0).bind(f).bind(g), Err("not positive"));
}
