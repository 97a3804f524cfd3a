use algar::Applicative;
use algar::Apply;
use algar::Functor;
use algar::Monad;
use algar::State;

#[test]
fn state_fmap() {
    let s = State::new(|s| (12, s));

    let s2 = s.fmap(|a| a + 2);
    assert_eq!(s2.execute("DOES_NOT_MATTER"), (14, "DOES_NOT_MATTER"));
}

#[test]
fn state_ap() {
    let s = State::new(|s| (12, s));
    let b = State::new(|s| (|x| format!("{}", x), s));

    let res = s.ap(b);

    assert_eq!(res.execute("FOO"), ("12".to_string(), "FOO"));
}

#[test]
fn state_lifta2() {
    let s = State::new(|s| (12, s));
    let b = State::new(|s| (14, format!("{}BAR", s)));

    let res = s.lift_a2(b, |x, y| x + y);

    assert_eq!(res.execute("FOO".to_string()), (26, "FOOBAR".to_string()));
}

#[test]
fn state_bind() {
    let s: State<String, i32> = State::new(|s| (12, s));

    let s2 = s.bind(|a| State::new(move |s| (a + 30, format!("{}_BAR", s))));

    assert_eq!(s2.execute("FOO".into()), (42, "FOO_BAR".into()));
}

#[test]
fn state_round_trip() {
    assert_eq!(State::new(|s| (7, s)).execute("s0"), (7, "s0"));
    assert_eq!(State::new(|s: Vec<i32>| ("v", s)).execute(vec![1, 2]), ("v", vec![1, 2]));
}

#[test]
fn state_of() {
    let s = <State<&str, ()> as Applicative<i32>>::of(7);
    assert_eq!(s.execute("s0"), (7, "s0"));
    let s = <State<&str, ()> as Monad<i32>>::of(7);
    assert_eq!(s.execute("s0"), (7, "s0"));
}

#[test]
fn state_threads_the_state_from_left_to_right() {
    let push = |c: char| {
        State::new(move |mut s: String| {
            s.push(c);
            (s.len(), s)
        })
    };
    let s = push('a').bind(move |n| push('b').fmap(move |m| n + m));
    assert_eq!(s.execute("".to_string()), (3, "ab".to_string()));

    let s = push('a').lift_a2(push('b'), |n, m| (n, m));
    assert_eq!(s.execute("".to_string()), ((1, 2), "ab".to_string()));

    let f = State::new(|mut s: String| {
        s.push('f');
        (|n: usize| n * 10, s)
    });
    let s = push('a').ap(f);
    assert_eq!(s.execute("".to_string()), (10, "af".to_string()));
}

#[test]
fn state_functor_laws() {
    let counter = || State::new(|s: i32| (s, s + 1));
    assert_eq!(counter().fmap(|x| x).execute(5), counter().execute(5));
    let f = |x: i32| x * 2;
    let g = |x: i32| x + 1;
    assert_eq!(
        counter().fmap(move |x| g(f(x))).execute(5),
        counter().fmap(f).fmap(g).execute(5)
    );
    assert_eq!(counter().fmap(f).fmap(g).execute(5), (11, 6));
}
