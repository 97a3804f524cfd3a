use algar::Applicative;
use algar::Apply;
use algar::Functor;
use algar::Monad;
use algar::Writer;

#[test]
fn writer_option_functor() {
    let a = Writer::new(1, String::from("FOO"));
    let b = a.fmap(|x| format!("{}", x));
    assert_eq!(b.runner, ("1".to_string(), "FOO".to_string()));
}

#[test]
fn writer_ap() {
    let a = Writer::new(1, String::from("FOO"));
    let b = a.ap(Writer::new(|x| format!("{}", x), String::from("BAR")));
    assert_eq!(b.runner, ("1".to_string(), "FOOBAR".to_string()));
}

#[test]
fn writer_lifta2() {
    let a = Writer::new(1, String::from("FOO"));
    let b = Writer::new(1, String::from("BAR"));
    let res = a.lift_a2(b, |u1, u2| u1 + u2);
    assert_eq!(res.runner, (2, "FOOBAR".to_string()));
}

#[test]
fn writer_bind() {
    let w = Writer::new(1, "FOO".to_string());
    let w2 = w.bind(|a| Writer::new(a + 41, "BAR".to_string()));

    assert_eq!(w2.runner, (42, "FOOBAR".into()));
}

#[test]
fn writer_log_order_is_call_order() {
    let w = Writer::new(1, "A".to_string()).bind(|a| Writer::new(a + 1, "B".to_string()));
    assert_eq!(w.execute(), (2, "AB".to_string()));
}

#[test]
fn writer_tell_and_execute() {
    let w = Writer::<i32, String>::tell("note".to_string());
    assert_eq!(w.execute(), ((), "note".to_string()));
    let w = Writer::<i32, String>::tell("one ".to_string())
        .bind(|_| Writer::<i32, String>::tell("two".to_string()));
    assert_eq!(w.execute(), ((), "one two".to_string()));
}

#[test]
fn writer_of_has_the_empty_log() {
    let w = <Writer<(), String> as Applicative<i32>>::of(7);
    assert_eq!(w.execute(), (7, String::new()));
    let w = <Writer<(), Vec<u8>> as Monad<i32>>::of(7);
    assert_eq!(w.execute(), (7, vec![]));
}

#[test]
fn writer_monad_laws() {
    let f = |x: i32| Writer::new(x + 1, "f".to_string());
    let g = |x: i32| Writer::new(x * 2, "g".to_string());
    let m = || Writer::new(1, "m".to_string());
    assert_eq!(<Writer<i32, String> as Monad<i32>>::of(5).bind(f).execute(), f(5).execute());
    assert_eq!(m().bind(<Writer<i32, String> as Monad<i32>>::of).execute(), m().execute());
    assert_eq!(m().bind(f).bind(g).execute(), m().bind(move |x| f(x).bind(g)).execute());
    assert_eq!(m().bind(f).bind(g).execute(), (4, "mfg".to_string()));
}
