use algar::Monad;
use algar::StateT;

#[test]
fn state_t_new_option() {
    let s_t = StateT::new(|s| Option::Some((1, s)));

    assert_eq!(StateT::execute(s_t, "TEST"), Option::Some((1, "TEST")));
}

#[test]
fn state_t_bind() {
    let s_t = StateT::new(|s| Option::Some((1, s)));

    let s_t2 = s_t.bind(|a| StateT::new(move |s| Option::Some((a + 41, format!("{}_BAR", s)))));

    assert_eq!(s_t2.execute("FOO".into()), Option::Some((42, "FOO_BAR".into())));
}

#[test]
fn state_t_bind_fail() {
    let s_t = StateT::new(|s: String| Option::Some((1, s)));

    let s_t2 = s_t.bind(|_a| StateT::new(|_s| Option::<(i32, String)>::None));

    assert_eq!(s_t2.execute("FOO".into()), Option::None);
}

#[test]
fn state_t_lift() {
    let a = Option::Some(42);
    let lifted = StateT::<&str, Option<i32>>::lift(a);
    //lifted type is StateT<&str, Option<(i32, &str)>>>!

    assert_eq!(
        Some((43, "STATE")),
        lifted
            .bind(|a| StateT::new(move |s| Option::Some((a + 1, s))))
            .execute("STATE")
    );

    // But if the value we lift is None, we get...
    let b: Option<i32> = None;

    let lifted2 = StateT::<&str, Option<i32>>::lift(b);

    assert!(lifted2
        .bind(|a| StateT::new(move |s| Option::Some((a + 1, s))))
        .execute("STATE")
        .is_none());
}

#[test]
fn state_t_of() {
    let s_t = <StateT<&str, Option<((), &str)>> as Monad<i32>>::of(7);
    assert_eq!(s_t.execute("STATE"), Some((7, "STATE")));
}

#[test]
fn state_t_failure_skips_what_follows() {
    let s_t = StateT::new(|_s: String| Option::<(i32, String)>::None);
    let mut called = false;
    let s_t2 = s_t.bind(|a| {
        called = true;
        StateT::new(move |s| Option::Some((a + 41, s)))
    });
    assert_eq!(s_t2.execute("FOO".into()), Option::None);
    assert!(!called);
}
