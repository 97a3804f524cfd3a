use algar::{Monad, ResultT, StateT, Writer};

type Stage<'a, A> = StateT<'a, i32, ResultT<Writer<Result<(A, i32), String>, String>>>;

/// A stage that checks `amount`, adds it to the state and logs its name, whatever the check
/// says.
fn add<'a>(name: &'a str, amount: i32) -> Stage<'a, ()> {
    StateT::new(move |total: i32| {
        let checked = if amount < 0 {
            Err(format!("{} refused at {}", name, total))
        } else {
            Ok(((), total + amount))
        };
        ResultT::new(Writer::new(checked, format!("{};", name)))
    })
}

fn run(stage: Stage<()>, start: i32) -> (Result<((), i32), String>, String) {
    Writer::execute(ResultT::execute(StateT::execute(stage, start)))
}

#[test]
fn stack_runs_all_stages() {
    let stages = add("one", 1).bind(|_| add("two", 2).bind(|_| add("three", 3)));

    assert_eq!(run(stages, 10), (Ok(((), 16)), "one;two;three;".to_string()));
}

#[test]
fn stack_short_circuits_and_keeps_the_log() {
    let stages = add("one", 1).bind(|_| add("two", -2).bind(|_| add("three", 3)));

    let (result, log) = run(stages, 10);

    // The error is that of the second stage, which saw the state as the first stage left it.
    assert_eq!(result, Err("two refused at 11".to_string()));
    // The log holds the entry of the stage that failed and nothing of what follows.
    assert_eq!(log, "one;two;");
}

#[test]
fn stack_failure_at_the_first_stage() {
    let stages = add("one", -1).bind(|_| add("two", 2));

    assert_eq!(run(stages, 10), (Err("one refused at 10".to_string()), "one;".to_string()));
}

#[test]
fn stack_lift_threads_the_state_through() {
    let note = |text: &str| -> Stage<'static, ()> {
        StateT::<i32, ResultT<Writer<Result<(), String>, String>>>::lift(ResultT::lift(
            Writer::<i32, String>::tell(text.to_string()),
        ))
    };
    let stages = note("start;").bind(|_| add("one", 1).bind(move |_| note("end;")));

    assert_eq!(run(stages, 10), (Ok(((), 11)), "start;one;end;".to_string()));
}

#[test]
fn result_t_over_writer_keeps_the_log_on_failure() {
    let first = ResultT::new(Writer::new(Result::<i32, String>::Ok(1), "a".to_string()));
    let second = first
        .bind(|_| ResultT::new(Writer::new(Result::<i32, String>::Err("no".into()), "b".to_string())));
    let third = second
        .bind(|v: i32| ResultT::new(Writer::new(Result::<i32, String>::Ok(v + 1), "c".to_string())));

    assert_eq!(third.execute().execute(), (Err("no".to_string()), "ab".to_string()));
}
