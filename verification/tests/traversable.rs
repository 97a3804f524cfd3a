use algar::Traversable;

#[test]
fn test_vec_option_traverse() {
    let a = vec![1, 2, 3];

    let result = Traversable::<_, Option<_>>::traverse(a, |v| Option::Some((*v).to_string()));
    assert_eq!(
        Option::Some(vec!["1".to_string(), "2".to_string(), "3".to_string()]),
        result
    );
}

#[test]
fn test_vec_option_traverse_fail() {
    let a = vec![1, 2, 3];

    let result =
        Traversable::<_, Option<_>>::traverse(a, |v| if *v > 2 { None } else { Option::Some(*v) });
    assert_eq!(None, result);
}

#[test]
fn test_vec_option_sequence() {
    let a = vec![Option::Some(1), Option::Some(2), Option::Some(3)];

    let result = Traversable::<_, Option<_>>::sequence_a(a);
    assert_eq!(Option::Some(vec![1, 2, 3]), result);
}

#[test]
fn test_vec_option_sequence_fail() {
    let a = vec![Option::Some(1), None, Option::Some(3)];

    let result = Traversable::<_, Option<_>>::sequence_a(a);
    assert_eq!(None, result);
}

#[test]
fn test_vec_option_traverse_empty() {
    let a: Vec<i32> = vec![];

    let result = Traversable::<_, Option<_>>::traverse(a, |v| Option::Some(*v));
    assert_eq!(Option::Some(Vec::<i32>::new()), result);
}

#[test]
fn test_vec_result_traverse() {
    let check = |v: &i32| if *v > 2 { Err(*v) } else { Ok(*v * 10) };
    let result: Result<Vec<i32>, i32> = vec![1, 2].traverse(check);
    assert_eq!(Ok(vec![10, 20]), result);
    let result: Result<Vec<i32>, i32> = vec![1, 3, 2].traverse(check);
    assert_eq!(Err(3), result);
}

#[test]
fn test_vec_writer_traverse_collects_in_order() {
    let note = |v: &i32| algar::Writer::new(*v * 10, format!("{};", v));
    let result: algar::Writer<Vec<i32>, String> = vec![1, 2, 3].traverse(note);
    let (values, log) = result.execute();
    assert_eq!(values, vec![10, 20, 30]);
    assert_eq!(log, "3;2;1;");
}
