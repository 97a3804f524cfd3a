use algar::Foldable;

#[test]
fn vec_foldr() {
    let a = vec![1, 2, 3];

    assert_eq!(18, a.foldr(12, |acc, v| acc + v));
}

#[test]
fn vec_foldr_starts_at_the_right() {
    let a = vec!["a", "b", "c"];

    assert_eq!("cba".to_string(), a.foldr(String::new(), |acc, v| acc + v));
}

#[test]
fn vec_foldr_empty_returns_the_start_value() {
    let a: Vec<i32> = vec![];

    assert_eq!(12, a.foldr(12, |acc, v| acc + v));
}
