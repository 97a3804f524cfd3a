use algar::{Monoid, Semigroup};

#[test]
fn string_monoid_laws() {
    let a = || "A".to_string();
    let b = || "B".to_string();
    assert_eq!(String::mempty().mappend(a()), "A");
    assert_eq!(a().mappend(String::mempty()), "A");
    assert_eq!(String::mempty().mappend(a().mappend(b())), "AB");
    assert_eq!(String::mempty().mappend(a()).mappend(b()), "AB");
}

#[test]
fn string_mappend() {
    assert_eq!("Hello ".to_string().mappend("Joe".to_string()), "Hello Joe");
}

#[test]
fn vec_monoid_laws() {
    assert_eq!(Vec::<i32>::mempty(), Vec::<i32>::new());
    assert_eq!(Vec::mempty().mappend(vec![1, 2]), vec![1, 2]);
    assert_eq!(vec![1, 2].mappend(Vec::mempty()), vec![1, 2]);
    assert_eq!(vec![1].mappend(vec![2]).mappend(vec![3]), vec![1, 2, 3]);
    assert_eq!(vec![1].mappend(vec![2].mappend(vec![3])), vec![1, 2, 3]);
}

#[test]
fn i32_monoid_laws() {
    assert_eq!(i32::mempty(), 0);
    assert_eq!(2.mappend(2), 4);
    assert_eq!(i32::mempty().mappend(7), 7);
    assert_eq!(7.mappend(i32::mempty()), 7);
    assert_eq!(1.mappend(2).mappend(3), 1.mappend(2.mappend(3)));
}

#[test]
fn i32_mappend_wraps_around() {
    assert_eq!(i32::MAX.mappend(1), i32::MIN);
    assert_eq!(i32::MIN.mappend(-1), i32::MAX);
    assert_eq!(i32::MAX.mappend(1).mappend(-1), i32::MAX.mappend(1.mappend(-1)));
}
