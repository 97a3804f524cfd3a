use std::collections::HashMap;
use std::fmt::Display;

use algar::{lift_f, Free, Free::Pure, FunctorOnce, Monad, Morphism};

pub enum KeyValF<'a, A> {
    Get(String, Box<dyn 'a + FnOnce(String) -> A>),
    Put(String, String, A),
}

type KeyVal<'a, A> = Free<'a, KeyValF<'a, A>, A>;

impl<'a, A: 'a, B: 'a> FunctorOnce<'a, B> for KeyValF<'a, A> {
    type Unwrapped = A;

    type Wrapped = KeyValF<'a, B>;

    fn fmap<F>(self, f: F) -> Self::Wrapped
    where
        F: FnOnce(Self::Unwrapped) -> B + 'a,
    {
        match self {
            KeyValF::Get(k, cont) => KeyValF::Get(k, Box::new(move |s| f(cont(s)))),
            KeyValF::Put(k, v, cont) => KeyValF::Put(k, v, f(cont)),
        }
    }

    // The items below exist for the verifier only and are never called.

    fn fmap_applies_to(&self, _: A) -> bool {
        unreachable!()
    }

    fn fmap_ensures(self, _: Morphism<A, B>, _: KeyValF<'a, B>) -> bool {
        unreachable!()
    }

    fn lemma_fmap_applies_to_part(&self, _: A) {
        unreachable!()
    }

    fn lemma_fmap_refined(self, _: Morphism<A, B>, _: Morphism<A, B>, _: KeyValF<'a, B>) {
        unreachable!()
    }
}

#[test]
fn key_val_fmap() {
    let get_key_f = |s| lift_f(KeyValF::Get(s, Box::new(|a| a)));

    let mut get_key_1 = get_key_f("1".to_owned());

    match get_key_1 {
        Free::Pure(_) => panic!(),
        Free::Free(f) => match *f.0 {
            KeyValF::Get(k, next) => {
                assert_eq!("1", k);
                match next(k) {
                    Free::Pure(v) => assert_eq!("1", v),
                    Free::Free(_) => panic!(),
                }
            }

            KeyValF::Put(_, _, _) => panic!(),
        },
    }

    get_key_1 = get_key_f("1".to_owned());
    let get_key_mapped = get_key_1.fmap(|a| a.parse::<i32>().unwrap());

    match get_key_mapped {
        Free::Pure(p) => assert_eq!(p, 1),
        Free::Free(f) => match *f.0 {
            KeyValF::Get(k, next) => {
                assert_eq!("1", k);
                match next(k.clone()) {
                    Free::Pure(v) => assert_eq!(1, v), // <------ String has been mapped to Int
                    Free::Free(_) => panic!(),
                }
            }
            KeyValF::Put(_, _, _) => panic!(),
        },
    }
}

fn prog<'a>() -> KeyVal<'a, String> {
    put_key("1", "ue")
        .bind(move |_| put_key("2", "my love").bind(move |_| get_key("2").bind(move |a| Pure(a))))
}

#[test]
fn key_val_bind_and_eval() {
    // We have a computation that still has to execute! We can interpret as we want!
    let _p = prog();

    assert_eq!(
        "Put 1,ue\nPut 2,my love\nGet 2\nreturn 2",
        eval_to_string(prog())
    );

    assert_eq!(
        "my love",
        eval_real(prog(), &mut HashMap::<String, _>::new())
    );
}

fn get_key<'a>(key: &str) -> KeyVal<'a, String> {
    lift_f(KeyValF::Get(key.into(), Box::new(|a| a)))
}

fn put_key<'a>(key: &str, val: &str) -> KeyVal<'a, String> {
    lift_f(KeyValF::Put(key.into(), val.into(), String::new()))
}

fn eval_to_string<'a, A, R>(prog: Free<'a, KeyValF<'a, A>, R>) -> String
where
    R: Display,
    KeyValF<'a, A>: FunctorOnce<'a, Free<'a, KeyValF<'a, A>, R>, Wrapped = KeyValF<'a, Free<'a, KeyValF<'a, A>, R>>>,
{
    match prog {
        Free::Pure(a) => format!("return {}", a),
        Free::Free(m) => match *m.0 {
            KeyValF::Get(k, cont) => format!("Get {}\n{}", k.clone(), eval_to_string(cont(k))),
            KeyValF::Put(k, v, cont) => format!("Put {},{}\n{}", k, v, eval_to_string(cont)),
        },
    }
}

fn eval_real<'a, A, R>(
    prog: Free<'a, KeyValF<'a, A>, R>,
    cache: &mut HashMap<String, String>,
) -> R
where
    R: Display,
    KeyValF<'a, A>: FunctorOnce<'a, Free<'a, KeyValF<'a, A>, R>, Wrapped = KeyValF<'a, Free<'a, KeyValF<'a, A>, R>>>,
{
    match prog {
        Free::Pure(a) => a,
        Free::Free(m) => match *m.0 {
            KeyValF::Get(k, cont) => {
                let v = cache.get(&k).unwrap();
                eval_real(cont(v.clone()), cache)
            }
            KeyValF::Put(k, v, cont) => {
                let _v = cache.insert(k, v);
                eval_real(cont, cache)
            }
        },
    }
}

#[test]
fn free_program_is_built_not_run() {
    let mut called = false;
    let p: Free<Option<i32>, i32> = lift_f(None);
    let q: Free<Option<i32>, i32> = p.bind(|a| {
        called = true;
        Pure(a + 1)
    });
    match q {
        Free::Free(m) => assert!(m.0.is_none()),
        Free::Pure(_) => panic!(),
    }
    assert!(!called);
}

#[test]
fn free_over_option() {
    let p: Free<Option<i32>, i32> = lift_f(Some(5));
    let q: Free<Option<i32>, i32> = p.bind(|a| Pure(a + 1));
    match q {
        Free::Free(m) => match *m.0 {
            Some(Free::Pure(v)) => assert_eq!(v, 6),
            _ => panic!(),
        },
        Free::Pure(_) => panic!(),
    }
    let p: Free<Option<i32>, i32> = <Free<Option<i32>, ()> as Monad<i32>>::of(7);
    let q: Free<Option<i32>, String> = p.fmap(|a| format!("<{}>", a));
    match q {
        Free::Pure(v) => assert_eq!(v, "<7>"),
        Free::Free(_) => panic!(),
    }
}
