use algar::expression::coproduct::{
    Add, Coproduct, EvaluateInt, Expr, IntVal, Mul, MulExpr, Op, OpMul, Render,
};
use algar::Functor;

fn val(v: i32) -> Expr {
    Expr::roll(Coproduct::L(IntVal::new(v)))
}

fn add(lhs: Expr, rhs: Expr) -> Expr {
    Expr::roll(Coproduct::R(Add::new(lhs, rhs)))
}

fn m_val(v: i32) -> MulExpr {
    MulExpr::roll(Coproduct::R(Coproduct::L(IntVal::new(v))))
}

fn m_add(lhs: MulExpr, rhs: MulExpr) -> MulExpr {
    MulExpr::roll(Coproduct::R(Coproduct::R(Add::new(lhs, rhs))))
}

fn m_mul(lhs: MulExpr, rhs: MulExpr) -> MulExpr {
    MulExpr::roll(Coproduct::L(Mul::new(lhs, rhs)))
}

#[test]
fn coproduct_simple_eval_expression() {
    let expr = add(val(1), val(2));

    assert_eq!(expr.eval(), 3);
}

#[test]
fn coproduct_simple_fold_expression() {
    let expr = add(add(val(42), val(7)), val(2));

    assert_eq!(51, expr.clone().eval());
    assert_eq!("((42 + 7) + 2)", expr.render());
}

#[test]
fn coproduct_mul_expression() {
    let expr = m_add(m_val(3), m_mul(m_val(42), m_val(2)));

    assert_eq!(expr.eval(), 87);
}

#[test]
fn coproduct_render_expression() {
    let expr = m_add(m_val(3), m_mul(m_val(42), m_val(2)));

    assert_eq!(expr.clone().render(), "(3 + (42 * 2))");
    assert_eq!(expr.eval(), 87);
}

#[test]
fn coproduct_roll_and_unroll() {
    let expr = add(val(1), val(2));
    assert_eq!(expr, Expr::Sum(Box::new(Add::new(Expr::Val(1), Expr::Val(2)))));
    assert_eq!(expr.clone().unroll(), Coproduct::R(Add::new(Expr::Val(1), Expr::Val(2))));
    assert_eq!(Expr::roll(expr.clone().unroll()), expr);
    assert_eq!(val(7).unroll(), Coproduct::L(IntVal::new(7)));

    let product = m_mul(m_val(2), m_val(3));
    assert_eq!(MulExpr::roll(product.clone().unroll()), product);
    assert_eq!(m_val(7).unroll(), Coproduct::R(Coproduct::L(IntVal::new(7))));
}

#[test]
fn coproduct_one_layer() {
    let sum: Op<i32> = Coproduct::R(Add::new(40, 2));
    assert_eq!(sum.eval(), 42);
    let product: OpMul<i32> = Coproduct::L(Mul::new(-6, 7));
    assert_eq!(product.eval(), -42);
    let value: Op<String> = Coproduct::L(IntVal::new(-7));
    assert_eq!(value.render(), "-7");
    let sum: Op<String> = Coproduct::R(Add::new("a".to_string(), "b".to_string()));
    assert_eq!(sum.render(), "(a + b)");
}

#[test]
fn coproduct_fmap_keeps_the_side() {
    let sum: Op<i32> = Coproduct::R(Add::new(1, 2));
    assert_eq!(sum.fmap(|x| x * 10), Coproduct::R(Add::new(10, 20)));
    let value: Op<i32> = Coproduct::L(IntVal::new(5));
    assert_eq!(value.fmap(|x| x.to_string()), Coproduct::L(IntVal::new(5)));
    assert_eq!(Mul::new(2, 3).fmap(|x| x + 1), Mul::new(3, 4));
}

/// The union with itself in its slots, tied by a type of the caller: the fold maps itself
/// over the slots and interprets the layer that is left.
#[derive(Clone)]
struct Open(Box<OpMul<Open>>);

fn open_eval(e: Open) -> i32 {
    (*e.0).fmap(open_eval).eval()
}

fn open_render(e: Open) -> String {
    (*e.0).fmap(open_render).render()
}

#[test]
fn coproduct_open_union() {
    let value = |v: i32| Open(Box::new(Coproduct::R(Coproduct::L(IntVal::new(v)))));
    let sum = |l: Open, r: Open| Open(Box::new(Coproduct::R(Coproduct::R(Add::new(l, r)))));
    let product = |l: Open, r: Open| Open(Box::new(Coproduct::L(Mul::new(l, r))));
    let expr = sum(value(3), product(value(42), value(2)));

    assert_eq!(open_eval(expr.clone()), 87);
    assert_eq!(open_render(expr), "(3 + (42 * 2))");
}
