use algar::expression::final_tagless::{ExprSym, MulExprSym};
use algar::expression::object_algebras::{EvaluateInt, Render};

fn make_simple_expr<E>() -> E::Repr
where
    E: ExprSym,
{
    return E::add(E::i_val(2), E::i_val(3));
}

fn make_complex_expr<E>() -> E::Repr
where
    E: ExprSym,
{
    return E::add(E::add(E::i_val(2), E::i_val(3)), E::i_val(3));
}

fn make_complex_mul_expr<E>() -> E::Repr
where
    E: MulExprSym,
{
    return E::mul(
        E::add(E::add(E::i_val(2), E::i_val(3)), E::i_val(3)),
        E::mul(
            E::add(E::add(E::i_val(2), E::i_val(3)), E::i_val(3)),
            E::i_val(12),
        ),
    );
}

fn make_sample<E>() -> E::Repr
where
    E: ExprSym,
{
    return E::add(E::add(E::i_val(42), E::i_val(7)), E::i_val(2));
}

#[test]
fn final_tagless_simple_expression() {
    let expr = make_simple_expr::<EvaluateInt>();

    assert_eq!(5, expr);
}

#[test]
fn final_tagless_complex_expression() {
    let expr = make_complex_expr::<Render>();

    assert_eq!("((2 + 3) + 3)", expr);
}

#[test]
fn final_tagless_handle_mul_expression() {
    let expr = make_complex_mul_expr::<Render>();

    assert_eq!("(((2 + 3) + 3) * (((2 + 3) + 3) * 12))", expr);

    let expr = make_complex_mul_expr::<EvaluateInt>();

    assert_eq!(768, expr);
}

#[test]
fn final_tagless_one_expression_two_interpretations() {
    assert_eq!(51, make_sample::<EvaluateInt>());
    assert_eq!("((42 + 7) + 2)", make_sample::<Render>());
}
