use algar::expression::object_algebras::{BoolExpr, EvaluateInt, Expr, MulExpr, Render};

fn make_simple_expr<E>(expr: &dyn Expr<E>) -> E {
    return expr.add(expr.i_val(2), expr.i_val(3));
}

fn make_complex_expr<E>(expr: &dyn Expr<E>) -> E {
    return expr.add(expr.add(expr.i_val(2), expr.i_val(3)), expr.i_val(3));
}

fn make_complex_mul_expr<E>(expr: &dyn MulExpr<E>) -> E {
    return expr.mul(
        expr.add(
            expr.mul(expr.add(expr.i_val(1), expr.i_val(5)), expr.i_val(7)),
            expr.i_val(3),
        ),
        expr.i_val(3),
    );
}

// It compiles, but it mixes truth values and integers.
fn make_mixed_expr<E>(expr: &dyn BoolExpr<E>) -> E {
    return expr.add(expr.add(expr.b(false), expr.i_val(3)), expr.i_val(3));
}

fn make_sample<E>(expr: &dyn Expr<E>) -> E {
    return expr.add(expr.add(expr.i_val(42), expr.i_val(7)), expr.i_val(2));
}

#[test]
fn object_algebras_simple_expression() {
    let expr = make_simple_expr(&EvaluateInt {});

    assert_eq!(5, expr);
}

#[test]
fn object_algebras_complex_expression() {
    let expr = make_complex_expr(&Render {});

    assert_eq!("((2 + 3) + 3)", expr);
}

#[test]
fn object_algebras_handle_mul_expression() {
    let expr = make_complex_mul_expr(&Render {});

    assert_eq!("((((1 + 5) * 7) + 3) * 3)", expr);

    let expr = make_complex_mul_expr(&EvaluateInt {});

    assert_eq!(135, expr);
}

#[test]
fn object_algebras_handle_mixed_wrong_expression() {
    let expr = make_mixed_expr(&Render {});

    assert_eq!("(([false] + 3) + 3)", expr);
}

#[test]
fn object_algebras_one_expression_two_interpretations() {
    assert_eq!(51, make_sample(&EvaluateInt {}));
    assert_eq!("((42 + 7) + 2)", make_sample(&Render {}));
}

#[test]
fn object_algebras_truth_values() {
    let render = Render {};
    assert_eq!("([true] AND [false])", render.and(render.b(true), render.b(false)));
}
