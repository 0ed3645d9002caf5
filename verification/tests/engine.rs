use plonk_core::field::{Fp, P};
use plonk_core::ir::{eval, Cell, Column, ColumnKind, EvalError, Expression, Table};

fn empty_table(height: usize) -> Table {
    Table {
        height,
        advice: vec![],
        fixed: vec![],
        instance: vec![],
        selectors: vec![],
        copies: vec![],
    }
}

#[test]
fn field_representatives_are_reduced() {
    assert_eq!(Fp::new(P).as_u64(), 0);
    assert_eq!(Fp::new(P + 1).as_u64(), 1);
    assert_eq!(Fp::zero().as_u64(), 0);
    assert_eq!(Fp::one().as_u64(), 1);
}

#[test]
fn field_arithmetic_wraps_at_the_modulus() {
    assert_eq!(Fp::new(P - 1).add(Fp::new(5)).as_u64(), 4);
    assert_eq!(Fp::zero().sub(Fp::one()).as_u64(), P - 1);
    assert_eq!(Fp::new(65536).mul(Fp::new(65536)).as_u64(), 2);
    assert_eq!(Fp::new(3).neg().as_u64(), P - 3);
    assert_eq!(Fp::zero().neg().as_u64(), 0);
    assert!(Fp::new(P).equals(Fp::zero()));
    assert!(!Fp::new(1).equals(Fp::new(2)));
}

#[test]
fn evaluation_follows_operator_semantics() {
    let t = empty_table(1);
    let sum = Expression::Sum(
        Box::new(Expression::Constant(Fp::new(3))),
        Box::new(Expression::Constant(Fp::new(4))),
    );
    assert_eq!(eval(&sum, &t, 0), Ok(Fp::new(7)));
    let product = Expression::Product(
        Box::new(Expression::Constant(Fp::new(3))),
        Box::new(Expression::Constant(Fp::new(4))),
    );
    assert_eq!(eval(&product, &t, 0), Ok(Fp::new(12)));
    let scaled = Expression::Scaled(Fp::new(3), Box::new(Expression::Constant(Fp::new(5))));
    assert_eq!(eval(&scaled, &t, 0), Ok(Fp::new(15)));
    let negated = Expression::Negate(Box::new(Expression::Constant(Fp::new(1))));
    assert_eq!(eval(&negated, &t, 0), Ok(Fp::new(P - 1)));
}

#[test]
fn evaluation_resolves_rotations() {
    let t = Table {
        height: 2,
        advice: vec![vec![Some(Fp::new(5)), Some(Fp::new(9))]],
        fixed: vec![],
        instance: vec![],
        selectors: vec![vec![true, false]],
        copies: vec![],
    };
    assert_eq!(eval(&Expression::Advice(0, 0), &t, 0), Ok(Fp::new(5)));
    assert_eq!(eval(&Expression::Advice(0, 1), &t, 0), Ok(Fp::new(9)));
    assert_eq!(eval(&Expression::Advice(0, -1), &t, 1), Ok(Fp::new(5)));
    assert_eq!(eval(&Expression::Advice(0, -1), &t, 0), Err(EvalError::OutOfBounds));
    assert_eq!(eval(&Expression::Advice(0, 2), &t, 0), Err(EvalError::OutOfBounds));
    assert_eq!(eval(&Expression::Advice(1, 0), &t, 0), Err(EvalError::OutOfBounds));
}

#[test]
fn evaluation_distinguishes_unassigned_cells() {
    let t = Table {
        height: 1,
        advice: vec![vec![None]],
        fixed: vec![],
        instance: vec![],
        selectors: vec![],
        copies: vec![],
    };
    let cell = Cell { column: Column { kind: ColumnKind::Advice, index: 0 }, row: 0 };
    assert_eq!(eval(&Expression::Advice(0, 0), &t, 0), Err(EvalError::Unassigned(cell)));
}

#[test]
fn selector_leaves_read_the_activation_bit() {
    let t = Table {
        height: 2,
        advice: vec![],
        fixed: vec![],
        instance: vec![],
        selectors: vec![vec![true, false]],
        copies: vec![],
    };
    let q = Expression::Selector(plonk_core::ir::Selector { index: 0 });
    assert_eq!(eval(&q, &t, 0), Ok(Fp::one()));
    assert_eq!(eval(&q, &t, 1), Ok(Fp::zero()));
}
