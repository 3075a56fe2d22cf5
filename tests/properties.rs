use halo2_proofs::pasta::Fp;
use halo2_proofs::poly::Rotation;
use polyeval::data::{EvalData, EvalError};
use polyeval::evaluator::{get_rotation_idx, GraphEvaluator};
use polyeval::expression::{Expression, Query};
use polyeval::field::Scalar;
use polyeval::graph::{Calculation, ValueSource};

fn fp(s: Scalar) -> Fp {
    Fp::from_raw([s.l0, s.l1, s.l2, s.l3])
}

fn query(index: usize, rotation: i32) -> Expression {
    Expression::Polynomial(Query {
        index,
        rotation: Rotation(rotation),
    })
}

fn b(e: Expression) -> Box<Expression> {
    Box::new(e)
}

fn sample_data() -> EvalData {
    EvalData {
        num_rows: 2,
        challenges: vec![Scalar::from_u64(11)],
        selectors: vec![],
        fixed: vec![vec![Scalar::from_u64(5), Scalar::from_u64(6)]],
        advice: vec![
            vec![Scalar::from_u64(7), Scalar::from_u64(8)],
            vec![Scalar::from_u64(9), Scalar::from_u64(10)],
        ],
    }
}

fn last(g: &GraphEvaluator) -> &Calculation {
    g.calculation(g.num_calculations() - 1)
}

#[test]
fn evaluation_is_deterministic() {
    let data = sample_data();
    let g = GraphEvaluator::new(&Expression::Product(b(query(1, 0)), b(query(2, 1))));
    assert_eq!(g.evaluate(&data, 0), g.evaluate(&data, 0));
    assert_eq!(g.evaluate(&data, 0), Ok(Scalar::from_u64(7 * 10)));
}

#[test]
fn constant_is_the_same_at_every_row() {
    let c = Scalar::from_raw([1, 2, 3, 4]);
    let g = GraphEvaluator::new(&Expression::Constant(c));
    let data = sample_data();
    assert_eq!(g.num_calculations(), 1);
    assert_eq!(g.evaluate(&data, 0), Ok(c));
    assert_eq!(g.evaluate(&data, 1), Ok(c));
}

#[test]
fn commuted_sum_and_product_share_a_node() {
    let data = sample_data();
    let ab = GraphEvaluator::new(&Expression::Sum(b(query(1, 0)), b(query(2, 0))));
    let ba = GraphEvaluator::new(&Expression::Sum(b(query(2, 0)), b(query(1, 0))));
    assert_eq!(ab.num_calculations(), ba.num_calculations());
    for row in 0..2 {
        assert_eq!(ab.evaluate(&data, row), ba.evaluate(&data, row));
    }
    let both = GraphEvaluator::new(&Expression::Product(
        b(Expression::Sum(b(query(1, 0)), b(query(2, 0)))),
        b(Expression::Sum(b(query(2, 0)), b(query(1, 0)))),
    ));
    // two stores, one add, one square of the shared add, the final store
    assert_eq!(both.num_calculations(), 5);
    assert!(matches!(both.calculation(3), Calculation::Square(_)));
    let m = GraphEvaluator::new(&Expression::Product(
        b(Expression::Product(b(query(1, 0)), b(query(2, 0)))),
        b(Expression::Product(b(query(2, 0)), b(query(1, 0)))),
    ));
    assert_eq!(m.num_calculations(), 5);
    assert_eq!(m.evaluate(&data, 1), Ok(Scalar::from_u64(8 * 8 * 10 * 10)));
}

#[test]
fn negated_summand_becomes_subtraction() {
    let data = sample_data();
    let g = GraphEvaluator::new(&Expression::Sum(
        b(query(1, 0)),
        b(Expression::Negated(b(query(2, 0)))),
    ));
    assert!(matches!(g.calculation(2), Calculation::Sub(_, _)));
    let r = g.evaluate(&data, 0).unwrap();
    assert_eq!(fp(r), Fp::from(7u64) - Fp::from(9u64));
    assert_eq!(fp(g.evaluate(&data, 1).unwrap()), Fp::from(8u64) - Fp::from(10u64));
    let zero_minus = GraphEvaluator::new(&Expression::Sum(
        b(Expression::Constant(Scalar::zero())),
        b(Expression::Negated(b(query(2, 0)))),
    ));
    assert!(matches!(zero_minus.calculation(1), Calculation::Negate(_)));
    assert_eq!(fp(zero_minus.evaluate(&data, 1).unwrap()), -Fp::from(10u64));
}

#[test]
fn zero_one_two_shortcuts() {
    let data = sample_data();
    let times = |c: Scalar| {
        GraphEvaluator::new(&Expression::Product(b(query(1, 0)), b(Expression::Constant(c))))
    };
    let zero = times(Scalar::zero());
    assert_eq!(zero.num_calculations(), 2);
    assert_eq!(zero.evaluate(&data, 0), Ok(Scalar::zero()));
    let one = times(Scalar::one());
    assert_eq!(one.num_calculations(), 2);
    assert_eq!(one.evaluate(&data, 1), Ok(Scalar::from_u64(8)));
    let two = times(Scalar::two());
    assert!(matches!(two.calculation(1), Calculation::Double(ValueSource::Intermediate(0))));
    assert_eq!(two.evaluate(&data, 1), Ok(Scalar::from_u64(16)));
    let neg_zero = GraphEvaluator::new(&Expression::Negated(b(Expression::Constant(Scalar::zero()))));
    assert!(matches!(last(&neg_zero), Calculation::Store(ValueSource::Constant(0))));
    assert_eq!(neg_zero.evaluate(&data, 0), Ok(Scalar::zero()));
}

#[test]
fn self_product_is_a_square() {
    let data = sample_data();
    let g = GraphEvaluator::new(&Expression::Product(b(query(2, 0)), b(query(2, 0))));
    assert_eq!(g.num_calculations(), 3);
    assert!(matches!(g.calculation(1), Calculation::Square(ValueSource::Intermediate(0))));
    assert_eq!(g.evaluate(&data, 0), Ok(Scalar::from_u64(81)));
}

#[test]
fn rotation_wraps_around() {
    assert_eq!(get_rotation_idx(1, -1, 2), 0);
    assert_eq!(get_rotation_idx(0, 2, 2), 0);
    assert_eq!(get_rotation_idx(0, -3, 2), 1);
    assert_eq!(get_rotation_idx(usize::MAX, 1, 3), 1);
    assert_eq!(get_rotation_idx(5, i32::MIN, 7), 3);
    let data = sample_data();
    let prev = GraphEvaluator::new(&query(1, -1));
    assert_eq!(prev.evaluate(&data, 1), Ok(Scalar::from_u64(7)));
    let skip = GraphEvaluator::new(&query(1, 2));
    assert_eq!(skip.evaluate(&data, 0), Ok(Scalar::from_u64(7)));
}

#[test]
fn repeated_subexpression_is_computed_once() {
    let data = sample_data();
    let x = || Expression::Product(b(query(1, 0)), b(query(2, 0)));
    let g = GraphEvaluator::new(&Expression::Sum(
        b(Expression::Sum(b(x()), b(x()))),
        b(x()),
    ));
    // a naive walk visits three copies of three nodes and two sums
    assert!(g.num_calculations() < 11);
    assert_eq!(g.num_calculations(), 6);
    assert_eq!(g.evaluate(&data, 1), Ok(Scalar::from_u64(3 * 8 * 10)));
}

#[test]
fn lookup_errors_are_reported() {
    let data = sample_data();
    assert_eq!(
        GraphEvaluator::new(&Expression::Challenge(3)).evaluate(&data, 0),
        Err(EvalError::ChallengeIndexOutOfBoundary {
            challenge_index: 3,
            challenges_len: 1
        })
    );
    assert_eq!(
        GraphEvaluator::new(&query(9, 0)).evaluate(&data, 0),
        Err(EvalError::ColumnVariableIndexOutOfBoundary { column_index: 8 })
    );
    let short = EvalData {
        num_rows: 2,
        challenges: vec![],
        selectors: vec![vec![true]],
        fixed: vec![],
        advice: vec![vec![Scalar::one()]],
    };
    assert_eq!(
        GraphEvaluator::new(&query(1, 1)).evaluate(&short, 0),
        Err(EvalError::RowIndexOutOfBoundary { row_index: 1 })
    );
    assert_eq!(
        GraphEvaluator::new(&query(0, 1)).evaluate(&short, 0),
        Err(EvalError::RowIndexOutOfBoundary { row_index: 1 })
    );
    let first_error = GraphEvaluator::new(&Expression::Sum(
        b(Expression::Challenge(5)),
        b(query(9, 0)),
    ));
    assert_eq!(
        first_error.evaluate(&data, 0),
        Err(EvalError::ChallengeIndexOutOfBoundary {
            challenge_index: 5,
            challenges_len: 1
        })
    );
}

#[test]
fn fixed_references_and_their_errors() {
    let data = sample_data();
    let rotations = vec![1usize];
    let constants = vec![Scalar::zero(), Scalar::one(), Scalar::two()];
    let fixed = Calculation::Store(ValueSource::Fixed { index: 0, rotation: 0 });
    assert_eq!(fixed.evaluate(&rotations, &constants, &vec![], &data), Ok(Scalar::from_u64(6)));
    let absent = Calculation::Store(ValueSource::Fixed { index: 1, rotation: 0 });
    assert_eq!(
        absent.evaluate(&rotations, &constants, &vec![], &data),
        Err(EvalError::ColumnVariableIndexOutOfBoundary { column_index: 1 })
    );
    let far = vec![4usize];
    assert_eq!(
        fixed.evaluate(&far, &constants, &vec![], &data),
        Err(EvalError::RowIndexOutOfBoundary { row_index: 4 })
    );
}

#[test]
fn horner_folds_parts_in_order() {
    let data = sample_data();
    let constants = vec![
        Scalar::zero(),
        Scalar::one(),
        Scalar::two(),
        Scalar::from_u64(3),
        Scalar::from_u64(10),
    ];
    let h = Calculation::Horner(
        ValueSource::Constant(3),
        vec![ValueSource::Constant(1), ValueSource::Constant(2)],
        ValueSource::Constant(4),
    );
    // ((3 * 10) + 1) * 10 + 2
    assert_eq!(h.evaluate(&vec![], &constants, &vec![], &data), Ok(Scalar::from_u64(312)));
    let empty = Calculation::Horner(ValueSource::Constant(3), vec![], ValueSource::Constant(4));
    assert_eq!(empty.evaluate(&vec![], &constants, &vec![], &data), Ok(Scalar::from_u64(3)));
    let bad = Calculation::Horner(
        ValueSource::Constant(3),
        vec![ValueSource::Challenge { index: 2 }],
        ValueSource::Constant(4),
    );
    assert_eq!(
        bad.evaluate(&vec![], &constants, &vec![], &data),
        Err(EvalError::ChallengeIndexOutOfBoundary {
            challenge_index: 2,
            challenges_len: 1
        })
    );
}

#[test]
fn field_operations_reduce() {
    let data = sample_data();
    let p_minus_one = Scalar::from_raw([
        0x992d30ed00000000,
        0x224698fc094cf91b,
        0,
        0x4000000000000000,
    ]);
    let g = GraphEvaluator::new(&Expression::Sum(
        b(Expression::Constant(p_minus_one)),
        b(Expression::Challenge(0)),
    ));
    assert_eq!(g.evaluate(&data, 0), Ok(Scalar::from_u64(10)));
    let s = GraphEvaluator::new(&Expression::Scaled(b(query(1, 0)), Scalar::from_u64(3)));
    assert_eq!(s.evaluate(&data, 1), Ok(Scalar::from_u64(24)));
    let n = GraphEvaluator::new(&Expression::Negated(b(Expression::Constant(Scalar::one()))));
    assert_eq!(n.evaluate(&data, 0), Ok(p_minus_one));
}
