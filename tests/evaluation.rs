use halo2_proofs::pasta::Fp;
use halo2_proofs::poly::Rotation;
use polyeval::data::EvalData;
use polyeval::evaluator::GraphEvaluator;
use polyeval::expression::{Expression, Query};
use polyeval::field::Scalar;
use rand::Rng;

fn random_scalar() -> Scalar {
    let mut rng = rand::thread_rng();
    let top: u64 = rng.gen::<u64>() & 0x3fff_ffff_ffff_ffff;
    Scalar::from_raw([rng.gen(), rng.gen(), rng.gen(), top])
}

fn fp(s: Scalar) -> Fp {
    Fp::from_raw([s.l0, s.l1, s.l2, s.l3])
}

fn empty_data() -> EvalData {
    EvalData {
        num_rows: 0,
        challenges: vec![],
        selectors: vec![],
        fixed: vec![],
        advice: vec![],
    }
}

fn query(index: usize, rotation: i32) -> Expression {
    Expression::Polynomial(Query {
        index,
        rotation: Rotation(rotation),
    })
}

fn sum(mut exprs: Vec<Expression>) -> Box<Expression> {
    if exprs.is_empty() {
        Box::new(Expression::Constant(Scalar::zero()))
    } else {
        let first = exprs.remove(0);
        Box::new(Expression::Sum(Box::new(first), sum(exprs)))
    }
}

fn two_by_two() -> ([Scalar; 8], EvalData) {
    let v: [Scalar; 8] = std::array::from_fn(|_| random_scalar());
    let [advice00, advice01, advice10, advice11, fixed00, fixed01, fixed10, fixed11] = v;
    let data = EvalData {
        num_rows: 2,
        challenges: vec![],
        selectors: vec![vec![true, false], vec![true, false]],
        fixed: vec![vec![fixed00, fixed10], vec![fixed01, fixed11]],
        advice: vec![vec![advice00, advice10], vec![advice01, advice11]],
    };
    (v, data)
}

#[test]
fn constant() {
    let val = random_scalar();
    assert_eq!(
        GraphEvaluator::new(&Expression::Constant(val))
            .evaluate(&empty_data(), 0)
            .unwrap(),
        val
    );
}

#[test]
fn sum_const() {
    let lhs = random_scalar();
    let rhs = random_scalar();
    let res = GraphEvaluator::new(&Expression::Sum(
        Box::new(Expression::Constant(lhs)),
        Box::new(Expression::Constant(rhs)),
    ))
    .evaluate(&empty_data(), 0)
    .unwrap();
    assert_eq!(fp(res), fp(lhs) + fp(rhs));
}

#[test]
fn product_const() {
    let lhs = random_scalar();
    let rhs = random_scalar();
    let res = GraphEvaluator::new(&Expression::Product(
        Box::new(Expression::Constant(lhs)),
        Box::new(Expression::Constant(rhs)),
    ))
    .evaluate(&empty_data(), 0)
    .unwrap();
    assert_eq!(fp(res), fp(lhs) * fp(rhs));
}

#[test]
fn neg_const() {
    let value = random_scalar();
    let res = GraphEvaluator::new(&Expression::Negated(Box::new(Expression::Constant(value))))
        .evaluate(&empty_data(), 0)
        .unwrap();
    assert_eq!(fp(res), -fp(value));
}

#[test]
fn poly() {
    let (v, data) = two_by_two();
    let [advice00, _advice01, advice10, advice11, fixed00, _fixed01, fixed10, _fixed11] = v;
    let (selector1, selector2) = (true, false);
    let num_selectors = data.num_selectors();
    let num_fixed = data.num_fixed();

    let eval_selector = |column_index: usize, rotation: i32, row: usize| {
        GraphEvaluator::new(&query(column_index, rotation)).evaluate(&data, row)
    };
    let eval_fixed = |column_index: usize, rotation: i32, row: usize| {
        GraphEvaluator::new(&query(num_selectors + column_index, rotation)).evaluate(&data, row)
    };
    let eval_advice = |column_index: usize, rotation: i32, row: usize| {
        GraphEvaluator::new(&query(num_selectors + num_fixed + column_index, rotation))
            .evaluate(&data, row)
    };

    assert_eq!(eval_advice(0, 0, 0), Ok(advice00));
    assert_eq!(eval_advice(0, 1, 0), Ok(advice10));
    assert_eq!(eval_advice(0, 0, 1), Ok(advice10));
    assert_eq!(eval_advice(0, -1, 1), Ok(advice00));
    assert_eq!(eval_advice(1, 0, 1), Ok(advice11));

    assert_eq!(eval_fixed(0, 0, 0), Ok(fixed00));
    assert_eq!(eval_fixed(0, 0, 1), Ok(fixed10));
    assert_eq!(eval_fixed(0, -1, 1), Ok(fixed00));

    assert_eq!(
        eval_selector(0, 0, 0),
        Ok(if selector1 { Scalar::one() } else { Scalar::zero() })
    );
    assert_eq!(
        eval_selector(0, 0, 1),
        Ok(if selector2 { Scalar::one() } else { Scalar::zero() })
    );

    assert_eq!(eval_advice(0, 2, 0), Ok(advice00));
    assert_eq!(eval_advice(0, 1, 1), Ok(advice00));
}

#[test]
fn challenge() {
    let value = random_scalar();
    let data = EvalData {
        challenges: vec![value],
        ..empty_data()
    };
    assert_eq!(
        GraphEvaluator::new(&Expression::Challenge(0)).evaluate(&data, 0),
        Ok(value)
    );
}

#[test]
fn eval() {
    let (v, data) = two_by_two();
    let [advice00, advice01, _advice10, _advice11, fixed00, _fixed01, _fixed10, _fixed11] = v;
    let num_selectors = data.num_selectors();
    let num_fixed = data.num_fixed();
    let get_fixed = |column_index: usize, rotation: i32| query(num_selectors + column_index, rotation);
    let get_advice =
        |column_index: usize, rotation: i32| query(num_selectors + num_fixed + column_index, rotation);

    let res = GraphEvaluator::new(&Expression::Product(
        sum(vec![get_advice(0, 0), get_advice(1, 0), get_advice(1, 0)]),
        sum(vec![get_fixed(0, 0), get_advice(0, 0)]),
    ))
    .evaluate(&data, 0)
    .unwrap();
    assert_eq!(
        fp(res),
        (fp(advice00) + fp(advice01) + fp(advice01)) * (fp(fixed00) + fp(advice00))
    );
}
