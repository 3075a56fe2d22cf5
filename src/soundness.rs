//! Soundness of the compiler against the expression tree's own value, and
//! reuse of compiled sub-expressions.

use crate::data::{EvalError, GetDataForEval};
use crate::evaluator::{
    compile, compile_top, cst, empty_model, graph_value, lemma_grows_trans, lemma_run_error_stays,
    lemma_source_grows, lemma_step_calc, lemma_step_constant, lemma_step_rotation, model_grows,
    model_source_ok, model_wf, mul_calc, resolved_rows, rotation_row, run_calcs, step_calc,
    step_constant, step_rotation, step_sub, step_sum, sum_calc, GraphModel,
};
use crate::expression::Expression;
use crate::field::{canon, fneg, modulus, Scalar};
use crate::graph::{
    calc_same, calc_value, first_index, insert_calc, insert_dedup, lemma_first_index_bounds,
    lemma_first_index_skip, lemma_first_same_bounds, lemma_first_same_skip, source_value,
    Calculation, ValueSource,
};
use crate::laws::{
    lemma_calc_same_refl, lemma_calc_same_value, lemma_insert_calc_slot, lemma_run_slots,
};
use crate::modarith::{
    lemma_fadd_cong, lemma_fmul_cong, lemma_fneg_cong, lemma_fsub_cong, lemma_reduced_value,
    lemma_small_values,
};
use vstd::arithmetic::div_mod::{
    lemma_add_mod_noop, lemma_mod_twice, lemma_mul_mod_noop_general, lemma_small_mod,
    lemma_sub_mod_noop,
};
use vstd::prelude::*;

verus! {

/// The value of an expression at row `row` of the data `d`, read straight
/// off the tree, as an integer to be taken modulo p. A lookup that fails
/// counts as zero; a graph evaluation that succeeds meets no such lookup.
pub open spec fn expr_value<G: GetDataForEval>(e: Expression, d: &G, row: usize) -> int
    decreases e,
{
    match e {
        Expression::Constant(c) => c.value(),
        Expression::Polynomial(q) => match d.column_var_spec(
            rotation_row(row, q.rotation.0, d.row_size_spec()) as usize,
            q.index,
        ) {
            Ok(v) => v.value(),
            Err(_) => 0,
        },
        Expression::Challenge(i) => if i < d.challenges_spec().len() {
            d.challenges_spec()[i as int].value()
        } else {
            0
        },
        Expression::Negated(a) => -expr_value(*a, d, row),
        Expression::Sum(a, b) => expr_value(*a, d, row) + expr_value(*b, d, row),
        Expression::Product(a, b) => expr_value(*a, d, row) * expr_value(*b, d, row),
        Expression::Scaled(a, f) => expr_value(*a, d, row) * f.value(),
    }
}

/// No calculation of the graph stores a constant or an intermediate; the
/// compiler only stores column cells and challenges, so the final store it
/// appends is always new.
pub open spec fn no_plain_store(m: GraphModel) -> bool {
    forall|k: int|
        0 <= k < m.calcs.len() ==> !plain_store(#[trigger] m.calcs[k])
}

/// A store of a constant or an intermediate.
pub open spec fn plain_store(c: Calculation) -> bool {
    match c {
        Calculation::Store(ValueSource::Constant(_)) => true,
        Calculation::Store(ValueSource::Intermediate(_)) => true,
        _ => false,
    }
}

proof fn lemma_step_plain(m: GraphModel, c: Calculation)
    requires
        no_plain_store(m),
        !plain_store(c),
    ensures
        no_plain_store(step_calc(m, c).0),
{
    lemma_first_same_bounds(m.calcs, c, 0);
    let m2 = step_calc(m, c).0;
    assert forall|k: int| 0 <= k < m2.calcs.len() implies !plain_store(#[trigger] m2.calcs[k]) by {
        if k < m.calcs.len() {
            assert(m2.calcs[k] == m.calcs[k]);
        }
    }
}

/// Compiling into a well-formed graph keeps it well formed, only grows it,
/// and returns a reference into it.
pub proof fn lemma_compile_props(m: GraphModel, e: Expression)
    requires
        model_wf(m),
    ensures
        model_wf(compile(m, e).0),
        model_grows(m, compile(m, e).0),
        model_source_ok(compile(m, e).0, compile(m, e).1),
        compile(m, e).1 is Constant || compile(m, e).1 is Intermediate,
        no_plain_store(m) ==> no_plain_store(compile(m, e).0),
    decreases e,
{
    match e {
        Expression::Constant(c) => {
            lemma_step_constant(m, c);
        },
        Expression::Polynomial(q) => {
            lemma_step_rotation(m, q.rotation.0);
            let (m1, r) = step_rotation(m, q.rotation.0);
            let c = Calculation::Store(ValueSource::Poly { index: q.index, rotation: r });
            lemma_step_calc(m1, c);
            if no_plain_store(m1) {
                lemma_step_plain(m1, c);
            }
            lemma_grows_trans(m, m1, step_calc(m1, c).0);
        },
        Expression::Challenge(i) => {
            lemma_step_calc(m, Calculation::Store(ValueSource::Challenge { index: i }));
            if no_plain_store(m) {
                lemma_step_plain(m, Calculation::Store(ValueSource::Challenge { index: i }));
            }
        },
        Expression::Negated(a) => match *a {
            Expression::Constant(c) => {
                lemma_step_constant(m, fneg(c));
            },
            _ => {
                lemma_compile_props(m, *a);
                let (m1, ra) = compile(m, *a);
                if ra != cst(0) {
                    lemma_step_calc(m1, Calculation::Negate(ra));
                    if no_plain_store(m1) {
                        lemma_step_plain(m1, Calculation::Negate(ra));
                    }
                    lemma_grows_trans(m, m1, step_calc(m1, Calculation::Negate(ra)).0);
                }
            },
        },
        Expression::Sum(a, b) => {
            let inner = match *b {
                Expression::Negated(bi) => *bi,
                _ => *b,
            };
            lemma_compile_props(m, *a);
            let (m1, ra) = compile(m, *a);
            lemma_compile_props(m1, inner);
            let (m2, rb) = compile(m1, inner);
            lemma_source_grows(m1, m2, ra);
            lemma_grows_trans(m, m1, m2);
            let c = match *b {
                Expression::Negated(_) => if ra == cst(0) {
                    Calculation::Negate(rb)
                } else {
                    Calculation::Sub(ra, rb)
                },
                _ => sum_calc(ra, rb),
            };
            lemma_step_calc(m2, c);
            if no_plain_store(m2) {
                lemma_step_plain(m2, c);
            }
            lemma_grows_trans(m, m2, step_calc(m2, c).0);
        },
        Expression::Product(a, b) => {
            lemma_compile_props(m, *a);
            let (m1, ra) = compile(m, *a);
            lemma_compile_props(m1, *b);
            let (m2, rb) = compile(m1, *b);
            lemma_source_grows(m1, m2, ra);
            lemma_grows_trans(m, m1, m2);
            let c = if ra == cst(2) {
                Calculation::Double(rb)
            } else if rb == cst(2) {
                Calculation::Double(ra)
            } else if ra == rb {
                Calculation::Square(ra)
            } else {
                mul_calc(ra, rb)
            };
            lemma_step_calc(m2, c);
            if no_plain_store(m2) {
                lemma_step_plain(m2, c);
            }
            lemma_grows_trans(m, m2, step_calc(m2, c).0);
        },
        Expression::Scaled(a, f) => {
            if f != canon(0) && f != canon(1) {
                lemma_step_constant(m, f);
                let (m1, rf) = step_constant(m, f);
                lemma_compile_props(m1, *a);
                let (m2, ra) = compile(m1, *a);
                lemma_source_grows(m1, m2, rf);
                lemma_grows_trans(m, m1, m2);
                lemma_step_calc(m2, Calculation::Mul(ra, rf));
                if no_plain_store(m2) {
                    lemma_step_plain(m2, Calculation::Mul(ra, rf));
                }
                lemma_grows_trans(m, m2, step_calc(m2, Calculation::Mul(ra, rf)).0);
            } else if f == canon(1) {
                lemma_compile_props(m, *a);
            }
        },
    }
}

/// The conditions under which a graph `big` has run successfully at a row.
pub open spec fn run_ok<G: GetDataForEval>(
    big: GraphModel,
    d: &G,
    row: usize,
    inter: Seq<Scalar>,
) -> bool {
    &&& model_wf(big)
    &&& big.constants.len() < usize::MAX
    &&& big.calcs.len() < usize::MAX
    &&& big.rotations.len() < usize::MAX
    &&& run_calcs(
        d,
        big.calcs,
        big.calcs.len() as int,
        resolved_rows(big.rotations, row, d.row_size_spec()),
        big.constants,
    ) == Ok::<Seq<Scalar>, EvalError>(inter)
}

/// In a successful run of a graph grown from the insertion of `c`, the
/// returned reference holds what `c` computes, and that is not an error.
proof fn lemma_slot<G: GetDataForEval>(
    mx: GraphModel,
    c: Calculation,
    big: GraphModel,
    d: &G,
    row: usize,
    inter: Seq<Scalar>,
)
    requires
        model_grows(step_calc(mx, c).0, big),
        run_ok(big, d, row, inter),
    ensures
        ({
            let rows = resolved_rows(big.rotations, row, d.row_size_spec());
            &&& source_value(d, step_calc(mx, c).1, rows, big.constants, inter) == calc_value(
                d,
                c,
                rows,
                big.constants,
                inter,
            )
            &&& calc_value(d, c, rows, big.constants, inter) is Ok
        }),
{
    let rows = resolved_rows(big.rotations, row, d.row_size_spec());
    lemma_insert_calc_slot(mx.calcs, c);
    lemma_run_slots(d, big, big.calcs.len() as int, rows, inter);
    let i = insert_calc(mx.calcs, c).1;
    assert(big.calcs[i] == step_calc(mx, c).0.calcs[i]);
    assert(calc_value(d, big.calcs[i], rows, big.constants, inter) == Ok::<Scalar, EvalError>(
        inter[i],
    ));
    lemma_calc_same_value(d, big.calcs[i], c, rows, big.constants, inter);
}

/// In a successful run, the reference for a constant holds that constant.
proof fn lemma_constant_slot<G: GetDataForEval>(
    mx: GraphModel,
    c: Scalar,
    big: GraphModel,
    d: &G,
    row: usize,
    inter: Seq<Scalar>,
)
    requires
        model_grows(step_constant(mx, c).0, big),
        run_ok(big, d, row, inter),
    ensures
        source_value(
            d,
            step_constant(mx, c).1,
            resolved_rows(big.rotations, row, d.row_size_spec()),
            big.constants,
            inter,
        ) == Ok::<Scalar, EvalError>(c),
{
    lemma_first_index_bounds(mx.constants, c, 0);
    let i = first_index(mx.constants, c, 0);
    assert(step_constant(mx, c).0.constants[i] == c);
}

/// The reference compiled for `e` into `m` holds, in the run of `big` at
/// `row`, a value congruent modulo p to the expression's value.
pub open spec fn sound_at<G: GetDataForEval>(
    m: GraphModel,
    e: Expression,
    big: GraphModel,
    d: &G,
    row: usize,
    inter: Seq<Scalar>,
) -> bool {
    let r = source_value(
        d,
        compile(m, e).1,
        resolved_rows(big.rotations, row, d.row_size_spec()),
        big.constants,
        inter,
    );
    &&& r is Ok
    &&& r->Ok_0.value() % modulus() == expr_value(e, d, row) % modulus()
}

proof fn lemma_sound_leaf<G: GetDataForEval>(
    m: GraphModel,
    e: Expression,
    big: GraphModel,
    d: &G,
    row: usize,
    inter: Seq<Scalar>,
)
    requires
        model_wf(m),
        model_grows(compile(m, e).0, big),
        run_ok(big, d, row, inter),
        match e {
            Expression::Constant(_) | Expression::Polynomial(_) | Expression::Challenge(_) => true,
            Expression::Negated(a) => (*a) is Constant,
            _ => false,
        },
    ensures
        sound_at(m, e, big, d, row, inter),
{
    match e {
        Expression::Constant(c) => {
            lemma_constant_slot(m, c, big, d, row, inter);
            let rows = resolved_rows(big.rotations, row, d.row_size_spec());
            assert(compile(m, e).1 == step_constant(m, c).1);
            assert(source_value(d, compile(m, e).1, rows, big.constants, inter) == Ok::<
                Scalar,
                EvalError,
            >(c));
            assert(expr_value(e, d, row) == c.value());
            assert(sound_at(m, e, big, d, row, inter));
        },
        Expression::Polynomial(q) => {
            lemma_step_rotation(m, q.rotation.0);
            let (m1, r) = step_rotation(m, q.rotation.0);
            lemma_first_index_bounds(m.rotations, q.rotation.0, 0);
            let c = Calculation::Store(ValueSource::Poly { index: q.index, rotation: r });
            lemma_slot(m1, c, big, d, row, inter);
            assert(m1.rotations[r as int] == q.rotation.0);
            assert(big.rotations[r as int] == q.rotation.0);
            assert(sound_at(m, e, big, d, row, inter));
        },
        Expression::Challenge(i) => {
            lemma_slot(m, Calculation::Store(ValueSource::Challenge { index: i }), big, d, row, inter);
            assert(sound_at(m, e, big, d, row, inter));
        },
        Expression::Negated(a) => {
            let c = (*a)->Constant_0;
            assert(*a == Expression::Constant(c));
            assert(compile(m, e) == step_constant(m, fneg(c)));
            assert(expr_value(*a, d, row) == c.value());
            assert(expr_value(e, d, row) == -c.value());
            lemma_constant_slot(m, fneg(c), big, d, row, inter);
            lemma_reduced_value(-c.value());
            assert(sound_at(m, e, big, d, row, inter));
        },
        _ => {},
    }
}

proof fn lemma_sound_negated<G: GetDataForEval>(
    m: GraphModel,
    a: Expression,
    big: GraphModel,
    d: &G,
    row: usize,
    inter: Seq<Scalar>,
)
    requires
        model_wf(m),
        !(a is Constant),
        model_grows(compile(m, Expression::Negated(Box::new(a))).0, big),
        run_ok(big, d, row, inter),
        sound_at(m, a, big, d, row, inter),
    ensures
        sound_at(m, Expression::Negated(Box::new(a)), big, d, row, inter),
{
    let p = modulus();
    let rows = resolved_rows(big.rotations, row, d.row_size_spec());
    lemma_small_values();
    lemma_compile_props(m, a);
    let (m1, ra) = compile(m, a);
    let x = expr_value(a, d, row);
    if ra == cst(0) {
        lemma_sub_mod_noop(0, x, p);
        lemma_small_mod(0, p as nat);
    } else {
        let c = Calculation::Negate(ra);
        lemma_slot(m1, c, big, d, row, inter);
        let xv = source_value(d, ra, rows, big.constants, inter)->Ok_0;
        lemma_fneg_cong(xv, x);
    }
}

/// The second operand of a sum, with a negation stripped.
pub open spec fn summand(b: Expression) -> Expression {
    match b {
        Expression::Negated(bi) => *bi,
        _ => b,
    }
}

proof fn lemma_sound_sum<G: GetDataForEval>(
    m: GraphModel,
    a: Expression,
    b: Expression,
    big: GraphModel,
    d: &G,
    row: usize,
    inter: Seq<Scalar>,
)
    requires
        model_wf(m),
        model_grows(compile(m, Expression::Sum(Box::new(a), Box::new(b))).0, big),
        run_ok(big, d, row, inter),
        sound_at(m, a, big, d, row, inter),
        sound_at(compile(m, a).0, summand(b), big, d, row, inter),
    ensures
        sound_at(m, Expression::Sum(Box::new(a), Box::new(b)), big, d, row, inter),
{
    let p = modulus();
    let rows = resolved_rows(big.rotations, row, d.row_size_spec());
    lemma_small_values();
    let inner = summand(b);
    lemma_compile_props(m, a);
    let (m1, ra) = compile(m, a);
    lemma_compile_props(m1, inner);
    let (m2, rb) = compile(m1, inner);
    let xv = source_value(d, ra, rows, big.constants, inter)->Ok_0;
    let yv = source_value(d, rb, rows, big.constants, inter)->Ok_0;
    let ea = expr_value(a, d, row);
    let eb = expr_value(inner, d, row);
    if b is Negated {
        assert(expr_value(b, d, row) == -eb);
        if ra == cst(0) {
            let c = Calculation::Negate(rb);
            lemma_slot(m2, c, big, d, row, inter);
            lemma_fneg_cong(yv, eb);
            lemma_add_mod_noop(ea, -eb, p);
            lemma_small_mod(0, p as nat);
            lemma_mod_twice(-eb, p);
        } else if rb == cst(0) {
            lemma_add_mod_noop(ea, -eb, p);
            lemma_sub_mod_noop(0, eb, p);
            lemma_small_mod(0, p as nat);
            lemma_mod_twice(ea, p);
        } else {
            let c = Calculation::Sub(ra, rb);
            lemma_slot(m2, c, big, d, row, inter);
            lemma_fsub_cong(xv, yv, ea, eb);
        }
    } else {
        let c = sum_calc(ra, rb);
        lemma_slot(m2, c, big, d, row, inter);
        lemma_fadd_cong(xv, yv, ea, eb);
        lemma_fadd_cong(yv, xv, eb, ea);
    }
}

proof fn lemma_sound_product<G: GetDataForEval>(
    m: GraphModel,
    a: Expression,
    b: Expression,
    big: GraphModel,
    d: &G,
    row: usize,
    inter: Seq<Scalar>,
)
    requires
        model_wf(m),
        model_grows(compile(m, Expression::Product(Box::new(a), Box::new(b))).0, big),
        run_ok(big, d, row, inter),
        sound_at(m, a, big, d, row, inter),
        sound_at(compile(m, a).0, b, big, d, row, inter),
    ensures
        sound_at(m, Expression::Product(Box::new(a), Box::new(b)), big, d, row, inter),
{
    let p = modulus();
    let rows = resolved_rows(big.rotations, row, d.row_size_spec());
    lemma_small_values();
    lemma_compile_props(m, a);
    let (m1, ra) = compile(m, a);
    lemma_compile_props(m1, b);
    let (m2, rb) = compile(m1, b);
    let xv = source_value(d, ra, rows, big.constants, inter)->Ok_0;
    let yv = source_value(d, rb, rows, big.constants, inter)->Ok_0;
    let ea = expr_value(a, d, row);
    let eb = expr_value(b, d, row);
    lemma_mul_mod_noop_general(ea, eb, p);
    lemma_small_mod(0, p as nat);
    lemma_small_mod(1, p as nat);
    lemma_small_mod(2, p as nat);
    if ra == cst(0) || rb == cst(0) {
        assert(big.constants[0] == canon(0));
        if ra == cst(0) {
            assert(xv == canon(0));
            assert(ea % p == 0);
        } else {
            assert(yv == canon(0));
            assert(eb % p == 0);
        }
        assert((ea % p) * (eb % p) == 0) by (nonlinear_arith)
            requires
                ea % p == 0 || eb % p == 0,
        ;
        assert((ea * eb) % p == 0);
        assert(sound_at(m, Expression::Product(Box::new(a), Box::new(b)), big, d, row, inter));
    } else if ra == cst(1) {
        assert(xv == canon(1));
        assert(ea % p == 1);
        assert((ea % p) * (eb % p) == eb % p) by (nonlinear_arith)
            requires
                ea % p == 1,
        ;
        lemma_mod_twice(eb, p);
        assert(sound_at(m, Expression::Product(Box::new(a), Box::new(b)), big, d, row, inter));
    } else if rb == cst(1) {
        assert(yv == canon(1));
        assert(eb % p == 1);
        assert((ea % p) * (eb % p) == ea % p) by (nonlinear_arith)
            requires
                eb % p == 1,
        ;
        lemma_mod_twice(ea, p);
        assert(sound_at(m, Expression::Product(Box::new(a), Box::new(b)), big, d, row, inter));
    } else if ra == cst(2) {
        lemma_slot(m2, Calculation::Double(rb), big, d, row, inter);
        assert(xv == canon(2));
        assert(ea % p == 2);
        lemma_fadd_cong(yv, yv, eb, eb);
        lemma_mul_mod_noop_general(2, eb, p);
        assert(2 * eb == eb + eb);
    } else if rb == cst(2) {
        lemma_slot(m2, Calculation::Double(ra), big, d, row, inter);
        assert(yv == canon(2));
        assert(eb % p == 2);
        lemma_fadd_cong(xv, xv, ea, ea);
        lemma_mul_mod_noop_general(ea, 2, p);
        assert(ea * 2 == ea + ea);
    } else if ra == rb {
        lemma_slot(m2, Calculation::Square(ra), big, d, row, inter);
        lemma_fmul_cong(xv, yv, ea, eb);
    } else {
        lemma_slot(m2, mul_calc(ra, rb), big, d, row, inter);
        lemma_fmul_cong(xv, yv, ea, eb);
        lemma_fmul_cong(yv, xv, eb, ea);
        assert(ea * eb == eb * ea) by (nonlinear_arith);
    }
}

proof fn lemma_sound_scaled<G: GetDataForEval>(
    m: GraphModel,
    a: Expression,
    f: Scalar,
    big: GraphModel,
    d: &G,
    row: usize,
    inter: Seq<Scalar>,
)
    requires
        model_wf(m),
        model_grows(compile(m, Expression::Scaled(Box::new(a), f)).0, big),
        run_ok(big, d, row, inter),
        f == canon(1) ==> sound_at(m, a, big, d, row, inter),
        f != canon(0) && f != canon(1) ==> sound_at(
            step_constant(m, f).0,
            a,
            big,
            d,
            row,
            inter,
        ),
    ensures
        sound_at(m, Expression::Scaled(Box::new(a), f), big, d, row, inter),
{
    let p = modulus();
    let rows = resolved_rows(big.rotations, row, d.row_size_spec());
    lemma_small_values();
    let ea = expr_value(a, d, row);
    lemma_small_mod(0, p as nat);
    if f == canon(0) {
        assert(ea * f.value() == 0);
    } else if f == canon(1) {
        assert(ea * f.value() == ea);
    } else {
        lemma_step_constant(m, f);
        let (m1, rf) = step_constant(m, f);
        lemma_compile_props(m1, a);
        let (m2, ra) = compile(m1, a);
        let c = Calculation::Mul(ra, rf);
        lemma_step_calc(m2, c);
        lemma_grows_trans(m1, m2, big);
        lemma_constant_slot(m, f, big, d, row, inter);
        lemma_slot(m2, c, big, d, row, inter);
        let xv = source_value(d, ra, rows, big.constants, inter)->Ok_0;
        lemma_fmul_cong(xv, f, ea, f.value());
    }
}

/// Compiler soundness: in any successful run of a graph that contains the
/// compilation of `e`, the reference compiled for `e` holds the
/// expression's value modulo p.
pub proof fn lemma_compile_sound<G: GetDataForEval>(
    m: GraphModel,
    e: Expression,
    big: GraphModel,
    d: &G,
    row: usize,
    inter: Seq<Scalar>,
)
    requires
        model_wf(m),
        model_grows(compile(m, e).0, big),
        run_ok(big, d, row, inter),
    ensures
        sound_at(m, e, big, d, row, inter),
    decreases e,
{
    lemma_compile_props(m, e);
    match e {
        Expression::Negated(a) => {
            if (*a) is Constant {
                lemma_sound_leaf(m, e, big, d, row, inter);
            } else {
                lemma_compile_props(m, *a);
                let (m1, ra) = compile(m, *a);
                if ra != cst(0) {
                    lemma_step_calc(m1, Calculation::Negate(ra));
                }
                lemma_grows_trans(m1, compile(m, e).0, big);
                lemma_compile_sound(m, *a, big, d, row, inter);
                lemma_sound_negated(m, *a, big, d, row, inter);
            }
        },
        Expression::Sum(a, b) => {
            let inner = summand(*b);
            lemma_compile_props(m, *a);
            let (m1, ra) = compile(m, *a);
            lemma_compile_props(m1, inner);
            let (m2, rb) = compile(m1, inner);
            let c = if (*b) is Negated {
                if ra == cst(0) {
                    Calculation::Negate(rb)
                } else {
                    Calculation::Sub(ra, rb)
                }
            } else {
                sum_calc(ra, rb)
            };
            lemma_step_calc(m2, c);
            lemma_grows_trans(m2, compile(m, e).0, big);
            lemma_grows_trans(m1, m2, big);
            lemma_compile_sound(m, *a, big, d, row, inter);
            lemma_compile_sound(m1, inner, big, d, row, inter);
            lemma_sound_sum(m, *a, *b, big, d, row, inter);
        },
        Expression::Product(a, b) => {
            lemma_compile_props(m, *a);
            let (m1, ra) = compile(m, *a);
            lemma_compile_props(m1, *b);
            let (m2, rb) = compile(m1, *b);
            let c = if ra == cst(2) {
                Calculation::Double(rb)
            } else if rb == cst(2) {
                Calculation::Double(ra)
            } else if ra == rb {
                Calculation::Square(ra)
            } else {
                mul_calc(ra, rb)
            };
            lemma_step_calc(m2, c);
            lemma_grows_trans(m2, compile(m, e).0, big);
            lemma_grows_trans(m1, m2, big);
            lemma_compile_sound(m, *a, big, d, row, inter);
            lemma_compile_sound(m1, *b, big, d, row, inter);
            lemma_sound_product(m, *a, *b, big, d, row, inter);
        },
        Expression::Scaled(a, f) => {
            if f == canon(1) {
                lemma_compile_sound(m, *a, big, d, row, inter);
            } else if f != canon(0) {
                lemma_step_constant(m, f);
                let (m1, rf) = step_constant(m, f);
                lemma_compile_props(m1, *a);
                let (m2, ra) = compile(m1, *a);
                lemma_step_calc(m2, Calculation::Mul(ra, rf));
                lemma_grows_trans(m2, compile(m, e).0, big);
                lemma_grows_trans(m1, m2, big);
                lemma_compile_sound(m1, *a, big, d, row, inter);
            }
            lemma_sound_scaled(m, *a, f, big, d, row, inter);
        },
        _ => {
            lemma_sound_leaf(m, e, big, d, row, inter);
        },
    }
}

/// Whenever the graph compiled from `e` evaluates without error at a row,
/// its result is the expression's value at that row, modulo p.
pub proof fn lemma_evaluation_sound<G: GetDataForEval>(e: Expression, d: &G, row: usize)
    requires
        compile_top(e).constants.len() < usize::MAX,
        compile_top(e).rotations.len() < usize::MAX,
        compile_top(e).calcs.len() < usize::MAX,
    ensures
        graph_value(compile_top(e), d, row) is Ok ==> graph_value(compile_top(e), d, row)->Ok_0.value()
            % modulus() == expr_value(e, d, row) % modulus(),
{
    let m0 = empty_model();
    assert(model_wf(m0));
    assert(no_plain_store(m0));
    lemma_compile_props(m0, e);
    let (m1, r) = compile(m0, e);
    let c = Calculation::Store(r);
    lemma_step_calc(m1, c);
    let big = compile_top(e);
    let rows = resolved_rows(big.rotations, row, d.row_size_spec());
    let run = run_calcs(d, big.calcs, big.calcs.len() as int, rows, big.constants);
    if run is Ok {
        let inter = run->Ok_0;
        lemma_first_same_bounds(m1.calcs, c, 0);
        assert forall|k: int| 0 <= k < m1.calcs.len() implies !calc_same(m1.calcs[k], c) by {
            assert(!plain_store(m1.calcs[k]));
        }
        lemma_first_same_skip(m1.calcs, c, m1.calcs.len() as int);
        assert(big.calcs == m1.calcs.push(c));
        lemma_grows_trans(m1, big, big);
        lemma_compile_sound(m0, e, big, d, row, inter);
        lemma_run_slots(d, big, big.calcs.len() as int, rows, inter);
        assert(calc_value(d, big.calcs[m1.calcs.len() as int], rows, big.constants, inter) == Ok::<
            Scalar,
            EvalError,
        >(inter[m1.calcs.len() as int]));
    }
}

/// After a deduplicating insert, any extension of the table finds the
/// value at the same index.
proof fn lemma_dedup_found<T>(s: Seq<T>, x: T, t: Seq<T>)
    requires
        insert_dedup(s, x).0.len() <= t.len(),
        forall|j: int| 0 <= j < insert_dedup(s, x).0.len() ==> t[j] == insert_dedup(s, x).0[j],
    ensures
        insert_dedup(t, x) == (t, insert_dedup(s, x).1),
{
    lemma_first_index_bounds(s, x, 0);
    let (s1, i) = insert_dedup(s, x);
    assert(forall|j: int| 0 <= j < i ==> t[j] != x);
    assert(t[i] == x);
    lemma_first_index_skip(t, x, i);
}

/// After inserting a calculation, any extension of the list finds it at
/// the same slot.
proof fn lemma_calc_found(s: Seq<Calculation>, c: Calculation, t: Seq<Calculation>)
    requires
        insert_calc(s, c).0.len() <= t.len(),
        forall|j: int| 0 <= j < insert_calc(s, c).0.len() ==> t[j] == insert_calc(s, c).0[j],
    ensures
        insert_calc(t, c) == (t, insert_calc(s, c).1),
{
    lemma_first_same_bounds(s, c, 0);
    lemma_calc_same_refl(c);
    let (s1, i) = insert_calc(s, c);
    assert(forall|j: int| 0 <= j < i ==> !calc_same(t[j], c));
    assert(calc_same(t[i], c));
    lemma_first_same_skip(t, c, i);
}

proof fn lemma_step_calc_found(mx: GraphModel, c: Calculation, big: GraphModel)
    requires
        model_grows(step_calc(mx, c).0, big),
    ensures
        step_calc(big, c) == (big, step_calc(mx, c).1),
{
    lemma_calc_found(mx.calcs, c, big.calcs);
}

proof fn lemma_step_constant_found(mx: GraphModel, c: Scalar, big: GraphModel)
    requires
        model_grows(step_constant(mx, c).0, big),
    ensures
        step_constant(big, c) == (big, step_constant(mx, c).1),
{
    lemma_dedup_found(mx.constants, c, big.constants);
}

/// Common-subexpression elimination: compiling `e` into a graph that
/// already holds a compilation of `e` adds nothing and returns the same
/// reference.
pub proof fn lemma_compile_reuses(m: GraphModel, e: Expression, big: GraphModel)
    requires
        model_wf(m),
        model_grows(compile(m, e).0, big),
    ensures
        compile(big, e) == (big, compile(m, e).1),
    decreases e,
{
    lemma_compile_props(m, e);
    match e {
        Expression::Constant(c) => {
            lemma_step_constant_found(m, c, big);
        },
        Expression::Polynomial(q) => {
            let (m1, r) = step_rotation(m, q.rotation.0);
            lemma_step_rotation(m, q.rotation.0);
            let c = Calculation::Store(ValueSource::Poly { index: q.index, rotation: r });
            lemma_step_calc(m1, c);
            lemma_grows_trans(m1, step_calc(m1, c).0, big);
            lemma_dedup_found(m.rotations, q.rotation.0, big.rotations);
            lemma_step_calc_found(m1, c, big);
        },
        Expression::Challenge(i) => {
            lemma_step_calc_found(m, Calculation::Store(ValueSource::Challenge { index: i }), big);
        },
        Expression::Negated(a) => {
            if (*a) is Constant {
                lemma_step_constant_found(m, fneg((*a)->Constant_0), big);
            } else {
                lemma_compile_props(m, *a);
                let (m1, ra) = compile(m, *a);
                if ra != cst(0) {
                    lemma_step_calc(m1, Calculation::Negate(ra));
                    lemma_step_calc_found(m1, Calculation::Negate(ra), big);
                }
                lemma_grows_trans(m1, compile(m, e).0, big);
                lemma_compile_reuses(m, *a, big);
            }
        },
        Expression::Sum(a, b) => {
            let inner = summand(*b);
            lemma_compile_props(m, *a);
            let (m1, ra) = compile(m, *a);
            lemma_compile_props(m1, inner);
            let (m2, rb) = compile(m1, inner);
            let c = if (*b) is Negated {
                if ra == cst(0) {
                    Calculation::Negate(rb)
                } else {
                    Calculation::Sub(ra, rb)
                }
            } else {
                sum_calc(ra, rb)
            };
            lemma_step_calc(m2, c);
            lemma_grows_trans(m2, compile(m, e).0, big);
            lemma_grows_trans(m1, m2, big);
            lemma_compile_reuses(m, *a, big);
            lemma_compile_reuses(m1, inner, big);
            if !((*b) is Negated && ra != cst(0) && rb == cst(0)) {
                lemma_step_calc_found(m2, c, big);
            }
        },
        Expression::Product(a, b) => {
            lemma_compile_props(m, *a);
            let (m1, ra) = compile(m, *a);
            lemma_compile_props(m1, *b);
            let (m2, rb) = compile(m1, *b);
            let c = if ra == cst(2) {
                Calculation::Double(rb)
            } else if rb == cst(2) {
                Calculation::Double(ra)
            } else if ra == rb {
                Calculation::Square(ra)
            } else {
                mul_calc(ra, rb)
            };
            lemma_step_calc(m2, c);
            lemma_grows_trans(m2, compile(m, e).0, big);
            lemma_grows_trans(m1, m2, big);
            lemma_compile_reuses(m, *a, big);
            lemma_compile_reuses(m1, *b, big);
            if !(ra == cst(0) || rb == cst(0) || ra == cst(1) || rb == cst(1)) {
                lemma_step_calc_found(m2, c, big);
            }
        },
        Expression::Scaled(a, f) => {
            if f == canon(1) {
                lemma_compile_reuses(m, *a, big);
            } else if f != canon(0) {
                lemma_step_constant(m, f);
                let (m1, rf) = step_constant(m, f);
                lemma_compile_props(m1, *a);
                let (m2, ra) = compile(m1, *a);
                lemma_step_calc(m2, Calculation::Mul(ra, rf));
                lemma_grows_trans(m2, compile(m, e).0, big);
                lemma_grows_trans(m1, m2, big);
                lemma_grows_trans(m, m1, big);
                lemma_step_constant_found(m, f, big);
                lemma_compile_reuses(m1, *a, big);
                lemma_step_calc_found(m2, Calculation::Mul(ra, rf), big);
            }
        },
    }
}

/// A sum of three copies of an expression compiles the expression once:
/// beyond the nodes of one copy it adds at most the two additions, and its
/// value is three times the expression's.
pub proof fn lemma_repeated_subexpression<G: GetDataForEval>(
    m: GraphModel,
    x: Expression,
    d: &G,
    row: usize,
)
    requires
        model_wf(m),
    ensures
        ({
            let e = Expression::Sum(
                Box::new(Expression::Sum(Box::new(x), Box::new(x))),
                Box::new(x),
            );
            &&& compile(m, e).0.calcs.len() <= compile(m, x).0.calcs.len() + 2
            &&& expr_value(e, d, row) == 3 * expr_value(x, d, row)
        }),
{
    lemma_compile_props(m, x);
    let (m1, rx) = compile(m, x);
    let inner = Expression::Sum(Box::new(x), Box::new(x));
    let e = Expression::Sum(Box::new(inner), Box::new(x));
    assert(expr_value(inner, d, row) == expr_value(x, d, row) + expr_value(x, d, row));
    assert(expr_value(e, d, row) == expr_value(inner, d, row) + expr_value(x, d, row));
    if x is Negated {
        let y = *(x->Negated_0);
        let (m1y, ry1) = compile(m1, y);
        assert(compile(m, inner) == step_sub(m1y, rx, ry1));
        let (m2, r2) = step_sub(m1y, rx, ry1);
        let (m2y, ry2) = compile(m2, y);
        assert(compile(m, e) == step_sub(m2y, r2, ry2));
        if y is Constant {
            assert(m1y.calcs == m1.calcs);
            assert(m2y.calcs == m2.calcs);
        } else {
            lemma_compile_props(m, y);
            let (my, ry) = compile(m, y);
            if ry != cst(0) {
                lemma_step_calc(my, Calculation::Negate(ry));
            }
            lemma_grows_trans(my, m1, m1);
            lemma_compile_reuses(m, y, m1);
            assert(m1y == m1);
            if rx == cst(0) {
                lemma_step_calc(m1, Calculation::Negate(ry));
            } else if ry != cst(0) {
                lemma_step_calc(m1, Calculation::Sub(rx, ry));
            }
            lemma_grows_trans(my, m1, m2);
            lemma_compile_reuses(m, y, m2);
        }
    } else {
        lemma_compile_reuses(m, x, m1);
        let (m2, r2) = step_sum(m1, rx, rx);
        lemma_step_calc(m1, sum_calc(rx, rx));
        lemma_compile_reuses(m, x, m2);
        assert(compile(m, inner) == (m2, r2));
        assert(compile(m2, x) == (m2, rx));
        assert(compile(m, e) == step_sum(m2, r2, rx));
    }
}

/// A challenge index at or beyond the number of challenges makes the
/// evaluation fail with the challenge-bounds error, carrying the index and
/// the number of challenges, at every row.
pub proof fn lemma_challenge_out_of_bounds<G: GetDataForEval>(i: usize, d: &G, row: usize)
    requires
        i >= d.challenges_spec().len(),
    ensures
        graph_value(compile_top(Expression::Challenge(i)), d, row) == Err::<Scalar, EvalError>(
            EvalError::ChallengeIndexOutOfBoundary {
                challenge_index: i,
                challenges_len: d.challenges_spec().len() as usize,
            },
        ),
{
    let m0 = empty_model();
    let c = Calculation::Store(ValueSource::Challenge { index: i });
    let (m1, r) = step_calc(m0, c);
    assert(m1.calcs =~= seq![c]);
    lemma_first_same_bounds(m1.calcs, Calculation::Store(r), 0);
    let big = compile_top(Expression::Challenge(i));
    let rows = resolved_rows(big.rotations, row, d.row_size_spec());
    assert(big.calcs[0] == c);
    assert(run_calcs(d, big.calcs, 0, rows, big.constants) == Ok::<Seq<Scalar>, EvalError>(seq![]));
    assert(run_calcs(d, big.calcs, 1, rows, big.constants) is Err);
    lemma_run_error_stays(d, big.calcs, 1, big.calcs.len() as int, rows, big.constants);
}

} // verus!
