//! Properties of compiled graphs and their evaluation.

use crate::data::{EvalError, GetDataForEval};
use crate::evaluator::{
    compile, compile_top, cst, empty_model, graph_value, lemma_step_calc, lemma_step_constant,
    model_source_ok, model_wf, mul_calc, resolved_rows, run_calcs, step_calc, step_negate,
    step_product, step_sub, step_sum, sum_calc, GraphModel,
};
use crate::expression::Expression;
use crate::field::{canon, fadd, fmul, fneg, fsub, limb_base, modulus, Scalar};
use crate::graph::{
    calc_ok, calc_same, calc_value, first_same, horner_value, insert_calc, insert_dedup,
    lemma_first_index_bounds, lemma_first_same_bounds, lemma_first_same_skip, source_ok,
    source_value, Calculation, ValueSource,
};
use vstd::arithmetic::div_mod::{lemma_fundamental_div_mod_converse, lemma_small_mod};
use vstd::prelude::*;

verus! {

proof fn lemma_source_local<G: GetDataForEval>(
    d: &G,
    s: ValueSource,
    rows: Seq<usize>,
    constants: Seq<Scalar>,
    s1: Seq<Scalar>,
    s2: Seq<Scalar>,
    n: int,
)
    requires
        source_ok(s, constants.len() as int, rows.len() as int, n),
        n <= s1.len(),
        n <= s2.len(),
        forall|j: int| 0 <= j < n ==> s1[j] == s2[j],
    ensures
        source_value(d, s, rows, constants, s1) == source_value(d, s, rows, constants, s2),
{
}

proof fn lemma_horner_local<G: GetDataForEval>(
    d: &G,
    start: Scalar,
    parts: Seq<ValueSource>,
    k: int,
    factor: Scalar,
    rows: Seq<usize>,
    constants: Seq<Scalar>,
    s1: Seq<Scalar>,
    s2: Seq<Scalar>,
    n: int,
)
    requires
        k <= parts.len(),
        forall|j: int|
            0 <= j < parts.len() ==> source_ok(
                #[trigger] parts[j],
                constants.len() as int,
                rows.len() as int,
                n,
            ),
        n <= s1.len(),
        n <= s2.len(),
        forall|j: int| 0 <= j < n ==> s1[j] == s2[j],
    ensures
        horner_value(d, start, parts, k, factor, rows, constants, s1) == horner_value(
            d,
            start,
            parts,
            k,
            factor,
            rows,
            constants,
            s2,
        ),
    decreases k,
{
    if k > 0 {
        lemma_horner_local(d, start, parts, k - 1, factor, rows, constants, s1, s2, n);
        lemma_source_local(d, parts[k - 1], rows, constants, s1, s2, n);
    }
}

proof fn lemma_calc_local<G: GetDataForEval>(
    d: &G,
    c: Calculation,
    rows: Seq<usize>,
    constants: Seq<Scalar>,
    s1: Seq<Scalar>,
    s2: Seq<Scalar>,
    n: int,
)
    requires
        calc_ok(c, constants.len() as int, rows.len() as int, n),
        n <= s1.len(),
        n <= s2.len(),
        forall|j: int| 0 <= j < n ==> s1[j] == s2[j],
    ensures
        calc_value(d, c, rows, constants, s1) == calc_value(d, c, rows, constants, s2),
{
    match c {
        Calculation::Add(a, b) | Calculation::Sub(a, b) | Calculation::Mul(a, b) => {
            lemma_source_local(d, a, rows, constants, s1, s2, n);
            lemma_source_local(d, b, rows, constants, s1, s2, n);
        },
        Calculation::Square(a) | Calculation::Double(a) | Calculation::Negate(a)
        | Calculation::Store(a) => {
            lemma_source_local(d, a, rows, constants, s1, s2, n);
        },
        Calculation::Horner(a, p, f) => {
            lemma_source_local(d, a, rows, constants, s1, s2, n);
            lemma_source_local(d, f, rows, constants, s1, s2, n);
            match source_value(d, a, rows, constants, s1) {
                Ok(av) => match source_value(d, f, rows, constants, s1) {
                    Ok(fv) => {
                        lemma_horner_local(
                            d,
                            av,
                            p@,
                            p@.len() as int,
                            fv,
                            rows,
                            constants,
                            s1,
                            s2,
                            n,
                        );
                    },
                    Err(_) => {},
                },
                Err(_) => {},
            }
        },
    }
}

/// After a successful run of the first `k` calculations of a well-formed
/// graph, slot `i` holds what calculation `i` computes from the slots.
pub(crate) proof fn lemma_run_slots<G: GetDataForEval>(
    d: &G,
    m: GraphModel,
    k: int,
    rows: Seq<usize>,
    inter: Seq<Scalar>,
)
    requires
        model_wf(m),
        rows.len() == m.rotations.len(),
        0 <= k <= m.calcs.len(),
        run_calcs(d, m.calcs, k, rows, m.constants) == Ok::<Seq<Scalar>, EvalError>(inter),
    ensures
        inter.len() == k,
        forall|i: int|
            0 <= i < k ==> calc_value(d, #[trigger] m.calcs[i], rows, m.constants, inter) == Ok::<
                Scalar,
                EvalError,
            >(inter[i]),
    decreases k,
{
    if k > 0 {
        let prev = run_calcs(d, m.calcs, k - 1, rows, m.constants)->Ok_0;
        lemma_run_slots(d, m, k - 1, rows, prev);
        assert(inter == prev.push(inter[k - 1]));
        assert forall|i: int| 0 <= i < k implies calc_value(
            d,
            #[trigger] m.calcs[i],
            rows,
            m.constants,
            inter,
        ) == Ok::<Scalar, EvalError>(inter[i]) by {
            assert(calc_ok(m.calcs[i], m.constants.len() as int, m.rotations.len() as int, i));
            lemma_calc_local(d, m.calcs[i], rows, m.constants, prev, inter, i);
        }
    }
}

pub(crate) proof fn lemma_calc_same_refl(c: Calculation)
    ensures
        calc_same(c, c),
{
}

pub(crate) proof fn lemma_calc_same_value<G: GetDataForEval>(
    d: &G,
    c1: Calculation,
    c2: Calculation,
    rows: Seq<usize>,
    constants: Seq<Scalar>,
    inter: Seq<Scalar>,
)
    requires
        calc_same(c1, c2),
    ensures
        calc_value(d, c1, rows, constants, inter) == calc_value(d, c2, rows, constants, inter),
{
}

/// Where `insert_calc` puts `c`: a slot holding the same instruction.
pub(crate) proof fn lemma_insert_calc_slot(s: Seq<Calculation>, c: Calculation)
    ensures
        0 <= insert_calc(s, c).1 < insert_calc(s, c).0.len(),
        calc_same(insert_calc(s, c).0[insert_calc(s, c).1], c),
{
    lemma_first_same_bounds(s, c, 0);
    lemma_calc_same_refl(c);
}

/// Inserting the same instruction twice changes nothing the second time.
proof fn lemma_insert_calc_idempotent(s: Seq<Calculation>, c: Calculation)
    ensures
        insert_calc(insert_calc(s, c).0, c) == insert_calc(s, c),
{
    lemma_first_same_bounds(s, c, 0);
    let i = first_same(s, c, 0);
    if i >= s.len() {
        let t = s.push(c);
        lemma_calc_same_refl(c);
        assert forall|j: int| 0 <= j < s.len() implies !calc_same(t[j], c) by {
            assert(t[j] == s[j]);
        }
        lemma_first_same_skip(t, c, s.len() as int);
    }
}

/// The reference that inserting `c` returns evaluates, in a successful run
/// of the grown graph, to what `c` computes.
proof fn lemma_emitted_value<G: GetDataForEval>(
    m: GraphModel,
    c: Calculation,
    d: &G,
    rows: Seq<usize>,
    inter: Seq<Scalar>,
)
    requires
        model_wf(m),
        m.calcs.len() < usize::MAX,
        calc_ok(c, m.constants.len() as int, m.rotations.len() as int, m.calcs.len() as int),
        rows.len() == m.rotations.len(),
        run_calcs(d, step_calc(m, c).0.calcs, step_calc(m, c).0.calcs.len() as int, rows, m.constants)
            == Ok::<Seq<Scalar>, EvalError>(inter),
    ensures
        source_value(d, step_calc(m, c).1, rows, m.constants, inter) == calc_value(
            d,
            c,
            rows,
            m.constants,
            inter,
        ),
{
    let m2 = step_calc(m, c).0;
    lemma_step_calc(m, c);
    lemma_insert_calc_slot(m.calcs, c);
    lemma_run_slots(d, m2, m2.calcs.len() as int, rows, inter);
    let i = insert_calc(m.calcs, c).1;
    assert(calc_value(d, m2.calcs[i], rows, m.constants, inter) == Ok::<Scalar, EvalError>(
        inter[i],
    ));
    lemma_calc_same_value(d, m2.calcs[i], c, rows, m.constants, inter);
}

/// Limbs below `2^64` are recovered from the integer they spell.
proof fn lemma_canon_value(x: Scalar)
    ensures
        canon(x.value()) == x,
{
    let b = limb_base();
    let v = x.value();
    let v1 = x.l1 + x.l2 * b + x.l3 * (b * b);
    let v2 = x.l2 + x.l3 * b;
    assert(v == x.l0 + v1 * b) by (nonlinear_arith)
        requires
            v == x.l0 + x.l1 * b + x.l2 * (b * b) + x.l3 * (b * b * b),
            v1 == x.l1 + x.l2 * b + x.l3 * (b * b),
    ;
    assert(v1 == x.l1 + v2 * b) by (nonlinear_arith)
        requires
            v1 == x.l1 + x.l2 * b + x.l3 * (b * b),
            v2 == x.l2 + x.l3 * b,
    ;
    lemma_fundamental_div_mod_converse(v, b, v1, x.l0 as int);
    lemma_fundamental_div_mod_converse(v1, b, v2, x.l1 as int);
    lemma_fundamental_div_mod_converse(v2, b, x.l3 as int, x.l2 as int);
    lemma_fundamental_div_mod_converse(x.l3 as int, b, 0, x.l3 as int);
}

proof fn lemma_zero_value()
    ensures
        canon(0) == (Scalar { l0: 0, l1: 0, l2: 0, l3: 0 }),
        canon(0).value() == 0,
        fneg(canon(0)) == canon(0),
{
    let z = Scalar { l0: 0, l1: 0, l2: 0, l3: 0 };
    assert(z.value() == 0);
    lemma_canon_value(z);
    assert(modulus() > 0);
    lemma_small_mod(0, modulus() as nat);
    assert(-(canon(0).value()) == 0);
}

/// Evaluating the same graph at the same row of the same data gives the
/// same result: the result is a function of those three alone.
pub proof fn lemma_evaluation_deterministic<G: GetDataForEval>(
    m: GraphModel,
    d: &G,
    row: usize,
    r1: Result<Scalar, EvalError>,
    r2: Result<Scalar, EvalError>,
)
    requires
        r1 == graph_value(m, d, row),
        r2 == graph_value(m, d, row),
    ensures
        r1 == r2,
{
}

/// A constant expression compiles to a graph that evaluates to that
/// constant at every row of every table.
pub proof fn lemma_constant_folds<G: GetDataForEval>(c: Scalar, d: &G, row: usize)
    ensures
        graph_value(compile_top(Expression::Constant(c)), d, row) == Ok::<Scalar, EvalError>(c),
{
    let m0 = empty_model();
    lemma_step_constant(m0, c);
    lemma_first_index_bounds(m0.constants, c, 0);
    let (m1, r) = compile(m0, Expression::Constant(c));
    let m2 = compile_top(Expression::Constant(c));
    lemma_first_same_bounds(m1.calcs, Calculation::Store(r), 0);
    assert(m2.calcs =~= seq![Calculation::Store(r)]);
    let rows = resolved_rows(m2.rotations, row, d.row_size_spec());
    assert(run_calcs(d, m2.calcs, 0, rows, m2.constants) == Ok::<Seq<Scalar>, EvalError>(seq![]));
}

/// Addition and multiplication of two compiled operands do not depend on
/// their order, and compiling the swapped form after the first adds
/// nothing: both resolve to one shared node.
pub proof fn lemma_commutative_normalization(m: GraphModel, a: ValueSource, b: ValueSource)
    ensures
        step_sum(m, a, b) == step_sum(m, b, a),
        step_sum(step_sum(m, a, b).0, b, a) == step_sum(m, a, b),
        step_product(m, a, b) == step_product(m, b, a),
        step_product(step_product(m, a, b).0, b, a) == step_product(m, a, b),
{
    assert(sum_calc(a, b) == sum_calc(b, a));
    assert(mul_calc(a, b) == mul_calc(b, a));
    lemma_insert_calc_idempotent(m.calcs, sum_calc(a, b));
    lemma_insert_calc_idempotent(m.calcs, mul_calc(a, b));
    lemma_insert_calc_idempotent(m.calcs, Calculation::Double(a));
    lemma_insert_calc_idempotent(m.calcs, Calculation::Double(b));
    lemma_insert_calc_idempotent(m.calcs, Calculation::Square(a));
}

/// `a + (-b)`, compiled from operand references `a` and `b`, yields a
/// reference whose value in a successful run of the grown graph is the
/// field difference of the operands' values.
pub proof fn lemma_subtraction_recovery<G: GetDataForEval>(
    m: GraphModel,
    a: ValueSource,
    b: ValueSource,
    d: &G,
    rows: Seq<usize>,
    inter: Seq<Scalar>,
    x: Scalar,
    y: Scalar,
)
    requires
        model_wf(m),
        m.calcs.len() < usize::MAX,
        model_source_ok(m, a),
        model_source_ok(m, b),
        rows.len() == m.rotations.len(),
        run_calcs(
            d,
            step_sub(m, a, b).0.calcs,
            step_sub(m, a, b).0.calcs.len() as int,
            rows,
            m.constants,
        ) == Ok::<Seq<Scalar>, EvalError>(inter),
        source_value(d, a, rows, m.constants, inter) == Ok::<Scalar, EvalError>(x),
        source_value(d, b, rows, m.constants, inter) == Ok::<Scalar, EvalError>(y),
        x.value() < modulus(),
    ensures
        source_value(d, step_sub(m, a, b).1, rows, m.constants, inter) == Ok::<Scalar, EvalError>(
            fsub(x, y),
        ),
{
    lemma_zero_value();
    if a == cst(0) {
        lemma_emitted_value(m, Calculation::Negate(b), d, rows, inter);
        assert(x == canon(0));
    } else if b == cst(0) {
        assert(y == canon(0));
        lemma_small_mod(x.value() as nat, modulus() as nat);
        lemma_canon_value(x);
    } else {
        lemma_emitted_value(m, Calculation::Sub(a, b), d, rows, inter);
    }
}

/// Multiplying a compiled operand by zero gives the zero constant and by one
/// gives the operand, either way round and without a new node; multiplying
/// by two emits a doubling rather than a multiplication; negating zero, and
/// the negated zero constant, give the zero constant.
pub proof fn lemma_identity_shortcuts(m: GraphModel, a: ValueSource)
    requires
        model_wf(m),
    ensures
        m.constants[0] == canon(0),
        step_product(m, a, cst(0)) == (m, cst(0)),
        step_product(m, cst(0), a) == (m, cst(0)),
        step_product(m, a, cst(1)) == (m, a),
        step_product(m, cst(1), a) == (m, a),
        a != cst(0) && a != cst(1) ==> step_product(m, a, cst(2)) == step_calc(
            m,
            Calculation::Double(a),
        ),
        a != cst(0) && a != cst(1) ==> step_product(m, cst(2), a) == step_calc(
            m,
            Calculation::Double(a),
        ),
        step_negate(m, cst(0)) == (m, cst(0)),
        compile(m, Expression::Negated(Box::new(Expression::Constant(canon(0))))) == (m, cst(0)),
{
    lemma_zero_value();
    assert(m.constants == insert_dedup(m.constants, canon(0)).0);
    assert(GraphModel { constants: m.constants, ..m } == m);
}

/// The value of the doubling that `a * 2` emits, in a successful run of the
/// grown graph, is the operand's value added to itself.
pub proof fn lemma_double_value<G: GetDataForEval>(
    m: GraphModel,
    a: ValueSource,
    d: &G,
    rows: Seq<usize>,
    inter: Seq<Scalar>,
    x: Scalar,
)
    requires
        model_wf(m),
        m.calcs.len() < usize::MAX,
        model_source_ok(m, a),
        a != cst(0),
        a != cst(1),
        rows.len() == m.rotations.len(),
        run_calcs(
            d,
            step_product(m, a, cst(2)).0.calcs,
            step_product(m, a, cst(2)).0.calcs.len() as int,
            rows,
            m.constants,
        ) == Ok::<Seq<Scalar>, EvalError>(inter),
        source_value(d, a, rows, m.constants, inter) == Ok::<Scalar, EvalError>(x),
    ensures
        source_value(d, step_product(m, a, cst(2)).1, rows, m.constants, inter) == Ok::<
            Scalar,
            EvalError,
        >(fadd(x, x)),
{
    lemma_emitted_value(m, Calculation::Double(a), d, rows, inter);
}

/// `a * a` of a compiled operand that is not the constant zero, one or two
/// emits a square, whose value in a successful run of the grown graph is the
/// operand's value squared.
pub proof fn lemma_self_product<G: GetDataForEval>(
    m: GraphModel,
    a: ValueSource,
    d: &G,
    rows: Seq<usize>,
    inter: Seq<Scalar>,
    x: Scalar,
)
    requires
        model_wf(m),
        m.calcs.len() < usize::MAX,
        model_source_ok(m, a),
        a != cst(0),
        a != cst(1),
        a != cst(2),
        rows.len() == m.rotations.len(),
        run_calcs(
            d,
            step_product(m, a, a).0.calcs,
            step_product(m, a, a).0.calcs.len() as int,
            rows,
            m.constants,
        ) == Ok::<Seq<Scalar>, EvalError>(inter),
        source_value(d, a, rows, m.constants, inter) == Ok::<Scalar, EvalError>(x),
    ensures
        step_product(m, a, a) == step_calc(m, Calculation::Square(a)),
        source_value(d, step_product(m, a, a).1, rows, m.constants, inter) == Ok::<
            Scalar,
            EvalError,
        >(fmul(x, x)),
{
    lemma_emitted_value(m, Calculation::Square(a), d, rows, inter);
}

} // verus!
