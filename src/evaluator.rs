//! The graph compiler and the row evaluator.

use crate::data::{EvalError, GetDataForEval};
use crate::expression::Expression;
use crate::field::{canon, field_neg, fneg, Scalar};
use crate::graph::{
    lemma_first_index_bounds, lemma_first_same_bounds,
    calc_same,
    calc_eq, calc_ok, calc_value, first_same, insert_calc, insert_dedup,
    lemma_first_index_skip, lemma_first_same_skip, source_le, source_le_exec, source_ok,
    Calculation, ValueSource,
};
use vstd::arithmetic::div_mod::{lemma_add_mod_noop, lemma_fundamental_div_mod_converse};
use vstd::prelude::*;

verus! {

/// The contents of a graph: the constant pool, the rotation table and the
/// calculation list. Calculation `k` writes intermediate slot `k`.
pub struct GraphModel {
    pub constants: Seq<Scalar>,
    pub rotations: Seq<i32>,
    pub calcs: Seq<Calculation>,
}

/// The reference to constant slot `i`.
pub open spec fn cst(i: usize) -> ValueSource {
    ValueSource::Constant(i)
}

/// A graph whose constant pool starts with zero, one and two, and whose
/// calculations only read constants and rotations that exist and
/// intermediates of earlier calculations.
pub open spec fn model_wf(m: GraphModel) -> bool {
    &&& m.constants.len() >= 3
    &&& m.constants[0] == canon(0)
    &&& m.constants[1] == canon(1)
    &&& m.constants[2] == canon(2)
    &&& forall|k: int|
        0 <= k < m.calcs.len() ==> calc_ok(
            #[trigger] m.calcs[k],
            m.constants.len() as int,
            m.rotations.len() as int,
            k,
        )
}

/// `m2` keeps every entry of `m1` in place.
pub open spec fn model_grows(m1: GraphModel, m2: GraphModel) -> bool {
    &&& m1.constants.len() <= m2.constants.len()
    &&& m1.rotations.len() <= m2.rotations.len()
    &&& m1.calcs.len() <= m2.calcs.len()
    &&& forall|i: int| 0 <= i < m1.constants.len() ==> m2.constants[i] == m1.constants[i]
    &&& forall|i: int| 0 <= i < m1.rotations.len() ==> m2.rotations[i] == m1.rotations[i]
    &&& forall|i: int| 0 <= i < m1.calcs.len() ==> m2.calcs[i] == m1.calcs[i]
}

/// Whether a reference points into the graph's tables.
pub open spec fn model_source_ok(m: GraphModel, s: ValueSource) -> bool {
    source_ok(s, m.constants.len() as int, m.rotations.len() as int, m.calcs.len() as int)
}

/// Inserting a constant.
pub open spec fn step_constant(m: GraphModel, c: Scalar) -> (GraphModel, ValueSource) {
    let (t, i) = insert_dedup(m.constants, c);
    (GraphModel { constants: t, ..m }, ValueSource::Constant(i as usize))
}

/// Inserting a rotation offset.
pub open spec fn step_rotation(m: GraphModel, r: i32) -> (GraphModel, usize) {
    let (t, i) = insert_dedup(m.rotations, r);
    (GraphModel { rotations: t, ..m }, i as usize)
}

/// Inserting a calculation.
pub open spec fn step_calc(m: GraphModel, c: Calculation) -> (GraphModel, ValueSource) {
    let (t, i) = insert_calc(m.calcs, c);
    (GraphModel { calcs: t, ..m }, ValueSource::Intermediate(i as usize))
}

/// The add instruction for two operands, in canonical order.
pub open spec fn sum_calc(a: ValueSource, b: ValueSource) -> Calculation {
    if source_le(a, b) {
        Calculation::Add(a, b)
    } else {
        Calculation::Add(b, a)
    }
}

/// The multiply instruction for two operands, in canonical order.
pub open spec fn mul_calc(a: ValueSource, b: ValueSource) -> Calculation {
    if source_le(a, b) {
        Calculation::Mul(a, b)
    } else {
        Calculation::Mul(b, a)
    }
}

/// Negating a compiled operand: zero stays zero.
pub open spec fn step_negate(m: GraphModel, a: ValueSource) -> (GraphModel, ValueSource) {
    if a == cst(0) {
        (m, a)
    } else {
        step_calc(m, Calculation::Negate(a))
    }
}

/// Subtracting compiled operand `b` from `a`.
pub open spec fn step_sub(m: GraphModel, a: ValueSource, b: ValueSource) -> (
    GraphModel,
    ValueSource,
) {
    if a == cst(0) {
        step_calc(m, Calculation::Negate(b))
    } else if b == cst(0) {
        (m, a)
    } else {
        step_calc(m, Calculation::Sub(a, b))
    }
}

/// Adding two compiled operands.
pub open spec fn step_sum(m: GraphModel, a: ValueSource, b: ValueSource) -> (
    GraphModel,
    ValueSource,
) {
    step_calc(m, sum_calc(a, b))
}

/// Multiplying two compiled operands, with the zero, one, two and square
/// shortcuts.
pub open spec fn step_product(m: GraphModel, a: ValueSource, b: ValueSource) -> (
    GraphModel,
    ValueSource,
) {
    if a == cst(0) || b == cst(0) {
        (m, cst(0))
    } else if a == cst(1) {
        (m, b)
    } else if b == cst(1) {
        (m, a)
    } else if a == cst(2) {
        step_calc(m, Calculation::Double(b))
    } else if b == cst(2) {
        step_calc(m, Calculation::Double(a))
    } else if a == b {
        step_calc(m, Calculation::Square(a))
    } else {
        step_calc(m, mul_calc(a, b))
    }
}

/// Compiling an expression into the graph `m`: the grown graph and the
/// reference that holds the expression's value.
pub open spec fn compile(m: GraphModel, e: Expression) -> (GraphModel, ValueSource)
    decreases e,
{
    match e {
        Expression::Constant(c) => step_constant(m, c),
        Expression::Polynomial(q) => {
            let (m1, r) = step_rotation(m, q.rotation.0);
            step_calc(m1, Calculation::Store(ValueSource::Poly { index: q.index, rotation: r }))
        },
        Expression::Challenge(i) => step_calc(
            m,
            Calculation::Store(ValueSource::Challenge { index: i }),
        ),
        Expression::Negated(a) => match *a {
            Expression::Constant(c) => step_constant(m, fneg(c)),
            _ => {
                let (m1, ra) = compile(m, *a);
                step_negate(m1, ra)
            },
        },
        Expression::Sum(a, b) => match *b {
            Expression::Negated(bi) => {
                let (m1, ra) = compile(m, *a);
                let (m2, rb) = compile(m1, *bi);
                step_sub(m2, ra, rb)
            },
            _ => {
                let (m1, ra) = compile(m, *a);
                let (m2, rb) = compile(m1, *b);
                step_sum(m2, ra, rb)
            },
        },
        Expression::Product(a, b) => {
            let (m1, ra) = compile(m, *a);
            let (m2, rb) = compile(m1, *b);
            step_product(m2, ra, rb)
        },
        Expression::Scaled(a, f) => {
            if f == canon(0) {
                (m, cst(0))
            } else if f == canon(1) {
                compile(m, *a)
            } else {
                let (m1, rf) = step_constant(m, f);
                let (m2, ra) = compile(m1, *a);
                step_calc(m2, Calculation::Mul(ra, rf))
            }
        },
    }
}

pub(crate) proof fn lemma_grows_trans(m1: GraphModel, m2: GraphModel, m3: GraphModel)
    requires
        model_grows(m1, m2),
        model_grows(m2, m3),
    ensures
        model_grows(m1, m3),
{
}

pub(crate) proof fn lemma_step_constant(m: GraphModel, c: Scalar)
    requires
        model_wf(m),
    ensures
        model_wf(step_constant(m, c).0),
        model_grows(m, step_constant(m, c).0),
        model_source_ok(step_constant(m, c).0, step_constant(m, c).1),
{
    lemma_first_index_bounds(m.constants, c, 0);
    let m2 = step_constant(m, c).0;
    assert forall|k: int| 0 <= k < m2.calcs.len() implies calc_ok(
        #[trigger] m2.calcs[k],
        m2.constants.len() as int,
        m2.rotations.len() as int,
        k,
    ) by {
        assert(calc_ok(m.calcs[k], m.constants.len() as int, m.rotations.len() as int, k));
    }
}

pub(crate) proof fn lemma_step_rotation(m: GraphModel, r: i32)
    requires
        model_wf(m),
    ensures
        model_wf(step_rotation(m, r).0),
        model_grows(m, step_rotation(m, r).0),
        step_rotation(m, r).1 < step_rotation(m, r).0.rotations.len(),
{
    lemma_first_index_bounds(m.rotations, r, 0);
    let m2 = step_rotation(m, r).0;
    assert forall|k: int| 0 <= k < m2.calcs.len() implies calc_ok(
        #[trigger] m2.calcs[k],
        m2.constants.len() as int,
        m2.rotations.len() as int,
        k,
    ) by {
        assert(calc_ok(m.calcs[k], m.constants.len() as int, m.rotations.len() as int, k));
    }
}

pub(crate) proof fn lemma_step_calc(m: GraphModel, c: Calculation)
    requires
        model_wf(m),
        calc_ok(c, m.constants.len() as int, m.rotations.len() as int, m.calcs.len() as int),
    ensures
        model_wf(step_calc(m, c).0),
        model_grows(m, step_calc(m, c).0),
        model_source_ok(step_calc(m, c).0, step_calc(m, c).1),
{
    lemma_first_same_bounds(m.calcs, c, 0);
    let i = first_same(m.calcs, c, 0);
    if i >= m.calcs.len() {
        let m2 = step_calc(m, c).0;
        assert forall|k: int| 0 <= k < m2.calcs.len() implies calc_ok(
            #[trigger] m2.calcs[k],
            m2.constants.len() as int,
            m2.rotations.len() as int,
            k,
        ) by {
            if k < m.calcs.len() {
                assert(calc_ok(m.calcs[k], m.constants.len() as int, m.rotations.len() as int, k));
            }
        }
    }
}

pub(crate) proof fn lemma_source_grows(m1: GraphModel, m2: GraphModel, s: ValueSource)
    requires
        model_grows(m1, m2),
        model_source_ok(m1, s),
    ensures
        model_source_ok(m2, s),
{
}

/// The graph with zero, one and two in its constant pool and nothing else.
pub open spec fn empty_model() -> GraphModel {
    GraphModel { constants: seq![canon(0), canon(1), canon(2)], rotations: seq![], calcs: seq![] }
}

/// The graph compiled from `e`: the expression, then a store of its result.
pub open spec fn compile_top(e: Expression) -> GraphModel {
    let (m1, r) = compile(empty_model(), e);
    step_calc(m1, Calculation::Store(r)).0
}

/// The row that offset `rot` from row `idx` lands on in a table of `n` rows,
/// wrapping around at both ends.
pub open spec fn rotation_row(idx: usize, rot: i32, n: usize) -> int {
    (idx as int + rot as int) % (n as int)
}

/// The resolved row of every entry of a rotation table.
pub open spec fn resolved_rows(rotations: Seq<i32>, idx: usize, n: usize) -> Seq<usize> {
    Seq::new(rotations.len(), |i: int| rotation_row(idx, rotations[i], n) as usize)
}

/// The intermediates after running the first `k` calculations in order, or
/// the first error met.
pub open spec fn run_calcs<G: GetDataForEval>(
    d: &G,
    calcs: Seq<Calculation>,
    k: int,
    rows: Seq<usize>,
    constants: Seq<Scalar>,
) -> Result<Seq<Scalar>, EvalError>
    decreases k,
{
    if k <= 0 {
        Ok(seq![])
    } else {
        match run_calcs(d, calcs, k - 1, rows, constants) {
            Err(e) => Err(e),
            Ok(inter) => match calc_value(d, calcs[k - 1], rows, constants, inter) {
                Err(e) => Err(e),
                Ok(v) => Ok(inter.push(v)),
            },
        }
    }
}

/// The value of graph `m` at row `row` of the data `d`: the last
/// calculation's result, zero for a graph without calculations, or the first
/// lookup error.
pub open spec fn graph_value<G: GetDataForEval>(m: GraphModel, d: &G, row: usize) -> Result<
    Scalar,
    EvalError,
> {
    let rows = resolved_rows(m.rotations, row, d.row_size_spec());
    match run_calcs(d, m.calcs, m.calcs.len() as int, rows, m.constants) {
        Err(e) => Err(e),
        Ok(inter) => if m.calcs.len() == 0 {
            Ok(canon(0))
        } else {
            Ok(inter[m.calcs.len() - 1])
        },
    }
}

pub(crate) proof fn lemma_run_error_stays<G: GetDataForEval>(
    d: &G,
    calcs: Seq<Calculation>,
    k: int,
    m: int,
    rows: Seq<usize>,
    constants: Seq<Scalar>,
)
    requires
        0 < k <= m,
        run_calcs(d, calcs, k, rows, constants) is Err,
    ensures
        run_calcs(d, calcs, m, rows, constants) == run_calcs(d, calcs, k, rows, constants),
    decreases m - k,
{
    if m > k {
        lemma_run_error_stays(d, calcs, k, m - 1, rows, constants);
    }
}

/// The index of the row that offset `rot` from row `idx` lands on in a table
/// of `num_row` rows (Euclidean remainder, so negative offsets wrap).
pub fn get_rotation_idx(idx: usize, rot: i32, num_row: usize) -> (r: usize)
    requires
        num_row > 0,
    ensures
        r as int == rotation_row(idx, rot, num_row),
        r < num_row,
{
    let n = num_row;
    let a = idx % n;
    let b: usize = if rot >= 0 {
        (rot as usize) % n
    } else {
        let m = (-(rot as i64)) as usize;
        let k = m % n;
        proof {
            let q = m as int / n as int;
            assert(m as int == q * n as int + k as int) by (nonlinear_arith)
                requires
                    n > 0,
                    q == m as int / n as int,
                    k == m as int % n as int,
            ;
            assert(m as int == -(rot as int));
            assert(rot as int == (-q - 1) * n as int + (n as int - k as int)) by (nonlinear_arith)
                requires
                    m as int == q * n as int + k as int,
                    m as int == -(rot as int),
            ;
            if k > 0 {
                lemma_fundamental_div_mod_converse(rot as int, n as int, -q - 1, n as int - k as int);
            } else {
                assert(rot as int == (-q) * n as int + k as int) by (nonlinear_arith)
                    requires
                        m as int == q * n as int + k as int,
                        m as int == -(rot as int),
                        k == 0,
                ;
                lemma_fundamental_div_mod_converse(rot as int, n as int, -q, 0);
            }
        }
        if k == 0 {
            0
        } else {
            n - k
        }
    };
    proof {
        assert(b as int == (rot as int) % (n as int));
        lemma_add_mod_noop(idx as int, rot as int, n as int);
        if a + b >= n {
            lemma_fundamental_div_mod_converse(a + b - n, n as int, 0, a + b - n);
            lemma_fundamental_div_mod_converse(a + b, n as int, 1, a + b - n);
        } else {
            lemma_fundamental_div_mod_converse(a + b, n as int, 0, a + b);
        }
    }
    if a >= n - b {
        a - (n - b)
    } else {
        a + b
    }
}

/// An expression compiled into a graph of calculations, ready to be
/// evaluated at any row.
pub struct GraphEvaluator {
    constants: Vec<Scalar>,
    rotations: Vec<i32>,
    calculations: Vec<Calculation>,
}

impl GraphEvaluator {
    /// The graph's contents.
    pub closed spec fn model(&self) -> GraphModel {
        GraphModel {
            constants: self.constants@,
            rotations: self.rotations@,
            calcs: self.calculations@,
        }
    }

    /// The graph is well formed; every evaluator built by `new` is.
    pub closed spec fn wf(&self) -> bool {
        model_wf(self.model())
    }

    /// Compiles `expr`: the expression's graph followed by one store of its
    /// result, so that the last calculation always holds the value.
    pub fn new(expr: &Expression) -> (r: Self)
        ensures
            r.model() == compile_top(*expr),
            r.wf(),
            r.model().calcs.len() > 0,
    {
        let mut g = GraphEvaluator::empty();
        let ghost m0 = g.model();
        assert(model_wf(m0));
        let value_source = g.add_expression(expr);
        let c = Calculation::Store(value_source);
        proof {
            lemma_step_calc(g.model(), c);
            lemma_first_same_bounds(g.model().calcs, c, 0);
        }
        g.add_calculation(c);
        g
    }

    /// Evaluates the graph at row `row_index` of `getter`'s table.
    ///
    /// Each rotation is resolved modulo the table's row count, then every
    /// calculation runs in order; the first failed lookup is returned.
    pub fn evaluate<G: GetDataForEval>(&self, getter: &G, row_index: usize) -> (r: Result<
        Scalar,
        EvalError,
    >)
        requires
            self.wf(),
            self.model().rotations.len() > 0 ==> getter.row_size_spec() > 0,
        ensures
            r == graph_value(self.model(), getter, row_index),
    {
        let n = getter.row_size();
        let ghost m = self.model();
        let mut rows: Vec<usize> = Vec::new();
        let mut i: usize = 0;
        while i < self.rotations.len()
            invariant
                m == self.model(),
                i <= self.rotations@.len(),
                self.rotations@.len() > 0 ==> n > 0,
                rows@.len() == i,
                forall|j: int|
                    0 <= j < i ==> rows@[j] == rotation_row(row_index, self.rotations@[j], n)
                        as usize,
            decreases self.rotations@.len() - i,
        {
            let r = get_rotation_idx(row_index, self.rotations[i], n);
            rows.push(r);
            i = i + 1;
        }
        assert(rows@ =~= resolved_rows(m.rotations, row_index, n));
        let mut inter: Vec<Scalar> = Vec::new();
        let mut k: usize = 0;
        while k < self.calculations.len()
            invariant
                m == self.model(),
                model_wf(m),
                n == getter.row_size_spec(),
                rows@ == resolved_rows(m.rotations, row_index, n),
                k <= m.calcs.len(),
                inter@.len() == k,
                run_calcs(getter, m.calcs, k as int, rows@, m.constants) == Ok::<
                    Seq<Scalar>,
                    EvalError,
                >(inter@),
            decreases m.calcs.len() - k,
        {
            assert(calc_ok(m.calcs[k as int], m.constants.len() as int, m.rotations.len() as int, k as int));
            match self.calculations[k].evaluate(&rows, &self.constants, &inter, getter) {
                Ok(v) => {
                    inter.push(v);
                },
                Err(e) => {
                    proof {
                        assert(run_calcs(getter, m.calcs, k as int + 1, rows@, m.constants)
                            == Err::<Seq<Scalar>, EvalError>(e));
                        lemma_run_error_stays(
                            getter,
                            m.calcs,
                            k as int + 1,
                            m.calcs.len() as int,
                            rows@,
                            m.constants,
                        );
                    }
                    return Err(e);
                },
            }
            k = k + 1;
        }
        if k == 0 {
            Ok(Scalar::zero())
        } else {
            Ok(inter[k - 1])
        }
    }

    /// The number of calculations in the graph.
    pub fn num_calculations(&self) -> (r: usize)
        ensures
            r == self.model().calcs.len(),
    {
        self.calculations.len()
    }

    /// The calculation at position `i`, which writes intermediate slot `i`.
    pub fn calculation(&self, i: usize) -> (r: &Calculation)
        requires
            i < self.model().calcs.len(),
        ensures
            *r == self.model().calcs[i as int],
    {
        &self.calculations[i]
    }

    fn empty() -> (r: GraphEvaluator)
        ensures
            r.model() == empty_model(),
    {
        let r = GraphEvaluator {
            constants: vec![Scalar::zero(), Scalar::one(), Scalar::two()],
            rotations: Vec::new(),
            calculations: Vec::new(),
        };
        assert(r.model().constants =~= empty_model().constants);
        assert(r.model().rotations =~= empty_model().rotations);
        assert(r.model().calcs =~= empty_model().calcs);
        r
    }

    /// Adds a rotation offset unless present; returns its index.
    fn add_rotation(&mut self, rotation: i32) -> (r: usize)
        ensures
            (final(self).model(), r) == step_rotation(old(self).model(), rotation),
    {
        let mut i: usize = 0;
        while i < self.rotations.len()
            invariant
                i <= self.rotations@.len(),
                forall|j: int| 0 <= j < i ==> self.rotations@[j] != rotation,
            decreases self.rotations@.len() - i,
        {
            if self.rotations[i] == rotation {
                proof {
                    lemma_first_index_skip(self.rotations@, rotation, i as int);
                }
                return i;
            }
            i = i + 1;
        }
        proof {
            lemma_first_index_skip(self.rotations@, rotation, i as int);
        }
        self.rotations.push(rotation);
        i
    }

    /// Adds a constant unless present; returns its reference.
    fn add_constant(&mut self, constant: &Scalar) -> (r: ValueSource)
        ensures
            (final(self).model(), r) == step_constant(old(self).model(), *constant),
    {
        let mut i: usize = 0;
        while i < self.constants.len()
            invariant
                i <= self.constants@.len(),
                forall|j: int| 0 <= j < i ==> self.constants@[j] != *constant,
            decreases self.constants@.len() - i,
        {
            if self.constants[i] == *constant {
                proof {
                    lemma_first_index_skip(self.constants@, *constant, i as int);
                }
                return ValueSource::Constant(i);
            }
            i = i + 1;
        }
        proof {
            lemma_first_index_skip(self.constants@, *constant, i as int);
        }
        self.constants.push(*constant);
        ValueSource::Constant(i)
    }

    /// Adds a calculation unless the same one is present; returns the
    /// reference to its slot.
    fn add_calculation(&mut self, calculation: Calculation) -> (r: ValueSource)
        ensures
            (final(self).model(), r) == step_calc(old(self).model(), calculation),
    {
        let mut i: usize = 0;
        while i < self.calculations.len()
            invariant
                i <= self.calculations@.len(),
                forall|j: int| 0 <= j < i ==> !calc_same(self.calculations@[j], calculation),
            decreases self.calculations@.len() - i,
        {
            if calc_eq(&self.calculations[i], &calculation) {
                proof {
                    lemma_first_same_skip(self.calculations@, calculation, i as int);
                }
                return ValueSource::Intermediate(i);
            }
            i = i + 1;
        }
        proof {
            lemma_first_same_skip(self.calculations@, calculation, i as int);
        }
        self.calculations.push(calculation);
        ValueSource::Intermediate(i)
    }
    /// Compiles `expr` into the graph; returns the reference holding its
    /// value.
    fn add_expression(&mut self, expr: &Expression) -> (r: ValueSource)
        requires
            model_wf(old(self).model()),
        ensures
            (final(self).model(), r) == compile(old(self).model(), *expr),
            model_wf(final(self).model()),
            model_grows(old(self).model(), final(self).model()),
            model_source_ok(final(self).model(), r),
        decreases expr,
    {
        let ghost m0 = self.model();
        match expr {
            Expression::Constant(scalar) => {
                proof {
                    lemma_step_constant(m0, *scalar);
                }
                self.add_constant(scalar)
            },
            Expression::Polynomial(query) => {
                proof {
                    lemma_step_rotation(m0, query.rotation.0);
                }
                let rot_idx = self.add_rotation(query.rotation.0);
                let c = Calculation::Store(ValueSource::Poly { index: query.index, rotation: rot_idx });
                proof {
                    lemma_step_calc(self.model(), c);
                    lemma_grows_trans(m0, step_rotation(m0, query.rotation.0).0, step_calc(self.model(), c).0);
                }
                self.add_calculation(c)
            },
            Expression::Challenge(challenge_index) => {
                let c = Calculation::Store(ValueSource::Challenge { index: *challenge_index });
                proof {
                    lemma_step_calc(m0, c);
                }
                self.add_calculation(c)
            },
            Expression::Negated(a) => match &**a {
                Expression::Constant(scalar) => {
                    let n = field_neg(scalar);
                    proof {
                        lemma_step_constant(m0, n);
                    }
                    self.add_constant(&n)
                },
                _ => {
                    let result_a = self.add_expression(a);
                    let ghost m1 = self.model();
                    if result_a == ValueSource::Constant(0) {
                        result_a
                    } else {
                        let c = Calculation::Negate(result_a);
                        proof {
                            lemma_step_calc(m1, c);
                            lemma_grows_trans(m0, m1, step_calc(m1, c).0);
                        }
                        self.add_calculation(c)
                    }
                },
            },
            Expression::Sum(a, b) => match &**b {
                Expression::Negated(b_int) => {
                    let result_a = self.add_expression(a);
                    let ghost m1 = self.model();
                    let result_b = self.add_expression(b_int);
                    let ghost m2 = self.model();
                    proof {
                        lemma_source_grows(m1, m2, result_a);
                        lemma_grows_trans(m0, m1, m2);
                    }
                    if result_a == ValueSource::Constant(0) {
                        let c = Calculation::Negate(result_b);
                        proof {
                            lemma_step_calc(m2, c);
                            lemma_grows_trans(m0, m2, step_calc(m2, c).0);
                        }
                        self.add_calculation(c)
                    } else if result_b == ValueSource::Constant(0) {
                        result_a
                    } else {
                        let c = Calculation::Sub(result_a, result_b);
                        proof {
                            lemma_step_calc(m2, c);
                            lemma_grows_trans(m0, m2, step_calc(m2, c).0);
                        }
                        self.add_calculation(c)
                    }
                },
                _ => {
                    let result_a = self.add_expression(a);
                    let ghost m1 = self.model();
                    let result_b = self.add_expression(b);
                    let ghost m2 = self.model();
                    proof {
                        lemma_source_grows(m1, m2, result_a);
                        lemma_grows_trans(m0, m1, m2);
                    }
                    let c = if source_le_exec(result_a, result_b) {
                        Calculation::Add(result_a, result_b)
                    } else {
                        Calculation::Add(result_b, result_a)
                    };
                    proof {
                        lemma_step_calc(m2, c);
                        lemma_grows_trans(m0, m2, step_calc(m2, c).0);
                    }
                    self.add_calculation(c)
                },
            },
            Expression::Product(a, b) => {
                let result_a = self.add_expression(a);
                let ghost m1 = self.model();
                let result_b = self.add_expression(b);
                let ghost m2 = self.model();
                proof {
                    lemma_source_grows(m1, m2, result_a);
                    lemma_grows_trans(m0, m1, m2);
                }
                if result_a == ValueSource::Constant(0) || result_b == ValueSource::Constant(0) {
                    ValueSource::Constant(0)
                } else if result_a == ValueSource::Constant(1) {
                    result_b
                } else if result_b == ValueSource::Constant(1) {
                    result_a
                } else {
                    let c = if result_a == ValueSource::Constant(2) {
                        Calculation::Double(result_b)
                    } else if result_b == ValueSource::Constant(2) {
                        Calculation::Double(result_a)
                    } else if result_a == result_b {
                        Calculation::Square(result_a)
                    } else if source_le_exec(result_a, result_b) {
                        Calculation::Mul(result_a, result_b)
                    } else {
                        Calculation::Mul(result_b, result_a)
                    };
                    proof {
                        lemma_step_calc(m2, c);
                        lemma_grows_trans(m0, m2, step_calc(m2, c).0);
                    }
                    self.add_calculation(c)
                }
            },
            Expression::Scaled(a, f) => {
                if *f == Scalar::zero() {
                    ValueSource::Constant(0)
                } else if *f == Scalar::one() {
                    self.add_expression(a)
                } else {
                    proof {
                        lemma_step_constant(m0, *f);
                    }
                    let cst = self.add_constant(f);
                    let ghost m1 = self.model();
                    let result_a = self.add_expression(a);
                    let ghost m2 = self.model();
                    proof {
                        lemma_source_grows(m1, m2, cst);
                        lemma_grows_trans(m0, m1, m2);
                    }
                    let c = Calculation::Mul(result_a, cst);
                    proof {
                        lemma_step_calc(m2, c);
                        lemma_grows_trans(m0, m2, step_calc(m2, c).0);
                    }
                    self.add_calculation(c)
                }
            },
        }
    }
}

} // verus!
