//! The calculation graph: value references, instructions, and the
//! deduplicating tables the compiler fills.

use crate::data::{EvalError, GetDataForEval};
use crate::field::{
    fadd, field_add, field_double, field_mul, field_neg, field_square, field_sub, fmul, fneg, fsub,
    Scalar,
};
use vstd::prelude::*;

verus! {

/// Where a calculation's operand comes from.
#[derive(Clone, Copy, Debug, PartialEq, Eq, Structural)]
pub enum ValueSource {
    /// A slot of the constant pool.
    Constant(usize),
    /// The result of an earlier calculation.
    Intermediate(usize),
    /// A fixed column cell, at an entry of the rotation table.
    Fixed { index: usize, rotation: usize },
    /// A non-fixed column cell, at an entry of the rotation table.
    Poly { index: usize, rotation: usize },
    /// A challenge.
    Challenge { index: usize },
}

/// One primitive instruction.
#[derive(Debug)]
pub enum Calculation {
    Add(ValueSource, ValueSource),
    Sub(ValueSource, ValueSource),
    Mul(ValueSource, ValueSource),
    Square(ValueSource),
    Double(ValueSource),
    Negate(ValueSource),
    /// `value = start; for each part: value = value * factor + part`.
    Horner(ValueSource, Vec<ValueSource>, ValueSource),
    /// The operand itself.
    Store(ValueSource),
}

/// The rank of a reference's kind in the canonical operand order.
pub open spec fn source_rank(s: ValueSource) -> int {
    match s {
        ValueSource::Constant(_) => 0,
        ValueSource::Intermediate(_) => 1,
        ValueSource::Fixed { .. } => 2,
        ValueSource::Poly { .. } => 3,
        ValueSource::Challenge { .. } => 4,
    }
}

/// The canonical total order on references: by kind, then by the indices
/// they hold.
pub open spec fn source_le(a: ValueSource, b: ValueSource) -> bool {
    if source_rank(a) != source_rank(b) {
        source_rank(a) < source_rank(b)
    } else {
        match (a, b) {
            (ValueSource::Constant(x), ValueSource::Constant(y)) => x <= y,
            (ValueSource::Intermediate(x), ValueSource::Intermediate(y)) => x <= y,
            (
                ValueSource::Fixed { index: i, rotation: r },
                ValueSource::Fixed { index: j, rotation: s },
            ) => i < j || (i == j && r <= s),
            (
                ValueSource::Poly { index: i, rotation: r },
                ValueSource::Poly { index: j, rotation: s },
            ) => i < j || (i == j && r <= s),
            (ValueSource::Challenge { index: x }, ValueSource::Challenge { index: y }) => x <= y,
            _ => true,
        }
    }
}

fn source_rank_exec(s: ValueSource) -> (r: u8)
    ensures
        r as int == source_rank(s),
{
    match s {
        ValueSource::Constant(_) => 0,
        ValueSource::Intermediate(_) => 1,
        ValueSource::Fixed { .. } => 2,
        ValueSource::Poly { .. } => 3,
        ValueSource::Challenge { .. } => 4,
    }
}

/// Whether `a` comes no later than `b` in the canonical order.
pub fn source_le_exec(a: ValueSource, b: ValueSource) -> (r: bool)
    ensures
        r == source_le(a, b),
{
    let ra = source_rank_exec(a);
    let rb = source_rank_exec(b);
    if ra != rb {
        ra < rb
    } else {
        match (a, b) {
            (ValueSource::Constant(x), ValueSource::Constant(y)) => x <= y,
            (ValueSource::Intermediate(x), ValueSource::Intermediate(y)) => x <= y,
            (
                ValueSource::Fixed { index: i, rotation: r },
                ValueSource::Fixed { index: j, rotation: s },
            ) => i < j || (i == j && r <= s),
            (
                ValueSource::Poly { index: i, rotation: r },
                ValueSource::Poly { index: j, rotation: s },
            ) => i < j || (i == j && r <= s),
            (ValueSource::Challenge { index: x }, ValueSource::Challenge { index: y }) => x <= y,
            _ => true,
        }
    }
}

/// Two instructions are the same when their kinds and operands match.
pub open spec fn calc_same(a: Calculation, b: Calculation) -> bool {
    match (a, b) {
        (Calculation::Add(x, y), Calculation::Add(u, v)) => x == u && y == v,
        (Calculation::Sub(x, y), Calculation::Sub(u, v)) => x == u && y == v,
        (Calculation::Mul(x, y), Calculation::Mul(u, v)) => x == u && y == v,
        (Calculation::Square(x), Calculation::Square(u)) => x == u,
        (Calculation::Double(x), Calculation::Double(u)) => x == u,
        (Calculation::Negate(x), Calculation::Negate(u)) => x == u,
        (Calculation::Horner(s, p, f), Calculation::Horner(t, q, g)) => s == t && p@ == q@ && f
            == g,
        (Calculation::Store(x), Calculation::Store(u)) => x == u,
        _ => false,
    }
}

fn sources_eq(p: &Vec<ValueSource>, q: &Vec<ValueSource>) -> (r: bool)
    ensures
        r == (p@ == q@),
{
    if p.len() != q.len() {
        return false;
    }
    let mut i: usize = 0;
    while i < p.len()
        invariant
            p@.len() == q@.len(),
            i <= p@.len(),
            forall|j: int| 0 <= j < i ==> p@[j] == q@[j],
        decreases p@.len() - i,
    {
        if p[i] != q[i] {
            return false;
        }
        i = i + 1;
    }
    assert(p@ =~= q@);
    true
}

/// Whether two instructions are the same.
pub fn calc_eq(a: &Calculation, b: &Calculation) -> (r: bool)
    ensures
        r == calc_same(*a, *b),
{
    match (a, b) {
        (Calculation::Add(x, y), Calculation::Add(u, v)) => *x == *u && *y == *v,
        (Calculation::Sub(x, y), Calculation::Sub(u, v)) => *x == *u && *y == *v,
        (Calculation::Mul(x, y), Calculation::Mul(u, v)) => *x == *u && *y == *v,
        (Calculation::Square(x), Calculation::Square(u)) => *x == *u,
        (Calculation::Double(x), Calculation::Double(u)) => *x == *u,
        (Calculation::Negate(x), Calculation::Negate(u)) => *x == *u,
        (Calculation::Horner(s, p, f), Calculation::Horner(t, q, g)) => *s == *t && *f == *g
            && sources_eq(p, q),
        (Calculation::Store(x), Calculation::Store(u)) => *x == *u,
        _ => false,
    }
}

/// The first index at or after `i` that holds `x`, or the length if none.
pub open spec fn first_index<T>(s: Seq<T>, x: T, i: int) -> int
    decreases s.len() - i,
{
    if i >= s.len() || i < 0 {
        s.len() as int
    } else if s[i] == x {
        i
    } else {
        first_index(s, x, i + 1)
    }
}

/// The first index at or after `i` that holds an instruction the same as
/// `c`, or the length if none.
pub open spec fn first_same(s: Seq<Calculation>, c: Calculation, i: int) -> int
    decreases s.len() - i,
{
    if i >= s.len() || i < 0 {
        s.len() as int
    } else if calc_same(s[i], c) {
        i
    } else {
        first_same(s, c, i + 1)
    }
}

/// A table after inserting `x` with deduplication, and the index of `x` in it.
pub open spec fn insert_dedup<T>(s: Seq<T>, x: T) -> (Seq<T>, int) {
    let i = first_index(s, x, 0);
    if i < s.len() {
        (s, i)
    } else {
        (s.push(x), s.len() as int)
    }
}

/// The instruction list after inserting `c` with deduplication, and the
/// slot of the instruction that stands for `c`.
pub open spec fn insert_calc(s: Seq<Calculation>, c: Calculation) -> (Seq<Calculation>, int) {
    let i = first_same(s, c, 0);
    if i < s.len() {
        (s, i)
    } else {
        (s.push(c), s.len() as int)
    }
}

pub(crate) proof fn lemma_first_index_skip<T>(s: Seq<T>, x: T, i: int)
    requires
        0 <= i <= s.len(),
        forall|j: int| 0 <= j < i ==> s[j] != x,
    ensures
        first_index(s, x, 0) == first_index(s, x, i),
    decreases i,
{
    if i > 0 {
        lemma_first_index_skip(s, x, i - 1);
    }
}

pub(crate) proof fn lemma_first_index_bounds<T>(s: Seq<T>, x: T, i: int)
    requires
        0 <= i <= s.len(),
    ensures
        i <= first_index(s, x, i) <= s.len(),
        first_index(s, x, i) < s.len() ==> s[first_index(s, x, i)] == x,
        forall|j: int| i <= j < first_index(s, x, i) ==> s[j] != x,
    decreases s.len() - i,
{
    if i < s.len() && s[i] != x {
        lemma_first_index_bounds(s, x, i + 1);
    }
}

pub(crate) proof fn lemma_first_same_skip(s: Seq<Calculation>, c: Calculation, i: int)
    requires
        0 <= i <= s.len(),
        forall|j: int| 0 <= j < i ==> !calc_same(s[j], c),
    ensures
        first_same(s, c, 0) == first_same(s, c, i),
    decreases i,
{
    if i > 0 {
        lemma_first_same_skip(s, c, i - 1);
    }
}

pub(crate) proof fn lemma_first_same_bounds(s: Seq<Calculation>, c: Calculation, i: int)
    requires
        0 <= i <= s.len(),
    ensures
        i <= first_same(s, c, i) <= s.len(),
        first_same(s, c, i) < s.len() ==> calc_same(s[first_same(s, c, i)], c),
        forall|j: int| i <= j < first_same(s, c, i) ==> !calc_same(s[j], c),
    decreases s.len() - i,
{
    if i < s.len() && !calc_same(s[i], c) {
        lemma_first_same_bounds(s, c, i + 1);
    }
}

/// Whether a reference points into tables of the given sizes: a constant
/// below `nc`, an intermediate below `ni`, a rotation below `nr`.
pub open spec fn source_ok(s: ValueSource, nc: int, nr: int, ni: int) -> bool {
    match s {
        ValueSource::Constant(i) => i < nc,
        ValueSource::Intermediate(i) => i < ni,
        ValueSource::Fixed { rotation, .. } => rotation < nr,
        ValueSource::Poly { rotation, .. } => rotation < nr,
        ValueSource::Challenge { .. } => true,
    }
}

/// Whether every operand of `c` points into tables of the given sizes.
pub open spec fn calc_ok(c: Calculation, nc: int, nr: int, ni: int) -> bool {
    match c {
        Calculation::Add(a, b) => source_ok(a, nc, nr, ni) && source_ok(b, nc, nr, ni),
        Calculation::Sub(a, b) => source_ok(a, nc, nr, ni) && source_ok(b, nc, nr, ni),
        Calculation::Mul(a, b) => source_ok(a, nc, nr, ni) && source_ok(b, nc, nr, ni),
        Calculation::Square(a) => source_ok(a, nc, nr, ni),
        Calculation::Double(a) => source_ok(a, nc, nr, ni),
        Calculation::Negate(a) => source_ok(a, nc, nr, ni),
        Calculation::Horner(a, p, f) => source_ok(a, nc, nr, ni) && source_ok(f, nc, nr, ni) && (
        forall|j: int| 0 <= j < p@.len() ==> source_ok(#[trigger] p@[j], nc, nr, ni)),
        Calculation::Store(a) => source_ok(a, nc, nr, ni),
    }
}

/// The value a reference resolves to, given the resolved rows of the
/// rotation table, the constant pool and the intermediates so far.
pub open spec fn source_value<G: GetDataForEval>(
    d: &G,
    s: ValueSource,
    rows: Seq<usize>,
    constants: Seq<Scalar>,
    inter: Seq<Scalar>,
) -> Result<Scalar, EvalError> {
    match s {
        ValueSource::Constant(i) => Ok(constants[i as int]),
        ValueSource::Intermediate(i) => Ok(inter[i as int]),
        ValueSource::Fixed { index, rotation } => {
            let row = rows[rotation as int];
            if index >= d.fixed_spec().len() {
                Err(EvalError::ColumnVariableIndexOutOfBoundary { column_index: index })
            } else if row >= d.fixed_spec()[index as int].len() {
                Err(EvalError::RowIndexOutOfBoundary { row_index: row })
            } else {
                Ok(d.fixed_spec()[index as int][row as int])
            }
        },
        ValueSource::Poly { index, rotation } => d.column_var_spec(rows[rotation as int], index),
        ValueSource::Challenge { index } => {
            let ch = d.challenges_spec();
            if index < ch.len() {
                Ok(ch[index as int])
            } else {
                Err(
                    EvalError::ChallengeIndexOutOfBoundary {
                        challenge_index: index,
                        challenges_len: ch.len() as usize,
                    },
                )
            }
        },
    }
}

/// Applies `f` to two lookups, the first one's error winning.
pub open spec fn lift2(
    x: Result<Scalar, EvalError>,
    y: Result<Scalar, EvalError>,
    f: spec_fn(Scalar, Scalar) -> Scalar,
) -> Result<Scalar, EvalError> {
    match x {
        Err(e) => Err(e),
        Ok(a) => match y {
            Err(e) => Err(e),
            Ok(b) => Ok(f(a, b)),
        },
    }
}

/// Applies `f` to one lookup.
pub open spec fn lift1(x: Result<Scalar, EvalError>, f: spec_fn(Scalar) -> Scalar) -> Result<
    Scalar,
    EvalError,
> {
    match x {
        Err(e) => Err(e),
        Ok(a) => Ok(f(a)),
    }
}

/// Horner's fold of the first `n` parts, from `start` with factor `factor`.
pub open spec fn horner_value<G: GetDataForEval>(
    d: &G,
    start: Scalar,
    parts: Seq<ValueSource>,
    n: int,
    factor: Scalar,
    rows: Seq<usize>,
    constants: Seq<Scalar>,
    inter: Seq<Scalar>,
) -> Result<Scalar, EvalError>
    decreases n,
{
    if n <= 0 {
        Ok(start)
    } else {
        match horner_value(d, start, parts, n - 1, factor, rows, constants, inter) {
            Err(e) => Err(e),
            Ok(v) => match source_value(d, parts[n - 1], rows, constants, inter) {
                Err(e) => Err(e),
                Ok(p) => Ok(fadd(fmul(v, factor), p)),
            },
        }
    }
}

/// Once the fold meets an error, every longer fold ends in that error.
pub proof fn lemma_horner_error_stays<G: GetDataForEval>(
    d: &G,
    start: Scalar,
    parts: Seq<ValueSource>,
    n: int,
    m: int,
    factor: Scalar,
    rows: Seq<usize>,
    constants: Seq<Scalar>,
    inter: Seq<Scalar>,
)
    requires
        0 < n <= m,
        horner_value(d, start, parts, n, factor, rows, constants, inter) is Err,
    ensures
        horner_value(d, start, parts, m, factor, rows, constants, inter) == horner_value(
            d,
            start,
            parts,
            n,
            factor,
            rows,
            constants,
            inter,
        ),
    decreases m - n,
{
    if m > n {
        lemma_horner_error_stays(d, start, parts, n, m - 1, factor, rows, constants, inter);
    }
}

/// The value an instruction computes, or the first lookup error it meets.
pub open spec fn calc_value<G: GetDataForEval>(
    d: &G,
    c: Calculation,
    rows: Seq<usize>,
    constants: Seq<Scalar>,
    inter: Seq<Scalar>,
) -> Result<Scalar, EvalError> {
    let sv = |s: ValueSource| source_value(d, s, rows, constants, inter);
    match c {
        Calculation::Add(a, b) => lift2(sv(a), sv(b), |x: Scalar, y: Scalar| fadd(x, y)),
        Calculation::Sub(a, b) => lift2(sv(a), sv(b), |x: Scalar, y: Scalar| fsub(x, y)),
        Calculation::Mul(a, b) => lift2(sv(a), sv(b), |x: Scalar, y: Scalar| fmul(x, y)),
        Calculation::Square(a) => lift1(sv(a), |x: Scalar| fmul(x, x)),
        Calculation::Double(a) => lift1(sv(a), |x: Scalar| fadd(x, x)),
        Calculation::Negate(a) => lift1(sv(a), |x: Scalar| fneg(x)),
        Calculation::Horner(a, p, f) => match sv(f) {
            Err(e) => Err(e),
            Ok(fv) => match sv(a) {
                Err(e) => Err(e),
                Ok(av) => horner_value(d, av, p@, p@.len() as int, fv, rows, constants, inter),
            },
        },
        Calculation::Store(a) => sv(a),
    }
}

/// Resolves a reference.
pub fn get_value<G: GetDataForEval>(
    s: &ValueSource,
    rotations: &Vec<usize>,
    constants: &Vec<Scalar>,
    intermediates: &Vec<Scalar>,
    getter: &G,
) -> (r: Result<Scalar, EvalError>)
    requires
        source_ok(*s, constants@.len() as int, rotations@.len() as int, intermediates@.len() as int),
    ensures
        r == source_value(getter, *s, rotations@, constants@, intermediates@),
{
    match s {
        ValueSource::Constant(id) => Ok(constants[*id]),
        ValueSource::Intermediate(id) => Ok(intermediates[*id]),
        ValueSource::Fixed { index, rotation } => {
            let fixed = getter.get_fixed();
            let row = rotations[*rotation];
            if *index >= fixed.len() {
                Err(EvalError::ColumnVariableIndexOutOfBoundary { column_index: *index })
            } else if row >= fixed[*index].len() {
                Err(EvalError::RowIndexOutOfBoundary { row_index: row })
            } else {
                Ok(fixed[*index][row])
            }
        },
        ValueSource::Poly { index, rotation } => getter.eval_column_var(rotations[*rotation], *index),
        ValueSource::Challenge { index } => {
            let challenges = getter.get_challenges();
            if *index < challenges.len() {
                Ok(challenges[*index])
            } else {
                Err(
                    EvalError::ChallengeIndexOutOfBoundary {
                        challenge_index: *index,
                        challenges_len: challenges.len(),
                    },
                )
            }
        },
    }
}

impl Calculation {
    /// Computes this instruction's value from the resolved rotation rows,
    /// the constant pool and the intermediates computed so far.
    pub fn evaluate<G: GetDataForEval>(
        &self,
        rotations: &Vec<usize>,
        constants: &Vec<Scalar>,
        intermediates: &Vec<Scalar>,
        getter: &G,
    ) -> (r: Result<Scalar, EvalError>)
        requires
            calc_ok(
                *self,
                constants@.len() as int,
                rotations@.len() as int,
                intermediates@.len() as int,
            ),
        ensures
            r == calc_value(getter, *self, rotations@, constants@, intermediates@),
    {
        match self {
            Calculation::Add(a, b) => {
                let x = get_value(a, rotations, constants, intermediates, getter)?;
                let y = get_value(b, rotations, constants, intermediates, getter)?;
                Ok(field_add(&x, &y))
            },
            Calculation::Sub(a, b) => {
                let x = get_value(a, rotations, constants, intermediates, getter)?;
                let y = get_value(b, rotations, constants, intermediates, getter)?;
                Ok(field_sub(&x, &y))
            },
            Calculation::Mul(a, b) => {
                let x = get_value(a, rotations, constants, intermediates, getter)?;
                let y = get_value(b, rotations, constants, intermediates, getter)?;
                Ok(field_mul(&x, &y))
            },
            Calculation::Square(a) => {
                let x = get_value(a, rotations, constants, intermediates, getter)?;
                Ok(field_square(&x))
            },
            Calculation::Double(a) => {
                let x = get_value(a, rotations, constants, intermediates, getter)?;
                Ok(field_double(&x))
            },
            Calculation::Negate(a) => {
                let x = get_value(a, rotations, constants, intermediates, getter)?;
                Ok(field_neg(&x))
            },
            Calculation::Horner(start, parts, factor) => {
                let f = get_value(factor, rotations, constants, intermediates, getter)?;
                let mut value = get_value(start, rotations, constants, intermediates, getter)?;
                let ghost sv = value;
                let mut i: usize = 0;
                while i < parts.len()
                    invariant
                        i <= parts@.len(),
                        forall|j: int|
                            0 <= j < parts@.len() ==> source_ok(
                                #[trigger] parts@[j],
                                constants@.len() as int,
                                rotations@.len() as int,
                                intermediates@.len() as int,
                            ),
                        calc_value(getter, *self, rotations@, constants@, intermediates@)
                            == horner_value(
                            getter,
                            sv,
                            parts@,
                            parts@.len() as int,
                            f,
                            rotations@,
                            constants@,
                            intermediates@,
                        ),
                        horner_value(
                            getter,
                            sv,
                            parts@,
                            i as int,
                            f,
                            rotations@,
                            constants@,
                            intermediates@,
                        ) == Ok::<Scalar, EvalError>(value),
                    decreases parts@.len() - i,
                {
                    let p = match get_value(&parts[i], rotations, constants, intermediates, getter) {
                        Ok(p) => p,
                        Err(e) => {
                            proof {
                                assert(horner_value(
                                    getter,
                                    sv,
                                    parts@,
                                    i as int + 1,
                                    f,
                                    rotations@,
                                    constants@,
                                    intermediates@,
                                ) == Err::<Scalar, EvalError>(e));
                                lemma_horner_error_stays(
                                    getter,
                                    sv,
                                    parts@,
                                    i as int + 1,
                                    parts@.len() as int,
                                    f,
                                    rotations@,
                                    constants@,
                                    intermediates@,
                                );
                            }
                            return Err(e);
                        },
                    };
                    value = field_add(&field_mul(&value, &f), &p);
                    i = i + 1;
                }
                Ok(value)
            },
            Calculation::Store(a) => get_value(a, rotations, constants, intermediates, getter),
        }
    }
}

} // verus!
