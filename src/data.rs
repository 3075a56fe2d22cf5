//! What the evaluator reads: columns, challenges and the table's row count.

use crate::field::Scalar;
use vstd::prelude::*;

verus! {

/// A lookup that fell outside the supplied data.
#[derive(Clone, Copy, Debug, PartialEq, Eq, Structural)]
pub enum EvalError {
    /// The column index names no column.
    ColumnVariableIndexOutOfBoundary { column_index: usize },
    /// The (rotated) row index is not in the addressed column.
    RowIndexOutOfBoundary { row_index: usize },
    /// The challenge index is not below the number of challenges.
    ChallengeIndexOutOfBoundary { challenge_index: usize, challenges_len: usize },
}

/// The data an evaluation reads.
pub trait GetDataForEval {
    /// The challenge values.
    spec fn challenges_spec(&self) -> Seq<Scalar>;

    /// The fixed columns, each a sequence of cells by row.
    spec fn fixed_spec(&self) -> Seq<Seq<Scalar>>;

    /// The value of a non-fixed column cell, or the bounds error it raises.
    spec fn column_var_spec(&self, row_index: usize, column_index: usize) -> Result<
        Scalar,
        EvalError,
    >;

    /// The number of rows of the table.
    spec fn row_size_spec(&self) -> usize;

    fn get_challenges(&self) -> (r: &Vec<Scalar>)
        ensures
            r@ == self.challenges_spec(),
    ;

    fn get_fixed(&self) -> (r: &Vec<Vec<Scalar>>)
        ensures
            r@.len() == self.fixed_spec().len(),
            forall|i: int| 0 <= i < r@.len() ==> (#[trigger] r@[i])@ == self.fixed_spec()[i],
    ;

    fn eval_column_var(&self, row_index: usize, column_index: usize) -> (r: Result<
        Scalar,
        EvalError,
    >)
        ensures
            r == self.column_var_spec(row_index, column_index),
    ;

    fn row_size(&self) -> (r: usize)
        ensures
            r == self.row_size_spec(),
    ;
}

/// In-memory table data: selector, fixed and advice columns, each indexed
/// `[column][row]`, plus the challenges and the row count.
///
/// Non-fixed column indices are laid out selectors first, then fixed
/// columns, then advice columns. A selector cell reads as one when set and
/// zero otherwise.
pub struct EvalData {
    pub num_rows: usize,
    pub challenges: Vec<Scalar>,
    pub selectors: Vec<Vec<bool>>,
    pub fixed: Vec<Vec<Scalar>>,
    pub advice: Vec<Vec<Scalar>>,
}

/// The cell `row` of `column`, or the bounds error for either index.
pub open spec fn cell_of<T>(columns: Seq<Vec<T>>, column: int, row: int) -> Result<T, EvalError> {
    if column < 0 || column >= columns.len() {
        Err(EvalError::ColumnVariableIndexOutOfBoundary { column_index: column as usize })
    } else if row < 0 || row >= columns[column]@.len() {
        Err(EvalError::RowIndexOutOfBoundary { row_index: row as usize })
    } else {
        Ok(columns[column]@[row])
    }
}

/// The scalar a selector bit stands for.
pub open spec fn selector_value(b: bool) -> Scalar {
    if b {
        Scalar { l0: 1, l1: 0, l2: 0, l3: 0 }
    } else {
        Scalar { l0: 0, l1: 0, l2: 0, l3: 0 }
    }
}

impl EvalData {
    /// The value of non-fixed column `column` at `row`, over the layout
    /// selectors, fixed, advice.
    pub open spec fn column_var(&self, row: usize, column: usize) -> Result<Scalar, EvalError> {
        let ns = self.selectors@.len();
        let nf = self.fixed@.len();
        if column < ns {
            match cell_of(self.selectors@, column as int, row as int) {
                Ok(b) => Ok(selector_value(b)),
                Err(e) => Err(e),
            }
        } else if column < ns + nf {
            cell_of(self.fixed@, column - ns, row as int)
        } else {
            cell_of(self.advice@, column - ns - nf, row as int)
        }
    }

    /// Number of selector columns.
    pub fn num_selectors(&self) -> (r: usize)
        ensures
            r == self.selectors@.len(),
    {
        self.selectors.len()
    }

    /// Number of fixed columns.
    pub fn num_fixed(&self) -> (r: usize)
        ensures
            r == self.fixed@.len(),
    {
        self.fixed.len()
    }

    /// The advice cell at (`row_index`, `column_index`).
    pub fn eval_advice_var(&self, row_index: usize, column_index: usize) -> (r: Result<
        Scalar,
        EvalError,
    >)
        ensures
            r == cell_of(self.advice@, column_index as int, row_index as int),
    {
        if column_index >= self.advice.len() {
            Err(EvalError::ColumnVariableIndexOutOfBoundary { column_index })
        } else if row_index >= self.advice[column_index].len() {
            Err(EvalError::RowIndexOutOfBoundary { row_index })
        } else {
            Ok(self.advice[column_index][row_index])
        }
    }
}

impl GetDataForEval for EvalData {
    open spec fn challenges_spec(&self) -> Seq<Scalar> {
        self.challenges@
    }

    open spec fn fixed_spec(&self) -> Seq<Seq<Scalar>> {
        self.fixed@.map_values(|c: Vec<Scalar>| c@)
    }

    open spec fn column_var_spec(&self, row_index: usize, column_index: usize) -> Result<
        Scalar,
        EvalError,
    > {
        self.column_var(row_index, column_index)
    }

    open spec fn row_size_spec(&self) -> usize {
        self.num_rows
    }

    fn get_challenges(&self) -> (r: &Vec<Scalar>) {
        &self.challenges
    }

    fn get_fixed(&self) -> (r: &Vec<Vec<Scalar>>) {
        &self.fixed
    }

    fn eval_column_var(&self, row_index: usize, column_index: usize) -> (r: Result<
        Scalar,
        EvalError,
    >) {
        let ns = self.selectors.len();
        let nf = self.fixed.len();
        if column_index < ns {
            if row_index >= self.selectors[column_index].len() {
                Err(EvalError::RowIndexOutOfBoundary { row_index })
            } else if self.selectors[column_index][row_index] {
                Ok(Scalar::one())
            } else {
                Ok(Scalar::zero())
            }
        } else if column_index - ns < nf {
            let c = column_index - ns;
            if row_index >= self.fixed[c].len() {
                Err(EvalError::RowIndexOutOfBoundary { row_index })
            } else {
                Ok(self.fixed[c][row_index])
            }
        } else {
            self.eval_advice_var(row_index, column_index - ns - nf)
        }
    }

    fn row_size(&self) -> (r: usize) {
        self.num_rows
    }
}

} // verus!
