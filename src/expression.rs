//! The expression tree that the graph compiler consumes.

use crate::field::Scalar;
use halo2_proofs::poly::Rotation;
use vstd::prelude::*;

verus! {

/// `halo2_proofs::poly::Rotation`: a signed row offset in its one public field.
#[verifier::external_type_specification]
pub struct ExRotation(Rotation);

/// A column reference: the column's index and the row offset it is read at.
#[derive(Clone, Copy, Debug)]
pub struct Query {
    pub index: usize,
    pub rotation: Rotation,
}

/// A polynomial constraint over columns, challenges and constants.
#[derive(Debug)]
pub enum Expression {
    Constant(Scalar),
    Polynomial(Query),
    Challenge(usize),
    Negated(Box<Expression>),
    Sum(Box<Expression>, Box<Expression>),
    Product(Box<Expression>, Box<Expression>),
    Scaled(Box<Expression>, Scalar),
}

} // verus!
