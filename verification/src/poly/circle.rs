//! Polynomials over the circle domain, by coefficients and by evaluations.

use crate::backend::Backend;
use std::marker::PhantomData;
use vstd::prelude::*;

verus! {

/// A polynomial defined on a circle domain, in coefficient form.
pub struct CirclePoly<B: Backend> {
    /// The number of coefficients, as a binary logarithm.
    pub log_size: u32,
    /// The coefficients, in the FFT basis.
    pub coeffs: B::Column,
}

impl<B: Backend> CirclePoly<B> {
    pub fn new(coeffs: B::Column, log_size: u32) -> (r: Self)
        ensures
            r.coeffs == coeffs,
            r.log_size == log_size,
    {
        CirclePoly { log_size, coeffs }
    }
}

/// An evaluation of a polynomial over a circle domain of `2^log_size`
/// points, with values of field `F` stored in the order `EvalOrder`.
pub struct CircleEvaluation<B: Backend, F, EvalOrder> {
    /// The number of points of the domain, as a binary logarithm.
    pub log_size: u32,
    pub values: B::Column,
    pub eval_order: PhantomData<(F, EvalOrder)>,
}

impl<B: Backend, F, EvalOrder> CircleEvaluation<B, F, EvalOrder> {
    pub fn new(log_size: u32, values: B::Column) -> (r: Self)
        ensures
            r.values == values,
            r.log_size == log_size,
    {
        CircleEvaluation { log_size, values, eval_order: PhantomData }
    }
}

/// An evaluation of a polynomial with secure-field values over a circle
/// domain of `2^log_size` points, in bit-reversed order.
pub struct SecureEvaluation<B: Backend> {
    /// The number of points of the domain, as a binary logarithm.
    pub log_size: u32,
    pub values: B::SecureColumn,
}

impl<B: Backend> SecureEvaluation<B> {
    pub fn new(log_size: u32, values: B::SecureColumn) -> (r: Self)
        ensures
            r.values == values,
            r.log_size == log_size,
    {
        SecureEvaluation { log_size, values }
    }
}

} // verus!
