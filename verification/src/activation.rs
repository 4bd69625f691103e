//! Pure scalar functions applied elementwise by the matrix code. The stored
//! function of an activation layer is an enumerated kind with a small
//! dispatch table, so that contracts can name exactly what was applied.

use vstd::prelude::*;
use crate::scalar::{F_ZERO, F_ONE, F_HUNDREDTH, fadd, fsub, fmul, fdiv, fexp, fgt, fneg};
use crate::scalar::{add_bits, sub_bits, mul_bits, div_bits, exp_bits, gt_bits, neg_bits};

verus! {

/// A scalar function that a matrix can apply to every entry.
#[derive(Clone, Copy, Debug)]
pub enum ScalarOp {
    /// Hand every entry back unchanged.
    Identity,
    /// Flip the sign.
    Neg,
    /// Multiply the entry by itself.
    Square,
    /// Multiply by a fixed single, the constant on the left.
    Scale(u32),
    /// The logistic function.
    Sigmoid,
    /// The rectifier: the entry if above zero, else zero.
    Relu,
    /// The leaky rectifier: below zero the entry keeps a hundredth of itself.
    LeakyRelu,
    /// The derivative of the logistic function, read off its output.
    SigmoidDeriv,
}

/// The logistic function over bit patterns: one over one plus e to the minus x.
pub open spec fn spec_sigmoid(x: u32) -> u32 {
    fdiv(F_ONE, fadd(F_ONE, fexp(fneg(x))))
}

/// The rectifier over bit patterns: x where x compares above zero, else zero.
pub open spec fn spec_relu(x: u32) -> u32 {
    if fgt(x, F_ZERO) {
        x
    } else {
        F_ZERO
    }
}

/// The leaky rectifier over bit patterns.
pub open spec fn spec_leaky_relu(x: u32) -> u32 {
    if fgt(x, F_ZERO) {
        x
    } else {
        fmul(F_HUNDREDTH, x)
    }
}

/// The sigmoid derivative as a function of the cached output y: y times
/// one minus y.
pub open spec fn spec_sigmoid_derivative(y: u32) -> u32 {
    fmul(y, fsub(F_ONE, y))
}

/// What each scalar function returns on an entry.
pub open spec fn apply_op(op: ScalarOp, x: u32) -> u32 {
    match op {
        ScalarOp::Identity => x,
        ScalarOp::Neg => fneg(x),
        ScalarOp::Square => fmul(x, x),
        ScalarOp::Scale(c) => fmul(c, x),
        ScalarOp::Sigmoid => spec_sigmoid(x),
        ScalarOp::Relu => spec_relu(x),
        ScalarOp::LeakyRelu => spec_leaky_relu(x),
        ScalarOp::SigmoidDeriv => spec_sigmoid_derivative(x),
    }
}

/// Sigmoid activation function.
pub fn sigmoid(x: u32) -> (r: u32)
    ensures
        r == spec_sigmoid(x),
{
    let e = exp_bits(neg_bits(x));
    div_bits(F_ONE, add_bits(F_ONE, e))
}

/// ReLU activation function.
pub fn relu(x: u32) -> (r: u32)
    ensures
        r == spec_relu(x),
{
    if gt_bits(x, F_ZERO) {
        x
    } else {
        F_ZERO
    }
}

/// Leaky ReLU activation function.
pub fn leaky_relu(x: u32) -> (r: u32)
    ensures
        r == spec_leaky_relu(x),
{
    if gt_bits(x, F_ZERO) {
        x
    } else {
        mul_bits(F_HUNDREDTH, x)
    }
}

/// The sigmoid derivative in terms of the output.
pub(crate) fn sigmoid_derivative(y: u32) -> (r: u32)
    ensures
        r == spec_sigmoid_derivative(y),
{
    mul_bits(y, sub_bits(F_ONE, y))
}

/// Run one scalar function on one entry.
pub fn apply(op: ScalarOp, x: u32) -> (r: u32)
    ensures
        r == apply_op(op, x),
{
    match op {
        ScalarOp::Identity => x,
        ScalarOp::Neg => neg_bits(x),
        ScalarOp::Square => mul_bits(x, x),
        ScalarOp::Scale(c) => mul_bits(c, x),
        ScalarOp::Sigmoid => sigmoid(x),
        ScalarOp::Relu => relu(x),
        ScalarOp::LeakyRelu => leaky_relu(x),
        ScalarOp::SigmoidDeriv => sigmoid_derivative(x),
    }
}

} // verus!
