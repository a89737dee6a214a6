//! A neuron's wiring: the function it applies and how many inputs it reads.
//! Its weights, bias and output are real numbers and live with the renderer.
use vstd::prelude::*;

verus! {

/// The function that a neuron applies to its weighted sum.
#[derive(Debug, Clone, Copy, PartialEq, Eq, Structural)]
pub enum ActivationFunction {
    /// `max(x, 0)`; used by the hidden layers.
    ReLU,
    /// The identity; used by the output layer.
    Raw,
}

/// The plain part of a neuron: its activation function and the number of
/// values it reads (one weight each).
#[derive(Debug, Clone, Copy, PartialEq, Eq, Structural)]
pub struct Neuron {
    pub activation_function: ActivationFunction,
    pub input_size: usize,
}

impl Neuron {
    /// A neuron that applies `activation_function` to `input_size` inputs.
    pub fn new(activation_function: ActivationFunction, input_size: usize) -> (neuron: Self)
        ensures
            neuron.activation_function == activation_function,
            neuron.input_size == input_size,
    {
        Neuron { activation_function, input_size }
    }
}

} // verus!
