//! Core logic of the toy network visualizer: the binary MNIST format, the
//! wiring of the network, and the labels and decisions of the viewer.
use vstd::prelude::*;

pub mod characters;
pub mod diagram;
pub mod font;
pub mod mnist;
pub mod network;
pub mod neuron;
pub mod scene;
pub mod surface;
pub mod text;
pub mod viewer;

verus! {

} // verus!
