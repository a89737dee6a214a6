//! The layers of a fully connected network: hidden layers of `ReLU` neurons
//! and an output layer of `Raw` neurons, each layer reading every output of
//! the layer before it (the first hidden layer reads the inputs).
use vstd::prelude::*;
use crate::neuron::{ActivationFunction, Neuron};

verus! {

/// `count` neurons applying `activation` to `input_size` inputs each.
pub open spec fn uniform_layer(
    layer: Seq<Neuron>,
    count: int,
    activation: ActivationFunction,
    input_size: int,
) -> bool {
    &&& layer.len() == count
    &&& forall|j: int|
        0 <= j < layer.len() ==> (#[trigger] layer[j]).activation_function == activation
            && layer[j].input_size == input_size
}

/// The wiring of a network.
pub struct Network {
    input_size: usize,
    hidden_layers: Vec<Vec<Neuron>>,
    output_layer: Vec<Neuron>,
}

impl Network {
    /// The layers, hidden ones first and the output layer last.
    pub closed spec fn layers(self) -> Seq<Seq<Neuron>> {
        Seq::new(self.hidden_layers@.len(), |k: int| self.hidden_layers@[k]@).push(
            self.output_layer@,
        )
    }

    /// The number of values fed to the first layer.
    pub closed spec fn spec_input_size(self) -> int {
        self.input_size as int
    }

    /// The number of values that layer `k` reads: the inputs for the first
    /// layer, the outputs of layer `k - 1` otherwise.
    pub open spec fn source_size(self, k: int) -> int {
        if k == 0 {
            self.spec_input_size()
        } else {
            self.layers()[k - 1].len() as int
        }
    }

    /// Every layer is a uniform layer that reads every output of the layer
    /// before it; the last layer is the output layer, and it has neurons only
    /// when there is a hidden layer before it.
    pub open spec fn is_wired(self) -> bool {
        &&& self.layers().len() >= 2 || self.layers()[0].len() == 0
        &&& forall|k: int|
            0 <= k < self.layers().len() ==> uniform_layer(
                #[trigger] self.layers()[k],
                self.layers()[k].len() as int,
                if k + 1 == self.layers().len() {
                    ActivationFunction::Raw
                } else {
                    ActivationFunction::ReLU
                },
                self.source_size(k),
            )
    }

    #[verifier::type_invariant]
    closed spec fn wired(self) -> bool {
        &&& self.hidden_layers@.len() >= 1 || self.output_layer@.len() == 0
        &&& forall|k: int|
            0 <= k < self.hidden_layers@.len() ==> uniform_layer(
                #[trigger] self.hidden_layers@[k]@,
                self.hidden_layers@[k]@.len() as int,
                ActivationFunction::ReLU,
                if k == 0 {
                    self.input_size as int
                } else {
                    self.hidden_layers@[k - 1]@.len() as int
                },
            )
        &&& uniform_layer(
            self.output_layer@,
            self.output_layer@.len() as int,
            ActivationFunction::Raw,
            if self.hidden_layers@.len() == 0 {
                self.input_size as int
            } else {
                self.hidden_layers@.last()@.len() as int
            },
        )
    }

    proof fn lemma_wired_is_wired(self)
        requires
            self.wired(),
        ensures
            self.is_wired(),
            self.layers().len() == self.hidden_layers@.len() + 1,
    {
        let layers = self.layers();
        assert forall|k: int| 0 <= k < layers.len() implies uniform_layer(
            #[trigger] layers[k],
            layers[k].len() as int,
            if k + 1 == layers.len() {
                ActivationFunction::Raw
            } else {
                ActivationFunction::ReLU
            },
            self.source_size(k),
        ) by {
            if k + 1 < layers.len() {
                assert(layers[k] == self.hidden_layers@[k]@);
                if k > 0 {
                    assert(layers[k - 1] == self.hidden_layers@[k - 1]@);
                }
            } else {
                assert(layers[k] == self.output_layer@);
                if k > 0 {
                    assert(layers[k - 1] == self.hidden_layers@[k - 1]@);
                }
            }
        }
    }

    /// A network reading `input_size` values, with one hidden layer of each
    /// size in `hidden_layer_sizes` and an output layer of `output_size`
    /// neurons. Output neurons read the last hidden layer, so there can be
    /// none of them without a hidden layer.
    pub fn new(input_size: usize, hidden_layer_sizes: Vec<usize>, output_size: usize) -> (network:
        Self)
        requires
            hidden_layer_sizes@.len() >= 1 || output_size == 0,
        ensures
            network.spec_input_size() == input_size,
            network.layers().len() == hidden_layer_sizes@.len() + 1,
            forall|k: int|
                0 <= k < hidden_layer_sizes@.len() ==> #[trigger] network.layers()[k].len()
                    == hidden_layer_sizes@[k],
            network.layers().last().len() == output_size,
            network.is_wired(),
    {
        let mut hidden_layers: Vec<Vec<Neuron>> = Vec::new();
        let mut layer_input_size: usize = input_size;
        let mut i: usize = 0;
        while i < hidden_layer_sizes.len()
            invariant
                i <= hidden_layer_sizes@.len(),
                hidden_layers@.len() == i,
                layer_input_size == (if i == 0 {
                    input_size
                } else {
                    hidden_layer_sizes@[i - 1]
                }),
                forall|k: int|
                    0 <= k < i ==> uniform_layer(
                        #[trigger] hidden_layers@[k]@,
                        hidden_layer_sizes@[k] as int,
                        ActivationFunction::ReLU,
                        if k == 0 {
                            input_size as int
                        } else {
                            hidden_layer_sizes@[k - 1] as int
                        },
                    ),
            decreases hidden_layer_sizes@.len() - i,
        {
            let layer = uniform_neurons(
                hidden_layer_sizes[i],
                ActivationFunction::ReLU,
                layer_input_size,
            );
            hidden_layers.push(layer);
            layer_input_size = hidden_layer_sizes[i];
            i = i + 1;
        }
        let output_layer = uniform_neurons(output_size, ActivationFunction::Raw, layer_input_size);
        assert forall|k: int| 0 <= k < hidden_layers@.len() implies uniform_layer(
            #[trigger] hidden_layers@[k]@,
            hidden_layers@[k]@.len() as int,
            ActivationFunction::ReLU,
            if k == 0 {
                input_size as int
            } else {
                hidden_layers@[k - 1]@.len() as int
            },
        ) by {
            if k > 0 {
                assert(uniform_layer(
                    hidden_layers@[k - 1]@,
                    hidden_layer_sizes@[k - 1] as int,
                    ActivationFunction::ReLU,
                    if k - 1 == 0 {
                        input_size as int
                    } else {
                        hidden_layer_sizes@[k - 2] as int
                    },
                ));
            }
        }
        if hidden_layers.len() > 0 {
            assert(uniform_layer(
                hidden_layers@.last()@,
                hidden_layer_sizes@.last() as int,
                ActivationFunction::ReLU,
                if hidden_layers@.len() - 1 == 0 {
                    input_size as int
                } else {
                    hidden_layer_sizes@[hidden_layers@.len() - 2] as int
                },
            ));
        }
        let network = Network { input_size, hidden_layers, output_layer };
        proof {
            network.lemma_wired_is_wired();
            assert forall|k: int| 0 <= k < hidden_layer_sizes@.len() implies #[trigger] network.layers()[k].len()
                == hidden_layer_sizes@[k] by {
                assert(network.layers()[k] == network.hidden_layers@[k]@);
            }
        }
        network
    }

    /// The number of values fed to the first layer.
    pub fn input_size(&self) -> (n: usize)
        ensures
            n == self.spec_input_size(),
    {
        self.input_size
    }

    /// The number of hidden layers: the layers are these and the output layer.
    pub fn hidden_layer_count(&self) -> (n: usize)
        ensures
            n + 1 == self.layers().len(),
            self.is_wired(),
    {
        proof {
            use_type_invariant(self);
            self.lemma_wired_is_wired();
        }
        self.hidden_layers.len()
    }

    /// The neurons of layer `k` (the last layer is the output layer).
    pub fn layer(&self, k: usize) -> (neurons: &[Neuron])
        requires
            k < self.layers().len(),
        ensures
            neurons@ == self.layers()[k as int],
    {
        proof {
            use_type_invariant(self);
            self.lemma_wired_is_wired();
        }
        if k < self.hidden_layers.len() {
            self.hidden_layers[k].as_slice()
        } else {
            self.output_layer.as_slice()
        }
    }

    /// The neurons of the output layer.
    pub fn output_layer(&self) -> (neurons: &[Neuron])
        ensures
            neurons@ == self.layers().last(),
    {
        proof {
            use_type_invariant(self);
            self.lemma_wired_is_wired();
        }
        self.output_layer.as_slice()
    }
}

/// `count` neurons applying `activation` to `input_size` inputs each.
fn uniform_neurons(count: usize, activation: ActivationFunction, input_size: usize) -> (layer: Vec<
    Neuron,
>)
    ensures
        uniform_layer(layer@, count as int, activation, input_size as int),
{
    let mut layer: Vec<Neuron> = Vec::new();
    let mut j: usize = 0;
    while j < count
        invariant
            j <= count,
            uniform_layer(layer@, j as int, activation, input_size as int),
        decreases count - j,
    {
        layer.push(Neuron::new(activation, input_size));
        j = j + 1;
    }
    layer
}

} // verus!
