use vstd::prelude::*;

mod backprop;
mod epoch;
mod fold;
mod forward;
mod incremental;
mod kernels;
mod shape;
mod train;
mod update;

pub use backprop::input_of;
pub use incremental::{checked_passes, filled_with, TrainError};
pub use kernels::Kernels;
pub use fold::{back_result, back_value, fold_chain, min_len, node_result, node_value, rows_view, weight_column};
pub use epoch::{lemma_covers_kept, lemma_same_shape_trans, lemma_same_sizes_same_output};
pub use shape::ExampleError;
pub use train::{lemma_run_results_fit, lemma_stepped_keeps_sizes, lemma_updates_have_weight_shape};
pub use update::stepped;

verus! {

/// Number of inputs that feed each node of layer `l`: the input count for the
/// first layer, the size of the layer before it otherwise.
pub open spec fn fan_in<W>(w: Seq<Seq<Seq<W>>>, num_inputs: nat, l: int) -> nat {
    if l == 0 {
        num_inputs
    } else {
        w[l - 1].len()
    }
}

/// The weights form a fully connected layered network: at least one input and
/// one layer, no empty layer, and every node holds one threshold weight plus
/// one weight per node of the layer before it.
pub open spec fn shape_ok<W>(w: Seq<Seq<Seq<W>>>, num_inputs: nat) -> bool {
    &&& num_inputs >= 1
    &&& w.len() >= 1
    &&& forall|l: int| 0 <= l < w.len() ==> #[trigger] w[l].len() >= 1
    &&& forall|l: int, j: int|
        0 <= l < w.len() && 0 <= j < w[l].len() ==> #[trigger] w[l][j].len() == fan_in(
            w,
            num_inputs,
            l,
        ) + 1
}

/// Layer sizes of a network: the input count, then the node count of each layer.
pub open spec fn sizes_of<W>(w: Seq<Seq<Seq<W>>>, num_inputs: nat) -> Seq<nat> {
    seq![num_inputs].add(Seq::new(w.len(), |l: int| w[l].len()))
}

/// Two nested sequences have the same shape.
pub open spec fn same_shape<A, B>(a: Seq<Seq<Seq<A>>>, b: Seq<Seq<Seq<B>>>) -> bool {
    &&& a.len() == b.len()
    &&& forall|l: int| 0 <= l < a.len() ==> #[trigger] a[l].len() == b[l].len()
    &&& forall|l: int, j: int|
        0 <= l < a.len() && 0 <= j < a[l].len() ==> #[trigger] a[l][j].len() == b[l][j].len()
}

/// Every level of `a` is at least as long as the matching level of `b`:
/// every position of `b` is also one of `a`.
pub open spec fn covers<A, B>(a: Seq<Seq<Seq<A>>>, b: Seq<Seq<Seq<B>>>) -> bool {
    &&& a.len() >= b.len()
    &&& forall|l: int| 0 <= l < b.len() ==> #[trigger] a[l].len() >= b[l].len()
    &&& forall|l: int, j: int|
        0 <= l < b.len() && 0 <= j < b[l].len() ==> #[trigger] a[l][j].len() >= b[l][j].len()
}

/// `(l, j, w)` is a position of `b`.
pub open spec fn within<B>(b: Seq<Seq<Seq<B>>>, l: int, j: int, w: int) -> bool {
    0 <= l < b.len() && 0 <= j < b[l].len() && 0 <= w < b[l][j].len()
}

/// View of a nested vector as nested sequences.
pub open spec fn nested_view<A>(v: Seq<Vec<Vec<A>>>) -> Seq<Seq<Seq<A>>> {
    Seq::new(v.len(), |l: int| Seq::new(v[l]@.len(), |j: int| v[l]@[j]@))
}

/// Why a list of layer sizes does not describe a network.
#[derive(Debug, Copy, Clone, PartialEq, Eq, Structural)]
pub enum SizesError {
    /// Fewer than two layers were given.
    TooFewLayers,
    /// Some layer has no node.
    EmptyLayer,
}

/// The layer sizes describe a network: at least two layers, none empty.
pub open spec fn sizes_ok(s: Seq<u32>) -> bool {
    &&& s.len() >= 2
    &&& forall|i: int| 0 <= i < s.len() ==> s[i] >= 1
}

/// Checks a list of layer sizes in the order in which a network is built from
/// it: first that there are at least two layers, then that none is empty.
pub fn check_sizes(layers_sizes: &[u32]) -> (res: Result<(), SizesError>)
    ensures
        res is Ok <==> sizes_ok(layers_sizes@),
        res == Err::<(), SizesError>(SizesError::TooFewLayers) <==> layers_sizes@.len() < 2,
        res == Err::<(), SizesError>(SizesError::EmptyLayer) <==> (layers_sizes@.len() >= 2
            && exists|i: int| 0 <= i < layers_sizes@.len() && layers_sizes@[i] == 0),
{
    if layers_sizes.len() < 2 {
        return Err(SizesError::TooFewLayers);
    }
    let mut i: usize = 0;
    while i < layers_sizes.len()
        invariant
            layers_sizes@.len() >= 2,
            i <= layers_sizes.len(),
            forall|k: int| 0 <= k < i ==> layers_sizes@[k] >= 1,
        decreases layers_sizes.len() - i,
    {
        if layers_sizes[i] < 1 {
            return Err(SizesError::EmptyLayer);
        }
        i = i + 1;
    }
    Ok(())
}

/// A feedforward network whose weights are of type `W`.
///
/// `layers[l][j]` holds the weights of node `j` of layer `l`: first its
/// threshold weight, then one weight per node of the layer before it (or per
/// input, for the first layer). A network built from layer sizes has exactly
/// this shape (`shape_ok`); one built from given weights may have any shape,
/// and each operation states the shape it needs.
pub struct Network<W> {
    layers: Vec<Vec<Vec<W>>>,
    num_inputs: u32,
}

/// Every node of `w` holds at least its threshold weight.
pub open spec fn nodes_nonempty<W>(w: Seq<Seq<Seq<W>>>) -> bool {
    forall|l: int, j: int| 0 <= l < w.len() && 0 <= j < w[l].len() ==> #[trigger] w[l][j].len() >= 1
}

/// The weights can be trained on results of a run: there is at least one
/// layer, each node of the first layer holds its threshold weight and at
/// most one weight per input, and each node of a later layer holds its
/// threshold weight and one weight per node of the layer before it.
pub open spec fn trainable_shape<W>(w: Seq<Seq<Seq<W>>>, num_inputs: nat) -> bool {
    &&& w.len() >= 1
    &&& forall|j: int| 0 <= j < w[0].len() ==> 1 <= #[trigger] w[0][j].len() <= num_inputs + 1
    &&& forall|l: int, j: int|
        1 <= l < w.len() && 0 <= j < w[l].len() ==> #[trigger] w[l][j].len() == w[l - 1].len() + 1
}

impl<W> Network<W> {
    /// The weight vectors, layer by layer and node by node.
    pub closed spec fn layer_vecs(&self) -> Seq<Vec<Vec<W>>> {
        self.layers@
    }

    /// The weights, layer by layer and node by node.
    pub open spec fn weights(&self) -> Seq<Seq<Seq<W>>> {
        nested_view(self.layer_vecs())
    }

    /// The number of inputs the network takes.
    pub closed spec fn input_count(&self) -> nat {
        self.num_inputs as nat
    }

    /// The layer sizes: the input count, then the node count of each layer.
    pub open spec fn sizes(&self) -> Seq<nat> {
        sizes_of(self.weights(), self.input_count())
    }

    /// The network can be run: every node holds its threshold weight.
    pub open spec fn runnable(&self) -> bool {
        nodes_nonempty(self.weights())
    }

    /// The network can be trained (see `trainable_shape`).
    pub open spec fn trainable(&self) -> bool {
        trainable_shape(self.weights(), self.input_count())
    }
}

/// A fully connected network can be trained, and run.
pub proof fn lemma_fully_connected_trainable<W>(w: Seq<Seq<Seq<W>>>, num_inputs: nat)
    requires
        shape_ok(w, num_inputs),
    ensures
        trainable_shape(w, num_inputs),
        nodes_nonempty(w),
{
    assert forall|l: int, j: int| 0 <= l < w.len() && 0 <= j < w[l].len() implies #[trigger] w[l][j].len()
        >= 1 by {
        assert(w[l][j].len() == fan_in(w, num_inputs, l) + 1);
    }
    assert forall|j: int| 0 <= j < w[0].len() implies 1 <= #[trigger] w[0][j].len() <= num_inputs + 1 by {
        assert(w[0][j].len() == fan_in(w, num_inputs, 0) + 1);
    }
}

/// A network that can be trained can be run.
pub proof fn lemma_trainable_runnable<W>(w: Seq<Seq<Seq<W>>>, num_inputs: nat)
    requires
        trainable_shape(w, num_inputs),
    ensures
        nodes_nonempty(w),
{
    assert forall|l: int, j: int| 0 <= l < w.len() && 0 <= j < w[l].len() implies #[trigger] w[l][j].len()
        >= 1 by {
        if l == 0 {
            assert(1 <= w[0][j].len());
        } else {
            assert(w[l][j].len() == w[l - 1].len() + 1);
        }
    }
}

/// Weights of the same shape as trainable ones are trainable.
pub proof fn lemma_same_shape_trainable<W>(a: Seq<Seq<Seq<W>>>, b: Seq<Seq<Seq<W>>>, num_inputs: nat)
    requires
        trainable_shape(b, num_inputs),
        same_shape(a, b),
    ensures
        trainable_shape(a, num_inputs),
{
    assert forall|j: int| 0 <= j < a[0].len() implies 1 <= #[trigger] a[0][j].len() <= num_inputs + 1 by {
        assert(a[0][j].len() == b[0][j].len());
    }
    assert forall|l: int, j: int| 1 <= l < a.len() && 0 <= j < a[l].len() implies #[trigger] a[l][j].len()
        == a[l - 1].len() + 1 by {
        assert(a[l][j].len() == b[l][j].len());
        assert(b[l][j].len() == b[l - 1].len() + 1);
        assert(a[l - 1].len() == b[l - 1].len());
    }
}

/// The nested vector `v` has, for each `l`, `s[l + 1]` nodes of `s[l] + 1`
/// weights each.
pub open spec fn laid_out<A>(v: Seq<Vec<Vec<A>>>, s: Seq<u32>, upto: int) -> bool {
    &&& forall|l: int| 0 <= l < upto ==> (#[trigger] v[l])@.len() == s[l + 1]
    &&& forall|l: int, j: int|
        0 <= l < upto && 0 <= j < v[l]@.len() ==> (#[trigger] v[l]@[j])@.len() == s[l] + 1
}

impl<W> Network<W> {
    /// Builds a network with the given layer sizes (the first is the input
    /// layer, the last the output layer) whose weights are drawn one by one
    /// from `sample`, layer by layer, node by node.
    pub fn new<F: Fn() -> W>(layers_sizes: &[u32], sample: &F) -> (net: Self)
        requires
            sizes_ok(layers_sizes@),
            sample.requires(()),
        ensures
            net.sizes() == layers_sizes@.map_values(|x: u32| x as nat),
            shape_ok(net.weights(), net.input_count()),
            net.weights().len() == layers_sizes@.len() - 1,
            forall|l: int|
                0 <= l < net.weights().len() ==> #[trigger] net.weights()[l].len() == layers_sizes@[l + 1],
            forall|l: int, j: int|
                0 <= l < net.weights().len() && 0 <= j < net.weights()[l].len()
                    ==> #[trigger] net.weights()[l][j].len() == layers_sizes@[l] + 1,
            forall|l: int, j: int, w: int|
                0 <= l < net.weights().len() && 0 <= j < net.weights()[l].len() && 0 <= w
                    < net.weights()[l][j].len() ==> sample.ensures((), #[trigger] net.weights()[l][j][w]),
    {
        let n = layers_sizes.len();
        let mut layers: Vec<Vec<Vec<W>>> = Vec::new();
        let mut l: usize = 1;
        while l < n
            invariant
                n == layers_sizes@.len(),
                sizes_ok(layers_sizes@),
                sample.requires(()),
                1 <= l <= n,
                layers@.len() == l - 1,
                laid_out(layers@, layers_sizes@, l - 1),
                forall|ll: int, j: int, w: int|
                    0 <= ll < l - 1 && 0 <= j < layers@[ll]@.len() && 0 <= w < layers@[ll]@[j]@.len()
                        ==> sample.ensures((), #[trigger] layers@[ll]@[j]@[w]),
            decreases n - l,
        {
            let nodes = layers_sizes[l];
            let fan = layers_sizes[l - 1];
            let mut layer: Vec<Vec<W>> = Vec::new();
            let mut j: u32 = 0;
            while j < nodes
                invariant
                    sample.requires(()),
                    j <= nodes,
                    layer@.len() == j,
                    forall|jj: int| 0 <= jj < j ==> (#[trigger] layer@[jj])@.len() == fan + 1,
                    forall|jj: int, w: int|
                        0 <= jj < j && 0 <= w < layer@[jj]@.len() ==> sample.ensures(
                            (),
                            #[trigger] layer@[jj]@[w],
                        ),
                decreases nodes - j,
            {
                let mut node: Vec<W> = Vec::new();
                let first = sample();
                node.push(first);
                let mut w: u32 = 0;
                while w < fan
                    invariant
                        sample.requires(()),
                        w <= fan,
                        node@.len() == w + 1,
                        forall|k: int| 0 <= k < node@.len() ==> sample.ensures((), #[trigger] node@[k]),
                    decreases fan - w,
                {
                    let v = sample();
                    node.push(v);
                    w = w + 1;
                }
                layer.push(node);
                j = j + 1;
            }
            layers.push(layer);
            l = l + 1;
        }
        let net = Network { layers, num_inputs: layers_sizes[0] };
        proof {
            assert(net.weights() == nested_view(layers@));
            let wv = nested_view(layers@);
            assert forall|l: int| 0 <= l < wv.len() implies #[trigger] wv[l].len() >= 1 by {
                assert(layers_sizes@[l + 1] >= 1);
            }
            assert forall|l: int, j: int| 0 <= l < wv.len() && 0 <= j < wv[l].len() implies
                #[trigger] wv[l][j].len() == fan_in(wv, layers_sizes@[0] as nat, l) + 1 by {
                assert(layers@[l]@[j]@.len() == layers_sizes@[l] + 1);
                if l > 0 {
                    assert(layers@[l - 1]@.len() == layers_sizes@[l]);
                }
            }
            assert(layers_sizes@[0] >= 1);
            assert(sizes_of(wv, layers_sizes@[0] as nat) =~= layers_sizes@.map_values(
                |x: u32| x as nat,
            ));
        }
        net
    }
}

} // verus!
