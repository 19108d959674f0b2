use vstd::prelude::*;

use super::{covers, nested_view, same_shape, Network};

verus! {

/// Why a training example does not fit the network.
#[derive(Debug, Copy, Clone, PartialEq, Eq, Structural)]
pub enum ExampleError {
    /// The input has a different length than the network's input layer.
    InputLength,
    /// The expected output has a different length than the network's output layer.
    OutputLength,
}

impl<W> Network<W> {
    /// Number of nodes in the output layer.
    pub open spec fn output_len(&self) -> nat {
        self.layer_vecs().last()@.len()
    }

    /// The example `(inputs, outputs)` fits the network.
    pub open spec fn example_fits(&self, inputs: Seq<W>, outputs: Seq<W>) -> bool {
        self.accepts_len(inputs.len()) && outputs.len() == self.output_len()
    }

    /// The error that the first failing check of an example gives.
    pub open spec fn example_error(&self, inputs: Seq<W>) -> ExampleError {
        if !self.accepts_len(inputs.len()) {
            ExampleError::InputLength
        } else {
            ExampleError::OutputLength
        }
    }

    /// Checks, example by example, that the input and the expected output of
    /// each has the length of the input and output layers; the first example
    /// that does not fit decides the error, its input being checked first.
    pub fn check_examples(&self, examples: &[(Vec<W>, Vec<W>)]) -> (res: Result<(), ExampleError>)
        requires
            self.weights().len() >= 1,
        ensures
            res is Ok <==> forall|i: int|
                0 <= i < examples@.len() ==> self.example_fits(
                    (#[trigger] examples@[i]).0@,
                    examples@[i].1@,
                ),
            res is Err ==> exists|i: int|
                0 <= i < examples@.len() && (forall|k: int|
                    0 <= k < i ==> self.example_fits(
                        (#[trigger] examples@[k]).0@,
                        examples@[k].1@,
                    )) && !self.example_fits(examples@[i].0@, examples@[i].1@) && res
                    == Err::<(), ExampleError>(self.example_error(examples@[i].0@)),
    {
        let output_size = self.layers[self.layers.len() - 1].len();
        let mut i: usize = 0;
        while i < examples.len()
            invariant
                i <= examples@.len(),
                output_size == self.output_len(),
                forall|k: int|
                    0 <= k < i ==> self.example_fits((#[trigger] examples@[k]).0@, examples@[k].1@),
            decreases examples.len() - i,
        {
            let (inputs, outputs) = &examples[i];
            if !self.input_fits(inputs.len()) {
                return Err(ExampleError::InputLength);
            }
            if outputs.len() != output_size {
                return Err(ExampleError::OutputLength);
            }
            i = i + 1;
        }
        Ok(())
    }

    /// Builds a nested vector of the shape of the weights, every entry a
    /// clone of `place_holder`.
    pub fn make_weights_tracker<T: Clone>(&self, place_holder: T) -> (res: Vec<Vec<Vec<T>>>)
        ensures
            same_shape(nested_view(res@), self.weights()),
            covers(nested_view(res@), self.weights()),
            forall|l: int, j: int, w: int|
                0 <= l < res@.len() && 0 <= j < res@[l]@.len() && 0 <= w < res@[l]@[j]@.len()
                    ==> cloned(place_holder, #[trigger] res@[l]@[j]@[w]),
    {
        let mut res: Vec<Vec<Vec<T>>> = Vec::new();
        let mut l: usize = 0;
        while l < self.layers.len()
            invariant
                l <= self.layers@.len(),
                res@.len() == l,
                forall|ll: int| 0 <= ll < l ==> (#[trigger] res@[ll])@.len() == self.layers@[ll]@.len(),
                forall|ll: int, j: int|
                    0 <= ll < l && 0 <= j < res@[ll]@.len() ==> (#[trigger] res@[ll]@[j])@.len()
                        == self.layers@[ll]@[j]@.len(),
                forall|ll: int, j: int, w: int|
                    0 <= ll < l && 0 <= j < res@[ll]@.len() && 0 <= w < res@[ll]@[j]@.len()
                        ==> cloned(place_holder, #[trigger] res@[ll]@[j]@[w]),
            decreases self.layers@.len() - l,
        {
            let layer = &self.layers[l];
            let mut row: Vec<Vec<T>> = Vec::new();
            let mut j: usize = 0;
            while j < layer.len()
                invariant
                    j <= layer@.len(),
                    row@.len() == j,
                    forall|jj: int| 0 <= jj < j ==> (#[trigger] row@[jj])@.len() == layer@[jj]@.len(),
                    forall|jj: int, w: int|
                        0 <= jj < j && 0 <= w < row@[jj]@.len() ==> cloned(
                            place_holder,
                            #[trigger] row@[jj]@[w],
                        ),
                decreases layer@.len() - j,
            {
                let node = &layer[j];
                let mut cells: Vec<T> = Vec::new();
                let mut w: usize = 0;
                while w < node.len()
                    invariant
                        w <= node@.len(),
                        cells@.len() == w,
                        forall|ww: int| 0 <= ww < w ==> cloned(place_holder, #[trigger] cells@[ww]),
                    decreases node@.len() - w,
                {
                    cells.push(place_holder.clone());
                    w = w + 1;
                }
                row.push(cells);
                j = j + 1;
            }
            res.push(row);
            l = l + 1;
        }
        proof {
            assert(same_shape(nested_view(res@), self.weights()));
            assert(covers(nested_view(res@), self.weights()));
        }
        res
    }

    /// Builds a network from its weights, layer by layer and node by node,
    /// and its number of inputs, whatever their shape.
    pub fn from_layers(layers: Vec<Vec<Vec<W>>>, num_inputs: u32) -> (net: Self)
        ensures
            net.weights() == nested_view(layers@),
            net.input_count() == num_inputs,
    {
        Network { layers, num_inputs }
    }

    /// Whether every node holds its threshold weight, so that the network
    /// can be run.
    pub fn is_runnable(&self) -> (res: bool)
        ensures
            res == self.runnable(),
    {
        let ghost wv = self.weights();
        let mut l: usize = 0;
        while l < self.layers.len()
            invariant
                wv == self.weights(),
                l <= self.layers@.len(),
                forall|ll: int, j: int|
                    0 <= ll < l && 0 <= j < wv[ll].len() ==> #[trigger] wv[ll][j].len() >= 1,
            decreases self.layers@.len() - l,
        {
            let layer = &self.layers[l];
            let mut j: usize = 0;
            while j < layer.len()
                invariant
                    wv == self.weights(),
                    *layer == self.layers@[l as int],
                    l < self.layers@.len(),
                    j <= layer@.len(),
                    forall|ll: int, jj: int|
                        0 <= ll < l && 0 <= jj < wv[ll].len() ==> #[trigger] wv[ll][jj].len() >= 1,
                    forall|jj: int| 0 <= jj < j ==> #[trigger] wv[l as int][jj].len() >= 1,
                decreases layer@.len() - j,
            {
                if layer[j].len() < 1 {
                    assert(wv[l as int][j as int].len() < 1);
                    return false;
                }
                j = j + 1;
            }
            l = l + 1;
        }
        true
    }

    /// Whether the network can be trained (see `trainable_shape`).
    pub fn is_trainable(&self) -> (res: bool)
        ensures
            res == self.trainable(),
    {
        let ghost wv = self.weights();
        let ghost ni = self.input_count();
        if self.layers.len() < 1 {
            return false;
        }
        let mut l: usize = 0;
        while l < self.layers.len()
            invariant
                wv == self.weights(),
                ni == self.input_count(),
                wv.len() >= 1,
                l <= self.layers@.len(),
                forall|j: int| 0 < l && 0 <= j < wv[0].len() ==> 1 <= #[trigger] wv[0][j].len() <= ni + 1,
                forall|ll: int, j: int|
                    1 <= ll < l && 0 <= j < wv[ll].len() ==> #[trigger] wv[ll][j].len() == wv[ll
                        - 1].len() + 1,
            decreases self.layers@.len() - l,
        {
            let layer = &self.layers[l];
            let prev_len: usize = if l == 0 {
                0
            } else {
                self.layers[l - 1].len()
            };
            let mut j: usize = 0;
            while j < layer.len()
                invariant
                    wv == self.weights(),
                    ni == self.input_count(),
                    *layer == self.layers@[l as int],
                    l < self.layers@.len(),
                    l > 0 ==> prev_len == wv[l - 1].len(),
                    j <= layer@.len(),
                    forall|jj: int|
                        0 <= jj < j ==> if l == 0 {
                            1 <= #[trigger] wv[l as int][jj].len() <= ni + 1
                        } else {
                            wv[l as int][jj].len() == prev_len + 1
                        },
                decreases layer@.len() - j,
            {
                let len = layer[j].len();
                assert(wv[l as int][j as int].len() == len);
                if l == 0 {
                    if len < 1 || len as u64 > self.num_inputs as u64 + 1 {
                        return false;
                    }
                } else {
                    if len < 1 || len - 1 != prev_len {
                        return false;
                    }
                }
                j = j + 1;
            }
            proof {
                if l == 0 {
                    assert forall|jj: int| 0 <= jj < wv[0].len() implies 1 <= #[trigger] wv[0][jj].len()
                        <= ni + 1 by {
                        assert(1 <= wv[l as int][jj].len() <= ni + 1);
                    }
                } else {
                    assert forall|ll: int, jj: int| 1 <= ll < l + 1 && 0 <= jj < wv[ll].len() implies
                        #[trigger] wv[ll][jj].len() == wv[ll - 1].len() + 1 by {
                        if ll == l {
                            assert(wv[l as int][jj].len() == prev_len + 1);
                        }
                    }
                }
            }
            l = l + 1;
        }
        true
    }

    /// The number of layers, the input layer not counted.
    pub fn layer_count(&self) -> (res: usize)
        ensures
            res == self.weights().len(),
    {
        self.layers.len()
    }

    /// The number of inputs the network takes.
    pub fn num_inputs(&self) -> (res: u32)
        ensures
            res == self.input_count(),
    {
        self.num_inputs
    }

    /// The weights, layer by layer and node by node.
    pub fn layers(&self) -> (res: &Vec<Vec<Vec<W>>>)
        ensures
            nested_view(res@) == self.weights(),
    {
        &self.layers
    }

    /// Number of nodes in the output layer.
    pub fn output_size(&self) -> (res: usize)
        requires
            self.weights().len() >= 1,
        ensures
            res == self.output_len(),
    {
        self.layers[self.layers.len() - 1].len()
    }
}

} // verus!
