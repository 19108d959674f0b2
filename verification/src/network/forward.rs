use vstd::prelude::*;

use super::{node_result, node_value, Network};

verus! {

impl<W> Network<W> {
    /// `results` is what running the network on `inputs` gives: `results[0]`
    /// is the input, and `results[l + 1][j]` is the value (`node_value`) of
    /// node `j` of layer `l` on `results[l]`, where `mul_add` takes in one
    /// weight and one value and `activate` turns the sum into the result.
    pub open spec fn runs_to<FM: Fn(W, W, W) -> W, FA: Fn(W) -> W>(
        &self,
        inputs: Seq<W>,
        mul_add: FM,
        activate: FA,
        results: Seq<Vec<W>>,
    ) -> bool {
        &&& results.len() == self.layer_vecs().len() + 1
        &&& results[0]@ == inputs
        &&& forall|l: int|
            0 <= l < self.layer_vecs().len() ==> (#[trigger] results[l + 1])@.len()
                == self.layer_vecs()[l]@.len()
        &&& forall|l: int, j: int|
            0 <= l < self.layer_vecs().len() && 0 <= j < self.layer_vecs()[l]@.len() ==> node_value(
                self.weights()[l][j],
                results[l]@,
                mul_add,
                activate,
                #[trigger] results[l + 1]@[j],
            )
    }

    /// An input of length `len` is accepted when it has one value per input.
    pub open spec fn accepts_len(&self, len: nat) -> bool {
        len == self.input_count()
    }

    /// Whether an input of length `len` is accepted by `run`.
    pub fn input_fits(&self, len: usize) -> (res: bool)
        ensures
            res == self.accepts_len(len as nat),
    {
        len as u64 == self.num_inputs as u64
    }

    /// Runs the network on `inputs` and returns the results of every layer,
    /// the input layer first.
    pub fn do_run<FM: Fn(W, W, W) -> W, FA: Fn(W) -> W>(
        &self,
        inputs: &[W],
        mul_add: &FM,
        activate: &FA,
    ) -> (results: Vec<Vec<W>>) where W: Copy
        requires
            self.runnable(),
            forall|a: W, w: W, x: W| mul_add.requires((a, w, x)),
            forall|a: W| activate.requires((a,)),
        ensures
            self.runs_to(inputs@, *mul_add, *activate, results@),
    {
        let mut first: Vec<W> = Vec::new();
        let mut i: usize = 0;
        while i < inputs.len()
            invariant
                i <= inputs@.len(),
                first@ == inputs@.take(i as int),
            decreases inputs.len() - i,
        {
            first.push(inputs[i]);
            i = i + 1;
            assert(first@ =~= inputs@.take(i as int));
        }
        assert(inputs@.take(inputs@.len() as int) =~= inputs@);
        let mut results: Vec<Vec<W>> = Vec::new();
        results.push(first);
        let mut l: usize = 0;
        while l < self.layers.len()
            invariant
                self.runnable(),
                forall|a: W, w: W, x: W| mul_add.requires((a, w, x)),
                forall|a: W| activate.requires((a,)),
                l <= self.layers@.len(),
                results@.len() == l + 1,
                results@[0]@ == inputs@,
                forall|ll: int| 0 <= ll < l ==> (#[trigger] results@[ll + 1])@.len() == self.layers@[ll]@.len(),
                forall|ll: int, j: int|
                    0 <= ll < l && 0 <= j < self.layers@[ll]@.len() ==> node_value(
                        self.weights()[ll][j],
                        results@[ll]@,
                        *mul_add,
                        *activate,
                        #[trigger] results@[ll + 1]@[j],
                    ),
            decreases self.layers@.len() - l,
        {
            let layer = &self.layers[l];
            let prev = &results[l];
            let mut row: Vec<W> = Vec::new();
            let mut j: usize = 0;
            while j < layer.len()
                invariant
                    self.runnable(),
                    *layer == self.layers@[l as int],
                    l < self.layers@.len(),
                    forall|a: W, w: W, x: W| mul_add.requires((a, w, x)),
                    forall|a: W| activate.requires((a,)),
                    j <= layer@.len(),
                    row@.len() == j,
                    forall|jj: int|
                        0 <= jj < j ==> node_value(
                            self.weights()[l as int][jj],
                            prev@,
                            *mul_add,
                            *activate,
                            #[trigger] row@[jj],
                        ),
                decreases layer@.len() - j,
            {
                proof {
                    assert(self.weights()[l as int][j as int] == layer@[j as int]@);
                }
                let v = node_result(&layer[j], prev, mul_add, activate);
                row.push(v);
                j = j + 1;
            }
            results.push(row);
            l = l + 1;
        }
        results
    }

    /// Runs the network on `inputs` and returns the results of its output
    /// layer (the inputs themselves, for a network without layers).
    pub fn run<FM: Fn(W, W, W) -> W, FA: Fn(W) -> W>(
        &self,
        inputs: &[W],
        mul_add: &FM,
        activate: &FA,
    ) -> (out: Vec<W>) where W: Copy
        requires
            self.runnable(),
            self.accepts_len(inputs@.len()),
            forall|a: W, w: W, x: W| mul_add.requires((a, w, x)),
            forall|a: W| activate.requires((a,)),
        ensures
            out@.len() == self.sizes().last(),
            exists|results: Seq<Vec<W>>|
                #[trigger] self.runs_to(inputs@, *mul_add, *activate, results) && out
                    == results.last(),
    {
        let mut results = self.do_run(inputs, mul_add, activate);
        let ghost all = results@;
        let out = results.pop().unwrap();
        proof {
            let n = self.layer_vecs().len();
            if n > 0 {
                assert(all[n - 1 + 1]@.len() == self.layer_vecs()[n - 1]@.len());
                assert(self.sizes()[n as int] == self.weights()[n - 1].len());
            } else {
                assert(self.sizes()[0] == self.input_count());
            }
            assert(self.runs_to(inputs@, *mul_add, *activate, all));
        }
        out
    }
}

} // verus!
