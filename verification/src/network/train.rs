use vstd::prelude::*;

use super::{covers, nested_view, same_shape, shape_ok, sizes_of, stepped, Kernels, Network};

verus! {

/// The results of running a network on an input that it accepts have one
/// row per layer, each as long as the layer, and can be backpropagated
/// through.
pub proof fn lemma_run_results_fit<W, FM: Fn(W, W, W) -> W, FA: Fn(W) -> W>(
    net: Network<W>,
    inputs: Seq<W>,
    mul_add: FM,
    activate: FA,
    results: Seq<Vec<W>>,
)
    requires
        net.trainable(),
        net.accepts_len(inputs.len()),
        net.runs_to(inputs, mul_add, activate, results),
    ensures
        net.fits_results(results),
        net.covers_results(results),
{
    let w = net.weights();
    assert(results[0]@.len() >= net.input_count());
    assert forall|l: int| 0 <= l < w.len() implies #[trigger] net.nodes_used(results, l) == w[l].len() by {
        assert(results[l + 1]@.len() == net.layer_vecs()[l]@.len());
    }
    assert forall|l: int, j: int| 0 <= l < w.len() && 0 <= j < net.nodes_used(results, l) implies (
    #[trigger] w[l][j]).len() <= results[l]@.len() + 1 by {
        assert(net.nodes_used(results, l) == w[l].len());
        if l > 0 {
            assert(results[(l - 1) + 1]@.len() == net.layer_vecs()[l - 1]@.len());
            assert(w[l][j].len() == w[l - 1].len() + 1);
        }
    }
    assert forall|l: int, j: int, k: int|
        #![trigger w[l + 1][k], w[l][j]]
        0 <= l < w.len() - 1 && 0 <= j < net.nodes_used(results, l) && 0 <= k < net.nodes_used(
            results,
            l + 1,
        ) implies j + 1 < w[l + 1][k].len() by {
        assert(net.nodes_used(results, l) == w[l].len());
        assert(net.nodes_used(results, l + 1) == w[l + 1].len());
        assert(w[l + 1][k].len() == w[(l + 1) - 1].len() + 1);
    }
}

/// The weight updates that backpropagation gives from the results of a run
/// have the shape of the network's weights.
pub proof fn lemma_updates_have_weight_shape<W, FU: Fn(W, W) -> W>(
    net: Network<W>,
    results: Seq<Vec<W>>,
    threshold: W,
    weight_update: FU,
    errs: Seq<Vec<W>>,
    updates: Seq<Vec<Vec<W>>>,
)
    requires
        net.fits_results(results),
        net.updates_from(results, threshold, weight_update, errs, updates),
    ensures
        same_shape(nested_view(updates), net.weights()),
        covers(nested_view(updates), net.weights()),
{
    let u = nested_view(updates);
    let w = net.weights();
    assert forall|l: int| 0 <= l < u.len() implies #[trigger] u[l].len() == w[l].len() by {
        assert(net.layer_updates_ok(results, threshold, weight_update, l, errs[l], updates[l]));
        assert(results[l + 1]@.len() == net.layer_vecs()[l]@.len());
    }
    assert forall|l: int, j: int| 0 <= l < u.len() && 0 <= j < u[l].len() implies #[trigger] u[l][j].len()
        == w[l][j].len() by {
        assert(net.layer_updates_ok(results, threshold, weight_update, l, errs[l], updates[l]));
        assert(results[l + 1]@.len() == net.layer_vecs()[l]@.len());
        assert(u[l][j] == updates[l]@[j]@);
    }
}

/// Updating the weights never changes the layer sizes of a network, nor its
/// layered shape.
pub proof fn lemma_stepped_keeps_sizes<W, F: Fn(W, W, W) -> (W, W)>(
    step: F,
    num_inputs: nat,
    old_w: Seq<Seq<Seq<W>>>,
    upd: Seq<Seq<Seq<W>>>,
    old_p: Seq<Seq<Seq<W>>>,
    new_w: Seq<Seq<Seq<W>>>,
    new_p: Seq<Seq<Seq<W>>>,
)
    requires
        stepped(step, old_w, upd, old_p, new_w, new_p),
    ensures
        sizes_of(new_w, num_inputs) == sizes_of(old_w, num_inputs),
        shape_ok(old_w, num_inputs) ==> shape_ok(new_w, num_inputs),
{
    assert(sizes_of(new_w, num_inputs) =~= sizes_of(old_w, num_inputs));
    if shape_ok(old_w, num_inputs) {
        assert forall|l: int, j: int| 0 <= l < new_w.len() && 0 <= j < new_w[l].len() implies
            #[trigger] new_w[l][j].len() == super::fan_in(new_w, num_inputs, l) + 1 by {
            assert(old_w[l][j].len() == super::fan_in(old_w, num_inputs, l) + 1);
            if l > 0 {
                assert(new_w[l - 1].len() == old_w[l - 1].len());
            }
        }
        assert forall|l: int| 0 <= l < new_w.len() implies #[trigger] new_w[l].len() >= 1 by {
            assert(old_w[l].len() >= 1);
        }
    }
}

impl<W> Network<W> {
    /// Training `self` on the example `(inputs, targets)`, with the weight
    /// changes `prev` of the step before, gives the network `after` and the
    /// changes `prev_after`: the run on `inputs` gives `results`, the node
    /// errors and weight updates follow by backpropagation, and every weight
    /// and its change is what `k.step` makes of the weight, its update and its
    /// previous change. The input count and the layer sizes do not change,
    /// nor the number of weights of any node.
    pub open spec fn trained_on<FM, FA, FO, FB, FH, FU, FS>(
        self,
        prev: Seq<Seq<Seq<W>>>,
        inputs: Seq<W>,
        targets: Seq<W>,
        k: Kernels<W, FM, FA, FO, FB, FH, FU, FS>,
        after: Network<W>,
        prev_after: Seq<Seq<Seq<W>>>,
        results: Seq<Vec<W>>,
    ) -> bool where
        FM: Fn(W, W, W) -> W,
        FA: Fn(W) -> W,
        FO: Fn(W, W) -> W,
        FB: Fn(W, W, W) -> W,
        FH: Fn(W, W) -> W,
        FU: Fn(W, W) -> W,
        FS: Fn(W, W, W) -> (W, W),
     {
        &&& self.runs_to(inputs, k.mul_add, k.activate, results)
        &&& after.input_count() == self.input_count()
        &&& after.sizes() == self.sizes()
        &&& same_shape(after.weights(), self.weights())
        &&& exists|errs: Seq<Vec<W>>, updates: Seq<Vec<Vec<W>>>|
            #[trigger] self.errors_back(
                results,
                targets,
                k.output_error,
                k.zero,
                k.back_step,
                k.hidden_error,
                errs,
            ) && #[trigger] self.updates_from(results, k.threshold, k.weight_update, errs, updates)
                && stepped(k.step, self.weights(), nested_view(updates), prev, after.weights(), prev_after)
    }

    /// Trains the network on one example: runs it on `inputs`, calculates
    /// the weight updates by backpropagation towards `targets`, and applies
    /// them with `k.step`, keeping the changes in `prev_deltas`. Returns the
    /// results of the run.
    pub fn train_example<FM, FA, FO, FB, FH, FU, FS>(
        &mut self,
        inputs: &[W],
        targets: &[W],
        prev_deltas: &mut Vec<Vec<Vec<W>>>,
        k: &Kernels<W, FM, FA, FO, FB, FH, FU, FS>,
    ) -> (results: Vec<Vec<W>>) where
        W: Copy,
        FM: Fn(W, W, W) -> W,
        FA: Fn(W) -> W,
        FO: Fn(W, W) -> W,
        FB: Fn(W, W, W) -> W,
        FH: Fn(W, W) -> W,
        FU: Fn(W, W) -> W,
        FS: Fn(W, W, W) -> (W, W),

        requires
            old(self).trainable(),
            old(self).example_fits(inputs@, targets@),
            covers(nested_view(old(prev_deltas)@), old(self).weights()),
            k.total(),
        ensures
            old(self).trained_on(
                nested_view(old(prev_deltas)@),
                inputs@,
                targets@,
                *k,
                *final(self),
                nested_view(final(prev_deltas)@),
                results@,
            ),
            final(self).trainable(),
            same_shape(final(self).weights(), old(self).weights()),
    {
        proof {
            super::lemma_trainable_runnable(self.weights(), self.input_count());
        }
        let results = self.do_run(inputs, &k.mul_add, &k.activate);
        proof {
            lemma_run_results_fit(*self, inputs@, k.mul_add, k.activate, results@);
        }
        let updates = self.calculate_weight_updates(
            &results,
            targets,
            k.threshold,
            &k.output_error,
            k.zero,
            &k.back_step,
            &k.hidden_error,
            &k.weight_update,
        );
        let ghost errs = choose|errs: Seq<Vec<W>>|
            #[trigger] self.errors_back(
                results@,
                targets@,
                k.output_error,
                k.zero,
                k.back_step,
                k.hidden_error,
                errs,
            ) && self.updates_from(results@, k.threshold, k.weight_update, errs, updates@);
        let ghost before = *self;
        proof {
            lemma_updates_have_weight_shape(*self, results@, k.threshold, k.weight_update, errs, updates@);
        }
        self.update_weights(&updates, prev_deltas, &k.step);
        proof {
            lemma_stepped_keeps_sizes(
                k.step,
                before.input_count(),
                before.weights(),
                nested_view(updates@),
                nested_view(old(prev_deltas)@),
                self.weights(),
                nested_view(prev_deltas@),
            );
            super::lemma_same_shape_trainable(self.weights(), before.weights(), before.input_count());
            assert(before.errors_back(
                results@,
                targets@,
                k.output_error,
                k.zero,
                k.back_step,
                k.hidden_error,
                errs,
            ));
        }
        results
    }
}

} // verus!
