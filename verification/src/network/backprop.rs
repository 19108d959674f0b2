use vstd::prelude::*;

use super::{back_result, back_value, Network};

verus! {

/// Value that feeds weight `w` of a node of layer `l`: `threshold` for the
/// threshold weight, otherwise result `w - 1` of the layer before.
pub open spec fn input_of<W>(results: Seq<Vec<W>>, threshold: W, l: int, w: int) -> W {
    if w == 0 {
        threshold
    } else {
        results[l]@[w - 1]
    }
}

impl<W> Network<W> {
    /// `results` has the shape of a run of the network: one row per layer,
    /// the input row holding at least as many values as the network has inputs.
    pub open spec fn fits_results(&self, results: Seq<Vec<W>>) -> bool {
        &&& results.len() == self.layer_vecs().len() + 1
        &&& results[0]@.len() >= self.input_count()
        &&& forall|l: int|
            0 <= l < self.layer_vecs().len() ==> (#[trigger] results[l + 1])@.len()
                == self.layer_vecs()[l]@.len()
    }

    /// `results` can be backpropagated through: the network has a layer, and
    /// `results` a row for each layer and one more; the row that feeds a
    /// layer holds a value for every weight past the threshold of each of the
    /// layer's nodes that has a result; and each node of a later layer that
    /// has a result holds a weight from each node of the layer before it
    /// that has a result.
    pub open spec fn covers_results(&self, results: Seq<Vec<W>>) -> bool {
        let w = self.weights();
        &&& w.len() >= 1
        &&& results.len() >= w.len() + 1
        &&& forall|l: int, j: int|
            0 <= l < w.len() && 0 <= j < self.nodes_used(results, l) ==> (#[trigger] w[l][j]).len()
                <= results[l]@.len() + 1
        &&& forall|l: int, j: int, k: int|
            #![trigger w[l + 1][k], w[l][j]]
            0 <= l < w.len() - 1 && 0 <= j < self.nodes_used(results, l) && 0 <= k
                < self.nodes_used(results, l + 1) ==> j + 1 < w[l + 1][k].len()
    }

    /// Number of nodes of layer `l` that backpropagation reaches: the nodes
    /// of the layer that have a result in row `l + 1`.
    pub open spec fn nodes_used(&self, results: Seq<Vec<W>>, l: int) -> nat {
        let n = self.layer_vecs()[l]@.len();
        let r = results[l + 1]@.len();
        if n <= r {
            n
        } else {
            r
        }
    }

    /// `errs_l` holds the errors of the nodes of layer `l` that have a
    /// result: for the output layer, `output_error` of each result and its
    /// target; for any other layer, the error (`back_value`) that the next
    /// layer's weights and errors (`next_errs`) send back to the node.
    pub open spec fn layer_errors_ok<FO, FB, FH>(
        &self,
        results: Seq<Vec<W>>,
        targets: Seq<W>,
        output_error: FO,
        zero: W,
        back_step: FB,
        hidden_error: FH,
        l: int,
        errs_l: Vec<W>,
        next_errs: Vec<W>,
    ) -> bool where FO: Fn(W, W) -> W, FB: Fn(W, W, W) -> W, FH: Fn(W, W) -> W {
        &&& errs_l@.len() == self.nodes_used(results, l)
        &&& forall|j: int|
            0 <= j < errs_l@.len() ==> if l == self.layer_vecs().len() - 1 {
                output_error.ensures((results[l + 1]@[j], targets[j]), #[trigger] errs_l@[j])
            } else {
                back_value(
                    self.weights()[l + 1],
                    next_errs@,
                    j,
                    zero,
                    back_step,
                    hidden_error,
                    results[l + 1]@[j],
                    errs_l@[j],
                )
            }
    }

    /// `upd_l` has the shape of layer `l`, and each of its entries is
    /// `weight_update` of the node's error and the value that feeds the weight.
    pub open spec fn layer_updates_ok<FU>(
        &self,
        results: Seq<Vec<W>>,
        threshold: W,
        weight_update: FU,
        l: int,
        errs_l: Vec<W>,
        upd_l: Vec<Vec<W>>,
    ) -> bool where FU: Fn(W, W) -> W {
        &&& upd_l@.len() == self.nodes_used(results, l)
        &&& forall|j: int|
            0 <= j < upd_l@.len() ==> (#[trigger] upd_l@[j])@.len() == self.layer_vecs()[l]@[j]@.len()
        &&& forall|j: int, w: int|
            0 <= j < upd_l@.len() && 0 <= w < upd_l@[j]@.len() ==> weight_update.ensures(
                (errs_l@[j], input_of(results, threshold, l, w)),
                #[trigger] upd_l@[j]@[w],
            )
    }

    /// The node errors `errs`, one row per layer, are those that
    /// backpropagation computes from the output layer down.
    pub open spec fn errors_back<FO, FB, FH>(
        &self,
        results: Seq<Vec<W>>,
        targets: Seq<W>,
        output_error: FO,
        zero: W,
        back_step: FB,
        hidden_error: FH,
        errs: Seq<Vec<W>>,
    ) -> bool where FO: Fn(W, W) -> W, FB: Fn(W, W, W) -> W, FH: Fn(W, W) -> W {
        &&& errs.len() == self.layer_vecs().len()
        &&& forall|l: int|
            0 <= l < errs.len() ==> #[trigger] self.layer_errors_ok(
                results,
                targets,
                output_error,
                zero,
                back_step,
                hidden_error,
                l,
                errs[l],
                errs[l + 1],
            )
    }

    /// The weight updates `updates` have the shape of the weights and follow
    /// from the node errors `errs`.
    pub open spec fn updates_from<FU>(
        &self,
        results: Seq<Vec<W>>,
        threshold: W,
        weight_update: FU,
        errs: Seq<Vec<W>>,
        updates: Seq<Vec<Vec<W>>>,
    ) -> bool where FU: Fn(W, W) -> W {
        &&& updates.len() == self.layer_vecs().len()
        &&& forall|l: int|
            0 <= l < updates.len() ==> #[trigger] self.layer_updates_ok(
                results,
                threshold,
                weight_update,
                l,
                errs[l],
                updates[l],
            )
    }

    /// Calculates the update of every weight by backpropagation, from the
    /// results of a run (`results`, as `do_run` gives them) and the expected
    /// outputs (`targets`). The error of an output node is `output_error` of
    /// its result and target; that of a hidden node is `hidden_error` of its
    /// result and the sum, from `zero` with `back_step`, of the errors of the
    /// next layer times their weights from the node; the update of a weight
    /// is `weight_update` of the node's error and the value that feeds the
    /// weight (`threshold` for the threshold weight). A layer whose row of
    /// results is shorter than the layer has updates for the nodes with a
    /// result only; rows beyond the last layer are not read.
    pub fn calculate_weight_updates<FO, FB, FH, FU>(
        &self,
        results: &[Vec<W>],
        targets: &[W],
        threshold: W,
        output_error: &FO,
        zero: W,
        back_step: &FB,
        hidden_error: &FH,
        weight_update: &FU,
    ) -> (updates: Vec<Vec<Vec<W>>>) where
        W: Copy,
        FO: Fn(W, W) -> W,
        FB: Fn(W, W, W) -> W,
        FH: Fn(W, W) -> W,
        FU: Fn(W, W) -> W,

        requires
            self.covers_results(results@),
            targets@.len() >= self.nodes_used(results@, self.layer_vecs().len() - 1),
            forall|r: W, t: W| output_error.requires((r, t)),
            forall|a: W, w: W, x: W| back_step.requires((a, w, x)),
            forall|r: W, a: W| hidden_error.requires((r, a)),
            forall|e: W, x: W| weight_update.requires((e, x)),
        ensures
            exists|errs: Seq<Vec<W>>|
                #[trigger] self.errors_back(results@, targets@, *output_error, zero, *back_step, *hidden_error, errs)
                    && self.updates_from(results@, threshold, *weight_update, errs, updates@),
    {
        let n = self.layers.len();
        let mut rev_errs: Vec<Vec<W>> = Vec::new();
        let mut rev_upds: Vec<Vec<Vec<W>>> = Vec::new();
        let mut remaining: usize = n;
        while remaining > 0
            invariant
                n == self.layer_vecs().len(),
                n >= 1,
                self.covers_results(results@),
                targets@.len() >= self.nodes_used(results@, n - 1),
                forall|r: W, t: W| output_error.requires((r, t)),
                forall|a: W, w: W, x: W| back_step.requires((a, w, x)),
                forall|r: W, a: W| hidden_error.requires((r, a)),
                forall|e: W, x: W| weight_update.requires((e, x)),
                remaining <= n,
                rev_errs@.len() == n - remaining,
                rev_upds@.len() == n - remaining,
                forall|r: int|
                    0 <= r < n - remaining ==> self.layer_errors_ok(
                        results@,
                        targets@,
                        *output_error,
                        zero,
                        *back_step,
                        *hidden_error,
                        n - 1 - r,
                        #[trigger] rev_errs@[r],
                        rev_errs@[r - 1],
                    ),
                forall|r: int|
                    0 <= r < n - remaining ==> self.layer_updates_ok(
                        results@,
                        threshold,
                        *weight_update,
                        n - 1 - r,
                        rev_errs@[r],
                        #[trigger] rev_upds@[r],
                    ),
            decreases remaining,
        {
            let l = remaining - 1;
            let layer = &self.layers[l];
            let layer_results = &results[l + 1];
            let prev_results = &results[l];
            let mut layer_errors: Vec<W> = Vec::new();
            let mut layer_updates: Vec<Vec<W>> = Vec::new();
            proof {
                if l < n - 1 {
                    let r = rev_errs@.len() - 1;
                    assert(self.layer_errors_ok(
                        results@,
                        targets@,
                        *output_error,
                        zero,
                        *back_step,
                        *hidden_error,
                        n - 1 - r,
                        rev_errs@[r],
                        rev_errs@[r - 1],
                    ));
                }
            }
            let mut j: usize = 0;
            while j < layer.len() && j < layer_results.len()
                invariant
                    n == self.layer_vecs().len(),
                    l < n,
                    l == remaining - 1,
                    *layer == self.layer_vecs()[l as int],
                    self.covers_results(results@),
                    *layer_results == results@[l + 1],
                    *prev_results == results@[l as int],
                    targets@.len() >= self.nodes_used(results@, n - 1),
                    forall|r: W, t: W| output_error.requires((r, t)),
                    forall|a: W, w: W, x: W| back_step.requires((a, w, x)),
                    forall|r: W, a: W| hidden_error.requires((r, a)),
                    forall|e: W, x: W| weight_update.requires((e, x)),
                    rev_errs@.len() == n - remaining,
                    l < n - 1 ==> rev_errs@[rev_errs@.len() - 1]@.len() == self.nodes_used(
                        results@,
                        l + 1,
                    ),
                    j <= self.nodes_used(results@, l as int),
                    layer_errors@.len() == j,
                    layer_updates@.len() == j,
                    forall|jj: int|
                        0 <= jj < j ==> if l == n - 1 {
                            output_error.ensures(
                                (results@[l + 1]@[jj], targets@[jj]),
                                #[trigger] layer_errors@[jj],
                            )
                        } else {
                            back_value(
                                self.weights()[l + 1],
                                rev_errs@[rev_errs@.len() - 1]@,
                                jj,
                                zero,
                                *back_step,
                                *hidden_error,
                                results@[l + 1]@[jj],
                                layer_errors@[jj],
                            )
                        },
                    forall|jj: int|
                        0 <= jj < j ==> (#[trigger] layer_updates@[jj])@.len()
                            == self.layer_vecs()[l as int]@[jj]@.len(),
                    forall|jj: int, w: int|
                        0 <= jj < j && 0 <= w < layer_updates@[jj]@.len() ==> weight_update.ensures(
                            (layer_errors@[jj], input_of(results@, threshold, l as int, w)),
                            #[trigger] layer_updates@[jj]@[w],
                        ),
                decreases layer@.len() - j,
            {
                let result = layer_results[j];
                let node_error = if l == n - 1 {
                    output_error(result, targets[j])
                } else {
                    proof {
                        let next = self.weights()[l + 1];
                        let r = rev_errs@.len() - 1;
                        let m = super::min_len(self.layers@[l + 1]@.len(), rev_errs@[r]@.len());
                        assert forall|k: int| 0 <= k < m implies j + 1 < (
                        #[trigger] self.layers@[l + 1]@[k])@.len() by {
                            let wv = self.weights();
                            assert(wv[l as int][j as int] == wv[l as int][j as int]);
                            assert(wv[l + 1][k] == self.layers@[l + 1]@[k]@);
                        }
                        assert(super::rows_view(self.layers@[l + 1]@) =~= next);
                    }
                    back_result(
                        &self.layers[l + 1],
                        &rev_errs[rev_errs.len() - 1],
                        j,
                        result,
                        zero,
                        back_step,
                        hidden_error,
                    )
                };
                let node = &layer[j];
                proof {
                    assert(self.weights()[l as int][j as int] == node@);
                }
                let mut node_updates: Vec<W> = Vec::new();
                let mut w: usize = 0;
                while w < node.len()
                    invariant
                        forall|e: W, x: W| weight_update.requires((e, x)),
                        w <= node@.len(),
                        node@.len() <= prev_results@.len() + 1,
                        *prev_results == results@[l as int],
                        node_updates@.len() == w,
                        forall|ww: int|
                            0 <= ww < w ==> weight_update.ensures(
                                (node_error, input_of(results@, threshold, l as int, ww)),
                                #[trigger] node_updates@[ww],
                            ),
                    decreases node@.len() - w,
                {
                    let input = if w == 0 {
                        threshold
                    } else {
                        prev_results[w - 1]
                    };
                    let u = weight_update(node_error, input);
                    node_updates.push(u);
                    w = w + 1;
                }
                layer_errors.push(node_error);
                layer_updates.push(node_updates);
                j = j + 1;
            }
            rev_errs.push(layer_errors);
            rev_upds.push(layer_updates);
            remaining = l;
        }
        let ghost errs = Seq::new(n as nat, |l: int| rev_errs@[n - 1 - l]);
        let ghost all_upds = rev_upds@;
        let mut updates: Vec<Vec<Vec<W>>> = Vec::new();
        while rev_upds.len() > 0
            invariant
                rev_upds@.len() + updates@.len() == n,
                rev_upds@ == all_upds.take(rev_upds@.len() as int),
                all_upds.len() == n,
                forall|i: int| 0 <= i < updates@.len() ==> #[trigger] updates@[i] == all_upds[n - 1 - i],
            decreases rev_upds@.len(),
        {
            let u = rev_upds.pop().unwrap();
            updates.push(u);
        }
        proof {
            assert(self.errors_back(results@, targets@, *output_error, zero, *back_step, *hidden_error, errs));
            assert(self.updates_from(results@, threshold, *weight_update, errs, updates@));
        }
        updates
    }
}

} // verus!
