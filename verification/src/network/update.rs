use vstd::prelude::*;

use super::{covers, nested_view, same_shape, within, Network};

verus! {

/// `new_w` and `new_p` are what `step` makes of every weight of `old_w`
/// together with its update in `upd` and its previous change in `old_p`;
/// `new_p` keeps the shape of `old_p`, and its entries at positions that are
/// not weights keep their values.
pub open spec fn stepped<W, F: Fn(W, W, W) -> (W, W)>(
    step: F,
    old_w: Seq<Seq<Seq<W>>>,
    upd: Seq<Seq<Seq<W>>>,
    old_p: Seq<Seq<Seq<W>>>,
    new_w: Seq<Seq<Seq<W>>>,
    new_p: Seq<Seq<Seq<W>>>,
) -> bool {
    &&& same_shape(new_w, old_w)
    &&& same_shape(new_p, old_p)
    &&& forall|l: int, j: int, w: int|
        within(old_w, l, j, w) ==> step.ensures(
            (old_w[l][j][w], upd[l][j][w], old_p[l][j][w]),
            (#[trigger] new_w[l][j][w], new_p[l][j][w]),
        )
    &&& forall|l: int, j: int, w: int|
        within(old_p, l, j, w) && !within(old_w, l, j, w) ==> #[trigger] new_p[l][j][w]
            == old_p[l][j][w]
}

/// Overwrites the first entries of `dst` with those of `src`.
fn overwrite_node<W: Copy>(dst: &mut Vec<W>, src: &Vec<W>)
    requires
        src@.len() <= old(dst)@.len(),
    ensures
        final(dst)@.len() == old(dst)@.len(),
        forall|w: int| 0 <= w < src@.len() ==> #[trigger] final(dst)@[w] == src@[w],
        forall|w: int| src@.len() <= w < old(dst)@.len() ==> #[trigger] final(dst)@[w] == old(dst)@[w],
{
    let mut w: usize = 0;
    while w < src.len()
        invariant
            w <= src@.len(),
            src@.len() <= dst@.len(),
            dst@.len() == old(dst)@.len(),
            forall|k: int| 0 <= k < w ==> #[trigger] dst@[k] == src@[k],
            forall|k: int| w <= k < old(dst)@.len() ==> #[trigger] dst@[k] == old(dst)@[k],
        decreases src@.len() - w,
    {
        dst.set(w, src[w]);
        w = w + 1;
    }
}

/// Overwrites, node by node, the first entries of `dst` with those of `src`.
fn overwrite_layer<W: Copy>(dst: &mut Vec<Vec<W>>, src: &Vec<Vec<W>>)
    requires
        src@.len() <= old(dst)@.len(),
        forall|j: int| 0 <= j < src@.len() ==> #[trigger] src@[j]@.len() <= old(dst)@[j]@.len(),
    ensures
        final(dst)@.len() == old(dst)@.len(),
        forall|j: int| 0 <= j < old(dst)@.len() ==> #[trigger] final(dst)@[j]@.len() == old(dst)@[j]@.len(),
        forall|j: int, w: int|
            0 <= j < src@.len() && 0 <= w < src@[j]@.len() ==> #[trigger] final(dst)@[j]@[w]
                == src@[j]@[w],
        forall|j: int, w: int|
            0 <= j < old(dst)@.len() && 0 <= w < old(dst)@[j]@.len() && !(j < src@.len() && w
                < src@[j]@.len()) ==> #[trigger] final(dst)@[j]@[w] == old(dst)@[j]@[w],
{
    let mut j: usize = 0;
    while j < src.len()
        invariant
            j <= src@.len(),
            src@.len() <= dst@.len(),
            dst@.len() == old(dst)@.len(),
            forall|k: int| 0 <= k < src@.len() ==> #[trigger] src@[k]@.len() <= old(dst)@[k]@.len(),
            forall|k: int| 0 <= k < old(dst)@.len() ==> #[trigger] dst@[k]@.len() == old(dst)@[k]@.len(),
            forall|k: int, w: int|
                0 <= k < j && 0 <= w < src@[k]@.len() ==> #[trigger] dst@[k]@[w] == src@[k]@[w],
            forall|k: int, w: int|
                0 <= k < j && src@[k]@.len() <= w < old(dst)@[k]@.len() ==> #[trigger] dst@[k]@[w]
                    == old(dst)@[k]@[w],
            forall|k: int| j <= k < old(dst)@.len() ==> #[trigger] dst@[k] == old(dst)@[k],
        decreases src@.len() - j,
    {
        overwrite_node(&mut dst[j], &src[j]);
        j = j + 1;
    }
}

/// Overwrites, layer by layer and node by node, the first entries of `dst`
/// with those of `src`.
fn overwrite_all<W: Copy>(dst: &mut Vec<Vec<Vec<W>>>, src: &Vec<Vec<Vec<W>>>)
    requires
        covers(nested_view(old(dst)@), nested_view(src@)),
    ensures
        same_shape(nested_view(final(dst)@), nested_view(old(dst)@)),
        forall|l: int, j: int, w: int|
            within(nested_view(src@), l, j, w) ==> #[trigger] nested_view(final(dst)@)[l][j][w]
                == nested_view(src@)[l][j][w],
        forall|l: int, j: int, w: int|
            within(nested_view(old(dst)@), l, j, w) && !within(nested_view(src@), l, j, w)
                ==> #[trigger] nested_view(final(dst)@)[l][j][w] == nested_view(old(dst)@)[l][j][w],
{
    let ghost od = nested_view(dst@);
    let ghost sv = nested_view(src@);
    let mut l: usize = 0;
    while l < src.len()
        invariant
            od == nested_view(old(dst)@),
            sv == nested_view(src@),
            covers(od, sv),
            l <= src@.len(),
            dst@.len() == old(dst)@.len(),
            forall|k: int| 0 <= k < old(dst)@.len() ==> #[trigger] dst@[k]@.len() == old(dst)@[k]@.len(),
            forall|k: int, j: int|
                0 <= k < old(dst)@.len() && 0 <= j < old(dst)@[k]@.len() ==> #[trigger] dst@[k]@[j]@.len()
                    == old(dst)@[k]@[j]@.len(),
            forall|k: int, j: int, w: int|
                0 <= k < l && within(sv, k, j, w) ==> #[trigger] dst@[k]@[j]@[w] == src@[k]@[j]@[w],
            forall|k: int, j: int, w: int|
                0 <= k < l && within(od, k, j, w) && !within(sv, k, j, w) ==> #[trigger] dst@[k]@[j]@[w]
                    == old(dst)@[k]@[j]@[w],
            forall|k: int| l <= k < old(dst)@.len() ==> #[trigger] dst@[k] == old(dst)@[k],
        decreases src@.len() - l,
    {
        proof {
            assert(od[l as int].len() >= sv[l as int].len());
            assert forall|j: int| 0 <= j < src@[l as int]@.len() implies #[trigger] src@[l as int]@[j]@.len()
                <= dst@[l as int]@[j]@.len() by {
                assert(od[l as int][j].len() >= sv[l as int][j].len());
            }
        }
        let ghost before = dst@;
        overwrite_layer(&mut dst[l], &src[l]);
        proof {
            assert forall|k: int, j: int, w: int|
                0 <= k < l + 1 && within(sv, k, j, w) implies #[trigger] dst@[k]@[j]@[w]
                    == src@[k]@[j]@[w] by {
                if k < l {
                    assert(dst@[k] == before[k]);
                }
            }
            assert forall|k: int, j: int, w: int|
                0 <= k < l + 1 && within(od, k, j, w) && !within(sv, k, j, w) implies
                #[trigger] dst@[k]@[j]@[w] == old(dst)@[k]@[j]@[w] by {
                if k < l {
                    assert(dst@[k] == before[k]);
                } else {
                    assert(old(dst)@[k] == before[k]);
                }
            }
        }
        l = l + 1;
    }
    proof {
        let nd = nested_view(dst@);
        assert forall|l: int, j: int, w: int| within(sv, l, j, w) implies #[trigger] nd[l][j][w]
            == sv[l][j][w] by {
            assert(od[l].len() >= sv[l].len());
            assert(od[l][j].len() >= sv[l][j].len());
            assert(od[l].len() == old(dst)@[l]@.len());
            assert(od[l][j].len() == old(dst)@[l]@[j]@.len());
            assert(dst@[l]@.len() == old(dst)@[l]@.len());
            assert(dst@[l]@[j]@.len() == old(dst)@[l]@[j]@.len());
            assert(nd[l][j][w] == dst@[l]@[j]@[w]);
            assert(sv[l][j][w] == src@[l]@[j]@[w]);
        }
        assert forall|l: int, j: int, w: int| within(od, l, j, w) && !within(sv, l, j, w) implies
            #[trigger] nd[l][j][w] == od[l][j][w] by {
            assert(od[l].len() == old(dst)@[l]@.len());
            assert(od[l][j].len() == old(dst)@[l]@[j]@.len());
            assert(dst@[l]@.len() == old(dst)@[l]@.len());
            assert(dst@[l]@[j]@.len() == old(dst)@[l]@[j]@.len());
            assert(nd[l][j][w] == dst@[l]@[j]@[w]);
            if l >= src@.len() {
                assert(dst@[l] == old(dst)@[l]);
            }
        }
    }
}

impl<W> Network<W> {
    /// Updates every weight of the network: `step` takes the weight, its
    /// update and its previous change, and gives the new weight and the
    /// change that was made, which is kept in `prev_deltas`. Entries of
    /// `network_weight_updates` and `prev_deltas` beyond the network's
    /// weights are not read, and those of `prev_deltas` keep their values.
    pub fn update_weights<F: Fn(W, W, W) -> (W, W)>(
        &mut self,
        network_weight_updates: &[Vec<Vec<W>>],
        prev_deltas: &mut Vec<Vec<Vec<W>>>,
        step: &F,
    ) where W: Copy
        requires
            covers(nested_view(network_weight_updates@), old(self).weights()),
            covers(nested_view(old(prev_deltas)@), old(self).weights()),
            forall|w: W, u: W, p: W| step.requires((w, u, p)),
        ensures
            final(self).input_count() == old(self).input_count(),
            stepped(
                *step,
                old(self).weights(),
                nested_view(network_weight_updates@),
                nested_view(old(prev_deltas)@),
                final(self).weights(),
                nested_view(final(prev_deltas)@),
            ),
    {
        let ghost old_w = self.weights();
        let ghost upd = nested_view(network_weight_updates@);
        let ghost old_p = nested_view(prev_deltas@);
        let mut new_layers: Vec<Vec<Vec<W>>> = Vec::new();
        let mut new_prev: Vec<Vec<Vec<W>>> = Vec::new();
        let mut l: usize = 0;
        while l < self.layers.len()
            invariant
                old_w == self.weights(),
                covers(upd, old_w),
                covers(old_p, old_w),
                upd == nested_view(network_weight_updates@),
                old_p == nested_view(prev_deltas@),
                forall|w: W, u: W, p: W| step.requires((w, u, p)),
                l <= old_w.len(),
                new_layers@.len() == l,
                new_prev@.len() == l,
                forall|ll: int| 0 <= ll < l ==> (#[trigger] new_layers@[ll])@.len() == old_w[ll].len(),
                forall|ll: int| 0 <= ll < l ==> (#[trigger] new_prev@[ll])@.len() == old_w[ll].len(),
                forall|ll: int, j: int|
                    0 <= ll < l && 0 <= j < old_w[ll].len() ==> (#[trigger] new_layers@[ll]@[j])@.len()
                        == old_w[ll][j].len(),
                forall|ll: int, j: int|
                    0 <= ll < l && 0 <= j < old_w[ll].len() ==> (#[trigger] new_prev@[ll]@[j])@.len()
                        == old_w[ll][j].len(),
                forall|ll: int, j: int, w: int|
                    0 <= ll < l && 0 <= j < old_w[ll].len() && 0 <= w < old_w[ll][j].len()
                        ==> step.ensures(
                        (old_w[ll][j][w], upd[ll][j][w], old_p[ll][j][w]),
                        (#[trigger] new_layers@[ll]@[j]@[w], new_prev@[ll]@[j]@[w]),
                    ),
            decreases old_w.len() - l,
        {
            let layer = &self.layers[l];
            proof {
                assert(upd[l as int].len() >= old_w[l as int].len());
                assert(old_p[l as int].len() >= old_w[l as int].len());
            }
            let layer_updates = &network_weight_updates[l];
            let layer_prev = &prev_deltas[l];
            let mut new_layer: Vec<Vec<W>> = Vec::new();
            let mut new_layer_prev: Vec<Vec<W>> = Vec::new();
            let mut j: usize = 0;
            while j < layer.len()
                invariant
                    *layer == self.layer_vecs()[l as int],
                    old_w == self.weights(),
                    0 <= l < old_w.len(),
                    covers(upd, old_w),
                    covers(old_p, old_w),
                    layer_updates@ == network_weight_updates@[l as int]@,
                    layer_prev@ == prev_deltas@[l as int]@,
                    upd == nested_view(network_weight_updates@),
                    old_p == nested_view(prev_deltas@),
                    forall|w: W, u: W, p: W| step.requires((w, u, p)),
                    j <= layer@.len(),
                    new_layer@.len() == j,
                    new_layer_prev@.len() == j,
                    forall|jj: int|
                        0 <= jj < j ==> (#[trigger] new_layer@[jj])@.len() == old_w[l as int][jj].len(),
                    forall|jj: int|
                        0 <= jj < j ==> (#[trigger] new_layer_prev@[jj])@.len() == old_w[l as int][jj].len(),
                    forall|jj: int, w: int|
                        0 <= jj < j && 0 <= w < old_w[l as int][jj].len() ==> step.ensures(
                            (old_w[l as int][jj][w], upd[l as int][jj][w], old_p[l as int][jj][w]),
                            (#[trigger] new_layer@[jj]@[w], new_layer_prev@[jj]@[w]),
                        ),
                decreases layer@.len() - j,
            {
                let node = &layer[j];
                proof {
                    assert(upd[l as int].len() == layer_updates@.len());
                    assert(old_p[l as int].len() == layer_prev@.len());
                    assert(old_w[l as int].len() == layer@.len());
                    assert(upd[l as int].len() >= old_w[l as int].len());
                    assert(old_p[l as int].len() >= old_w[l as int].len());
                }
                let node_updates = &layer_updates[j];
                let node_prev = &layer_prev[j];
                proof {
                    assert(old_w[l as int][j as int] == node@);
                    assert(upd[l as int][j as int] == node_updates@);
                    assert(old_p[l as int][j as int] == node_prev@);
                    assert(upd[l as int][j as int].len() >= old_w[l as int][j as int].len());
                    assert(old_p[l as int][j as int].len() >= old_w[l as int][j as int].len());
                }
                let mut new_node: Vec<W> = Vec::new();
                let mut new_node_prev: Vec<W> = Vec::new();
                let mut w: usize = 0;
                while w < node.len()
                    invariant
                        forall|w: W, u: W, p: W| step.requires((w, u, p)),
                        w <= node@.len(),
                        node_updates@.len() >= node@.len(),
                        node_prev@.len() >= node@.len(),
                        new_node@.len() == w,
                        new_node_prev@.len() == w,
                        forall|ww: int|
                            0 <= ww < w ==> step.ensures(
                                (node@[ww], node_updates@[ww], node_prev@[ww]),
                                (#[trigger] new_node@[ww], new_node_prev@[ww]),
                            ),
                    decreases node@.len() - w,
                {
                    let (nw, np) = step(node[w], node_updates[w], node_prev[w]);
                    new_node.push(nw);
                    new_node_prev.push(np);
                    w = w + 1;
                }
                new_layer.push(new_node);
                new_layer_prev.push(new_node_prev);
                j = j + 1;
            }
            new_layers.push(new_layer);
            new_prev.push(new_layer_prev);
            l = l + 1;
        }
        proof {
            let nw = nested_view(new_layers@);
            let np = nested_view(new_prev@);
            assert(same_shape(nw, old_w));
            assert(same_shape(np, old_w));
            assert forall|l: int, j: int, w: int| within(old_w, l, j, w) implies step.ensures(
                (old_w[l][j][w], upd[l][j][w], old_p[l][j][w]),
                (#[trigger] nw[l][j][w], np[l][j][w]),
            ) by {
                assert(nw[l][j][w] == new_layers@[l]@[j]@[w]);
                assert(np[l][j][w] == new_prev@[l]@[j]@[w]);
            }
            assert(covers(old_p, np));
        }
        self.layers = new_layers;
        overwrite_all(prev_deltas, &new_prev);
        proof {
            let np = nested_view(new_prev@);
            let fp = nested_view(prev_deltas@);
            assert forall|l: int, j: int, w: int| within(old_w, l, j, w) implies step.ensures(
                (old_w[l][j][w], upd[l][j][w], old_p[l][j][w]),
                (#[trigger] self.weights()[l][j][w], fp[l][j][w]),
            ) by {
                assert(within(np, l, j, w));
            }
            assert forall|l: int, j: int, w: int| within(old_p, l, j, w) && !within(old_w, l, j, w) implies
                #[trigger] fp[l][j][w] == old_p[l][j][w] by {
                assert(!within(np, l, j, w));
            }
        }
    }
}

} // verus!
