use vstd::prelude::*;

use super::{covers, nested_view, same_shape, Kernels, Network};

verus! {

/// Having the same shape is transitive.
pub proof fn lemma_same_shape_trans<A, B, C>(a: Seq<Seq<Seq<A>>>, b: Seq<Seq<Seq<B>>>, c: Seq<Seq<Seq<C>>>)
    requires
        same_shape(a, b),
        same_shape(b, c),
    ensures
        same_shape(a, c),
{
    assert forall|l: int| 0 <= l < a.len() implies #[trigger] a[l].len() == c[l].len() by {
        assert(a[l].len() == b[l].len());
        assert(b[l].len() == c[l].len());
    }
    assert forall|l: int, j: int| 0 <= l < a.len() && 0 <= j < a[l].len() implies #[trigger] a[l][j].len()
        == c[l][j].len() by {
        assert(a[l][j].len() == b[l][j].len());
        assert(b[l][j].len() == c[l][j].len());
    }
}

/// Covering is kept when both sides are replaced by sequences of the same
/// shape.
pub proof fn lemma_covers_kept<A, B>(
    a_new: Seq<Seq<Seq<A>>>,
    a_old: Seq<Seq<Seq<A>>>,
    b_new: Seq<Seq<Seq<B>>>,
    b_old: Seq<Seq<Seq<B>>>,
)
    requires
        same_shape(a_new, a_old),
        covers(a_old, b_old),
        same_shape(b_new, b_old),
    ensures
        covers(a_new, b_new),
{
    assert forall|l: int| 0 <= l < b_new.len() implies #[trigger] a_new[l].len() >= b_new[l].len() by {
        assert(a_new[l].len() == a_old[l].len());
        assert(b_new[l].len() == b_old[l].len());
        assert(a_old[l].len() >= b_old[l].len());
    }
    assert forall|l: int, j: int| 0 <= l < b_new.len() && 0 <= j < b_new[l].len() implies
        #[trigger] a_new[l][j].len() >= b_new[l][j].len() by {
        assert(b_new[l].len() == b_old[l].len());
        assert(a_old[l].len() >= b_old[l].len());
        assert(a_new[l][j].len() == a_old[l][j].len());
        assert(b_new[l][j].len() == b_old[l][j].len());
        assert(a_old[l][j].len() >= b_old[l][j].len());
    }
}

/// Networks with the same layer sizes have output layers of the same size.
pub proof fn lemma_same_sizes_same_output<W>(a: Network<W>, b: Network<W>)
    requires
        a.sizes() == b.sizes(),
        a.layer_vecs().len() >= 1,
    ensures
        a.output_len() == b.output_len(),
        a.layer_vecs().len() == b.layer_vecs().len(),
{
    let n = a.layer_vecs().len();
    assert(a.sizes().len() == n + 1);
    assert(b.sizes().len() == b.layer_vecs().len() + 1);
    assert(a.sizes()[n as int] == a.weights()[n - 1].len());
    assert(b.sizes()[n as int] == b.weights()[n - 1].len());
}

impl<W> Network<W> {
    /// One epoch of incremental training of `self` over `examples`, starting
    /// from the weight changes `prev`: `nets[i]` and `prevs[i]` are the
    /// network and the weight changes before example `i`, which gives the
    /// run `results[i]`, and `errors[i + 1]` is `add_error` of `errors[i]`
    /// (`zero_error` at first), the run and the example's targets.
    pub open spec fn epoch_chain<FM, FA, FO, FB, FH, FU, FS, FE>(
        self,
        prev: Seq<Seq<Seq<W>>>,
        examples: Seq<(Vec<W>, Vec<W>)>,
        k: Kernels<W, FM, FA, FO, FB, FH, FU, FS>,
        zero_error: W,
        add_error: FE,
        nets: Seq<Network<W>>,
        prevs: Seq<Seq<Seq<Seq<W>>>>,
        results: Seq<Vec<Vec<W>>>,
        errors: Seq<W>,
    ) -> bool where
        FM: Fn(W, W, W) -> W,
        FA: Fn(W) -> W,
        FO: Fn(W, W) -> W,
        FB: Fn(W, W, W) -> W,
        FH: Fn(W, W) -> W,
        FU: Fn(W, W) -> W,
        FS: Fn(W, W, W) -> (W, W),
        FE: Fn(W, &Vec<Vec<W>>, &Vec<W>) -> W,
     {
        &&& nets.len() == examples.len() + 1
        &&& prevs.len() == examples.len() + 1
        &&& results.len() == examples.len()
        &&& errors.len() == examples.len() + 1
        &&& nets[0] == self
        &&& prevs[0] == prev
        &&& errors[0] == zero_error
        &&& forall|i: int|
            0 <= i < examples.len() ==> nets[i].trained_on(
                prevs[i],
                examples[i].0@,
                examples[i].1@,
                k,
                nets[i + 1],
                prevs[i + 1],
                (#[trigger] results[i])@,
            )
        &&& forall|i: int|
            0 <= i < examples.len() ==> add_error.ensures(
                (errors[i], &#[trigger] results[i], &examples[i].1),
                errors[i + 1],
            )
    }

    /// One epoch over `examples` takes `self` with the weight changes `prev`
    /// to `after` with the changes `prev_after`, and sums the errors up to
    /// `error` (see `epoch_chain`).
    pub open spec fn epoch_step<FM, FA, FO, FB, FH, FU, FS, FE>(
        self,
        prev: Seq<Seq<Seq<W>>>,
        examples: Seq<(Vec<W>, Vec<W>)>,
        k: Kernels<W, FM, FA, FO, FB, FH, FU, FS>,
        zero_error: W,
        add_error: FE,
        after: Network<W>,
        prev_after: Seq<Seq<Seq<W>>>,
        error: W,
    ) -> bool where
        FM: Fn(W, W, W) -> W,
        FA: Fn(W) -> W,
        FO: Fn(W, W) -> W,
        FB: Fn(W, W, W) -> W,
        FH: Fn(W, W) -> W,
        FU: Fn(W, W) -> W,
        FS: Fn(W, W, W) -> (W, W),
        FE: Fn(W, &Vec<Vec<W>>, &Vec<W>) -> W,
     {
        exists|
            nets: Seq<Network<W>>,
            prevs: Seq<Seq<Seq<Seq<W>>>>,
            results: Seq<Vec<Vec<W>>>,
            errors: Seq<W>,
        |
            #[trigger] self.epoch_chain(prev, examples, k, zero_error, add_error, nets, prevs, results, errors)
                && nets.last() == after && prevs.last() == prev_after && errors.last() == error
    }

    /// Trains the network on every example in turn, updating the weights
    /// after each, and sums up the error of each run with `add_error`,
    /// starting from `zero_error`.
    pub fn train_epoch<FM, FA, FO, FB, FH, FU, FS, FE>(
        &mut self,
        examples: &[(Vec<W>, Vec<W>)],
        prev_deltas: &mut Vec<Vec<Vec<W>>>,
        k: &Kernels<W, FM, FA, FO, FB, FH, FU, FS>,
        zero_error: W,
        add_error: &FE,
    ) -> (error: W) where
        W: Copy,
        FM: Fn(W, W, W) -> W,
        FA: Fn(W) -> W,
        FO: Fn(W, W) -> W,
        FB: Fn(W, W, W) -> W,
        FH: Fn(W, W) -> W,
        FU: Fn(W, W) -> W,
        FS: Fn(W, W, W) -> (W, W),
        FE: Fn(W, &Vec<Vec<W>>, &Vec<W>) -> W,

        requires
            forall|i: int|
                0 <= i < examples@.len() ==> old(self).example_fits(
                    (#[trigger] examples@[i]).0@,
                    examples@[i].1@,
                ),
            old(self).trainable(),
            covers(nested_view(old(prev_deltas)@), old(self).weights()),
            k.total(),
            forall|a: W, r: &Vec<Vec<W>>, t: &Vec<W>| add_error.requires((a, r, t)),
        ensures
            exists|
                nets: Seq<Network<W>>,
                prevs: Seq<Seq<Seq<Seq<W>>>>,
                results: Seq<Vec<Vec<W>>>,
                errors: Seq<W>,
            |
                #[trigger] old(self).epoch_chain(
                    nested_view(old(prev_deltas)@),
                    examples@,
                    *k,
                    zero_error,
                    *add_error,
                    nets,
                    prevs,
                    results,
                    errors,
                ) && *final(self) == nets.last() && nested_view(final(prev_deltas)@) == prevs.last()
                    && error == errors.last(),
            old(self).epoch_step(
                nested_view(old(prev_deltas)@),
                examples@,
                *k,
                zero_error,
                *add_error,
                *final(self),
                nested_view(final(prev_deltas)@),
                error,
            ),
            final(self).input_count() == old(self).input_count(),
            final(self).sizes() == old(self).sizes(),
            same_shape(final(self).weights(), old(self).weights()),
            final(self).trainable(),
            covers(nested_view(final(prev_deltas)@), final(self).weights()),
    {
        proof {
            assert(same_shape(self.weights(), self.weights()));
        }
        let ghost start = *self;
        let ghost prev0 = nested_view(prev_deltas@);
        let ghost mut nets: Seq<Network<W>> = seq![*self];
        let ghost mut prevs: Seq<Seq<Seq<Seq<W>>>> = seq![prev0];
        let ghost mut rs: Seq<Vec<Vec<W>>> = Seq::empty();
        let ghost mut errs: Seq<W> = seq![zero_error];
        let mut error = zero_error;
        let mut i: usize = 0;
        while i < examples.len()
            invariant
                i <= examples@.len(),
                forall|q: int|
                    0 <= q < examples@.len() ==> start.example_fits(
                        (#[trigger] examples@[q]).0@,
                        examples@[q].1@,
                    ),
                start.layer_vecs().len() >= 1,
                self.input_count() == start.input_count(),
                self.sizes() == start.sizes(),
                same_shape(self.weights(), start.weights()),
                self.trainable(),
                covers(nested_view(prev_deltas@), self.weights()),
                k.total(),
                forall|a: W, r: &Vec<Vec<W>>, t: &Vec<W>| add_error.requires((a, r, t)),
                start.epoch_chain(
                    prev0,
                    examples@.take(i as int),
                    *k,
                    zero_error,
                    *add_error,
                    nets,
                    prevs,
                    rs,
                    errs,
                ),
                nets.last() == *self,
                prevs.last() == nested_view(prev_deltas@),
                errs.last() == error,
            decreases examples@.len() - i,
        {
            let example = &examples[i];
            proof {
                lemma_same_sizes_same_output(start, *self);
                assert(start.example_fits(example.0@, example.1@));
            }
            let ghost before = *self;
            let ghost prev_before = nested_view(prev_deltas@);
            let results = self.train_example(
                &example.0,
                &example.1,
                prev_deltas,
                k,
            );
            error = add_error(error, &results, &example.1);
            proof {
                lemma_covers_kept(
                    nested_view(prev_deltas@),
                    prev_before,
                    self.weights(),
                    before.weights(),
                );
                lemma_same_shape_trans(self.weights(), before.weights(), start.weights());
                let old_nets = nets;
                let old_prevs = prevs;
                let old_rs = rs;
                let old_errs = errs;
                nets = nets.push(*self);
                prevs = prevs.push(nested_view(prev_deltas@));
                rs = rs.push(results);
                errs = errs.push(error);
                assert(examples@.take(i + 1) =~= examples@.take(i as int).push(*example));
                assert forall|q: int| 0 <= q < i + 1 implies nets[q].trained_on(
                    prevs[q],
                    examples@.take(i + 1)[q].0@,
                    examples@.take(i + 1)[q].1@,
                    *k,
                    nets[q + 1],
                    prevs[q + 1],
                    (#[trigger] rs[q])@,
                ) by {
                    if q < i {
                        assert(old_rs[q] == rs[q]);
                    }
                }
                assert forall|q: int| 0 <= q < i + 1 implies add_error.ensures(
                    (errs[q], &#[trigger] rs[q], &examples@.take(i + 1)[q].1),
                    errs[q + 1],
                ) by {
                    if q < i {
                        assert(old_rs[q] == rs[q]);
                    }
                }
            }
            i = i + 1;
        }
        proof {
            assert(examples@.take(examples@.len() as int) =~= examples@);
        }
        error
    }
}

} // verus!
