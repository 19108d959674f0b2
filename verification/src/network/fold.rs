use vstd::prelude::*;

verus! {

/// `accs` is the running value of a fold that starts at `init` and takes in
/// the pairs `(xs[k], ys[k])` in order with `f`: `accs[0] == init`, and
/// `accs[k + 1]` is `f` of `accs[k]`, `xs[k]` and `ys[k]`.
pub open spec fn fold_chain<W, F: Fn(W, W, W) -> W>(
    f: F,
    init: W,
    xs: Seq<W>,
    ys: Seq<W>,
    accs: Seq<W>,
) -> bool {
    &&& xs.len() == ys.len()
    &&& accs.len() == xs.len() + 1
    &&& accs[0] == init
    &&& forall|k: int| 0 <= k < xs.len() ==> f.ensures((accs[k], xs[k], ys[k]), #[trigger] accs[k + 1])
}

/// The smaller of two lengths.
pub open spec fn min_len(a: nat, b: nat) -> nat {
    if a <= b {
        a
    } else {
        b
    }
}

/// `v` is the result of a node with weights `node` on the values `values`:
/// starting from the threshold weight `node[0]`, each weight `node[k + 1]`
/// is taken in with value `values[k]` by `mul_add`, as far as both last, and
/// `activate` turns the sum into the result.
pub open spec fn node_value<W, FM: Fn(W, W, W) -> W, FA: Fn(W) -> W>(
    node: Seq<W>,
    values: Seq<W>,
    mul_add: FM,
    activate: FA,
    v: W,
) -> bool {
    let m = min_len((node.len() - 1) as nat, values.len());
    exists|accs: Seq<W>|
        #[trigger] fold_chain(mul_add, node[0], node.subrange(1, m + 1int), values.take(m as int), accs)
            && activate.ensures((accs.last(),), v)
}

/// The result of a node with weights `node` on the values `values`.
pub fn node_result<W: Copy, FM: Fn(W, W, W) -> W, FA: Fn(W) -> W>(
    node: &Vec<W>,
    values: &Vec<W>,
    mul_add: &FM,
    activate: &FA,
) -> (v: W)
    requires
        node@.len() >= 1,
        forall|a: W, w: W, x: W| mul_add.requires((a, w, x)),
        forall|a: W| activate.requires((a,)),
    ensures
        node_value(node@, values@, *mul_add, *activate, v),
{
    let ghost m = min_len((node@.len() - 1) as nat, values@.len());
    let mut acc = node[0];
    let ghost mut accs: Seq<W> = seq![acc];
    let mut k: usize = 0;
    while k < node.len() - 1 && k < values.len()
        invariant
            node@.len() >= 1,
            m == min_len((node@.len() - 1) as nat, values@.len()),
            k <= m,
            forall|a: W, w: W, x: W| mul_add.requires((a, w, x)),
            accs.len() == k + 1,
            accs[0] == node@[0],
            accs.last() == acc,
            forall|i: int|
                0 <= i < k ==> mul_add.ensures((accs[i], node@[i + 1], values@[i]), #[trigger] accs[i + 1]),
        decreases values@.len() - k,
    {
        acc = mul_add(acc, node[k + 1], values[k]);
        proof {
            accs = accs.push(acc);
        }
        k = k + 1;
    }
    let v = activate(acc);
    proof {
        let xs = node@.subrange(1, m + 1int);
        let ys = values@.take(m as int);
        assert forall|i: int| 0 <= i < xs.len() implies mul_add.ensures(
            (accs[i], xs[i], ys[i]),
            #[trigger] accs[i + 1],
        ) by {
            assert(xs[i] == node@[i + 1]);
            assert(ys[i] == values@[i]);
        }
        assert(fold_chain(*mul_add, node@[0], xs, ys, accs));
    }
    v
}

/// View of a vector of vectors as a sequence of sequences.
pub open spec fn rows_view<W>(v: Seq<Vec<W>>) -> Seq<Seq<W>> {
    Seq::new(v.len(), |k: int| v[k]@)
}

/// The weights from node `j` of a layer to the first `m` nodes of the next
/// layer `next_layer` (each past its threshold weight).
pub open spec fn weight_column<W>(next_layer: Seq<Seq<W>>, j: int, m: nat) -> Seq<W> {
    Seq::new(m, |k: int| next_layer[k][j + 1])
}

/// `e` is the error of a hidden node `j` whose result is `result`: starting
/// from `zero`, each node `k` of the next layer adds in, with `back_step`,
/// its weight from node `j` (`next_layer[k][j + 1]`, past the threshold
/// weight) and its error `next_errs[k]`, as far as both last, and
/// `hidden_error` turns the result and that sum into the error.
pub open spec fn back_value<W, FB: Fn(W, W, W) -> W, FH: Fn(W, W) -> W>(
    next_layer: Seq<Seq<W>>,
    next_errs: Seq<W>,
    j: int,
    zero: W,
    back_step: FB,
    hidden_error: FH,
    result: W,
    e: W,
) -> bool {
    let m = min_len(next_layer.len(), next_errs.len());
    exists|accs: Seq<W>|
        #[trigger] fold_chain(
            back_step,
            zero,
            weight_column(next_layer, j, m),
            next_errs.take(m as int),
            accs,
        ) && hidden_error.ensures((result, accs.last()), e)
}

/// The error of hidden node `j`, whose result is `result`, from the weights
/// and the errors of the next layer.
pub fn back_result<W: Copy, FB: Fn(W, W, W) -> W, FH: Fn(W, W) -> W>(
    next_layer: &Vec<Vec<W>>,
    next_errs: &Vec<W>,
    j: usize,
    result: W,
    zero: W,
    back_step: &FB,
    hidden_error: &FH,
) -> (e: W)
    requires
        forall|k: int|
            0 <= k < min_len(next_layer@.len(), next_errs@.len()) ==> j + 1 < (
            #[trigger] next_layer@[k])@.len(),
        forall|a: W, w: W, x: W| back_step.requires((a, w, x)),
        forall|r: W, a: W| hidden_error.requires((r, a)),
    ensures
        back_value(
            rows_view(next_layer@),
            next_errs@,
            j as int,
            zero,
            *back_step,
            *hidden_error,
            result,
            e,
        ),
{
    let ghost nl = rows_view(next_layer@);
    let ghost m = min_len(next_layer@.len(), next_errs@.len());
    let mut acc = zero;
    let ghost mut accs: Seq<W> = seq![zero];
    let mut k: usize = 0;
    while k < next_layer.len() && k < next_errs.len()
        invariant
            m == min_len(next_layer@.len(), next_errs@.len()),
            k <= m,
            forall|i: int| 0 <= i < m ==> j + 1 < (#[trigger] next_layer@[i])@.len(),
            forall|a: W, w: W, x: W| back_step.requires((a, w, x)),
            accs.len() == k + 1,
            accs[0] == zero,
            accs.last() == acc,
            forall|i: int|
                0 <= i < k ==> back_step.ensures(
                    (accs[i], next_layer@[i]@[j + 1], next_errs@[i]),
                    #[trigger] accs[i + 1],
                ),
        decreases next_errs@.len() - k,
    {
        let next_node = &next_layer[k];
        let len = next_node.len();
        assert(j + 1 < len);
        let weight = next_node[j + 1];
        acc = back_step(acc, weight, next_errs[k]);
        proof {
            accs = accs.push(acc);
        }
        k = k + 1;
    }
    let e = hidden_error(result, acc);
    proof {
        let xs = weight_column(nl, j as int, m);
        let ys = next_errs@.take(m as int);
        assert forall|i: int| 0 <= i < xs.len() implies back_step.ensures(
            (accs[i], xs[i], ys[i]),
            #[trigger] accs[i + 1],
        ) by {
            assert(xs[i] == next_layer@[i]@[j + 1]);
            assert(ys[i] == next_errs@[i]);
        }
        assert(fold_chain(*back_step, zero, xs, ys, accs));
        assert(nl.len() == next_layer@.len());
        assert(back_value(nl, next_errs@, j as int, zero, *back_step, *hidden_error, result, e));
    }
    e
}

} // verus!
