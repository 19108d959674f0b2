use vstd::prelude::*;

verus! {

/// The arithmetic that training applies to single weights and values.
pub struct Kernels<W, FM, FA, FO, FB, FH, FU, FS> {
    /// Takes one weight and one value into a node's running sum:
    /// `(sum, weight, value)` to the new sum.
    pub mul_add: FM,
    /// Turns a node's sum into its result.
    pub activate: FA,
    /// The error of an output node: `(result, target)` to the error.
    pub output_error: FO,
    /// Where the sum of the errors sent back to a hidden node starts.
    pub zero: W,
    /// Takes one node of the next layer into the sum of errors sent back:
    /// `(sum, weight, error)` to the new sum.
    pub back_step: FB,
    /// The error of a hidden node: `(result, sum of errors sent back)` to
    /// the error.
    pub hidden_error: FH,
    /// The value that feeds every threshold weight.
    pub threshold: W,
    /// The update of a weight: `(node error, value that feeds the weight)`.
    pub weight_update: FU,
    /// The change of a weight: `(weight, update, previous change)` to the
    /// new weight and the change made.
    pub step: FS,
}

impl<W, FM, FA, FO, FB, FH, FU, FS> Kernels<W, FM, FA, FO, FB, FH, FU, FS> where
    FM: Fn(W, W, W) -> W,
    FA: Fn(W) -> W,
    FO: Fn(W, W) -> W,
    FB: Fn(W, W, W) -> W,
    FH: Fn(W, W) -> W,
    FU: Fn(W, W) -> W,
    FS: Fn(W, W, W) -> (W, W),
 {
    /// Every kernel can be called on any arguments.
    pub open spec fn total(&self) -> bool {
        &&& forall|a: W, w: W, x: W| self.mul_add.requires((a, w, x))
        &&& forall|a: W| self.activate.requires((a,))
        &&& forall|r: W, t: W| self.output_error.requires((r, t))
        &&& forall|a: W, w: W, x: W| self.back_step.requires((a, w, x))
        &&& forall|r: W, a: W| self.hidden_error.requires((r, a))
        &&& forall|e: W, x: W| self.weight_update.requires((e, x))
        &&& forall|w: W, u: W, p: W| self.step.requires((w, u, p))
    }
}

} // verus!
