use vstd::prelude::*;

use super::{covers, nested_view, same_shape, within, Kernels, Network};
use crate::schedule::{log_interval_valid, step_at, HaltRule, TrainingSchedule};

verus! {

/// Why training stopped without its halting rule being met.
#[derive(Debug, Copy, Clone, PartialEq, Eq, Structural)]
pub enum TrainError {
    /// The epoch count would pass `u32::MAX`.
    EpochOverflow,
}

/// `p` has the shape of `w`, and every entry is a clone of `v`.
pub open spec fn filled_with<W: Clone>(p: Seq<Seq<Seq<W>>>, w: Seq<Seq<Seq<W>>>, v: W) -> bool {
    &&& same_shape(p, w)
    &&& forall|l: int, j: int, x: int| within(p, l, j, x) ==> cloned(v, #[trigger] p[l][j][x])
}

/// The number of passes after which the schedule was asked to halt, plus
/// one, when `epochs + 1` networks were gone through: every one of them when
/// training halted, all but the last when the epoch count overflowed.
pub open spec fn checked_passes<W>(res: Result<W, TrainError>, networks: nat) -> int {
    match res {
        Ok(_) => networks as int,
        Err(_) => networks - 1,
    }
}

impl<W> Network<W> {
    /// A run of epochs: `nets[e]`, `prevs[e]` are the network and the weight
    /// changes after `e` epochs (`self` and `prev` at first), and
    /// `errors[e]` is the summed error of epoch `e` (`zero_error` before the
    /// first); each epoch starts where the one before ended, the weight
    /// changes carried over.
    pub open spec fn trained_epochs<FM, FA, FO, FB, FH, FU, FS, FE>(
        self,
        prev: Seq<Seq<Seq<W>>>,
        examples: Seq<(Vec<W>, Vec<W>)>,
        k: Kernels<W, FM, FA, FO, FB, FH, FU, FS>,
        zero_error: W,
        add_error: FE,
        nets: Seq<Network<W>>,
        prevs: Seq<Seq<Seq<Seq<W>>>>,
        errors: Seq<W>,
    ) -> bool where
        FM: Fn(W, W, W) -> W,
        FA: Fn(W) -> W,
        FO: Fn(W, W) -> W,
        FB: Fn(W, W, W) -> W,
        FH: Fn(W, W) -> W,
        FU: Fn(W, W) -> W,
        FS: Fn(W, W, W) -> (W, W),
        FE: Fn(W, &Vec<Vec<W>>, &Vec<W>) -> W,
     {
        &&& nets.len() >= 1
        &&& prevs.len() == nets.len()
        &&& errors.len() == nets.len()
        &&& nets[0] == self
        &&& prevs[0] == prev
        &&& errors[0] == zero_error
        &&& forall|e: int|
            0 <= e < nets.len() - 1 ==> #[trigger] nets[e].epoch_step(
                prevs[e],
                examples,
                k,
                zero_error,
                add_error,
                nets[e + 1],
                prevs[e + 1],
                errors[e + 1],
            )
    }

    /// Incremental training as `train_incremental` runs it: the weight
    /// changes start as clones of `no_change` in the shape of the weights,
    /// the epochs follow one another (`trained_epochs`), the schedule did
    /// not halt at any pass that was followed by another epoch, and at the
    /// passes after epochs `1 .. passed`, `reach[e]` is what `reached` said
    /// of the error of epoch `e` (under a measured rule) and `log` was given
    /// the epoch count and the error wherever the schedule logs.
    pub open spec fn runs_epochs<FM, FA, FO, FB, FH, FU, FS, FE, FR, FL>(
        self,
        examples: Seq<(Vec<W>, Vec<W>)>,
        k: Kernels<W, FM, FA, FO, FB, FH, FU, FS>,
        no_change: W,
        zero_error: W,
        add_error: FE,
        log_interval: Option<u32>,
        rule: HaltRule,
        reached: FR,
        log: FL,
        nets: Seq<Network<W>>,
        prevs: Seq<Seq<Seq<Seq<W>>>>,
        errors: Seq<W>,
        reach: Seq<bool>,
        passed: int,
    ) -> bool where
        W: Clone,
        FM: Fn(W, W, W) -> W,
        FA: Fn(W) -> W,
        FO: Fn(W, W) -> W,
        FB: Fn(W, W, W) -> W,
        FH: Fn(W, W) -> W,
        FU: Fn(W, W) -> W,
        FS: Fn(W, W, W) -> (W, W),
        FE: Fn(W, &Vec<Vec<W>>, &Vec<W>) -> W,
        FR: Fn(W) -> bool,
        FL: Fn(u32, W),
     {
        &&& self.trained_epochs(prevs[0], examples, k, zero_error, add_error, nets, prevs, errors)
        &&& filled_with(prevs[0], self.weights(), no_change)
        &&& reach.len() == nets.len()
        &&& 0 <= passed <= nets.len()
        &&& forall|e: int|
            1 <= e < nets.len() - 1 ==> !(#[trigger] step_at(log_interval, rule, e as nat, reach[e])).halt
        &&& forall|e: int|
            1 <= e < passed && rule == HaltRule::Measured ==> reached.ensures(
                (errors[e],),
                #[trigger] reach[e],
            )
        &&& forall|e: int|
            1 <= e < passed && step_at(log_interval, rule, e as nat, false).log ==> log.ensures(
                (e as u32, #[trigger] errors[e]),
                (),
            )
    }

    /// Trains the network incrementally, epoch after epoch over `examples`,
    /// as the schedule of `log_interval` and `rule` decides: at the start of
    /// every pass after the first epoch it reports the error of the last
    /// epoch to `log` where the schedule logs, asks `reached` of that error
    /// under a measured rule, and halts where the schedule halts, returning
    /// that error. Under `Epochs(n)` exactly `n` epochs are run. The weight
    /// changes start as clones of `no_change` and are carried from example to
    /// example and from epoch to epoch. `log` is called at no other pass:
    /// its precondition is asked for at the passes where the schedule logs
    /// only, and `reached` is called under a measured rule only.
    pub fn train_incremental<FM, FA, FO, FB, FH, FU, FS, FE, FR, FL>(
        &mut self,
        examples: &[(Vec<W>, Vec<W>)],
        k: &Kernels<W, FM, FA, FO, FB, FH, FU, FS>,
        no_change: W,
        zero_error: W,
        add_error: &FE,
        log_interval: Option<u32>,
        rule: HaltRule,
        reached: &FR,
        log: &FL,
    ) -> (res: Result<W, TrainError>) where
        W: Copy,
        FM: Fn(W, W, W) -> W,
        FA: Fn(W) -> W,
        FO: Fn(W, W) -> W,
        FB: Fn(W, W, W) -> W,
        FH: Fn(W, W) -> W,
        FU: Fn(W, W) -> W,
        FS: Fn(W, W, W) -> (W, W),
        FE: Fn(W, &Vec<Vec<W>>, &Vec<W>) -> W,
        FR: Fn(W) -> bool,
        FL: Fn(u32, W),

        requires
            forall|i: int|
                0 <= i < examples@.len() ==> old(self).example_fits(
                    (#[trigger] examples@[i]).0@,
                    examples@[i].1@,
                ),
            old(self).trainable(),
            log_interval_valid(log_interval),
            k.total(),
            forall|a: W, r: &Vec<Vec<W>>, t: &Vec<W>| add_error.requires((a, r, t)),
            rule == HaltRule::Measured ==> forall|a: W| reached.requires((a,)),
            forall|c: u32, a: W|
                step_at(log_interval, rule, c as nat, false).log ==> #[trigger] log.requires((c, a)),
        ensures
            exists|
                nets: Seq<Network<W>>,
                prevs: Seq<Seq<Seq<Seq<W>>>>,
                errors: Seq<W>,
                reach: Seq<bool>,
            |
                #[trigger] old(self).runs_epochs(
                    examples@,
                    *k,
                    no_change,
                    zero_error,
                    *add_error,
                    log_interval,
                    rule,
                    *reached,
                    *log,
                    nets,
                    prevs,
                    errors,
                    reach,
                    checked_passes(res, nets.len()),
                ) && *final(self) == nets.last() && nets.len() >= 2 && match res {
                    Ok(error) => {
                        &&& error == errors.last()
                        &&& step_at(log_interval, rule, (nets.len() - 1) as nat, reach.last()).halt
                        &&& (rule matches HaltRule::Epochs(n) ==> nets.len() - 1 == n)
                    },
                    Err(_) => nets.len() - 1 == u32::MAX as int + 1,
                },
            rule matches HaltRule::Epochs(n) ==> (n >= 1 ==> res is Ok),
            final(self).trainable(),
            final(self).sizes() == old(self).sizes(),
    {
        let ghost start = *self;
        let mut prev = self.make_weights_tracker(no_change);
        let mut schedule = TrainingSchedule::new(log_interval, rule);
        let mut error = zero_error;
        let ghost mut nets: Seq<Network<W>> = seq![*self];
        let ghost mut prevs: Seq<Seq<Seq<Seq<W>>>> = seq![nested_view(prev@)];
        let ghost mut errors: Seq<W> = seq![zero_error];
        let ghost mut reach: Seq<bool> = seq![false];
        proof {
            assert(same_shape(self.weights(), start.weights()));
        }
        loop
            invariant
                start == *old(self),
                forall|i: int|
                    0 <= i < examples@.len() ==> start.example_fits(
                        (#[trigger] examples@[i]).0@,
                        examples@[i].1@,
                    ),
                start.trainable(),
                self.trainable(),
                self.input_count() == start.input_count(),
                self.sizes() == start.sizes(),
                same_shape(self.weights(), start.weights()),
                covers(nested_view(prev@), self.weights()),
                log_interval_valid(log_interval),
                k.total(),
                forall|a: W, r: &Vec<Vec<W>>, t: &Vec<W>| add_error.requires((a, r, t)),
                rule == HaltRule::Measured ==> forall|a: W| reached.requires((a,)),
                forall|c: u32, a: W|
                    step_at(log_interval, rule, c as nat, false).log ==> #[trigger] log.requires((c, a)),
                schedule.interval() == log_interval,
                schedule.halt_rule() == rule,
                schedule.epochs_run() == nets.len() - 1,
                start.runs_epochs(
                    examples@,
                    *k,
                    no_change,
                    zero_error,
                    *add_error,
                    log_interval,
                    rule,
                    *reached,
                    *log,
                    nets,
                    prevs,
                    errors,
                    reach,
                    nets.len() - 1,
                ),
                nets.last() == *self,
                prevs.last() == nested_view(prev@),
                errors.last() == error,
                rule matches HaltRule::Epochs(n) ==> (n >= 1 ==> nets.len() - 1 <= n),
            decreases u32::MAX - schedule.epochs_run(),
        {
            let epochs = schedule.epochs();
            let report = schedule.check(false);
            if report.log {
                log(epochs, error);
            }
            let measured = match rule {
                HaltRule::Measured => epochs > 0,
                HaltRule::Epochs(_) => false,
            };
            let r = if measured {
                reached(error)
            } else {
                false
            };
            let step = schedule.check(r);
            proof {
                reach = reach.update(epochs as int, r);
            }
            if step.halt {
                proof {
                    assert(epochs > 0);
                    assert(nets.len() >= 2);
                    assert(reach.last() == r);
                    assert(step_at(log_interval, rule, (nets.len() - 1) as nat, reach.last()).halt);
                    assert(checked_passes(Ok::<W, TrainError>(error), nets.len()) == nets.len());
                    assert(start.runs_epochs(
                        examples@,
                        *k,
                        no_change,
                        zero_error,
                        *add_error,
                        log_interval,
                        rule,
                        *reached,
                        *log,
                        nets,
                        prevs,
                        errors,
                        reach,
                        nets.len() as int,
                    ));
                }
                return Ok(error);
            }
            proof {
                assert(start.runs_epochs(
                    examples@,
                    *k,
                    no_change,
                    zero_error,
                    *add_error,
                    log_interval,
                    rule,
                    *reached,
                    *log,
                    nets,
                    prevs,
                    errors,
                    reach,
                    nets.len() as int,
                ));
                assert forall|i: int| 0 <= i < examples@.len() implies self.example_fits(
                    (#[trigger] examples@[i]).0@,
                    examples@[i].1@,
                ) by {
                    super::lemma_same_sizes_same_output(start, *self);
                    assert(start.example_fits(examples@[i].0@, examples@[i].1@));
                }
            }
            let ghost before = *self;
            let ghost prev_before = nested_view(prev@);
            error = self.train_epoch(examples, &mut prev, k, zero_error, add_error);
            proof {
                super::lemma_same_shape_trans(self.weights(), before.weights(), start.weights());
                let old_nets = nets;
                let old_prevs = prevs;
                let old_errors = errors;
                nets = nets.push(*self);
                prevs = prevs.push(nested_view(prev@));
                errors = errors.push(error);
                reach = reach.push(false);
                assert forall|e: int| 0 <= e < nets.len() - 1 implies #[trigger] nets[e].epoch_step(
                    prevs[e],
                    examples@,
                    *k,
                    zero_error,
                    *add_error,
                    nets[e + 1],
                    prevs[e + 1],
                    errors[e + 1],
                ) by {
                    if e < old_nets.len() - 1 {
                        assert(old_nets[e].epoch_step(
                            old_prevs[e],
                            examples@,
                            *k,
                            zero_error,
                            *add_error,
                            old_nets[e + 1],
                            old_prevs[e + 1],
                            old_errors[e + 1],
                        ));
                    }
                }
            }
            if epochs == u32::MAX {
                proof {
                    assert(checked_passes(Err::<W, TrainError>(TrainError::EpochOverflow), nets.len())
                        == nets.len() - 1);
                    assert(start.runs_epochs(
                        examples@,
                        *k,
                        no_change,
                        zero_error,
                        *add_error,
                        log_interval,
                        rule,
                        *reached,
                        *log,
                        nets,
                        prevs,
                        errors,
                        reach,
                        nets.len() - 1,
                    ));
                }
                return Err(TrainError::EpochOverflow);
            }
            schedule.finish_epoch();
        }
    }
}

} // verus!
