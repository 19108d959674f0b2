use vstd::prelude::*;

verus! {

/// Number of epochs that training runs for unless told otherwise.
pub const DEFAULT_EPOCHS: u32 = 1000;

/// When training halts: after a fixed number of epochs, or when a condition
/// measured by the caller (an error rate reached, a time elapsed) holds.
#[derive(Debug, Copy, Clone, PartialEq, Eq, Structural)]
pub enum HaltRule {
    /// Stop training after this many epochs.
    Epochs(u32),
    /// Stop training once the measured condition holds.
    Measured,
}

/// What to do at the start of an epoch.
#[derive(Debug, Copy, Clone, PartialEq, Eq, Structural)]
pub struct Step {
    /// Report the current error rate.
    pub log: bool,
    /// Stop training instead of running the epoch.
    pub halt: bool,
}

/// A log interval is `None` (never log) or a positive number of epochs.
pub open spec fn log_interval_valid(log_interval: Option<u32>) -> bool {
    log_interval != Some(0u32)
}

/// A halting rule asks for at least one epoch.
pub open spec fn halt_rule_valid(rule: HaltRule) -> bool {
    rule != HaltRule::Epochs(0)
}

/// The decision taken at the start of a pass when `epochs` epochs have been
/// run and the measured condition is `reached`: nothing before the first
/// epoch; afterwards, log when the interval divides the epoch count, and halt
/// when the epoch count reaches the limit or, under a measured rule, when the
/// condition holds.
pub open spec fn step_at(log_interval: Option<u32>, rule: HaltRule, epochs: nat, reached: bool) -> Step {
    if epochs == 0 {
        Step { log: false, halt: false }
    } else {
        Step {
            log: match log_interval {
                Some(i) => epochs % (i as nat) == 0,
                None => false,
            },
            halt: match rule {
                HaltRule::Epochs(n) => epochs == n,
                HaltRule::Measured => reached,
            },
        }
    }
}

/// Whether `log_interval` may be used: `Some(0)` may not.
pub fn log_interval_ok(log_interval: Option<u32>) -> (res: bool)
    ensures
        res == log_interval_valid(log_interval),
        res == (log_interval != Some(0u32)),
        forall|i: u32| log_interval == Some(i) && i >= 1 ==> res,
        log_interval is None ==> res,
{
    match log_interval {
        Some(interval) => interval >= 1,
        None => true,
    }
}

/// Whether `rule` may be used: `Epochs(0)` may not.
pub fn halt_rule_ok(rule: HaltRule) -> (res: bool)
    ensures
        res == halt_rule_valid(rule),
        res == (rule != HaltRule::Epochs(0)),
        forall|n: u32| rule == HaltRule::Epochs(n) && n >= 1 ==> res,
        rule == HaltRule::Measured ==> res,
{
    match rule {
        HaltRule::Epochs(epochs) => epochs >= 1,
        HaltRule::Measured => true,
    }
}

/// The decisions of a training run: how often to log, when to halt, and how
/// many epochs have been run so far.
pub struct TrainingSchedule {
    log_interval: Option<u32>,
    rule: HaltRule,
    epochs: u32,
}

impl TrainingSchedule {
    /// The logging interval.
    pub closed spec fn interval(&self) -> Option<u32> {
        self.log_interval
    }

    /// The halting rule.
    pub closed spec fn halt_rule(&self) -> HaltRule {
        self.rule
    }

    /// The number of epochs run so far.
    pub closed spec fn epochs_run(&self) -> nat {
        self.epochs as nat
    }

    #[verifier::type_invariant]
    closed spec fn inv(&self) -> bool {
        log_interval_valid(self.log_interval)
    }

    /// A schedule before the first epoch.
    pub fn new(log_interval: Option<u32>, rule: HaltRule) -> (res: Self)
        requires
            log_interval_valid(log_interval),
        ensures
            res.interval() == log_interval,
            res.halt_rule() == rule,
            res.epochs_run() == 0,
    {
        TrainingSchedule { log_interval, rule, epochs: 0 }
    }

    /// The number of epochs run so far.
    pub fn epochs(&self) -> (res: u32)
        ensures
            res == self.epochs_run(),
    {
        self.epochs
    }

    /// What to do at the start of the next pass, given whether the measured
    /// halting condition holds.
    pub fn check(&self, reached: bool) -> (res: Step)
        ensures
            res == step_at(self.interval(), self.halt_rule(), self.epochs_run(), reached),
    {
        proof {
            use_type_invariant(self);
        }
        if self.epochs == 0 {
            return Step { log: false, halt: false };
        }
        let log = match self.log_interval {
            Some(interval) => self.epochs % interval == 0,
            None => false,
        };
        let halt = match self.rule {
            HaltRule::Epochs(limit) => self.epochs == limit,
            HaltRule::Measured => reached,
        };
        Step { log, halt }
    }

    /// Records that one more epoch has been run.
    pub fn finish_epoch(&mut self)
        requires
            old(self).epochs_run() < u32::MAX,
        ensures
            final(self).epochs_run() == old(self).epochs_run() + 1,
            final(self).interval() == old(self).interval(),
            final(self).halt_rule() == old(self).halt_rule(),
    {
        proof {
            use_type_invariant(&*self);
        }
        self.epochs = self.epochs + 1;
    }
}

/// Every positive log interval may be used, and so may no interval: the only
/// interval refused is zero.
pub proof fn lemma_positive_log_intervals_valid()
    ensures
        forall|i: u32| i >= 1 ==> #[trigger] log_interval_valid(Some(i)),
        log_interval_valid(None),
        !log_interval_valid(Some(0u32)),
{
}

/// Every positive number of epochs may be asked for, and so may a measured
/// condition: the only rule refused is zero epochs.
pub proof fn lemma_positive_epoch_limits_valid()
    ensures
        forall|n: u32| n >= 1 ==> #[trigger] halt_rule_valid(HaltRule::Epochs(n)),
        halt_rule_valid(HaltRule::Measured),
        !halt_rule_valid(HaltRule::Epochs(0)),
{
}

/// Without an interval training never logs, whatever the pass; with an
/// interval `i` it logs at the passes after a multiple of `i` epochs, so at
/// most once every `i` passes.
pub proof fn lemma_log_only_at_multiples(rule: HaltRule, k: nat, reached: bool, i: u32)
    requires
        i >= 1,
    ensures
        !step_at(None, rule, k, reached).log,
        step_at(Some(i), rule, k, reached).log ==> k >= i && k % (i as nat) == 0,
        0 < k < i ==> !step_at(Some(i), rule, k, reached).log,
{
    if 0 < k < i {
        vstd::arithmetic::div_mod::lemma_small_mod(k, i as nat);
    }
}

/// Before the first epoch training neither logs nor halts, whatever the
/// rule and the measured condition: at least one epoch is always run.
pub proof fn lemma_first_epoch_always_runs(log_interval: Option<u32>, rule: HaltRule, reached: bool)
    ensures
        step_at(log_interval, rule, 0, reached) == (Step { log: false, halt: false }),
{
}

/// Under `Epochs(n)` training halts exactly when `n` epochs have been run:
/// at no earlier pass, whatever the measured condition, and at that one.
pub proof fn lemma_epochs_rule_runs_exactly(log_interval: Option<u32>, n: u32)
    requires
        halt_rule_valid(HaltRule::Epochs(n)),
    ensures
        forall|k: nat, reached: bool|
            k <= n ==> (#[trigger] step_at(log_interval, HaltRule::Epochs(n), k, reached)).halt
                == (k == n),
{
}

/// With an interval `i`, training logs at the passes after `i`, `2 i`, ...
/// epochs, and at no other; with no interval it never logs.
pub proof fn lemma_log_every_interval(log_interval: Option<u32>, rule: HaltRule, k: nat, reached: bool)
    requires
        log_interval_valid(log_interval),
    ensures
        step_at(log_interval, rule, k, reached).log == match log_interval {
            Some(i) => k > 0 && k % (i as nat) == 0,
            None => false,
        },
{
}

/// Under a measured rule, training halts at a pass after the first epoch
/// exactly when the measured condition holds.
pub proof fn lemma_measured_rule_halts_when_reached(log_interval: Option<u32>, k: nat, reached: bool)
    requires
        k > 0,
    ensures
        step_at(log_interval, HaltRule::Measured, k, reached).halt == reached,
{
}

} // verus!
