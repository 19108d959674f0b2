use nn::schedule::{halt_rule_ok, log_interval_ok, HaltRule, Step, TrainingSchedule, DEFAULT_EPOCHS};
use nn::LearningMode;

fn run_schedule(log_interval: Option<u32>, rule: HaltRule, reached_after: u32) -> (u32, Vec<u32>) {
    let mut sched = TrainingSchedule::new(log_interval, rule);
    let mut logged = Vec::new();
    loop {
        let step = sched.check(sched.epochs() >= reached_after);
        if step.log {
            logged.push(sched.epochs());
        }
        if step.halt {
            break;
        }
        sched.finish_epoch();
    }
    (sched.epochs(), logged)
}

#[test]
fn epochs_rule_trains_exactly_that_many_epochs() {
    assert_eq!(run_schedule(None, HaltRule::Epochs(1), 0).0, 1);
    assert_eq!(run_schedule(None, HaltRule::Epochs(7), 0).0, 7);
    assert_eq!(run_schedule(None, HaltRule::Epochs(DEFAULT_EPOCHS), 0).0, 1000);
}

#[test]
fn first_epoch_always_runs() {
    let sched = TrainingSchedule::new(Some(1), HaltRule::Measured);
    assert_eq!(sched.check(true), Step { log: false, halt: false });
    assert_eq!(run_schedule(Some(1), HaltRule::Measured, 0).0, 1);
}

#[test]
fn measured_rule_halts_when_reached() {
    assert_eq!(run_schedule(None, HaltRule::Measured, 5).0, 5);
    let mut sched = TrainingSchedule::new(None, HaltRule::Measured);
    sched.finish_epoch();
    assert!(!sched.check(false).halt);
    assert!(sched.check(true).halt);
}

#[test]
fn logs_every_interval() {
    assert_eq!(run_schedule(Some(3), HaltRule::Epochs(10), 0).1, vec![3, 6, 9]);
    assert_eq!(run_schedule(Some(5), HaltRule::Epochs(10), 0).1, vec![5, 10]);
    assert_eq!(run_schedule(None, HaltRule::Epochs(10), 0).1, Vec::<u32>::new());
}

#[test]
fn validators() {
    assert!(!log_interval_ok(Some(0)));
    assert!(log_interval_ok(Some(1)));
    assert!(log_interval_ok(None));
    assert!(!halt_rule_ok(HaltRule::Epochs(0)));
    assert!(halt_rule_ok(HaltRule::Epochs(1)));
    assert!(halt_rule_ok(HaltRule::Measured));
}

#[test]
fn learning_mode_is_incremental() {
    let mode = LearningMode::Incremental;
    assert_eq!(mode, LearningMode::Incremental);
    assert_eq!(format!("{:?}", mode), "Incremental");
}
