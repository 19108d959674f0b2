use std::cell::Cell;

use nn::schedule::{HaltRule, TrainingSchedule};
use nn::network::Kernels;
use nn::Network;

fn sigmoid(y: f64) -> f64 {
    (1f64 + (-y).exp()).recip()
}

fn mul_add(acc: f64, weight: f64, value: f64) -> f64 {
    weight * value + acc
}

fn back_step(acc: f64, weight: f64, error: f64) -> f64 {
    acc + weight * error
}

fn output_error(result: f64, target: f64) -> f64 {
    result * (1f64 - result) * (target - result)
}

fn hidden_error(result: f64, sum: f64) -> f64 {
    result * (1f64 - result) * sum
}

fn weight_update(node_error: f64, input: f64) -> f64 {
    node_error * input
}

#[test]
fn xor_is_learned() {
    let examples = [
        (vec![0f64, 0f64], vec![0f64]),
        (vec![0f64, 1f64], vec![1f64]),
        (vec![1f64, 0f64], vec![1f64]),
        (vec![1f64, 1f64], vec![0f64]),
    ];
    let state = Cell::new(12345u64);
    let sample = || {
        let s = state.get().wrapping_mul(6364136223846793005).wrapping_add(1442695040888963407);
        state.set(s);
        ((s >> 11) as f64) / ((1u64 << 53) as f64) - 0.5
    };
    let mut net = Network::new(&[2, 3, 1], &sample);
    assert_eq!(net.check_examples(&examples), Ok(()));
    let (rate, momentum) = (0.3f64, 0.1f64);
    let kernels = Kernels {
        mul_add: mul_add,
        activate: sigmoid,
        output_error: output_error,
        zero: 0f64,
        back_step: back_step,
        hidden_error: hidden_error,
        threshold: 1f64,
        weight_update: weight_update,
        step: |w: f64, u: f64, p: f64| {
            let delta = rate * u + momentum * p;
            (w + delta, delta)
        },
    };
    let mut prev = net.make_weights_tracker(0.0f64);
    let mut schedule = TrainingSchedule::new(Some(100), HaltRule::Epochs(10000));
    let mut last_error = 1f64;
    while !schedule.check(false).halt {
        last_error = net.train_epoch(
            &examples,
            &mut prev,
            &kernels,
            0f64,
            &|acc: f64, results: &Vec<Vec<f64>>, targets: &Vec<f64>| {
                let last = &results[results.len() - 1];
                acc + (targets[0] - last[0]).powi(2)
            },
        );
        schedule.finish_epoch();
    }
    assert!(last_error < 0.1);
    assert_eq!(schedule.epochs(), 10000);
    for (inputs, outputs) in examples.iter() {
        let results = net.run(inputs, &mul_add, &sigmoid);
        assert_eq!(results.len(), 1);
        assert!(results[0].round() == outputs[0]);
    }
}
