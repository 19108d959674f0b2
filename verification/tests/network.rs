use std::cell::{Cell, RefCell};

use nn::schedule::HaltRule;

use nn::network::{check_sizes, ExampleError, Kernels, Network, SizesError};

fn mul_add(acc: i64, weight: i64, value: i64) -> i64 {
    acc + weight * value
}

fn identity(sum: i64) -> i64 {
    sum
}

fn output_error(result: i64, target: i64) -> i64 {
    target - result
}

fn hidden_error(_result: i64, sum: i64) -> i64 {
    sum
}

fn weight_update(error: i64, input: i64) -> i64 {
    error * input
}

fn kernels() -> Kernels<
    i64,
    fn(i64, i64, i64) -> i64,
    fn(i64) -> i64,
    fn(i64, i64) -> i64,
    fn(i64, i64, i64) -> i64,
    fn(i64, i64) -> i64,
    fn(i64, i64) -> i64,
    fn(i64, i64, i64) -> (i64, i64),
> {
    Kernels {
        mul_add: mul_add,
        activate: identity,
        output_error: output_error,
        zero: 0,
        back_step: mul_add,
        hidden_error: hidden_error,
        threshold: 1,
        weight_update: weight_update,
        step: |w: i64, u: i64, p: i64| (w + u + p, u + p),
    }
}

fn sample_net() -> Network<i64> {
    let layers = vec![vec![vec![1, 2, 3], vec![0, -1, 1]], vec![vec![1, 1, 2]]];
    Network::from_layers(layers, 2)
}

#[test]
fn check_sizes_needs_two_layers() {
    assert_eq!(check_sizes(&[3]), Err(SizesError::TooFewLayers));
    assert_eq!(check_sizes(&[]), Err(SizesError::TooFewLayers));
}

#[test]
fn check_sizes_rejects_empty_layer() {
    assert_eq!(check_sizes(&[2, 0, 1]), Err(SizesError::EmptyLayer));
    assert_eq!(check_sizes(&[0, 1]), Err(SizesError::EmptyLayer));
    assert_eq!(check_sizes(&[2, 3, 1]), Ok(()));
}

#[test]
fn new_network_has_requested_sizes() {
    let counter = Cell::new(0i64);
    let sample = || {
        let v = counter.get();
        counter.set(v + 1);
        v
    };
    let net = Network::new(&[2, 3, 1], &sample);
    assert_eq!(net.num_inputs(), 2);
    assert_eq!(net.output_size(), 1);
    let layers = net.layers();
    assert_eq!(layers.len(), 2);
    assert_eq!(layers[0].len(), 3);
    assert_eq!(layers[1].len(), 1);
    assert!(layers[0].iter().all(|n| n.len() == 3));
    assert_eq!(layers[1][0].len(), 4);
    // weights are drawn in order, layer by layer, node by node
    assert_eq!(layers[0][0], vec![0, 1, 2]);
    assert_eq!(layers[0][2], vec![6, 7, 8]);
    assert_eq!(layers[1][0], vec![9, 10, 11, 12]);
    assert_eq!(counter.get(), 13);
}

#[test]
fn from_layers_takes_any_shape() {
    let empty = Network::<i64>::from_layers(vec![], 2);
    assert!(empty.is_runnable());
    assert!(!empty.is_trainable());
    assert_eq!(empty.layer_count(), 0);
    let wide = Network::from_layers(vec![vec![vec![1, 2, 3]]], 0);
    assert!(wide.is_runnable());
    assert!(!wide.is_trainable());
    let narrow = Network::from_layers(vec![vec![vec![1, 2]]], 2);
    assert!(narrow.is_trainable());
    let empty_layer = Network::<i64>::from_layers(vec![vec![]], 2);
    assert!(empty_layer.is_trainable());
    let empty_node = Network::<i64>::from_layers(vec![vec![vec![]]], 2);
    assert!(!empty_node.is_runnable());
    assert!(!empty_node.is_trainable());
    let bad_later = Network::from_layers(vec![vec![vec![1, 2, 3]], vec![vec![1, 2, 3]]], 2);
    assert!(bad_later.is_runnable());
    assert!(!bad_later.is_trainable());
    let good = Network::from_layers(vec![vec![vec![1, 2, 3]], vec![vec![1, 2]]], 2);
    assert!(good.is_trainable());
    assert!(sample_net().is_trainable());
}

#[test]
fn run_ignores_weights_beyond_the_inputs() {
    // one node with three weights on a single input
    let net = Network::from_layers(vec![vec![vec![1, 2, 3]]], 1);
    assert_eq!(net.run(&[5], &mul_add, &identity), vec![1 + 2 * 5]);
}

#[test]
fn run_without_layers_gives_the_inputs() {
    let net = Network::<i64>::from_layers(vec![], 2);
    assert_eq!(net.run(&[4, 5], &mul_add, &identity), vec![4, 5]);
}

#[test]
fn input_fits_compares_lengths_exactly() {
    let net = sample_net();
    assert!(net.input_fits(2));
    assert!(!net.input_fits(3));
    assert!(!net.input_fits(1));
    assert!(!net.input_fits(0));
    if usize::BITS == 64 {
        let len = (1u64 << 32) as usize + 2;
        assert!(!net.input_fits(len));
    }
}

#[test]
fn do_run_gives_every_layer() {
    let net = sample_net();
    let results = net.do_run(&[1, 2], &mul_add, &identity);
    assert_eq!(results, vec![vec![1, 2], vec![9, 1], vec![12]]);
}

#[test]
fn run_gives_output_layer() {
    let net = sample_net();
    assert_eq!(net.run(&[1, 2], &mul_add, &identity), vec![12]);
    assert_eq!(net.run(&[0, 0], &mul_add, &identity), vec![1 + 1 * 1 + 2 * 0]);
}

#[test]
fn weight_updates_by_backpropagation() {
    let net = sample_net();
    let results = net.do_run(&[1, 2], &mul_add, &identity);
    let updates = net.calculate_weight_updates(
        &results,
        &[10],
        1,
        &output_error,
        0,
        &mul_add,
        &hidden_error,
        &weight_update,
    );
    assert_eq!(
        updates,
        vec![vec![vec![-2, -2, -4], vec![-4, -4, -8]], vec![vec![-2, -18, -2]]]
    );
}

#[test]
fn update_weights_applies_step() {
    let mut net = sample_net();
    let updates = vec![vec![vec![1, 1, 1], vec![2, 2, 2]], vec![vec![3, 3, 3]]];
    let mut prev = net.make_weights_tracker(10i64);
    net.update_weights(&updates, &mut prev, &|w: i64, u: i64, p: i64| (w + u + p, u * 100));
    assert_eq!(
        net.layers(),
        &vec![vec![vec![12, 13, 14], vec![12, 11, 13]], vec![vec![14, 14, 15]]]
    );
    assert_eq!(
        prev,
        vec![vec![vec![100, 100, 100], vec![200, 200, 200]], vec![vec![300, 300, 300]]]
    );
}

#[test]
fn weights_tracker_has_weight_shape() {
    let net = sample_net();
    let tracker = net.make_weights_tracker(0u8);
    assert_eq!(tracker, vec![vec![vec![0, 0, 0], vec![0, 0, 0]], vec![vec![0, 0, 0]]]);
}

#[test]
fn train_example_runs_backpropagates_and_updates() {
    let mut net = sample_net();
    let mut prev = net.make_weights_tracker(0i64);
    let results = net.train_example(&[1, 2], &[10], &mut prev, &kernels());
    assert_eq!(results, vec![vec![1, 2], vec![9, 1], vec![12]]);
    assert_eq!(
        net.layers(),
        &vec![vec![vec![-1, 0, -1], vec![-4, -5, -7]], vec![vec![-1, -17, 0]]]
    );
    assert_eq!(
        prev,
        vec![vec![vec![-2, -2, -4], vec![-4, -4, -8]], vec![vec![-2, -18, -2]]]
    );
    assert_eq!(net.num_inputs(), 2);
    assert_eq!(net.output_size(), 1);
}

#[test]
fn check_examples_first_failure_decides() {
    let net = sample_net();
    let good = (vec![1i64, 2], vec![3i64]);
    let bad_input = (vec![1i64], vec![3i64]);
    let bad_output = (vec![1i64, 2], vec![3i64, 4]);
    let both_bad = (vec![1i64], vec![]);
    assert_eq!(net.check_examples(&[good.clone(), good.clone()]), Ok(()));
    assert_eq!(net.check_examples(&[]), Ok(()));
    assert_eq!(
        net.check_examples(&[good.clone(), bad_output.clone(), bad_input.clone()]),
        Err(ExampleError::OutputLength)
    );
    assert_eq!(
        net.check_examples(&[bad_input.clone(), bad_output.clone()]),
        Err(ExampleError::InputLength)
    );
    assert_eq!(net.check_examples(&[both_bad]), Err(ExampleError::InputLength));
}

#[test]
fn iter_zip_enum_pairs_up_to_shorter() {
    let a = [10, 20, 30];
    let b = ['x', 'y'];
    let pairs = nn::iter_zip_enum(&a, &b);
    assert_eq!(pairs, vec![(0, (&10, &'x')), (1, (&20, &'y'))]);
    let empty: [u8; 0] = [];
    assert!(nn::iter_zip_enum(&a, &empty).is_empty());
}

#[test]
fn train_epoch_trains_each_example_in_turn() {
    let mut net = sample_net();
    let mut prev = net.make_weights_tracker(0i64);
    let examples = [(vec![1i64, 2], vec![10i64]), (vec![0i64, 0], vec![0i64])];
    let error = net.train_epoch(
        &examples,
        &mut prev,
        &kernels(),
        100,
        &|acc: i64, results: &Vec<Vec<i64>>, targets: &Vec<i64>| {
            acc + (targets[0] - results[2][0]).abs()
        },
    );
    // after the first example the network is the one of
    // `train_example_runs_backpropagates_and_updates`; on input [0, 0] it
    // gives [-1, -4] and then -1 + (-17) * (-1) + 0 * (-4) = 16
    assert_eq!(error, 100 + 2 + 16);
    // second example: output error 0 - 16 = -16; hidden errors
    // -17 * -16 = 272 and 0 * -16 = 0; inputs to the output node are 1, -1, -4
    assert_eq!(
        prev,
        vec![vec![vec![270, -2, -4], vec![-4, -4, -8]], vec![vec![-18, -2, 62]]]
    );
    assert_eq!(
        net.layers(),
        &vec![vec![vec![269, -2, -5], vec![-8, -9, -15]], vec![vec![-19, -19, 62]]]
    );
}

#[test]
fn weight_updates_accept_longer_rows() {
    let net = sample_net();
    // every row longer than needed, and one row more than the layers
    let results = vec![vec![1, 2, 7], vec![9, 1, 5], vec![12, 3], vec![99]];
    let updates = net.calculate_weight_updates(
        &results,
        &[10, 0],
        1,
        &output_error,
        0,
        &mul_add,
        &hidden_error,
        &weight_update,
    );
    assert_eq!(
        updates,
        vec![vec![vec![-2, -2, -4], vec![-4, -4, -8]], vec![vec![-2, -18, -2]]]
    );
}

#[test]
fn weight_updates_stop_at_a_short_row() {
    let layers = vec![vec![vec![1, 2, 3], vec![0, -1, 1]], vec![vec![1, 1, 2], vec![0, 1, 1]]];
    let net = Network::from_layers(layers, 2);
    // the output row has a result for its first node only
    let results = vec![vec![1, 2], vec![9, 1], vec![12]];
    let updates = net.calculate_weight_updates(
        &results,
        &[10],
        1,
        &output_error,
        0,
        &mul_add,
        &hidden_error,
        &weight_update,
    );
    assert_eq!(
        updates,
        vec![vec![vec![-2, -2, -4], vec![-4, -4, -8]], vec![vec![-2, -18, -2]]]
    );
}

#[test]
fn update_weights_keeps_extra_changes() {
    let mut net = sample_net();
    let updates = vec![
        vec![vec![1, 1, 1, 50], vec![2, 2, 2], vec![7]],
        vec![vec![3, 3, 3]],
        vec![vec![8]],
    ];
    let mut prev = vec![
        vec![vec![10, 10, 10, 11], vec![10, 10, 10]],
        vec![vec![10, 10, 10], vec![12]],
        vec![vec![13]],
    ];
    net.update_weights(&updates, &mut prev, &|w: i64, u: i64, p: i64| (w + u + p, u * 100));
    assert_eq!(
        net.layers(),
        &vec![vec![vec![12, 13, 14], vec![12, 11, 13]], vec![vec![14, 14, 15]]]
    );
    assert_eq!(
        prev,
        vec![
            vec![vec![100, 100, 100, 11], vec![200, 200, 200]],
            vec![vec![300, 300, 300], vec![12]],
            vec![vec![13]]
        ]
    );
}

#[test]
fn do_run_pairs_weights_with_values_up_to_the_shorter() {
    let net = sample_net();
    // one input only: each first-layer node takes in its first weight only
    let results = net.do_run(&[5], &mul_add, &identity);
    assert_eq!(results, vec![vec![5], vec![1 + 2 * 5, 0 - 5], vec![1 + 11 - 10]]);
}

#[test]
fn hidden_errors_use_the_weights_past_the_threshold() {
    // the output node's weights from hidden nodes 0 and 1 are 5 and 7
    let layers = vec![vec![vec![0, 0, 0], vec![0, 0, 0]], vec![vec![100, 5, 7]]];
    let net = Network::from_layers(layers, 2);
    let results = vec![vec![1, 1], vec![1, 1], vec![0]];
    let updates = net.calculate_weight_updates(
        &results,
        &[1],
        1,
        &output_error,
        0,
        &mul_add,
        &hidden_error,
        &weight_update,
    );
    assert_eq!(updates[0], vec![vec![5, 5, 5], vec![7, 7, 7]]);
    assert_eq!(updates[1], vec![vec![1, 1, 1]]);
}

#[test]
fn train_incremental_runs_the_epochs_of_the_rule() {
    let examples = [(vec![1i64, 2], vec![10i64]), (vec![0i64, 0], vec![0i64])];
    // two epochs by hand
    let mut by_hand = sample_net();
    let mut prev = by_hand.make_weights_tracker(0i64);
    let add = |acc: i64, results: &Vec<Vec<i64>>, targets: &Vec<i64>| {
        acc + (targets[0] - results[2][0]).abs()
    };
    let first = by_hand.train_epoch(&examples, &mut prev, &kernels(), 0, &add);
    let second = by_hand.train_epoch(&examples, &mut prev, &kernels(), 0, &add);
    // the same by the schedule
    let mut net = sample_net();
    let logged = RefCell::new(Vec::new());
    let asked = RefCell::new(Vec::new());
    let res = net.train_incremental(
        &examples,
        &kernels(),
        0,
        0,
        &add,
        Some(1),
        HaltRule::Epochs(2),
        &|e: i64| {
            asked.borrow_mut().push(e);
            false
        },
        &|epochs: u32, e: i64| logged.borrow_mut().push((epochs, e)),
    );
    assert_eq!(res, Ok(second));
    assert_eq!(net.layers(), by_hand.layers());
    assert_eq!(*logged.borrow(), vec![(1, first), (2, second)]);
    assert!(asked.borrow().is_empty());
}

#[test]
fn train_incremental_halts_when_reached() {
    let examples = [(vec![1i64, 2], vec![10i64])];
    let add = |acc: i64, results: &Vec<Vec<i64>>, targets: &Vec<i64>| {
        acc + (targets[0] - results[2][0]).abs()
    };
    let mut net = sample_net();
    let asked = Cell::new(0u32);
    let res = net.train_incremental(
        &examples,
        &kernels(),
        0,
        0,
        &add,
        None,
        HaltRule::Measured,
        &|_e: i64| {
            asked.set(asked.get() + 1);
            asked.get() == 3
        },
        &|_epochs: u32, _e: i64| {},
    );
    assert!(res.is_ok());
    // asked after epochs 1, 2 and 3; halted after the third
    assert_eq!(asked.get(), 3);
    let mut by_hand = sample_net();
    let mut prev = by_hand.make_weights_tracker(0i64);
    let mut last = 0;
    for _ in 0..3 {
        last = by_hand.train_epoch(&examples, &mut prev, &kernels(), 0, &add);
    }
    assert_eq!(res, Ok(last));
    assert_eq!(net.layers(), by_hand.layers());
}
