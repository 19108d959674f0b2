# nn

A feedforward neural network library trained by backpropagation, whose
structural logic is verified with Verus.

- `src/` is the verified library. `network` holds `Network<W>`, a layered
  network generic over its weight type. Built from layer sizes it is fully
  connected (no empty layer, one threshold weight plus one weight per node of
  the layer before in every node); built from given weights it may have any
  shape, and each operation states the shape it needs (`runnable`,
  `trainable`). It holds the construction from layer sizes, the input and
  example checks, the forward pass (`do_run`, `run`), backpropagation
  (`calculate_weight_updates`), the weight update (`update_weights`), one
  incremental training step (`train_example`), one epoch (`train_epoch`) and
  the whole training loop (`train_incremental`), which asks the caller
  whether a measured halting condition holds and hands it the reports to
  log.
  The arithmetic on single weights and values (`Kernels`: adding a weighted
  value to a sum, the activation, the errors, the weight changes) is handed
  in as closures; the library decides which weight meets which value or
  error, and its contracts state every result in terms of those closures.
  `schedule` decides, epoch by epoch, when training logs and halts. `zip`
  pairs up two slices.
- `app/` is the `f64` network with the usual API (`NN`, `Trainer`,
  `HaltCondition`): random initial weights, floating point kernels, the clock
  and the printing of reports (as closures handed to the training loop), and
  JSON encoding.
- `tests/` runs the library on integer and floating point weights, including
  learning XOR.
