# mnist_mlp

A multi-layer perceptron for 28x28 handwritten digits, with its shape,
layout and bookkeeping logic verified with Verus.

`src/` is the verified library:

- `shape` — how the layers of a network chain from the image to the ten
  classes, and the input-size checks of a batch.
- `padding` — placing a matrix in a zero-padded grid for the GPU kernels and
  reading it back; reading back undoes padding.
- `data` — the stored form of a network (widths, all weights, all biases)
  made from its layers and rebuilt into them; storing and rebuilding undo
  each other.
- `dataset` — where a batch lies in the IDX files, one-hot labels, how a
  pass over the data is cut into batches, and when progress is reported.
- `eval` — the predicted class of a score vector and the count of correctly
  classified samples of a batch.
- `dispatch`, `gpu_plan` — workgroup grids, byte sizes and the order of the
  kernels of a forward and a training pass of the GPU network.
- `perceptron` — sizes, layer layout, batch loading and optimizer steps of
  the batched GPU network.

The weights are floating-point numbers and never enter the library: its
functions are generic over the element type, or work on integer keys that
order as the scores do.  `app/` holds the program: file reading, the
matrix arithmetic (faer), the GPU work (wgpu) and the training loop.
The WGSL kernels are read at run time from `./shaders/`.
