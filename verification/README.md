# neural_net

A small neural-network toolkit for MNIST, written in Verus.

- `src/` is the verified library: generic dense matrices (`matrix`), the IDX
  file format and its gzip wrapper (`idx`, `mnist_parser`, `wasm_network`),
  mini-batch planning and layer shapes (`network`), the ReLU activation
  (`activations`), and the host side of the GPU network (`gpu`): the shape
  each kernel accepts, its uniforms and dispatch size, and the reuse of
  scratch buffers.
- `tests/` runs the library on concrete values.
- `app/` is the unverified rest: file and device I/O through `wgpu`, the
  floating-point activations, losses and training loops, and the browser
  entry points.
