# zknn_circuit

Quantized neural-network layers for LeNet, ResNet-18 and VGG benchmarks,
written in Verus with their behaviour stated and proved.

* `src/` — the verified library:
  * `tensor` — shapes, constant tensors, row-major filling and flattening;
  * `text` — reading whitespace-separated and one-per-line byte files
    (tokenizing, trimming, parsing `u8` as `str::parse` does);
  * `activation` — quantized ReLU;
  * `pool` — max and average pooling;
  * `quantized` — the `i32` accumulators of quantized convolutions and dense
    layers, with overflow detection;
  * `lenet_small`, `lenet_large`, `resnet18`, `vgg11`, `vgg16` — the layers
    each network uses.
* `app/` — the benchmark programs: file and console I/O, timing, and the
  floating-point requantization steps, around the library.
* `tests/` — tests of the library.
