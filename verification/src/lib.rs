//! Quantized neural-network building blocks (ReLU, pooling, flattening,
//! integer convolution and dense accumulators, weight generators and the
//! parsers for the whitespace- and line-separated parameter files), with
//! their behaviour stated and proved.

pub mod activation;
pub mod lenet_large;
pub mod lenet_small;
pub mod pool;
pub mod quantized;
pub mod resnet18;
pub mod tensor;
pub mod text;
pub mod vgg11;
pub mod vgg16;
