pub mod activation;
pub mod dataset;
pub mod layer;
pub mod loss;
pub mod matrix;
pub mod model;
pub mod scalar;
pub mod train;
