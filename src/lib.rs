//! Building blocks of an experiment harness that trains pyramidal
//! feed-forward classifiers over a grid of devices, depths and repetitions.

pub mod logger;
pub mod sweep;
pub mod topology;
