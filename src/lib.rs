pub mod block;
pub mod boundary;
pub mod faces;
pub mod fwave;
pub mod gitter;
mod parallel;
