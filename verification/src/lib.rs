//! Cache-blocked single-precision GEMM and activation kernels: the kernel
//! selection, the blocking parameters and the tile schedule are verified here.

pub mod arith;
pub mod appcontext;
pub mod blocking;
pub mod dispatch;
pub mod cache;
pub mod laws;
