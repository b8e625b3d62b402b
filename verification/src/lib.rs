//! Core of a one-dimensional wave and signal simulator: how waves propagate,
//! and how a running simulation keeps its sources and decides which frames
//! of the raw signal are handed on to the sampled processing chain.
pub mod simulation;
pub mod wave;
