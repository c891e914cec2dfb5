//! Core of an artificial-life evolutionary simulator: a fixed population of
//! grid-dwelling agents, each driven by a small neural network decoded from a
//! bit-packed genome, goes through generations of movement, selection inside a
//! designated region, and breeding (crossover plus mutation).
//!
//! The crate holds the discrete, integer-valued part of the simulator: genome
//! encoding and decoding, network wiring, grid bookkeeping, sensor searches,
//! committed action effects, selection and breeding. Floating-point neuron
//! activation (tanh sums, the oscillator cosine, commit probabilities) is left
//! to the embedding runtime, which reads the wired network and hands committed
//! action decisions back through `Simulation::apply_action`. All weights are
//! carried as fixed-point integers: a gene weight `w` stands for the real
//! weight `w / 8192.0`, and agent responsiveness `r` stands for `r / 20.0`.

pub mod dir;
pub mod genome;
pub mod grid;
pub mod neuron;
pub mod rng;
pub mod simulation;
pub mod wyrm;
