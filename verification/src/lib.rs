//! Verified core of the Edmondson (1999) psychological-safety & team-learning
//! simulation.
//!
//! The simulation models the causal chain context support / leader coaching
//! → psychological safety ψ → learning behavior L → team performance Π over
//! individuals in fixed teams. This library holds its discrete logic:
//!
//! - [`config`]: the decision-mode and network-family selectors and their
//!   command-line label parsers;
//! - [`prompts`]: the learning-behavior labels and the parser of the LLM's
//!   voice-decision reply;
//! - [`world`]: the per-team voice / help-request / error-talk counters;
//! - [`simulation`]: convergence tracking, the within-team network generator
//!   choice, the per-individual voice tally and the hypothesis tally;
//! - [`text`]: whitespace trimming and ASCII lower-casing of labels.
//!
//! The numeric model (ψ dynamics, logits, regressions, ICC) is floating-point
//! and runs in the program around this library.

pub mod config;
pub mod prompts;
pub mod simulation;
pub mod text;
pub mod world;
