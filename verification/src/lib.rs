//! Integer search for the solutions of an equation by a genetic algorithm.
//!
//! The crate has three layers.
//!
//! `expr` and `grammar` read an arithmetic text into an expression tree by
//! operator precedence; `rendering` and `precedence` hold what is proved of
//! the language: that every tree can be written and read back, and how
//! operators group.
//!
//! `templater` turns an equation with variables into an arithmetic text by
//! putting a candidate's genes in place of the letters.
//!
//! `chromosome`, `rate` and `genetic` hold the candidates, the parameters of
//! a run, the fitness and the rule that ends a run. `selection`, `crossover`
//! and `mutation` are the phases of a generation, which `evolution` puts
//! together, and `search` is a whole run as a state machine. `random` holds
//! the calls into the random number generator that the phases draw from, and
//! `text` what is said of std's strings.
//!
//! The value of an expression is computed in floating point and is left to
//! the caller: the library hands out expression trees and takes integer
//! values back.
pub mod chromosome;
pub mod crossover;
pub mod evolution;
pub mod expr;
pub mod genetic;
pub mod grammar;
pub mod mutation;
pub mod precedence;
pub mod random;
pub mod rate;
pub mod rendering;
pub mod search;
pub mod selection;
pub mod templater;
pub mod text;
