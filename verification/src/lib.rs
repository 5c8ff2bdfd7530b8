//! A genetic programming engine for a two-team grid combat game.
//!
//! A bot is an expression tree that is evaluated once per unit and turn and yields a
//! move ([`expression`], [`eval`], [`program`]).  Trees are varied by mutation and
//! crossover ([`mutate`]) and tidied by simplification ([`simplify`]).  The bots of a
//! generation play a tournament ([`tournament`]), are ranked ([`score`], [`ranking`]),
//! culled by species ([`population`]) and bred ([`reproduction`], [`evolution`]); the
//! species are recorded in a family tree ([`family_tree`]).

pub mod eval;
pub mod evolution;
pub mod expression;
pub mod family_tree;
pub mod logic_ext;
pub mod mutate;
pub mod population;
pub mod program;
mod random;
pub mod ranking;
pub mod render;
pub mod reproduction;
pub mod score;
pub mod simplify;
pub mod sockets;
pub mod state;
pub mod tournament;
