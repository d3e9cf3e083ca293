//! Keyword arguments and default values for calls that are positional
//! underneath.
//!
//! A declaration gives a callee's name and its parameters in order, each with
//! an optional default. An invocation of that name may pass its arguments by
//! position or as `name = value`, in any mixture that puts the positional ones
//! first, and may leave out what has a default. Expansion rewrites it to the
//! call with one argument for each parameter, in the order of the declaration.
//!
//! Argument values are token sequences that are moved, never read: nothing
//! here evaluates an expression.

pub mod cursor;
pub mod decl;
pub mod diagnostic;
pub mod expand;
pub mod laws;
pub mod registry;
pub mod sample;
pub mod search;
pub mod token;
