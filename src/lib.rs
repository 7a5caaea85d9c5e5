//! Computes the stack of commits that sit on top of a base branch, attaches
//! local branch names to them, renders the stack, and plans the refspecs that
//! publish its branches to a remote.

pub mod branch;
pub mod commit;
pub mod push;
pub mod stack;
