//! A shared counter that many viewers push up and down by voting, with a
//! periodic poll that decides which growth parameter rises next.

pub mod bigint;
pub mod votes;
pub mod counter;
pub mod registry;
pub mod scheduler;
pub mod theorems;
