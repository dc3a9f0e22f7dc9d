//! Verified core of the Cognitively-Inspired Simulated Annealing Teams (CISAT) model:
//! the planar truss topology that the structural problem searches over, the
//! configuration rules, the learning-row bookkeeping of an agent, and the step
//! bookkeeping for cooling and team meetings.

pub mod config;
pub mod context;
pub mod frame;
mod random;
pub mod schedule;
