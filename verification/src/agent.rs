//! The agent: approval policy, tools and the decisions of the run loop.
pub mod policy;
pub mod runner;
pub mod steps;
pub mod tools;
