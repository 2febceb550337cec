//! Flocking simulation state and the structural rules of a simulation step.
//!
//! Agents live in a bounded plane and steer by what their neighbors do. The
//! library stores every coordinate as a binary32 word and never does
//! arithmetic on it: it orders words, and nothing more. It owns the
//! population, the neighbor scan, the seeding grid and the boundary rule; the
//! caller does the arithmetic of steering and hands the results in.
//!
//! One step of the simulation:
//!
//! 1. For each agent, in order, the caller measures the squared distance to
//!    every agent and calls [`flock::Flock::set_neighbor_buffer`]; from the
//!    neighbors found it works out the agent's new velocity.
//! 2. [`flock::Flock::update_velocities`] gives all agents their new
//!    velocities at once, so that every scan has seen the flock as it was
//!    when the step began.
//! 3. [`flock::Flock::update_positions`] moves all agents.

pub mod boid;
pub mod flock;
pub mod word;
