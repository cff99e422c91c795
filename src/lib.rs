//! Task outcomes, completion cells and a deadline-ordered timer wheel for
//! cooperative and multi-threaded schedulers.
pub mod assets;
pub mod queue;
pub mod task;
pub mod time;
pub mod timer;
