//! Verified core of a small plugin host: the records an addon reports back,
//! the resolution of the order in which addons are loaded, the console
//! commands of the host, and the behaviour of the three bundled addons.

pub mod addon;
pub mod text;
pub mod resolve;
pub mod console;
pub mod counter_api;
pub mod simple_counter;
pub mod reduce_counter;
pub mod timer;
