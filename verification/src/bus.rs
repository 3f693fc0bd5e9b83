//! Buses of the vehicle network and the messages that travel on them.
pub mod can;
