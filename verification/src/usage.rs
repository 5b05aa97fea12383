//! What callers can rely on, said of the calls themselves: what they are given,
//! what they return, and what that means to the next call.

pub mod devices;
pub mod streams;
pub mod web;
pub mod wire;
