//! Low-latency audio streaming from a desktop to any device with a browser.
//!
//! The library holds what can be decided without touching a device, a socket or
//! a clock; the programs around it do the rest and hand it plain values.
//!
//! * Samples: [`buffer`] (a FIFO between threads), [`jitter`] (reordering, loss
//!   detection, adaptive latency), [`resampler`] (clock drift), [`codec`] (the
//!   shape of Opus streams).
//! * The wire: [`protocol`] and [`bytes`], [`udp`], [`websocket`].
//! * Whole pipelines: [`transmitter`], [`receiver`], and what holds from one end
//!   to the other in [`pipeline`].
//! * Programs: [`session`] and [`startup`] (what loops decide between two
//!   waits), [`player`] (the browser client), [`http`] and [`web_path`] (the
//!   server that hosts it), [`capture`] and [`android`] (audio devices).
//! * What callers can rely on, said of the calls themselves: [`usage`].
//!
//! A sample is the bit pattern of an IEEE-754 `binary32` value. The library
//! moves samples and never computes with them.

pub mod android;
pub mod buffer;
pub mod bytes;
pub mod capture;
pub mod codec;
pub mod config;
pub mod duration;
pub mod errors;
pub mod http;
pub mod jitter;
pub mod pipeline;
pub mod player;
pub mod protocol;
pub mod receiver;
pub mod resampler;
pub mod session;
pub mod startup;
pub mod text;
pub mod transmitter;
pub mod udp;
pub mod usage;
pub mod web_path;
pub mod websocket;
