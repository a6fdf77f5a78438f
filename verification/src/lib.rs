//! # `vzglyd_sidecar`
//!
//! Networking and IPC for VZGLYD slide sidecars.
//!
//! A sidecar is a companion program that fetches external data and pushes it into a paired slide
//! over the host channel. This library holds the logic of a sidecar and of the host that serves it,
//! and proves what it states:
//!
//! - [`client`] is what a sidecar calls: HTTPS requests and TCP connections that the host performs,
//!   and [`url`] splits URLs for them;
//! - [`host_request`] is the wire between the two: what is put on it, and what the host does with a
//!   request;
//! - [`network`], [`dns`], [`candidates`] and [`socket`] resolve names and try one address after the
//!   other;
//! - [`exchange`], [`response_reader`], [`http`], [`chunked`] and [`tls`] perform an HTTPS request at
//!   one address;
//! - [`poll`] is the loop of a sidecar, and [`channel`] its channel to the host;
//! - [`error`], [`ip`], [`number`], [`encoding`] and [`text`] are the ground that these stand on.
//!
//! Sockets, clocks and JSON are the caller's: they are handed in as functions, or driven by the
//! state machines of [`exchange`] and [`poll`]. A function that may be called more than once takes
//! the world as it is and gives it back as it is then, so that the contracts say what is done to it,
//! how often and in which order.

pub mod candidates;
pub mod channel;
pub mod chunked;
pub mod client;
pub mod dns;
pub mod encoding;
pub mod error;
pub mod exchange;
pub mod host_request;
pub mod http;
pub mod ip;
pub mod network;
pub mod number;
pub mod poll;
pub mod response_reader;
pub mod socket;
pub mod text;
pub mod tls;
pub mod url;

pub use client::{
    https_get, https_get_conditional, https_get_text, tcp_connect, ConditionalGetResult,
};
pub use error::Error;
pub use host_request::{Header as HostHeader, HostRequest, HostResponse};
pub use poll::poll_loop;
pub use url::split_https_url;
