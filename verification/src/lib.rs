//! A bridge from DNS over UDP to a DNS-over-HTTPS JSON resolver: decoding a
//! query, describing the upstream lookup, and encoding the upstream answer
//! as a wire-format response.
//!
//! The caller owns the socket and the HTTP client. It hands a packet to
//! [`dnsserver::receive`], performs the lookup that comes back with the URL
//! of [`pdns::Pdns::lookup_request`], and hands the outcome to
//! [`dnsserver::respond`].

pub mod addr;
pub mod dnsserver;
pub mod name;
pub mod pdns;
pub mod record;
pub mod text;
pub mod wire;
