//! A small library for an HTTP service that tells callers their own IP
//! address.  It resolves the effective client address either from the
//! transport-level peer address or from a configured trusted header,
//! parses and prints IPv4 and IPv6 text, and shapes the response:
//! content negotiation between a plain-text body and a fixed HTML page,
//! plus the cache, robots and CORS headers every response must carry.

pub mod format;
pub mod headers;
pub mod ip;
pub mod parse;
pub mod resolve;
pub mod response;
