//! A local streaming reverse proxy core: decoding of opaque target and
//! credential parameters, upstream request assembly, response header
//! filtering, and HLS manifest rewriting, all with verified contracts.
//!
//! The unverified shell around this library owns the sockets and the byte
//! streams; everything the proxy decides — what to fetch, which headers to
//! send and to drop, how a playlist is rewritten, and how failures map to
//! responses — is decided by the functions here.

pub mod ascii;
pub mod codec;
pub mod errors;
pub mod foreign;
pub mod headers;
pub mod request;
pub mod rewrite;
