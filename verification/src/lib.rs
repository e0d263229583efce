//! Protocol driver for fetching a file named by the digest of its contents.
//!
//! The crate performs no network or file access. It plans which URLs to try
//! and in what order, encodes and decodes the quoted string lists used in
//! configuration and request headers, and checks a byte stream against an
//! expected digest.

pub mod text;
pub mod algo;
pub mod sfv;
pub mod error;
pub mod hasher;
pub mod stream;
pub mod session;

pub use algo::{is_supported, normalize_algo};
pub use error::Error;
pub use hasher::to_hex;
pub use sfv::{encode_sfv_string_list, encode_source_urls, parse_fetchurl_server, parse_sfv_string_list};
pub use session::{FetchAttempt, FetchSession};
pub use stream::HashVerifier;
