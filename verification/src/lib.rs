//! A distributed semantic web search engine core.
//!
//! Each node indexes pages by 384-dimensional unit-length embedding vectors
//! and cooperates with peers over a small UDP protocol: the node answers
//! searches from its local index, fans queries out to known peers, and merges
//! the replies under a per-query deadline.
//!
//! Embeddings are kept in their quantized form throughout: every component is
//! a 24-bit integer standing for a value in `[-1, 1]`.  All arithmetic on
//! them (normalization, distances, codecs) is exact integer arithmetic, so
//! the whole pipeline from page store to wire format is verified.

pub mod best;
pub mod codec;
pub mod config;
pub mod extract;
pub mod html;
pub mod index;
pub mod page_source;
pub mod provider;
pub mod service;
pub mod smaz;
pub mod store;
pub mod udp;
pub mod util;
pub mod vector;
pub mod wire;
