//! A write session for one file of a content-addressed store.
//!
//! A [`Writer`] takes byte writes at arbitrary offsets, hands the resulting
//! content to the self-encryption pipeline when it is closed, stamps the
//! file's metadata and puts the file into its directory listing, keyed by
//! name. Talking to the network is left to the caller: `close` returns the
//! [`Commit`] that has to be persisted, and [`Commit::conclude`] turns the
//! outcome of that into the result of the session.

pub mod data_map;
pub mod directory_listing;
pub mod file;
pub mod overlay;
pub mod pipeline;
pub mod timestamp;
pub mod writer;

pub use data_map::{Chunk, ChunkInfo, ContentMap, ContentMapView, DataMap, DataMapView};
pub use directory_listing::DirectoryListing;
pub use file::{File, FileView, Metadata};
pub use pipeline::Pipeline;
pub use timestamp::Time;
pub use writer::{commit, Commit, CommitView, WriteError, Writer, WriterView};
