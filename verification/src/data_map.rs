//! Content maps and encrypted chunks as plain values.

use vstd::prelude::*;

verus! {

/// What the pipeline records of one chunk, field for field what
/// `self_encryption::ChunkInfo` holds.
#[derive(Clone, Copy, Debug, PartialEq, Eq)]
pub struct ChunkInfo {
    /// Position of the chunk among the chunks of the content.
    pub index: usize,
    /// Hash of the chunk once encrypted: the name it is stored under.
    pub dst_hash: [u8; 32],
    /// Hash of the chunk before encryption.
    pub src_hash: [u8; 32],
    /// Length of the chunk before encryption.
    pub src_size: usize,
}

/// The map of a content that was encrypted into chunks. It holds what
/// `self_encryption::DataMap` holds.
#[derive(Clone, Debug, PartialEq, Eq)]
pub struct DataMap {
    /// One entry for each chunk, in the order the pipeline gave them.
    pub chunks: Vec<ChunkInfo>,
    /// `None` for a map of the content itself, else how many times the map
    /// was itself encrypted to keep it short.
    pub child: Option<usize>,
}

/// A map of chunks as a mathematical value.
pub struct DataMapView {
    pub chunks: Seq<ChunkInfo>,
    pub child: Option<usize>,
}

impl View for DataMap {
    type V = DataMapView;

    open spec fn view(&self) -> DataMapView {
        DataMapView { chunks: self.chunks@, child: self.child }
    }
}

/// The content map of a file: how its bytes are found again.
#[derive(Clone, Debug, PartialEq, Eq)]
pub enum ContentMap {
    /// The bytes themselves, for a content too short to be encrypted.
    Inline(Vec<u8>),
    /// The map of the chunks into which the content was encrypted.
    Chunked(DataMap),
}

/// A content map as a mathematical value.
pub enum ContentMapView {
    Inline(Seq<u8>),
    Chunked(DataMapView),
}

impl View for ContentMap {
    type V = ContentMapView;

    open spec fn view(&self) -> ContentMapView {
        match *self {
            ContentMap::Inline(bytes) => ContentMapView::Inline(bytes@),
            ContentMap::Chunked(map) => ContentMapView::Chunked(map@),
        }
    }
}

impl ContentMap {
    /// The map of a file without content.
    pub fn new() -> (map: ContentMap)
        ensures
            map@ == ContentMapView::Inline(Seq::<u8>::empty()),
    {
        ContentMap::Inline(Vec::new())
    }
}

/// One encrypted chunk, as `self_encryption::EncryptedChunk` holds it.
#[derive(Clone, Debug, PartialEq, Eq)]
pub struct Chunk {
    /// The encrypted bytes.
    pub content: Vec<u8>,
}

impl View for Chunk {
    type V = Seq<u8>;

    open spec fn view(&self) -> Seq<u8> {
        self.content@
    }
}

/// The encrypted bytes of each chunk of a list.
pub open spec fn contents(chunks: Seq<Chunk>) -> Seq<Seq<u8>> {
    Seq::new(chunks.len(), |i: int| chunks[i]@)
}

} // verus!
