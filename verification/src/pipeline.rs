//! The chunking and encryption pipeline of one file.
//!
//! A [`Pipeline`] holds the bytes of a file while a session writes to it.
//! It starts from what the stored chunks of the file decrypt to, takes
//! writes at any offset, and is closed by encrypting what it holds.
//! Encryption and decryption are the work of the `self_encryption` crate,
//! which takes no content of fewer than three bytes: such a content is kept
//! as it is in the content map of the file.

use vstd::prelude::*;
use crate::data_map::{contents, Chunk, ChunkInfo, ContentMap, ContentMapView, DataMap, DataMapView};
use crate::overlay::{overlay, overlay_all, WriteOp};

verus! {

/// The error of `self_encryption`. Nothing of what it holds is read here.
#[verifier::external_type_specification]
#[verifier::external_body]
pub struct ExError(self_encryption::Error);

/// What `self_encryption::encrypt` makes of a content: its content map and
/// the encrypted bytes of its chunks, or `None` where it reports an error.
pub uninterp spec fn encrypted(content: Seq<u8>) -> Option<(DataMapView, Seq<Seq<u8>>)>;

/// What `self_encryption::decrypt` recovers from a content map and a list of
/// encrypted chunks, or `None` where it reports an error.
pub uninterp spec fn decrypted(map: DataMapView, chunks: Seq<Seq<u8>>) -> Option<Seq<u8>>;

/// The name under which `self_encryption::hash::content_hash` files a chunk.
pub uninterp spec fn content_hash(content: Seq<u8>) -> Seq<u8>;

/// Calls `self_encryption::encrypt` on a copy of `content`.
///
/// Not proved: that the outcome is a function of the content alone, which
/// [`encrypted`] names. That holds of one build of the crate: the size of
/// its chunks is fixed when it is compiled. The map and the chunks are
/// handed over field for field.
#[verifier::external_body]
fn encrypt(content: &[u8]) -> (outcome: Result<(DataMap, Vec<Chunk>), self_encryption::Error>)
    ensures
        match outcome {
            Ok((map, chunks)) => encrypted(content@) == Some((map@, contents(chunks@))),
            Err(_) => encrypted(content@) is None,
        },
{
    let bytes = self_encryption::bytes::Bytes::copy_from_slice(content);
    let (map, chunks) = self_encryption::encrypt(bytes)?;
    let infos = map.chunk_identifiers.iter().map(|c| ChunkInfo {
        index: c.index,
        dst_hash: c.dst_hash.0,
        src_hash: c.src_hash.0,
        src_size: c.src_size,
    }).collect();
    let chunks = chunks.into_iter().map(|c| Chunk { content: c.content.to_vec() }).collect();
    Ok((DataMap { chunks: infos, child: map.child }, chunks))
}

/// Calls `self_encryption::decrypt` on a content map and encrypted chunks.
///
/// Not proved: that the outcome is a function of the map and the chunks
/// alone, which [`decrypted`] names. The map and the chunks are handed over
/// field for field.
#[verifier::external_body]
fn decrypt(map: &DataMap, stored: &[Chunk]) -> (outcome: Result<Vec<u8>, self_encryption::Error>)
    ensures
        match outcome {
            Ok(content) => decrypted(map@, contents(stored@)) == Some(content@),
            Err(_) => decrypted(map@, contents(stored@)) is None,
        },
{
    let infos = map.chunks.iter().map(|c| self_encryption::ChunkInfo {
        index: c.index,
        dst_hash: self_encryption::XorName(c.dst_hash),
        src_hash: self_encryption::XorName(c.src_hash),
        src_size: c.src_size,
    }).collect();
    let outer = self_encryption::DataMap { chunk_identifiers: infos, child: map.child };
    let chunks: Vec<self_encryption::EncryptedChunk> = stored.iter().map(|c| self_encryption::EncryptedChunk {
        content: self_encryption::bytes::Bytes::copy_from_slice(&c.content),
    }).collect();
    Ok(self_encryption::decrypt(&outer, &chunks)?.to_vec())
}

/// Calls `self_encryption::hash::content_hash`.
///
/// Not proved: that the name is a function of the bytes alone, which
/// [`content_hash`] names.
#[verifier::external_body]
fn hash(content: &[u8]) -> (name: [u8; 32])
    ensures
        name@ == content_hash(content@),
{
    self_encryption::hash::content_hash(content).0
}

impl Chunk {
    /// The name under which the store files this chunk.
    pub fn name(&self) -> (name: [u8; 32])
        ensures
            name@ == content_hash(self@),
    {
        hash(self.content.as_slice())
    }
}

/// The longest content that a pipeline holds.
pub open spec fn max_len() -> nat {
    isize::MAX as nat
}

/// The shortest content that is encrypted into chunks. A shorter one is
/// held inline in its content map.
pub open spec fn min_chunked_len() -> nat {
    3
}

/// The state is one that a pipeline can be in: what it holds is no longer
/// than [`max_len`].
pub open spec fn bounded(state: Option<Seq<u8>>) -> bool {
    state matches Some(content) ==> content.len() <= max_len()
}

/// Bytes as the state of a pipeline: held where they are no longer than
/// [`max_len`], failed where they are.
pub open spec fn held(content: Seq<u8>) -> Option<Seq<u8>> {
    if content.len() <= max_len() {
        Some(content)
    } else {
        None
    }
}

/// The state of a pipeline after one more write. `None` stands for a
/// pipeline that has failed: it stays failed. A write that would reach
/// beyond [`max_len`] makes the pipeline fail.
pub open spec fn written(state: Option<Seq<u8>>, data: Seq<u8>, position: nat) -> Option<Seq<u8>> {
    match state {
        Some(base) if position + data.len() <= max_len() => Some(overlay(base, data, position)),
        _ => None,
    }
}

/// A write leaves a pipeline in a state that it can be in.
pub proof fn lemma_written_bounded(state: Option<Seq<u8>>, data: Seq<u8>, position: nat)
    requires
        bounded(state),
    ensures
        bounded(written(state, data, position)),
{
}

/// A write without bytes that starts at or before the end of the content
/// changes nothing.
pub proof fn lemma_empty_write(state: Option<Seq<u8>>, position: nat)
    requires
        bounded(state),
        state matches Some(content) ==> position <= content.len(),
    ensures
        written(state, Seq::empty(), position) == state,
{
    if let Some(content) = state {
        assert(overlay(content, Seq::empty(), position) =~= content);
    }
}

/// The state of a pipeline after the writes in `writes`, first to last.
pub open spec fn written_all(state: Option<Seq<u8>>, writes: Seq<WriteOp>) -> Option<Seq<u8>>
    decreases writes.len(),
{
    if writes.len() == 0 {
        state
    } else {
        written(written_all(state, writes.drop_last()), writes.last().data, writes.last().position)
    }
}

/// A pipeline that holds `base` and takes a run of writes holds the writes
/// laid over `base`, first to last, unless one of them reaches beyond
/// [`max_len`]: then it has failed.
pub proof fn lemma_written_all(base: Seq<u8>, writes: Seq<WriteOp>)
    ensures
        written_all(Some(base), writes) == if forall|k: int|
            0 <= k < writes.len() ==> (#[trigger] writes[k]).end() <= max_len() {
            Some(overlay_all(base, writes))
        } else {
            None
        },
    decreases writes.len(),
{
    if writes.len() > 0 {
        let front = writes.drop_last();
        lemma_written_all(base, front);
        assert forall|k: int| 0 <= k < front.len() implies front[k] == writes[k] by {}
        if forall|k: int| 0 <= k < front.len() ==> (#[trigger] front[k]).end() <= max_len() {
            if writes.last().end() <= max_len() {
                assert forall|k: int| 0 <= k < writes.len() implies (#[trigger] writes[k]).end()
                    <= max_len() by {
                    if k < front.len() {
                        assert(front[k] == writes[k]);
                    }
                }
            } else {
                assert(writes[writes.len() - 1].end() > max_len());
            }
        } else {
            let k = choose|k: int| 0 <= k < front.len() && !((#[trigger] front[k]).end() <= max_len());
            assert(front[k] == writes[k]);
        }
    }
}

/// The state in which a pipeline starts on a file with the given content map
/// and stored chunks: it holds the bytes of an inline map, else what the
/// chunks decrypt to, and has failed where they do not decrypt.
pub open spec fn seeded(map: ContentMapView, chunks: Seq<Seq<u8>>) -> Option<Seq<u8>> {
    match map {
        ContentMapView::Inline(content) => held(content),
        ContentMapView::Chunked(map) => match decrypted(map, chunks) {
            Some(content) => held(content),
            None => None,
        },
    }
}

/// What closing a pipeline in the given state yields: a content shorter
/// than [`min_chunked_len`] inline and no chunks, else what encryption makes
/// of the content. `None` where the pipeline had failed or encryption fails.
pub open spec fn sealed(state: Option<Seq<u8>>) -> Option<(ContentMapView, Seq<Seq<u8>>)> {
    match state {
        None => None,
        Some(content) => if content.len() < min_chunked_len() {
            Some((ContentMapView::Inline(content), Seq::empty()))
        } else {
            match encrypted(content) {
                Some((map, chunks)) => Some((ContentMapView::Chunked(map), chunks)),
                None => None,
            }
        },
    }
}

/// A pipeline starts in a state that it can be in.
pub proof fn lemma_seeded_bounded(map: ContentMapView, chunks: Seq<Seq<u8>>)
    ensures
        bounded(seeded(map, chunks)),
{
}

/// A content shorter than [`min_chunked_len`] always closes, and a pipeline
/// that starts on what closing gave holds that content again.
pub proof fn lemma_short_content_is_read_again(content: Seq<u8>, chunks: Seq<Seq<u8>>)
    requires
        content.len() < min_chunked_len(),
    ensures
        sealed(Some(content)) == Some((ContentMapView::Inline(content), Seq::<Seq<u8>>::empty())),
        seeded(ContentMapView::Inline(content), chunks) == Some(content),
{
}

/// The map and chunks of a closed pipeline as mathematical values.
pub open spec fn sealed_view(outcome: Option<(ContentMap, Vec<Chunk>)>) -> Option<
    (ContentMapView, Seq<Seq<u8>>),
> {
    match outcome {
        Some((map, chunks)) => Some((map@, contents(chunks@))),
        None => None,
    }
}

/// The bytes of one file during a write session.
pub struct Pipeline {
    content: Vec<u8>,
    failed: bool,
}

impl View for Pipeline {
    type V = Option<Seq<u8>>;

    /// The content held, or `None` once the pipeline has failed.
    closed spec fn view(&self) -> Option<Seq<u8>> {
        if self.failed {
            None
        } else {
            Some(self.content@)
        }
    }
}

impl Pipeline {
    #[verifier::type_invariant]
    spec fn content_is_bounded(&self) -> bool {
        !self.failed ==> self.content@.len() <= max_len()
    }

    /// A pipeline that holds `content`, or a failed one where that is
    /// longer than a pipeline can hold.
    fn holding(content: Vec<u8>) -> (pipeline: Pipeline)
        ensures
            pipeline@ == held(content@),
    {
        if content.len() <= isize::MAX as usize {
            Pipeline { content, failed: false }
        } else {
            Pipeline { content: Vec::new(), failed: true }
        }
    }

    /// Starts a pipeline on a file with the given content map, whose chunks
    /// were fetched into `stored`.
    pub fn new(map: &ContentMap, stored: &[Chunk]) -> (pipeline: Pipeline)
        ensures
            pipeline@ == seeded(map@, contents(stored@)),
            bounded(pipeline@),
    {
        match map {
            ContentMap::Inline(content) => Pipeline::holding(content.clone()),
            ContentMap::Chunked(map) => match decrypt(map, stored) {
                Ok(content) => Pipeline::holding(content),
                Err(_) => Pipeline { content: Vec::new(), failed: true },
            },
        }
    }

    /// The content that the pipeline holds, unless it has failed.
    pub fn get_content(&self) -> (content: Option<&Vec<u8>>)
        ensures
            match content {
                Some(bytes) => self@ == Some(bytes@),
                None => self@ is None,
            },
            bounded(self@),
    {
        proof {
            use_type_invariant(self);
        }
        if self.failed {
            None
        } else {
            Some(&self.content)
        }
    }

    /// Lays `data` over the content from `position` on.
    pub fn write(&mut self, data: &[u8], position: u64)
        ensures
            final(self)@ == written(old(self)@, data@, position as nat),
            bounded(old(self)@),
            bounded(final(self)@),
    {
        proof {
            use_type_invariant(&*self);
        }
        if self.failed {
            return ;
        }
        let limit: usize = isize::MAX as usize;
        let len: usize = data.len();
        if position > limit as u64 || len > limit - position as usize {
            self.failed = true;
            return ;
        }
        let start: usize = position as usize;
        let end: usize = start + len;
        let mut content: Vec<u8> = Vec::new();
        std::mem::swap(&mut content, &mut self.content);
        let ghost base = content@;
        if end > content.len() {
            content.resize(end, 0u8);
        }
        let mut done: usize = 0;
        while done < len
            invariant
                done <= len,
                len == data@.len(),
                end == start + len,
                content@.len() == overlay(base, data@, start as nat).len(),
                forall|i: int|
                    0 <= i < content@.len() ==> content@[i] == if start <= i < start + done {
                        data@[i - start]
                    } else if i < base.len() {
                        base[i]
                    } else {
                        0u8
                    },
            decreases len - done,
        {
            content[start + done] = data[done];
            done = done + 1;
        }
        assert(content@ =~= overlay(base, data@, start as nat));
        self.content = content;
    }

    /// Closes the pipeline: hands over a short content as it is, and
    /// encrypts a longer one.
    pub fn close(self) -> (outcome: Option<(ContentMap, Vec<Chunk>)>)
        ensures
            sealed_view(outcome) == sealed(self@),
            bounded(self@),
    {
        proof {
            use_type_invariant(&self);
        }
        if self.failed {
            None
        } else if self.content.len() < 3 {
            let outcome = Some((ContentMap::Inline(self.content), Vec::new()));
            assert(contents(Seq::<Chunk>::empty()) =~= Seq::<Seq<u8>>::empty());
            outcome
        } else {
            match encrypt(self.content.as_slice()) {
                Ok((map, chunks)) => Some((ContentMap::Chunked(map), chunks)),
                Err(_) => None,
            }
        }
    }
}

} // verus!
