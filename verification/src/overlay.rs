//! Writes laid over a content, one after the other.

use vstd::prelude::*;

verus! {

/// `base` with `data` laid over it from `position` on. Where `data` reaches
/// beyond the end of `base` the result grows, and bytes that neither holds
/// are zero.
pub open spec fn overlay(base: Seq<u8>, data: Seq<u8>, position: nat) -> Seq<u8> {
    Seq::new(
        if base.len() >= position + data.len() {
            base.len()
        } else {
            position + data.len()
        },
        |i: int|
            if position <= i < position + data.len() {
                data[i - position]
            } else if i < base.len() {
                base[i]
            } else {
                0u8
            },
    )
}

/// One write: where it starts and the bytes it holds.
pub struct WriteOp {
    pub position: nat,
    pub data: Seq<u8>,
}

impl WriteOp {
    /// Whether the write holds a byte for offset `i`.
    pub open spec fn covers(self, i: int) -> bool {
        self.position <= i < self.position + self.data.len()
    }

    /// The offset just behind the last byte of the write.
    pub open spec fn end(self) -> nat {
        self.position + self.data.len()
    }
}

/// `base` after the writes in `writes`, applied first to last.
pub open spec fn overlay_all(base: Seq<u8>, writes: Seq<WriteOp>) -> Seq<u8>
    decreases writes.len(),
{
    if writes.len() == 0 {
        base
    } else {
        overlay(overlay_all(base, writes.drop_last()), writes.last().data, writes.last().position)
    }
}

/// The last write in `writes` that covers offset `i`, if any does.
pub open spec fn latest_cover(writes: Seq<WriteOp>, i: int) -> Option<int>
    decreases writes.len(),
{
    if writes.len() == 0 {
        None
    } else if writes.last().covers(i) {
        Some(writes.len() - 1)
    } else {
        latest_cover(writes.drop_last(), i)
    }
}

/// `latest_cover` finds a write that covers the offset and that no later
/// write covers again; it finds none only where no write covers the offset.
pub proof fn lemma_latest_cover(writes: Seq<WriteOp>, i: int)
    ensures
        match latest_cover(writes, i) {
            Some(j) => 0 <= j < writes.len() && writes[j].covers(i) && forall|k: int|
                j < k < writes.len() ==> !(#[trigger] writes[k]).covers(i),
            None => forall|k: int| 0 <= k < writes.len() ==> !(#[trigger] writes[k]).covers(i),
        },
    decreases writes.len(),
{
    if writes.len() > 0 && !writes.last().covers(i) {
        let front = writes.drop_last();
        lemma_latest_cover(front, i);
        assert forall|k: int| 0 <= k < front.len() implies front[k] == writes[k] by {}
        match latest_cover(front, i) {
            Some(j) => {
                assert forall|k: int| j < k < writes.len() implies !(#[trigger] writes[k]).covers(
                    i,
                ) by {
                    if k < front.len() {
                        assert(front[k] == writes[k]);
                    }
                }
            },
            None => {
                assert forall|k: int| 0 <= k < writes.len() implies !(#[trigger] writes[k]).covers(
                    i,
                ) by {
                    if k < front.len() {
                        assert(front[k] == writes[k]);
                    }
                }
            },
        }
    }
}

/// The length of a content after a run of writes: that of the base, or the
/// end of the write that reaches furthest, whichever is more.
pub proof fn lemma_overlay_all_len(base: Seq<u8>, writes: Seq<WriteOp>)
    ensures
        overlay_all(base, writes).len() >= base.len(),
        forall|k: int| 0 <= k < writes.len() ==> overlay_all(base, writes).len() >= (
        #[trigger] writes[k]).end(),
        overlay_all(base, writes).len() == base.len() || exists|k: int|
            0 <= k < writes.len() && overlay_all(base, writes).len() == (#[trigger] writes[k]).end(),
    decreases writes.len(),
{
    if writes.len() > 0 {
        let front = writes.drop_last();
        let last = writes.last();
        lemma_overlay_all_len(base, front);
        let before = overlay_all(base, front);
        let after = overlay_all(base, writes);
        assert(after.len() == if before.len() >= last.end() {
            before.len()
        } else {
            last.end()
        });
        assert forall|k: int| 0 <= k < writes.len() implies after.len() >= (#[trigger] writes[k]).end() by {
            if k < front.len() {
                assert(front[k] == writes[k]);
            }
        }
        if after.len() != base.len() {
            if before.len() >= last.end() {
                let k = choose|k: int| 0 <= k < front.len() && before.len() == (#[trigger] front[k]).end();
                assert(front[k] == writes[k]);
                assert(after.len() == writes[k].end());
            } else {
                assert(after.len() == writes[writes.len() - 1].end());
            }
        }
    }
}

/// After any run of writes, at overlapping offsets and in any order, each
/// byte of the content is the byte that the latest write covering its offset
/// holds for it. An offset that no write covers keeps the byte of the base,
/// or is zero where the base did not reach.
pub proof fn lemma_latest_write_wins(base: Seq<u8>, writes: Seq<WriteOp>, i: int)
    requires
        0 <= i < overlay_all(base, writes).len(),
    ensures
        overlay_all(base, writes)[i] == match latest_cover(writes, i) {
            Some(j) => writes[j].data[i - writes[j].position],
            None => if i < base.len() {
                base[i]
            } else {
                0u8
            },
        },
    decreases writes.len(),
{
    if writes.len() > 0 {
        let front = writes.drop_last();
        let last = writes.last();
        if !last.covers(i) {
            let before = overlay_all(base, front);
            if i < before.len() {
                lemma_latest_write_wins(base, front, i);
                match latest_cover(front, i) {
                    Some(j) => {
                        lemma_latest_cover(front, i);
                        assert(front[j] == writes[j]);
                    },
                    None => {},
                }
            } else {
                lemma_overlay_all_len(base, front);
                lemma_latest_cover(front, i);
                match latest_cover(front, i) {
                    Some(j) => {
                        assert(before.len() >= front[j].end());
                    },
                    None => {},
                }
            }
        }
    }
}

} // verus!
