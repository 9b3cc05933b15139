//! The layout of a data file: a sequence of frames and nothing else.
//!
//! A frame is a header of five bytes followed by a payload. The first header
//! byte is the active flag (1 for a live record, anything else for a deleted
//! one); the other four are the payload length, little-endian.

use crate::db::file_manager::Entity;
use crate::db::tree::with_new;
use crate::error::StoreError;
use vstd::bytes::*;
use vstd::prelude::*;

verus! {

/// The number of bytes of a frame header.
pub const HEADER_LEN: usize = 5;

/// The flag of a live record.
pub const ACTIVE: u8 = 1;

/// The flag of a deleted record.
pub const DELETED: u8 = 0;

/// One frame of a data file: where its header starts, its flag and its payload.
pub struct Frame {
    pub offset: int,
    pub flag: u8,
    pub payload: Seq<u8>,
}

impl Frame {
    /// Whether the frame holds a live record.
    pub open spec fn live(self) -> bool {
        self.flag == ACTIVE
    }

    /// The same frame, marked as deleted.
    pub open spec fn deleted(self) -> Frame {
        Frame { offset: self.offset, flag: DELETED, payload: self.payload }
    }
}

/// The bytes of a frame with the given flag and payload.
pub open spec fn frame_bytes(flag: u8, payload: Seq<u8>) -> Seq<u8> {
    seq![flag] + spec_u32_to_le_bytes(payload.len() as u32) + payload
}

/// The payload length that the header at `pos` declares.
pub open spec fn declared_len(data: Seq<u8>, pos: int) -> int {
    spec_u32_from_le_bytes(data.subrange(pos + 1, pos + 5)) as int
}

/// The position behind the frame whose header starts at `pos`.
pub open spec fn frame_end(data: Seq<u8>, pos: int) -> int {
    pos + 5 + declared_len(data, pos)
}

/// Whether a whole frame, header and payload, lies in `data` from `pos` on.
pub open spec fn frame_fits(data: Seq<u8>, pos: int) -> bool {
    0 <= pos && pos + 5 <= data.len() && frame_end(data, pos) <= data.len()
}

/// The frame whose header starts at `pos`.
pub open spec fn frame_at(data: Seq<u8>, pos: int) -> Frame {
    Frame {
        offset: pos,
        flag: data[pos],
        payload: data.subrange(pos + 5, frame_end(data, pos)),
    }
}

/// The frames of `data` from `pos` to the end, in file order.
///
/// The walk ends well only at the very end of the data. It fails with `Io`
/// where the data stops inside a header or a payload, and with `Decode` at a
/// live frame whose payload is no record of `T`; the first failure counts.
pub open spec fn scan<T: Entity>(data: Seq<u8>, pos: int) -> Result<Seq<Frame>, StoreError>
    decreases data.len() - pos,
{
    if pos < 0 || pos >= data.len() {
        Ok(Seq::empty())
    } else if !frame_fits(data, pos) {
        Err(StoreError::Io)
    } else if data[pos] == ACTIVE && T::spec_decode(frame_at(data, pos).payload).is_none() {
        Err(StoreError::Decode)
    } else {
        match scan::<T>(data, frame_end(data, pos)) {
            Ok(rest) => Ok(seq![frame_at(data, pos)] + rest),
            Err(e) => Err(e),
        }
    }
}

/// The frames `done`, followed by what a walk that is still to be made gives.
pub open spec fn after(done: Seq<Frame>, rest: Result<Seq<Frame>, StoreError>) -> Result<
    Seq<Frame>,
    StoreError,
> {
    match rest {
        Ok(more) => Ok(done + more),
        Err(e) => Err(e),
    }
}

/// The index that a walk over the frames builds: each key of a live record,
/// bound to the offset of the first live frame that holds it.
pub open spec fn index_of<T: Entity>(frames: Seq<Frame>) -> Map<u32, u64>
    decreases frames.len(),
{
    if frames.len() == 0 {
        Map::empty()
    } else {
        let before = index_of::<T>(frames.drop_last());
        let f = frames.last();
        match T::spec_decode(f.payload) {
            Some(v) if f.live() => with_new(before, T::spec_key(v), f.offset as u64),
            _ => before,
        }
    }
}

/// The records of the live frames, in file order.
pub open spec fn live_records<T: Entity>(frames: Seq<Frame>) -> Seq<T::V>
    decreases frames.len(),
{
    if frames.len() == 0 {
        Seq::empty()
    } else {
        let before = live_records::<T>(frames.drop_last());
        let f = frames.last();
        match T::spec_decode(f.payload) {
            Some(v) if f.live() => before.push(v),
            _ => before,
        }
    }
}

/// Whether some live frame starts at `offset`.
pub open spec fn live_at(frames: Seq<Frame>, offset: int) -> bool {
    exists|i: int|
        0 <= i < frames.len() && (#[trigger] frames[i]).offset == offset && frames[i].live()
}

/// What holds of the frames that a walk from `pos` found: each lies wholly in
/// the data at or behind `pos`, is the frame that the data holds at its offset,
/// decodes if it is live, and ends before the next one starts.
pub proof fn lemma_scan_frames<T: Entity>(data: Seq<u8>, pos: int)
    requires
        0 <= pos <= data.len(),
        scan::<T>(data, pos).is_ok(),
    ensures
        forall|i: int|
            0 <= i < scan::<T>(data, pos).unwrap().len() ==> {
                let f = #[trigger] scan::<T>(data, pos).unwrap()[i];
                &&& pos <= f.offset
                &&& frame_fits(data, f.offset)
                &&& f == frame_at(data, f.offset)
                &&& f.live() ==> T::spec_decode(f.payload).is_some()
            },
        forall|i: int, j: int|
            0 <= i < j < scan::<T>(data, pos).unwrap().len() ==> frame_end(
                data,
                (#[trigger] scan::<T>(data, pos).unwrap()[i]).offset,
            ) <= (#[trigger] scan::<T>(data, pos).unwrap()[j]).offset,
    decreases data.len() - pos,
{
    if pos < data.len() {
        let next = frame_end(data, pos);
        lemma_scan_frames::<T>(data, next);
        let rest = scan::<T>(data, next).unwrap();
        let all = scan::<T>(data, pos).unwrap();
        assert(all == seq![frame_at(data, pos)] + rest);
        assert forall|i: int| 0 <= i < all.len() implies ({
            let f = #[trigger] all[i];
            &&& pos <= f.offset
            &&& frame_fits(data, f.offset)
            &&& f == frame_at(data, f.offset)
            &&& f.live() ==> T::spec_decode(f.payload).is_some()
        }) by {
            if i > 0 {
                assert(all[i] == rest[i - 1]);
            }
        }
        assert forall|i: int, j: int| 0 <= i < j < all.len() implies frame_end(
            data,
            (#[trigger] all[i]).offset,
        ) <= (#[trigger] all[j]).offset by {
            assert(all[j] == rest[j - 1]);
            if i > 0 {
                assert(all[i] == rest[i - 1]);
            }
        }
    }
}

/// A walk reads only the bytes at and behind the position where it starts.
pub proof fn lemma_scan_reads_suffix<T: Entity>(a: Seq<u8>, b: Seq<u8>, pos: int)
    requires
        0 <= pos,
        a.len() == b.len(),
        forall|i: int| pos <= i < a.len() ==> a[i] == b[i],
    ensures
        scan::<T>(a, pos) == scan::<T>(b, pos),
    decreases a.len() - pos,
{
    if pos < a.len() {
        if pos + 5 <= a.len() {
            assert(a.subrange(pos + 1, pos + 5) =~= b.subrange(pos + 1, pos + 5));
            if frame_fits(a, pos) {
                let next = frame_end(a, pos);
                assert(a.subrange(pos + 5, next) =~= b.subrange(pos + 5, next));
                lemma_scan_reads_suffix::<T>(a, b, next);
            }
        }
    }
}

/// A frame appended to well-framed data becomes the last frame of the walk.
pub proof fn lemma_scan_append<T: Entity>(data: Seq<u8>, pos: int, flag: u8, payload: Seq<u8>)
    requires
        0 <= pos <= data.len(),
        scan::<T>(data, pos).is_ok(),
        payload.len() <= u32::MAX,
        flag == ACTIVE ==> T::spec_decode(payload).is_some(),
    ensures
        scan::<T>(data + frame_bytes(flag, payload), pos) == Ok::<Seq<Frame>, StoreError>(
            scan::<T>(data, pos).unwrap().push(
                Frame { offset: data.len() as int, flag, payload },
            ),
        ),
    decreases data.len() - pos,
{
    lemma_auto_spec_u32_to_from_le_bytes();
    let added = frame_bytes(flag, payload);
    let longer = data + added;
    let last = Frame { offset: data.len() as int, flag, payload };
    if pos < data.len() {
        let next = frame_end(data, pos);
        assert(longer.subrange(pos + 1, pos + 5) =~= data.subrange(pos + 1, pos + 5));
        assert(longer.subrange(pos + 5, next) =~= data.subrange(pos + 5, next));
        lemma_scan_append::<T>(data, next, flag, payload);
        let rest = scan::<T>(data, next).unwrap();
        assert(seq![frame_at(data, pos)] + rest.push(last) =~= (seq![frame_at(data, pos)]
            + rest).push(last));
    } else {
        let size = spec_u32_to_le_bytes(payload.len() as u32);
        assert(longer.subrange(pos + 1, pos + 5) =~= size);
        assert(declared_len(longer, pos) == payload.len());
        assert(longer.subrange(pos + 5, frame_end(longer, pos)) =~= payload);
        assert(longer[pos] == flag);
        assert(frame_at(longer, pos) == last);
        assert(scan::<T>(longer, frame_end(longer, pos)) == Ok::<Seq<Frame>, StoreError>(
            Seq::empty(),
        ));
        assert(seq![last] + Seq::<Frame>::empty() =~= Seq::<Frame>::empty().push(last));
        assert(scan::<T>(data, pos).unwrap() =~= Seq::<Frame>::empty());
    }
}

/// Clearing the flag byte of a frame changes that frame of the walk, and no
/// other, into a deleted one.
pub proof fn lemma_scan_tombstone<T: Entity>(data: Seq<u8>, pos: int, i: int)
    requires
        0 <= pos <= data.len(),
        scan::<T>(data, pos).is_ok(),
        0 <= i < scan::<T>(data, pos).unwrap().len(),
    ensures
        scan::<T>(data.update(scan::<T>(data, pos).unwrap()[i].offset, DELETED), pos) == Ok::<
            Seq<Frame>,
            StoreError,
        >(scan::<T>(data, pos).unwrap().update(i, scan::<T>(data, pos).unwrap()[i].deleted())),
    decreases data.len() - pos,
{
    let frames = scan::<T>(data, pos).unwrap();
    let at = frames[i].offset;
    let cleared = data.update(at, DELETED);
    lemma_scan_frames::<T>(data, pos);
    let next = frame_end(data, pos);
    let rest = scan::<T>(data, next).unwrap();
    let first = frame_at(data, pos);
    assert(frames == seq![first] + rest);
    if i == 0 {
        assert(at == pos);
        assert(cleared.subrange(pos + 1, pos + 5) =~= data.subrange(pos + 1, pos + 5));
        assert(cleared.subrange(pos + 5, next) =~= data.subrange(pos + 5, next));
        lemma_scan_reads_suffix::<T>(data, cleared, next);
        assert(frame_at(cleared, pos) == first.deleted());
        assert(seq![first.deleted()] + rest =~= frames.update(0, first.deleted()));
    } else {
        assert(frames[i] == rest[i - 1]);
        assert(frames[0] == first);
        assert(next <= at);
        lemma_scan_frames::<T>(data, next);
        assert(cleared.subrange(pos + 1, pos + 5) =~= data.subrange(pos + 1, pos + 5));
        assert(cleared.subrange(pos + 5, next) =~= data.subrange(pos + 5, next));
        lemma_scan_tombstone::<T>(data, next, i - 1);
        assert(frame_at(cleared, pos) == first);
        assert(seq![first] + rest.update(i - 1, rest[i - 1].deleted()) =~= frames.update(
            i,
            frames[i].deleted(),
        ));
    }
}

} // verus!
