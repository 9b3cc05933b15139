//! The table: the bytes of a data file and the index over its live records.

use crate::db::codec::{length_prefix, put_bytes};
use crate::db::frames::{
    after, frame_at, frame_bytes, frame_end, frame_fits, index_of, lemma_scan_append,
    lemma_scan_frames, lemma_scan_tombstone, live_at, live_records, scan, Frame, ACTIVE, DELETED,
    HEADER_LEN,
};
use crate::db::tree::{lookup, BinaryTree};
use crate::error::StoreError;
use core::marker::PhantomData;
use vstd::bytes::*;
use vstd::prelude::*;
use vstd::slice::*;

verus! {

/// What a type must offer to be stored: a key, a payload encoding and the
/// matching decoding. The model of a record is its view; the three executable
/// methods compute what the four specification functions say.
pub trait Entity: View + Sized {
    /// The key of a record.
    spec fn spec_key(v: Self::V) -> u32;

    /// Whether every field of the record fits the format.
    spec fn spec_valid(v: Self::V) -> bool;

    /// The payload of a record.
    spec fn spec_encode(v: Self::V) -> Seq<u8>;

    /// The record that a payload holds, if it holds one.
    spec fn spec_decode(bytes: Seq<u8>) -> Option<Self::V>;

    /// Decoding the payload of a valid record gives the record back.
    proof fn lemma_round_trip(v: Self::V)
        requires
            Self::spec_valid(v),
        ensures
            Self::spec_decode(Self::spec_encode(v)) == Some(v),
    ;

    /// The primary key of this record.
    fn get_key(&self) -> (k: u32)
        ensures
            k == Self::spec_key(self@),
    ;

    /// The payload of this record, or `TooLarge` when the record is not valid.
    fn to_bytes(&self) -> (r: Result<Vec<u8>, StoreError>)
        ensures
            match r {
                Ok(b) => Self::spec_valid(self@) && b@ == Self::spec_encode(self@),
                Err(e) => !Self::spec_valid(self@) && e == StoreError::TooLarge,
            },
    ;

    /// The record that the payload holds, or `Decode` when it holds none.
    fn from_bytes(bytes: &[u8]) -> (r: Result<Self, StoreError>)
        ensures
            match r {
                Ok(x) => Self::spec_decode(bytes@) == Some(x@),
                Err(e) => Self::spec_decode(bytes@).is_none() && e == StoreError::Decode,
            },
    ;
}

/// The model of a table: the bytes of its data file and its index.
pub struct StoreModel {
    pub bytes: Seq<u8>,
    pub index: Map<u32, u64>,
}

impl StoreModel {
    /// The frames of the data file.
    pub open spec fn frames<T: Entity>(self) -> Seq<Frame> {
        scan::<T>(self.bytes, 0).unwrap()
    }

    /// The invariant of a table: the data file is a sequence of whole frames
    /// whose live payloads decode, every indexed offset is that of a live frame,
    /// and no two keys share an offset.
    pub open spec fn wf<T: Entity>(self) -> bool {
        &&& self.bytes.len() <= u64::MAX
        &&& scan::<T>(self.bytes, 0).is_ok()
        &&& forall|k: u32| #[trigger]
            self.index.contains_key(k) ==> live_at(self.frames::<T>(), self.index[k] as int)
        &&& forall|j: u32, k: u32|
            #![trigger self.index[j], self.index[k]]
            self.index.contains_key(j) && self.index.contains_key(k) && j != k ==> self.index[j]
                != self.index[k]
    }

    /// The table that opening a data file with these bytes gives.
    pub open spec fn opened<T: Entity>(bytes: Seq<u8>) -> Result<StoreModel, StoreError> {
        match scan::<T>(bytes, 0) {
            Ok(frames) => Ok(StoreModel { bytes, index: index_of::<T>(frames) }),
            Err(e) => Err(e),
        }
    }

    /// The table after `create(record, key)`, or why nothing was created.
    pub open spec fn create<T: Entity>(self, record: T::V, key: u32) -> Result<
        StoreModel,
        StoreError,
    > {
        if self.index.contains_key(key) {
            Err(StoreError::AlreadyExists)
        } else if !T::spec_valid(record) || T::spec_encode(record).len() > u32::MAX
            || self.bytes.len() + 5 + T::spec_encode(record).len() > u64::MAX {
            Err(StoreError::TooLarge)
        } else {
            Ok(
                StoreModel {
                    bytes: self.bytes + frame_bytes(ACTIVE, T::spec_encode(record)),
                    index: self.index.insert(key, self.bytes.len() as u64),
                },
            )
        }
    }

    /// What `read(key)` finds.
    pub open spec fn read<T: Entity>(self, key: u32) -> Option<T::V> {
        if !self.index.contains_key(key) {
            None
        } else if self.bytes[self.index[key] as int] != ACTIVE {
            None
        } else {
            T::spec_decode(frame_at(self.bytes, self.index[key] as int).payload)
        }
    }

    /// The table after `delete(key)`: the frame of the key is marked as
    /// deleted in place and the key leaves the index.
    pub open spec fn delete(self, key: u32) -> StoreModel {
        if self.index.contains_key(key) {
            StoreModel {
                bytes: self.bytes.update(self.index[key] as int, DELETED),
                index: self.index.remove(key),
            }
        } else {
            self
        }
    }

    /// What `read_all()` returns: the live records in file order.
    pub open spec fn read_all<T: Entity>(self) -> Seq<T::V> {
        live_records::<T>(self.frames::<T>())
    }
}

/// The models of the records of a sequence.
pub open spec fn views<T: Entity>(records: Seq<T>) -> Seq<T::V> {
    Seq::new(records.len(), |i: int| records[i]@)
}

/// The header of a frame, or `TooLarge` when the payload length does not fit
/// in four bytes.
pub fn encode_header(flag: u8, payload_len: usize) -> (r: Result<Vec<u8>, StoreError>)
    ensures
        match r {
            Ok(h) => payload_len <= u32::MAX && h@ == seq![flag] + spec_u32_to_le_bytes(
                payload_len as u32,
            ),
            Err(e) => payload_len > u32::MAX && e == StoreError::TooLarge,
        },
{
    let size = length_prefix(payload_len)?;
    let mut header: Vec<u8> = Vec::new();
    header.push(flag);
    let mut field = u32_to_le_bytes(size);
    header.append(&mut field);
    assert(header@ =~= seq![flag] + spec_u32_to_le_bytes(size));
    Ok(header)
}

/// Reads the header that starts at `pos`: the flag, and the position behind
/// the payload. Fails with `Io` when the data holds no whole frame from `pos`.
pub fn read_header(data: &[u8], pos: usize) -> (r: Result<(u8, usize), StoreError>)
    ensures
        match r {
            Ok((flag, end)) => frame_fits(data@, pos as int) && flag == data@[pos as int] && end
                == frame_end(data@, pos as int),
            Err(e) => !frame_fits(data@, pos as int) && e == StoreError::Io,
        },
{
    if pos > data.len() || data.len() - pos < HEADER_LEN {
        return Err(StoreError::Io);
    }
    let flag = data[pos];
    let size = u32_from_le_bytes(slice_subrange(data, pos + 1, pos + HEADER_LEN)) as usize;
    if data.len() - pos - HEADER_LEN < size {
        return Err(StoreError::Io);
    }
    Ok((flag, pos + HEADER_LEN + size))
}

/// One table: the bytes of its data file, and the index from each key to the
/// offset of the frame that holds its record.
pub struct FileManager<T: Entity> {
    data: Vec<u8>,
    index: BinaryTree,
    _phantom: PhantomData<T>,
}

impl<T: Entity> View for FileManager<T> {
    type V = StoreModel;

    closed spec fn view(&self) -> StoreModel {
        StoreModel { bytes: self.data@, index: self.index@ }
    }
}

impl<T: Entity> FileManager<T> {
    /// The invariant of the table. Every table that this module hands out
    /// meets it.
    pub open spec fn wf(&self) -> bool {
        self@.wf::<T>()
    }

    /// What holds of every table at all times.
    #[verifier::type_invariant]
    spec fn inv(&self) -> bool {
        self.wf()
    }

    /// Opens the table on the bytes of its data file: walks the frames from the
    /// start and indexes each live record under its own key.
    pub fn new(bytes: Vec<u8>) -> (r: Result<FileManager<T>, StoreError>)
        ensures
            match r {
                Ok(table) => table.wf() && StoreModel::opened::<T>(bytes@) == Ok::<
                    StoreModel,
                    StoreError,
                >(table@),
                Err(e) => StoreModel::opened::<T>(bytes@) == Err::<StoreModel, StoreError>(e),
            },
    {
        let mut index = BinaryTree::new();
        let mut pos: usize = 0;
        let ghost mut done: Seq<Frame> = Seq::empty();
        assert(Seq::<Frame>::empty() + scan::<T>(bytes@, 0).unwrap() =~= scan::<T>(
            bytes@,
            0,
        ).unwrap());
        while pos < bytes.len()
            invariant
                pos <= bytes.len(),
                index.wf(),
                index@ == index_of::<T>(done),
                scan::<T>(bytes@, 0) == after(done, scan::<T>(bytes@, pos as int)),
            decreases bytes.len() - pos,
        {
            let (flag, end) = match read_header(bytes.as_slice(), pos) {
                Ok(header) => header,
                Err(e) => {
                    return Err(e);
                },
            };
            if flag == ACTIVE {
                let payload = slice_subrange(bytes.as_slice(), pos + HEADER_LEN, end);
                let record = match T::from_bytes(payload) {
                    Ok(record) => record,
                    Err(e) => {
                        return Err(e);
                    },
                };
                index.insert(record.get_key(), pos as u64);
            }
            proof {
                let frame = frame_at(bytes@, pos as int);
                let next = done.push(frame);
                assert(next.drop_last() =~= done);
                match scan::<T>(bytes@, end as int) {
                    Ok(rest) => {
                        assert(done + (seq![frame] + rest) =~= next + rest);
                    },
                    Err(_) => {},
                }
                done = next;
            }
            pos = end;
        }
        proof {
            assert(done + Seq::<Frame>::empty() =~= done);
            lemma_opened_wf::<T>(bytes@);
        }
        Ok(FileManager { data: bytes, index, _phantom: PhantomData })
    }

    /// Appends the record as a live frame and indexes it under `key`. Fails,
    /// and changes nothing, when the key is indexed already or the record does
    /// not fit the format.
    pub fn create_record(&mut self, record: &T, key: u32) -> (r: Result<(), StoreError>)
        ensures
            old(self).wf(),
            final(self).wf(),
            match r {
                Ok(_) => old(self)@.create::<T>(record@, key) == Ok::<StoreModel, StoreError>(
                    final(self)@,
                ),
                Err(e) => old(self)@.create::<T>(record@, key) == Err::<StoreModel, StoreError>(e)
                    && final(self)@ == old(self)@,
            },
    {
        proof {
            use_type_invariant(&*self);
        }
        if self.index.search(key).is_some() {
            return Err(StoreError::AlreadyExists);
        }
        let payload = T::to_bytes(record)?;
        let header = encode_header(ACTIVE, payload.len())?;
        let offset = self.data.len() as u64;
        if u64::MAX - offset < 5 || u64::MAX - offset - 5 < payload.len() as u64 {
            return Err(StoreError::TooLarge);
        }
        proof {
            lemma_create_wf::<T>(self@, record@, key);
        }
        let FileManager { mut data, mut index, _phantom } = self.take();
        put_bytes(&mut data, header.as_slice());
        put_bytes(&mut data, payload.as_slice());
        index.insert(key, offset);
        assert(data@ =~= old(self).data@ + frame_bytes(ACTIVE, T::spec_encode(record@)));
        assert(index@ =~= old(self).index@.insert(key, offset));
        *self = FileManager { data, index, _phantom };
        Ok(())
    }

    /// The record that `key` is indexed under, if there is one.
    pub fn read_record(&self, key: u32) -> (r: Result<Option<T>, StoreError>)
        ensures
            self.wf(),
            match r {
                Ok(Some(record)) => self@.read::<T>(key) == Some(record@),
                Ok(None) => self@.read::<T>(key).is_none() && !self@.index.contains_key(key),
                Err(_) => false,
            },
    {
        proof {
            use_type_invariant(self);
        }
        match self.index.search(key) {
            None => Ok(None),
            Some(offset) => {
                proof {
                    lemma_indexed_frame::<T>(self@, key);
                }
                assert(offset < self.data.len());
                let pos = offset as usize;
                let (flag, end) = read_header(self.data.as_slice(), pos)?;
                if flag != ACTIVE {
                    return Ok(None);
                }
                let payload = slice_subrange(self.data.as_slice(), pos + HEADER_LEN, end);
                let record = T::from_bytes(payload)?;
                Ok(Some(record))
            },
        }
    }

    /// Marks the record of `key` as deleted and drops the key from the index.
    /// Says whether the key was indexed.
    pub fn delete_record(&mut self, key: u32) -> (r: Result<bool, StoreError>)
        ensures
            old(self).wf(),
            final(self).wf(),
            final(self)@ == old(self)@.delete(key),
            r == Ok::<bool, StoreError>(old(self)@.index.contains_key(key)),
    {
        proof {
            use_type_invariant(&*self);
        }
        match self.index.search(key) {
            None => Ok(false),
            Some(offset) => {
                proof {
                    lemma_indexed_frame::<T>(self@, key);
                    lemma_delete_wf::<T>(self@, key);
                }
                assert(offset < self.data.len());
                let FileManager { mut data, mut index, _phantom } = self.take();
                data.set(offset as usize, DELETED);
                index.delete(key);
                assert(index@ =~= old(self).index@.remove(key));
                *self = FileManager { data, index, _phantom };
                Ok(true)
            },
        }
    }

    /// Moves the table out and leaves an empty one in its place.
    fn take(&mut self) -> (table: Self)
        ensures
            table == *old(self),
            final(self).data@ == Seq::<u8>::empty(),
            final(self).index@ == Map::<u32, u64>::empty(),
    {
        let mut table = FileManager {
            data: Vec::new(),
            index: BinaryTree::new(),
            _phantom: PhantomData,
        };
        std::mem::swap(self, &mut table);
        table
    }

    /// Every live record, in the order of the data file.
    pub fn read_all_records(&self) -> (r: Result<Vec<T>, StoreError>)
        ensures
            self.wf(),
            match r {
                Ok(records) => views(records@) == self@.read_all::<T>(),
                Err(_) => false,
            },
    {
        proof {
            use_type_invariant(self);
        }
        let mut records: Vec<T> = Vec::new();
        let mut pos: usize = 0;
        let ghost mut done: Seq<Frame> = Seq::empty();
        assert(Seq::<Frame>::empty() + scan::<T>(self.data@, 0).unwrap() =~= scan::<T>(
            self.data@,
            0,
        ).unwrap());
        assert(views(records@) =~= live_records::<T>(done));
        while pos < self.data.len()
            invariant
                pos <= self.data.len(),
                scan::<T>(self.data@, 0).is_ok(),
                scan::<T>(self.data@, 0) == after(done, scan::<T>(self.data@, pos as int)),
                views(records@) == live_records::<T>(done),
            decreases self.data.len() - pos,
        {
            let (flag, end) = read_header(self.data.as_slice(), pos)?;
            let ghost frame = frame_at(self.data@, pos as int);
            let ghost next = done.push(frame);
            let ghost so_far = views(records@);
            if flag == ACTIVE {
                let payload = slice_subrange(self.data.as_slice(), pos + HEADER_LEN, end);
                let record = T::from_bytes(payload)?;
                records.push(record);
                assert(views(records@) =~= so_far.push(record@));
            }
            proof {
                assert(next.drop_last() =~= done);
                match scan::<T>(self.data@, end as int) {
                    Ok(rest) => {
                        assert(done + (seq![frame] + rest) =~= next + rest);
                    },
                    Err(_) => {},
                }
                done = next;
            }
            pos = end;
        }
        assert(done + Seq::<Frame>::empty() =~= done);
        Ok(records)
    }

    /// The bytes of the data file.
    pub fn as_bytes(&self) -> (bytes: &[u8])
        ensures
            bytes@ == self@.bytes,
    {
        self.data.as_slice()
    }

    /// The length of the data file.
    pub fn len(&self) -> (n: usize)
        ensures
            n == self@.bytes.len(),
    {
        self.data.len()
    }

    /// The offset of the frame that `key` is indexed under, if it is indexed.
    pub fn offset_of(&self, key: u32) -> (offset: Option<u64>)
        ensures
            self.wf(),
            offset == lookup(self@.index, key),
    {
        proof {
            use_type_invariant(self);
        }
        self.index.search(key)
    }
}

/// Every entry of the index that a walk builds is the offset of a live frame
/// whose record has the entry's key.
pub proof fn lemma_index_of_entries<T: Entity>(frames: Seq<Frame>, key: u32)
    requires
        index_of::<T>(frames).contains_key(key),
        forall|i: int| 0 <= i < frames.len() ==> 0 <= (#[trigger] frames[i]).offset <= u64::MAX,
    ensures
        exists|i: int|
            0 <= i < frames.len() && (#[trigger] frames[i]).live() && frames[i].offset
                == index_of::<T>(frames)[key] && T::spec_decode(frames[i].payload).is_some()
                && T::spec_key(T::spec_decode(frames[i].payload).unwrap()) == key,
    decreases frames.len(),
{
    if frames.len() > 0 {
        let front = frames.drop_last();
        let f = frames.last();
        let before = index_of::<T>(front);
        if before.contains_key(key) {
            lemma_index_of_entries::<T>(front, key);
            let i = choose|i: int|
                0 <= i < front.len() && (#[trigger] front[i]).live() && front[i].offset
                    == before[key] && T::spec_decode(front[i].payload).is_some() && T::spec_key(
                    T::spec_decode(front[i].payload).unwrap(),
                ) == key;
            assert(frames[i] == front[i]);
        } else {
            let i = frames.len() - 1;
            assert(frames[i] == f);
            assert(f.live());
        }
    }
}

/// Opening well-framed data gives a table that meets the invariant.
pub proof fn lemma_opened_wf<T: Entity>(bytes: Seq<u8>)
    requires
        bytes.len() <= u64::MAX,
        scan::<T>(bytes, 0).is_ok(),
    ensures
        StoreModel::opened::<T>(bytes).unwrap().wf::<T>(),
{
    let frames = scan::<T>(bytes, 0).unwrap();
    let m = StoreModel::opened::<T>(bytes).unwrap();
    lemma_scan_frames::<T>(bytes, 0);
    assert forall|k: u32| #[trigger] m.index.contains_key(k) implies live_at(
        frames,
        m.index[k] as int,
    ) by {
        lemma_index_of_entries::<T>(frames, k);
    }
    assert forall|j: u32, k: u32|
        #![trigger m.index[j], m.index[k]]
        m.index.contains_key(j) && m.index.contains_key(k) && j != k implies m.index[j]
        != m.index[k] by {
        lemma_index_of_entries::<T>(frames, j);
        lemma_index_of_entries::<T>(frames, k);
        let a = choose|i: int|
            0 <= i < frames.len() && (#[trigger] frames[i]).live() && frames[i].offset
                == m.index[j] && T::spec_decode(frames[i].payload).is_some() && T::spec_key(
                T::spec_decode(frames[i].payload).unwrap(),
            ) == j;
        let b = choose|i: int|
            0 <= i < frames.len() && (#[trigger] frames[i]).live() && frames[i].offset
                == m.index[k] && T::spec_decode(frames[i].payload).is_some() && T::spec_key(
                T::spec_decode(frames[i].payload).unwrap(),
            ) == k;
        if a < b {
            assert(frame_end(bytes, frames[a].offset) <= frames[b].offset);
        } else if b < a {
            assert(frame_end(bytes, frames[b].offset) <= frames[a].offset);
        }
    }
}

/// In a table that meets the invariant, the offset of an indexed key is that
/// of a whole live frame whose payload decodes.
pub proof fn lemma_indexed_frame<T: Entity>(m: StoreModel, key: u32)
    requires
        m.wf::<T>(),
        m.index.contains_key(key),
    ensures
        frame_fits(m.bytes, m.index[key] as int),
        m.bytes[m.index[key] as int] == ACTIVE,
        m.read::<T>(key).is_some(),
{
    lemma_scan_frames::<T>(m.bytes, 0);
    let frames = m.frames::<T>();
    let at = m.index[key] as int;
    let i = choose|i: int|
        0 <= i < frames.len() && (#[trigger] frames[i]).offset == at && frames[i].live();
    assert(frames[i] == frame_at(m.bytes, at));
}

/// A successful `create` keeps the invariant, and its frame becomes the last
/// frame of the data file.
pub proof fn lemma_create_wf<T: Entity>(m: StoreModel, record: T::V, key: u32)
    requires
        m.wf::<T>(),
        m.create::<T>(record, key).is_ok(),
    ensures
        m.create::<T>(record, key).unwrap().wf::<T>(),
        m.create::<T>(record, key).unwrap().frames::<T>() == m.frames::<T>().push(
            Frame { offset: m.bytes.len() as int, flag: ACTIVE, payload: T::spec_encode(record) },
        ),
{
    let payload = T::spec_encode(record);
    let after_create = m.create::<T>(record, key).unwrap();
    let frames = m.frames::<T>();
    let last = Frame { offset: m.bytes.len() as int, flag: ACTIVE, payload };
    T::lemma_round_trip(record);
    lemma_auto_spec_u32_to_from_le_bytes();
    lemma_scan_append::<T>(m.bytes, 0, ACTIVE, payload);
    lemma_scan_frames::<T>(m.bytes, 0);
    let longer = frames.push(last);
    assert(after_create.frames::<T>() == longer);
    assert(frame_bytes(ACTIVE, payload).len() == 5 + payload.len());
    assert forall|k: u32| #[trigger] after_create.index.contains_key(k) implies live_at(
        longer,
        after_create.index[k] as int,
    ) by {
        if k == key {
            let i = frames.len() as int;
            assert(longer[i] == last);
            assert(longer[i].offset == after_create.index[k] as int && longer[i].live());
        } else {
            let at = m.index[k] as int;
            let i = choose|i: int|
                0 <= i < frames.len() && (#[trigger] frames[i]).offset == at && frames[i].live();
            assert(longer[i] == frames[i]);
            assert(longer[i].offset == after_create.index[k] as int && longer[i].live());
        }
    }
    assert forall|j: u32, k: u32|
        #![trigger after_create.index[j], after_create.index[k]]
        after_create.index.contains_key(j) && after_create.index.contains_key(k) && j
            != k implies after_create.index[j] != after_create.index[k] by {
        if j != key {
            lemma_indexed_frame::<T>(m, j);
        }
        if k != key {
            lemma_indexed_frame::<T>(m, k);
        }
    }
}

/// A `delete` keeps the invariant, and marks the frame of the key, and no
/// other, as deleted.
pub proof fn lemma_delete_wf<T: Entity>(m: StoreModel, key: u32)
    requires
        m.wf::<T>(),
    ensures
        m.delete(key).wf::<T>(),
        m.index.contains_key(key) ==> exists|i: int|
            0 <= i < m.frames::<T>().len() && (#[trigger] m.frames::<T>()[i]).offset
                == m.index[key] && m.frames::<T>()[i].live() && m.delete(key).frames::<T>()
                == m.frames::<T>().update(i, m.frames::<T>()[i].deleted()),
{
    if m.index.contains_key(key) {
        let frames = m.frames::<T>();
        let at = m.index[key] as int;
        let after_delete = m.delete(key);
        lemma_scan_frames::<T>(m.bytes, 0);
        let i = choose|i: int|
            0 <= i < frames.len() && (#[trigger] frames[i]).offset == at && frames[i].live();
        lemma_scan_tombstone::<T>(m.bytes, 0, i);
        let marked = frames.update(i, frames[i].deleted());
        assert(after_delete.frames::<T>() == marked);
        assert forall|k: u32| #[trigger] after_delete.index.contains_key(k) implies live_at(
            marked,
            after_delete.index[k] as int,
        ) by {
            let other = m.index[k] as int;
            let j = choose|j: int|
                0 <= j < frames.len() && (#[trigger] frames[j]).offset == other && frames[j].live();
            assert(m.index[k] != m.index[key]);
            assert(j != i);
            assert(marked[j] == frames[j]);
            assert(marked[j].offset == after_delete.index[k] as int && marked[j].live());
        }
    }
}

} // verus!
