//! What holds of every table, stated over its model and proved from the
//! contracts of its operations.

use crate::db::file_manager::{
    lemma_create_wf, lemma_delete_wf, lemma_index_of_entries, lemma_indexed_frame,
    lemma_opened_wf, Entity, StoreModel,
};
use crate::db::frames::{
    frame_at, index_of, lemma_scan_frames, live_records, scan, Frame, ACTIVE,
};
use crate::error::StoreError;
use vstd::bytes::*;
use vstd::prelude::*;

verus! {

/// Decoding the payload of a valid record gives that record.
pub proof fn law_round_trip<T: Entity>(record: T::V)
    requires
        T::spec_valid(record),
    ensures
        T::spec_decode(T::spec_encode(record)) == Some(record),
{
    T::lemma_round_trip(record);
}

/// After a successful `create(record, key)`, `read(key)` finds the record.
pub proof fn law_create_then_read<T: Entity>(m: StoreModel, record: T::V, key: u32)
    requires
        m.wf::<T>(),
        m.create::<T>(record, key).is_ok(),
    ensures
        m.create::<T>(record, key).unwrap().read::<T>(key) == Some(record),
{
    let created = m.create::<T>(record, key).unwrap();
    lemma_create_wf::<T>(m, record, key);
    lemma_scan_frames::<T>(created.bytes, 0);
    let frames = created.frames::<T>();
    let i = m.frames::<T>().len() as int;
    assert(frames[i] == frame_at(created.bytes, frames[i].offset));
    lemma_auto_spec_u32_to_from_le_bytes();
    T::lemma_round_trip(record);
}

/// A second `create` under a key that was created fails with `AlreadyExists`,
/// and `read` still finds the first record.
pub proof fn law_create_is_unique<T: Entity>(m: StoreModel, first: T::V, second: T::V, key: u32)
    requires
        m.wf::<T>(),
        m.create::<T>(first, key).is_ok(),
    ensures
        m.create::<T>(first, key).unwrap().create::<T>(second, key) == Err::<
            StoreModel,
            StoreError,
        >(StoreError::AlreadyExists),
        m.create::<T>(first, key).unwrap().read::<T>(key) == Some(first),
{
    law_create_then_read::<T>(m, first, key);
}

/// Deleting a key that is not indexed changes nothing, and after any `delete`
/// the key is not indexed: a second `delete` of it reports `false`.
pub proof fn law_delete_absent<T: Entity>(m: StoreModel, key: u32)
    requires
        m.wf::<T>(),
    ensures
        !m.index.contains_key(key) ==> m.delete(key) == m,
        !m.delete(key).index.contains_key(key),
        m.delete(key).delete(key) == m.delete(key),
        m.delete(key).read::<T>(key).is_none(),
{
}

/// No operation shortens the data file: `delete` keeps its length, and a
/// successful `create` adds one frame to it.
pub proof fn law_file_never_shrinks<T: Entity>(m: StoreModel, record: T::V, key: u32)
    requires
        m.wf::<T>(),
    ensures
        m.delete(key).bytes.len() == m.bytes.len(),
        m.create::<T>(record, key).is_ok() ==> m.create::<T>(record, key).unwrap().bytes.len()
            == m.bytes.len() + 5 + T::spec_encode(record).len(),
{
    if m.index.contains_key(key) {
        lemma_indexed_frame::<T>(m, key);
    }
    lemma_auto_spec_u32_to_from_le_bytes();
}

/// After `create(record, key)` and `delete(key)`, `read(key)` finds nothing,
/// `read_all` returns what it returned before the two, the index is what it
/// was, and the data file is longer than before.
pub proof fn law_create_then_delete<T: Entity>(m: StoreModel, record: T::V, key: u32)
    requires
        m.wf::<T>(),
        m.create::<T>(record, key).is_ok(),
    ensures
        m.create::<T>(record, key).unwrap().delete(key).read::<T>(key).is_none(),
        m.create::<T>(record, key).unwrap().delete(key).read_all::<T>() == m.read_all::<T>(),
        m.create::<T>(record, key).unwrap().delete(key).index == m.index,
        m.create::<T>(record, key).unwrap().delete(key).bytes.len() > m.bytes.len(),
{
    let created = m.create::<T>(record, key).unwrap();
    let gone = created.delete(key);
    let frames = m.frames::<T>();
    let last = Frame {
        offset: m.bytes.len() as int,
        flag: ACTIVE,
        payload: T::spec_encode(record),
    };
    lemma_create_wf::<T>(m, record, key);
    lemma_delete_wf::<T>(created, key);
    lemma_scan_frames::<T>(created.bytes, 0);
    law_file_never_shrinks::<T>(m, record, key);
    law_file_never_shrinks::<T>(created, record, key);
    let longer = frames.push(last);
    let i = choose|i: int|
        0 <= i < longer.len() && (#[trigger] longer[i]).offset == created.index[key]
            && longer[i].live() && gone.frames::<T>() == longer.update(i, longer[i].deleted());
    let n = frames.len() as int;
    assert(longer[n] == last);
    if i < n {
        assert(longer[i].offset < longer[n].offset);
    }
    assert(i == n);
    assert(gone.frames::<T>().drop_last() =~= frames);
    assert(gone.index =~= m.index);
}

/// A record that `read_all` did not return before `create(record, key)` is
/// not among what it returns after the `delete(key)` that follows.
pub proof fn law_deleted_record_is_absent<T: Entity>(m: StoreModel, record: T::V, key: u32)
    requires
        m.wf::<T>(),
        m.create::<T>(record, key).is_ok(),
        !m.read_all::<T>().contains(record),
    ensures
        !m.create::<T>(record, key).unwrap().delete(key).read_all::<T>().contains(record),
{
    law_create_then_delete::<T>(m, record, key);
}

/// A successful `create` puts its record behind all that `read_all` returned
/// before.
pub proof fn law_create_appends<T: Entity>(m: StoreModel, record: T::V, key: u32)
    requires
        m.wf::<T>(),
        m.create::<T>(record, key).is_ok(),
    ensures
        m.create::<T>(record, key).unwrap().read_all::<T>() == m.read_all::<T>().push(record),
{
    lemma_create_wf::<T>(m, record, key);
    T::lemma_round_trip(record);
    let frames = m.frames::<T>();
    let longer = m.create::<T>(record, key).unwrap().frames::<T>();
    assert(longer.drop_last() =~= frames);
}

/// Marking one live frame as deleted takes its record, and no other, out of
/// the live records, and leaves the rest in their order.
pub proof fn lemma_live_records_delete<T: Entity>(frames: Seq<Frame>, i: int)
    requires
        0 <= i < frames.len(),
        frames[i].live(),
        T::spec_decode(frames[i].payload).is_some(),
    ensures
        0 <= live_records::<T>(frames.take(i)).len() < live_records::<T>(frames).len(),
        live_records::<T>(frames)[live_records::<T>(frames.take(i)).len() as int]
            == T::spec_decode(frames[i].payload).unwrap(),
        live_records::<T>(frames.update(i, frames[i].deleted())) == live_records::<T>(
            frames,
        ).remove(live_records::<T>(frames.take(i)).len() as int),
    decreases frames.len(),
{
    let front = frames.drop_last();
    let marked = frames.update(i, frames[i].deleted());
    let rank = live_records::<T>(frames.take(i)).len() as int;
    if i == frames.len() - 1 {
        assert(frames.take(i) =~= front);
        assert(marked.drop_last() =~= front);
        assert(live_records::<T>(frames).remove(rank) =~= live_records::<T>(front));
    } else {
        lemma_live_records_delete::<T>(front, i);
        assert(front.take(i) =~= frames.take(i));
        assert(marked.drop_last() =~= front.update(i, front[i].deleted()));
        assert(marked.last() == frames.last());
        let before = live_records::<T>(front);
        match T::spec_decode(frames.last().payload) {
            Some(v) if frames.last().live() => {
                assert(before.remove(rank).push(v) =~= before.push(v).remove(rank));
            },
            _ => {},
        }
    }
}

/// A `delete` of an indexed key takes the record that `read` found for it out
/// of what `read_all` returns, and leaves the other records in their order.
pub proof fn law_delete_keeps_order<T: Entity>(m: StoreModel, key: u32)
    requires
        m.wf::<T>(),
        m.index.contains_key(key),
    ensures
        exists|j: int|
            0 <= j < m.read_all::<T>().len() && #[trigger] m.read_all::<T>()[j] == m.read::<T>(
                key,
            ).unwrap() && m.delete(key).read_all::<T>() == m.read_all::<T>().remove(j),
{
    let frames = m.frames::<T>();
    lemma_delete_wf::<T>(m, key);
    lemma_scan_frames::<T>(m.bytes, 0);
    lemma_indexed_frame::<T>(m, key);
    let i = choose|i: int|
        0 <= i < frames.len() && (#[trigger] frames[i]).offset == m.index[key] && frames[i].live()
            && m.delete(key).frames::<T>() == frames.update(i, frames[i].deleted());
    assert(frames[i] == frame_at(m.bytes, frames[i].offset));
    lemma_live_records_delete::<T>(frames, i);
    let j = live_records::<T>(frames.take(i)).len() as int;
    assert(m.read_all::<T>()[j] == m.read::<T>(key).unwrap());
}

/// Opening the data file of a table again succeeds, and `read_all` returns
/// the same records from the table that this gives.
pub proof fn law_reopen_reads_same<T: Entity>(m: StoreModel)
    requires
        m.wf::<T>(),
    ensures
        StoreModel::opened::<T>(m.bytes).is_ok(),
        StoreModel::opened::<T>(m.bytes).unwrap().wf::<T>(),
        StoreModel::opened::<T>(m.bytes).unwrap().bytes == m.bytes,
        StoreModel::opened::<T>(m.bytes).unwrap().read_all::<T>() == m.read_all::<T>(),
{
    lemma_opened_wf::<T>(m.bytes);
}

/// Whether no two live frames hold records with the same key.
pub open spec fn distinct_keys<T: Entity>(frames: Seq<Frame>) -> bool {
    forall|i: int, j: int|
        0 <= i < j < frames.len() && (#[trigger] frames[i]).live() && (#[trigger] frames[j]).live()
            && T::spec_decode(frames[i].payload).is_some() && T::spec_decode(
            frames[j].payload,
        ).is_some() ==> T::spec_key(T::spec_decode(frames[i].payload).unwrap()) != T::spec_key(
            T::spec_decode(frames[j].payload).unwrap(),
        )
}

/// Whether the index is the one that opening the data file would build, and
/// every live record has a key of its own. This holds of a table as long as
/// each record is created under its own key.
pub open spec fn in_step<T: Entity>(m: StoreModel) -> bool {
    m.index == index_of::<T>(m.frames::<T>()) && distinct_keys::<T>(m.frames::<T>())
}

/// The table with an empty data file.
pub open spec fn empty_store() -> StoreModel {
    StoreModel { bytes: Seq::empty(), index: Map::empty() }
}

/// The table after the records were created one after the other in an empty
/// table, each under its own key; the first failure counts.
pub open spec fn written<T: Entity>(records: Seq<T::V>) -> Result<StoreModel, StoreError>
    decreases records.len(),
{
    if records.len() == 0 {
        Ok(empty_store())
    } else {
        match written::<T>(records.drop_last()) {
            Ok(m) => m.create::<T>(records.last(), T::spec_key(records.last())),
            Err(e) => Err(e),
        }
    }
}

/// The key of every live record is in the index that a walk builds.
pub proof fn lemma_index_of_covers<T: Entity>(frames: Seq<Frame>, i: int)
    requires
        0 <= i < frames.len(),
        frames[i].live(),
        T::spec_decode(frames[i].payload).is_some(),
    ensures
        index_of::<T>(frames).contains_key(
            T::spec_key(T::spec_decode(frames[i].payload).unwrap()),
        ),
    decreases frames.len(),
{
    if i < frames.len() - 1 {
        let front = frames.drop_last();
        assert(front[i] == frames[i]);
        lemma_index_of_covers::<T>(front, i);
    }
}

/// Marking a live frame as deleted, where keys are distinct, takes its key
/// out of the index that a walk builds and leaves the other entries.
pub proof fn lemma_index_of_delete<T: Entity>(frames: Seq<Frame>, i: int)
    requires
        0 <= i < frames.len(),
        frames[i].live(),
        T::spec_decode(frames[i].payload).is_some(),
        distinct_keys::<T>(frames),
    ensures
        index_of::<T>(frames.update(i, frames[i].deleted())) == index_of::<T>(frames).remove(
            T::spec_key(T::spec_decode(frames[i].payload).unwrap()),
        ),
    decreases frames.len(),
{
    let front = frames.drop_last();
    let marked = frames.update(i, frames[i].deleted());
    let key = T::spec_key(T::spec_decode(frames[i].payload).unwrap());
    let before = index_of::<T>(front);
    if i == frames.len() - 1 {
        assert(marked.drop_last() =~= front);
        if before.contains_key(key) {
            lemma_key_has_frame::<T>(front, key);
            let j = choose|j: int|
                0 <= j < front.len() && (#[trigger] front[j]).live() && T::spec_decode(
                    front[j].payload,
                ).is_some() && T::spec_key(T::spec_decode(front[j].payload).unwrap()) == key;
            assert(frames[j] == front[j]);
        }
        assert(index_of::<T>(marked) =~= index_of::<T>(frames).remove(key));
    } else {
        assert(front[i] == frames[i]);
        assert forall|a: int, b: int|
            0 <= a < b < front.len() && (#[trigger] front[a]).live() && (#[trigger] front[b]).live()
                && T::spec_decode(front[a].payload).is_some() && T::spec_decode(
                front[b].payload,
            ).is_some() implies T::spec_key(T::spec_decode(front[a].payload).unwrap())
            != T::spec_key(T::spec_decode(front[b].payload).unwrap()) by {
            assert(frames[a] == front[a]);
            assert(frames[b] == front[b]);
        }
        lemma_index_of_delete::<T>(front, i);
        assert(marked.drop_last() =~= front.update(i, front[i].deleted()));
        assert(marked.last() == frames.last());
        assert(index_of::<T>(marked) =~= index_of::<T>(frames).remove(key));
    }
}

/// Every key of the index that a walk builds is that of some live record.
pub proof fn lemma_key_has_frame<T: Entity>(frames: Seq<Frame>, key: u32)
    requires
        index_of::<T>(frames).contains_key(key),
    ensures
        exists|i: int|
            0 <= i < frames.len() && (#[trigger] frames[i]).live() && T::spec_decode(
                frames[i].payload,
            ).is_some() && T::spec_key(T::spec_decode(frames[i].payload).unwrap()) == key,
    decreases frames.len(),
{
    if frames.len() > 0 {
        let front = frames.drop_last();
        if index_of::<T>(front).contains_key(key) {
            lemma_key_has_frame::<T>(front, key);
            let i = choose|i: int|
                0 <= i < front.len() && (#[trigger] front[i]).live() && T::spec_decode(
                    front[i].payload,
                ).is_some() && T::spec_key(T::spec_decode(front[i].payload).unwrap()) == key;
            assert(frames[i] == front[i]);
        } else {
            let i = frames.len() - 1;
            assert(frames[i] == frames.last());
        }
    }
}

/// A table whose index is in step with its data file is the table that
/// opening the data file again gives: same bytes, same index.
pub proof fn law_reopen_in_step<T: Entity>(m: StoreModel)
    requires
        m.wf::<T>(),
        in_step::<T>(m),
    ensures
        StoreModel::opened::<T>(m.bytes) == Ok::<StoreModel, StoreError>(m),
{
}

/// The table that opening a data file gives is in step with it, where no two
/// live records of the file share a key.
pub proof fn law_opened_in_step<T: Entity>(bytes: Seq<u8>)
    requires
        StoreModel::opened::<T>(bytes).is_ok(),
        distinct_keys::<T>(scan::<T>(bytes, 0).unwrap()),
    ensures
        in_step::<T>(StoreModel::opened::<T>(bytes).unwrap()),
{
}

/// Creating a record under its own key keeps the index in step.
pub proof fn law_create_keeps_in_step<T: Entity>(m: StoreModel, record: T::V)
    requires
        m.wf::<T>(),
        in_step::<T>(m),
        m.create::<T>(record, T::spec_key(record)).is_ok(),
    ensures
        in_step::<T>(m.create::<T>(record, T::spec_key(record)).unwrap()),
{
    let key = T::spec_key(record);
    let created = m.create::<T>(record, key).unwrap();
    let frames = m.frames::<T>();
    let longer = created.frames::<T>();
    lemma_create_wf::<T>(m, record, key);
    T::lemma_round_trip(record);
    assert(longer.drop_last() =~= frames);
    assert(created.index =~= index_of::<T>(longer));
    assert forall|i: int, j: int|
        0 <= i < j < longer.len() && (#[trigger] longer[i]).live() && (#[trigger] longer[j]).live()
            && T::spec_decode(longer[i].payload).is_some() && T::spec_decode(
            longer[j].payload,
        ).is_some() implies T::spec_key(T::spec_decode(longer[i].payload).unwrap())
        != T::spec_key(T::spec_decode(longer[j].payload).unwrap()) by {
        assert(longer[i] == frames[i]);
        if j < frames.len() {
            assert(longer[j] == frames[j]);
        } else {
            lemma_index_of_covers::<T>(frames, i);
        }
    }
}

/// Deleting a key keeps the index in step.
pub proof fn law_delete_keeps_in_step<T: Entity>(m: StoreModel, key: u32)
    requires
        m.wf::<T>(),
        in_step::<T>(m),
    ensures
        in_step::<T>(m.delete(key)),
{
    if m.index.contains_key(key) {
        let frames = m.frames::<T>();
        lemma_delete_wf::<T>(m, key);
        lemma_scan_frames::<T>(m.bytes, 0);
        let i = choose|i: int|
            0 <= i < frames.len() && (#[trigger] frames[i]).offset == m.index[key]
                && frames[i].live() && m.delete(key).frames::<T>() == frames.update(
                i,
                frames[i].deleted(),
            );
        let marked = frames.update(i, frames[i].deleted());
        assert forall|n: int| 0 <= n < frames.len() implies 0 <= (#[trigger] frames[n]).offset
            <= u64::MAX by {}
        lemma_index_of_entries::<T>(frames, key);
        let w = choose|w: int|
            0 <= w < frames.len() && (#[trigger] frames[w]).live() && frames[w].offset
                == index_of::<T>(frames)[key] && T::spec_decode(frames[w].payload).is_some()
                && T::spec_key(T::spec_decode(frames[w].payload).unwrap()) == key;
        if w < i {
            assert(frames[w].offset < frames[i].offset);
        } else if i < w {
            assert(frames[i].offset < frames[w].offset);
        }
        assert(w == i);
        lemma_index_of_delete::<T>(frames, i);
        assert forall|a: int, b: int|
            0 <= a < b < marked.len() && (#[trigger] marked[a]).live() && (#[trigger] marked[b]).live()
                && T::spec_decode(marked[a].payload).is_some() && T::spec_decode(
                marked[b].payload,
            ).is_some() implies T::spec_key(T::spec_decode(marked[a].payload).unwrap())
            != T::spec_key(T::spec_decode(marked[b].payload).unwrap()) by {
            assert(marked[a] == frames[a]);
            assert(marked[b] == frames[b]);
        }
    }
}

/// Recovery: after any number of records were written to an empty table, each
/// under its own key, opening the data file again gives the same table, index
/// and all, and `read_all` returns the records that were written, in the order
/// in which they were written.
pub proof fn law_recovery<T: Entity>(records: Seq<T::V>)
    requires
        written::<T>(records).is_ok(),
    ensures
        written::<T>(records).unwrap().wf::<T>(),
        in_step::<T>(written::<T>(records).unwrap()),
        StoreModel::opened::<T>(written::<T>(records).unwrap().bytes) == written::<T>(records),
        written::<T>(records).unwrap().read_all::<T>() == records,
    decreases records.len(),
{
    if records.len() == 0 {
        let m = empty_store();
        assert(m.frames::<T>() =~= Seq::<Frame>::empty());
        assert(m.read_all::<T>() =~= records);
    } else {
        let front = records.drop_last();
        law_recovery::<T>(front);
        let m = written::<T>(front).unwrap();
        let record = records.last();
        lemma_create_wf::<T>(m, record, T::spec_key(record));
        law_create_keeps_in_step::<T>(m, record);
        law_create_appends::<T>(m, record, T::spec_key(record));
        assert(front.push(record) =~= records);
    }
}

} // verus!
