//! The reader: validates the file header, ingests every complete record of
//! the stream, reconstructs entry lifetimes and per-entry timelines, sorts
//! them by timestamp, and answers key-based queries.
//!
//! The reader works over the file's bytes; the surrounding program reads
//! the file into memory and hands the bytes over.
use vstd::prelude::*;

use std::collections::HashMap;

use vstd::string::StringExecFns;
use vstd::utf8::{encode_utf8, valid_utf8};

use crate::error::DataLogError;
use crate::proto::entries::EntryLifeStatus;
use crate::proto::records::{
    parse_records, spec_chunks, spec_data_type_str, spec_parse_stream, ControlRecord,
    ControlRecordView, Record, RecordView,
};
use crate::proto::util::{le_val, RecordByteReader};
use crate::trusted::bytes_to_string;
use crate::value::{lv_of_data, LogValue, LogValueView};
use crate::{tv_view_seq, TimestampedValue};

verus! {

/// Configuration for the reader.
#[derive(Debug, Clone, Copy)]
pub struct DataLogReaderConfig {
    /// Require the magic bytes at the start of the file to be `WPILOG`.
    pub require_magic: bool,
    /// Require a specific `(major, minor)` version of the file format.
    pub required_version: Option<(u8, u8)>,
}

impl Default for DataLogReaderConfig {
    /// The default configuration: the magic is required, and the version
    /// must be `(1, 0)`.
    fn default() -> (r: Self)
        ensures
            r.require_magic == true,
            r.required_version == Some((1u8, 0u8)),
    {
        Self { require_magic: true, required_version: Some((1, 0)) }
    }
}

/// One entry's reconstructed state: its life status, its current type
/// string, and its three timelines.
#[derive(Debug)]
pub struct EntryData {
    /// The entry's life status.
    pub lifestatus: EntryLifeStatus,
    /// The entry's current type string.
    pub current_type: String,
    /// The timestamped values.
    pub values: Vec<TimestampedValue<LogValue>>,
    /// The timestamped metadata strings.
    pub metadata: Vec<TimestampedValue<String>>,
    /// The timestamped type strings.
    pub type_str: Vec<TimestampedValue<String>>,
}

/// The mathematical shape of one entry's reconstructed state.
pub struct EntryModel {
    /// The entry's life status.
    pub status: EntryLifeStatus,
    /// The entry's current type string.
    pub tstr: Seq<char>,
    /// The timestamped values.
    pub values: Seq<(u64, LogValueView)>,
    /// The timestamped metadata strings.
    pub metadata: Seq<(u64, Seq<char>)>,
    /// The timestamped type strings.
    pub types: Seq<(u64, Seq<char>)>,
}

/// The shape of an entry's exec state.
pub open spec fn entry_view(e: EntryData) -> EntryModel {
    EntryModel {
        status: e.lifestatus,
        tstr: e.current_type@,
        values: tv_view_seq(e.values@),
        metadata: tv_view_seq(e.metadata@),
        types: tv_view_seq(e.type_str@),
    }
}

/// The reader's reconstructed file state: key bindings, and per-entry
/// state.
pub struct IngestState {
    /// The binding from entry names to entry ids.
    pub keys: Map<Seq<char>, u32>,
    /// The per-entry state, by entry id.
    pub entries: Map<u32, EntryModel>,
}

/// The state before any record: no keys, no entries.
pub open spec fn init_state() -> IngestState {
    IngestState { keys: Map::empty(), entries: Map::empty() }
}

/// The entry state an id has before its first `Start`.
pub open spec fn empty_entry() -> EntryModel {
    EntryModel {
        status: EntryLifeStatus::Dead { start: 0, end: 0 },
        tstr: Seq::empty(),
        values: Seq::empty(),
        metadata: Seq::empty(),
        types: Seq::empty(),
    }
}

/// How one record changes the reconstructed state.
///
/// A `Start` for an already-alive entry is ignored.  Otherwise `Start`
/// binds the name, marks the entry alive, sets its current type, and
/// appends to the type and metadata timelines.  `Finish` turns an alive
/// entry dead at its timestamp.  `Metadata` appends to an alive entry's
/// metadata timeline.  A data record appends to an alive entry's value
/// timeline exactly when its decoded shape matches the entry's current
/// type string, or is the raw fallback that the decoder resolves an
/// unknown type (a struct type string, say) to.
pub open spec fn ingest_step(st: IngestState, r: RecordView) -> IngestState {
    match r {
        RecordView::Control(c, ts, id) => match c {
            ControlRecordView::Start(name, tstr, meta) => {
                if st.entries.contains_key(id) && st.entries[id].status is Alive {
                    st
                } else {
                    let old_e = if st.entries.contains_key(id) {
                        st.entries[id]
                    } else {
                        empty_entry()
                    };
                    IngestState {
                        keys: st.keys.insert(name, id),
                        entries: st.entries.insert(
                            id,
                            EntryModel {
                                status: EntryLifeStatus::Alive { start: ts },
                                tstr: tstr,
                                values: old_e.values,
                                metadata: old_e.metadata.push((ts, meta)),
                                types: old_e.types.push((ts, tstr)),
                            },
                        ),
                    }
                }
            },
            ControlRecordView::Finish => {
                if st.entries.contains_key(id) && st.entries[id].status is Alive {
                    let e = st.entries[id];
                    IngestState {
                        keys: st.keys,
                        entries: st.entries.insert(
                            id,
                            EntryModel {
                                status: EntryLifeStatus::Dead {
                                    start: e.status->Alive_start,
                                    end: ts,
                                },
                                ..e
                            },
                        ),
                    }
                } else {
                    st
                }
            },
            ControlRecordView::Metadata(meta) => {
                if st.entries.contains_key(id) && st.entries[id].status is Alive {
                    let e = st.entries[id];
                    IngestState {
                        keys: st.keys,
                        entries: st.entries.insert(
                            id,
                            EntryModel { metadata: e.metadata.push((ts, meta)), ..e },
                        ),
                    }
                } else {
                    st
                }
            },
        },
        RecordView::Data(d, ts, id) => {
            if st.entries.contains_key(id) && st.entries[id].status is Alive && (
            spec_data_type_str(d) == st.entries[id].tstr || d is Raw) {
                let e = st.entries[id];
                IngestState {
                    keys: st.keys,
                    entries: st.entries.insert(
                        id,
                        EntryModel { values: e.values.push((ts, lv_of_data(d))), ..e },
                    ),
                }
            } else {
                st
            }
        },
    }
}

/// Folds `ingest_step` over a record stream, in order.
pub open spec fn ingest_run(rs: Seq<RecordView>, st: IngestState) -> IngestState
    decreases rs.len(),
{
    if rs.len() == 0 {
        st
    } else {
        ingest_run(rs.drop_first(), ingest_step(st, rs[0]))
    }
}

/// A second `Start` for an already-alive entry is ignored: the state, and
/// so every timeline, is unchanged.
pub proof fn lemma_second_start_ignored(
    st: IngestState,
    name: Seq<char>,
    tstr: Seq<char>,
    meta: Seq<char>,
    ts: u64,
    id: u32,
)
    requires
        st.entries.contains_key(id),
        st.entries[id].status is Alive,
    ensures
        ingest_step(
            st,
            RecordView::Control(ControlRecordView::Start(name, tstr, meta), ts, id),
        ) == st,
{
}

// ---------------------------------------------------------------------------
// Association lists with unique ids
// ---------------------------------------------------------------------------
/// No entry id occurs twice.
pub open spec fn ids_unique(s: Seq<(u32, EntryData)>) -> bool {
    forall|i: int, j: int| 0 <= i < j < s.len() ==> s[i].0 != s[j].0
}

/// No key occurs twice.
pub open spec fn keys_unique(s: Seq<(String, u32)>) -> bool {
    forall|i: int, j: int| 0 <= i < j < s.len() ==> s[i].0@ != s[j].0@
}

/// The map an id-to-entry list stands for.
pub open spec fn data_view(s: Seq<(u32, EntryData)>) -> Map<u32, EntryModel>
    decreases s.len(),
{
    if s.len() == 0 {
        Map::empty()
    } else {
        data_view(s.drop_last()).insert(s.last().0, entry_view(s.last().1))
    }
}

/// The map a key-binding list stands for.
pub open spec fn key_view(s: Seq<(String, u32)>) -> Map<Seq<char>, u32>
    decreases s.len(),
{
    if s.len() == 0 {
        Map::empty()
    } else {
        key_view(s.drop_last()).insert(s.last().0@, s.last().1)
    }
}

/// With unique ids, the list's elements are exactly the map's pairs.
pub proof fn lemma_data_view_props(s: Seq<(u32, EntryData)>)
    requires
        ids_unique(s),
    ensures
        forall|i: int|
            0 <= i < s.len() ==> data_view(s).contains_key(#[trigger] s[i].0) && data_view(
                s,
            )[s[i].0] == entry_view(s[i].1),
        forall|id: u32|
            data_view(s).contains_key(id) ==> exists|i: int|
                0 <= i < s.len() && #[trigger] s[i].0 == id,
    decreases s.len(),
{
    if s.len() > 0 {
        assert(ids_unique(s.drop_last())) by {
            assert(forall|i: int, j: int|
                0 <= i < j < s.drop_last().len() ==> s.drop_last()[i] == s[i]
                    && s.drop_last()[j] == s[j]);
        }
        lemma_data_view_props(s.drop_last());
        assert(forall|i: int| 0 <= i < s.len() - 1 ==> s.drop_last()[i] == s[i]);
    }
}

/// With unique keys, the list's elements are exactly the map's pairs.
pub proof fn lemma_key_view_props(s: Seq<(String, u32)>)
    requires
        keys_unique(s),
    ensures
        forall|i: int|
            0 <= i < s.len() ==> key_view(s).contains_key(#[trigger] s[i].0@) && key_view(
                s,
            )[s[i].0@] == s[i].1,
        forall|k: Seq<char>|
            key_view(s).contains_key(k) ==> exists|i: int|
                0 <= i < s.len() && #[trigger] s[i].0@ == k,
    decreases s.len(),
{
    if s.len() > 0 {
        assert(keys_unique(s.drop_last())) by {
            assert(forall|i: int, j: int|
                0 <= i < j < s.drop_last().len() ==> s.drop_last()[i] == s[i]
                    && s.drop_last()[j] == s[j]);
        }
        lemma_key_view_props(s.drop_last());
        assert(forall|i: int| 0 <= i < s.len() - 1 ==> s.drop_last()[i] == s[i]);
        assert forall|k: Seq<char>| key_view(s).contains_key(k) implies exists|i: int|
            0 <= i < s.len() && #[trigger] s[i].0@ == k by {
            if k == s.last().0@ {
                assert(s[s.len() - 1].0@ == k);
            } else {
                assert(key_view(s.drop_last()).contains_key(k));
                let i = choose|i: int|
                    0 <= i < s.drop_last().len() && #[trigger] s.drop_last()[i].0@ == k;
                assert(s[i].0@ == k);
            }
        }
    }
}

/// Updating the entry at a unique id's index updates the map at that id.
pub proof fn lemma_data_view_update(s: Seq<(u32, EntryData)>, i: int, e: EntryData)
    requires
        ids_unique(s),
        0 <= i < s.len(),
    ensures
        data_view(s.update(i, (s[i].0, e))) == data_view(s).insert(s[i].0, entry_view(e)),
        ids_unique(s.update(i, (s[i].0, e))),
    decreases s.len(),
{
    let s2 = s.update(i, (s[i].0, e));
    assert(forall|k: int| 0 <= k < s.len() && k != i ==> s2[k] == s[k]);
    if i == s.len() - 1 {
        assert(s2.drop_last() =~= s.drop_last());
        assert(s2.last() == (s[i].0, e));
        assert(data_view(s2) =~= data_view(s).insert(s[i].0, entry_view(e)));
    } else {
        assert(ids_unique(s.drop_last())) by {
            assert(forall|a: int, b: int|
                0 <= a < b < s.drop_last().len() ==> s.drop_last()[a] == s[a] && s.drop_last()[b]
                    == s[b]);
        }
        lemma_data_view_update(s.drop_last(), i, e);
        assert(s2.drop_last() =~= s.drop_last().update(i, (s[i].0, e)));
        assert(s2.last() == s.last());
        assert(s.last().0 != s[i].0);
        assert(data_view(s2) == data_view(s.drop_last()).insert(s[i].0, entry_view(e)).insert(
            s.last().0,
            entry_view(s.last().1),
        ));
        assert(data_view(s2) =~= data_view(s).insert(s[i].0, entry_view(e)));
    }
}

/// Appending a fresh id inserts it into the map.
pub proof fn lemma_data_view_push(s: Seq<(u32, EntryData)>, id: u32, e: EntryData)
    requires
        ids_unique(s),
        forall|i: int| 0 <= i < s.len() ==> s[i].0 != id,
    ensures
        data_view(s.push((id, e))) == data_view(s).insert(id, entry_view(e)),
        ids_unique(s.push((id, e))),
{
    let s2 = s.push((id, e));
    assert(s2.drop_last() =~= s);
    assert(s2.last() == (id, e));
}

/// Updating the binding at a unique key's index updates the map at that
/// key.
pub proof fn lemma_key_view_update(s: Seq<(String, u32)>, i: int, id: u32)
    requires
        keys_unique(s),
        0 <= i < s.len(),
    ensures
        key_view(s.update(i, (s[i].0, id))) == key_view(s).insert(s[i].0@, id),
        keys_unique(s.update(i, (s[i].0, id))),
    decreases s.len(),
{
    let s2 = s.update(i, (s[i].0, id));
    assert(forall|k: int| 0 <= k < s.len() && k != i ==> s2[k] == s[k]);
    if i == s.len() - 1 {
        assert(s2.drop_last() =~= s.drop_last());
        assert(s2.last() == (s[i].0, id));
        assert(key_view(s2) =~= key_view(s).insert(s[i].0@, id));
    } else {
        assert(keys_unique(s.drop_last())) by {
            assert(forall|a: int, b: int|
                0 <= a < b < s.drop_last().len() ==> s.drop_last()[a] == s[a] && s.drop_last()[b]
                    == s[b]);
        }
        lemma_key_view_update(s.drop_last(), i, id);
        assert(s2.drop_last() =~= s.drop_last().update(i, (s[i].0, id)));
        assert(s2.last() == s.last());
        assert(s.last().0@ != s[i].0@);
        assert(key_view(s2) == key_view(s.drop_last()).insert(s[i].0@, id).insert(
            s.last().0@,
            s.last().1,
        ));
        assert(key_view(s2) =~= key_view(s).insert(s[i].0@, id));
    }
}

/// Appending a fresh key inserts it into the map.
pub proof fn lemma_key_view_push(s: Seq<(String, u32)>, key: String, id: u32)
    requires
        keys_unique(s),
        forall|i: int| 0 <= i < s.len() ==> s[i].0@ != key@,
    ensures
        key_view(s.push((key, id))) == key_view(s).insert(key@, id),
        keys_unique(s.push((key, id))),
{
    let s2 = s.push((key, id));
    assert(s2.drop_last() =~= s);
    assert(s2.last() == (key, id));
}


// ---------------------------------------------------------------------------
// Exec helpers
// ---------------------------------------------------------------------------
/// The index holding entry `id`, if any.
fn find_id(data: &Vec<(u32, EntryData)>, id: u32) -> (r: Option<usize>)
    ensures
        match r {
            Some(i) => i < data@.len() && data@[i as int].0 == id,
            None => forall|i: int| 0 <= i < data@.len() ==> data@[i].0 != id,
        },
{
    let n = data.len();
    let mut i: usize = 0;
    while i < n
        invariant
            i <= n,
            n == data@.len(),
            forall|j: int| 0 <= j < i ==> data@[j].0 != id,
        decreases n - i,
    {
        if data[i].0 == id {
            return Some(i);
        }
        i = i + 1;
    }
    None
}

/// Binds `key` to `id`, overwriting an existing binding of the same key.
fn keys_set(keys: &mut Vec<(String, u32)>, key: &String, id: u32)
    requires
        keys_unique(old(keys)@),
    ensures
        keys_unique(final(keys)@),
        key_view(final(keys)@) == key_view(old(keys)@).insert(key@, id),
{
    let n = keys.len();
    let mut i: usize = 0;
    while i < n
        invariant
            i <= n,
            n == keys@.len(),
            keys@ == old(keys)@,
            keys_unique(keys@),
            forall|j: int| 0 <= j < i ==> keys@[j].0@ != key@,
        decreases n - i,
    {
        if keys[i].0 == *key {
            proof {
                lemma_key_view_update(keys@, i as int, id);
            }
            keys[i].1 = id;
            return ;
        }
        i = i + 1;
    }
    proof {
        lemma_key_view_push(keys@, *key, id);
    }
    keys.push((key.clone(), id));
}

/// Sorted non-decreasing by timestamp.
pub open spec fn ts_sorted<T>(s: Seq<(u64, T)>) -> bool {
    forall|i: int, j: int| 0 <= i < j < s.len() ==> s[i].0 <= s[j].0
}

/// Sorts a timeline by timestamp: the result is non-decreasing and holds
/// the same timestamped values.
fn sort_timeline<V: View>(v: Vec<TimestampedValue<V>>) -> (r: Vec<TimestampedValue<V>>)
    ensures
        tv_view_seq(r@).to_multiset() == tv_view_seq(v@).to_multiset(),
        ts_sorted(tv_view_seq(r@)),
        r@.len() == v@.len(),
{
    broadcast use vstd::seq_lib::group_to_multiset_ensures;

    let mut rest = v;
    let mut out: Vec<TimestampedValue<V>> = Vec::new();
    proof {
        assert(tv_view_seq(out@) =~= Seq::<(u64, V::V)>::empty());
        assert(tv_view_seq(out@).to_multiset().add(tv_view_seq(rest@).to_multiset())
            =~= tv_view_seq(v@).to_multiset());
    }
    while rest.len() > 0
        invariant
            tv_view_seq(out@).to_multiset().add(tv_view_seq(rest@).to_multiset()) == tv_view_seq(
                v@,
            ).to_multiset(),
            ts_sorted(tv_view_seq(out@)),
            forall|k: int, l: int|
                0 <= k < out@.len() && 0 <= l < rest@.len() ==> out@[k].timestamp
                    <= rest@[l].timestamp,
            out@.len() + rest@.len() == v@.len(),
        decreases rest@.len(),
    {
        let mut m: usize = 0;
        let mut i: usize = 1;
        while i < rest.len()
            invariant
                m < rest@.len(),
                i <= rest@.len(),
                forall|j: int| 0 <= j < i ==> rest@[m as int].timestamp <= rest@[j].timestamp,
            decreases rest@.len() - i,
        {
            if rest[i].timestamp < rest[m].timestamp {
                m = i;
            }
            i = i + 1;
        }
        let ghost old_rest = rest@;
        let ghost old_out = out@;
        let x = rest.remove(m);
        out.push(x);
        proof {
            let p = (x.timestamp, x.value@);
            assert(tv_view_seq(out@) =~= tv_view_seq(old_out).push(p));
            assert(tv_view_seq(rest@) =~= tv_view_seq(old_rest).remove(m as int));
            assert(tv_view_seq(old_rest)[m as int] == p);
            assert(tv_view_seq(old_rest).contains(p));
            vstd::seq_lib::to_multiset_build(tv_view_seq(old_out), p);
            vstd::seq_lib::to_multiset_remove(tv_view_seq(old_rest), m as int);
            vstd::seq_lib::to_multiset_contains(tv_view_seq(old_rest), p);
            assert(tv_view_seq(old_out).push(p).to_multiset() == tv_view_seq(
                old_out,
            ).to_multiset().insert(p));
            assert(tv_view_seq(out@).to_multiset() == tv_view_seq(old_out).to_multiset().insert(
                p,
            ));
            assert(tv_view_seq(old_rest).remove(m as int).to_multiset() == tv_view_seq(
                old_rest,
            ).to_multiset().remove(tv_view_seq(old_rest)[m as int]));
            assert(tv_view_seq(rest@).to_multiset() == tv_view_seq(old_rest).to_multiset().remove(
                p,
            ));
            assert(tv_view_seq(old_rest).to_multiset().count(p) > 0);
            assert(tv_view_seq(out@).to_multiset().add(tv_view_seq(rest@).to_multiset())
                =~= tv_view_seq(old_out).to_multiset().add(tv_view_seq(old_rest).to_multiset()));
        }
    }
    proof {
        assert(tv_view_seq(rest@) =~= Seq::<(u64, V::V)>::empty());
        assert(tv_view_seq(out@).to_multiset().add(tv_view_seq(rest@).to_multiset())
            =~= tv_view_seq(out@).to_multiset());
    }
    out
}

/// The byte length of the header metadata, read from the file header.
pub open spec fn spec_header_meta_len(bytes: Seq<u8>) -> nat {
    le_val(bytes.subrange(8, 12))
}

/// Where the record stream begins: after the 12 fixed header bytes and the
/// header metadata.
pub open spec fn spec_body_start(bytes: Seq<u8>) -> int {
    12 + spec_header_meta_len(bytes) as int
}

/// The records of a file's body, in stream order: the body is cut into
/// framed records (the trailing fragment dropped) and parsed under the
/// evolving type map, starting from the empty one.
pub open spec fn spec_file_records(bytes: Seq<u8>) -> Seq<RecordView> {
    spec_parse_stream(spec_chunks(bytes.skip(spec_body_start(bytes))), Map::empty()).0
}

/// The reconstructed state of a file: its records folded over the ingest
/// step.
pub open spec fn spec_file_model(bytes: Seq<u8>) -> IngestState {
    ingest_run(spec_file_records(bytes), init_state())
}

/// A file with a trailing fragment that holds no complete record
/// reconstructs the same state as the clean file: the header is read the
/// same way, the chunking drops the fragment, and the record stream and
/// the ingest fold agree.
pub proof fn lemma_trailing_fragment_same_model(
    header: Seq<u8>,
    rs: Seq<RecordView>,
    junk: Seq<u8>,
)
    requires
        header.len() == 12 + le_val(header.subrange(8, 12)),
        crate::proto::laws::all_encodable(rs),
        spec_chunks(junk) == Seq::<Seq<u8>>::empty(),
    ensures
        spec_file_model(header + crate::proto::laws::spec_stream_bytes(rs) + junk)
            == spec_file_model(header + crate::proto::laws::spec_stream_bytes(rs)),
{
    let stream = crate::proto::laws::spec_stream_bytes(rs);
    let f1 = header + stream;
    let f2 = header + stream + junk;
    assert(f1.subrange(8, 12) =~= header.subrange(8, 12));
    assert(f2.subrange(8, 12) =~= header.subrange(8, 12));
    assert(spec_body_start(f1) == header.len());
    assert(spec_body_start(f2) == header.len());
    assert(f1.skip(header.len() as int) =~= stream);
    assert(f2.skip(header.len() as int) =~= stream + junk);
    crate::proto::laws::lemma_trailing_fragment_ignored(rs, junk);
}

/// The reader holds exactly the reconstructed state: the same key
/// bindings, the same entries, and for each entry the same life status,
/// current type, and timelines up to sorting — each stored timeline is a
/// non-decreasing-by-timestamp permutation of the reconstructed one.
pub open spec fn reader_matches_model(rd: DataLogReader, st: IngestState) -> bool {
    &&& keys_unique(rd.keys@)
    &&& ids_unique(rd.data@)
    &&& key_view(rd.keys@) == st.keys
    &&& data_view(rd.data@).dom() == st.entries.dom()
    &&& forall|i: int|
        0 <= i < rd.data@.len() ==> {
            let id = #[trigger] rd.data@[i].0;
            let ev = entry_view(rd.data@[i].1);
            &&& st.entries.contains_key(id)
            &&& ev.status == st.entries[id].status
            &&& ev.tstr == st.entries[id].tstr
            &&& ev.values.to_multiset() == st.entries[id].values.to_multiset()
            &&& ts_sorted(ev.values)
            &&& ev.metadata.to_multiset() == st.entries[id].metadata.to_multiset()
            &&& ts_sorted(ev.metadata)
            &&& ev.types.to_multiset() == st.entries[id].types.to_multiset()
            &&& ts_sorted(ev.types)
        }
}

/// An all-in-one reader for a data log.
pub struct DataLogReader {
    /// The file's format version, as `(major, minor)`.
    pub format_version: (u8, u8),
    /// The file's header metadata; empty when the stored bytes were not
    /// valid UTF-8.
    pub header_metadata: String,
    /// The configuration the reader was opened with.
    pub config: DataLogReaderConfig,
    /// The binding from entry names to entry ids.
    pub keys: Vec<(String, u32)>,
    /// The per-entry reconstructed state, by entry id.
    pub data: Vec<(u32, EntryData)>,
}

impl DataLogReader {
    /// Opens a reader over a file's bytes: validates the header per the
    /// configuration, ingests every complete record, and sorts each
    /// entry's timelines by timestamp.
    ///
    /// Fails with `MagicMismatch` when the magic is required and absent,
    /// `VersionMismatch` when a required version differs, and an
    /// out-of-bounds error when the file is shorter than its header
    /// claims.
    pub fn try_new(bytes: &[u8], config: DataLogReaderConfig) -> (r: Result<
        DataLogReader,
        DataLogError,
    >)
        ensures
            match r {
                Ok(rd) => {
                    &&& bytes@.len() >= 12
                    &&& (config.require_magic ==> bytes@.take(6) == encode_utf8("WPILOG"@))
                    &&& rd.format_version == (bytes@[7], bytes@[6])
                    &&& (config.required_version matches Some(v) ==> v == rd.format_version)
                    &&& spec_header_meta_len(bytes@) <= bytes@.len() - 12
                    &&& {
                        let mbytes = bytes@.subrange(12, spec_body_start(bytes@));
                        if valid_utf8(mbytes) {
                            encode_utf8(rd.header_metadata@) == mbytes
                        } else {
                            rd.header_metadata@ == Seq::<char>::empty()
                        }
                    }
                    &&& rd.config == config
                    &&& reader_matches_model(rd, spec_file_model(bytes@))
                },
                Err(e) => {
                    if bytes@.len() < 6 {
                        e matches DataLogError::RecordReaderOutOfBounds(_)
                    } else if config.require_magic && bytes@.take(6) != encode_utf8("WPILOG"@) {
                        e == DataLogError::MagicMismatch
                    } else if bytes@.len() < 8 {
                        e matches DataLogError::RecordReaderOutOfBounds(_)
                    } else if config.required_version matches Some(v) && v != (
                    bytes@[7],
                    bytes@[6],
                    ) {
                        e == DataLogError::VersionMismatch
                    } else if bytes@.len() < 12 {
                        e matches DataLogError::RecordReaderOutOfBounds(_)
                    } else {
                        bytes@.len() - 12 < spec_header_meta_len(bytes@) && (
                        e matches DataLogError::RecordReaderOutOfBounds(_))
                    }
                },
            },
    {
        let mut hreader = RecordByteReader::new(bytes);
        let magic = match hreader.bytes(6) {
            Ok(m) => m,
            Err(e) => {
                return Err(e);
            },
        };
        if config.require_magic && !is_magic_bytes(&magic) {
            return Err(DataLogError::MagicMismatch);
        }
        let b_minor = match hreader.byte() {
            Ok(b) => b,
            Err(e) => {
                return Err(e);
            },
        };
        let b_major = match hreader.byte() {
            Ok(b) => b,
            Err(e) => {
                return Err(e);
            },
        };
        proof {
            assert(bytes@.skip(6).drop_first() =~= bytes@.skip(7));
            assert(bytes@.skip(7).drop_first() =~= bytes@.skip(8));
            assert(hreader.remaining() =~= bytes@.skip(8));
            assert(b_minor == bytes@[6]);
            assert(b_major == bytes@[7]);
        }
        let format_version = (b_major, b_minor);
        if let Some(req) = config.required_version {
            if req.0 != format_version.0 || req.1 != format_version.1 {
                return Err(DataLogError::VersionMismatch);
            }
        }
        let metadata_len = match hreader.u32() {
            Ok(l) => l,
            Err(e) => {
                return Err(e);
            },
        };
        proof {
            assert(bytes@.skip(8).take(4) =~= bytes@.subrange(8, 12));
            assert(metadata_len as nat == spec_header_meta_len(bytes@));
            assert(bytes@.skip(8).skip(4) =~= bytes@.skip(12));
            assert(hreader.remaining() =~= bytes@.skip(12));
        }
        let mbytes = match hreader.bytes(metadata_len as usize) {
            Ok(m) => m,
            Err(e) => {
                return Err(e);
            },
        };
        proof {
            assert(bytes@.skip(12).take(metadata_len as int) =~= bytes@.subrange(
                12,
                spec_body_start(bytes@),
            ));
            assert(mbytes@ =~= bytes@.subrange(12, spec_body_start(bytes@)));
            assert(bytes@.skip(12).skip(metadata_len as int) =~= bytes@.skip(
                spec_body_start(bytes@),
            ));
            assert(hreader.remaining() =~= bytes@.skip(spec_body_start(bytes@)));
        }
        let header_metadata = match bytes_to_string(mbytes.as_slice()) {
            Some(s) => s,
            None => String::new(),
        };
        let body = hreader.the_rest();
        proof {
            assert(body@ =~= bytes@.skip(spec_body_start(bytes@)));
        }
        let mut type_map: HashMap<u32, u32> = HashMap::new();
        let mut records = match parse_records(body, &mut type_map) {
            Ok(rs) => rs,
            Err(e) => {
                return Err(e);
            },
        };
        let ghost all_views = spec_file_records(bytes@);
        proof {
            assert(records.deep_view() == all_views);
        }
        let mut keys: Vec<(String, u32)> = Vec::new();
        let mut data: Vec<(u32, EntryData)> = Vec::new();
        proof {
            assert(key_view(keys@) =~= init_state().keys);
            assert(data_view(data@) =~= init_state().entries);
        }
        while records.len() > 0
            invariant
                keys_unique(keys@),
                ids_unique(data@),
                ingest_run(all_views, init_state()) == ingest_run(
                    records.deep_view(),
                    IngestState { keys: key_view(keys@), entries: data_view(data@) },
                ),
            decreases records@.len(),
        {
            let ghost pre_views = records.deep_view();
            let ghost cur = IngestState { keys: key_view(keys@), entries: data_view(data@) };
            let record = records.remove(0);
            let ghost rv = record@;
            proof {
                assert(records.deep_view() =~= pre_views.drop_first());
                assert(rv == pre_views[0]);
                lemma_data_view_props(data@);
            }
            let ghost next = ingest_step(cur, rv);
            match record {
                Record::Control(inner, timestamp, id) => {
                    match inner {
                        ControlRecord::Start(name, type_str, metadata) => {
                            let idx_opt = find_id(&data, id);
                            let was_alive = match idx_opt {
                                Some(i) => match data[i].1.lifestatus {
                                    EntryLifeStatus::Alive { .. } => true,
                                    EntryLifeStatus::Dead { .. } => false,
                                },
                                None => false,
                            };
                            if !was_alive {
                                keys_set(&mut keys, &name, id);
                                match idx_opt {
                                    Some(i) => {
                                        let ghost old_data = data@;
                                        let ghost old_entry = data@[i as int].1;
                                        let e = &mut data[i].1;
                                        e.lifestatus = EntryLifeStatus::Alive { start: timestamp };
                                        e.current_type = type_str.clone();
                                        e.type_str.push(
                                            TimestampedValue::new(timestamp, type_str),
                                        );
                                        e.metadata.push(TimestampedValue::new(timestamp, metadata));
                                        proof {
                                            let e2 = data@[i as int].1;
                                            assert(data@ =~= old_data.update(
                                                i as int,
                                                (id, e2),
                                            ));
                                            assert(tv_view_seq(e2.type_str@) =~= tv_view_seq(
                                                old_entry.type_str@,
                                            ).push((timestamp, rv->Control_0->Start_1)));
                                            assert(tv_view_seq(e2.metadata@) =~= tv_view_seq(
                                                old_entry.metadata@,
                                            ).push((timestamp, rv->Control_0->Start_2)));
                                            assert(tv_view_seq(e2.values@) =~= tv_view_seq(
                                                old_entry.values@,
                                            ));
                                            lemma_data_view_update(old_data, i as int, e2);
                                            assert(entry_view(e2) == next.entries[id]);
                                            assert(data_view(data@) =~= next.entries);
                                        }
                                    },
                                    None => {
                                        let ghost old_data = data@;
                                        let mut md: Vec<TimestampedValue<String>> = Vec::new();
                                        md.push(TimestampedValue::new(timestamp, metadata));
                                        let mut tl: Vec<TimestampedValue<String>> = Vec::new();
                                        tl.push(
                                            TimestampedValue::new(timestamp, type_str.clone()),
                                        );
                                        let e = EntryData {
                                            lifestatus: EntryLifeStatus::Alive { start: timestamp },
                                            current_type: type_str,
                                            values: Vec::new(),
                                            metadata: md,
                                            type_str: tl,
                                        };
                                        proof {
                                            assert(!data_view(old_data).contains_key(id));
                                            assert(tv_view_seq(e.metadata@) =~= Seq::<(
                                                u64,
                                                Seq<char>,
                                            )>::empty().push((timestamp, rv->Control_0->Start_2)));
                                            assert(tv_view_seq(e.type_str@) =~= Seq::<(
                                                u64,
                                                Seq<char>,
                                            )>::empty().push((timestamp, rv->Control_0->Start_1)));
                                            assert(tv_view_seq(e.values@) =~= Seq::<(
                                                u64,
                                                LogValueView,
                                            )>::empty());
                                            lemma_data_view_push(old_data, id, e);
                                            assert(entry_view(e) == next.entries[id]);
                                        }
                                        data.push((id, e));
                                        proof {
                                            assert(data_view(data@) =~= next.entries);
                                        }
                                    },
                                }
                            }
                            proof {
                                assert(IngestState {
                                    keys: key_view(keys@),
                                    entries: data_view(data@),
                                } == next);
                            }
                        },
                        ControlRecord::Finish => {
                            let idx_opt = find_id(&data, id);
                            if let Some(i) = idx_opt {
                                match data[i].1.lifestatus {
                                    EntryLifeStatus::Alive { start } => {
                                        let ghost old_data = data@;
                                        let e = &mut data[i].1;
                                        e.lifestatus = EntryLifeStatus::Dead {
                                            start,
                                            end: timestamp,
                                        };
                                        proof {
                                            let e2 = data@[i as int].1;
                                            assert(data@ =~= old_data.update(
                                                i as int,
                                                (id, e2),
                                            ));
                                            lemma_data_view_update(old_data, i as int, e2);
                                            assert(entry_view(e2) == next.entries[id]);
                                            assert(data_view(data@) =~= next.entries);
                                        }
                                    },
                                    EntryLifeStatus::Dead { .. } => {
                                    },
                                }
                            }
                            proof {
                                assert(IngestState {
                                    keys: key_view(keys@),
                                    entries: data_view(data@),
                                } == next);
                            }
                        },
                        ControlRecord::Metadata(metadata) => {
                            let idx_opt = find_id(&data, id);
                            if let Some(i) = idx_opt {
                                let alive = match data[i].1.lifestatus {
                                    EntryLifeStatus::Alive { .. } => true,
                                    EntryLifeStatus::Dead { .. } => false,
                                };
                                if alive {
                                    let ghost old_data = data@;
                                    let ghost old_entry = data@[i as int].1;
                                    let e = &mut data[i].1;
                                    e.metadata.push(TimestampedValue::new(timestamp, metadata));
                                    proof {
                                        let e2 = data@[i as int].1;
                                        assert(data@ =~= old_data.update(i as int, (id, e2)));
                                        assert(tv_view_seq(e2.metadata@) =~= tv_view_seq(
                                            old_entry.metadata@,
                                        ).push((timestamp, rv->Control_0->Metadata_0)));
                                        lemma_data_view_update(old_data, i as int, e2);
                                        assert(entry_view(e2) == next.entries[id]);
                                        assert(data_view(data@) =~= next.entries);
                                    }
                                }
                            }
                            proof {
                                assert(IngestState {
                                    keys: key_view(keys@),
                                    entries: data_view(data@),
                                } == next);
                            }
                        },
                    }
                },
                Record::Data(value, timestamp, id) => {
                    let idx_opt = find_id(&data, id);
                    if let Some(i) = idx_opt {
                        let alive = match data[i].1.lifestatus {
                            EntryLifeStatus::Alive { .. } => true,
                            EntryLifeStatus::Dead { .. } => false,
                        };
                        if alive {
                            let is_raw = match &value {
                                crate::proto::records::DataRecord::Raw(_) => true,
                                _ => false,
                            };
                            let matches_now = value.matches_type(&data[i].1.current_type)
                                || is_raw;
                            if matches_now {
                                let ghost old_data = data@;
                                let ghost old_entry = data@[i as int].1;
                                let lv = value.into_value();
                                let e = &mut data[i].1;
                                e.values.push(TimestampedValue::new(timestamp, lv));
                                proof {
                                    let e2 = data@[i as int].1;
                                    assert(data@ =~= old_data.update(i as int, (id, e2)));
                                    assert(tv_view_seq(e2.values@) =~= tv_view_seq(
                                        old_entry.values@,
                                    ).push((timestamp, lv_of_data(rv->Data_0))));
                                    lemma_data_view_update(old_data, i as int, e2);
                                    assert(entry_view(e2) == next.entries[id]);
                                    assert(data_view(data@) =~= next.entries);
                                }
                            }
                        }
                    }
                    proof {
                        assert(IngestState {
                            keys: key_view(keys@),
                            entries: data_view(data@),
                        } == next);
                    }
                },
            }
        }
        let ghost st = ingest_run(all_views, init_state());
        proof {
            assert(records.deep_view() =~= Seq::<RecordView>::empty());
            assert(st == IngestState { keys: key_view(keys@), entries: data_view(data@) });
        }
        let ghost pre_sort = data@;
        let mut k: usize = 0;
        while k < data.len()
            invariant
                data@.len() == pre_sort.len(),
                forall|j: int|
                    0 <= j < data@.len() ==> (#[trigger] data@[j]).0 == pre_sort[j].0,
                forall|j: int| k <= j < data@.len() ==> data@[j] == pre_sort[j],
                forall|j: int|
                    0 <= j < k ==> {
                        let ev = entry_view((#[trigger] data@[j]).1);
                        let pv = entry_view(pre_sort[j].1);
                        &&& ev.status == pv.status
                        &&& ev.tstr == pv.tstr
                        &&& ev.values.to_multiset() == pv.values.to_multiset()
                        &&& ts_sorted(ev.values)
                        &&& ev.metadata.to_multiset() == pv.metadata.to_multiset()
                        &&& ts_sorted(ev.metadata)
                        &&& ev.types.to_multiset() == pv.types.to_multiset()
                        &&& ts_sorted(ev.types)
                    },
            decreases data@.len() - k,
        {
            let mut tmp_v: Vec<TimestampedValue<LogValue>> = Vec::new();
            core::mem::swap(&mut data[k].1.values, &mut tmp_v);
            let mut sorted_v = sort_timeline(tmp_v);
            core::mem::swap(&mut data[k].1.values, &mut sorted_v);
            let mut tmp_m: Vec<TimestampedValue<String>> = Vec::new();
            core::mem::swap(&mut data[k].1.metadata, &mut tmp_m);
            let mut sorted_m = sort_timeline(tmp_m);
            core::mem::swap(&mut data[k].1.metadata, &mut sorted_m);
            let mut tmp_t: Vec<TimestampedValue<String>> = Vec::new();
            core::mem::swap(&mut data[k].1.type_str, &mut tmp_t);
            let mut sorted_t = sort_timeline(tmp_t);
            core::mem::swap(&mut data[k].1.type_str, &mut sorted_t);
            k = k + 1;
        }
        let rd = DataLogReader { format_version, header_metadata, config, keys, data };
        proof {
            assert(ids_unique(rd.data@)) by {
                assert(forall|a: int, b: int|
                    0 <= a < b < rd.data@.len() ==> rd.data@[a].0 == pre_sort[a].0
                        && rd.data@[b].0 == pre_sort[b].0);
            }
            lemma_data_view_props(pre_sort);
            lemma_data_view_props(rd.data@);
            assert forall|id: u32| #[trigger]
                data_view(rd.data@).contains_key(id) implies st.entries.contains_key(id) by {
                let i = choose|i: int| 0 <= i < rd.data@.len() && #[trigger] rd.data@[i].0 == id;
                assert(pre_sort[i].0 == id);
            }
            assert forall|id: u32| #[trigger]
                st.entries.contains_key(id) implies data_view(rd.data@).contains_key(id) by {
                let i = choose|i: int| 0 <= i < pre_sort.len() && #[trigger] pre_sort[i].0 == id;
                assert(rd.data@[i].0 == id);
            }
            assert(data_view(rd.data@).dom() =~= st.entries.dom());
            assert forall|i: int| 0 <= i < rd.data@.len() implies {
                let id = #[trigger] rd.data@[i].0;
                let ev = entry_view(rd.data@[i].1);
                &&& st.entries.contains_key(id)
                &&& ev.status == st.entries[id].status
                &&& ev.tstr == st.entries[id].tstr
                &&& ev.values.to_multiset() == st.entries[id].values.to_multiset()
                &&& ts_sorted(ev.values)
                &&& ev.metadata.to_multiset() == st.entries[id].metadata.to_multiset()
                &&& ts_sorted(ev.metadata)
                &&& ev.types.to_multiset() == st.entries[id].types.to_multiset()
                &&& ts_sorted(ev.types)
            } by {
                let id = rd.data@[i].0;
                assert(pre_sort[i].0 == id);
                assert(data_view(pre_sort)[id] == entry_view(pre_sort[i].1));
            }
        }
        Ok(rd)
    }
}

/// Decides whether six bytes are the `WPILOG` magic tag.
fn is_magic_bytes(m: &Vec<u8>) -> (r: bool)
    ensures
        r == (m@ == encode_utf8("WPILOG"@)),
{
    let ok = m.len() == 6 && m[0] == 0x57 && m[1] == 0x50 && m[2] == 0x49 && m[3] == 0x4C
        && m[4] == 0x4F && m[5] == 0x47;
    proof {
        lemma_magic_bytes();
        if ok {
            assert(m@ =~= encode_utf8("WPILOG"@));
        }
    }
    ok
}

/// The UTF-8 bytes of the magic tag, spelled out.
proof fn lemma_magic_bytes()
    ensures
        encode_utf8("WPILOG"@) =~= seq![0x57u8, 0x50u8, 0x49u8, 0x4Cu8, 0x4Fu8, 0x47u8],
{
    reveal_strlit("WPILOG");
    assert(vstd::utf8::is_ascii_chars("WPILOG"@));
    vstd::utf8::is_ascii_chars_encode_utf8("WPILOG"@);
    assert(encode_utf8("WPILOG"@)[0] == 0x57u8);
    assert(encode_utf8("WPILOG"@)[1] == 0x50u8);
    assert(encode_utf8("WPILOG"@)[2] == 0x49u8);
    assert(encode_utf8("WPILOG"@)[3] == 0x4Cu8);
    assert(encode_utf8("WPILOG"@)[4] == 0x4Fu8);
    assert(encode_utf8("WPILOG"@)[5] == 0x47u8);
}


// ---------------------------------------------------------------------------
// Queries
// ---------------------------------------------------------------------------
/// The index of the entry `id` names, if any.
pub open spec fn spec_find_id(data: Seq<(u32, EntryData)>, id: u32) -> Option<int>
    decreases data.len(),
{
    if data.len() == 0 {
        None
    } else if data[0].0 == id {
        Some(0int)
    } else {
        match spec_find_id(data.drop_first(), id) {
            Some(i) => Some(i + 1),
            None => None,
        }
    }
}

/// The index of the entry a key names, if any: the key binding, then the
/// entry table.
pub open spec fn spec_entry_index(rd: DataLogReader, key: Seq<char>) -> Option<int> {
    if key_view(rd.keys@).contains_key(key) {
        spec_find_id(rd.data@, key_view(rd.keys@)[key])
    } else {
        None
    }
}

/// The value timeline a key names; empty when no entry has the key.
pub open spec fn spec_read_entry(rd: DataLogReader, key: Seq<char>) -> Seq<(u64, LogValueView)> {
    match spec_entry_index(rd, key) {
        Some(i) => entry_view(rd.data@[i].1).values,
        None => Seq::empty(),
    }
}

/// The metadata timeline a key names; empty when no entry has the key.
pub open spec fn spec_read_metadata(rd: DataLogReader, key: Seq<char>) -> Seq<(u64, Seq<char>)> {
    match spec_entry_index(rd, key) {
        Some(i) => entry_view(rd.data@[i].1).metadata,
        None => Seq::empty(),
    }
}

/// The type timeline a key names; empty when no entry has the key.
pub open spec fn spec_read_types(rd: DataLogReader, key: Seq<char>) -> Seq<(u64, Seq<char>)> {
    match spec_entry_index(rd, key) {
        Some(i) => entry_view(rd.data@[i].1).types,
        None => Seq::empty(),
    }
}

/// Finding an id past an unmatching prefix shifts the index.
proof fn lemma_find_id_skip(data: Seq<(u32, EntryData)>, id: u32, i: int)
    requires
        0 <= i <= data.len(),
        forall|j: int| 0 <= j < i ==> data[j].0 != id,
    ensures
        spec_find_id(data, id) == match spec_find_id(data.skip(i), id) {
            Some(k) => Some(k + i),
            None => None::<int>,
        },
    decreases i,
{
    if i == 0 {
        assert(data.skip(0) =~= data);
    } else {
        lemma_find_id_skip(data, id, i - 1);
        let s = data.skip(i - 1);
        assert(s[0] == data[i - 1]);
        assert(s.drop_first() =~= data.skip(i));
    }
}

impl DataLogReader {
    /// The reader's lists carry no duplicate keys or ids.
    pub open spec fn wf(&self) -> bool {
        keys_unique(self.keys@) && ids_unique(self.data@)
    }

    /// The file's format version, as `(major, minor)`.
    pub fn get_format_version(&self) -> (r: (u8, u8))
        ensures
            r == self.format_version,
    {
        self.format_version
    }

    /// The file's header metadata.
    pub fn get_header_metadata(&self) -> (r: &str)
        ensures
            r@ == self.header_metadata@,
    {
        self.header_metadata.as_str()
    }

    /// Every entry key in the log.
    pub fn get_all_entry_keys(&self) -> (r: Vec<String>)
        ensures
            r.deep_view() == self.keys@.map_values(|p: (String, u32)| p.0@),
    {
        let mut out: Vec<String> = Vec::new();
        let n = self.keys.len();
        let mut i: usize = 0;
        while i < n
            invariant
                i <= n,
                n == self.keys@.len(),
                out.deep_view() =~= self.keys@.take(i as int).map_values(|p: (String, u32)| p.0@),
            decreases n - i,
        {
            let ghost prev = out.deep_view();
            out.push(self.keys[i].0.clone());
            i = i + 1;
            proof {
                assert(out.deep_view() =~= prev.push(self.keys@[i - 1].0@));
                assert(out.deep_view() =~= self.keys@.take(i as int).map_values(
                    |p: (String, u32)| p.0@,
                ));
            }
        }
        proof {
            assert(self.keys@.take(n as int) =~= self.keys@);
        }
        out
    }

    /// The index of the entry a key names, if any.
    fn entry_index(&self, entry_key: &str) -> (r: Option<usize>)
        requires
            self.wf(),
        ensures
            match r {
                Some(i) => spec_entry_index(*self, entry_key@) == Some(i as int) && i
                    < self.data@.len(),
                None => spec_entry_index(*self, entry_key@) is None,
            },
    {
        let key_s = String::from_str(entry_key);
        let n = self.keys.len();
        let mut i: usize = 0;
        proof {
            lemma_key_view_props(self.keys@);
        }
        while i < n
            invariant
                i <= n,
                n == self.keys@.len(),
                key_s@ == entry_key@,
                self.wf(),
                forall|j: int| 0 <= j < i ==> self.keys@[j].0@ != entry_key@,
            decreases n - i,
        {
            if self.keys[i].0 == key_s {
                proof {
                    lemma_key_view_props(self.keys@);
                    assert(key_view(self.keys@).contains_key(entry_key@));
                    assert(key_view(self.keys@)[entry_key@] == self.keys@[i as int].1);
                }
                let id = self.keys[i].1;
                let r = find_id(&self.data, id);
                proof {
                    match r {
                        Some(k) => {
                            lemma_find_id_skip(self.data@, id, k as int);
                            assert(self.data@.skip(k as int)[0] == self.data@[k as int]);
                        },
                        None => {
                            lemma_find_id_skip(self.data@, id, self.data@.len() as int);
                            assert(self.data@.skip(self.data@.len() as int) =~= Seq::<(
                                u32,
                                EntryData,
                            )>::empty());
                        },
                    }
                }
                return r;
            }
            i = i + 1;
        }
        proof {
            lemma_key_view_props(self.keys@);
            if key_view(self.keys@).contains_key(entry_key@) {
                let j = choose|j: int|
                    0 <= j < self.keys@.len() && #[trigger] self.keys@[j].0@ == entry_key@;
                assert(false);
            }
        }
        None
    }

    /// The values of the entry with the given key; empty when no such
    /// entry exists.
    pub fn read_entry(&self, entry_key: &str) -> (r: Vec<TimestampedValue<LogValue>>)
        requires
            self.wf(),
        ensures
            tv_view_seq(r@) == spec_read_entry(*self, entry_key@),
    {
        match self.entry_index(entry_key) {
            Some(i) => dup_values(&self.data[i].1.values),
            None => {
                let r: Vec<TimestampedValue<LogValue>> = Vec::new();
                proof {
                    assert(tv_view_seq(r@) =~= Seq::<(u64, LogValueView)>::empty());
                }
                r
            },
        }
    }

    /// The values of the entry with the given key whose timestamp is
    /// strictly after `timestamp`; empty when no such entry exists.
    pub fn read_entry_after(&self, entry_key: &str, timestamp: u64) -> (r: Vec<
        TimestampedValue<LogValue>,
    >)
        requires
            self.wf(),
        ensures
            tv_view_seq(r@) == spec_read_entry(*self, entry_key@).filter(
                |p: (u64, LogValueView)| p.0 > timestamp,
            ),
    {
        let all = self.read_entry(entry_key);
        filter_values(all, Ghost(|p: (u64, LogValueView)| p.0 > timestamp), timestamp, 0)
    }

    /// The values of the entry with the given key whose timestamp is
    /// strictly before `timestamp`; empty when no such entry exists.
    pub fn read_entry_before(&self, entry_key: &str, timestamp: u64) -> (r: Vec<
        TimestampedValue<LogValue>,
    >)
        requires
            self.wf(),
        ensures
            tv_view_seq(r@) == spec_read_entry(*self, entry_key@).filter(
                |p: (u64, LogValueView)| p.0 < timestamp,
            ),
    {
        let all = self.read_entry(entry_key);
        filter_values(all, Ghost(|p: (u64, LogValueView)| p.0 < timestamp), timestamp, 1)
    }

    /// The values of the entry with the given key whose timestamp lies in
    /// the inclusive span from `start` to `end`; empty when no such entry
    /// exists.
    pub fn read_entry_between(&self, entry_key: &str, start: u64, end: u64) -> (r: Vec<
        TimestampedValue<LogValue>,
    >)
        requires
            self.wf(),
        ensures
            tv_view_seq(r@) == spec_read_entry(*self, entry_key@).filter(
                |p: (u64, LogValueView)| start <= p.0 <= end,
            ),
    {
        let all = self.read_entry(entry_key);
        let ghost pred = |p: (u64, LogValueView)| start <= p.0 <= end;
        let mut out: Vec<TimestampedValue<LogValue>> = Vec::new();
        let ghost full = tv_view_seq(all@);
        let n = all.len();
        let mut i: usize = 0;
        proof {
            reveal(Seq::filter);
            assert(full.take(0) =~= Seq::<(u64, LogValueView)>::empty());
            assert(tv_view_seq(out@) =~= full.take(0).filter(pred));
        }
        let mut rest = all;
        while i < n
            invariant
                i <= n,
                n == rest@.len(),
                full == tv_view_seq(rest@),
                tv_view_seq(out@) == full.take(i as int).filter(pred),
                pred == (|p: (u64, LogValueView)| start <= p.0 <= end),
            decreases n - i,
        {
            let keep = start <= rest[i].timestamp && rest[i].timestamp <= end;
            let ghost prev = tv_view_seq(out@);
            if keep {
                out.push(TimestampedValue::new(rest[i].timestamp, rest[i].value.duplicate()));
            }
            i = i + 1;
            proof {
                let pfx = full.take(i as int);
                assert(pfx.drop_last() =~= full.take(i - 1));
                assert(pfx.last() == full[i - 1]);
                reveal(Seq::filter);
                assert(full[i - 1] == (rest@[i - 1].timestamp, rest@[i - 1].value@));
                assert(pred(full[i - 1]) == keep);
                if keep {
                    assert(tv_view_seq(out@) =~= prev.push(full[i - 1]));
                }
                assert(tv_view_seq(out@) == pfx.filter(pred));
            }
        }
        proof {
            assert(full.take(n as int) =~= full);
        }
        out
    }

    /// The metadata timeline of the entry with the given key; empty when
    /// no such entry exists.
    pub fn read_entry_metadata(&self, entry_key: &str) -> (r: Vec<TimestampedValue<String>>)
        requires
            self.wf(),
        ensures
            tv_view_seq(r@) == spec_read_metadata(*self, entry_key@),
    {
        match self.entry_index(entry_key) {
            Some(i) => dup_strings(&self.data[i].1.metadata),
            None => {
                let r: Vec<TimestampedValue<String>> = Vec::new();
                proof {
                    assert(tv_view_seq(r@) =~= Seq::<(u64, Seq<char>)>::empty());
                }
                r
            },
        }
    }

    /// The type timeline of the entry with the given key; empty when no
    /// such entry exists.
    pub fn read_entry_type_str(&self, entry_key: &str) -> (r: Vec<TimestampedValue<String>>)
        requires
            self.wf(),
        ensures
            tv_view_seq(r@) == spec_read_types(*self, entry_key@),
    {
        match self.entry_index(entry_key) {
            Some(i) => dup_strings(&self.data[i].1.type_str),
            None => {
                let r: Vec<TimestampedValue<String>> = Vec::new();
                proof {
                    assert(tv_view_seq(r@) =~= Seq::<(u64, Seq<char>)>::empty());
                }
                r
            },
        }
    }

    /// A filter over the entry with the given key, when one exists.
    pub fn create_entry_filter<'log>(&'log self, entry_key: &str) -> (r: Option<
        EntryFilterReader<'log>,
    >)
        requires
            self.wf(),
        ensures
            match r {
                Some(f) => spec_entry_index(*self, entry_key@) matches Some(i) && f.data
                    == &self.data@[i].1 && f.before is None && f.after is None
                    && f.required_metadata is None && f.required_type is None,
                None => spec_entry_index(*self, entry_key@) is None,
            },
    {
        match self.entry_index(entry_key) {
            Some(i) => Some(EntryFilterReader::new(&self.data[i].1)),
            None => None,
        }
    }
}

/// Copies a value timeline.
fn dup_values(v: &Vec<TimestampedValue<LogValue>>) -> (r: Vec<TimestampedValue<LogValue>>)
    ensures
        tv_view_seq(r@) == tv_view_seq(v@),
{
    let mut out: Vec<TimestampedValue<LogValue>> = Vec::new();
    let n = v.len();
    let mut i: usize = 0;
    proof {
        assert(tv_view_seq(out@) =~= tv_view_seq(v@).take(0));
    }
    while i < n
        invariant
            i <= n,
            n == v@.len(),
            tv_view_seq(out@) == tv_view_seq(v@).take(i as int),
        decreases n - i,
    {
        let ghost prev = tv_view_seq(out@);
        out.push(TimestampedValue::new(v[i].timestamp, v[i].value.duplicate()));
        i = i + 1;
        proof {
            assert(tv_view_seq(out@) =~= prev.push(tv_view_seq(v@)[i - 1]));
            assert(tv_view_seq(out@) =~= tv_view_seq(v@).take(i as int));
        }
    }
    proof {
        assert(tv_view_seq(v@).take(n as int) =~= tv_view_seq(v@));
    }
    out
}

/// Copies a string timeline.
fn dup_strings(v: &Vec<TimestampedValue<String>>) -> (r: Vec<TimestampedValue<String>>)
    ensures
        tv_view_seq(r@) == tv_view_seq(v@),
{
    let mut out: Vec<TimestampedValue<String>> = Vec::new();
    let n = v.len();
    let mut i: usize = 0;
    proof {
        assert(tv_view_seq(out@) =~= tv_view_seq(v@).take(0));
    }
    while i < n
        invariant
            i <= n,
            n == v@.len(),
            tv_view_seq(out@) == tv_view_seq(v@).take(i as int),
        decreases n - i,
    {
        let ghost prev = tv_view_seq(out@);
        out.push(TimestampedValue::new(v[i].timestamp, v[i].value.clone()));
        i = i + 1;
        proof {
            assert(tv_view_seq(out@) =~= prev.push(tv_view_seq(v@)[i - 1]));
            assert(tv_view_seq(out@) =~= tv_view_seq(v@).take(i as int));
        }
    }
    proof {
        assert(tv_view_seq(v@).take(n as int) =~= tv_view_seq(v@));
    }
    out
}

/// Keeps the values matching a timestamp bound.  `mode` 0 keeps strictly
/// later timestamps, any other mode strictly earlier ones; `pred` is the
/// bound as a predicate.
fn filter_values(
    all: Vec<TimestampedValue<LogValue>>,
    pred: Ghost<spec_fn((u64, LogValueView)) -> bool>,
    timestamp: u64,
    mode: u8,
) -> (r: Vec<TimestampedValue<LogValue>>)
    requires
        mode == 0 ==> pred@ == (|p: (u64, LogValueView)| p.0 > timestamp),
        mode != 0 ==> pred@ == (|p: (u64, LogValueView)| p.0 < timestamp),
    ensures
        tv_view_seq(r@) == tv_view_seq(all@).filter(pred@),
{
    let mut out: Vec<TimestampedValue<LogValue>> = Vec::new();
    let ghost full = tv_view_seq(all@);
    let n = all.len();
    let mut i: usize = 0;
    proof {
        reveal(Seq::filter);
        assert(full.take(0) =~= Seq::<(u64, LogValueView)>::empty());
        assert(tv_view_seq(out@) =~= full.take(0).filter(pred@));
    }
    while i < n
        invariant
            i <= n,
            n == all@.len(),
            full == tv_view_seq(all@),
            tv_view_seq(out@) == full.take(i as int).filter(pred@),
            mode == 0 ==> pred@ == (|p: (u64, LogValueView)| p.0 > timestamp),
            mode != 0 ==> pred@ == (|p: (u64, LogValueView)| p.0 < timestamp),
        decreases n - i,
    {
        let keep = if mode == 0 {
            all[i].timestamp > timestamp
        } else {
            all[i].timestamp < timestamp
        };
        let ghost prev = tv_view_seq(out@);
        if keep {
            out.push(TimestampedValue::new(all[i].timestamp, all[i].value.duplicate()));
        }
        i = i + 1;
        proof {
            let pfx = full.take(i as int);
            assert(pfx.drop_last() =~= full.take(i - 1));
            assert(pfx.last() == full[i - 1]);
            assert(full[i - 1] == (all@[i - 1].timestamp, all@[i - 1].value@));
            reveal(Seq::filter);
            assert(pred@(full[i - 1]) == keep);
            assert(pfx.len() > 0);
            assert(prev == full.take(i - 1).filter(pred@));
            assert(pfx.drop_last().filter(pred@) == prev);
            if keep {
                assert(tv_view_seq(out@) =~= prev.push(full[i - 1]));
                assert(pfx.filter(pred@) == pfx.drop_last().filter(pred@).push(pfx.last()));
            } else {
                assert(pfx.filter(pred@) == pfx.drop_last().filter(pred@));
            }
            assert(tv_view_seq(out@) == pfx.filter(pred@));
        }
    }
    proof {
        assert(full.take(n as int) =~= full);
    }
    out
}

// ---------------------------------------------------------------------------
// The entry filter
// ---------------------------------------------------------------------------
/// The most recent timeline entry at or before `ts`, scanning from the
/// end.
pub open spec fn spec_at_timestamp(tl: Seq<(u64, Seq<char>)>, ts: u64) -> Option<Seq<char>>
    decreases tl.len(),
{
    if tl.len() == 0 {
        None
    } else if tl.last().0 <= ts {
        Some(tl.last().1)
    } else {
        spec_at_timestamp(tl.drop_last(), ts)
    }
}

/// A reader that filters one entry's values: by inclusive timestamp
/// bounds, and by the metadata or type string in force at each value's
/// timestamp.
pub struct EntryFilterReader<'a> {
    /// The entry read.
    pub data: &'a EntryData,
    /// Keep only values with timestamp at most this.
    pub before: Option<u64>,
    /// Keep only values with timestamp at least this.
    pub after: Option<u64>,
    /// Keep only values whose metadata in force equals this.
    pub required_metadata: Option<String>,
    /// Keep only values whose type string in force equals this.
    pub required_type: Option<String>,
}

/// Whether one timestamped value passes a filter.
pub open spec fn spec_filter_keeps(f: EntryFilterReader<'_>, p: (u64, LogValueView)) -> bool {
    &&& (f.before matches Some(b) ==> p.0 <= b)
    &&& (f.after matches Some(a) ==> p.0 >= a)
    &&& (f.required_metadata matches Some(m) ==> spec_at_timestamp(
        tv_view_seq(f.data.metadata@),
        p.0,
    ) == Some(m@))
    &&& (f.required_type matches Some(t) ==> spec_at_timestamp(
        tv_view_seq(f.data.type_str@),
        p.0,
    ) == Some(t@))
}

impl<'a> EntryFilterReader<'a> {
    /// A filter over `data` that keeps everything.
    fn new(data: &'a EntryData) -> (r: Self)
        ensures
            r.data == data,
            r.before is None,
            r.after is None,
            r.required_metadata is None,
            r.required_type is None,
    {
        EntryFilterReader {
            data,
            before: None,
            after: None,
            required_metadata: None,
            required_type: None,
        }
    }

    /// Keep only values with timestamp at most `timestamp`.
    pub fn before(&mut self, timestamp: u64)
        ensures
            *final(self) == (EntryFilterReader { before: Some(timestamp), ..*old(self) }),
    {
        self.before = Some(timestamp);
    }

    /// Keep only values with timestamp at least `timestamp`.
    pub fn after(&mut self, timestamp: u64)
        ensures
            *final(self) == (EntryFilterReader { after: Some(timestamp), ..*old(self) }),
    {
        self.after = Some(timestamp);
    }

    /// Keep only values whose metadata in force equals `metadata`.
    pub fn required_metadata(&mut self, metadata: String)
        ensures
            *final(self) == (EntryFilterReader {
                required_metadata: Some(metadata),
                ..*old(self)
            }),
    {
        self.required_metadata = Some(metadata);
    }

    /// Keep only values whose type string in force equals `type_str`.
    pub fn required_type(&mut self, type_str: String)
        ensures
            *final(self) == (EntryFilterReader { required_type: Some(type_str), ..*old(self) }),
    {
        self.required_type = Some(type_str);
    }

    /// The metadata in force at `timestamp`: the most recent metadata
    /// entry at or before it.
    fn get_metadata_at_timestamp(&self, timestamp: u64) -> (r: Option<&str>)
        ensures
            match r {
                Some(s) => spec_at_timestamp(tv_view_seq(self.data.metadata@), timestamp) == Some(
                    s@,
                ),
                None => spec_at_timestamp(tv_view_seq(self.data.metadata@), timestamp) is None,
            },
    {
        let mut i: usize = self.data.metadata.len();
        proof {
            assert(tv_view_seq(self.data.metadata@).take(i as int) =~= tv_view_seq(
                self.data.metadata@,
            ));
        }
        while i > 0
            invariant
                i <= self.data.metadata@.len(),
                spec_at_timestamp(tv_view_seq(self.data.metadata@), timestamp)
                    == spec_at_timestamp(
                    tv_view_seq(self.data.metadata@).take(i as int),
                    timestamp,
                ),
            decreases i,
        {
            let ghost pfx = tv_view_seq(self.data.metadata@).take(i as int);
            if self.data.metadata[i - 1].timestamp <= timestamp {
                proof {
                    assert(pfx.last() == tv_view_seq(self.data.metadata@)[i - 1]);
                }
                return Some(self.data.metadata[i - 1].value.as_str());
            }
            i = i - 1;
            proof {
                assert(pfx.drop_last() =~= tv_view_seq(self.data.metadata@).take(i as int));
            }
        }
        proof {
            assert(tv_view_seq(self.data.metadata@).take(0) =~= Seq::<(u64, Seq<char>)>::empty());
        }
        None
    }

    /// The type string in force at `timestamp`: the most recent type entry
    /// at or before it.
    fn get_type_at_timestamp(&self, timestamp: u64) -> (r: Option<&str>)
        ensures
            match r {
                Some(s) => spec_at_timestamp(tv_view_seq(self.data.type_str@), timestamp) == Some(
                    s@,
                ),
                None => spec_at_timestamp(tv_view_seq(self.data.type_str@), timestamp) is None,
            },
    {
        let mut i: usize = self.data.type_str.len();
        proof {
            assert(tv_view_seq(self.data.type_str@).take(i as int) =~= tv_view_seq(
                self.data.type_str@,
            ));
        }
        while i > 0
            invariant
                i <= self.data.type_str@.len(),
                spec_at_timestamp(tv_view_seq(self.data.type_str@), timestamp)
                    == spec_at_timestamp(
                    tv_view_seq(self.data.type_str@).take(i as int),
                    timestamp,
                ),
            decreases i,
        {
            let ghost pfx = tv_view_seq(self.data.type_str@).take(i as int);
            if self.data.type_str[i - 1].timestamp <= timestamp {
                proof {
                    assert(pfx.last() == tv_view_seq(self.data.type_str@)[i - 1]);
                }
                return Some(self.data.type_str[i - 1].value.as_str());
            }
            i = i - 1;
            proof {
                assert(pfx.drop_last() =~= tv_view_seq(self.data.type_str@).take(i as int));
            }
        }
        proof {
            assert(tv_view_seq(self.data.type_str@).take(0) =~= Seq::<(u64, Seq<char>)>::empty());
        }
        None
    }

    /// Every value of the entry that passes the filter, in timeline order.
    pub fn collect(&self) -> (r: Vec<TimestampedValue<LogValue>>)
        ensures
            tv_view_seq(r@) == tv_view_seq(self.data.values@).filter(
                |p: (u64, LogValueView)| spec_filter_keeps(*self, p),
            ),
    {
        let ghost pred = |p: (u64, LogValueView)| spec_filter_keeps(*self, p);
        let ghost full = tv_view_seq(self.data.values@);
        let mut out: Vec<TimestampedValue<LogValue>> = Vec::new();
        let n = self.data.values.len();
        let mut i: usize = 0;
        proof {
            reveal(Seq::filter);
            assert(full.take(0) =~= Seq::<(u64, LogValueView)>::empty());
            assert(tv_view_seq(out@) =~= full.take(0).filter(pred));
        }
        while i < n
            invariant
                i <= n,
                n == self.data.values@.len(),
                full == tv_view_seq(self.data.values@),
                pred == (|p: (u64, LogValueView)| spec_filter_keeps(*self, p)),
                tv_view_seq(out@) == full.take(i as int).filter(pred),
            decreases n - i,
        {
            let tv = &self.data.values[i];
            let ts = tv.timestamp;
            let mut keep = true;
            if let Some(before) = self.before {
                if ts > before {
                    keep = false;
                }
            }
            if let Some(after) = self.after {
                if ts < after {
                    keep = false;
                }
            }
            if keep {
                if let Some(required) = &self.required_metadata {
                    match self.get_metadata_at_timestamp(ts) {
                        Some(m) => {
                            let ms = String::from_str(m);
                            if !(ms == *required) {
                                keep = false;
                            }
                        },
                        None => {
                            keep = false;
                        },
                    }
                }
            }
            if keep {
                if let Some(required) = &self.required_type {
                    match self.get_type_at_timestamp(ts) {
                        Some(t) => {
                            let tstr = String::from_str(t);
                            if !(tstr == *required) {
                                keep = false;
                            }
                        },
                        None => {
                            keep = false;
                        },
                    }
                }
            }
            proof {
                assert(keep == spec_filter_keeps(*self, (ts, self.data.values@[i as int].value@)));
            }
            let ghost prev = tv_view_seq(out@);
            if keep {
                out.push(TimestampedValue::new(ts, self.data.values[i].value.duplicate()));
            }
            i = i + 1;
            proof {
                let pfx = full.take(i as int);
                assert(pfx.drop_last() =~= full.take(i - 1));
                assert(pfx.last() == full[i - 1]);
                reveal(Seq::filter);
                assert(full[i - 1] == (self.data.values@[i - 1].timestamp, self.data.values@[i
                    - 1].value@));
                assert(pred(full[i - 1]) == keep);
                if keep {
                    assert(tv_view_seq(out@) =~= prev.push(full[i - 1]));
                }
                assert(tv_view_seq(out@) == pfx.filter(pred));
            }
        }
        proof {
            assert(full.take(n as int) =~= full);
        }
        out
    }
}


// ---------------------------------------------------------------------------
// The structify post-pass
// ---------------------------------------------------------------------------
/// How one value may change under the structify pass: it keeps its
/// timestamp and is either untouched, or was raw and became a structure
/// wrapping the same bytes with count 1, typed by the type string in force
/// at its timestamp.
pub open spec fn spec_structified_value(
    oldv: (u64, LogValueView),
    newv: (u64, LogValueView),
    types: Seq<(u64, Seq<char>)>,
) -> bool {
    &&& newv.0 == oldv.0
    &&& (newv.1 == oldv.1 || (oldv.1 matches LogValueView::Raw(d)
        && newv.1 matches LogValueView::Struct(sb) && sb.count == 1 && sb.data == d && Some(
        sb.type_str,
    ) == spec_at_timestamp(types, oldv.0)))
}

/// The type string in force at `ts` in a timeline, as an owned string.
fn type_at(tl: &Vec<TimestampedValue<String>>, ts: u64) -> (r: Option<String>)
    ensures
        match r {
            Some(s) => spec_at_timestamp(tv_view_seq(tl@), ts) == Some(s@),
            None => spec_at_timestamp(tv_view_seq(tl@), ts) is None,
        },
{
    let mut i: usize = tl.len();
    proof {
        assert(tv_view_seq(tl@).take(i as int) =~= tv_view_seq(tl@));
    }
    while i > 0
        invariant
            i <= tl@.len(),
            spec_at_timestamp(tv_view_seq(tl@), ts) == spec_at_timestamp(
                tv_view_seq(tl@).take(i as int),
                ts,
            ),
        decreases i,
    {
        let ghost pfx = tv_view_seq(tl@).take(i as int);
        if tl[i - 1].timestamp <= ts {
            proof {
                assert(pfx.last() == tv_view_seq(tl@)[i - 1]);
            }
            return Some(tl[i - 1].value.clone());
        }
        i = i - 1;
        proof {
            assert(pfx.drop_last() =~= tv_view_seq(tl@).take(i as int));
        }
    }
    proof {
        assert(tv_view_seq(tl@).take(0) =~= Seq::<(u64, Seq<char>)>::empty());
    }
    None
}

impl DataLogReader {
    /// Walks every entry's values and, for each raw value whose type
    /// string in force is registered in the struct-descriptor registry,
    /// wraps the raw bytes into a structure value with count 1.  Nothing
    /// else changes; whether a given type string is registered depends on
    /// the process-wide registry, so each raw value is promised only to
    /// stay raw or become the matching structure.
    pub fn structify_all_data(&mut self)
        ensures
            final(self).keys@ == old(self).keys@,
            final(self).format_version == old(self).format_version,
            final(self).header_metadata == old(self).header_metadata,
            final(self).config == old(self).config,
            final(self).data@.len() == old(self).data@.len(),
            forall|i: int|
                0 <= i < old(self).data@.len() ==> {
                    let e0 = old(self).data@[i].1;
                    let e1 = (#[trigger] final(self).data@[i]).1;
                    &&& final(self).data@[i].0 == old(self).data@[i].0
                    &&& e1.lifestatus == e0.lifestatus
                    &&& e1.current_type == e0.current_type
                    &&& e1.metadata@ == e0.metadata@
                    &&& e1.type_str@ == e0.type_str@
                    &&& e1.values@.len() == e0.values@.len()
                    &&& forall|j: int|
                        0 <= j < e0.values@.len() ==> spec_structified_value(
                            tv_view_seq(e0.values@)[j],
                            #[trigger] tv_view_seq(e1.values@)[j],
                            tv_view_seq(e0.type_str@),
                        )
                },
    {
        let ghost snap = self.data@;
        let n_entries = self.data.len();
        let mut i: usize = 0;
        while i < n_entries
            invariant
                n_entries == snap.len(),
                self.data@.len() == snap.len(),
                self.keys@ == old(self).keys@,
                self.format_version == old(self).format_version,
                self.header_metadata == old(self).header_metadata,
                self.config == old(self).config,
                snap == old(self).data@,
                forall|k: int| i <= k < snap.len() ==> self.data@[k] == snap[k],
                forall|k: int|
                    0 <= k < i ==> {
                        let e0 = snap[k].1;
                        let e1 = (#[trigger] self.data@[k]).1;
                        &&& self.data@[k].0 == snap[k].0
                        &&& e1.lifestatus == e0.lifestatus
                        &&& e1.current_type == e0.current_type
                        &&& e1.metadata@ == e0.metadata@
                        &&& e1.type_str@ == e0.type_str@
                        &&& e1.values@.len() == e0.values@.len()
                        &&& forall|j: int|
                            0 <= j < e0.values@.len() ==> spec_structified_value(
                                tv_view_seq(e0.values@)[j],
                                #[trigger] tv_view_seq(e1.values@)[j],
                                tv_view_seq(e0.type_str@),
                            )
                    },
            decreases n_entries - i,
        {
            let n_values = self.data[i].1.values.len();
            let mut j: usize = 0;
            while j < n_values
                invariant
                    i < snap.len(),
                    n_entries == snap.len(),
                    self.data@.len() == snap.len(),
                    self.keys@ == old(self).keys@,
                    self.format_version == old(self).format_version,
                    self.header_metadata == old(self).header_metadata,
                    self.config == old(self).config,
                    snap == old(self).data@,
                    forall|k: int| i < k < snap.len() ==> self.data@[k] == snap[k],
                    forall|k: int|
                        0 <= k < i ==> {
                            let e0 = snap[k].1;
                            let e1 = (#[trigger] self.data@[k]).1;
                            &&& self.data@[k].0 == snap[k].0
                            &&& e1.lifestatus == e0.lifestatus
                            &&& e1.current_type == e0.current_type
                            &&& e1.metadata@ == e0.metadata@
                            &&& e1.type_str@ == e0.type_str@
                            &&& e1.values@.len() == e0.values@.len()
                            &&& forall|l: int|
                                0 <= l < e0.values@.len() ==> spec_structified_value(
                                    tv_view_seq(e0.values@)[l],
                                    #[trigger] tv_view_seq(e1.values@)[l],
                                    tv_view_seq(e0.type_str@),
                                )
                        },
                    n_values == snap[i as int].1.values@.len(),
                    self.data@[i as int].0 == snap[i as int].0,
                    self.data@[i as int].1.lifestatus == snap[i as int].1.lifestatus,
                    self.data@[i as int].1.current_type == snap[i as int].1.current_type,
                    self.data@[i as int].1.metadata@ == snap[i as int].1.metadata@,
                    self.data@[i as int].1.type_str@ == snap[i as int].1.type_str@,
                    self.data@[i as int].1.values@.len() == n_values,
                    forall|l: int|
                        j <= l < n_values ==> #[trigger] self.data@[i as int].1.values@[l]
                            == snap[i as int].1.values@[l],
                    forall|l: int|
                        0 <= l < j ==> spec_structified_value(
                            tv_view_seq(snap[i as int].1.values@)[l],
                            #[trigger] tv_view_seq(self.data@[i as int].1.values@)[l],
                            tv_view_seq(snap[i as int].1.type_str@),
                        ),
                decreases n_values - j,
            {
                let ghost pre_vals = self.data@[i as int].1.values@;
                let ts = self.data[i].1.values[j].timestamp;
                let is_raw = match &self.data[i].1.values[j].value {
                    LogValue::Raw(_) => true,
                    _ => false,
                };
                if is_raw {
                    if let Some(tn) = type_at(&self.data[i].1.type_str, ts) {
                        if let Some(desc) = crate::trusted::struct_desc_lookup(tn.as_str()) {
                            let mut cur = LogValue::Void;
                            core::mem::swap(&mut self.data[i].1.values[j].value, &mut cur);
                            match cur {
                                LogValue::Raw(d) => {
                                    let mut nv = LogValue::Struct(
                                        crate::value::StructBytes {
                                            type_str: desc.0,
                                            size: desc.1,
                                            count: 1,
                                            data: d,
                                        },
                                    );
                                    core::mem::swap(
                                        &mut self.data[i].1.values[j].value,
                                        &mut nv,
                                    );
                                    proof {
                                        let vals = self.data@[i as int].1.values@;
                                        assert(forall|l: int|
                                            0 <= l < vals.len() && l != j ==> vals[l]
                                                == pre_vals[l]);
                                        assert(vals[j as int].timestamp == pre_vals[
                                            j as int].timestamp);
                                        assert(spec_structified_value(
                                            tv_view_seq(snap[i as int].1.values@)[j as int],
                                            tv_view_seq(vals)[j as int],
                                            tv_view_seq(snap[i as int].1.type_str@),
                                        ));
                                    }
                                },
                                other => {
                                    proof {
                                        assert(false);
                                    }
                                    let mut o = other;
                                    core::mem::swap(
                                        &mut self.data[i].1.values[j].value,
                                        &mut o,
                                    );
                                },
                            }
                        }
                    }
                }
                j = j + 1;
                proof {
                    assert forall|l: int| 0 <= l < j implies spec_structified_value(
                        tv_view_seq(snap[i as int].1.values@)[l],
                        #[trigger] tv_view_seq(self.data@[i as int].1.values@)[l],
                        tv_view_seq(snap[i as int].1.type_str@),
                    ) by {
                        let vals = self.data@[i as int].1.values@;
                        let svals = snap[i as int].1.values@;
                        assert(tv_view_seq(vals)[l] == (vals[l].timestamp, vals[l].value@));
                        assert(tv_view_seq(svals)[l] == (svals[l].timestamp, svals[l].value@));
                        assert(tv_view_seq(pre_vals)[l] == (
                            pre_vals[l].timestamp,
                            pre_vals[l].value@,
                        ));
                        if l < j - 1 {
                            assert(vals[l] == pre_vals[l]);
                        }
                    }
                }
            }
            i = i + 1;
        }
    }
}

} // verus!



