//! The append-only writer: entry-id allocation, lifecycle transitions,
//! type-consistency enforcement, and the bytes that go out for each call.
//!
//! The writer appends encoded bytes to an in-memory output; the surrounding
//! program owns the file and hands these bytes on.  `datalog_id` tags every
//! handle the writer issues, so a handle from another writer is detected.
use vstd::prelude::*;

use vstd::string::StringExecFns;
use vstd::utf8::encode_utf8;

use crate::error::DataLogError;
use crate::proto::entries::{
    get_data_type, get_data_type_serial, spec_value_type_name, spec_value_type_serial,
    spec_type_serial, EntryLifeStatus, RAW_TYPE_SERIAL, BOOLEAN_TYPE_SERIAL, INT_TYPE_SERIAL,
    FLOAT_TYPE_SERIAL, DOUBLE_TYPE_SERIAL, STRING_TYPE_SERIAL, BOOLEAN_ARRAY_TYPE_SERIAL,
    INT_ARRAY_TYPE_SERIAL, FLOAT_ARRAY_TYPE_SERIAL, DOUBLE_ARRAY_TYPE_SERIAL,
    STRING_ARRAY_TYPE_SERIAL,
};
use crate::proto::records::{
    push_le_bytes, spec_control_payload, spec_control_strings_fit, spec_data_payload,
    spec_record_bytes, ControlRecord, ControlRecordView, DataRecord, RecordView,
};
use crate::proto::util::le_bytes;
use crate::trusted::now;
use crate::value::{data_of_lv, LogValue, LogValueView, ValueType};
use crate::TimestampedValue;

verus! {

/// A handle naming an entry of one particular writer.
#[derive(Debug, Clone, Copy, PartialEq, Eq, Structural)]
pub struct EntryId {
    /// The id of the writer that issued this handle.
    pub datalog_id: u32,
    /// The entry's id within that writer (and on disk).
    pub entry_id: u32,
}

/// A handle naming an entry whose value type was fixed when it was created,
/// so writes through it skip the type check.
#[derive(Debug, Clone, Copy, PartialEq, Eq, Structural)]
pub struct TypedEntryId {
    /// The id of the writer that issued this handle.
    pub datalog_id: u32,
    /// The entry's id within that writer (and on disk).
    pub entry_id: u32,
}

impl EntryId {
    /// Builds a handle from its parts.
    pub fn new(datalog_id: u32, entry_id: u32) -> (r: Self)
        ensures
            r.datalog_id == datalog_id,
            r.entry_id == entry_id,
    {
        Self { datalog_id, entry_id }
    }

    /// The typed handle naming the same entry.
    pub fn typed(self) -> (r: TypedEntryId)
        ensures
            r.datalog_id == self.datalog_id,
            r.entry_id == self.entry_id,
    {
        TypedEntryId { datalog_id: self.datalog_id, entry_id: self.entry_id }
    }
}

impl TypedEntryId {
    /// The untyped handle naming the same entry.
    pub fn untyped(self) -> (r: EntryId)
        ensures
            r.datalog_id == self.datalog_id,
            r.entry_id == self.entry_id,
    {
        EntryId { datalog_id: self.datalog_id, entry_id: self.entry_id }
    }
}

/// One entry of the writer's table.
#[derive(Debug)]
pub struct EntryData {
    /// The entry's key.
    pub key: String,
    /// The entry's type string.
    pub entry_type: String,
    /// The fingerprint of the type the entry was created with.
    pub prehashed_type: u32,
    /// Whether the entry is alive or closed.
    pub lifestatus: EntryLifeStatus,
}

/// The bytes of the file header: the magic tag, version `[0, 1]`, the
/// metadata byte length as a 4-byte little-endian field, and the metadata.
pub open spec fn spec_file_header(metadata: Seq<char>) -> Seq<u8> {
    encode_utf8("WPILOG"@) + seq![0u8, 1u8] + le_bytes(encode_utf8(metadata).len(), 4)
        + encode_utf8(metadata)
}

/// The first index whose entry carries `key`, scanning in creation order.
pub open spec fn spec_find_key(entries: Seq<EntryData>, key: Seq<char>) -> Option<int>
    decreases entries.len(),
{
    if entries.len() == 0 {
        None
    } else if entries[0].key@ == key {
        Some(0int)
    } else {
        match spec_find_key(entries.drop_first(), key) {
            Some(i) => Some(i + 1),
            None => None,
        }
    }
}

/// Finding a key past an unmatching prefix shifts the index.
proof fn lemma_find_key_skip(entries: Seq<EntryData>, key: Seq<char>, i: int)
    requires
        0 <= i <= entries.len(),
        forall|j: int| 0 <= j < i ==> entries[j].key@ != key,
    ensures
        spec_find_key(entries, key) == match spec_find_key(entries.skip(i), key) {
            Some(k) => Some(k + i),
            None => None::<int>,
        },
    decreases i,
{
    if i == 0 {
        assert(entries.skip(0) =~= entries);
    } else {
        lemma_find_key_skip(entries, key, i - 1);
        let s = entries.skip(i - 1);
        assert(s[0] == entries[i - 1]);
        assert(s.drop_first() =~= entries.skip(i));
    }
}

/// The metadata string an entry is created with: the given one, or empty.
pub open spec fn meta_view(metadata: Option<String>) -> Seq<char> {
    match metadata {
        Some(m) => m@,
        None => Seq::<char>::empty(),
    }
}

/// The record a `Start` control write emits.
pub open spec fn start_record_view(
    key: Seq<char>,
    tname: Seq<char>,
    meta: Seq<char>,
    id: u32,
    t: u64,
) -> RecordView {
    RecordView::Control(ControlRecordView::Start(key, tname, meta), t, id)
}

/// The fingerprint a log value's own type compares under.
pub open spec fn spec_lv_serial(v: LogValueView) -> u32 {
    match v {
        LogValueView::Raw(_) => RAW_TYPE_SERIAL,
        LogValueView::Boolean(_) => BOOLEAN_TYPE_SERIAL,
        LogValueView::Int(_) => INT_TYPE_SERIAL,
        LogValueView::Float(_) => FLOAT_TYPE_SERIAL,
        LogValueView::Double(_) => DOUBLE_TYPE_SERIAL,
        LogValueView::Str(_) => STRING_TYPE_SERIAL,
        LogValueView::BooleanArray(_) => BOOLEAN_ARRAY_TYPE_SERIAL,
        LogValueView::IntArray(_) => INT_ARRAY_TYPE_SERIAL,
        LogValueView::FloatArray(_) => FLOAT_ARRAY_TYPE_SERIAL,
        LogValueView::DoubleArray(_) => DOUBLE_ARRAY_TYPE_SERIAL,
        LogValueView::StringArray(_) => STRING_ARRAY_TYPE_SERIAL,
        LogValueView::Struct(sb) => if spec_type_serial(sb.type_str) == 0 {
            u32::MAX
        } else {
            spec_type_serial(sb.type_str)
        },
        LogValueView::StructArray(sb) => if spec_type_serial(sb.type_str) == 0 {
            u32::MAX
        } else {
            spec_type_serial(sb.type_str)
        },
        LogValueView::Void => u32::MAX,
    }
}

/// An all-in-one writer for a data log.
///
/// Encoded bytes accumulate in `out`, append-only; the surrounding program
/// drains them to its output.  The entry table, the key bindings and the
/// monotone id counter live in `entry_data` and `highest_entry_id`.
#[derive(Debug)]
pub struct DataLogWriter {
    /// Every byte emitted since creation, in order.
    pub out: Vec<u8>,
    /// The entry table; the entry with id `i` sits at index `i - 1`.
    pub entry_data: Vec<EntryData>,
    /// The count of ids allocated so far; the next entry gets one more.
    pub highest_entry_id: u32,
    /// This writer's own id, stamped into every handle it issues.
    pub datalog_id: u32,
}

/// What every write path guarantees, for the timestamp `ts` the value was
/// written at: a void value is a no-op; a handle from another writer fails
/// with `InvalidDataLog`; an unknown entry fails with `NoSuchEntry`; a
/// closed entry fails with `OutsideEntryLifetime`; a checked write of a
/// value whose type fingerprint differs fails with `EntryTypeMismatch`; and
/// otherwise exactly the framed data record goes out.  No failure advances
/// the output, and no write path ever touches the entry table.
///
/// A value whose payload encodes to zero bytes (empty raw bytes, an empty
/// array, the empty string) is framed and written all the same; the
/// decoder drops zero-length payloads, so such a record never reaches a
/// reader's timeline.
pub open spec fn spec_write_post(
    pre: DataLogWriter,
    post: DataLogWriter,
    id: EntryId,
    v: LogValue,
    ts: u64,
    check_type: bool,
    r: Result<(), DataLogError>,
) -> bool {
    let entries = pre.entry_data@;
    &&& post.entry_data@ == entries
    &&& post.highest_entry_id == pre.highest_entry_id
    &&& post.datalog_id == pre.datalog_id
    &&& if v@ is Void {
        r is Ok && post.out@ == pre.out@
    } else if id.datalog_id != pre.datalog_id {
        r == Err::<(), DataLogError>(DataLogError::InvalidDataLog) && post.out@ == pre.out@
    } else if id.entry_id < 1 || id.entry_id > entries.len() {
        r == Err::<(), DataLogError>(DataLogError::NoSuchEntry) && post.out@ == pre.out@
    } else if entries[id.entry_id - 1].lifestatus is Dead {
        r == Err::<(), DataLogError>(DataLogError::OutsideEntryLifetime) && post.out@ == pre.out@
    } else if check_type && entries[id.entry_id - 1].prehashed_type != spec_lv_serial(v@) {
        r == Err::<(), DataLogError>(DataLogError::EntryTypeMismatch) && post.out@ == pre.out@
    } else {
        let dv = data_of_lv(v@);
        if spec_data_payload(dv).len() <= u32::MAX {
            r is Ok && post.out@ == pre.out@ + spec_record_bytes(
                RecordView::Data(dv, ts, id.entry_id),
            )
        } else {
            r == Err::<(), DataLogError>(DataLogError::RecordTooLarge) && post.out@ == pre.out@
        }
    }
}

/// What a fresh entry looks like after `get_entry_dynamic` created it at
/// time `t`: the table grows by one entry carrying the key, the type string
/// and the type fingerprint, alive since `t`; when `wrote` holds, the
/// `Start` control record for it went out.
pub open spec fn spec_new_entry_post(
    pre: DataLogWriter,
    post: DataLogWriter,
    key: Seq<char>,
    ty: ValueType,
    meta: Seq<char>,
    t: u64,
    wrote: bool,
) -> bool {
    let id = (pre.entry_data@.len() + 1) as u32;
    &&& post.datalog_id == pre.datalog_id
    &&& post.highest_entry_id == pre.highest_entry_id + 1
    &&& post.entry_data@.len() == pre.entry_data@.len() + 1
    &&& post.entry_data@.take(pre.entry_data@.len() as int) == pre.entry_data@
    &&& post.entry_data@.last().key@ == key
    &&& Some(post.entry_data@.last().entry_type@) == spec_value_type_name(ty)
    &&& post.entry_data@.last().prehashed_type == spec_value_type_serial(ty)
    &&& post.entry_data@.last().lifestatus == (EntryLifeStatus::Alive { start: t })
    &&& (wrote ==> post.out@ == pre.out@ + spec_record_bytes(
        start_record_view(key, spec_value_type_name(ty)->0, meta, id, t),
    ))
    &&& (!wrote ==> post.out@ == pre.out@)
}

/// What `get_entry_dynamic` (and `get_entry`) guarantees, with the checks
/// in their order: a void type fails with `RecordType`; an existing key
/// fails with `EntryTypeMismatch` when the requested type's fingerprint
/// differs, then with `OutsideEntryLifetime` when the entry is closed, and
/// otherwise returns its handle with nothing changed; a fresh key grows
/// the table by one entry alive at some time `t`, then fails with
/// `MetadataTooLarge`, `IntCast` or `RecordTooLarge` exactly when the
/// metadata, one of the `Start` strings, or the whole `Start` payload
/// does not fit its length field — emitting nothing — and otherwise emits
/// the `Start` record and returns the new handle.
pub open spec fn spec_get_entry_post(
    pre: DataLogWriter,
    post: DataLogWriter,
    key: Seq<char>,
    ty: ValueType,
    meta: Seq<char>,
    r: Result<EntryId, DataLogError>,
) -> bool {
    let found = spec_find_key(pre.entry_data@, key);
    let start_body = ControlRecordView::Start(key, spec_value_type_name(ty)->0, meta);
    &&& post.wf()
    &&& post.datalog_id == pre.datalog_id
    &&& match r {
        Ok(handle) => {
            &&& handle.datalog_id == pre.datalog_id
            &&& !(ty is Void)
            &&& match found {
                Some(i) => post == pre && handle.entry_id == i + 1
                    && pre.entry_data@[i].prehashed_type == spec_value_type_serial(ty)
                    && pre.entry_data@[i].lifestatus is Alive,
                None => handle.entry_id == pre.entry_data@.len() + 1 && encode_utf8(meta).len()
                    <= u32::MAX && exists|t: u64|
                    #[trigger] spec_new_entry_post(pre, post, key, ty, meta, t, true),
            }
        },
        Err(e) => {
            &&& (e == DataLogError::RecordType("Cannot create a void entry") <==> ty is Void)
            &&& (ty is Void ==> post == pre)
            &&& (e == DataLogError::EntryTypeMismatch <==> !(ty is Void) && (found matches Some(i)
                && pre.entry_data@[i].prehashed_type != spec_value_type_serial(ty)))
            &&& (e == DataLogError::EntryTypeMismatch ==> post == pre)
            &&& (e == DataLogError::OutsideEntryLifetime <==> !(ty is Void) && (
            found matches Some(i) && pre.entry_data@[i].prehashed_type == spec_value_type_serial(
                ty,
            ) && pre.entry_data@[i].lifestatus is Dead))
            &&& (e == DataLogError::OutsideEntryLifetime ==> post == pre)
            &&& (e == DataLogError::MetadataTooLarge <==> !(ty is Void) && found is None
                && encode_utf8(meta).len() > u32::MAX)
            &&& (e == DataLogError::IntCast <==> !(ty is Void) && found is None && encode_utf8(
                meta,
            ).len() <= u32::MAX && !spec_control_strings_fit(start_body))
            &&& (e == DataLogError::RecordTooLarge <==> !(ty is Void) && found is None
                && encode_utf8(meta).len() <= u32::MAX && spec_control_strings_fit(start_body)
                && spec_control_payload(start_body, (pre.entry_data@.len() + 1) as u32).len()
                > u32::MAX)
            &&& ((e == DataLogError::MetadataTooLarge || e == DataLogError::IntCast
                || e == DataLogError::RecordTooLarge) ==> exists|t: u64|
                #[trigger] spec_new_entry_post(pre, post, key, ty, meta, t, false))
            &&& (e == DataLogError::RecordType("Cannot create a void entry")
                || e == DataLogError::EntryTypeMismatch || e == DataLogError::OutsideEntryLifetime
                || e == DataLogError::MetadataTooLarge || e == DataLogError::IntCast
                || e == DataLogError::RecordTooLarge)
        },
    }
}

impl DataLogWriter {
    /// The id counter equals the table length, and the table fits 32-bit
    /// entry ids.
    pub open spec fn wf(&self) -> bool {
        &&& self.highest_entry_id == self.entry_data@.len()
        &&& self.entry_data@.len() <= u32::MAX
    }

    /// Opens a writer with the given writer id and header metadata: the
    /// file header goes out at once.  Fails with `MetadataTooLarge`
    /// exactly when the metadata does not fit its 4-byte length field.
    ///
    /// Handing each writer of the process a distinct `datalog_id` is what
    /// makes cross-writer handle misuse detectable; the id only tags
    /// handles and never reaches the file.
    pub fn new(datalog_id: u32, metadata: &str) -> (r: Result<Self, DataLogError>)
        ensures
            match r {
                Ok(w) => encode_utf8(metadata@).len() <= u32::MAX && w.out@ == spec_file_header(
                    metadata@,
                ) && w.entry_data@.len() == 0 && w.datalog_id == datalog_id && w.wf(),
                Err(e) => e == DataLogError::MetadataTooLarge && encode_utf8(metadata@).len()
                    > u32::MAX,
            },
    {
        let mb = metadata.as_bytes();
        if mb.len() as u64 > 0xFFFF_FFFFu64 {
            return Err(DataLogError::MetadataTooLarge);
        }
        let mut out: Vec<u8> = Vec::new();
        let magic = "WPILOG";
        out.extend_from_slice(magic.as_bytes());
        out.push(0u8);
        out.push(1u8);
        let ghost with_version = out@;
        proof {
            assert(with_version =~= encode_utf8("WPILOG"@) + seq![0u8, 1u8]);
        }
        push_le_bytes(&mut out, mb.len() as u64, 4);
        out.extend_from_slice(mb);
        proof {
            assert(out@ =~= spec_file_header(metadata@));
        }
        Ok(
            Self {
                out,
                entry_data: Vec::new(),
                highest_entry_id: 0,
                datalog_id,
            },
        )
    }

    /// The first index bound to `key`, if any.
    fn find_entry(&self, key: &str) -> (r: Option<usize>)
        ensures
            match r {
                Some(i) => spec_find_key(self.entry_data@, key@) == Some(i as int) && i
                    < self.entry_data@.len(),
                None => spec_find_key(self.entry_data@, key@) is None,
            },
    {
        let key_s = String::from_str(key);
        let n = self.entry_data.len();
        let mut i: usize = 0;
        while i < n
            invariant
                i <= n,
                n == self.entry_data@.len(),
                key_s@ == key@,
                forall|j: int| 0 <= j < i ==> self.entry_data@[j].key@ != key@,
            decreases n - i,
        {
            if self.entry_data[i].key == key_s {
                proof {
                    lemma_find_key_skip(self.entry_data@, key@, i as int);
                    assert(self.entry_data@.skip(i as int)[0] == self.entry_data@[i as int]);
                }
                return Some(i);
            }
            i = i + 1;
        }
        proof {
            lemma_find_key_skip(self.entry_data@, key@, n as int);
            assert(self.entry_data@.skip(n as int) =~= Seq::<EntryData>::empty());
        }
        None
    }

    /// Gets the handle for `key`, creating the entry if it does not exist.
    ///
    /// A void type is rejected with `RecordType`.  An existing key returns
    /// its handle unchanged, failing with `EntryTypeMismatch` when the
    /// requested type's fingerprint differs and with `OutsideEntryLifetime`
    /// when the entry is closed.  A new key allocates the next entry id,
    /// marks it alive at the current time, and emits its `Start` control
    /// record; `MetadataTooLarge` (and the record codec's own size errors)
    /// can then still fail the call after the table has grown, emitting
    /// nothing.
    #[verifier::spinoff_prover]
    #[verifier::rlimit(60)]
    pub fn get_entry_dynamic(
        &mut self,
        key: &str,
        entry_type: &ValueType,
        metadata: Option<String>,
    ) -> (r: Result<EntryId, DataLogError>)
        requires
            old(self).wf(),
            old(self).entry_data@.len() < u32::MAX,
        ensures
            spec_get_entry_post(
                *old(self),
                *final(self),
                key@,
                *entry_type,
                meta_view(metadata),
                r,
            ),
    {
        if let ValueType::Void = entry_type {
            return Err(DataLogError::RecordType("Cannot create a void entry"));
        }
        let serial = get_data_type_serial(entry_type);
        if let Some(i) = self.find_entry(key) {
            let data = &self.entry_data[i];
            if data.prehashed_type != serial {
                return Err(DataLogError::EntryTypeMismatch);
            }
            if let EntryLifeStatus::Dead { .. } = data.lifestatus {
                return Err(DataLogError::OutsideEntryLifetime);
            }
            return Ok(EntryId { datalog_id: self.datalog_id, entry_id: (i as u32) + 1 });
        }
        let id = self.highest_entry_id + 1;
        let tname = match get_data_type(entry_type) {
            Some(n) => n,
            None => {
                return Err(DataLogError::RecordType("Cannot create a void entry"));
            },
        };
        let t = now();
        let ghost meta = meta_view(metadata);
        let key_s = String::from_str(key);
        self.entry_data.push(
            EntryData {
                key: key_s,
                entry_type: tname.clone(),
                prehashed_type: serial,
                lifestatus: EntryLifeStatus::Alive { start: t },
            },
        );
        self.highest_entry_id = self.highest_entry_id + 1;
        proof {
            assert(self.entry_data@.take(old(self).entry_data@.len() as int) =~= old(
                self,
            ).entry_data@);
        }
        let meta_s = match metadata {
            Some(m) => {
                let mb = m.as_str().as_bytes();
                if mb.len() as u64 > 0xFFFF_FFFFu64 {
                    proof {
                        assert(spec_new_entry_post(
                            *old(self),
                            *self,
                            key@,
                            *entry_type,
                            meta,
                            t,
                            false,
                        ));
                    }
                    return Err(DataLogError::MetadataTooLarge);
                }
                m
            },
            None => String::new(),
        };
        let record = ControlRecord::Start(String::from_str(key), tname, meta_s);
        match record.write_to(t, id, &mut self.out) {
            Ok(_) => {
                proof {
                    assert(spec_new_entry_post(
                        *old(self),
                        *self,
                        key@,
                        *entry_type,
                        meta,
                        t,
                        true,
                    ));
                }
                Ok(EntryId { datalog_id: self.datalog_id, entry_id: id })
            },
            Err(e) => {
                proof {
                    assert(spec_new_entry_post(
                        *old(self),
                        *self,
                        key@,
                        *entry_type,
                        meta,
                        t,
                        false,
                    ));
                }
                Err(e)
            },
        }
    }

    /// Gets a typed handle for `key`, creating the entry if it does not
    /// exist, under the same contract as `get_entry_dynamic`.
    #[verifier::spinoff_prover]
    #[verifier::rlimit(60)]
    pub fn get_entry(&mut self, key: &str, entry_type: &ValueType, metadata: Option<String>) -> (r:
        Result<TypedEntryId, DataLogError>)
        requires
            old(self).wf(),
            old(self).entry_data@.len() < u32::MAX,
        ensures
            spec_get_entry_post(
                *old(self),
                *final(self),
                key@,
                *entry_type,
                meta_view(metadata),
                match r {
                    Ok(h) => Ok(EntryId { datalog_id: h.datalog_id, entry_id: h.entry_id }),
                    Err(e) => Err::<EntryId, DataLogError>(e),
                },
            ),
    {
        match self.get_entry_dynamic(key, entry_type, metadata) {
            Ok(id) => Ok(id.typed()),
            Err(e) => Err(e),
        }
    }

    /// The write path shared by every public write: checks, then one framed
    /// data record out.
    fn inner_write(&mut self, id: EntryId, tv: TimestampedValue<LogValue>, check_type: bool) -> (r:
        Result<(), DataLogError>)
        requires
            old(self).wf(),
        ensures
            final(self).wf(),
            spec_write_post(*old(self), *final(self), id, tv.value, tv.timestamp, check_type, r),
    {
        if let LogValue::Void = &tv.value {
            return Ok(());
        }
        if id.datalog_id != self.datalog_id {
            return Err(DataLogError::InvalidDataLog);
        }
        if id.entry_id < 1 || id.entry_id as usize > self.entry_data.len() {
            return Err(DataLogError::NoSuchEntry);
        }
        let data = &self.entry_data[(id.entry_id - 1) as usize];
        if let EntryLifeStatus::Dead { .. } = data.lifestatus {
            return Err(DataLogError::OutsideEntryLifetime);
        }
        if check_type {
            let vty = tv.value.get_type();
            let serial = get_data_type_serial(&vty);
            proof {
                assert(serial == spec_lv_serial(tv.value@));
            }
            if data.prehashed_type != serial {
                return Err(DataLogError::EntryTypeMismatch);
            }
        }
        let timestamp = tv.timestamp;
        let data_record = DataRecord::from_value(tv.value);
        data_record.write_to(timestamp, id.entry_id, &mut self.out)
    }

    /// Writes a value at the current time, without a type check.  A void
    /// value is a no-op.
    pub fn write(&mut self, id: TypedEntryId, value: LogValue) -> (r: Result<(), DataLogError>)
        requires
            old(self).wf(),
        ensures
            final(self).wf(),
            exists|t: u64|
                #[trigger] spec_write_post(
                    *old(self),
                    *final(self),
                    EntryId { datalog_id: id.datalog_id, entry_id: id.entry_id },
                    value,
                    t,
                    false,
                    r,
                ),
    {
        let t = now();
        let ghost v = value;
        let r = self.inner_write(id.untyped(), TimestampedValue::new(t, value), false);
        proof {
            assert(spec_write_post(
                *old(self),
                *final(self),
                EntryId { datalog_id: id.datalog_id, entry_id: id.entry_id },
                v,
                t,
                false,
                r,
            ));
        }
        r
    }

    /// Writes a value at the given timestamp, without a type check.  A void
    /// value is a no-op.
    pub fn write_timestamped(&mut self, id: TypedEntryId, value: LogValue, timestamp: u64) -> (r:
        Result<(), DataLogError>)
        requires
            old(self).wf(),
        ensures
            final(self).wf(),
            spec_write_post(
                *old(self),
                *final(self),
                EntryId { datalog_id: id.datalog_id, entry_id: id.entry_id },
                value,
                timestamp,
                false,
                r,
            ),
    {
        let ghost v = value;
        self.inner_write(id.untyped(), TimestampedValue::new(timestamp, value), false)
    }

    /// Writes a timestamped value, checking that the value's own type
    /// fingerprint matches the entry's.  A void value is a no-op.
    pub fn write_dynamic(&mut self, id: EntryId, value: TimestampedValue<LogValue>) -> (r: Result<
        (),
        DataLogError,
    >)
        requires
            old(self).wf(),
        ensures
            final(self).wf(),
            spec_write_post(
                *old(self),
                *final(self),
                id,
                value.value,
                value.timestamp,
                true,
                r,
            ),
    {
        self.inner_write(id, value, true)
    }

    /// Closes an entry: the entry goes from alive to dead at the current
    /// time and a `Finish` control record goes out.  Fails with
    /// `InvalidDataLog` for a handle from another writer, `NoSuchEntry` for
    /// an unknown entry, and `OutsideEntryLifetime` for an entry already
    /// closed; no failure changes any state.
    pub fn close_entry(&mut self, id: EntryId) -> (r: Result<(), DataLogError>)
        requires
            old(self).wf(),
        ensures
            final(self).wf(),
            final(self).datalog_id == old(self).datalog_id,
            final(self).highest_entry_id == old(self).highest_entry_id,
            match r {
                Ok(_) => {
                    &&& id.datalog_id == old(self).datalog_id
                    &&& 1 <= id.entry_id <= old(self).entry_data@.len()
                    &&& old(self).entry_data@[id.entry_id - 1].lifestatus is Alive
                    &&& final(self).entry_data@.len() == old(self).entry_data@.len()
                    &&& forall|j: int|
                        0 <= j < old(self).entry_data@.len() && j != id.entry_id - 1 ==> final(self).entry_data@[j] == old(self).entry_data@[j]
                    &&& final(self).entry_data@[id.entry_id - 1].key == old(self).entry_data@[id.entry_id - 1].key
                    &&& final(self).entry_data@[id.entry_id - 1].entry_type == old(self).entry_data@[id.entry_id - 1].entry_type
                    &&& final(self).entry_data@[id.entry_id - 1].prehashed_type == old(self).entry_data@[id.entry_id - 1].prehashed_type
                    &&& exists|t: u64|
                        final(self).entry_data@[id.entry_id - 1].lifestatus == (
                        EntryLifeStatus::Dead {
                            start: old(self).entry_data@[id.entry_id - 1].lifestatus->Alive_start,
                            end: t,
                        }) && final(self).out@ == old(self).out@ + spec_record_bytes(
                            RecordView::Control(ControlRecordView::Finish, t, id.entry_id),
                        )
                },
                Err(e) => {
                    &&& *final(self) == *old(self)
                    &&& (e == DataLogError::InvalidDataLog || e == DataLogError::NoSuchEntry
                        || e == DataLogError::OutsideEntryLifetime)
                    &&& (e == DataLogError::InvalidDataLog <==> id.datalog_id != old(self).datalog_id)
                    &&& (e == DataLogError::NoSuchEntry <==> id.datalog_id == old(self).datalog_id
                        && (id.entry_id < 1 || id.entry_id > old(self).entry_data@.len()))
                    &&& (e == DataLogError::OutsideEntryLifetime <==> id.datalog_id == old(self).datalog_id && 1 <= id.entry_id <= old(self).entry_data@.len() && old(self).entry_data@[id.entry_id - 1].lifestatus is Dead)
                },
            },
    {
        if id.datalog_id != self.datalog_id {
            return Err(DataLogError::InvalidDataLog);
        }
        if id.entry_id < 1 || id.entry_id as usize > self.entry_data.len() {
            return Err(DataLogError::NoSuchEntry);
        }
        let t = now();
        let idx = (id.entry_id - 1) as usize;
        match self.entry_data[idx].lifestatus {
            EntryLifeStatus::Dead { .. } => {
                return Err(DataLogError::OutsideEntryLifetime);
            },
            EntryLifeStatus::Alive { start } => {
                let entry = &mut self.entry_data[idx];
                entry.lifestatus = EntryLifeStatus::Dead { start, end: t };
            },
        }
        match ControlRecord::Finish.write_to(t, id.entry_id, &mut self.out) {
            Ok(_) => {
                proof {
                    assert(self.out@ == old(self).out@ + spec_record_bytes(
                        RecordView::Control(ControlRecordView::Finish, t, id.entry_id),
                    ));
                    assert(self.entry_data@[id.entry_id - 1].lifestatus == (EntryLifeStatus::Dead {
                        start: old(self).entry_data@[id.entry_id - 1].lifestatus->Alive_start,
                        end: t,
                    }));
                }
                Ok(())
            },
            Err(_) => {
                proof {
                    crate::proto::util::lemma_le_bytes_len(id.entry_id as nat, 4);
                    assert(crate::proto::records::spec_control_payload(
                        ControlRecordView::Finish,
                        id.entry_id,
                    ).len() == 5);
                    assert(false);
                }
                Err(DataLogError::RecordTooLarge)
            },
        }
    }
}

} // verus!
