//! The tag registry: records by identifier, with an index from EPC to TID.
use vstd::prelude::*;
use crate::models::{TagInput, TagInputView, TagRecord, TagRecordView, opt_chars, clone_opt_string, opt_string_eq};
use crate::store::{
    RecordMap, IndexMap, record_entries, index_entries, record_map_new, record_map_insert,
    record_map_remove, record_map_get, record_map_entries, index_map_new, index_map_insert,
    index_map_remove, index_map_get,
};
use crate::text::{
    normalize_hex, normalize_identifier, normalized_hex, normalized_identifier, push_char,
    trim, ascii_upper, lemma_trim_unchanged, lemma_upper_unchanged,
};
use crate::clock::current_timestamp_ms;
use crate::sorting::{sort_records, sorted_records, distinct_identifiers, drawn_from};
use crate::validation::{
    TagListError, validate_epc, validate_tid, validate_ant, validate_rssi, epc_is_valid,
    tid_is_valid, ant_is_valid, rssi_is_valid, all_hex, is_hex_digit,
};

verus! {

/// A digit as stored: `0`..`9` or `A`..`F`.
pub open spec fn is_upper_hex_digit(c: char) -> bool {
    ('0' <= c <= '9') || ('A' <= c <= 'F')
}

/// Every character of `s` is a digit as stored.
pub open spec fn upper_hex(s: Seq<char>) -> bool {
    forall|i: int| 0 <= i < s.len() ==> is_upper_hex_digit(#[trigger] s[i])
}

/// The identifier of a reading: its TID when it has one, else `_` followed by its EPC.
pub open spec fn identifier_for(epc: Seq<char>, tid: Option<Seq<char>>) -> Seq<char> {
    match tid {
        Some(t) => t,
        None => seq!['_'] + epc,
    }
}

/// The characters of an optional string slice.
pub open spec fn opt_str_chars(o: Option<&str>) -> Option<Seq<char>> {
    match o {
        Some(s) => Some(s@),
        None => None,
    }
}

/// The view of an optional record.
pub open spec fn opt_record(o: Option<TagRecord>) -> Option<TagRecordView> {
    match o {
        Some(r) => Some(r@),
        None => None,
    }
}

/// An EPC as stored: valid and upper-case.
pub open spec fn stored_epc(e: Seq<char>) -> bool {
    epc_is_valid(e) && upper_hex(e)
}

/// A TID as stored: absent, or valid and upper-case.
pub open spec fn stored_tid(t: Option<Seq<char>>) -> bool {
    match t {
        Some(t) => tid_is_valid(t) && upper_hex(t),
        None => true,
    }
}

/// A record as the registry stores it.
pub open spec fn record_is_well_formed(r: TagRecordView) -> bool {
    &&& stored_epc(r.epc)
    &&& stored_tid(r.tid)
    &&& r.identifier == identifier_for(r.epc, r.tid)
    &&& ant_is_valid(r.ant)
    &&& rssi_is_valid(r.rssi)
}

/// What holds of the registry's contents in every state: each record is
/// well formed and stored under its own identifier, and no two records share
/// an EPC.
pub open spec fn registry_is_well_formed(m: Map<Seq<char>, TagRecordView>) -> bool {
    &&& m.dom().finite()
    &&& forall|k: Seq<char>| #[trigger] m.contains_key(k) ==> m[k].identifier == k && record_is_well_formed(m[k])
    &&& forall|k1: Seq<char>, k2: Seq<char>| #![trigger m[k1], m[k2]]
        m.contains_key(k1) && m.contains_key(k2) && m[k1].epc == m[k2].epc ==> k1 == k2
}

/// The record stored under `k`, if any.
pub open spec fn lookup(m: Map<Seq<char>, TagRecordView>, k: Seq<char>) -> Option<TagRecordView> {
    if m.contains_key(k) {
        Some(m[k])
    } else {
        None
    }
}

/// The record with EPC `e`, if any (in a well-formed registry there is at most one).
pub open spec fn record_with_epc(m: Map<Seq<char>, TagRecordView>, e: Seq<char>) -> Option<TagRecordView> {
    if exists|k: Seq<char>| m.contains_key(k) && #[trigger] m[k].epc == e {
        Some(m[choose|k: Seq<char>| m.contains_key(k) && #[trigger] m[k].epc == e])
    } else {
        None
    }
}

/// The normal form of an optional TID.
pub open spec fn normalized_tid(tid: Option<Seq<char>>) -> Option<Seq<char>> {
    match tid {
        Some(t) => Some(normalized_hex(t)),
        None => None,
    }
}

/// Why a reading is refused, if it is: the first rule it breaks, once its EPC
/// and TID are normalised, checked in the order EPC, TID, antenna, signal.
pub open spec fn input_error(i: TagInputView) -> Option<TagListError> {
    let epc = normalized_hex(i.epc);
    let tid = normalized_tid(i.tid);
    if !epc_is_valid(epc) {
        Some(TagListError::InvalidEpc)
    } else if tid is Some && !tid_is_valid(tid->0) {
        Some(TagListError::InvalidTid)
    } else if !ant_is_valid(i.ant) {
        Some(TagListError::InvalidAnt)
    } else if !rssi_is_valid(i.rssi) {
        Some(TagListError::InvalidRssi)
    } else {
        None
    }
}

/// The record that a reading becomes when it is stored at `created_at_ms`.
pub open spec fn record_for_input(i: TagInputView, created_at_ms: u128) -> TagRecordView {
    let epc = normalized_hex(i.epc);
    let tid = normalized_tid(i.tid);
    TagRecordView {
        identifier: identifier_for(epc, tid),
        epc: epc,
        tid: tid,
        ant: i.ant,
        rssi: i.rssi,
        created_at_ms: created_at_ms,
    }
}

/// The records once `r` is stored: every record with the same EPC is gone,
/// and `r` stands under its identifier, in place of any record there.
pub open spec fn with_record(m: Map<Seq<char>, TagRecordView>, r: TagRecordView) -> Map<Seq<char>, TagRecordView> {
    Map::new(|k: Seq<char>| m.contains_key(k) && m[k].epc != r.epc, |k: Seq<char>| m[k]).insert(
        r.identifier,
        r,
    )
}

/// A normalised value that passes the hex check is upper-case.
pub(crate) proof fn lemma_normalized_valid_is_stored(s: Seq<char>)
    requires
        all_hex(normalized_hex(s)),
    ensures
        upper_hex(normalized_hex(s)),
{
    let n = normalized_hex(s);
    assert forall|i: int| 0 <= i < n.len() implies is_upper_hex_digit(#[trigger] n[i]) by {
        assert(is_hex_digit(n[i]));
        assert(n[i] == ascii_upper(trim(s)[i]));
    }
}

/// Storing a record keeps the invariant and gives the registry `with_record`
/// describes. The states are those the steps of `add_at` pass through: `x1`
/// after the index update, `m1` after dropping the record that the index held
/// for the EPC, `m2` after storing the record, `x2` after dropping the index
/// entry of the record it replaced.
proof fn lemma_add_keeps_invariant(
    m0: Map<Seq<char>, TagRecordView>,
    x0: Map<Seq<char>, Option<Seq<char>>>,
    rv: TagRecordView,
    m1: Map<Seq<char>, TagRecordView>,
    x1: Map<Seq<char>, Option<Seq<char>>>,
    m2: Map<Seq<char>, TagRecordView>,
    x2: Map<Seq<char>, Option<Seq<char>>>,
)
    requires
        registry_is_well_formed(m0),
        index_agrees(m0, x0),
        record_is_well_formed(rv),
        x1 == x0.insert(rv.epc, rv.tid),
        m1 == (if x0.contains_key(rv.epc) && identifier_for(rv.epc, x0[rv.epc]) != rv.identifier {
            m0.remove(identifier_for(rv.epc, x0[rv.epc]))
        } else {
            m0
        }),
        m2 == m1.insert(rv.identifier, rv),
        x2 == (if m1.contains_key(rv.identifier) && (m1[rv.identifier].epc != rv.epc
            || m1[rv.identifier].tid != rv.tid) && x1.contains_key(m1[rv.identifier].epc)
            && x1[m1[rv.identifier].epc] == m1[rv.identifier].tid {
            x1.remove(m1[rv.identifier].epc)
        } else {
            x1
        }),
    ensures
        registry_is_well_formed(m2),
        index_agrees(m2, x2),
        m2 == with_record(m0, rv),
{
    let e = rv.epc;
    let id = rv.identifier;
    // m1 is m0 without the record that has EPC `e`, if any
    assert forall|k: Seq<char>| k != id implies (#[trigger] m1.contains_key(k) <==> (m0.contains_key(k)
        && m0[k].epc != e)) by {
        if m0.contains_key(k) && m0[k].epc == e {
            assert(x0.contains_key(e) && x0[e] == m0[k].tid);
            assert(k == identifier_for(m0[k].epc, m0[k].tid));
        }
        if x0.contains_key(e) {
            let pid = identifier_for(e, x0[e]);
            assert(m0.contains_key(pid) && m0[pid].epc == e);
        }
    }
    assert forall|k: Seq<char>| #[trigger] m1.contains_key(k) implies m0.contains_key(k) && m1[k]
        == m0[k] by {}
    // the record that `id` held, if it had another EPC, had another TID too
    if m1.contains_key(id) {
        let o = m1[id];
        assert(m0.contains_key(id) && m0[id] == o);
        if o.epc == e {
            lemma_identifier_determines_tid(o.epc, o.tid, e, rv.tid);
        }
    }
    assert(m2 =~= with_record(m0, rv));
    assert(m2.dom() =~= m1.dom().insert(id));
    assert forall|k: Seq<char>| #[trigger] m2.contains_key(k) implies x2.contains_key(m2[k].epc)
        && x2[m2[k].epc] == m2[k].tid by {
        if k != id {
            assert(m0.contains_key(k) && m2[k] == m0[k] && m0[k].epc != e);
            if m1.contains_key(id) {
                assert(m0[id].epc != m0[k].epc);
            }
        }
    }
    assert forall|f: Seq<char>| #[trigger] x2.contains_key(f) implies m2.contains_key(
        identifier_for(f, x2[f]),
    ) && m2[identifier_for(f, x2[f])].epc == f by {
        if f != e {
            assert(x0.contains_key(f));
            let kid = identifier_for(f, x0[f]);
            assert(m0.contains_key(kid) && m0[kid].epc == f);
            assert(m1.contains_key(kid));
            if kid == id {
                let o = m1[id];
                lemma_identifier_determines_tid(f, x0[f], o.epc, o.tid);
                assert(false);
            }
        }
    }
    assert forall|k1: Seq<char>, k2: Seq<char>| #![trigger m2[k1], m2[k2]]
        m2.contains_key(k1) && m2.contains_key(k2) && m2[k1].epc == m2[k2].epc implies k1 == k2 by {
        if k1 != id && k2 != id {
            assert(m0[k1] == m2[k1] && m0[k2] == m2[k2]);
        }
    }
    assert forall|k: Seq<char>| #[trigger] m2.contains_key(k) implies m2[k].identifier == k
        && record_is_well_formed(m2[k]) by {
        if k != id {
            assert(m0.contains_key(k) && m2[k] == m0[k]);
        }
    }
}

/// The records created before `ts`.
pub open spec fn created_before(m: Map<Seq<char>, TagRecordView>, ts: u128) -> Map<Seq<char>, TagRecordView> {
    Map::new(|k: Seq<char>| m.contains_key(k) && m[k].created_at_ms < ts, |k: Seq<char>| m[k])
}

/// The records created at `ts` or later.
pub open spec fn created_since(m: Map<Seq<char>, TagRecordView>, ts: u128) -> Map<Seq<char>, TagRecordView> {
    Map::new(|k: Seq<char>| m.contains_key(k) && m[k].created_at_ms >= ts, |k: Seq<char>| m[k])
}

/// `s` lists the records of `m`, each once: every element is the record `m`
/// holds under its identifier, and every record of `m` is there.
pub open spec fn lists_exactly(s: Seq<TagRecord>, m: Map<Seq<char>, TagRecordView>) -> bool {
    &&& forall|i: int| #![trigger s[i]] 0 <= i < s.len() ==> m.contains_key(s[i].identifier@) && m[s[i].identifier@] == s[i]@
    &&& forall|k: Seq<char>| #[trigger] m.contains_key(k) ==> exists|i: int| 0 <= i < s.len() && #[trigger] s[i].identifier@ == k
    &&& distinct_identifiers(s)
}

/// The registry with no records.
pub open spec fn empty_registry() -> Map<Seq<char>, TagRecordView> {
    Map::empty()
}

/// The index agrees with the records: each record's EPC maps to its TID, and
/// each EPC in the index leads to the record with that EPC.
spec fn index_agrees(m: Map<Seq<char>, TagRecordView>, x: Map<Seq<char>, Option<Seq<char>>>) -> bool {
    &&& x.dom().finite()
    &&& forall|k: Seq<char>| #[trigger] m.contains_key(k) ==> x.contains_key(m[k].epc) && x[m[k].epc] == m[k].tid
    &&& forall|e: Seq<char>| #[trigger] x.contains_key(e) ==> m.contains_key(identifier_for(e, x[e]))
        && m[identifier_for(e, x[e])].epc == e
}

/// A registry of tag readings, keyed by identifier and indexed by EPC.
pub struct TagList {
    tags_by_id: RecordMap,
    epc_to_tid: IndexMap,
}

impl View for TagList {
    type V = Map<Seq<char>, TagRecordView>;

    /// The records, by identifier.
    closed spec fn view(&self) -> Map<Seq<char>, TagRecordView> {
        record_entries(self.tags_by_id)
    }
}

impl Default for TagList {
    /// An empty registry.
    fn default() -> (r: Self)
        ensures
            r.well_formed(),
            r@ == empty_registry(),
    {
        TagList::new()
    }
}

/// Two identifiers built from stored values are equal only when their TIDs
/// are, and, when there is no TID, their EPCs are.
proof fn lemma_identifier_determines_tid(
    e1: Seq<char>,
    t1: Option<Seq<char>>,
    e2: Seq<char>,
    t2: Option<Seq<char>>,
)
    requires
        stored_tid(t1),
        stored_tid(t2),
        identifier_for(e1, t1) == identifier_for(e2, t2),
    ensures
        t1 == t2,
        t1 is None ==> e1 == e2,
{
    match (t1, t2) {
        (Some(a), None) => {
            assert(a[0] == (seq!['_'] + e2)[0]);
        },
        (None, Some(b)) => {
            assert(b[0] == (seq!['_'] + e1)[0]);
        },
        (None, None) => {
            assert(e1 =~= (seq!['_'] + e1).drop_first());
            assert(e2 =~= (seq!['_'] + e2).drop_first());
        },
        _ => {},
    }
}

/// Stored hex values are their own normal form.
proof fn lemma_stored_hex_normal(s: Seq<char>)
    requires
        s.len() > 0,
        upper_hex(s),
    ensures
        normalized_hex(s) == s,
{
    assert(is_upper_hex_digit(s[0]));
    assert(is_upper_hex_digit(s.last()));
    lemma_trim_unchanged(s);
    assert forall|i: int| 0 <= i < s.len() implies !('a' <= #[trigger] s[i] <= 'z') by {
        assert(is_upper_hex_digit(s[i]));
    }
    lemma_upper_unchanged(s);
}

/// The identifier of a stored reading is its own normal form.
pub(crate) proof fn lemma_stored_identifier_normal(e: Seq<char>, t: Option<Seq<char>>)
    requires
        stored_epc(e),
        stored_tid(t),
    ensures
        normalized_identifier(identifier_for(e, t)) == identifier_for(e, t),
{
    match t {
        Some(tid) => {
            assert(is_upper_hex_digit(tid[0]));
            assert(is_upper_hex_digit(tid.last()));
            lemma_trim_unchanged(tid);
            lemma_stored_hex_normal(tid);
        },
        None => {
            let id = seq!['_'] + e;
            assert(is_upper_hex_digit(e.last()));
            assert(id.last() == e.last());
            lemma_trim_unchanged(id);
            assert(id.drop_first() =~= e);
            lemma_stored_hex_normal(e);
        },
    }
}

/// The optional string slice that an optional string holds.
fn as_opt_str(o: &Option<String>) -> (r: Option<&str>)
    ensures
        opt_str_chars(r) == opt_chars(*o),
{
    match o {
        Some(s) => Some(s.as_str()),
        None => None,
    }
}

impl TagList {
    /// The index from EPC to TID.
    closed spec fn index(&self) -> Map<Seq<char>, Option<Seq<char>>> {
        index_entries(self.epc_to_tid)
    }

    /// The registry's invariant: its records are well formed and its index agrees with them.
    pub closed spec fn well_formed(&self) -> bool {
        registry_is_well_formed(self@) && index_agrees(self@, self.index())
    }

    /// What the invariant says of the records.
    pub proof fn lemma_well_formed(&self)
        requires
            self.well_formed(),
        ensures
            registry_is_well_formed(self@),
    {
    }

    /// An empty registry.
    pub fn new() -> (r: Self)
        ensures
            r.well_formed(),
            r@ == empty_registry(),
    {
        let r = TagList { tags_by_id: record_map_new(), epc_to_tid: index_map_new() };
        assert(r@ =~= empty_registry());
        assert(r.index() =~= Map::<Seq<char>, Option<Seq<char>>>::empty());
        r
    }

    /// The identifier of a reading: its TID when it has one, else `_` followed by its EPC.
    pub fn build_identifier(epc: &str, tid: Option<&str>) -> (r: String)
        ensures
            r@ == identifier_for(epc@, opt_str_chars(tid)),
    {
        match tid {
            Some(t) => t.to_owned(),
            None => {
                let mut r = String::new();
                push_char(&mut r, '_');
                r.append(epc);
                assert(r@ =~= seq!['_'] + epc@);
                r
            },
        }
    }

    /// Drops the index entry for `epc` if it maps to `tid`.
    fn remove_epc_index_if_matches(&mut self, epc: &str, tid: Option<&str>)
        ensures
            final(self)@ == old(self)@,
            final(self).index() == (if old(self).index().contains_key(epc@) && old(self).index()[epc@]
                == opt_str_chars(tid) {
                old(self).index().remove(epc@)
            } else {
                old(self).index()
            }),
    {
        let expected_tid: Option<String> = match tid {
            Some(t) => Some(t.to_owned()),
            None => None,
        };
        let current = index_map_get(&self.epc_to_tid, epc);
        let matches = match &current {
            Some(entry) => opt_string_eq(entry, &expected_tid),
            None => false,
        };
        if matches {
            index_map_remove(&mut self.epc_to_tid, epc);
        }
    }

    /// The normalised EPC and TID of a reading, once it passes every check;
    /// else the first check it fails.
    fn checked_input(input: &TagInput) -> (r: Result<(String, Option<String>), TagListError>)
        ensures
            match r {
                Ok(v) => {
                    &&& input_error(input@) is None
                    &&& v.0@ == normalized_hex(input@.epc)
                    &&& opt_chars(v.1) == normalized_tid(input@.tid)
                },
                Err(e) => input_error(input@) == Some(e),
            },
    {
        let epc = normalize_hex(input.epc.as_str());
        let tid: Option<String> = match &input.tid {
            Some(t) => Some(normalize_hex(t.as_str())),
            None => None,
        };
        assert(opt_chars(tid) == normalized_tid(input@.tid));
        if let Err(e) = validate_epc(epc.as_str()) {
            return Err(e);
        }
        if let Err(e) = validate_tid(as_opt_str(&tid)) {
            return Err(e);
        }
        if let Err(e) = validate_ant(input.ant) {
            return Err(e);
        }
        if let Err(e) = validate_rssi(input.rssi) {
            return Err(e);
        }
        Ok((epc, tid))
    }

    /// Stores the record built from a checked reading: it replaces the record
    /// under its identifier and the record with its EPC, and the index follows.
    fn store(&mut self, input: &TagInput, epc: String, tid: Option<String>, created_at_ms: u128) -> (record: TagRecord)
        requires
            old(self).well_formed(),
            input_error(input@) is None,
            epc@ == normalized_hex(input@.epc),
            opt_chars(tid) == normalized_tid(input@.tid),
        ensures
            final(self).well_formed(),
            record@ == record_for_input(input@, created_at_ms),
            final(self)@ == with_record(old(self)@, record@),
    {
        let identifier = Self::build_identifier(epc.as_str(), as_opt_str(&tid));
        let record = TagRecord {
            identifier: identifier.clone(),
            epc: epc.clone(),
            tid: clone_opt_string(&tid),
            ant: input.ant,
            rssi: input.rssi,
            created_at_ms: created_at_ms,
        };
        let ghost rv = record@;
        proof {
            lemma_normalized_valid_is_stored(input@.epc);
            if let Some(t) = input@.tid {
                lemma_normalized_valid_is_stored(t);
            }
            assert(record_is_well_formed(rv));
        }
        let ghost m0 = self@;
        let ghost x0 = self.index();
        let previous = index_map_insert(&mut self.epc_to_tid, epc.clone(), clone_opt_string(&tid));
        let ghost x1 = self.index();
        if let Some(previous_tid) = previous {
            let previous_identifier = Self::build_identifier(epc.as_str(), as_opt_str(&previous_tid));
            if !(previous_identifier == identifier) {
                record_map_remove(&mut self.tags_by_id, previous_identifier.as_str());
            }
        }
        let ghost m1 = self@;
        let existing = record_map_insert(&mut self.tags_by_id, identifier.clone(), record.clone());
        let ghost m2 = self@;
        if let Some(old_record) = existing {
            if !(old_record.epc == epc) || !opt_string_eq(&old_record.tid, &tid) {
                self.remove_epc_index_if_matches(old_record.epc.as_str(), as_opt_str(&old_record.tid));
            }
        }
        proof {
            lemma_add_keeps_invariant(m0, x0, rv, m1, x1, m2, self.index());
        }
        record
    }

    /// Stores a reading with the given creation time. The reading's EPC and
    /// TID are trimmed and upper-cased, then checked; a refused reading leaves
    /// the registry as it was. A stored reading replaces the record under its
    /// identifier and the record with its EPC, and the index follows.
    pub fn add_at(&mut self, input: TagInput, created_at_ms: u128) -> (r: Result<TagRecord, TagListError>)
        requires
            old(self).well_formed(),
        ensures
            final(self).well_formed(),
            match r {
                Ok(rec) => {
                    &&& input_error(input@) is None
                    &&& rec@ == record_for_input(input@, created_at_ms)
                    &&& final(self)@ == with_record(old(self)@, rec@)
                },
                Err(e) => {
                    &&& input_error(input@) == Some(e)
                    &&& final(self)@ == old(self)@
                },
            },
    {
        match Self::checked_input(&input) {
            Err(e) => Err(e),
            Ok((epc, tid)) => Ok(self.store(&input, epc, tid, created_at_ms)),
        }
    }

    /// Stores a reading at the current time, read once the reading has passed
    /// its checks; a clock that reads before the Unix epoch gives time 0. See
    /// `add_at`.
    pub fn add(&mut self, input: TagInput) -> (r: Result<TagRecord, TagListError>)
        requires
            old(self).well_formed(),
        ensures
            final(self).well_formed(),
            match r {
                Ok(rec) => {
                    &&& input_error(input@) is None
                    &&& rec@ == record_for_input(input@, rec.created_at_ms)
                    &&& final(self)@ == with_record(old(self)@, rec@)
                },
                Err(e) => {
                    &&& input_error(input@) == Some(e)
                    &&& final(self)@ == old(self)@
                },
            },
    {
        match Self::checked_input(&input) {
            Err(e) => Err(e),
            Ok((epc, tid)) => {
                let now = match current_timestamp_ms() {
                    Some(ms) => ms,
                    None => 0,
                };
                Ok(self.store(&input, epc, tid, now))
            },
        }
    }

    /// Every record, ordered by creation time and then by identifier.
    pub fn get_all(&self) -> (r: Vec<TagRecord>)
        requires
            self.well_formed(),
        ensures
            lists_exactly(r@, self@),
            sorted_records(r@, true),
    {
        let entries = record_map_entries(&self.tags_by_id);
        let mut records: Vec<TagRecord> = Vec::new();
        let n = entries.len();
        for i in 0..n
            invariant
                n == entries@.len(),
                records@.len() == i,
                forall|j: int| 0 <= j < i ==> #[trigger] records@[j]@ == entries@[j].1@,
        {
            records.push(entries[i].1.clone());
        }
        proof {
            assert forall|j: int| 0 <= j < n implies #[trigger] records@[j].identifier@ == entries@[j].0@ by {
                assert(self@.contains_key(entries@[j].0@));
                assert(records@[j]@ == entries@[j].1@);
                assert(self@[entries@[j].0@] == entries@[j].1@);
                assert(self@[entries@[j].0@].identifier == entries@[j].0@);
            }
            assert forall|a: int, b: int| 0 <= a < b < records@.len() implies #[trigger] records@[a].identifier@
                != #[trigger] records@[b].identifier@ by {
                assert(records@[a].identifier@ == entries@[a].0@);
                assert(records@[b].identifier@ == entries@[b].0@);
            }
        }
        let sorted = sort_records(records, true);
        proof {
            reveal(drawn_from);
            assert forall|i: int| #![trigger sorted@[i]] 0 <= i < sorted@.len() implies self@.contains_key(
                sorted@[i].identifier@,
            ) && self@[sorted@[i].identifier@] == sorted@[i]@ by {
                let j = choose|j: int| 0 <= j < records@.len() && #[trigger] records@[j]@ == sorted@[i]@;
                assert(records@[j].identifier@ == entries@[j].0@);
            }
            assert forall|k: Seq<char>| #[trigger] self@.contains_key(k) implies exists|i: int|
                0 <= i < sorted@.len() && #[trigger] sorted@[i].identifier@ == k by {
                let j = choose|j: int| 0 <= j < entries@.len() && #[trigger] entries@[j].0@ == k;
                assert(records@[j].identifier@ == k);
                let i = choose|i: int| 0 <= i < sorted@.len() && #[trigger] sorted@[i]@ == records@[j]@;
                assert(sorted@[i].identifier@ == k);
            }
        }
        sorted
    }

    /// The record with the normal form of `epc` as its EPC, found through the index.
    pub fn get_by_epc(&self, epc: &str) -> (r: Option<TagRecord>)
        requires
            self.well_formed(),
        ensures
            opt_record(r) == record_with_epc(self@, normalized_hex(epc@)),
    {
        let epc = normalize_hex(epc);
        let tid = match index_map_get(&self.epc_to_tid, epc.as_str()) {
            Some(t) => t,
            None => {
                proof {
                    self.lemma_no_index_entry(epc@);
                }
                return None;
            },
        };
        let identifier = Self::build_identifier(epc.as_str(), as_opt_str(&tid));
        proof {
            self.lemma_index_entry(epc@);
        }
        self.get_by_id(identifier.as_str())
    }

    /// The record stored under the normal form of `tid`, looked up as an identifier.
    pub fn get_by_tid(&self, tid: &str) -> (r: Option<TagRecord>)
        ensures
            opt_record(r) == lookup(self@, normalized_identifier(normalized_hex(tid@))),
    {
        let tid = normalize_hex(tid);
        self.get_by_id(tid.as_str())
    }

    /// The TID of the record with the normal form of `epc` as its EPC, if
    /// there is such a record and it has a TID.
    pub fn get_tid_by_epc(&self, epc: &str) -> (r: Option<String>)
        requires
            self.well_formed(),
        ensures
            opt_chars(r) == (match record_with_epc(self@, normalized_hex(epc@)) {
                Some(rec) => rec.tid,
                None => None,
            }),
    {
        let epc = normalize_hex(epc);
        match index_map_get(&self.epc_to_tid, epc.as_str()) {
            Some(entry) => {
                proof {
                    self.lemma_index_entry(epc@);
                }
                entry
            },
            None => {
                proof {
                    self.lemma_no_index_entry(epc@);
                }
                None
            },
        }
    }

    /// An EPC missing from the index belongs to no record.
    proof fn lemma_no_index_entry(&self, e: Seq<char>)
        requires
            self.well_formed(),
            !self.index().contains_key(e),
        ensures
            record_with_epc(self@, e) is None,
    {
        if exists|k: Seq<char>| self@.contains_key(k) && #[trigger] self@[k].epc == e {
            let k = choose|k: Seq<char>| self@.contains_key(k) && #[trigger] self@[k].epc == e;
            assert(self.index().contains_key(self@[k].epc));
        }
    }

    /// An EPC in the index leads to the one record with that EPC, stored under
    /// an identifier that is its own normal form.
    proof fn lemma_index_entry(&self, e: Seq<char>)
        requires
            self.well_formed(),
            self.index().contains_key(e),
        ensures
            self@.contains_key(identifier_for(e, self.index()[e])),
            normalized_identifier(identifier_for(e, self.index()[e])) == identifier_for(e, self.index()[e]),
            record_with_epc(self@, e) == Some(self@[identifier_for(e, self.index()[e])]),
            self@[identifier_for(e, self.index()[e])].tid == self.index()[e],
    {
        let m = self@;
        let kid = identifier_for(e, self.index()[e]);
        assert(m.contains_key(kid) && m[kid].epc == e);
        assert(record_is_well_formed(m[kid]));
        assert(self.index()[m[kid].epc] == m[kid].tid);
        lemma_stored_identifier_normal(e, self.index()[e]);
        assert(exists|k: Seq<char>| m.contains_key(k) && #[trigger] m[k].epc == e);
        let c = choose|k: Seq<char>| m.contains_key(k) && #[trigger] m[k].epc == e;
        assert(c == kid);
    }

    /// The identifiers of the records created before `timestamp_ms`, each once.
    fn older_identifiers(&self, timestamp_ms: u128) -> (r: Vec<String>)
        requires
            self.well_formed(),
        ensures
            forall|a: int, b: int| 0 <= a < b < r@.len() ==> #[trigger] r@[a]@ != #[trigger] r@[b]@,
            forall|a: int| 0 <= a < r@.len() ==> #[trigger] created_before(self@, timestamp_ms).contains_key(r@[a]@),
            forall|k: Seq<char>| #[trigger] created_before(self@, timestamp_ms).contains_key(k) ==>
                exists|a: int| 0 <= a < r@.len() && #[trigger] r@[a]@ == k,
    {
        let entries = record_map_entries(&self.tags_by_id);
        let ghost older = created_before(self@, timestamp_ms);
        let mut identifiers: Vec<String> = Vec::new();
        let n = entries.len();
        let mut i: usize = 0;
        while i < n
            invariant
                i <= n,
                n == entries@.len(),
                older == created_before(self@, timestamp_ms),
                forall|j: int| 0 <= j < n ==> {
                    &&& self@.contains_key(#[trigger] entries@[j].0@)
                    &&& self@[entries@[j].0@] == entries@[j].1@
                },
                forall|a: int, b: int| 0 <= a < b < n ==> #[trigger] entries@[a].0@ != #[trigger] entries@[b].0@,
                forall|a: int| #![trigger identifiers@[a]] 0 <= a < identifiers@.len() ==> exists|j: int|
                    0 <= j < i && #[trigger] entries@[j].0@ == identifiers@[a]@ && older.contains_key(identifiers@[a]@),
                forall|a: int, b: int| 0 <= a < b < identifiers@.len() ==> #[trigger] identifiers@[a]@ != #[trigger] identifiers@[b]@,
                forall|j: int| #![trigger entries@[j]] 0 <= j < i && entries@[j].1.created_at_ms < timestamp_ms ==>
                    exists|a: int| 0 <= a < identifiers@.len() && #[trigger] identifiers@[a]@ == entries@[j].0@,
            decreases n - i,
        {
            if entries[i].1.created_at_ms < timestamp_ms {
                let ghost before = identifiers@;
                identifiers.push(entries[i].0.clone());
                proof {
                    assert(identifiers@[before.len() as int]@ == entries@[i as int].0@);
                    assert(self@.contains_key(entries@[i as int].0@));
                    assert(older.contains_key(entries@[i as int].0@));
                    assert forall|a: int, b: int| 0 <= a < b < identifiers@.len() implies #[trigger] identifiers@[a]@
                        != #[trigger] identifiers@[b]@ by {
                        if b == before.len() {
                            assert(identifiers@[a] == before[a]);
                            let j = choose|j: int| 0 <= j < i && #[trigger] entries@[j].0@ == before[a]@ && older.contains_key(before[a]@);
                        } else {
                            assert(identifiers@[a] == before[a] && identifiers@[b] == before[b]);
                        }
                    }
                    assert forall|a: int| #![trigger identifiers@[a]] 0 <= a < identifiers@.len() implies exists|j: int|
                        0 <= j < i + 1 && #[trigger] entries@[j].0@ == identifiers@[a]@ && older.contains_key(identifiers@[a]@) by {
                        if a < before.len() {
                            assert(identifiers@[a] == before[a]);
                            let j = choose|j: int| 0 <= j < i && #[trigger] entries@[j].0@ == before[a]@ && older.contains_key(before[a]@);
                        } else {
                            assert(entries@[i as int].0@ == identifiers@[a]@);
                        }
                    }
                    assert forall|j: int| #![trigger entries@[j]] 0 <= j < i + 1 && entries@[j].1.created_at_ms < timestamp_ms implies
                        exists|a: int| 0 <= a < identifiers@.len() && #[trigger] identifiers@[a]@ == entries@[j].0@ by {
                        if j < i {
                            let a = choose|a: int| 0 <= a < before.len() && #[trigger] before[a]@ == entries@[j].0@;
                            assert(identifiers@[a] == before[a]);
                        } else {
                            assert(identifiers@[before.len() as int]@ == entries@[j].0@);
                        }
                    }
                }
            }
            i = i + 1;
        }
        proof {
            assert forall|k: Seq<char>| #[trigger] older.contains_key(k) implies exists|a: int|
                0 <= a < identifiers@.len() && #[trigger] identifiers@[a]@ == k by {
                let j = choose|j: int| 0 <= j < entries@.len() && #[trigger] entries@[j].0@ == k;
                assert(entries@[j].1.created_at_ms < timestamp_ms);
            }
        }
        identifiers
    }

    /// Removes every record created before `timestamp_ms`, and hands them
    /// back ordered by creation time; among records created in the same
    /// millisecond the order is not stated.
    pub fn remove_before_timestamp(&mut self, timestamp_ms: u128) -> (r: Vec<TagRecord>)
        requires
            old(self).well_formed(),
        ensures
            final(self).well_formed(),
            final(self)@ == created_since(old(self)@, timestamp_ms),
            lists_exactly(r@, created_before(old(self)@, timestamp_ms)),
            sorted_records(r@, false),
    {
        let identifiers = self.older_identifiers(timestamp_ms);
        let ghost m0 = self@;
        let ghost older = created_before(m0, timestamp_ms);
        let ghost mut gone: Set<Seq<char>> = Set::empty();
        let mut removed: Vec<TagRecord> = Vec::new();
        let n = identifiers.len();
        for i in 0..n
            invariant
                n == identifiers@.len(),
                older == created_before(m0, timestamp_ms),
                registry_is_well_formed(m0),
                forall|a: int, b: int| 0 <= a < b < n ==> #[trigger] identifiers@[a]@ != #[trigger] identifiers@[b]@,
                forall|a: int| 0 <= a < n ==> #[trigger] older.contains_key(identifiers@[a]@),
                self.well_formed(),
                self@ == m0.remove_keys(gone),
                forall|a: int| 0 <= a < i ==> gone.contains(#[trigger] identifiers@[a]@),
                forall|k: Seq<char>| #[trigger] gone.contains(k) ==> exists|a: int| 0 <= a < i && #[trigger] identifiers@[a]@ == k,
                removed@.len() == i,
                forall|a: int| 0 <= a < i ==> #[trigger] removed@[a]@ == m0[identifiers@[a]@],
        {
            let ghost key = identifiers@[i as int]@;
            proof {
                assert(older.contains_key(key));
                assert(m0.contains_key(key));
                assert(!gone.contains(key)) by {
                    if gone.contains(key) {
                        let a = choose|a: int| 0 <= a < i && #[trigger] identifiers@[a]@ == key;
                    }
                }
                lemma_stored_identifier_normal(m0[key].epc, m0[key].tid);
            }
            if let Some(record) = self.remove(identifiers[i].as_str()) {
                removed.push(record);
            }
            proof {
                gone = gone.insert(key);
                assert(self@ =~= m0.remove_keys(gone));
                assert(removed@[i as int]@ == m0[key]);
                assert forall|k: Seq<char>| #[trigger] gone.contains(k) implies exists|a: int| 0 <= a < i + 1
                    && #[trigger] identifiers@[a]@ == k by {
                    if k != key {
                        let a = choose|a: int| 0 <= a < i && #[trigger] identifiers@[a]@ == k;
                    }
                }
            }
        }
        proof {
            assert forall|a: int, b: int| 0 <= a < b < removed@.len() implies #[trigger] removed@[a].identifier@
                != #[trigger] removed@[b].identifier@ by {
                assert(older.contains_key(identifiers@[a]@));
                assert(older.contains_key(identifiers@[b]@));
                assert(m0.contains_key(identifiers@[a]@));
                assert(m0.contains_key(identifiers@[b]@));
                assert(removed@[a]@ == m0[identifiers@[a]@]);
                assert(removed@[b]@ == m0[identifiers@[b]@]);
            }
            assert(gone =~= older.dom()) by {
                assert forall|k: Seq<char>| older.contains_key(k) implies gone.contains(k) by {
                    let a = choose|a: int| 0 <= a < n && #[trigger] identifiers@[a]@ == k;
                }
            }
            assert(self@ =~= created_since(m0, timestamp_ms));
        }
        let sorted = sort_records(removed, false);
        proof {
            reveal(drawn_from);
            assert forall|i: int| #![trigger sorted@[i]] 0 <= i < sorted@.len() implies older.contains_key(
                sorted@[i].identifier@,
            ) && older[sorted@[i].identifier@] == sorted@[i]@ by {
                let j = choose|j: int| 0 <= j < removed@.len() && #[trigger] removed@[j]@ == sorted@[i]@;
                assert(older.contains_key(identifiers@[j]@));
                assert(removed@[j]@ == m0[identifiers@[j]@]);
                assert(m0[identifiers@[j]@].identifier == identifiers@[j]@);
            }
            assert forall|k: Seq<char>| #[trigger] older.contains_key(k) implies exists|i: int|
                0 <= i < sorted@.len() && #[trigger] sorted@[i].identifier@ == k by {
                let j = choose|j: int| 0 <= j < n && #[trigger] identifiers@[j]@ == k;
                assert(removed@[j]@ == m0[k]);
                assert(m0[k].identifier == k);
                let i = choose|i: int| 0 <= i < sorted@.len() && #[trigger] sorted@[i]@ == removed@[j]@;
                assert(sorted@[i].identifier@ == k);
            }
        }
        sorted
    }

    /// The record stored under the normal form of `identifier`, if any.
    pub fn get_by_id(&self, identifier: &str) -> (r: Option<TagRecord>)
        ensures
            opt_record(r) == lookup(self@, normalized_identifier(identifier@)),
    {
        let identifier = normalize_identifier(identifier);
        record_map_get(&self.tags_by_id, identifier.as_str())
    }

    /// Removes and hands back the record stored under the normal form of
    /// `identifier`, with its index entry.
    pub fn remove(&mut self, identifier: &str) -> (r: Option<TagRecord>)
        requires
            old(self).well_formed(),
        ensures
            final(self).well_formed(),
            opt_record(r) == lookup(old(self)@, normalized_identifier(identifier@)),
            final(self)@ == old(self)@.remove(normalized_identifier(identifier@)),
    {
        let identifier = normalize_identifier(identifier);
        let ghost m0 = self@;
        let ghost x0 = self.index();
        let removed = record_map_remove(&mut self.tags_by_id, identifier.as_str());
        match removed {
            None => {
                assert(self@ =~= m0.remove(identifier@));
                None
            },
            Some(removed) => {
                let ghost nid = identifier@;
                self.remove_epc_index_if_matches(removed.epc.as_str(), as_opt_str(&removed.tid));
                proof {
                    let m1 = self@;
                    let x1 = self.index();
                    assert(m0.contains_key(nid));
                    assert(x1 == x0.remove(removed.epc@));
                    assert forall|k: Seq<char>| #[trigger] m1.contains_key(k) implies x1.contains_key(
                        m1[k].epc,
                    ) && x1[m1[k].epc] == m1[k].tid by {
                        assert(m0.contains_key(k) && m0[k] == m1[k]);
                        assert(k != nid);
                        assert(m0[k].epc != m0[nid].epc);
                    }
                    assert forall|e: Seq<char>| #[trigger] x1.contains_key(e) implies m1.contains_key(
                        identifier_for(e, x1[e]),
                    ) && m1[identifier_for(e, x1[e])].epc == e by {
                        assert(x0.contains_key(e));
                        assert(e != removed.epc@);
                    }
                    assert forall|k1: Seq<char>, k2: Seq<char>| #![trigger m1[k1], m1[k2]]
                        m1.contains_key(k1) && m1.contains_key(k2) && m1[k1].epc == m1[k2].epc implies k1
                        == k2 by {
                        assert(m0[k1] == m1[k1] && m0[k2] == m1[k2]);
                    }
                }
                Some(removed)
            },
        }
    }
}

} // verus!
