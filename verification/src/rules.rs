//! The library's rules stated in plain terms, each proved of the
//! specifications that the operations' contracts use: which readings are
//! accepted, how identifiers and lookups treat case and white space, how
//! listings are ordered, and which records a cut-off by time removes.
use vstd::prelude::*;
use crate::models::{TagInputView, TagRecordView};
use crate::sorting::{seq_less, precedes, in_order};
use crate::tag_list::{
    input_error, record_for_input, with_record, lookup, record_with_epc, created_before, created_since,
    registry_is_well_formed, record_is_well_formed, identifier_for,
    lemma_stored_identifier_normal,
};
use crate::text::{
    normalized_hex, normalized_identifier, ascii_upper, ascii_upper_seq, trim, is_white_space,
    lemma_trim_upper, lemma_normalized_hex_ignores_case, lemma_upper_keeps_white_space,
    lemma_trim_ends, lemma_trim_unchanged, lemma_upper_unchanged,
};
use crate::validation::TagListError;

verus! {

/// A character `0`-`9`, `a`-`f` or `A`-`F`.
pub open spec fn hex_char(c: char) -> bool {
    ('0' <= c <= '9') || ('a' <= c <= 'f') || ('A' <= c <= 'F')
}

/// Every character of `s` is `0`-`9`, `a`-`f` or `A`-`F`.
pub open spec fn hex_chars(s: Seq<char>) -> bool {
    forall|j: int| 0 <= j < s.len() ==> hex_char(#[trigger] s[j])
}

/// The EPC rule: once trimmed and upper-cased, an accepted EPC is non-empty,
/// its length is a multiple of 4 and its characters are hexadecimal digits;
/// any other EPC is refused with `InvalidEpc`, before any other check.
pub proof fn law_epc_rule(i: TagInputView)
    ensures
        input_error(i) is None ==> normalized_hex(i.epc).len() > 0,
        input_error(i) is None ==> normalized_hex(i.epc).len() % 4 == 0,
        input_error(i) is None ==> hex_chars(normalized_hex(i.epc)),
        normalized_hex(i.epc).len() == 0 ==> input_error(i) == Some(TagListError::InvalidEpc),
        normalized_hex(i.epc).len() % 4 != 0 ==> input_error(i) == Some(TagListError::InvalidEpc),
        !hex_chars(normalized_hex(i.epc)) ==> input_error(i) == Some(TagListError::InvalidEpc),
{
}

/// The TID rule: with a valid EPC, a reading whose trimmed, upper-cased TID
/// is not exactly 24 hexadecimal digits is refused with `InvalidTid`; an
/// accepted reading's TID, if any, is 24 hexadecimal digits.
pub proof fn law_tid_rule(i: TagInputView)
    ensures
        input_error(i) is None && i.tid is Some ==> normalized_hex(i.tid->0).len() == 24 && hex_chars(
            normalized_hex(i.tid->0),
        ),
        ({
            let e = normalized_hex(i.epc);
            &&& e.len() > 0 && e.len() % 4 == 0 && hex_chars(e)
            &&& i.tid is Some
            &&& (normalized_hex(i.tid->0).len() != 24 || !hex_chars(normalized_hex(i.tid->0)))
        }) ==> input_error(i) == Some(TagListError::InvalidTid),
{
}

/// The antenna and signal rules, and that a reading meeting every rule is
/// accepted: antenna above 0, signal from -255 to -1, checked after EPC and
/// TID, antenna first.
pub proof fn law_ant_rssi_rule(i: TagInputView)
    ensures
        input_error(i) is None ==> i.ant > 0 && -255 <= i.rssi <= -1,
        ({
            let e = normalized_hex(i.epc);
            &&& e.len() > 0 && e.len() % 4 == 0 && hex_chars(e)
            &&& (i.tid is Some ==> normalized_hex(i.tid->0).len() == 24 && hex_chars(
                normalized_hex(i.tid->0),
            ))
        }) ==> input_error(i) == (if i.ant <= 0 {
            Some(TagListError::InvalidAnt)
        } else if i.rssi < -255 || i.rssi > -1 {
            Some(TagListError::InvalidRssi)
        } else {
            None
        }),
{
}

/// A stored reading keeps its normalised EPC and TID, antenna, signal and
/// time, and its identifier is its TID, or `_` followed by its EPC when it has
/// no TID.
pub proof fn law_record_of_reading(i: TagInputView, created_at_ms: u128)
    ensures
        record_for_input(i, created_at_ms).epc == normalized_hex(i.epc),
        record_for_input(i, created_at_ms).ant == i.ant,
        record_for_input(i, created_at_ms).rssi == i.rssi,
        record_for_input(i, created_at_ms).created_at_ms == created_at_ms,
        i.tid is Some ==> record_for_input(i, created_at_ms).tid == Some(normalized_hex(i.tid->0)),
        i.tid is Some ==> record_for_input(i, created_at_ms).identifier == normalized_hex(i.tid->0),
        i.tid is None ==> record_for_input(i, created_at_ms).tid is None,
        i.tid is None ==> record_for_input(i, created_at_ms).identifier == seq!['_'] + normalized_hex(i.epc),
{
}

/// Upper-casing moves `a`-`z` down by 32 code points and leaves every other
/// character alone; a sequence is upper-cased character by character, in
/// place.
pub proof fn law_ascii_upper(c: char, s: Seq<char>)
    ensures
        'a' <= c <= 'z' ==> ascii_upper(c) as u32 == (c as u32) - 32,
        !('a' <= c <= 'z') ==> ascii_upper(c) == c,
        ascii_upper_seq(s).len() == s.len(),
        forall|j: int| 0 <= j < s.len() ==> #[trigger] ascii_upper_seq(s)[j] == ascii_upper(s[j]),
{
    lemma_upper_keeps_white_space(c);
}

/// A lookup finds exactly what is stored under the key, and nothing when the
/// key is absent.
pub proof fn law_lookup(m: Map<Seq<char>, TagRecordView>, k: Seq<char>, v: TagRecordView)
    ensures
        lookup(m, k) == Some(v) <==> (m.contains_key(k) && m[k] == v),
        lookup(m, k) is None <==> !m.contains_key(k),
{
}

/// In a well-formed registry, the lookup by EPC finds the one record with
/// that EPC, and nothing when no record has it.
pub proof fn law_record_with_epc(m: Map<Seq<char>, TagRecordView>, e: Seq<char>, k: Seq<char>)
    requires
        registry_is_well_formed(m),
    ensures
        m.contains_key(k) && m[k].epc == e ==> record_with_epc(m, e) == Some(m[k]),
        record_with_epc(m, e) is Some ==> m.contains_key(record_with_epc(m, e)->0.identifier)
            && m[record_with_epc(m, e)->0.identifier] == record_with_epc(m, e)->0
            && record_with_epc(m, e)->0.epc == e,
        (forall|j: Seq<char>| m.contains_key(j) ==> #[trigger] m[j].epc != e) ==> record_with_epc(m, e) is None,
{
    if exists|j: Seq<char>| m.contains_key(j) && #[trigger] m[j].epc == e {
        let c = choose|j: Seq<char>| m.contains_key(j) && #[trigger] m[j].epc == e;
        assert(m[c].identifier == c);
        if m.contains_key(k) && m[k].epc == e {
            assert(c == k);
        }
    }
}

/// Normalising an EPC or TID leaves no lower-case ASCII letter, ignores white
/// space around the value, and upper-cases a value without such white space
/// character by character.
pub proof fn law_normalized_hex_shape(s: Seq<char>, c: char)
    ensures
        forall|j: int| 0 <= j < normalized_hex(s).len() ==> !('a' <= #[trigger] normalized_hex(s)[j] <= 'z'),
        is_white_space(c) ==> normalized_hex(seq![c] + s) == normalized_hex(s),
        is_white_space(c) ==> normalized_hex(s + seq![c]) == normalized_hex(s),
        (s.len() > 0 ==> !is_white_space(s[0]) && !is_white_space(s.last())) ==> normalized_hex(s)
            == ascii_upper_seq(s),
{
    let t = trim(s);
    assert forall|j: int| 0 <= j < normalized_hex(s).len() implies !('a' <= #[trigger] normalized_hex(
        s,
    )[j] <= 'z') by {
        lemma_upper_keeps_white_space(t[j]);
    }
    if is_white_space(c) {
        let a = seq![c] + s;
        assert(a.drop_first() =~= s);
        let b = s + seq![c];
        assert(b.drop_last() =~= s);
        lemma_trim_start_of_end_ws(s, c);
    }
    if s.len() > 0 ==> !is_white_space(s[0]) && !is_white_space(s.last()) {
        lemma_trim_unchanged(s);
    }
}

/// Trailing white space added to a sequence is cut off by trimming.
proof fn lemma_trim_start_of_end_ws(s: Seq<char>, c: char)
    requires
        is_white_space(c),
    ensures
        trim(s + seq![c]) == trim(s),
    decreases s.len(),
{
    let b = s + seq![c];
    if s.len() > 0 && is_white_space(s[0]) {
        assert(b[0] == s[0]);
        assert(b.drop_first() =~= s.drop_first() + seq![c]);
        lemma_trim_start_of_end_ws(s.drop_first(), c);
    } else if s.len() == 0 {
        assert(b.drop_first() =~= s);
    } else {
        assert(b[0] == s[0]);
        assert(crate::text::trim_start(b) == b);
        assert(crate::text::trim_start(s) == s);
        assert(b.drop_last() =~= s);
    }
}

/// Identifier lookups ignore ASCII case: an identifier and its upper-case
/// form normalise alike, and a normalised identifier holds no lower-case
/// ASCII letter. An identifier that, once trimmed, does not start with `_` is
/// normalised as an EPC or TID is; one that does keeps the `_` and has the
/// rest normalised so.
pub proof fn law_identifier_ignores_case(s: Seq<char>)
    ensures
        normalized_identifier(ascii_upper_seq(s)) == normalized_identifier(s),
        forall|j: int| 0 <= j < normalized_identifier(s).len() ==> !('a' <= #[trigger] normalized_identifier(s)[j] <= 'z'),
        !(trim(s).len() > 0 && trim(s)[0] == '_') ==> normalized_identifier(s) == normalized_hex(s),
        (trim(s).len() > 0 && trim(s)[0] == '_') ==> normalized_identifier(s) == seq!['_'] + normalized_hex(
            trim(s).drop_first(),
        ),
{
    let t = trim(s);
    let u = ascii_upper_seq(t);
    lemma_trim_upper(s);
    assert(trim(ascii_upper_seq(s)) == u);
    if t.len() > 0 {
        lemma_upper_keeps_white_space(t[0]);
        assert(u[0] == ascii_upper(t[0]));
    }
    if t.len() > 0 && t[0] == '_' {
        assert(u.drop_first() =~= ascii_upper_seq(t.drop_first()));
        lemma_normalized_hex_ignores_case(t.drop_first());
        let r = normalized_hex(t.drop_first());
        assert forall|j: int| 0 <= j < normalized_identifier(s).len() implies !('a' <= #[trigger] normalized_identifier(
            s,
        )[j] <= 'z') by {
            if j > 0 {
                assert(normalized_identifier(s)[j] == r[j - 1]);
                law_normalized_hex_shape(t.drop_first(), ' ');
            }
        }
    } else {
        lemma_normalized_hex_ignores_case(t);
        law_normalized_hex_shape(t, ' ');
        lemma_trim_ends(s);
        lemma_trim_unchanged(t);
    }
}

/// A stored record is found by its identifier written in any ASCII case: so
/// `get_by_id` and `remove` reach it whatever case the caller uses.
pub proof fn law_stored_identifier_any_case(m: Map<Seq<char>, TagRecordView>, k: Seq<char>, s: Seq<char>)
    requires
        registry_is_well_formed(m),
        m.contains_key(k),
        ascii_upper_seq(s) == k,
    ensures
        normalized_identifier(s) == k,
        lookup(m, normalized_identifier(s)) == Some(m[k]),
{
    assert(record_is_well_formed(m[k]));
    lemma_stored_identifier_normal(m[k].epc, m[k].tid);
    law_identifier_ignores_case(s);
}

/// String order: a proper prefix comes first, and otherwise the first
/// differing character decides, by `char` order (code point order).
pub proof fn law_seq_less_is_string_order(a: Seq<char>, b: Seq<char>, i: int)
    ensures
        0 <= i < a.len() && i < b.len() && a.take(i) == b.take(i) && a[i] != b[i] ==> (seq_less(a, b)
            <==> a[i] < b[i]),
        a.len() < b.len() && a == b.take(a.len() as int) ==> seq_less(a, b),
        !seq_less(a, a),
    decreases a.len(),
{
    crate::sorting::lemma_seq_less_irreflexive(a);
    if a.len() > 0 && b.len() > 0 {
        if i > 0 && 0 <= i < a.len() && i < b.len() && a.take(i) == b.take(i) && a[i] != b[i] {
            assert(a[0] == a.take(i)[0] && b[0] == b.take(i)[0]);
            assert(a.drop_first().take(i - 1) =~= b.drop_first().take(i - 1)) by {
                assert forall|j: int| 0 <= j < i - 1 implies #[trigger] a.drop_first().take(i - 1)[j] == b.drop_first().take(i - 1)[j] by {
                    assert(a.take(i)[j + 1] == b.take(i)[j + 1]);
                }
            }
            law_seq_less_is_string_order(a.drop_first(), b.drop_first(), i - 1);
        }
        if a.len() < b.len() && a == b.take(a.len() as int) {
            assert(a[0] == b[0]);
            assert(a.drop_first() =~= b.drop_first().take(a.len() - 1));
            law_seq_less_is_string_order(a.drop_first(), b.drop_first(), 0);
        }
    }
}

/// Listings order by creation time, and by identifier in string order among
/// records created in the same millisecond; the removal by time orders by
/// creation time alone.
pub proof fn law_listing_order(a: TagRecordView, b: TagRecordView)
    ensures
        in_order(a, b, true) <==> (a.created_at_ms < b.created_at_ms || (a.created_at_ms == b.created_at_ms
            && seq_less(a.identifier, b.identifier))),
        in_order(a, b, false) <==> a.created_at_ms <= b.created_at_ms,
        precedes(a, b, true) ==> !precedes(b, a, true),
{
    if precedes(a, b, true) && precedes(b, a, true) {
        crate::sorting::lemma_seq_less_transitive(a.identifier, b.identifier, a.identifier);
        crate::sorting::lemma_seq_less_irreflexive(a.identifier);
    }
}

/// The cut-off by time: the records removed are exactly those created
/// strictly before the time, and the records kept exactly those created at
/// that time or later, each unchanged.
pub proof fn law_cut_off_by_time(m: Map<Seq<char>, TagRecordView>, ts: u128, k: Seq<char>)
    ensures
        created_before(m, ts).contains_key(k) <==> (m.contains_key(k) && m[k].created_at_ms < ts),
        created_since(m, ts).contains_key(k) <==> (m.contains_key(k) && m[k].created_at_ms >= ts),
        created_before(m, ts).contains_key(k) ==> created_before(m, ts)[k] == m[k],
        created_since(m, ts).contains_key(k) ==> created_since(m, ts)[k] == m[k],
{
}

/// Storing a record: it stands under its identifier; no other record keeps its
/// EPC; every other record whose EPC and identifier differ from it is kept
/// unchanged; and nothing else appears.
pub proof fn law_store_effect(m: Map<Seq<char>, TagRecordView>, r: TagRecordView, k: Seq<char>)
    ensures
        with_record(m, r).contains_key(r.identifier) && with_record(m, r)[r.identifier] == r,
        k != r.identifier && with_record(m, r).contains_key(k) ==> with_record(m, r)[k].epc != r.epc,
        k != r.identifier && m.contains_key(k) && m[k].epc != r.epc ==> with_record(m, r).contains_key(k)
            && with_record(m, r)[k] == m[k],
        k != r.identifier && with_record(m, r).contains_key(k) ==> m.contains_key(k) && with_record(m, r)[k]
            == m[k],
        k != r.identifier && m.contains_key(k) && m[k].epc == r.epc ==> !with_record(m, r).contains_key(k),
{
}

} // verus!
