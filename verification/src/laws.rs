//! What holds of the registry across its operations, stated over the
//! specifications that the operations' contracts use.
use vstd::prelude::*;
use crate::models::{TagInputView, TagRecordView};
use crate::tag_list::{
    registry_is_well_formed, record_is_well_formed, input_error, record_for_input, with_record,
    lookup, record_with_epc, created_before, created_since, lemma_normalized_valid_is_stored,
    lemma_stored_identifier_normal,
};
use crate::models::TagRecord;
use crate::sorting::{sorted_records, precedes, in_order, lemma_seq_less_transitive, lemma_seq_less_irreflexive};
use crate::tag_list::lists_exactly;
use crate::text::{
    normalized_hex, normalized_identifier, ascii_upper_seq, lemma_normalized_hex_idempotent,
    lemma_normalized_hex_ignores_case,
};

verus! {

/// A reading that passes every check becomes a well-formed record, whatever
/// its creation time.
pub proof fn law_accepted_input_is_well_formed(i: TagInputView, created_at_ms: u128)
    requires
        input_error(i) is None,
    ensures
        record_is_well_formed(record_for_input(i, created_at_ms)),
{
    lemma_normalized_valid_is_stored(i.epc);
    if let Some(t) = i.tid {
        lemma_normalized_valid_is_stored(t);
    }
}

/// Storing a well-formed record keeps the registry well formed: every record
/// stays under its own identifier, and no two records share an EPC.
pub proof fn law_store_keeps_well_formed(m: Map<Seq<char>, TagRecordView>, r: TagRecordView)
    requires
        registry_is_well_formed(m),
        record_is_well_formed(r),
    ensures
        registry_is_well_formed(with_record(m, r)),
{
    let m2 = with_record(m, r);
    assert(m2.dom() =~= m.dom().filter(|k: Seq<char>| m[k].epc != r.epc).insert(r.identifier));
    assert forall|k1: Seq<char>, k2: Seq<char>| #![trigger m2[k1], m2[k2]]
        m2.contains_key(k1) && m2.contains_key(k2) && m2[k1].epc == m2[k2].epc implies k1 == k2 by {
        if k1 != r.identifier && k2 != r.identifier {
            assert(m[k1] == m2[k1] && m[k2] == m2[k2]);
        }
    }
    assert forall|k: Seq<char>| #[trigger] m2.contains_key(k) implies m2[k].identifier == k
        && record_is_well_formed(m2[k]) by {
        if k != r.identifier {
            assert(m.contains_key(k) && m2[k] == m[k]);
        }
    }
}

/// Once a reading is stored, it is what a lookup finds: by its identifier,
/// by the EPC as it was given, and, when it has one, by the TID as it was
/// given.
pub proof fn law_stored_reading_is_found(
    m: Map<Seq<char>, TagRecordView>,
    i: TagInputView,
    created_at_ms: u128,
)
    requires
        registry_is_well_formed(m),
        input_error(i) is None,
    ensures
        lookup(
            with_record(m, record_for_input(i, created_at_ms)),
            normalized_identifier(record_for_input(i, created_at_ms).identifier),
        ) == Some(record_for_input(i, created_at_ms)),
        record_with_epc(with_record(m, record_for_input(i, created_at_ms)), normalized_hex(i.epc))
            == Some(record_for_input(i, created_at_ms)),
        i.tid is Some ==> lookup(
            with_record(m, record_for_input(i, created_at_ms)),
            normalized_identifier(normalized_hex(i.tid->0)),
        ) == Some(record_for_input(i, created_at_ms)),
{
    let r = record_for_input(i, created_at_ms);
    let m2 = with_record(m, r);
    law_accepted_input_is_well_formed(i, created_at_ms);
    law_store_keeps_well_formed(m, r);
    lemma_stored_identifier_normal(r.epc, r.tid);
    assert(m2.contains_key(r.identifier) && m2[r.identifier].epc == normalized_hex(i.epc));
    let c = choose|k: Seq<char>| m2.contains_key(k) && #[trigger] m2[k].epc == normalized_hex(i.epc);
    assert(c == r.identifier);
    if let Some(t) = i.tid {
        assert(r.identifier == normalized_hex(t));
    }
}

/// Once the record under an identifier is removed, nothing is found under
/// that identifier, nor by that record's EPC.
pub proof fn law_removed_record_is_gone(m: Map<Seq<char>, TagRecordView>, k: Seq<char>)
    requires
        registry_is_well_formed(m),
        m.contains_key(k),
    ensures
        lookup(m.remove(k), k) is None,
        record_with_epc(m.remove(k), m[k].epc) is None,
        registry_is_well_formed(m.remove(k)),
{
    let m2 = m.remove(k);
    if exists|j: Seq<char>| m2.contains_key(j) && #[trigger] m2[j].epc == m[k].epc {
        let j = choose|j: Seq<char>| m2.contains_key(j) && #[trigger] m2[j].epc == m[k].epc;
        assert(m[j] == m2[j]);
    }
    assert forall|k1: Seq<char>, k2: Seq<char>| #![trigger m2[k1], m2[k2]]
        m2.contains_key(k1) && m2.contains_key(k2) && m2[k1].epc == m2[k2].epc implies k1 == k2 by {
        assert(m[k1] == m2[k1] && m[k2] == m2[k2]);
    }
}

/// Storing a reading a second time, with the same EPC and identifier, leaves
/// the registry as storing it once does: one record, the newer one.
pub proof fn law_store_again_replaces(
    m: Map<Seq<char>, TagRecordView>,
    r1: TagRecordView,
    r2: TagRecordView,
)
    requires
        r1.epc == r2.epc,
        r1.identifier == r2.identifier,
    ensures
        with_record(with_record(m, r1), r2) == with_record(m, r2),
{
    assert(with_record(with_record(m, r1), r2) =~= with_record(m, r2));
}

/// Removing the records created before a time keeps exactly the others: the
/// records kept and the records removed part the registry between them.
pub proof fn law_split_by_time(m: Map<Seq<char>, TagRecordView>, ts: u128)
    ensures
        created_since(m, ts).dom().disjoint(created_before(m, ts).dom()),
        created_since(m, ts).union_prefer_right(created_before(m, ts)) == m,
{
    assert(created_since(m, ts).union_prefer_right(created_before(m, ts)) =~= m);
}

/// Normalising an EPC or TID twice gives what normalising it once does.
pub proof fn law_normalize_hex_idempotent(s: Seq<char>)
    ensures
        normalized_hex(normalized_hex(s)) == normalized_hex(s),
{
    lemma_normalized_hex_idempotent(s);
}

/// Lookups by EPC or TID ignore ASCII case: a value and its upper-case form
/// normalise alike.
pub proof fn law_normalize_hex_ignores_case(s: Seq<char>)
    ensures
        normalized_hex(ascii_upper_seq(s)) == normalized_hex(s),
{
    lemma_normalized_hex_ignores_case(s);
}

/// No record strictly precedes another that strictly precedes it.
proof fn lemma_precedes_asymmetric(a: TagRecordView, b: TagRecordView)
    requires
        precedes(a, b, true),
    ensures
        !precedes(b, a, true),
{
    if a.created_at_ms == b.created_at_ms && precedes(b, a, true) {
        lemma_seq_less_transitive(a.identifier, b.identifier, a.identifier);
        lemma_seq_less_irreflexive(a.identifier);
    }
}

/// The listing of all tags is determined by the registry: two lists that each
/// hold every record once, ordered by creation time and then by identifier,
/// are equal. So two calls of `get_all` with no change between them return
/// equal lists (and `get_all`, taking the registry by shared reference,
/// changes nothing).
pub proof fn law_listing_is_unique(
    s1: Seq<TagRecord>,
    s2: Seq<TagRecord>,
    m: Map<Seq<char>, TagRecordView>,
)
    requires
        lists_exactly(s1, m),
        sorted_records(s1, true),
        lists_exactly(s2, m),
        sorted_records(s2, true),
    ensures
        s1.len() == s2.len(),
        forall|i: int| 0 <= i < s1.len() ==> #[trigger] s1[i]@ == s2[i]@,
    decreases s1.len(),
{
    if s1.len() == 0 {
        if s2.len() > 0 {
            assert(m.contains_key(s2[0].identifier@));
        }
    } else {
        assert(m.contains_key(s1[0].identifier@));
        let a = s1[0];
        assert(s2.len() > 0) by {
            let i = choose|i: int| 0 <= i < s2.len() && #[trigger] s2[i].identifier@ == a.identifier@;
        }
        let b = s2[0];
        if a.identifier@ != b.identifier@ {
            assert(m.contains_key(b.identifier@));
            let j = choose|j: int| 0 <= j < s1.len() && #[trigger] s1[j].identifier@ == b.identifier@;
            let k = choose|k: int| 0 <= k < s2.len() && #[trigger] s2[k].identifier@ == a.identifier@;
            assert(j != 0 && k != 0);
            assert(in_order(s1[0]@, s1[j]@, true));
            assert(in_order(s2[0]@, s2[k]@, true));
            assert(s1[j]@ == b@);
            assert(s2[k]@ == a@);
            lemma_precedes_asymmetric(a@, b@);
            assert(false);
        }
        assert(a@ == b@);
        let key = a.identifier@;
        let m2 = m.remove(key);
        let t1 = s1.drop_first();
        let t2 = s2.drop_first();
        lemma_listing_without_first(s1, m);
        lemma_listing_without_first(s2, m);
        law_listing_is_unique(t1, t2, m2);
        assert forall|i: int| 0 <= i < s1.len() implies #[trigger] s1[i]@ == s2[i]@ by {
            if i > 0 {
                assert(t1[i - 1] == s1[i] && t2[i - 1] == s2[i]);
            }
        }
    }
}

/// A sorted listing without its first record lists the registry without that record.
proof fn lemma_listing_without_first(s: Seq<TagRecord>, m: Map<Seq<char>, TagRecordView>)
    requires
        s.len() > 0,
        lists_exactly(s, m),
        sorted_records(s, true),
    ensures
        lists_exactly(s.drop_first(), m.remove(s[0].identifier@)),
        sorted_records(s.drop_first(), true),
{
    let t = s.drop_first();
    let m2 = m.remove(s[0].identifier@);
    assert forall|i: int| #![trigger t[i]] 0 <= i < t.len() implies m2.contains_key(t[i].identifier@)
        && m2[t[i].identifier@] == t[i]@ by {
        assert(t[i] == s[i + 1]);
        assert(s[0].identifier@ != s[i + 1].identifier@);
    }
    assert forall|k: Seq<char>| #[trigger] m2.contains_key(k) implies exists|i: int|
        0 <= i < t.len() && #[trigger] t[i].identifier@ == k by {
        let i = choose|i: int| 0 <= i < s.len() && #[trigger] s[i].identifier@ == k;
        assert(i != 0);
        assert(t[i - 1] == s[i]);
    }
    assert forall|a: int, b: int| 0 <= a < b < t.len() implies #[trigger] t[a].identifier@
        != #[trigger] t[b].identifier@ by {
        assert(t[a] == s[a + 1] && t[b] == s[b + 1]);
    }
    assert forall|a: int, b: int| 0 <= a < b < t.len() implies #[trigger] in_order(
        t[a]@,
        t[b]@,
        true,
    ) by {
        assert(t[a] == s[a + 1] && t[b] == s[b + 1]);
    }
}

} // verus!
