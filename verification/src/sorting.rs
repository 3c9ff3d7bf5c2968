//! Ordering of records: by creation time, and by identifier among records
//! created in the same millisecond, as the listing of all tags orders them.
use vstd::prelude::*;
use crate::models::{TagRecord, TagRecordView};
use crate::text::chars_of;

verus! {

/// Strict lexicographic order on character sequences, by code point; for
/// `String`s this is the order of `<`, which compares UTF-8 bytes.
pub open spec fn seq_less(a: Seq<char>, b: Seq<char>) -> bool
    decreases a.len(),
{
    if a.len() == 0 {
        b.len() > 0
    } else if b.len() == 0 {
        false
    } else if a[0] != b[0] {
        a[0] < b[0]
    } else {
        seq_less(a.drop_first(), b.drop_first())
    }
}

/// `seq_less` is transitive.
pub proof fn lemma_seq_less_transitive(a: Seq<char>, b: Seq<char>, c: Seq<char>)
    requires
        seq_less(a, b),
        seq_less(b, c),
    ensures
        seq_less(a, c),
    decreases a.len(),
{
    if a.len() > 0 && b.len() > 0 && c.len() > 0 && a[0] == b[0] && b[0] == c[0] {
        lemma_seq_less_transitive(a.drop_first(), b.drop_first(), c.drop_first());
    }
}

/// `seq_less` is irreflexive.
pub proof fn lemma_seq_less_irreflexive(a: Seq<char>)
    ensures
        !seq_less(a, a),
    decreases a.len(),
{
    if a.len() > 0 {
        lemma_seq_less_irreflexive(a.drop_first());
    }
}

/// Two different sequences are ordered one way or the other.
pub proof fn lemma_seq_less_total(a: Seq<char>, b: Seq<char>)
    requires
        a != b,
    ensures
        seq_less(a, b) || seq_less(b, a),
    decreases a.len(),
{
    if a.len() == 0 {
        if b.len() == 0 {
            assert(a =~= b);
        }
    } else if b.len() == 0 {
    } else if a[0] != b[0] {
    } else {
        if a.drop_first() == b.drop_first() {
            assert(a =~= seq![a[0]] + a.drop_first());
            assert(b =~= seq![b[0]] + b.drop_first());
        }
        lemma_seq_less_total(a.drop_first(), b.drop_first());
    }
}

/// Whether `a` comes strictly before `b` in string order.
pub fn str_less(a: &str, b: &str) -> (r: bool)
    ensures
        r == seq_less(a@, b@),
{
    let x = chars_of(a);
    let y = chars_of(b);
    let mut i: usize = 0;
    assert(a@.skip(0) =~= a@);
    assert(b@.skip(0) =~= b@);
    while i < x.len() && i < y.len() && x[i] == y[i]
        invariant
            x@ == a@,
            y@ == b@,
            i <= x.len(),
            i <= y.len(),
            seq_less(a@, b@) == seq_less(a@.skip(i as int), b@.skip(i as int)),
        decreases x.len() - i,
    {
        assert(a@.skip(i as int).drop_first() =~= a@.skip(i + 1));
        assert(b@.skip(i as int).drop_first() =~= b@.skip(i + 1));
        i = i + 1;
    }
    if i == x.len() {
        i < y.len()
    } else if i == y.len() {
        false
    } else {
        assert(a@.skip(i as int)[0] == x@[i as int]);
        assert(b@.skip(i as int)[0] == y@[i as int]);
        x[i] < y[i]
    }
}

/// `a` comes strictly before `b`: it was created earlier or, when
/// `by_identifier` holds and both were created in the same millisecond, its
/// identifier is smaller.
pub open spec fn precedes(a: TagRecordView, b: TagRecordView, by_identifier: bool) -> bool {
    ||| a.created_at_ms < b.created_at_ms
    ||| by_identifier && a.created_at_ms == b.created_at_ms && seq_less(a.identifier, b.identifier)
}

/// `a` may stand before `b` in a sorted list: it precedes `b` or, when ties
/// are left unbroken, was created in the same millisecond.
pub open spec fn in_order(a: TagRecordView, b: TagRecordView, by_identifier: bool) -> bool {
    ||| precedes(a, b, by_identifier)
    ||| !by_identifier && a.created_at_ms == b.created_at_ms
}

/// `s` lists its records in order.
pub open spec fn sorted_records(s: Seq<TagRecord>, by_identifier: bool) -> bool {
    forall|i: int, j: int|
        0 <= i < j < s.len() ==> #[trigger] in_order(s[i]@, s[j]@, by_identifier)
}

/// No two records of `s` share an identifier.
pub open spec fn distinct_identifiers(s: Seq<TagRecord>) -> bool {
    forall|i: int, j: int|
        0 <= i < j < s.len() ==> #[trigger] s[i].identifier@ != #[trigger] s[j].identifier@
}

/// Every record of `s` equals, as a value, one of the first `n` records of `t`.
#[verifier::opaque]
pub open spec fn drawn_from(s: Seq<TagRecord>, t: Seq<TagRecord>, n: int) -> bool {
    forall|a: int| #![trigger s[a]] 0 <= a < s.len() ==> exists|j: int| 0 <= j < n && #[trigger] t[j]@ == s[a]@
}

/// Whether `a` comes strictly before `b`.
fn record_precedes(a: &TagRecord, b: &TagRecord, by_identifier: bool) -> (r: bool)
    ensures
        r == precedes(a@, b@, by_identifier),
{
    if a.created_at_ms < b.created_at_ms {
        true
    } else if by_identifier && a.created_at_ms == b.created_at_ms {
        str_less(a.identifier.as_str(), b.identifier.as_str())
    } else {
        false
    }
}

proof fn lemma_not_precedes_in_order(x: TagRecordView, y: TagRecordView, by_identifier: bool)
    requires
        !precedes(x, y, by_identifier),
        x.identifier != y.identifier,
    ensures
        in_order(y, x, by_identifier),
{
    if by_identifier && x.created_at_ms == y.created_at_ms {
        lemma_seq_less_total(x.identifier, y.identifier);
    }
}

proof fn lemma_precedes_then_in_order(
    a: TagRecordView,
    b: TagRecordView,
    c: TagRecordView,
    by_identifier: bool,
)
    requires
        precedes(a, b, by_identifier),
        in_order(b, c, by_identifier),
    ensures
        in_order(a, c, by_identifier),
{
    if by_identifier && a.created_at_ms == b.created_at_ms && b.created_at_ms == c.created_at_ms {
        lemma_seq_less_transitive(a.identifier, b.identifier, c.identifier);
    }
}

proof fn lemma_insert_sorted(before: Seq<TagRecord>, x: TagRecord, p: int, by_identifier: bool)
    requires
        0 <= p <= before.len(),
        sorted_records(before, by_identifier),
        distinct_identifiers(before),
        forall|q: int| 0 <= q < p ==> !precedes(x@, #[trigger] before[q]@, by_identifier),
        p < before.len() ==> precedes(x@, before[p]@, by_identifier),
        forall|q: int| 0 <= q < before.len() ==> #[trigger] before[q].identifier@ != x.identifier@,
    ensures
        sorted_records(before.insert(p, x), by_identifier),
        distinct_identifiers(before.insert(p, x)),
{
    let after = before.insert(p, x);
    assert forall|a: int, b: int| 0 <= a < b < after.len() implies #[trigger] in_order(
        after[a]@,
        after[b]@,
        by_identifier,
    ) by {
        if b < p {
            assert(after[a] == before[a] && after[b] == before[b]);
        } else if b == p {
            assert(after[a] == before[a]);
            lemma_not_precedes_in_order(x@, before[a]@, by_identifier);
        } else if a == p {
            assert(after[b] == before[b - 1]);
            if b - 1 > p {
                assert(in_order(before[p]@, before[b - 1]@, by_identifier));
                lemma_precedes_then_in_order(x@, before[p]@, before[b - 1]@, by_identifier);
            }
        } else if a < p {
            assert(after[a] == before[a] && after[b] == before[b - 1]);
        } else {
            assert(after[a] == before[a - 1] && after[b] == before[b - 1]);
        }
    }
    assert forall|a: int, b: int| 0 <= a < b < after.len() implies #[trigger] after[a].identifier@
        != #[trigger] after[b].identifier@ by {
        if b < p {
            assert(after[a] == before[a] && after[b] == before[b]);
        } else if b == p {
            assert(after[a] == before[a]);
        } else if a == p {
            assert(after[b] == before[b - 1]);
        } else if a < p {
            assert(after[a] == before[a] && after[b] == before[b - 1]);
        } else {
            assert(after[a] == before[a - 1] && after[b] == before[b - 1]);
        }
    }
}

proof fn lemma_insert_members(v: Seq<TagRecord>, before: Seq<TagRecord>, x: TagRecord, p: int, i: int)
    requires
        0 <= p <= before.len(),
        0 <= i < v.len(),
        x@ == v[i]@,
        drawn_from(before, v, i),
        drawn_from(v.take(i), before, before.len() as int),
    ensures
        drawn_from(before.insert(p, x), v, i + 1),
        drawn_from(v.take(i + 1), before.insert(p, x), before.len() + 1int),
{
    reveal(drawn_from);
    let after = before.insert(p, x);
    assert forall|a: int| #![trigger after[a]] 0 <= a < after.len() implies exists|j: int|
        0 <= j < i + 1 && #[trigger] v[j]@ == after[a]@ by {
        if a < p {
            assert(after[a] == before[a]);
            let j = choose|j: int| 0 <= j < i && #[trigger] v[j]@ == before[a]@;
            assert(v[j]@ == after[a]@);
        } else if a == p {
            assert(v[i]@ == after[a]@);
        } else {
            assert(after[a] == before[a - 1]);
            let j = choose|j: int| 0 <= j < i && #[trigger] v[j]@ == before[a - 1]@;
            assert(v[j]@ == after[a]@);
        }
    }
    let s = v.take(i + 1);
    let n = before.len() + 1int;
    assert forall|j: int| #![trigger s[j]] 0 <= j < s.len() implies exists|a: int|
        0 <= a < n && #[trigger] after[a]@ == s[j]@ by {
        assert(s[j] == v[j]);
        if j == i {
            assert(after[p]@ == s[j]@);
        } else {
            assert(v.take(i)[j] == v[j]);
            let a = choose|a: int| 0 <= a < before.len() && #[trigger] before[a]@ == v.take(i)[j]@;
            if a < p {
                assert(after[a] == before[a]);
                assert(after[a]@ == s[j]@);
            } else {
                assert(after[a + 1] == before[a]);
                assert(after[a + 1]@ == s[j]@);
            }
        }
    }
    assert(after == before.insert(p, x));
    assert(drawn_from(v.take(i + 1), after, before.len() + 1int));
}

/// The first position in `out` whose record `x` precedes.
fn insert_position(out: &Vec<TagRecord>, x: &TagRecord, by_identifier: bool) -> (p: usize)
    ensures
        p <= out@.len(),
        forall|q: int| 0 <= q < p ==> !precedes(x@, #[trigger] out@[q]@, by_identifier),
        p < out@.len() ==> precedes(x@, out@[p as int]@, by_identifier),
{
    let mut p: usize = 0;
    while p < out.len() && !record_precedes(x, &out[p], by_identifier)
        invariant
            p <= out@.len(),
            forall|q: int| 0 <= q < p ==> !precedes(x@, #[trigger] out@[q]@, by_identifier),
        decreases out@.len() - p,
    {
        p = p + 1;
    }
    p
}

proof fn lemma_new_identifier(v: Seq<TagRecord>, before: Seq<TagRecord>, i: int)
    requires
        0 <= i < v.len(),
        distinct_identifiers(v),
        drawn_from(before, v, i),
    ensures
        forall|q: int| 0 <= q < before.len() ==> #[trigger] before[q].identifier@ != v[i].identifier@,
{
    reveal(drawn_from);
    assert forall|q: int| 0 <= q < before.len() implies #[trigger] before[q].identifier@
        != v[i].identifier@ by {
        let j = choose|j: int| 0 <= j < i && #[trigger] v[j]@ == before[q]@;
        assert(v[j].identifier@ == before[q].identifier@);
    }
}

/// Sorts records whose identifiers are all different, by creation time and,
/// when `by_identifier` holds, by identifier among equal creation times;
/// records created in the same millisecond otherwise keep their relative order.
pub fn sort_records(v: Vec<TagRecord>, by_identifier: bool) -> (r: Vec<TagRecord>)
    requires
        distinct_identifiers(v@),
    ensures
        r@.len() == v@.len(),
        drawn_from(r@, v@, v@.len() as int),
        drawn_from(v@, r@, r@.len() as int),
        distinct_identifiers(r@),
        sorted_records(r@, by_identifier),
{
    let mut out: Vec<TagRecord> = Vec::new();
    let n = v.len();
    let mut i: usize = 0;
    proof {
        reveal(drawn_from);
    }
    while i < n
        invariant
            n == v.len(),
            i <= n,
            distinct_identifiers(v@),
            out@.len() == i,
            drawn_from(out@, v@, i as int),
            drawn_from(v@.take(i as int), out@, out@.len() as int),
            distinct_identifiers(out@),
            sorted_records(out@, by_identifier),
        decreases n - i,
    {
        let x = v[i].clone();
        let p = insert_position(&out, &x, by_identifier);
        let ghost before = out@;
        proof {
            lemma_new_identifier(v@, before, i as int);
        }
        out.insert(p, x);
        proof {
            lemma_insert_sorted(before, x, p as int, by_identifier);
            lemma_insert_members(v@, before, x, p as int, i as int);
        }
        i = i + 1;
    }
    assert(v@.take(n as int) =~= v@);
    out
}

} // verus!
