//! Character-level text handling: collecting characters, trimming and
//! upper-casing, as used to normalise EPC, TID and identifier strings.
use vstd::prelude::*;

verus! {

/// The Unicode `White_Space` property, the set of characters that
/// `char::is_whitespace` (and so `str::trim`) recognises.
pub open spec fn is_white_space(c: char) -> bool {
    let n = c as u32;
    ||| 0x9 <= n <= 0xd
    ||| n == 0x20
    ||| n == 0x85
    ||| n == 0xa0
    ||| n == 0x1680
    ||| 0x2000 <= n <= 0x200a
    ||| n == 0x2028
    ||| n == 0x2029
    ||| n == 0x202f
    ||| n == 0x205f
    ||| n == 0x3000
}

/// `s` without its leading white space.
pub open spec fn trim_start(s: Seq<char>) -> Seq<char>
    decreases s.len(),
{
    if s.len() > 0 && is_white_space(s[0]) {
        trim_start(s.drop_first())
    } else {
        s
    }
}

/// `s` without its trailing white space.
pub open spec fn trim_end(s: Seq<char>) -> Seq<char>
    decreases s.len(),
{
    if s.len() > 0 && is_white_space(s.last()) {
        trim_end(s.drop_last())
    } else {
        s
    }
}

/// `s` without leading and trailing white space, as `str::trim` gives it.
pub open spec fn trim(s: Seq<char>) -> Seq<char> {
    trim_end(trim_start(s))
}

/// The ASCII upper-case form of one character: `a`..`z` become `A`..`Z`,
/// every other character stays as it is.
pub open spec fn ascii_upper(c: char) -> char {
    if 'a' <= c <= 'z' {
        ((c as u32) - 32) as char
    } else {
        c
    }
}

/// `s` with each character upper-cased as `str::to_ascii_uppercase` does.
pub open spec fn ascii_upper_seq(s: Seq<char>) -> Seq<char> {
    s.map_values(|c: char| ascii_upper(c))
}

/// Whether `c` has the Unicode `White_Space` property.
pub fn is_whitespace_char(c: char) -> (b: bool)
    ensures
        b == is_white_space(c),
{
    let n = c as u32;
    (0x9 <= n && n <= 0xd) || n == 0x20 || n == 0x85 || n == 0xa0 || n == 0x1680 || (0x2000 <= n
        && n <= 0x200a) || n == 0x2028 || n == 0x2029 || n == 0x202f || n == 0x205f || n == 0x3000
}

/// The ASCII upper-case form of `c`.
pub fn to_ascii_upper(c: char) -> (u: char)
    ensures
        u == ascii_upper(c),
{
    if 'a' <= c && c <= 'z' {
        let b = (c as u8) - 32;
        b as char
    } else {
        c
    }
}

/// Appends one character to a `String` (std's `String::push`).
#[verifier::external_body]
pub(crate) fn push_char(s: &mut String, c: char)
    ensures
        final(s)@ == old(s)@.push(c),
{
    s.push(c)
}

/// Collects the characters of `s`, in order.
pub fn chars_of(s: &str) -> (v: Vec<char>)
    ensures
        v@ == s@,
{
    let mut v: Vec<char> = Vec::new();
    for c in it: s.chars()
        invariant
            v@ == it.seq().take(it.index() as int),
            it.seq() == s@,
    {
        v.push(c);
    }
    v
}

proof fn lemma_trim_start_skip(s: Seq<char>, i: int)
    requires
        0 <= i <= s.len(),
        forall|k: int| 0 <= k < i ==> is_white_space(#[trigger] s[k]),
        i == s.len() || !is_white_space(s[i]),
    ensures
        trim_start(s) == s.skip(i),
    decreases i,
{
    if i == 0 {
        assert(s.skip(0) =~= s);
    } else {
        let t = s.drop_first();
        assert forall|k: int| 0 <= k < i - 1 implies is_white_space(#[trigger] t[k]) by {
            assert(t[k] == s[k + 1]);
        }
        lemma_trim_start_skip(t, i - 1);
        assert(t.skip(i - 1) =~= s.skip(i));
    }
}

proof fn lemma_trim_end_take(s: Seq<char>, j: int)
    requires
        0 <= j <= s.len(),
        forall|k: int| j <= k < s.len() ==> is_white_space(#[trigger] s[k]),
        j == 0 || !is_white_space(s[j - 1]),
    ensures
        trim_end(s) == s.take(j),
    decreases s.len() - j,
{
    if j == s.len() {
        assert(s.take(j) =~= s);
    } else {
        let t = s.drop_last();
        assert forall|k: int| j <= k < t.len() implies is_white_space(#[trigger] t[k]) by {
            assert(t[k] == s[k]);
        }
        lemma_trim_end_take(t, j);
        assert(t.take(j) =~= s.take(j));
    }
}

/// The bounds of `cs[lo..hi]` once leading and trailing white space is cut off.
fn trim_bounds(cs: &Vec<char>, lo: usize, hi: usize) -> (r: (usize, usize))
    requires
        lo <= hi <= cs.len(),
    ensures
        lo <= r.0 <= r.1 <= hi,
        trim(cs@.subrange(lo as int, hi as int)) == cs@.subrange(r.0 as int, r.1 as int),
{
    let ghost s = cs@.subrange(lo as int, hi as int);
    let mut start: usize = lo;
    while start < hi && is_whitespace_char(cs[start])
        invariant
            lo <= start <= hi <= cs.len(),
            s == cs@.subrange(lo as int, hi as int),
            forall|k: int| lo <= k < start ==> is_white_space(#[trigger] cs@[k]),
        decreases hi - start,
    {
        start = start + 1;
    }
    proof {
        assert forall|k: int| 0 <= k < start - lo implies is_white_space(#[trigger] s[k]) by {
            assert(s[k] == cs@[k + lo]);
        }
        if start < hi {
            assert(s[start - lo] == cs@[start as int]);
        }
        lemma_trim_start_skip(s, start - lo);
    }
    let ghost front = s.skip(start - lo);
    let mut end: usize = hi;
    while end > start && is_whitespace_char(cs[end - 1])
        invariant
            lo <= start <= end <= hi <= cs.len(),
            forall|k: int| end <= k < hi ==> is_white_space(#[trigger] cs@[k]),
        decreases end - start,
    {
        end = end - 1;
    }
    proof {
        assert forall|k: int| end - start <= k < front.len() implies is_white_space(
            #[trigger] front[k],
        ) by {
            assert(front[k] == cs@[k + start]);
        }
        if end > start {
            assert(front[end - start - 1] == cs@[end - 1]);
        }
        lemma_trim_end_take(front, end - start);
        assert(front.take(end - start) =~= cs@.subrange(start as int, end as int));
    }
    (start, end)
}

/// Appends the ASCII upper-case forms of `cs[from..to]` to `r`.
fn push_upper(r: &mut String, cs: &Vec<char>, from: usize, to: usize)
    requires
        from <= to <= cs.len(),
    ensures
        final(r)@ == old(r)@ + ascii_upper_seq(cs@.subrange(from as int, to as int)),
{
    let ghost r0 = r@;
    let mut i: usize = from;
    while i < to
        invariant
            from <= i <= to <= cs.len(),
            r@ == r0 + ascii_upper_seq(cs@.subrange(from as int, i as int)),
        decreases to - i,
    {
        let u = to_ascii_upper(cs[i]);
        push_char(r, u);
        assert(ascii_upper_seq(cs@.subrange(from as int, i + 1)) =~= ascii_upper_seq(
            cs@.subrange(from as int, i as int),
        ).push(u));
        i = i + 1;
    }
}

/// The form in which EPC and TID values are stored and looked up: trimmed
/// and upper-cased.
pub open spec fn normalized_hex(s: Seq<char>) -> Seq<char> {
    ascii_upper_seq(trim(s))
}

/// The form in which identifiers are looked up: trimmed; an identifier that
/// then starts with `_` keeps it and has the rest normalised as a hex value,
/// any other is normalised as a hex value as a whole.
pub open spec fn normalized_identifier(s: Seq<char>) -> Seq<char> {
    let t = trim(s);
    if t.len() > 0 && t[0] == '_' {
        seq!['_'] + normalized_hex(t.drop_first())
    } else {
        normalized_hex(t)
    }
}

/// The trimmed, ASCII upper-cased form of `value`, as EPC and TID values
/// are stored and looked up.
pub fn normalize_hex(value: &str) -> (r: String)
    ensures
        r@ == normalized_hex(value@),
{
    let cs = chars_of(value);
    let (a, b) = trim_bounds(&cs, 0, cs.len());
    assert(cs@.subrange(0, cs@.len() as int) =~= cs@);
    let mut r = String::new();
    push_upper(&mut r, &cs, a, b);
    assert(r@ =~= ascii_upper_seq(cs@.subrange(a as int, b as int)));
    r
}

/// The normalised form of an identifier given by a caller.
pub fn normalize_identifier(value: &str) -> (r: String)
    ensures
        r@ == normalized_identifier(value@),
{
    let cs = chars_of(value);
    let (a, b) = trim_bounds(&cs, 0, cs.len());
    assert(cs@.subrange(0, cs@.len() as int) =~= cs@);
    let ghost t = cs@.subrange(a as int, b as int);
    let mut r = String::new();
    if a < b && cs[a] == '_' {
        let (c, d) = trim_bounds(&cs, a + 1, b);
        assert(t.drop_first() =~= cs@.subrange(a + 1, b as int));
        push_char(&mut r, '_');
        push_upper(&mut r, &cs, c, d);
        assert(r@ =~= seq!['_'] + normalized_hex(t.drop_first()));
    } else {
        let (c, d) = trim_bounds(&cs, a, b);
        push_upper(&mut r, &cs, c, d);
        assert(r@ =~= normalized_hex(t));
    }
    r
}

/// Trimming leaves alone a sequence that neither starts nor ends with white space.
pub proof fn lemma_trim_unchanged(s: Seq<char>)
    requires
        s.len() > 0 ==> !is_white_space(s[0]) && !is_white_space(s.last()),
    ensures
        trim(s) == s,
{
    assert(trim_start(s) == s);
}

/// Upper-casing leaves alone a sequence without lower-case ASCII letters.
pub proof fn lemma_upper_unchanged(s: Seq<char>)
    requires
        forall|i: int| 0 <= i < s.len() ==> !('a' <= #[trigger] s[i] <= 'z'),
    ensures
        ascii_upper_seq(s) == s,
{
    assert(ascii_upper_seq(s) =~= s);
}

/// Upper-casing neither makes nor unmakes white space.
pub proof fn lemma_upper_keeps_white_space(c: char)
    ensures
        is_white_space(ascii_upper(c)) == is_white_space(c),
        !('a' <= ascii_upper(c) <= 'z'),
{
    if 'a' <= c <= 'z' {
        let n = (c as u32) - 32;
        assert(0x41 <= n <= 0x5a);
        assert(ascii_upper(c) as u32 == n);
    }
}

/// Cutting leading white space commutes with upper-casing.
pub(crate) proof fn lemma_trim_start_upper(s: Seq<char>)
    ensures
        trim_start(ascii_upper_seq(s)) == ascii_upper_seq(trim_start(s)),
    decreases s.len(),
{
    let u = ascii_upper_seq(s);
    if s.len() > 0 {
        lemma_upper_keeps_white_space(s[0]);
        assert(u[0] == ascii_upper(s[0]));
        if is_white_space(s[0]) {
            assert(u.drop_first() =~= ascii_upper_seq(s.drop_first()));
            lemma_trim_start_upper(s.drop_first());
        }
    }
}

/// Cutting trailing white space commutes with upper-casing.
proof fn lemma_trim_end_upper(s: Seq<char>)
    ensures
        trim_end(ascii_upper_seq(s)) == ascii_upper_seq(trim_end(s)),
    decreases s.len(),
{
    let u = ascii_upper_seq(s);
    if s.len() > 0 {
        lemma_upper_keeps_white_space(s.last());
        assert(u.last() == ascii_upper(s.last()));
        if is_white_space(s.last()) {
            assert(u.drop_last() =~= ascii_upper_seq(s.drop_last()));
            lemma_trim_end_upper(s.drop_last());
        }
    }
}

/// A sequence with leading white space cut off starts with other than white space.
proof fn lemma_trim_start_first(s: Seq<char>)
    ensures
        trim_start(s).len() > 0 ==> !is_white_space(trim_start(s)[0]),
    decreases s.len(),
{
    if s.len() > 0 && is_white_space(s[0]) {
        lemma_trim_start_first(s.drop_first());
    }
}

/// Cutting trailing white space keeps a prefix, which ends with other than white space.
proof fn lemma_trim_end_prefix(s: Seq<char>)
    ensures
        trim_end(s).len() <= s.len(),
        trim_end(s) == s.take(trim_end(s).len() as int),
        trim_end(s).len() > 0 ==> !is_white_space(trim_end(s).last()),
    decreases s.len(),
{
    if s.len() > 0 && is_white_space(s.last()) {
        lemma_trim_end_prefix(s.drop_last());
        let t = trim_end(s.drop_last());
        assert(s.drop_last().take(t.len() as int) =~= s.take(t.len() as int));
    } else {
        assert(s.take(s.len() as int) =~= s);
    }
}

/// A trimmed sequence neither starts nor ends with white space.
pub proof fn lemma_trim_ends(s: Seq<char>)
    ensures
        trim(s).len() > 0 ==> !is_white_space(trim(s)[0]) && !is_white_space(trim(s).last()),
{
    let a = trim_start(s);
    lemma_trim_start_first(s);
    lemma_trim_end_prefix(a);
    if trim(s).len() > 0 {
        assert(trim(s)[0] == a[0]);
    }
}

/// Trimming commutes with upper-casing.
pub proof fn lemma_trim_upper(s: Seq<char>)
    ensures
        trim(ascii_upper_seq(s)) == ascii_upper_seq(trim(s)),
{
    lemma_trim_start_upper(s);
    lemma_trim_end_upper(trim_start(s));
}

/// Normalising a normalised value changes nothing.
pub proof fn lemma_normalized_hex_idempotent(s: Seq<char>)
    ensures
        normalized_hex(normalized_hex(s)) == normalized_hex(s),
{
    let t = trim(s);
    let u = ascii_upper_seq(t);
    lemma_trim_ends(s);
    if u.len() > 0 {
        lemma_upper_keeps_white_space(t[0]);
        lemma_upper_keeps_white_space(t.last());
        assert(u[0] == ascii_upper(t[0]));
        assert(u.last() == ascii_upper(t.last()));
    }
    lemma_trim_unchanged(u);
    assert forall|i: int| 0 <= i < u.len() implies !('a' <= #[trigger] u[i] <= 'z') by {
        lemma_upper_keeps_white_space(t[i]);
    }
    lemma_upper_unchanged(u);
}

/// Normalising ignores the ASCII case of its input.
pub proof fn lemma_normalized_hex_ignores_case(s: Seq<char>)
    ensures
        normalized_hex(ascii_upper_seq(s)) == normalized_hex(s),
{
    lemma_trim_upper(s);
    let t = trim(s);
    assert forall|i: int| 0 <= i < t.len() implies ascii_upper(ascii_upper(t[i])) == ascii_upper(#[trigger] t[i]) by {
        lemma_upper_keeps_white_space(t[i]);
    }
    assert(ascii_upper_seq(ascii_upper_seq(t)) =~= ascii_upper_seq(t));
}

} // verus!
