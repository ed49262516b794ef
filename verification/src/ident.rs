//! Entry identifiers and their normalization.
//!
//! An identifier names one collected entry (an account handle). It is kept
//! as a byte string and is valid when it is non-empty, carries no leading or
//! trailing ASCII whitespace, and contains no ASCII uppercase letters.
//! Normalization trims the whitespace and lowercases the ASCII letters;
//! applying it twice changes nothing.

use vstd::prelude::*;

verus! {

/// ASCII whitespace as it may surround a scraped token: space, tab, LF, CR.
pub open spec fn is_space(b: u8) -> bool {
    b == 32 || b == 9 || b == 10 || b == 13
}

/// ASCII lowercasing of one byte; other bytes pass through unchanged.
pub open spec fn lower_byte(b: u8) -> u8 {
    if 65 <= b && b <= 90 {
        (b + 32) as u8
    } else {
        b
    }
}

/// Drop leading whitespace.
pub open spec fn trim_front(s: Seq<u8>) -> Seq<u8>
    decreases s.len(),
{
    if s.len() == 0 {
        s
    } else if is_space(s.first()) {
        trim_front(s.drop_first())
    } else {
        s
    }
}

/// Drop trailing whitespace.
pub open spec fn trim_back(s: Seq<u8>) -> Seq<u8>
    decreases s.len(),
{
    if s.len() == 0 {
        s
    } else if is_space(s.last()) {
        trim_back(s.drop_last())
    } else {
        s
    }
}

/// Drop whitespace at both ends.
pub open spec fn trimmed(s: Seq<u8>) -> Seq<u8> {
    trim_back(trim_front(s))
}

/// ASCII-lowercase every byte.
pub open spec fn lowered(s: Seq<u8>) -> Seq<u8> {
    s.map_values(|b: u8| lower_byte(b))
}

/// The normal form of a raw token: trimmed, then lowercased.
pub open spec fn normalized(s: Seq<u8>) -> Seq<u8> {
    lowered(trimmed(s))
}

/// A valid identifier: non-empty and already in normal form.
pub open spec fn is_identifier(s: Seq<u8>) -> bool {
    s.len() > 0 && normalized(s) == s
}

/// `trim_front` removes exactly the leading run of whitespace.
proof fn lemma_trim_front_at(s: Seq<u8>, i: int)
    requires
        0 <= i <= s.len(),
        forall|k: int| 0 <= k < i ==> is_space(s[k]),
        i == s.len() || !is_space(s[i]),
    ensures
        trim_front(s) == s.subrange(i, s.len() as int),
    decreases i,
{
    if i == 0 {
        assert(s.subrange(0, s.len() as int) =~= s);
    } else {
        let t = s.drop_first();
        lemma_trim_front_at(t, i - 1);
        assert(t.subrange(i - 1, t.len() as int) =~= s.subrange(i, s.len() as int));
    }
}

/// `trim_back` removes exactly the trailing run of whitespace.
proof fn lemma_trim_back_at(s: Seq<u8>, j: int)
    requires
        0 <= j <= s.len(),
        forall|k: int| j <= k < s.len() ==> is_space(s[k]),
        j == 0 || !is_space(s[j - 1]),
    ensures
        trim_back(s) == s.subrange(0, j),
    decreases s.len() - j,
{
    if j == s.len() {
        assert(s.subrange(0, j) =~= s);
    } else {
        let t = s.drop_last();
        lemma_trim_back_at(t, j);
        assert(t.subrange(0, j) =~= s.subrange(0, j));
    }
}

/// The front-trimmed sequence starts with a non-space byte, if any.
proof fn lemma_trim_front_clean(s: Seq<u8>)
    ensures
        trim_front(s).len() == 0 || !is_space(trim_front(s).first()),
    decreases s.len(),
{
    if s.len() > 0 && is_space(s.first()) {
        lemma_trim_front_clean(s.drop_first());
    }
}

/// The back-trimmed sequence ends with a non-space byte, if any.
proof fn lemma_trim_back_clean(s: Seq<u8>)
    ensures
        trim_back(s).len() == 0 || !is_space(trim_back(s).last()),
    decreases s.len(),
{
    if s.len() > 0 && is_space(s.last()) {
        lemma_trim_back_clean(s.drop_last());
    }
}

/// Trimming the back leaves the first byte in place.
proof fn lemma_trim_back_keeps_first(s: Seq<u8>)
    ensures
        trim_back(s).len() > 0 ==> s.len() > 0 && trim_back(s).first() == s.first(),
    decreases s.len(),
{
    if s.len() > 0 && is_space(s.last()) {
        lemma_trim_back_keeps_first(s.drop_last());
    }
}

/// Trimming a sequence with clean ends changes nothing.
proof fn lemma_trim_of_clean(t: Seq<u8>)
    requires
        t.len() == 0 || (!is_space(t.first()) && !is_space(t.last())),
    ensures
        trimmed(t) == t,
{
    assert(trim_front(t) == t);
    assert(trim_back(t) == t);
}

/// Normalization is idempotent: the normal form is already normal.
pub proof fn lemma_normalized_idempotent(s: Seq<u8>)
    ensures
        normalized(normalized(s)) == normalized(s),
{
    let t = trimmed(s);
    let n = normalized(s);
    lemma_trim_front_clean(s);
    lemma_trim_back_clean(trim_front(s));
    lemma_trim_back_keeps_first(trim_front(s));
    if t.len() > 0 {
        assert(n.first() == lower_byte(t.first()));
        assert(n.last() == lower_byte(t.last()));
    }
    lemma_trim_of_clean(n);
    assert(lowered(n) =~= n);
}

/// A normalized non-empty token is a valid identifier.
pub proof fn lemma_normalized_is_identifier(s: Seq<u8>)
    requires
        normalized(s).len() > 0,
    ensures
        is_identifier(normalized(s)),
{
    lemma_normalized_idempotent(s);
}

/// Whether one byte is ASCII whitespace.
fn is_space_byte(b: u8) -> (r: bool)
    ensures
        r == is_space(b),
{
    b == 32 || b == 9 || b == 10 || b == 13
}

/// ASCII-lowercase one byte.
fn lower_ascii(b: u8) -> (r: u8)
    ensures
        r == lower_byte(b),
{
    if 65 <= b && b <= 90 {
        b + 32
    } else {
        b
    }
}

/// Bring a raw token into normal form: trim ASCII whitespace at both ends,
/// then lowercase the ASCII letters.
pub fn normalize(raw: &Vec<u8>) -> (out: Vec<u8>)
    ensures
        out@ == normalized(raw@),
{
    let mut start: usize = 0;
    while start < raw.len() && is_space_byte(raw[start])
        invariant
            start <= raw.len(),
            forall|k: int| 0 <= k < start ==> is_space(raw@[k]),
        decreases raw.len() - start,
    {
        start += 1;
    }
    let mut end: usize = raw.len();
    while end > start && is_space_byte(raw[end - 1])
        invariant
            start <= end <= raw.len(),
            forall|k: int| end <= k < raw.len() ==> is_space(raw@[k]),
        decreases end,
    {
        end -= 1;
    }
    proof {
        lemma_trim_front_at(raw@, start as int);
        let tf = raw@.subrange(start as int, raw@.len() as int);
        lemma_trim_back_at(tf, end - start);
        assert(tf.subrange(0, end - start) =~= raw@.subrange(start as int, end as int));
        assert(trimmed(raw@) == raw@.subrange(start as int, end as int));
    }
    let mut out: Vec<u8> = Vec::new();
    let mut i: usize = start;
    while i < end
        invariant
            start <= i <= end <= raw.len(),
            out@ == lowered(raw@.subrange(start as int, i as int)),
        decreases end - i,
    {
        out.push(lower_ascii(raw[i]));
        proof {
            assert(raw@.subrange(start as int, i + 1) =~= raw@.subrange(
                start as int,
                i as int,
            ).push(raw@[i as int]));
            assert(out@ =~= lowered(raw@.subrange(start as int, i + 1)));
        }
        i += 1;
    }
    proof {
        assert(raw@.subrange(start as int, i as int) == trimmed(raw@));
    }
    out
}

/// Whether two identifiers hold the same bytes.
pub fn ids_equal(a: &Vec<u8>, b: &Vec<u8>) -> (r: bool)
    ensures
        r <==> a@ == b@,
{
    if a.len() != b.len() {
        return false;
    }
    let mut i: usize = 0;
    while i < a.len()
        invariant
            i <= a.len(),
            a@.len() == b@.len(),
            forall|k: int| 0 <= k < i ==> a@[k] == b@[k],
        decreases a.len() - i,
    {
        if a[i] != b[i] {
            return false;
        }
        i += 1;
    }
    proof {
        assert(a@ =~= b@);
    }
    true
}

} // verus!
