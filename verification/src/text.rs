//! Byte-string utilities shared by the launcher and SFU models.
//!
//! Protocol text, file names and configuration keys are modelled as byte
//! sequences; contracts speak of `Seq<u8>`.  ASCII string literals enter the
//! byte world through [`ascii`] (in specifications) and [`lit`] (in
//! executable code).

use vstd::prelude::*;

verus! {

/// The bytes of a character sequence, character by character; meaningful for
/// ASCII text, where each character is one byte.
pub open spec fn ascii(s: Seq<char>) -> Seq<u8> {
    Seq::new(s.len(), |i: int| s[i] as u8)
}

/// The byte vector of an ASCII string literal.
pub fn lit(s: &str) -> (r: Vec<u8>)
    requires
        vstd::string::is_ascii(s),
    ensures
        r@ == ascii(s@),
        r@.len() == s@.len(),
{
    proof {
        broadcast use vstd::string::is_ascii_spec_bytes;
    }
    let r = s.as_bytes_vec();
    proof {
        assert(r@ =~= ascii(s@));
    }
    r
}

/// Whether two byte slices hold the same bytes.
pub fn bytes_eq(a: &[u8], b: &[u8]) -> (r: bool)
    ensures
        r == (a@ == b@),
{
    if a.len() != b.len() {
        proof {
            assert(a@.len() != b@.len());
        }
        return false;
    }
    let mut i: usize = 0;
    while i < a.len()
        invariant
            i <= a.len(),
            a.len() == b.len(),
            forall|j: int| 0 <= j < i ==> a@[j] == b@[j],
        decreases a.len() - i,
    {
        if a[i] != b[i] {
            proof {
                assert(a@[i as int] != b@[i as int]);
            }
            return false;
        }
        i += 1;
    }
    proof {
        assert(a@ =~= b@);
    }
    true
}

/// Whether `s` begins with `prefix`.
pub fn starts_with(s: &[u8], prefix: &[u8]) -> (r: bool)
    ensures
        r == (s@.len() >= prefix@.len() && s@.subrange(0, prefix@.len() as int) == prefix@),
{
    if s.len() < prefix.len() {
        return false;
    }
    let head = vstd::slice::slice_subrange(s, 0, prefix.len());
    bytes_eq(head, prefix)
}

/// Whether `s` ends with `suffix`.
pub fn ends_with(s: &[u8], suffix: &[u8]) -> (r: bool)
    ensures
        r == (s@.len() >= suffix@.len() && s@.subrange(
            s@.len() - suffix@.len(),
            s@.len() as int,
        ) == suffix@),
{
    if s.len() < suffix.len() {
        return false;
    }
    let tail = vstd::slice::slice_subrange(s, s.len() - suffix.len(), s.len());
    bytes_eq(tail, suffix)
}

/// Whether some byte of `s` equals `b`.
pub fn contains_byte(s: &[u8], b: u8) -> (r: bool)
    ensures
        r == s@.contains(b),
{
    let mut i: usize = 0;
    while i < s.len()
        invariant
            i <= s.len(),
            forall|j: int| 0 <= j < i ==> s@[j] != b,
        decreases s.len() - i,
    {
        if s[i] == b {
            proof {
                assert(s@[i as int] == b);
            }
            return true;
        }
        i += 1;
    }
    proof {
        assert(forall|j: int| 0 <= j < s@.len() ==> s@[j] != b);
    }
    false
}

/// Index of the first occurrence of `sep` in `s`, or `s.len()` when `sep`
/// does not occur.
pub open spec fn first_sep(s: Seq<u8>, sep: u8) -> int
    decreases s.len(),
{
    if s.len() == 0 {
        0
    } else if s[0] == sep {
        0
    } else {
        1 + first_sep(s.drop_first(), sep)
    }
}

pub proof fn lemma_first_sep_bounds(s: Seq<u8>, sep: u8)
    ensures
        0 <= first_sep(s, sep) <= s.len(),
        first_sep(s, sep) < s.len() ==> s[first_sep(s, sep)] == sep,
        forall|j: int| 0 <= j < first_sep(s, sep) ==> s[j] != sep,
    decreases s.len(),
{
    if s.len() > 0 && s[0] != sep {
        lemma_first_sep_bounds(s.drop_first(), sep);
        assert forall|j: int| 0 <= j < first_sep(s, sep) implies s[j] != sep by {
            if j > 0 {
                assert(s.drop_first()[j - 1] != sep);
            }
        }
    }
}

/// The first occurrence is pinned down by its characterisation: everything
/// before `i` differs from `sep`, and `i` is either a hit or the end.
pub proof fn lemma_first_sep_is(s: Seq<u8>, sep: u8, i: int)
    requires
        0 <= i <= s.len(),
        i < s.len() ==> s[i] == sep,
        forall|j: int| 0 <= j < i ==> s[j] != sep,
    ensures
        first_sep(s, sep) == i,
    decreases s.len(),
{
    if s.len() > 0 && s[0] != sep {
        assert forall|j: int| 0 <= j < i - 1 implies s.drop_first()[j] != sep by {
            assert(s[j + 1] != sep);
        }
        lemma_first_sep_is(s.drop_first(), sep, i - 1);
    }
}

/// The parts of `s` split on `sep`: always at least one part, and `sep`
/// occurs in none of them.
pub open spec fn split_bytes(s: Seq<u8>, sep: u8) -> Seq<Seq<u8>>
    decreases s.len(),
    via split_bytes_decreases
{
    let i = first_sep(s, sep);
    if i == s.len() {
        seq![s]
    } else {
        seq![s.take(i)] + split_bytes(s.skip(i + 1), sep)
    }
}

#[via_fn]
proof fn split_bytes_decreases(s: Seq<u8>, sep: u8) {
    lemma_first_sep_bounds(s, sep);
}

pub proof fn lemma_split_bytes_len(s: Seq<u8>, sep: u8)
    ensures
        split_bytes(s, sep).len() >= 1,
    decreases s.len(),
{
    lemma_first_sep_bounds(s, sep);
    let i = first_sep(s, sep);
    if i != s.len() {
        lemma_split_bytes_len(s.skip(i + 1), sep);
    }
}

/// Index of the first occurrence of `sep` at or after `from`, or `s.len()`.
pub fn find_from(s: &[u8], from: usize, sep: u8) -> (r: usize)
    requires
        from <= s@.len(),
    ensures
        from <= r <= s@.len(),
        r < s@.len() ==> s@[r as int] == sep,
        forall|j: int| from <= j < r ==> s@[j] != sep,
{
    let mut i: usize = from;
    while i < s.len()
        invariant
            from <= i <= s@.len(),
            forall|j: int| from <= j < i ==> s@[j] != sep,
        decreases s.len() - i,
    {
        if s[i] == sep {
            return i;
        }
        i += 1;
    }
    i
}

/// Splits `s` on `sep`, matching [`split_bytes`] exactly.
pub fn split(s: &[u8], sep: u8) -> (r: Vec<Vec<u8>>)
    ensures
        r@.map_values(|v: Vec<u8>| v@) == split_bytes(s@, sep),
        r@.len() >= 1,
{
    let mut parts: Vec<Vec<u8>> = Vec::new();
    let mut start: usize = 0;
    proof {
        assert(parts@.map_values(|v: Vec<u8>| v@) =~= Seq::<Seq<u8>>::empty());
        assert(s@.skip(0) =~= s@);
    }
    loop
        invariant
            start <= s@.len(),
            split_bytes(s@, sep) == parts@.map_values(|v: Vec<u8>| v@) + split_bytes(
                s@.skip(start as int),
                sep,
            ),
        decreases s@.len() - start,
    {
        let end = find_from(s, start, sep);
        let part = vstd::slice::slice_to_vec(vstd::slice::slice_subrange(s, start, end));
        let ghost rest = s@.skip(start as int);
        proof {
            lemma_first_sep_is(rest, sep, end - start);
            assert(part@ =~= rest.take(end - start));
        }
        if end == s.len() {
            proof {
                assert(rest =~= rest.take(end - start));
                assert(split_bytes(rest, sep) =~= seq![part@]);
            }
            parts.push(part);
            proof {
                assert(split_bytes(s@, sep) =~= parts@.map_values(|v: Vec<u8>| v@));
                lemma_split_bytes_len(s@, sep);
            }
            return parts;
        }
        proof {
            assert(split_bytes(rest, sep) == seq![rest.take(end - start)] + split_bytes(
                rest.skip(end - start + 1),
                sep,
            ));
            assert(rest.skip(end - start + 1) =~= s@.skip(end + 1));
        }
        parts.push(part);
        start = end + 1;
        proof {
            assert(parts@.map_values(|v: Vec<u8>| v@) =~= parts@.map_values(|v: Vec<u8>| v@));
            assert(split_bytes(s@, sep) =~= parts@.map_values(|v: Vec<u8>| v@) + split_bytes(
                s@.skip(start as int),
                sep,
            ));
        }
    }
}

/// Whether `b` is a decimal digit.
pub open spec fn is_digit(b: u8) -> bool {
    '0' as u8 <= b <= '9' as u8
}

/// Whether `s` is nonempty and all digits.
pub open spec fn all_digits(s: Seq<u8>) -> bool {
    forall|j: int| 0 <= j < s.len() ==> is_digit(#[trigger] s[j])
}

/// The value of one digit; bytes that are no digit count as zero.
pub open spec fn digit_val(b: u8) -> nat {
    if is_digit(b) {
        (b - '0' as u8) as nat
    } else {
        0
    }
}

/// The number a digit string denotes.
pub open spec fn dec_value(s: Seq<u8>) -> nat
    decreases s.len(),
{
    if s.len() == 0 {
        0
    } else {
        dec_value(s.drop_last()) * 10 + digit_val(s.last())
    }
}

/// The canonical decimal digits of `n` (no leading zeros, "0" for zero).
pub open spec fn dec_digits(n: nat) -> Seq<u8>
    decreases n,
{
    if n < 10 {
        seq![(n + '0' as u8) as u8]
    } else {
        dec_digits(n / 10).push((n % 10 + '0' as u8) as u8)
    }
}

/// Formats `n` in decimal, producing exactly [`dec_digits`].
pub fn u64_to_dec(n: u64) -> (r: Vec<u8>)
    ensures
        r@ == dec_digits(n as nat),
        r@.len() >= 1,
    decreases n,
{
    if n < 10 {
        let mut r: Vec<u8> = Vec::new();
        r.push((n as u8) + '0' as u8);
        proof {
            assert(r@ =~= dec_digits(n as nat));
        }
        r
    } else {
        let mut r = u64_to_dec(n / 10);
        r.push((n % 10) as u8 + '0' as u8);
        r
    }
}

proof fn lemma_dec_value_grows(s: Seq<u8>, j: int)
    requires
        0 <= j <= s.len(),
    ensures
        dec_value(s) >= dec_value(s.take(j)),
    decreases s.len() - j,
{
    if j < s.len() {
        lemma_dec_value_grows(s, j + 1);
        let t = s.take(j + 1);
        assert(t.drop_last() =~= s.take(j));
        assert(dec_value(t) == dec_value(s.take(j)) * 10 + digit_val(t.last()));
    } else {
        assert(s.take(j) =~= s);
    }
}

/// Parses a decimal number: `Some` exactly on nonempty all-digit input whose
/// value fits in `u64`.
pub fn parse_u64(s: &[u8]) -> (r: Option<u64>)
    ensures
        match r {
            Some(n) => s@.len() > 0 && all_digits(s@) && n == dec_value(s@),
            None => s@.len() == 0 || !all_digits(s@) || dec_value(s@) > u64::MAX,
        },
{
    if s.len() == 0 {
        return None;
    }
    let mut acc: u64 = 0;
    let mut i: usize = 0;
    while i < s.len()
        invariant
            0 < s@.len(),
            i <= s@.len(),
            forall|j: int| 0 <= j < i ==> is_digit(#[trigger] s@[j]),
            acc == dec_value(s@.take(i as int)),
        decreases s.len() - i,
    {
        let b = s[i];
        if b < '0' as u8 || b > '9' as u8 {
            return None;
        }
        let d = (b - '0' as u8) as u64;
        if acc > (u64::MAX - d) / 10 {
            proof {
                let t = s@.take(i + 1);
                assert(t.drop_last() =~= s@.take(i as int));
                assert(dec_value(t) == acc * 10 + d);
                lemma_dec_value_grows(s@, i + 1);
            }
            return None;
        }
        proof {
            let t = s@.take(i + 1);
            assert(t.drop_last() =~= s@.take(i as int));
            assert(dec_value(t) == acc * 10 + d);
        }
        acc = acc * 10 + d;
        i += 1;
    }
    proof {
        assert(s@.take(i as int) =~= s@);
    }
    Some(acc)
}

/// Whether `b` is blank space inside a line: space, tab or carriage return.
pub open spec fn is_space(b: u8) -> bool {
    b == ' ' as u8 || b == '\t' as u8 || b == '\r' as u8
}

/// `s` without leading blank space.
pub open spec fn trim_front(s: Seq<u8>) -> Seq<u8>
    decreases s.len(),
{
    if s.len() > 0 && is_space(s[0]) {
        trim_front(s.drop_first())
    } else {
        s
    }
}

/// `s` without trailing blank space.
pub open spec fn trim_back(s: Seq<u8>) -> Seq<u8>
    decreases s.len(),
{
    if s.len() > 0 && is_space(s.last()) {
        trim_back(s.drop_last())
    } else {
        s
    }
}

/// `s` without leading and trailing blank space.
pub open spec fn trimmed(s: Seq<u8>) -> Seq<u8> {
    trim_back(trim_front(s))
}

proof fn lemma_trim_front_is(s: Seq<u8>, lo: int)
    requires
        0 <= lo <= s.len(),
        forall|j: int| 0 <= j < lo ==> is_space(#[trigger] s[j]),
        lo < s.len() ==> !is_space(s[lo]),
    ensures
        trim_front(s) == s.skip(lo),
    decreases s.len(),
{
    if s.len() > 0 && is_space(s[0]) {
        assert(lo > 0);
        let t = s.drop_first();
        assert forall|j: int| 0 <= j < lo - 1 implies is_space(#[trigger] t[j]) by {
            assert(is_space(s[j + 1]));
        }
        lemma_trim_front_is(t, lo - 1);
        assert(t.skip(lo - 1) =~= s.skip(lo));
    } else {
        assert(lo == 0);
        assert(s.skip(0) =~= s);
    }
}

proof fn lemma_trim_back_is(s: Seq<u8>, hi: int)
    requires
        0 <= hi <= s.len(),
        forall|j: int| hi <= j < s.len() ==> is_space(#[trigger] s[j]),
        hi > 0 ==> !is_space(s[hi - 1]),
    ensures
        trim_back(s) == s.take(hi),
    decreases s.len(),
{
    if s.len() > 0 && is_space(s.last()) {
        assert(hi < s.len());
        lemma_trim_back_is(s.drop_last(), hi);
        assert(s.drop_last().take(hi) =~= s.take(hi));
    } else {
        assert(hi == s.len());
        assert(s.take(hi) =~= s);
    }
}

proof fn lemma_trim_front_le(s: Seq<u8>)
    ensures
        trim_front(s).len() <= s.len(),
        s.len() > 0 && is_space(s[0]) ==> trim_front(s).len() < s.len(),
    decreases s.len(),
{
    if s.len() > 0 && is_space(s[0]) {
        lemma_trim_front_le(s.drop_first());
    }
}

proof fn lemma_trim_back_le(s: Seq<u8>)
    ensures
        trim_back(s).len() <= s.len(),
        s.len() > 0 && is_space(s.last()) ==> trim_back(s).len() < s.len(),
    decreases s.len(),
{
    if s.len() > 0 && is_space(s.last()) {
        lemma_trim_back_le(s.drop_last());
    }
}

/// A nonempty string that trimming does not change neither starts nor ends
/// with blank space.
pub proof fn lemma_trimmed_fixed(s: Seq<u8>)
    requires
        trimmed(s) == s,
        s.len() > 0,
    ensures
        !is_space(s[0]),
        !is_space(s.last()),
{
    lemma_trim_front_le(s);
    lemma_trim_back_le(trim_front(s));
    if is_space(s[0]) {
        assert(trimmed(s).len() < s.len());
    }
    assert(trim_front(s) == s);
    if is_space(s.last()) {
        assert(trimmed(s).len() < s.len());
    }
}

/// Trimming pins a string exactly when space stands at neither end.
pub proof fn lemma_trimmed_identity(s: Seq<u8>)
    requires
        s.len() > 0 ==> !is_space(s[0]) && !is_space(s.last()),
    ensures
        trimmed(s) == s,
{
    lemma_trim_front_is(s, 0);
    assert(s.skip(0) =~= s);
    lemma_trim_back_is(s, s.len() as int);
    assert(s.take(s.len() as int) =~= s);
}

/// Removes leading and trailing blank space, matching [`trimmed`] exactly.
pub fn trim(s: &[u8]) -> (r: Vec<u8>)
    ensures
        r@ == trimmed(s@),
{
    let mut lo: usize = 0;
    while lo < s.len() && (s[lo] == ' ' as u8 || s[lo] == '\t' as u8 || s[lo] == '\r' as u8)
        invariant
            lo <= s@.len(),
            forall|j: int| 0 <= j < lo ==> is_space(#[trigger] s@[j]),
        decreases s.len() - lo,
    {
        lo += 1;
    }
    let mut hi: usize = s.len();
    while hi > lo && (s[hi - 1] == ' ' as u8 || s[hi - 1] == '\t' as u8 || s[hi - 1] == '\r' as u8)
        invariant
            lo <= hi <= s@.len(),
            forall|j: int| hi <= j < s@.len() ==> is_space(#[trigger] s@[j]),
        decreases hi,
    {
        hi -= 1;
    }
    let r = vstd::slice::slice_to_vec(vstd::slice::slice_subrange(s, lo, hi));
    proof {
        lemma_trim_front_is(s@, lo as int);
        let f = s@.skip(lo as int);
        if hi > lo {
            assert(!is_space(s@[hi - 1]));
        }
        assert forall|j: int| hi - lo <= j < f.len() implies is_space(#[trigger] f[j]) by {
            assert(is_space(s@[j + lo]));
        }
        lemma_trim_back_is(f, hi - lo);
        assert(r@ =~= f.take(hi - lo));
    }
    r
}

/// Appends all of `b` to `a`.
pub fn push_all(a: &mut Vec<u8>, b: &[u8])
    ensures
        final(a)@ == old(a)@ + b@,
{
    let mut i: usize = 0;
    while i < b.len()
        invariant
            i <= b@.len(),
            a@ == old(a)@ + b@.take(i as int),
        decreases b.len() - i,
    {
        a.push(b[i]);
        i += 1;
        proof {
            assert(a@ =~= old(a)@ + b@.take(i as int));
        }
    }
    proof {
        assert(a@ =~= old(a)@ + b@);
    }
}

} // verus!
