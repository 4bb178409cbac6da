//! Character-level text utilities shared by the command parsers: ASCII
//! case-insensitive comparison, whitespace trimming, character search and
//! decimal rendering of integers.

use vstd::prelude::*;
use vstd::string::StrSliceExecFns;
use vstd::string::StringExecFns;
use vstd::utf8::{encode_scalar, encode_utf8};

verus! {

/// The UTF-8 encoding of a concatenation is the concatenation of the
/// encodings.
pub proof fn lemma_encode_utf8_concat(a: Seq<char>, b: Seq<char>)
    ensures
        encode_utf8(a + b) == encode_utf8(a) + encode_utf8(b),
    decreases a.len(),
{
    if a.len() == 0 {
        assert(a + b =~= b);
        assert(encode_utf8(a) + encode_utf8(b) =~= encode_utf8(b));
    } else {
        lemma_encode_utf8_concat(a.drop_first(), b);
        assert((a + b).drop_first() =~= a.drop_first() + b);
        assert((a + b)[0] == a[0]);
        assert(encode_scalar(a[0] as u32) + (encode_utf8(a.drop_first()) + encode_utf8(b))
            =~= (encode_scalar(a[0] as u32) + encode_utf8(a.drop_first())) + encode_utf8(b));
    }
}

/// Dropping a prefix never lengthens the UTF-8 encoding.
pub proof fn lemma_encode_utf8_skip_le(s: Seq<char>, i: int)
    requires
        0 <= i <= s.len(),
    ensures
        encode_utf8(s.skip(i)).len() <= encode_utf8(s).len(),
{
    lemma_encode_utf8_concat(s.take(i), s.skip(i));
    assert(s.take(i) + s.skip(i) =~= s);
}

/// An ASCII upper-case letter.
pub open spec fn is_upper(c: char) -> bool {
    'A' <= c && c <= 'Z'
}

/// Two characters are equal up to ASCII case.
pub open spec fn eq_ci(a: char, b: char) -> bool {
    a == b
        || (is_upper(a) && a as int + 32 == b as int)
        || (is_upper(b) && b as int + 32 == a as int)
}

/// Two character sequences are equal up to ASCII case.
pub open spec fn seq_eq_ci(s: Seq<char>, t: Seq<char>) -> bool {
    s.len() == t.len() && forall|i: int| 0 <= i < s.len() ==> eq_ci(s[i], t[i])
}

/// The whitespace characters recognised on SMTP command lines.
pub open spec fn is_space(c: char) -> bool {
    c == ' ' || c == '\t' || c == '\r' || c == '\n'
}

/// `s` with leading and trailing whitespace removed.
pub open spec fn spec_trim(s: Seq<char>) -> Seq<char>
    decreases s.len(),
{
    if s.len() > 0 && is_space(s.first()) {
        spec_trim(s.drop_first())
    } else if s.len() > 0 && is_space(s.last()) {
        spec_trim(s.drop_last())
    } else {
        s
    }
}

/// The index of the first occurrence of `c` in `s`, if any.
pub open spec fn spec_find<T>(s: Seq<T>, c: T) -> Option<int>
    decreases s.len(),
{
    if s.len() == 0 {
        None
    } else if s.first() == c {
        Some(0)
    } else {
        match spec_find(s.drop_first(), c) {
            Some(i) => Some(i + 1),
            None => None,
        }
    }
}

pub proof fn lemma_spec_find<T>(s: Seq<T>, c: T)
    ensures
        match spec_find(s, c) {
            Some(i) => 0 <= i < s.len() && s[i] == c && forall|k: int| 0 <= k < i ==> s[k] != c,
            None => forall|k: int| 0 <= k < s.len() ==> s[k] != c,
        },
    decreases s.len(),
{
    if s.len() > 0 && s.first() != c {
        lemma_spec_find(s.drop_first(), c);
        match spec_find(s.drop_first(), c) {
            Some(i) => {
                assert(s.drop_first()[i] == s[i + 1]);
                assert forall|k: int| 0 <= k < i + 1 implies s[k] != c by {
                    if k > 0 {
                        assert(s.drop_first()[k - 1] == s[k]);
                    }
                }
            },
            None => {
                assert forall|k: int| 0 <= k < s.len() implies s[k] != c by {
                    if k > 0 {
                        assert(s.drop_first()[k - 1] == s[k]);
                    }
                }
            },
        }
    }
}

/// `s` split at every occurrence of `sep`; the separators themselves are
/// dropped and empty tokens are kept, so the result never has fewer than
/// one element.
pub open spec fn spec_split(s: Seq<char>, sep: char) -> Seq<Seq<char>>
    decreases s.len(),
        via spec_split_decreases
{
    match spec_find(s, sep) {
        None => seq![s],
        Some(i) => seq![s.take(i)] + spec_split(s.skip(i + 1), sep),
    }
}

#[via_fn]
proof fn spec_split_decreases(s: Seq<char>, sep: char) {
    lemma_spec_find(s, sep);
}

/// The index of the first occurrence of `c` in `s`, if any.
pub fn find_char(s: &str, c: char) -> (r: Option<usize>)
    ensures
        match r {
            Some(i) => i < s@.len() && s@[i as int] == c && spec_find(s@, c) == Some(i as int),
            None => spec_find(s@, c) is None,
        },
{
    let n: usize = s.unicode_len();
    let mut i: usize = 0;
    while i < n
        invariant
            0 <= i <= n,
            n == s@.len(),
            forall|k: int| 0 <= k < i ==> s@[k] != c,
        decreases n - i,
    {
        if s.get_char(i) == c {
            proof {
                lemma_spec_find(s@, c);
                match spec_find(s@, c) {
                    Some(j) => {
                        if j < i {
                            assert(s@[j] != c);
                        }
                        if j > i {
                            assert(s@[i as int] != c);
                        }
                    },
                    None => {
                        assert(s@[i as int] != c);
                    },
                }
            }
            return Some(i);
        }
        i += 1;
    }
    proof {
        lemma_spec_find(s@, c);
    }
    None
}

pub fn char_eq_ci(a: char, b: char) -> (r: bool)
    ensures
        r == eq_ci(a, b),
{
    let au: u32 = a as u32;
    let bu: u32 = b as u32;
    a == b
        || (65 <= au && au <= 90 && au + 32 == bu)
        || (65 <= bu && bu <= 90 && bu + 32 == au)
}

pub fn is_space_char(c: char) -> (r: bool)
    ensures
        r == is_space(c),
{
    c == ' ' || c == '\t' || c == '\r' || c == '\n'
}

/// The characters of `s` from `from` on, compared with `pat` up to ASCII case.
pub fn range_eq_ci(s: &str, from: usize, pat: &str) -> (r: bool)
    requires
        from + pat@.len() <= s@.len(),
        s@.len() <= usize::MAX,
    ensures
        r == seq_eq_ci(s@.subrange(from as int, from as int + pat@.len() as int), pat@),
{
    let plen: usize = pat.unicode_len();
    let ghost sub = s@.subrange(from as int, from as int + pat@.len() as int);
    let mut j: usize = 0;
    while j < plen
        invariant
            0 <= j <= plen,
            plen == pat@.len(),
            from + plen <= s@.len(),
            s@.len() <= usize::MAX,
            sub == s@.subrange(from as int, from as int + plen as int),
            forall|k: int| 0 <= k < j ==> eq_ci(sub[k], pat@[k]),
        decreases plen - j,
    {
        if !char_eq_ci(s.get_char(from + j), pat.get_char(j)) {
            assert(!eq_ci(sub[j as int], pat@[j as int]));
            return false;
        }
        j += 1;
    }
    true
}

proof fn lemma_trim_subrange(s: Seq<char>, i: int, j: int)
    requires
        0 <= i <= j <= s.len(),
        forall|k: int| 0 <= k < i ==> is_space(s[k]),
        forall|k: int| j <= k < s.len() ==> is_space(s[k]),
        i < j ==> !is_space(s[i]) && !is_space(s[j - 1]),
    ensures
        spec_trim(s) == s.subrange(i, j),
    decreases s.len(),
{
    if s.len() == 0 {
        assert(s.subrange(i, j) =~= s);
    } else if is_space(s.first()) {
        let t = s.drop_first();
        if i >= 1 {
            lemma_trim_subrange(t, i - 1, j - 1);
            assert(t.subrange(i - 1, j - 1) =~= s.subrange(i, j));
        } else {
            // i == 0 forces i == j == 0: a non-empty trimmed part would
            // start with a non-space character.
            lemma_trim_subrange(t, 0, 0);
            assert(t.subrange(0, 0) =~= s.subrange(0, 0));
        }
    } else {
        // The first character stays, so i == 0.
        if j == s.len() {
            assert(spec_trim(s) == s);
            assert(s.subrange(0, s.len() as int) =~= s);
        } else {
            let t = s.drop_last();
            lemma_trim_subrange(t, 0, j);
            assert(t.subrange(0, j) =~= s.subrange(0, j));
        }
    }
}

/// Trimming never lengthens the UTF-8 encoding.
pub proof fn lemma_encode_trim_le(s: Seq<char>)
    ensures
        encode_utf8(spec_trim(s)).len() <= encode_utf8(s).len(),
    decreases s.len(),
{
    if s.len() > 0 && is_space(s.first()) {
        lemma_encode_trim_le(s.drop_first());
        assert(encode_utf8(s) == encode_scalar(s[0] as u32) + encode_utf8(s.drop_first()));
    } else if s.len() > 0 && is_space(s.last()) {
        lemma_encode_trim_le(s.drop_last());
        lemma_encode_utf8_concat(s.drop_last(), seq![s.last()]);
        assert(s.drop_last() + seq![s.last()] =~= s);
    }
}

/// `s` with leading and trailing whitespace removed.
pub fn trim_str<'a>(s: &'a str) -> (r: &'a str)
    ensures
        r@ == spec_trim(s@),
{
    let n: usize = s.unicode_len();
    let mut start: usize = 0;
    while start < n && is_space_char(s.get_char(start))
        invariant
            0 <= start <= n,
            n == s@.len(),
            forall|k: int| 0 <= k < start ==> is_space(s@[k]),
        decreases n - start,
    {
        start += 1;
    }
    let mut end: usize = n;
    while end > start && is_space_char(s.get_char(end - 1))
        invariant
            start <= end <= n,
            n == s@.len(),
            forall|k: int| 0 <= k < start ==> is_space(s@[k]),
            forall|k: int| end <= k < n ==> is_space(s@[k]),
        decreases end,
    {
        end -= 1;
    }
    proof {
        lemma_trim_subrange(s@, start as int, end as int);
    }
    s.substring_char(start, end)
}

/// Relies on `String::push`: it appends exactly the one given character.
#[verifier::external_body]
fn push_char(s: &mut String, c: char)
    ensures
        final(s)@ == old(s)@.push(c),
{
    s.push(c);
}

/// `s` flattened onto one line: every newline becomes a comma and a
/// space, every carriage return disappears.
pub open spec fn spec_sanitize(s: Seq<char>) -> Seq<char>
    decreases s.len(),
{
    if s.len() == 0 {
        Seq::empty()
    } else {
        (if s.first() == '\n' {
            seq![',', ' ']
        } else if s.first() == '\r' {
            Seq::empty()
        } else {
            seq![s.first()]
        }) + spec_sanitize(s.drop_first())
    }
}

/// `s` with newlines turned into comma-space and carriage returns
/// removed, so that it can stand inside a single reply line.
pub fn sanitize_line(s: &str) -> (r: String)
    ensures
        r@ == spec_sanitize(s@),
{
    let n: usize = s.unicode_len();
    let mut out = String::new();
    let mut i: usize = 0;
    proof {
        assert(s@.skip(0) =~= s@);
        assert(out@ + spec_sanitize(s@) =~= spec_sanitize(s@));
    }
    while i < n
        invariant
            0 <= i <= n,
            n == s@.len(),
            out@ + spec_sanitize(s@.skip(i as int)) == spec_sanitize(s@),
        decreases n - i,
    {
        let c: char = s.get_char(i);
        let ghost before = out@;
        if c == '\n' {
            push_char(&mut out, ',');
            push_char(&mut out, ' ');
            proof {
                assert(out@ =~= before + seq![',', ' ']);
            }
        } else if c == '\r' {
        } else {
            push_char(&mut out, c);
            proof {
                assert(out@ =~= before + seq![c]);
            }
        }
        proof {
            let suf = s@.skip(i as int);
            assert(suf.first() == s@[i as int]);
            assert(suf.drop_first() =~= s@.skip(i as int + 1));
            assert(before + ((if suf.first() == '\n' {
                seq![',', ' ']
            } else if suf.first() == '\r' {
                Seq::<char>::empty()
            } else {
                seq![suf.first()]
            }) + spec_sanitize(s@.skip(i as int + 1))) =~= out@ + spec_sanitize(
                s@.skip(i as int + 1),
            ));
        }
        i += 1;
    }
    proof {
        assert(s@.skip(n as int) =~= Seq::<char>::empty());
        assert(out@ + spec_sanitize(Seq::<char>::empty()) =~= out@);
    }
    out
}

/// The decimal digit `d` as a character.
pub open spec fn spec_digit(d: int) -> char {
    if d == 0 {
        '0'
    } else if d == 1 {
        '1'
    } else if d == 2 {
        '2'
    } else if d == 3 {
        '3'
    } else if d == 4 {
        '4'
    } else if d == 5 {
        '5'
    } else if d == 6 {
        '6'
    } else if d == 7 {
        '7'
    } else if d == 8 {
        '8'
    } else {
        '9'
    }
}

/// The decimal rendering of `n`, most significant digit first.
pub open spec fn spec_udec(n: nat) -> Seq<char>
    decreases n,
{
    if n < 10 {
        seq![spec_digit(n as int)]
    } else {
        spec_udec(n / 10).push(spec_digit((n % 10) as int))
    }
}

fn digit_str(d: u64) -> (r: &'static str)
    requires
        d < 10,
    ensures
        r@ == seq![spec_digit(d as int)],
{
    proof {
        reveal_strlit("0");
        reveal_strlit("1");
        reveal_strlit("2");
        reveal_strlit("3");
        reveal_strlit("4");
        reveal_strlit("5");
        reveal_strlit("6");
        reveal_strlit("7");
        reveal_strlit("8");
        reveal_strlit("9");
    }
    if d == 0 {
        proof { assert("0"@ =~= seq![spec_digit(0)]); }
        "0"
    } else if d == 1 {
        proof { assert("1"@ =~= seq![spec_digit(1)]); }
        "1"
    } else if d == 2 {
        proof { assert("2"@ =~= seq![spec_digit(2)]); }
        "2"
    } else if d == 3 {
        proof { assert("3"@ =~= seq![spec_digit(3)]); }
        "3"
    } else if d == 4 {
        proof { assert("4"@ =~= seq![spec_digit(4)]); }
        "4"
    } else if d == 5 {
        proof { assert("5"@ =~= seq![spec_digit(5)]); }
        "5"
    } else if d == 6 {
        proof { assert("6"@ =~= seq![spec_digit(6)]); }
        "6"
    } else if d == 7 {
        proof { assert("7"@ =~= seq![spec_digit(7)]); }
        "7"
    } else if d == 8 {
        proof { assert("8"@ =~= seq![spec_digit(8)]); }
        "8"
    } else {
        proof { assert("9"@ =~= seq![spec_digit(9)]); }
        "9"
    }
}

/// The decimal rendering of `n` as a string.
pub fn u64_to_string(n: u64) -> (s: String)
    ensures
        s@ == spec_udec(n as nat),
    decreases n,
{
    if n < 10 {
        let d: &str = digit_str(n);
        d.to_owned()
    } else {
        let mut s = u64_to_string(n / 10);
        let d: &str = digit_str(n % 10);
        s.append(d);
        assert(s@ =~= spec_udec(n as nat));
        s
    }
}

/// The decimal rendering of `n` as a string.
pub fn usize_to_string(n: usize) -> (s: String)
    ensures
        s@ == spec_udec(n as nat),
{
    u64_to_string(n as u64)
}

} // verus!
