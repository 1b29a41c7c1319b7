//! Character and string utilities shared by the pipeline: whitespace
//! trimming, string equality and concatenation, and decimal rendering of
//! integers. Each executable function is stated against a spec function over
//! sequences of characters.

use vstd::prelude::*;
use vstd::string::StrSliceExecFns;
use vstd::string::StringExecFns;

verus! {

/// The whitespace characters recognised when trimming: blank, tab,
/// line feed and carriage return.
pub open spec fn is_space(c: char) -> bool {
    c == ' ' || c == '\t' || c == '\n' || c == '\r'
}

/// `s` with every trailing whitespace character removed.
pub open spec fn trim_trailing_spec(s: Seq<char>) -> Seq<char>
    decreases s.len(),
{
    if s.len() > 0 && is_space(s[s.len() - 1]) {
        trim_trailing_spec(s.drop_last())
    } else {
        s
    }
}

/// `s` with every leading whitespace character removed.
pub open spec fn trim_leading_spec(s: Seq<char>) -> Seq<char>
    decreases s.len(),
{
    if s.len() > 0 && is_space(s[0]) {
        trim_leading_spec(s.drop_first())
    } else {
        s
    }
}

/// `s` with whitespace removed from both ends.
pub open spec fn trim_spec(s: Seq<char>) -> Seq<char> {
    trim_leading_spec(trim_trailing_spec(s))
}

/// Whether `c` is one of the trimmed whitespace characters.
pub fn char_is_space(c: char) -> (r: bool)
    ensures
        r == is_space(c),
{
    c == ' ' || c == '\t' || c == '\n' || c == '\r'
}

/// When a suffix of `s` is all whitespace, trimming `s` and trimming the
/// part before that suffix agree.
proof fn lemma_trim_trailing_all_space_suffix(s: Seq<char>, end: int)
    requires
        0 <= end <= s.len(),
        forall|j: int| end <= j < s.len() ==> is_space(s[j]),
    ensures
        trim_trailing_spec(s) == trim_trailing_spec(s.take(end)),
    decreases s.len(),
{
    if s.len() > end {
        assert(is_space(s[s.len() - 1]));
        lemma_trim_trailing_all_space_suffix(s.drop_last(), end);
        assert(s.drop_last().take(end) =~= s.take(end));
    } else {
        assert(s.take(end) =~= s);
    }
}

/// A sequence whose last character is not whitespace is already trimmed.
proof fn lemma_trim_trailing_noop(s: Seq<char>)
    requires
        s.len() == 0 || !is_space(s[s.len() - 1]),
    ensures
        trim_trailing_spec(s) == s,
{
}

/// When a prefix of `s` is all whitespace, trimming `s` and trimming the
/// part after that prefix agree.
proof fn lemma_trim_leading_all_space_prefix(s: Seq<char>, start: int)
    requires
        0 <= start <= s.len(),
        forall|j: int| 0 <= j < start ==> is_space(s[j]),
    ensures
        trim_leading_spec(s) == trim_leading_spec(s.skip(start)),
    decreases start,
{
    if start > 0 {
        assert(is_space(s[0]));
        lemma_trim_leading_all_space_prefix(s.drop_first(), start - 1);
        assert(s.drop_first().skip(start - 1) =~= s.skip(start));
    } else {
        assert(s.skip(0) =~= s);
    }
}

/// A sequence whose first character is not whitespace is already trimmed.
proof fn lemma_trim_leading_noop(s: Seq<char>)
    requires
        s.len() == 0 || !is_space(s[0]),
    ensures
        trim_leading_spec(s) == s,
{
}

/// A copy of `s` with trailing whitespace removed.
pub fn trim_trailing(s: &str) -> (r: String)
    ensures
        r@ == trim_trailing_spec(s@),
{
    let n = s.unicode_len();
    let mut end = n;
    while end > 0 && char_is_space(s.get_char(end - 1))
        invariant
            0 <= end <= n,
            n == s@.len(),
            forall|j: int| end <= j < n ==> is_space(s@[j]),
        decreases end,
    {
        end = end - 1;
    }
    proof {
        lemma_trim_trailing_all_space_suffix(s@, end as int);
        lemma_trim_trailing_noop(s@.take(end as int));
    }
    String::from_str(s.substring_char(0, end))
}

/// A copy of `s` with whitespace removed from both ends.
pub fn trim(s: &str) -> (r: String)
    ensures
        r@ == trim_spec(s@),
{
    let n = s.unicode_len();
    let mut end = n;
    while end > 0 && char_is_space(s.get_char(end - 1))
        invariant
            0 <= end <= n,
            n == s@.len(),
            forall|j: int| end <= j < n ==> is_space(s@[j]),
        decreases end,
    {
        end = end - 1;
    }
    proof {
        lemma_trim_trailing_all_space_suffix(s@, end as int);
        lemma_trim_trailing_noop(s@.take(end as int));
    }
    let mut start: usize = 0;
    while start < end && char_is_space(s.get_char(start))
        invariant
            0 <= start <= end <= n,
            n == s@.len(),
            forall|j: int| 0 <= j < start ==> is_space(s@[j]),
        decreases end - start,
    {
        start = start + 1;
    }
    proof {
        let trimmed = s@.take(end as int);
        lemma_trim_leading_all_space_prefix(trimmed, start as int);
        lemma_trim_leading_noop(trimmed.skip(start as int));
        assert(trimmed.skip(start as int) =~= s@.subrange(start as int, end as int));
    }
    String::from_str(s.substring_char(start, end))
}

/// Whether two string slices hold the same characters.
pub fn str_eq(a: &str, b: &str) -> (r: bool)
    ensures
        r == (a@ == b@),
{
    let na = a.unicode_len();
    let nb = b.unicode_len();
    if na != nb {
        return false;
    }
    let mut i: usize = 0;
    while i < na
        invariant
            0 <= i <= na,
            na == a@.len(),
            na == b@.len(),
            forall|j: int| 0 <= j < i ==> a@[j] == b@[j],
        decreases na - i,
    {
        if a.get_char(i) != b.get_char(i) {
            return false;
        }
        i = i + 1;
    }
    proof {
        assert(a@ =~= b@);
    }
    true
}

/// The segments of `s` split on the separator `sep`: splitting the empty
/// string gives one empty segment, and every separator occurrence separates
/// two (possibly empty) segments.
pub open spec fn split_on_char(s: Seq<char>, sep: char) -> Seq<Seq<char>>
    decreases s.len(),
{
    if s.len() == 0 {
        seq![Seq::empty()]
    } else if s[0] == sep {
        seq![Seq::<char>::empty()] + split_on_char(s.drop_first(), sep)
    } else {
        let rest = split_on_char(s.drop_first(), sep);
        seq![seq![s[0]] + rest[0]] + rest.drop_first()
    }
}

/// Splitting always yields at least one segment.
proof fn lemma_split_nonempty(s: Seq<char>, sep: char)
    ensures
        split_on_char(s, sep).len() >= 1,
    decreases s.len(),
{
    if s.len() > 0 {
        lemma_split_nonempty(s.drop_first(), sep);
    }
}

/// When the first separator of `s` stands at `k`, the first segment is the
/// part before it and the rest are the segments of the part after it.
proof fn lemma_split_at_first_sep(s: Seq<char>, sep: char, k: int)
    requires
        0 <= k < s.len(),
        s[k] == sep,
        forall|j: int| 0 <= j < k ==> s[j] != sep,
    ensures
        split_on_char(s, sep) == seq![s.take(k)] + split_on_char(s.skip(k + 1), sep),
    decreases k,
{
    lemma_split_nonempty(s.drop_first(), sep);
    if k == 0 {
        assert(s.take(0) =~= Seq::<char>::empty());
        assert(s.drop_first() =~= s.skip(1));
    } else {
        let rest = s.drop_first();
        lemma_split_at_first_sep(rest, sep, k - 1);
        assert(rest.take(k - 1) =~= s.take(k).drop_first());
        assert(seq![s[0]] + s.take(k).drop_first() =~= s.take(k));
        assert(rest.skip(k) =~= s.skip(k + 1));
        lemma_split_nonempty(s.skip(k + 1), sep);
        assert((seq![s.take(k)] + split_on_char(s.skip(k + 1), sep)).drop_first()
            =~= split_on_char(s.skip(k + 1), sep));
        assert(split_on_char(s, sep) =~= seq![s.take(k)] + split_on_char(s.skip(k + 1), sep));
    }
}

/// A string without the separator is one single segment.
proof fn lemma_split_no_sep(s: Seq<char>, sep: char)
    requires
        forall|j: int| 0 <= j < s.len() ==> s[j] != sep,
    ensures
        split_on_char(s, sep) == seq![s],
    decreases s.len(),
{
    if s.len() > 0 {
        lemma_split_no_sep(s.drop_first(), sep);
        assert(seq![s[0]] + s.drop_first() =~= s);
        assert(split_on_char(s, sep) =~~= seq![s]);
    } else {
        assert(s =~= Seq::<char>::empty());
        assert(split_on_char(s, sep) =~~= seq![s]);
    }
}

/// The segments of `s` split on `sep`, as owned strings.
pub fn split_string(s: &str, sep: char) -> (r: Vec<String>)
    ensures
        r.deep_view() == split_on_char(s@, sep),
{
    let n = s.unicode_len();
    let mut segments: Vec<String> = Vec::new();
    proof {
        assert(s@.skip(0) =~= s@);
        assert(segments.deep_view() =~= Seq::<Seq<char>>::empty());
    }
    let mut start: usize = 0;
    let mut i: usize = 0;
    while i < n
        invariant
            0 <= start <= i <= n,
            n == s@.len(),
            forall|j: int| start <= j < i ==> s@[j] != sep,
            split_on_char(s@, sep) =~= segments.deep_view() + split_on_char(
                s@.skip(start as int),
                sep,
            ),
        decreases n - i,
    {
        if s.get_char(i) == sep {
            let segment = s.substring_char(start, i);
            proof {
                let tail = s@.skip(start as int);
                lemma_split_at_first_sep(tail, sep, i - start);
                assert(tail.take(i - start) =~= s@.subrange(start as int, i as int));
                assert(tail.skip(i - start + 1) =~= s@.skip(i + 1));
            }
            segments.push(String::from_str(segment));
            proof {
                assert(segments.deep_view() =~= segments.deep_view().drop_last() + seq![
                    s@.subrange(start as int, i as int),
                ]);
            }
            start = i + 1;
        }
        i = i + 1;
    }
    let last = s.substring_char(start, n);
    proof {
        let tail = s@.skip(start as int);
        lemma_split_no_sep(tail, sep);
        assert(tail =~= s@.subrange(start as int, n as int));
    }
    segments.push(String::from_str(last));
    proof {
        assert(segments.deep_view() =~= segments.deep_view().drop_last() + seq![
            s@.subrange(start as int, n as int),
        ]);
        assert(segments.deep_view() =~= split_on_char(s@, sep));
    }
    segments
}

/// The index of the first occurrence of `sep` in `s`, if it occurs.
pub open spec fn find_char(s: Seq<char>, sep: char) -> Option<int>
    decreases s.len(),
{
    if s.len() == 0 {
        None
    } else if s[0] == sep {
        Some(0)
    } else {
        match find_char(s.drop_first(), sep) {
            Some(i) => Some(i + 1),
            None => None,
        }
    }
}

/// What `find_char` finds is the first occurrence.
pub proof fn lemma_find_char(s: Seq<char>, sep: char)
    ensures
        match find_char(s, sep) {
            Some(i) => 0 <= i < s.len() && s[i] == sep && forall|j: int|
                0 <= j < i ==> s[j] != sep,
            None => forall|j: int| 0 <= j < s.len() ==> s[j] != sep,
        },
    decreases s.len(),
{
    if s.len() > 0 && s[0] != sep {
        let rest = s.drop_first();
        lemma_find_char(rest, sep);
        match find_char(rest, sep) {
            Some(i) => {
                assert forall|j: int| 0 <= j < i + 1 implies s[j] != sep by {
                    if j > 0 {
                        assert(rest[j - 1] == s[j]);
                    }
                }
                assert(s[i + 1] == rest[i]);
            },
            None => {
                assert forall|j: int| 0 <= j < s.len() implies s[j] != sep by {
                    if j > 0 {
                        assert(rest[j - 1] == s[j]);
                    }
                }
            },
        }
    }
}

/// The index of the first occurrence of `sep` in `s`, computed.
pub fn find_char_exec(s: &str, sep: char) -> (r: Option<usize>)
    ensures
        match r {
            Some(i) => find_char(s@, sep) == Some(i as int),
            None => find_char(s@, sep) is None,
        },
{
    proof {
        lemma_find_char(s@, sep);
    }
    let n = s.unicode_len();
    let mut i: usize = 0;
    while i < n
        invariant
            0 <= i <= n,
            n == s@.len(),
            forall|j: int| 0 <= j < i ==> s@[j] != sep,
            match find_char(s@, sep) {
                Some(k) => 0 <= k < s@.len() && s@[k] == sep && forall|j: int|
                    0 <= j < k ==> s@[j] != sep,
                None => forall|j: int| 0 <= j < s@.len() ==> s@[j] != sep,
            },
        decreases n - i,
    {
        if s.get_char(i) == sep {
            proof {
                if find_char(s@, sep) is None {
                    assert(false);
                }
                let k = find_char(s@, sep)->Some_0;
                assert(!(k < i) && !(i < k));
            }
            return Some(i);
        }
        i = i + 1;
    }
    proof {
        if find_char(s@, sep) is Some {
            assert(false);
        }
    }
    None
}

/// Relies on `String::push` of std: it appends the one character to the
/// end of the string.
#[verifier::external_body]
pub fn push_char(s: &mut String, c: char)
    ensures
        final(s)@ == old(s)@ + seq![c],
{
    s.push(c);
}

/// The decimal digit character for `d`.
pub open spec fn digit_char(d: int) -> char {
    if d == 0 {
        '0'
    } else if d == 1 {
        '1'
    } else if d == 2 {
        '2'
    } else if d == 3 {
        '3'
    } else if d == 4 {
        '4'
    } else if d == 5 {
        '5'
    } else if d == 6 {
        '6'
    } else if d == 7 {
        '7'
    } else if d == 8 {
        '8'
    } else {
        '9'
    }
}

/// The decimal digits of a non-negative integer, most significant first.
pub open spec fn dec_str(n: nat) -> Seq<char>
    decreases n,
{
    if n < 10 {
        seq![digit_char(n as int)]
    } else {
        dec_str(n / 10) + seq![digit_char((n % 10) as int)]
    }
}

/// The decimal rendering of an integer, with a leading minus sign when
/// negative.
pub open spec fn int_str(n: int) -> Seq<char> {
    if n < 0 {
        seq!['-'] + dec_str((-n) as nat)
    } else {
        dec_str(n as nat)
    }
}

/// The digit character for `d`, computed.
fn digit_char_exec(d: u64) -> (c: char)
    requires
        d < 10,
    ensures
        c == digit_char(d as int),
{
    if d == 0 {
        '0'
    } else if d == 1 {
        '1'
    } else if d == 2 {
        '2'
    } else if d == 3 {
        '3'
    } else if d == 4 {
        '4'
    } else if d == 5 {
        '5'
    } else if d == 6 {
        '6'
    } else if d == 7 {
        '7'
    } else if d == 8 {
        '8'
    } else {
        '9'
    }
}

/// The decimal rendering of an unsigned integer.
pub fn u64_to_string(n: u64) -> (r: String)
    ensures
        r@ == dec_str(n as nat),
{
    let mut digits: Vec<char> = Vec::new();
    let mut m = n;
    while m >= 10
        invariant
            dec_str(n as nat) == dec_str(m as nat) + digits@.reverse(),
        decreases m,
    {
        let d = m % 10;
        digits.push(digit_char_exec(d));
        proof {
            assert(digits@.reverse() =~= seq![digit_char((m % 10) as int)] + digits@.drop_last().reverse());
            assert(dec_str(m as nat) == dec_str((m / 10) as nat) + seq![digit_char((m % 10) as int)]);
        }
        m = m / 10;
    }
    digits.push(digit_char_exec(m));
    proof {
        assert(digits@.reverse() =~= seq![digit_char(m as int)] + digits@.drop_last().reverse());
        assert(dec_str(n as nat) =~= digits@.reverse());
    }
    let mut r = String::new();
    let k = digits.len();
    let mut i: usize = 0;
    while i < k
        invariant
            0 <= i <= k,
            k == digits@.len(),
            dec_str(n as nat) == digits@.reverse(),
            r@ =~= digits@.reverse().take(i as int),
        decreases k - i,
    {
        push_char(&mut r, digits[k - 1 - i]);
        proof {
            assert(digits@.reverse()[i as int] == digits@[k - 1 - i]);
            assert(r@ =~= digits@.reverse().take(i + 1));
        }
        i = i + 1;
    }
    proof {
        assert(digits@.reverse().take(k as int) =~= digits@.reverse());
    }
    r
}

/// The decimal rendering of a signed integer.
pub fn i64_to_string(n: i64) -> (r: String)
    ensures
        r@ == int_str(n as int),
{
    if n >= 0 {
        u64_to_string(n as u64)
    } else {
        let mag: u64 = ((-(n + 1)) as u64) + 1;
        proof {
            assert(mag == -(n as int));
        }
        let mut r = String::from_str("-");
        let rest = u64_to_string(mag);
        r.append(rest.as_str());
        proof {
            reveal_strlit("-");
            assert(r@ =~= int_str(n as int));
        }
        r
    }
}

} // verus!
