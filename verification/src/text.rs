//! Verified character-level string utilities: equality, substring search,
//! splitting on `/`, and decimal parsing.

use vstd::prelude::*;
use vstd::string::StrSliceExecFns;

verus! {

/// `needle` occurs somewhere in `haystack` as a contiguous run of characters.
pub open spec fn contains_seq(haystack: Seq<char>, needle: Seq<char>) -> bool {
    exists|i: int|
        0 <= i && i + needle.len() <= haystack.len() && #[trigger] haystack.subrange(
            i,
            i + needle.len(),
        ) == needle
}

/// Character-for-character string equality.
pub fn str_eq(a: &str, b: &str) -> (r: bool)
    ensures
        r == (a@ == b@),
{
    let a_len = a.unicode_len();
    let b_len = b.unicode_len();
    if a_len != b_len {
        return false;
    }
    let mut i: usize = 0;
    while i < a_len
        invariant
            i <= a_len,
            a_len == a@.len(),
            a_len == b@.len(),
            forall|k: int| 0 <= k < i ==> a@[k] == b@[k],
        decreases a_len - i,
    {
        if a.get_char(i) != b.get_char(i) {
            return false;
        }
        i += 1;
    }
    proof {
        assert(a@ =~= b@);
    }
    true
}

/// Substring search, counted in characters.
pub fn contains_str(haystack: &str, needle: &str) -> (r: bool)
    ensures
        r == contains_seq(haystack@, needle@),
{
    let h_len = haystack.unicode_len();
    let n_len = needle.unicode_len();
    if n_len > h_len {
        return false;
    }
    if n_len == 0 {
        proof {
            assert(haystack@.subrange(0, 0 + needle@.len() as int) =~= needle@);
        }
        return true;
    }
    let mut i: usize = 0;
    while i <= h_len - n_len
        invariant
            0 < n_len <= h_len,
            i <= h_len - n_len + 1,
            h_len == haystack@.len(),
            n_len == needle@.len(),
            forall|ii: int|
                0 <= ii < i ==> #[trigger] haystack@.subrange(ii, ii + needle@.len()) != needle@,
        decreases h_len - n_len + 1 - i,
    {
        let mut j: usize = 0;
        let mut matched = true;
        while j < n_len
            invariant
                j <= n_len,
                i + n_len <= h_len,
                h_len == haystack@.len(),
                n_len == needle@.len(),
                matched ==> forall|k: int| 0 <= k < j ==> haystack@[i + k] == needle@[k],
                !matched ==> haystack@.subrange(i as int, i + n_len) != needle@,
            decreases n_len - j,
        {
            if matched && haystack.get_char(i + j) != needle.get_char(j) {
                proof {
                    assert(haystack@.subrange(i as int, i + n_len)[j as int] == haystack@[i + j]);
                }
                matched = false;
            }
            j += 1;
        }
        if matched {
            proof {
                assert(haystack@.subrange(i as int, i + n_len) =~= needle@);
            }
            return true;
        }
        i += 1;
    }
    proof {
        assert forall|ii: int|
            0 <= ii && ii + needle@.len() <= haystack@.len() implies #[trigger] haystack@.subrange(
            ii,
            ii + needle@.len(),
        ) != needle@ by {
            assert(ii < i);
        }
    }
    false
}

/// The `/`-separated segments of `s`, in order. Splitting always yields at
/// least one segment; an empty input yields one empty segment.
pub open spec fn split_slash(s: Seq<char>) -> Seq<Seq<char>>
    decreases s.len(),
{
    if s.len() == 0 {
        seq![Seq::<char>::empty()]
    } else if s[0] == '/' {
        seq![Seq::<char>::empty()] + split_slash(s.skip(1))
    } else {
        let rest = split_slash(s.skip(1));
        seq![seq![s[0]] + rest[0]] + rest.skip(1)
    }
}

pub proof fn lemma_split_slash_len(s: Seq<char>)
    ensures
        split_slash(s).len() >= 1,
    decreases s.len(),
{
    if s.len() == 0 {
    } else {
        lemma_split_slash_len(s.skip(1));
    }
}

/// A string without a `/` is its own single segment.
pub proof fn lemma_split_slash_none(s: Seq<char>)
    requires
        forall|i: int| 0 <= i < s.len() ==> s[i] != '/',
    ensures
        split_slash(s) == seq![s],
    decreases s.len(),
{
    if s.len() == 0 {
        assert(split_slash(s) =~~= seq![s]);
    } else {
        lemma_split_slash_none(s.skip(1));
        assert(seq![s[0]] + s.skip(1) =~= s);
        assert(split_slash(s) =~~= seq![s]);
    }
}

/// Splitting at the first `/`: the head segment is everything before it, and
/// the remaining segments are those of everything after it.
pub proof fn lemma_split_slash_first(s: Seq<char>, j: int)
    requires
        0 <= j < s.len(),
        s[j] == '/',
        forall|i: int| 0 <= i < j ==> s[i] != '/',
    ensures
        split_slash(s) == seq![s.subrange(0, j)] + split_slash(s.subrange(j + 1, s.len() as int)),
    decreases j,
{
    if j == 0 {
        assert(s.subrange(0, 0) =~= Seq::<char>::empty());
        assert(s.skip(1) =~= s.subrange(1, s.len() as int));
        assert(split_slash(s) =~~= seq![s.subrange(0, 0)] + split_slash(
            s.subrange(1, s.len() as int),
        ));
    } else {
        let tail = s.skip(1);
        assert(tail[j - 1] == '/');
        lemma_split_slash_first(tail, j - 1);
        lemma_split_slash_len(tail.subrange(j, tail.len() as int));
        let rest = split_slash(tail);
        assert(tail.subrange(0, j - 1) =~= s.subrange(1, j));
        assert(tail.subrange(j, tail.len() as int) =~= s.subrange(j + 1, s.len() as int));
        assert(rest == seq![s.subrange(1, j)] + split_slash(s.subrange(j + 1, s.len() as int)));
        assert(seq![s[0]] + rest[0] =~= s.subrange(0, j));
        assert(rest.skip(1) =~= split_slash(s.subrange(j + 1, s.len() as int)));
        assert(split_slash(s) =~~= seq![s.subrange(0, j)] + split_slash(
            s.subrange(j + 1, s.len() as int),
        ));
    }
}

/// The character index of the first `/` in `s`, or the length of `s` when
/// there is none.
pub(crate) fn find_slash(s: &str) -> (r: usize)
    ensures
        r <= s@.len(),
        forall|i: int| 0 <= i < r ==> s@[i] != '/',
        r < s@.len() ==> s@[r as int] == '/',
{
    let len = s.unicode_len();
    let mut i: usize = 0;
    while i < len
        invariant
            i <= len,
            len == s@.len(),
            forall|k: int| 0 <= k < i ==> s@[k] != '/',
        decreases len - i,
    {
        if s.get_char(i) == '/' {
            return i;
        }
        i += 1;
    }
    len
}

/// The segment of `s` at position `k` of its `/`-split, when there is one.
pub fn nth_segment<'a>(s: &'a str, k: usize) -> (r: Option<&'a str>)
    ensures
        match r {
            Some(seg) => k < split_slash(s@).len() && seg@ == split_slash(s@)[k as int],
            None => k >= split_slash(s@).len(),
        },
    decreases s@.len(),
{
    let len = s.unicode_len();
    let j = find_slash(s);
    if j == len {
        proof {
            lemma_split_slash_none(s@);
        }
        if k == 0 {
            Some(s)
        } else {
            None
        }
    } else {
        proof {
            lemma_split_slash_first(s@, j as int);
            lemma_split_slash_len(s@.subrange(j + 1, s@.len() as int));
        }
        if k == 0 {
            Some(s.substring_char(0, j))
        } else {
            let rest = s.substring_char(j + 1, len);
            nth_segment(rest, k - 1)
        }
    }
}

/// `c` is a decimal digit.
pub open spec fn dec_digit(c: char) -> bool {
    48 <= c as u32 <= 57
}

/// The numeric value of a decimal digit.
pub open spec fn digit_val(c: char) -> int {
    c as u32 - 48
}

/// Every character of `s` is a decimal digit.
pub open spec fn all_dec_digits(s: Seq<char>) -> bool {
    forall|i: int| 0 <= i < s.len() ==> dec_digit(#[trigger] s[i])
}

/// The value of `s` read as a base-ten numeral.
pub open spec fn dec_value(s: Seq<char>) -> int
    decreases s.len(),
{
    if s.len() == 0 {
        0
    } else {
        dec_value(s.drop_last()) * 10 + digit_val(s.last())
    }
}

/// `s` with a single leading `+` removed, as an unsigned numeral allows one.
pub open spec fn unsigned_body(s: Seq<char>) -> Seq<char> {
    if s.len() > 0 && s[0] == '+' {
        s.skip(1)
    } else {
        s
    }
}

/// `s` is a numeral that a `u64` can hold: after an optional leading `+`,
/// one or more decimal digits whose value is at most `u64::MAX`.
pub open spec fn parses_as_u64(s: Seq<char>) -> bool {
    let d = unsigned_body(s);
    d.len() > 0 && all_dec_digits(d) && dec_value(d) <= u64::MAX
}

pub proof fn lemma_dec_value_nonneg(s: Seq<char>)
    requires
        all_dec_digits(s),
    ensures
        dec_value(s) >= 0,
    decreases s.len(),
{
    if s.len() > 0 {
        lemma_dec_value_nonneg(s.drop_last());
    }
}

/// A numeral is at least as large as any of its prefixes.
pub proof fn lemma_dec_value_prefix(s: Seq<char>, i: int)
    requires
        all_dec_digits(s),
        0 <= i <= s.len(),
    ensures
        dec_value(s.take(i)) <= dec_value(s),
    decreases s.len() - i,
{
    if i == s.len() {
        assert(s.take(i) =~= s);
    } else {
        assert(s.take(i + 1).drop_last() =~= s.take(i));
        lemma_dec_value_nonneg(s.take(i));
        assert(dec_value(s.take(i + 1)) == dec_value(s.take(i)) * 10 + digit_val(s.take(i + 1).last()));
        lemma_dec_value_prefix(s, i + 1);
    }
}

/// Reads `s` as an unsigned base-ten numeral, `None` when `s` is not one or
/// its value does not fit in a `u64`.
pub fn parse_u64(s: &str) -> (r: Option<u64>)
    ensures
        match r {
            Some(n) => parses_as_u64(s@) && n == dec_value(unsigned_body(s@)),
            None => !parses_as_u64(s@),
        },
{
    let len = s.unicode_len();
    let start: usize = if len > 0 && s.get_char(0) == '+' {
        1
    } else {
        0
    };
    proof {
        assert(unsigned_body(s@) =~= s@.skip(start as int));
    }
    if start == len {
        return None;
    }
    let mut acc: u64 = 0;
    let mut i: usize = start;
    while i < len
        invariant
            start <= i <= len,
            len == s@.len(),
            start < len,
            unsigned_body(s@) == s@.skip(start as int),
            all_dec_digits(s@.skip(start as int).take(i - start)),
            acc == dec_value(s@.skip(start as int).take(i - start)),
        decreases len - i,
    {
        let ghost body = s@.skip(start as int);
        let ghost done = body.take(i - start);
        let c = s.get_char(i);
        proof {
            assert(body[i - start] == s@[i as int]);
            assert(done.push(c) =~= body.take(i + 1 - start));
            assert(body.take(i + 1 - start).drop_last() =~= done);
        }
        let u = c as u32;
        if u < 48 || u > 57 {
            return None;
        }
        let d = (u - 48) as u64;
        if acc > (u64::MAX - d) / 10 {
            proof {
                assert(dec_value(body.take(i + 1 - start)) > u64::MAX) by {
                    assert(acc * 10 + d > u64::MAX);
                };
                if all_dec_digits(body) {
                    lemma_dec_value_prefix(body, i + 1 - start);
                }
            }
            return None;
        }
        proof {
            assert(acc * 10 + d <= u64::MAX) by {
                assert(acc <= (u64::MAX - d) / 10);
                assert(((u64::MAX - d) / 10) * 10 + d <= u64::MAX) by (nonlinear_arith)
                    requires
                        0 <= d <= 9,
                ;
                assert(acc * 10 <= ((u64::MAX - d) / 10) * 10) by (nonlinear_arith)
                    requires
                        acc <= (u64::MAX - d) / 10,
                ;
            };
        }
        acc = acc * 10 + d;
        i += 1;
    }
    proof {
        assert(s@.skip(start as int).take(i - start) =~= unsigned_body(s@));
    }
    Some(acc)
}

} // verus!
