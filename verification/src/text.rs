//! Character-level helpers: decoding strings, prefixes, separators and
//! decimal numbers.
//!
//! Every function here works on a sequence of characters, so that the rules
//! of the specifier grammar can be stated over `Seq<char>` and checked once.

use vstd::prelude::*;
use vstd::slice::slice_subrange;
use vstd::string::StrSliceExecFns;

verus! {

/// The characters of `s`, in order.
pub fn to_chars(s: &str) -> (chars: Vec<char>)
    ensures
        chars@ == s@,
{
    let mut chars: Vec<char> = Vec::new();
    for c in it: s.chars()
        invariant
            it.seq() == s@,
            chars@ == it.seq().take(it.index()),
    {
        chars.push(c);
    }
    chars
}

/// Whether two character slices hold the same characters.
pub fn same_chars(a: &[char], b: &[char]) -> (same: bool)
    ensures
        same == (a@ == b@),
{
    if a.len() != b.len() {
        return false;
    }
    let mut i: usize = 0;
    while i < a.len()
        invariant
            a@.len() == b@.len(),
            i <= a@.len(),
            forall|k: int| 0 <= k < i ==> a@[k] == b@[k],
        decreases a@.len() - i,
    {
        if a[i] != b[i] {
            return false;
        }
        i += 1;
    }
    assert(a@ =~= b@);
    true
}

/// What is left of `s` once `prefix` is taken from its front, if `s` starts
/// with `prefix`.
pub open spec fn strip_prefix(s: Seq<char>, prefix: Seq<char>) -> Option<Seq<char>> {
    if prefix.len() <= s.len() && s.take(prefix.len() as int) == prefix {
        Some(s.skip(prefix.len() as int))
    } else {
        None
    }
}

/// A sequence starts with a prefix exactly where it is the prefix followed by
/// what is left.
pub proof fn lemma_strip_prefix(s: Seq<char>, prefix: Seq<char>, rest: Seq<char>)
    ensures
        strip_prefix(s, prefix) == Some(rest) <==> s == prefix + rest,
{
    if strip_prefix(s, prefix) == Some(rest) {
        assert(s =~= s.take(prefix.len() as int) + s.skip(prefix.len() as int));
    }
    if s == prefix + rest {
        assert(s.take(prefix.len() as int) =~= prefix);
        assert(s.skip(prefix.len() as int) =~= rest);
    }
}

/// Removes `prefix` from the front of `chars`, comparing character by
/// character and with regard to case. Where there is a rest, `chars` are the
/// prefix followed by the rest.
pub fn remove_prefix<'a>(chars: &'a [char], prefix: &[char]) -> (rest: Option<&'a [char]>)
    ensures
        match rest {
            Some(r) => strip_prefix(chars@, prefix@) == Some(r@) && chars@ == prefix@ + r@,
            None => strip_prefix(chars@, prefix@) is None,
        },
{
    if prefix.len() > chars.len() {
        return None;
    }
    let head = slice_subrange(chars, 0, prefix.len());
    if same_chars(head, prefix) {
        let rest = slice_subrange(chars, prefix.len(), chars.len());
        proof {
            lemma_strip_prefix(chars@, prefix@, rest@);
        }
        Some(rest)
    } else {
        None
    }
}

/// Removes `prefix` from the front of `text`, with regard to case.
pub fn remove_text_prefix<'a>(text: &'a str, prefix: &str) -> (rest: Option<&'a str>)
    ensures
        match rest {
            Some(r) => strip_prefix(text@, prefix@) == Some(r@),
            None => strip_prefix(text@, prefix@) is None,
        },
{
    let chars = to_chars(text);
    let prefix_chars = to_chars(prefix);
    match remove_prefix(chars.as_slice(), prefix_chars.as_slice()) {
        Some(_) => Some(text.substring_char(prefix_chars.len(), chars.len())),
        None => None,
    }
}

/// Number of characters at the front of `s` before its first `sep` (all of
/// them where `s` holds none).
pub open spec fn run_length(s: Seq<char>, sep: char) -> nat
    decreases s.len(),
{
    if s.len() == 0 || s[0] == sep {
        0
    } else {
        1 + run_length(s.skip(1), sep)
    }
}

/// The pieces of `s` between occurrences of `sep`: the part before the first
/// separator, then the pieces of what follows it. A sequence without a
/// separator is its own single piece, also where it is empty.
pub open spec fn split_on(s: Seq<char>, sep: char) -> Seq<Seq<char>>
    decreases s.len(),
{
    let n = run_length(s, sep);
    if n >= s.len() {
        seq![s]
    } else {
        seq![s.take(n as int)] + split_on(s.skip(n as int + 1), sep)
    }
}

/// The pieces, put back together with `sep` between neighbours.
pub open spec fn join_with(pieces: Seq<Seq<char>>, sep: char) -> Seq<char>
    decreases pieces.len(),
{
    if pieces.len() == 0 {
        Seq::empty()
    } else if pieces.len() == 1 {
        pieces[0]
    } else {
        pieces[0] + seq![sep] + join_with(pieces.skip(1), sep)
    }
}

/// `run_length` is the position of the first separator.
pub proof fn lemma_run_length(s: Seq<char>, sep: char, n: int)
    requires
        0 <= n <= s.len(),
        forall|k: int| 0 <= k < n ==> s[k] != sep,
        n < s.len() ==> s[n] == sep,
    ensures
        run_length(s, sep) == n,
    decreases n,
{
    if n > 0 {
        let t = s.skip(1);
        assert forall|k: int| 0 <= k < n - 1 implies t[k] != sep by {
            assert(t[k] == s[k + 1]);
        }
        lemma_run_length(t, sep, n - 1);
    }
}

/// The run before the first separator holds no separator and ends at one, or
/// at the end of the sequence.
pub proof fn lemma_run_length_bounds(s: Seq<char>, sep: char)
    ensures
        run_length(s, sep) <= s.len(),
        forall|k: int| 0 <= k < run_length(s, sep) ==> s[k] != sep,
        run_length(s, sep) < s.len() ==> s[run_length(s, sep) as int] == sep,
    decreases s.len(),
{
    if !(s.len() == 0 || s[0] == sep) {
        let t = s.skip(1);
        lemma_run_length_bounds(t, sep);
        assert forall|k: int| 0 <= k < run_length(s, sep) implies s[k] != sep by {
            if k > 0 {
                assert(t[k - 1] == s[k]);
            }
        }
        if run_length(s, sep) < s.len() {
            assert(t[run_length(t, sep) as int] == s[run_length(s, sep) as int]);
        }
    }
}

/// Splitting loses nothing: there is at least one piece, no piece holds the
/// separator, and the pieces joined by the separator are the sequence again.
pub proof fn lemma_split_on_joins(s: Seq<char>, sep: char)
    ensures
        split_on(s, sep).len() >= 1,
        forall|k: int, j: int|
            0 <= k < split_on(s, sep).len() && 0 <= j < split_on(s, sep)[k].len()
                ==> #[trigger] split_on(s, sep)[k][j] != sep,
        join_with(split_on(s, sep), sep) == s,
    decreases s.len(),
{
    let n = run_length(s, sep);
    lemma_run_length_bounds(s, sep);
    if n < s.len() {
        let tail = s.skip(n as int + 1);
        lemma_split_on_joins(tail, sep);
        let pieces = split_on(s, sep);
        assert(pieces.skip(1) =~= split_on(tail, sep));
        assert forall|k: int, j: int|
            0 <= k < pieces.len() && 0 <= j < pieces[k].len() implies #[trigger] pieces[k][j]
            != sep by {
            if k > 0 {
                assert(pieces[k] == split_on(tail, sep)[k - 1]);
            }
        }
    }
}

/// Where the pieces of `chars` between occurrences of `sep` begin and end:
/// one pair of positions for each piece of `split_on`, in order. The first
/// piece begins at the front, each further piece one position after the end
/// of the piece before it, and the last piece ends at the back.
pub fn split_ranges(chars: &[char], sep: char) -> (ranges: Vec<(usize, usize)>)
    ensures
        ranges@.len() == split_on(chars@, sep).len(),
        ranges@.len() >= 1,
        ranges@[0].0 == 0,
        ranges@[ranges@.len() - 1].1 == chars@.len(),
        forall|k: int|
            0 <= k < ranges@.len() - 1 ==> (#[trigger] ranges@[k]).1 + 1 == ranges@[k + 1].0,
        forall|k: int|
            0 <= k < ranges@.len() ==> {
                &&& (#[trigger] ranges@[k]).0 <= ranges@[k].1 <= chars@.len()
                &&& chars@.subrange(ranges@[k].0 as int, ranges@[k].1 as int) == split_on(
                    chars@,
                    sep,
                )[k]
            },
{
    let ghost s = chars@;
    let mut ranges: Vec<(usize, usize)> = Vec::new();
    let ghost mut done: Seq<Seq<char>> = Seq::empty();
    let mut start: usize = 0;
    let mut i: usize = 0;
    assert(s.skip(0) =~= s);
    while i < chars.len()
        invariant
            s == chars@,
            start <= i <= s.len(),
            forall|k: int| start <= k < i ==> s[k] != sep,
            done.len() == ranges@.len(),
            ranges@.len() == 0 ==> start == 0,
            ranges@.len() > 0 ==> ranges@[0].0 == 0 && ranges@[ranges@.len() - 1].1 + 1 == start,
            forall|k: int|
                0 <= k < ranges@.len() - 1 ==> (#[trigger] ranges@[k]).1 + 1 == ranges@[k + 1].0,
            forall|k: int|
                0 <= k < ranges@.len() ==> {
                    &&& (#[trigger] ranges@[k]).0 <= ranges@[k].1 <= s.len()
                    &&& s.subrange(ranges@[k].0 as int, ranges@[k].1 as int) == done[k]
                },
            split_on(s, sep) == done + split_on(s.skip(start as int), sep),
        decreases s.len() - i,
    {
        if chars[i] == sep {
            proof {
                let rest = s.skip(start as int);
                let n = i - start;
                assert forall|k: int| 0 <= k < n implies rest[k] != sep by {
                    assert(rest[k] == s[start + k]);
                }
                lemma_run_length(rest, sep, n);
                assert(rest.take(n) =~= s.subrange(start as int, i as int));
                assert(rest.skip(n + 1) =~= s.skip(i + 1));
                assert(done + (seq![rest.take(n)] + split_on(rest.skip(n + 1), sep)) =~= done.push(
                    rest.take(n),
                ) + split_on(rest.skip(n + 1), sep));
                done = done.push(s.subrange(start as int, i as int));
            }
            ranges.push((start, i));
            start = i + 1;
        }
        i += 1;
    }
    proof {
        let rest = s.skip(start as int);
        let n = s.len() - start;
        assert forall|k: int| 0 <= k < n implies rest[k] != sep by {
            assert(rest[k] == s[start + k]);
        }
        lemma_run_length(rest, sep, n);
        done = done.push(rest);
    }
    ranges.push((start, chars.len()));
    ranges
}

/// Whether `c` is one of the ten decimal digits `0` to `9`.
pub open spec fn is_digit(c: char) -> bool {
    '0' <= c && c <= '9'
}

/// What the digit `c` is worth; a character that is no digit is worth nothing.
pub open spec fn digit_value(c: char) -> nat {
    if is_digit(c) {
        (c as nat - '0' as nat) as nat
    } else {
        0
    }
}

/// What `s` is worth when read as a decimal number, most significant digit
/// first.
pub open spec fn digits_value(s: Seq<char>) -> nat
    decreases s.len(),
{
    if s.len() == 0 {
        0
    } else {
        digits_value(s.drop_last()) * 10 + digit_value(s.last())
    }
}

/// Whether `s` is one or more decimal digits and nothing else.
pub open spec fn is_number(s: Seq<char>) -> bool {
    s.len() > 0 && forall|k: int| 0 <= k < s.len() ==> is_digit(#[trigger] s[k])
}

/// `s` without a leading plus sign.
pub open spec fn unsigned_part(s: Seq<char>) -> Seq<char> {
    if s.len() > 0 && s[0] == '+' {
        s.skip(1)
    } else {
        s
    }
}

/// The number that `s` spells, where it spells one that is at most `max`: an
/// optional plus sign, then one or more decimal digits and nothing else.
/// Leading zeros do not change what the digits are worth. Everything else (an
/// empty text, a minus sign, a blank, a letter, a number above `max`) spells
/// nothing.
pub open spec fn parse_decimal(s: Seq<char>, max: nat) -> Option<nat> {
    let digits = unsigned_part(s);
    if is_number(digits) && digits_value(digits) <= max {
        Some(digits_value(digits))
    } else {
        None
    }
}

/// Whether `s` spells a decimal number of any size: an optional plus sign,
/// then one or more decimal digits and nothing else.
pub open spec fn is_decimal(s: Seq<char>) -> bool {
    is_number(unsigned_part(s))
}

/// Reading one more digit multiplies what was read by ten and adds the digit.
pub proof fn lemma_digits_value_step(s: Seq<char>, k: int)
    requires
        0 <= k < s.len(),
    ensures
        digits_value(s.take(k + 1)) == digits_value(s.take(k)) * 10 + digit_value(s[k]),
{
    assert(s.take(k + 1).drop_last() =~= s.take(k));
}

/// A number is worth at least as much as any of its leading parts.
pub proof fn lemma_digits_value_grows(s: Seq<char>, k: int)
    requires
        0 <= k <= s.len(),
    ensures
        digits_value(s.take(k)) <= digits_value(s),
    decreases s.len() - k,
{
    if k < s.len() {
        lemma_digits_value_step(s, k);
        lemma_digits_value_grows(s, k + 1);
    } else {
        assert(s.take(k) =~= s);
    }
}

/// Whether `chars` spell a decimal number of any size.
pub fn spells_decimal(chars: &[char]) -> (spelled: bool)
    ensures
        spelled == is_decimal(chars@),
{
    let first: usize = if chars.len() > 0 && chars[0] == '+' {
        1
    } else {
        0
    };
    let digits = slice_subrange(chars, first, chars.len());
    if digits.len() == 0 {
        return false;
    }
    let mut i: usize = 0;
    while i < digits.len()
        invariant
            digits@ == unsigned_part(chars@),
            i <= digits@.len(),
            forall|k: int| 0 <= k < i ==> is_digit(#[trigger] digits@[k]),
        decreases digits@.len() - i,
    {
        let c = digits[i];
        if c < '0' || c > '9' {
            return false;
        }
        i += 1;
    }
    true
}

/// Reads `chars` as a decimal number of at most `max`.
pub fn read_decimal(chars: &[char], max: u32) -> (number: Option<u32>)
    ensures
        match number {
            Some(n) => parse_decimal(chars@, max as nat) == Some(n as nat),
            None => parse_decimal(chars@, max as nat) is None,
        },
{
    let first: usize = if chars.len() > 0 && chars[0] == '+' {
        1
    } else {
        0
    };
    let digits = slice_subrange(chars, first, chars.len());
    if digits.len() == 0 {
        return None;
    }
    let mut value: u64 = 0;
    let mut i: usize = 0;
    while i < digits.len()
        invariant
            digits@ == unsigned_part(chars@),
            i <= digits@.len(),
            forall|k: int| 0 <= k < i ==> is_digit(#[trigger] digits@[k]),
            value == digits_value(digits@.take(i as int)),
            value <= max,
        decreases digits@.len() - i,
    {
        let c = digits[i];
        if c < '0' || c > '9' {
            return None;
        }
        proof {
            lemma_digits_value_step(digits@, i as int);
        }
        value = value * 10 + (c as u64 - '0' as u64);
        if value > max as u64 {
            proof {
                lemma_digits_value_grows(digits@, i + 1);
            }
            return None;
        }
        i += 1;
    }
    assert(digits@.take(i as int) =~= digits@);
    Some(value as u32)
}

} // verus!
