use vstd::prelude::*;
use vstd::string::StrSliceExecFns;

verus! {

/// `i` is the position of the first `separator` in `s`.
pub open spec fn is_first_separator(s: Seq<char>, separator: char, i: int) -> bool {
    &&& 0 <= i < s.len()
    &&& s[i] == separator
    &&& forall|j: int| 0 <= j < i ==> s[j] != separator
}

/// Position of the first `separator` in `s`, when `s` holds one.
pub open spec fn first_separator(s: Seq<char>, separator: char) -> int {
    choose|i: int| is_first_separator(s, separator, i)
}

/// `s` cut at its first `separator`, which belongs to neither part; `None`
/// when `s` holds no `separator`.
pub open spec fn spec_split_pair(s: Seq<char>, separator: char) -> Option<(Seq<char>, Seq<char>)> {
    if s.contains(separator) {
        let i = first_separator(s, separator);
        Some((s.subrange(0, i), s.subrange(i + 1, s.len() as int)))
    } else {
        None
    }
}

/// An ASCII decimal digit.
pub open spec fn is_decimal_digit(c: char) -> bool {
    '0' <= c <= '9'
}

/// Value of a string of decimal digits, most significant first.
pub open spec fn digits_value(d: Seq<char>) -> nat
    decreases d.len(),
{
    if d.len() == 0 {
        0
    } else {
        digits_value(d.drop_last()) * 10 + (d.last() as nat - '0' as nat) as nat
    }
}

/// The digits of `s` once an optional leading `+` is taken off.
pub open spec fn unsigned_digits(s: Seq<char>) -> Seq<char> {
    if s.len() > 0 && s[0] == '+' {
        s.drop_first()
    } else {
        s
    }
}

/// The `usize` that `s` writes in decimal: an optional `+`, then one or more
/// ASCII digits and nothing else, of a value that fits in a `usize`.
pub open spec fn spec_parse_usize(s: Seq<char>) -> Option<usize> {
    let d = unsigned_digits(s);
    if d.len() > 0 && (forall|i: int| 0 <= i < d.len() ==> is_decimal_digit(#[trigger] d[i]))
        && digits_value(d) <= usize::MAX {
        Some(digits_value(d) as usize)
    } else {
        None
    }
}

/// Relies on `usize::from_str` (`str::parse`): it accepts an optional `+`
/// followed by one or more ASCII digits, and fails on anything else and on a
/// value beyond `usize::MAX`.
#[verifier::external_body]
fn parse_usize(s: &str) -> (r: Option<usize>)
    ensures
        r == spec_parse_usize(s@),
{
    s.parse::<usize>().ok()
}

/// Cuts `s` at its first `separator`: the text before it and the text after
/// it, or `None` when `s` holds no `separator`.
pub fn split_pair<'a>(s: &'a str, separator: char) -> (r: Option<(&'a str, &'a str)>)
    ensures
        match r {
            None => spec_split_pair(s@, separator) is None,
            Some((left, right)) => spec_split_pair(s@, separator) == Some((left@, right@)),
        },
{
    let n = s.unicode_len();
    let mut i: usize = 0;
    while i < n
        invariant
            n == s@.len(),
            i <= n,
            forall|j: int| 0 <= j < i ==> s@[j] != separator,
        decreases n - i,
    {
        if s.get_char(i) == separator {
            proof {
                assert(is_first_separator(s@, separator, i as int));
                assert(s@.contains(separator));
                let k = first_separator(s@, separator);
                assert(k == i);
            }
            let left = s.substring_char(0, i);
            let right = s.substring_char(i + 1, n);
            return Some((left, right));
        }
        i = i + 1;
    }
    None
}

/// The pair of `usize` that `s` writes as two decimal numbers around the
/// first `separator`, as in `"1000x750"` with `'x'`.
pub open spec fn spec_parse_pair(s: Seq<char>, separator: char) -> Option<(usize, usize)> {
    match spec_split_pair(s, separator) {
        None => None,
        Some((left, right)) => match (spec_parse_usize(left), spec_parse_usize(right)) {
            (Some(l), Some(r)) => Some((l, r)),
            _ => None,
        },
    }
}

/// Parses two decimal `usize` values separated by `separator`, such as image
/// dimensions written `"1000x750"`. `None` when `s` holds no `separator`, or
/// when the text on either side of the first one is not a decimal `usize`.
pub fn parse_pair(s: &str, separator: char) -> (r: Option<(usize, usize)>)
    ensures
        r == spec_parse_pair(s@, separator),
{
    match split_pair(s, separator) {
        None => None,
        Some((left, right)) => match (parse_usize(left), parse_usize(right)) {
            (Some(l), Some(r)) => Some((l, r)),
            _ => None,
        },
    }
}

} // verus!
