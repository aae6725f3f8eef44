//! Text: endings, letter case, decimal numbers.

use vstd::prelude::*;
use vstd::string::*;
use vstd::utf8::*;

verus! {

/// The lower case form of `s`, by Unicode's rules.
pub uninterp spec fn lowercase(s: Seq<char>) -> Seq<char>;

/// The lower case form of an ASCII character; any other character is itself.
pub open spec fn ascii_lower(c: char) -> char {
    if 'A' as int <= c as int && c as int <= 'Z' as int {
        (c as int + 32) as char
    } else {
        c
    }
}

/// `s` with each ASCII letter in lower case.
pub open spec fn ascii_lowercase(s: Seq<char>) -> Seq<char> {
    s.map_values(|c: char| ascii_lower(c))
}

/// Calls `str::to_lowercase`. Its result is named `lowercase`; of it only this is claimed: an
/// ASCII text comes out letter by letter, and so does an ASCII ending, as the ending of the
/// result.
#[verifier::external_body]
fn to_lowercase(s: &str) -> (lower: String)
    ensures
        lower@ == lowercase(s@),
        is_ascii_chars(s@) ==> lower@ == ascii_lowercase(s@),
        forall|k: int|
            0 <= k <= s@.len() && is_ascii_chars(#[trigger] s@.skip(k)) ==> ascii_lowercase(
                s@.skip(k),
            ).is_suffix_of(lower@),
{
    s.to_lowercase()
}

/// Whether two texts are the same.
pub fn same_text(a: &str, b: &str) -> (same: bool)
    ensures
        same == (a@ == b@),
{
    a.to_owned() == b.to_owned()
}

/// Whether `s` ends in `suffix`.
pub fn ends_with(s: &str, suffix: &str) -> (found: bool)
    ensures
        found == suffix@.is_suffix_of(s@),
{
    let n: usize = s.unicode_len();
    let m: usize = suffix.unicode_len();
    if m > n {
        return false;
    }
    same_text(s.substring_char(n - m, n), suffix)
}

/// Whether a lower case path has one of the two endings of a batch file.
pub open spec fn batch_ending(lower: Seq<char>) -> bool {
    ".bat"@.is_suffix_of(lower) || ".cmd"@.is_suffix_of(lower)
}

/// Whether `path` names a batch file: its ending, in lower case, is `.bat` or `.cmd`.
pub open spec fn is_batch_path(path: Seq<char>) -> bool {
    batch_ending(lowercase(path))
}

/// Decides `batch_ending`.
pub fn has_batch_ending(lower: &str) -> (found: bool)
    ensures
        found == batch_ending(lower@),
{
    ends_with(lower, ".bat") || ends_with(lower, ".cmd")
}

/// Decides `is_batch_path`. The letter case of the ending plays no part.
pub fn is_batch_file(path: &str) -> (found: bool)
    ensures
        found == is_batch_path(path@),
        path@.len() >= 4 && is_ascii_chars(path@.skip(path@.len() - 4)) ==> {
            let ending = ascii_lowercase(path@.skip(path@.len() - 4));
            found == (ending == ".bat"@ || ending == ".cmd"@)
        },
        path@.len() < 4 && is_ascii_chars(path@) ==> !found,
{
    let lower = to_lowercase(path);
    proof {
        reveal_strlit(".bat");
        reveal_strlit(".cmd");
        if path@.len() >= 4 && is_ascii_chars(path@.skip(path@.len() - 4)) {
            let ending = ascii_lowercase(path@.skip(path@.len() - 4));
            let last = lower@.subrange(lower@.len() - 4, lower@.len() as int);
            assert(ending =~= last);
        }
    }
    has_batch_ending(lower.as_str())
}

/// The text of one decimal digit.
pub open spec fn digit_text(d: nat) -> Seq<char> {
    if d == 0 {
        "0"@
    } else if d == 1 {
        "1"@
    } else if d == 2 {
        "2"@
    } else if d == 3 {
        "3"@
    } else if d == 4 {
        "4"@
    } else if d == 5 {
        "5"@
    } else if d == 6 {
        "6"@
    } else if d == 7 {
        "7"@
    } else if d == 8 {
        "8"@
    } else {
        "9"@
    }
}

/// The decimal form of `n`, without leading zeros.
pub open spec fn decimal_text(n: nat) -> Seq<char>
    decreases n,
{
    if n < 10 {
        digit_text(n)
    } else {
        decimal_text(n / 10) + digit_text(n % 10)
    }
}

fn digit(d: usize) -> (s: &'static str)
    requires
        d < 10,
    ensures
        s@ == digit_text(d as nat),
{
    match d {
        0 => "0",
        1 => "1",
        2 => "2",
        3 => "3",
        4 => "4",
        5 => "5",
        6 => "6",
        7 => "7",
        8 => "8",
        _ => "9",
    }
}

/// Writes `n` in decimal.
pub fn decimal(n: usize) -> (s: String)
    ensures
        s@ == decimal_text(n as nat),
    decreases n,
{
    if n < 10 {
        digit(n).to_owned()
    } else {
        let mut s = decimal(n / 10);
        s.append(digit(n % 10));
        s
    }
}

} // verus!
