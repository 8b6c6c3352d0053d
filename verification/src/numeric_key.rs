//! The numeric key of a path: the value of the last run of decimal digits in it.
//!
//! Finding the run is the work of the `regex` crate; reading its value is
//! verified here.

use regex::Regex;
use vstd::prelude::*;

verus! {

/// The texts of the matches of `pattern` in `text`, as the `regex` crate
/// finds them: the successive non-overlapping matches, from left to right.
/// Empty where `text` holds no match, and where `pattern` does not compile.
pub uninterp spec fn all_matches(pattern: Seq<char>, text: Seq<char>) -> Seq<Seq<char>>;

/// The pattern of a digit run: one or more decimal digits.
pub open spec fn digit_run_pattern() -> Seq<char> {
    r"\d+"@
}

/// The last of `runs`, if there is any.
pub open spec fn last_run(runs: Seq<Seq<char>>) -> Option<Seq<char>> {
    if runs.len() > 0 {
        Some(runs.last())
    } else {
        None
    }
}

/// The last digit run of a path, if it has one.
pub open spec fn last_digit_run(path: Seq<char>) -> Option<Seq<char>> {
    last_run(all_matches(digit_run_pattern(), path))
}

/// Whether `part` stands somewhere in `text`, character for character.
pub open spec fn occurs_in(part: Seq<char>, text: Seq<char>) -> bool {
    exists|start: int|
        0 <= start && start + part.len() <= text.len() && #[trigger] text.subrange(
            start,
            start + part.len(),
        ) == part
}

/// Whether `c` is one of `0` to `9`.
pub open spec fn is_ascii_digit(c: char) -> bool {
    48 <= c as u32 <= 57
}

/// The number that an ASCII digit stands for.
pub open spec fn digit_value(c: char) -> int {
    c as u32 - 48
}

/// Whether no character of `text` is one of `0` to `9`.
pub open spec fn without_ascii_digit(text: Seq<char>) -> bool {
    forall|i: int| 0 <= i < text.len() ==> !is_ascii_digit(#[trigger] text[i])
}

/// Whether every character of `digits` is one of `0` to `9`.
pub open spec fn all_ascii_digits(digits: Seq<char>) -> bool {
    forall|i: int| 0 <= i < digits.len() ==> is_ascii_digit(#[trigger] digits[i])
}

/// The number that a string of ASCII digits writes in base ten, the empty
/// string standing for 0.
pub open spec fn decimal_value(digits: Seq<char>) -> int
    decreases digits.len(),
{
    if digits.len() == 0 {
        0
    } else {
        10 * decimal_value(digits.drop_last()) + digit_value(digits.last())
    }
}

/// The key that a digit run gives: its decimal value where it is written in
/// ASCII digits alone and fits in 32 bits, and 0 otherwise.
pub open spec fn run_key(run: Option<Seq<char>>) -> int {
    match run {
        Some(digits) => if all_ascii_digits(digits) && decimal_value(digits) <= u32::MAX {
            decimal_value(digits)
        } else {
            0
        },
        None => 0,
    }
}

/// The key by which a path is ordered.
pub open spec fn path_key(path: Seq<char>) -> int {
    run_key(last_digit_run(path))
}

/// A string of ASCII digits is worth at least as much as any of its prefixes.
pub proof fn lemma_decimal_value_prefix(digits: Seq<char>, n: int)
    requires
        all_ascii_digits(digits),
        0 <= n <= digits.len(),
    ensures
        0 <= decimal_value(digits.take(n)) <= decimal_value(digits),
    decreases digits.len(),
{
    if digits.len() == 0 {
        assert(digits.take(n) =~= digits);
    } else if n == digits.len() {
        assert(digits.take(n) =~= digits);
        lemma_decimal_value_prefix(digits.drop_last(), n - 1);
        assert(is_ascii_digit(digits.last()));
    } else {
        lemma_decimal_value_prefix(digits.drop_last(), n);
        assert(digits.drop_last().take(n) =~= digits.take(n));
        assert(is_ascii_digit(digits.last()));
    }
}

/// A run that stands in a text without ASCII digits has the key 0: it is
/// empty, or it holds a character that is no ASCII digit.
pub proof fn lemma_run_without_ascii_digit(run: Seq<char>, text: Seq<char>)
    requires
        occurs_in(run, text),
        without_ascii_digit(text),
    ensures
        run_key(Some(run)) == 0,
{
    if run.len() > 0 {
        let start = choose|start: int|
            0 <= start && start + run.len() <= text.len() && #[trigger] text.subrange(
                start,
                start + run.len(),
            ) == run;
        assert(run[0] == text.subrange(start, start + run.len())[0]);
        assert(!is_ascii_digit(text[start]));
        assert(!is_ascii_digit(run[0]));
    }
}

/// The key of a path is a number of 32 bits.
pub proof fn lemma_path_key_range(path: Seq<char>)
    ensures
        0 <= path_key(path) <= u32::MAX,
{
    match last_digit_run(path) {
        Some(digits) => {
            if all_ascii_digits(digits) {
                lemma_decimal_value_prefix(digits, 0);
            }
        },
        None => {},
    }
}

/// Calls `Regex::new` on `pattern` and, where it compiles, `Regex::find_iter` on
/// `text`, and hands back the characters of every `Match` that the iterator
/// yields, in its order, each read with `Match::as_str`. The contract gives
/// those texts their name, and claims one thing more of them: `Match::as_str`
/// is a slice of the text that was searched, so the characters of each match
/// stand in that text, side by side.
#[verifier::external_body]
fn find_matches(pattern: &str, text: &str) -> (found: Vec<Vec<char>>)
    ensures
        found.deep_view() == all_matches(pattern@, text@),
        forall|i: int| 0 <= i < found.len() ==> occurs_in(#[trigger] found[i]@, text@),
{
    match Regex::new(pattern) {
        Ok(compiled) => compiled.find_iter(text).map(|m| m.as_str().chars().collect()).collect(),
        Err(_) => Vec::new(),
    }
}

/// Reads a digit run as a number in base ten. Gives 0 where the run holds a
/// character other than `0` to `9`, and where the number does not fit in 32 bits.
pub fn decimal_key(digits: &Vec<char>) -> (key: u32)
    ensures
        key == run_key(Some(digits@)),
{
    let mut value: u64 = 0;
    let mut i: usize = 0;
    while i < digits.len()
        invariant
            i <= digits.len(),
            all_ascii_digits(digits@.take(i as int)),
            value == decimal_value(digits@.take(i as int)),
            value <= u32::MAX,
        decreases digits.len() - i,
    {
        let code: u32 = digits[i] as u32;
        if code < 48 || code > 57 {
            assert(!is_ascii_digit(digits@[i as int]));
            return 0;
        }
        let next: u64 = value * 10 + (code - 48) as u64;
        proof {
            let longer = digits@.take(i + 1);
            assert(longer.drop_last() =~= digits@.take(i as int));
            assert(longer.last() == digits@[i as int]);
            assert forall|j: int| 0 <= j < longer.len() implies is_ascii_digit(
                #[trigger] longer[j],
            ) by {
                if j < i {
                    assert(longer[j] == digits@.take(i as int)[j]);
                }
            }
            assert(next == decimal_value(longer));
        }
        if next > 0xffff_ffff {
            proof {
                if all_ascii_digits(digits@) {
                    lemma_decimal_value_prefix(digits@, i + 1);
                }
            }
            return 0;
        }
        value = next;
        i += 1;
    }
    assert(digits@.take(i as int) =~= digits@);
    value as u32
}

/// Reads the key of the last of `runs`: 0 where there is none, and the
/// run's own key otherwise.
pub fn key_of_last_run(runs: &Vec<Vec<char>>) -> (key: u32)
    ensures
        key == run_key(last_run(runs.deep_view())),
{
    let count = runs.len();
    if count == 0 {
        0
    } else {
        assert(runs.deep_view().last() =~= runs[count - 1]@);
        decimal_key(&runs[count - 1])
    }
}

/// The numeric key of `path`: the key of its last digit run, 0 where it has
/// none. A path without any of the digits `0` to `9` has the key 0.
pub fn numeric_key(path: &str) -> (key: u32)
    ensures
        key == path_key(path@),
        without_ascii_digit(path@) ==> key == 0,
{
    let found = find_matches(r"\d+", path);
    proof {
        if found.len() > 0 && without_ascii_digit(path@) {
            assert(found.deep_view().last() =~= found[found.len() - 1]@);
            lemma_run_without_ascii_digit(found[found.len() - 1]@, path@);
        }
    }
    key_of_last_run(&found)
}

} // verus!
