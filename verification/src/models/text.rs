//! The text that travels through the server: how incoming lines are cleaned
//! up and labelled, and the wording of the notices the registry sends.

use vstd::prelude::*;
use vstd::string::*;

verus! {

/// Whether `c` has the Unicode `White_Space` property, which is what
/// `char::is_whitespace` reports and what `str::trim` strips.
pub uninterp spec fn white_space(c: char) -> bool;

/// `s` without its leading white space.
pub open spec fn trim_start(s: Seq<char>) -> Seq<char>
    decreases s.len(),
{
    if s.len() > 0 && white_space(s.first()) {
        trim_start(s.drop_first())
    } else {
        s
    }
}

/// `s` without its trailing white space.
pub open spec fn trim_end(s: Seq<char>) -> Seq<char>
    decreases s.len(),
{
    if s.len() > 0 && white_space(s.last()) {
        trim_end(s.drop_last())
    } else {
        s
    }
}

/// `s` without leading and trailing white space.
pub open spec fn trimmed(s: Seq<char>) -> Seq<char> {
    trim_end(trim_start(s))
}

/// What `trim_start` takes away is white space at the start, and it takes
/// all of it away.
pub proof fn lemma_trim_start(s: Seq<char>) -> (cut: int)
    ensures
        0 <= cut <= s.len(),
        trim_start(s) == s.subrange(cut, s.len() as int),
        forall|k: int| 0 <= k < cut ==> white_space(#[trigger] s[k]),
        cut < s.len() ==> !white_space(s[cut]),
    decreases s.len(),
{
    if s.len() > 0 && white_space(s.first()) {
        let rest = s.drop_first();
        let cut = lemma_trim_start(rest);
        assert forall|k: int| 0 <= k < cut + 1 implies white_space(#[trigger] s[k]) by {
            if k > 0 {
                assert(s[k] == rest[k - 1]);
            }
        }
        cut + 1
    } else {
        0
    }
}

/// What `trim_end` takes away is white space at the end, and it takes all of
/// it away.
pub proof fn lemma_trim_end(s: Seq<char>) -> (cut: int)
    ensures
        0 <= cut <= s.len(),
        trim_end(s) == s.subrange(0, cut),
        forall|k: int| cut <= k < s.len() ==> white_space(#[trigger] s[k]),
        0 < cut ==> !white_space(s[cut - 1]),
    decreases s.len(),
{
    if s.len() > 0 && white_space(s.last()) {
        let rest = s.drop_last();
        let cut = lemma_trim_end(rest);
        assert forall|k: int| cut <= k < s.len() implies white_space(#[trigger] s[k]) by {
            if k < rest.len() {
                assert(s[k] == rest[k]);
            }
        }
        cut
    } else {
        s.len() as int
    }
}

/// A trimmed line is a part of the line, with only white space before and
/// after it, and neither begins nor ends with white space.
pub proof fn lemma_trimmed(s: Seq<char>) -> (cut: (int, int))
    ensures
        0 <= cut.0 <= cut.1 <= s.len(),
        trimmed(s) == s.subrange(cut.0, cut.1),
        forall|k: int| 0 <= k < cut.0 || cut.1 <= k < s.len() ==> white_space(#[trigger] s[k]),
        trimmed(s).len() > 0 ==> !white_space(trimmed(s).first()) && !white_space(
            trimmed(s).last(),
        ),
{
    let from = lemma_trim_start(s);
    let tail = s.subrange(from, s.len() as int);
    let len = lemma_trim_end(tail);
    assert forall|k: int| from + len <= k < s.len() implies white_space(#[trigger] s[k]) by {
        assert(s[k] == tail[k - from]);
    }
    (from, from + len)
}

/// `str::trim`: the slice of `s` that is left when the leading and the
/// trailing characters with the `White_Space` property are removed, so that
/// what is left neither begins nor ends with such a character.
#[verifier::external_body]
pub(crate) fn trim(s: &str) -> (r: &str)
    ensures
        r@ == trimmed(s@),
        r@.len() > 0 ==> !white_space(r@.first()) && !white_space(r@.last()),
{
    s.trim()
}

/// A line is a command when it begins with a slash.
pub open spec fn is_command(line: Seq<char>) -> bool {
    line.len() > 0 && line[0] == '/'
}

/// Tells whether `line` begins with the character reserved for commands.
pub fn starts_with_slash(line: &str) -> (b: bool)
    ensures
        b == is_command(line@),
{
    line.unicode_len() > 0 && line.get_char(0) == '/'
}

/// What a named session's line looks like to the others: the name, a colon,
/// a space, and the line.
pub open spec fn labelled(name: Seq<char>, line: Seq<char>) -> Seq<char> {
    name + seq![':', ' '] + line
}

/// Puts the sender's name in front of `line`.
pub fn label(name: &str, line: &str) -> (out: String)
    ensures
        out@ == labelled(name@, line@),
{
    proof {
        reveal_strlit(": ");
    }
    String::from_str(name).concat(": ").concat(line)
}

/// The decimal digit that stands for `d`.
pub open spec fn digit(d: nat) -> char {
    if d == 0 {
        '0'
    } else if d == 1 {
        '1'
    } else if d == 2 {
        '2'
    } else if d == 3 {
        '3'
    } else if d == 4 {
        '4'
    } else if d == 5 {
        '5'
    } else if d == 6 {
        '6'
    } else if d == 7 {
        '7'
    } else if d == 8 {
        '8'
    } else {
        '9'
    }
}

/// `n` written in decimal, without leading zeros.
pub open spec fn decimal(n: nat) -> Seq<char>
    decreases n,
{
    if n < 10 {
        seq![digit(n)]
    } else {
        decimal(n / 10).push(digit(n % 10))
    }
}

fn push_digit(s: &mut String, d: usize)
    requires
        d < 10,
    ensures
        final(s)@ == old(s)@.push(digit(d as nat)),
{
    let t = if d == 0 {
        "0"
    } else if d == 1 {
        "1"
    } else if d == 2 {
        "2"
    } else if d == 3 {
        "3"
    } else if d == 4 {
        "4"
    } else if d == 5 {
        "5"
    } else if d == 6 {
        "6"
    } else if d == 7 {
        "7"
    } else if d == 8 {
        "8"
    } else {
        "9"
    };
    proof {
        reveal_strlit("0");
        reveal_strlit("1");
        reveal_strlit("2");
        reveal_strlit("3");
        reveal_strlit("4");
        reveal_strlit("5");
        reveal_strlit("6");
        reveal_strlit("7");
        reveal_strlit("8");
        reveal_strlit("9");
    }
    s.append(t);
}

/// Writes `n` in decimal.
pub fn to_decimal(n: usize) -> (s: String)
    ensures
        s@ == decimal(n as nat),
    decreases n,
{
    if n < 10 {
        let mut s = String::new();
        push_digit(&mut s, n);
        s
    } else {
        let mut s = to_decimal(n / 10);
        push_digit(&mut s, n % 10);
        s
    }
}

/// Notice to the default room when a session registers.
pub open spec fn joined_notice() -> Seq<char> {
    "Someone has joined"@
}

/// Notice to a room that a member has left.
pub open spec fn left_notice() -> Seq<char> {
    "Someone disconnected"@
}

/// Notice to a room that a member has moved in.
pub open spec fn entered_notice() -> Seq<char> {
    "Someone connected"@
}

/// Notice of the number of visitors so far.
pub open spec fn visitors_notice(count: nat) -> Seq<char> {
    "Total visitors "@ + decimal(count)
}

/// Writes the notice of the number of visitors so far.
pub fn visitors_text(count: usize) -> (s: String)
    ensures
        s@ == visitors_notice(count as nat),
{
    let digits = to_decimal(count);
    String::from_str("Total visitors ").concat(digits.as_str())
}

/// Answer to the question how many visitors there have been.
pub open spec fn count_line(count: nat) -> Seq<char> {
    "Visitors: "@ + decimal(count)
}

/// Writes the answer to the question how many visitors there have been.
pub fn count_text(count: usize) -> (s: String)
    ensures
        s@ == count_line(count as nat),
{
    let digits = to_decimal(count);
    String::from_str("Visitors: ").concat(digits.as_str())
}

} // verus!
