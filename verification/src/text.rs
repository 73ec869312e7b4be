//! Building the texts that the server sends.

use vstd::prelude::*;

verus! {

/// `String::push` appends one character to the end of the string.
pub assume_specification[ String::push ](s: &mut String, c: char)
    ensures
        final(s)@ == old(s)@.push(c),
;

/// The character of the decimal digit `d`.
pub open spec fn decimal_digit(d: nat) -> char
    recommends
        d < 10,
{
    ((48 + d) as u8) as char
}

/// `n` in decimal, without leading zeros.
pub open spec fn decimal(n: nat) -> Seq<char>
    decreases n,
{
    if n < 10 {
        seq![decimal_digit(n)]
    } else {
        decimal(n / 10).push(decimal_digit(n % 10))
    }
}

/// `text` with a backslash put before every double quote.
pub open spec fn escaped(text: Seq<char>) -> Seq<char>
    decreases text.len(),
{
    if text.len() == 0 {
        seq![]
    } else if text.last() == '"' {
        escaped(text.drop_last()).push('\\').push('"')
    } else {
        escaped(text.drop_last()).push(text.last())
    }
}

/// Appends `n` in decimal to `out`.
pub fn push_decimal(out: &mut String, n: u64)
    ensures
        final(out)@ == old(out)@ + decimal(n as nat),
    decreases n,
{
    if n >= 10 {
        push_decimal(out, n / 10);
    }
    let digit = (48 + n % 10) as u8;
    out.push(digit as char);
    assert(out@ =~= old(out)@ + decimal(n as nat));
}

/// Appends `text` to `out`, with a backslash before every double quote.
pub fn push_escaped(out: &mut String, text: &str)
    ensures
        final(out)@ == old(out)@ + escaped(text@),
{
    let ghost before = out@;
    for c in it: text.chars()
        invariant
            it.seq() == text@,
            out@ == before + escaped(text@.take(it.index() as int)),
    {
        assert(text@.take(it.index() + 1).drop_last() =~= text@.take(it.index() as int));
        if c == '"' {
            out.push('\\');
            out.push('"');
        } else {
            out.push(c);
        }
        assert(out@ =~= before + escaped(text@.take(it.index() + 1)));
    }
    assert(text@.take(text@.len() as int) =~= text@);
}

/// `text` without the occurrences of `marker`: they are looked for from the
/// left, and the search goes on behind each one that is found.
pub open spec fn without(text: Seq<char>, marker: Seq<char>) -> Seq<char>
    decreases text.len(),
{
    if marker.len() == 0 || text.len() < marker.len() {
        text
    } else if text.take(marker.len() as int) == marker {
        without(text.skip(marker.len() as int), marker)
    } else {
        seq![text[0]] + without(text.skip(1), marker)
    }
}

/// The characters of `text`.
pub fn characters(text: &str) -> (chars: Vec<char>)
    ensures
        chars@ == text@,
{
    let mut chars: Vec<char> = Vec::new();
    for c in it: text.chars()
        invariant
            it.seq() == text@,
            chars@ == text@.take(it.index() as int),
    {
        chars.push(c);
        assert(chars@ =~= text@.take(it.index() + 1));
    }
    assert(text@.take(text@.len() as int) =~= text@);
    chars
}

/// Whether `marker` stands in `text` at `at`.
fn stands_at(text: &Vec<char>, at: usize, marker: &Vec<char>) -> (found: bool)
    requires
        at <= text.len(),
    ensures
        found == (marker.len() <= text.len() - at && text@.skip(at as int).take(
            marker.len() as int,
        ) == marker@),
{
    if marker.len() > text.len() - at {
        return false;
    }
    let ghost window = text@.skip(at as int).take(marker.len() as int);
    let mut j: usize = 0;
    while j < marker.len()
        invariant
            at <= text.len(),
            marker.len() <= text.len() - at,
            j <= marker.len(),
            window == text@.skip(at as int).take(marker.len() as int),
            forall|k: int| 0 <= k < j ==> window[k] == marker@[k],
        decreases marker.len() - j,
    {
        if text[at + j] != marker[j] {
            assert(window[j as int] != marker@[j as int]);
            return false;
        }
        j += 1;
    }
    assert(window =~= marker@);
    true
}

/// `text` without the occurrences of `marker`.
pub fn remove_all(text: &str, marker: &str) -> (out: String)
    ensures
        out@ == without(text@, marker@),
{
    let chars = characters(text);
    let pattern = characters(marker);
    let mut out = String::new();
    let mut at: usize = 0;
    assert(chars@.skip(0) =~= chars@);
    while at < chars.len()
        invariant
            at <= chars.len(),
            out@ + without(chars@.skip(at as int), pattern@) == without(chars@, pattern@),
        decreases chars.len() - at,
    {
        let ghost rest = chars@.skip(at as int);
        if pattern.len() > 0 && stands_at(&chars, at, &pattern) {
            assert(rest.skip(pattern.len() as int) =~= chars@.skip(at + pattern.len()));
            at += pattern.len();
        } else {
            out.push(chars[at]);
            proof {
                assert(rest.skip(1) =~= chars@.skip(at + 1));
                assert(seq![rest[0]] + rest.skip(1) =~= rest);
                assert(without(rest, pattern@) =~= seq![rest[0]] + without(
                    rest.skip(1),
                    pattern@,
                ));
                assert(out@ + without(rest.skip(1), pattern@) =~= out@.drop_last() + without(
                    rest,
                    pattern@,
                ));
            }
            at += 1;
        }
    }
    assert(chars@.skip(chars.len() as int).len() == 0);
    assert(out@ + without(chars@.skip(at as int), pattern@) =~= out@);
    out
}

} // verus!
