//! Sequences of characters: joining them and writing numbers.

use vstd::prelude::*;
use vstd::string::StringExecFns;

verus! {

/// Calls `String::push`, which appends the character to the end of the string.
#[verifier::external_body]
pub(crate) fn push_char(out: &mut String, c: char)
    ensures
        final(out)@ == old(out)@.push(c),
{
    out.push(c)
}

/// The characters of the text, in order.
pub fn chars_of(text: &str) -> (chars: Vec<char>)
    ensures
        chars@ == text@,
{
    let mut chars: Vec<char> = Vec::new();
    for c in it: text.chars()
        invariant
            it.seq() == text@,
            chars@ == it.seq().take(it.index() as int),
    {
        chars.push(c);
    }
    chars
}

/// The string made of the characters from `start` up to `end`.
pub fn string_of(chars: &Vec<char>, start: usize, end: usize) -> (out: String)
    requires
        start <= end <= chars.len(),
    ensures
        out@ == chars@.subrange(start as int, end as int),
{
    let mut out = String::new();
    let mut i: usize = start;
    while i < end
        invariant
            start <= i <= end <= chars.len(),
            out@ == chars@.subrange(start as int, i as int),
        decreases end - i,
    {
        push_char(&mut out, chars[i]);
        assert(out@ =~= chars@.subrange(start as int, i + 1));
        i += 1;
    }
    out
}

/// The parts in order, with the separator between each two neighbours.
pub open spec fn joined(parts: Seq<Seq<char>>, separator: Seq<char>) -> Seq<char>
    decreases parts.len(),
{
    if parts.len() == 0 {
        Seq::empty()
    } else if parts.len() == 1 {
        parts[0]
    } else {
        joined(parts.drop_last(), separator) + separator + parts.last()
    }
}

/// What `joined` becomes when one more part is added at the end.
pub proof fn lemma_joined_push(parts: Seq<Seq<char>>, separator: Seq<char>, part: Seq<char>)
    ensures
        joined(parts.push(part), separator) == if parts.len() == 0 {
            part
        } else {
            joined(parts, separator) + separator + part
        },
{
    let all = parts.push(part);
    assert(all.drop_last() == parts);
    assert(all.last() == part);
    if parts.len() == 0 {
        assert(all[0] == part);
    }
}

/// The texts of a list of strings, in order.
pub open spec fn texts(strings: Seq<String>) -> Seq<Seq<char>> {
    strings.map_values(|s: String| s@)
}

/// Joins the strings with the separator between each two neighbours.
pub fn join(parts: &Vec<String>, separator: &str) -> (whole: String)
    ensures
        whole@ == joined(texts(parts@), separator@),
{
    let mut whole = String::new();
    let mut i: usize = 0;
    while i < parts.len()
        invariant
            i <= parts.len(),
            whole@ == joined(texts(parts@).take(i as int), separator@),
        decreases parts.len() - i,
    {
        proof {
            let done = texts(parts@).take(i as int);
            assert(texts(parts@).take(i + 1) == done.push(parts@[i as int]@));
            lemma_joined_push(done, separator@, parts@[i as int]@);
        }
        if i > 0 {
            whole.append(separator);
        }
        whole.append(parts[i].as_str());
        i += 1;
    }
    assert(texts(parts@).take(parts.len() as int) == texts(parts@));
    whole
}

/// The character that writes the digit `d`.
pub open spec fn digit(d: nat) -> char {
    if d == 0 {
        '0'
    } else if d == 1 {
        '1'
    } else if d == 2 {
        '2'
    } else if d == 3 {
        '3'
    } else if d == 4 {
        '4'
    } else if d == 5 {
        '5'
    } else if d == 6 {
        '6'
    } else if d == 7 {
        '7'
    } else if d == 8 {
        '8'
    } else {
        '9'
    }
}

/// The number written in base ten, without leading zeros.
pub open spec fn decimal(n: nat) -> Seq<char>
    decreases n,
{
    if n < 10 {
        seq![digit(n)]
    } else {
        decimal(n / 10).push(digit(n % 10))
    }
}

fn digit_str(d: u32) -> (s: &'static str)
    requires
        d < 10,
    ensures
        s@ == seq![digit(d as nat)],
{
    proof {
        reveal_strlit("0");
        reveal_strlit("1");
        reveal_strlit("2");
        reveal_strlit("3");
        reveal_strlit("4");
        reveal_strlit("5");
        reveal_strlit("6");
        reveal_strlit("7");
        reveal_strlit("8");
        reveal_strlit("9");
    }
    let s = match d {
        0 => "0",
        1 => "1",
        2 => "2",
        3 => "3",
        4 => "4",
        5 => "5",
        6 => "6",
        7 => "7",
        8 => "8",
        _ => "9",
    };
    assert(s@ =~= seq![digit(d as nat)]);
    s
}

/// Writes the number in base ten at the end of `out`.
pub fn push_decimal(out: &mut String, n: u32)
    ensures
        final(out)@ == old(out)@ + decimal(n as nat),
    decreases n,
{
    if n >= 10 {
        push_decimal(out, n / 10);
    }
    out.append(digit_str(n % 10));
    assert(final(out)@ =~= old(out)@ + decimal(n as nat));
}

} // verus!
