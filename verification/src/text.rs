//! Text building blocks: joining, line splitting, indentation and decimal
//! numerals, each as a specification over `Seq<char>` with a verified
//! implementation on `String`.

use vstd::prelude::*;
use vstd::string::*;
use vstd::utf8::{encode_utf8, encode_utf8_decode_utf8};

verus! {

/// The pieces of `parts` in order, with `separator` between neighbours.
/// No piece means the empty text.
pub open spec fn joined(parts: Seq<Seq<char>>, separator: Seq<char>) -> Seq<char>
    decreases parts.len(),
{
    if parts.len() == 0 {
        Seq::empty()
    } else if parts.len() == 1 {
        parts[0]
    } else {
        joined(parts.drop_last(), separator) + separator + parts.last()
    }
}

/// The lines of `text`: the pieces between its line feeds. There is always at
/// least one line; a text that ends in a line feed has an empty last line.
pub open spec fn lines(text: Seq<char>) -> Seq<Seq<char>>
    decreases text.len(),
{
    if text.len() == 0 {
        seq![Seq::empty()]
    } else {
        let before = lines(text.drop_last());
        if text.last() == '\n' {
            before.push(Seq::empty())
        } else {
            before.update(before.len() - 1, before.last().push(text.last()))
        }
    }
}

/// `text` with two spaces in front of each of its lines.
pub open spec fn indented(text: Seq<char>) -> Seq<char> {
    joined(lines(text).map_values(|line: Seq<char>| "  "@ + line), "\n"@)
}

/// The character for a single decimal digit.
pub open spec fn digit(d: int) -> char {
    if d == 0 {
        '0'
    } else if d == 1 {
        '1'
    } else if d == 2 {
        '2'
    } else if d == 3 {
        '3'
    } else if d == 4 {
        '4'
    } else if d == 5 {
        '5'
    } else if d == 6 {
        '6'
    } else if d == 7 {
        '7'
    } else if d == 8 {
        '8'
    } else {
        '9'
    }
}

/// The decimal digits of `n`, most significant first, without leading zeros.
pub open spec fn digits(n: nat) -> Seq<char>
    decreases n,
{
    if n < 10 {
        seq![digit(n as int)]
    } else {
        digits(n / 10).push(digit((n % 10) as int))
    }
}

/// The canonical decimal numeral of `value`: a minus sign for a negative
/// value, then the digits of its magnitude.
pub open spec fn decimal(value: int) -> Seq<char> {
    if value < 0 {
        seq!['-'] + digits((-value) as nat)
    } else {
        digits(value as nat)
    }
}

/// The canonical text of a truth value.
pub open spec fn boolean_text(value: bool) -> Seq<char> {
    if value {
        "true"@
    } else {
        "false"@
    }
}

/// Taken on trust: `String::push` of the standard library, of which its
/// documentation says that it appends the given character to the end of the
/// string. The contract says so of the string's characters: after the call
/// they are those from before it, followed by `c`.
pub assume_specification[ std::string::String::push ](s: &mut std::string::String, c: char)
    ensures
        final(s)@ == old(s)@.push(c),
;

/// There is always a first line.
pub proof fn lemma_lines_nonempty(text: Seq<char>)
    ensures
        lines(text).len() >= 1,
    decreases text.len(),
{
    if text.len() > 0 {
        lemma_lines_nonempty(text.drop_last());
    }
}

/// Joining one more piece adds the separator and the piece.
pub proof fn lemma_joined_push(parts: Seq<Seq<char>>, separator: Seq<char>, piece: Seq<char>)
    requires
        parts.len() >= 1,
    ensures
        joined(parts.push(piece), separator) == joined(parts, separator) + separator + piece,
{
    assert(parts.push(piece).drop_last() == parts);
}

/// Text added to the end of the last piece is added to the end of the whole.
pub proof fn lemma_joined_extend_last(parts: Seq<Seq<char>>, separator: Seq<char>, more: Seq<char>)
    requires
        parts.len() >= 1,
    ensures
        joined(parts.update(parts.len() - 1, parts.last() + more), separator) == joined(
            parts,
            separator,
        ) + more,
{
    let longer = parts.update(parts.len() - 1, parts.last() + more);
    if parts.len() > 1 {
        assert(longer.drop_last() == parts.drop_last());
        assert(joined(longer, separator) == joined(parts.drop_last(), separator) + separator + (
        parts.last() + more));
        assert(joined(parts.drop_last(), separator) + separator + (parts.last() + more) == joined(
            parts.drop_last(),
            separator,
        ) + separator + parts.last() + more);
    }
}

/// No line holds a line feed.
pub proof fn lemma_lines_hold_no_line_feed(text: Seq<char>)
    ensures
        forall|i: int| 0 <= i < lines(text).len() ==> !(#[trigger] lines(text)[i]).contains('\n'),
    decreases text.len(),
{
    if text.len() > 0 {
        lemma_lines_hold_no_line_feed(text.drop_last());
        lemma_lines_nonempty(text.drop_last());
    }
}

/// Splitting a text into lines loses nothing: the lines joined by line feeds
/// are the text again.
pub proof fn lemma_lines_joined(text: Seq<char>)
    ensures
        joined(lines(text), "\n"@) == text,
    decreases text.len(),
{
    reveal_strlit("\n");
    if text.len() > 0 {
        let shorter = text.drop_last();
        let before = lines(shorter);
        lemma_lines_joined(shorter);
        lemma_lines_nonempty(shorter);
        if text.last() == '\n' {
            lemma_joined_push(before, "\n"@, Seq::empty());
            assert(shorter + "\n"@ + Seq::<char>::empty() == text);
        } else {
            assert(before.last().push(text.last()) == before.last() + seq![text.last()]);
            lemma_joined_extend_last(before, "\n"@, seq![text.last()]);
            assert(shorter + seq![text.last()] == text);
        }
    }
}

/// Indenting the empty text gives the bare indentation.
pub proof fn lemma_indented_empty()
    ensures
        indented(Seq::empty()) == "  "@,
{
    let prefix = |line: Seq<char>| "  "@ + line;
    assert(lines(Seq::empty()).map_values(prefix) == seq!["  "@]);
}

/// How indentation grows with the text: a line feed opens a new indented
/// line, any other character extends the current line.
pub proof fn lemma_indented_push(text: Seq<char>, c: char)
    ensures
        indented(text.push(c)) == if c == '\n' {
            indented(text) + "\n"@ + "  "@
        } else {
            indented(text).push(c)
        },
{
    let prefix = |line: Seq<char>| "  "@ + line;
    let before = lines(text);
    lemma_lines_nonempty(text);
    assert(text.push(c).drop_last() == text);
    if c == '\n' {
        assert(before.push(Seq::empty()).map_values(prefix) == before.map_values(prefix).push(
            "  "@,
        ));
        lemma_joined_push(before.map_values(prefix), "\n"@, "  "@);
    } else {
        let last = before.len() - 1;
        assert("  "@ + before.last().push(c) == "  "@ + before.last() + seq![c]);
        assert(before.update(last, before.last().push(c)).map_values(prefix)
            == before.map_values(prefix).update(last, before.map_values(prefix).last() + seq![c]));
        lemma_joined_extend_last(before.map_values(prefix), "\n"@, seq![c]);
        assert(indented(text) + seq![c] == indented(text).push(c));
    }
}

/// Whether two texts hold the same characters. They do exactly when their
/// encodings are the same bytes, and those are compared one by one.
pub fn same_text(a: &str, b: &str) -> (same: bool)
    ensures
        same == (a@ == b@),
{
    let x = a.as_bytes();
    let y = b.as_bytes();
    proof {
        encode_utf8_decode_utf8(a@);
        encode_utf8_decode_utf8(b@);
    }
    if x.len() != y.len() {
        return false;
    }
    let mut i: usize = 0;
    while i < x.len()
        invariant
            i <= x.len(),
            x.len() == y.len(),
            x@ == encode_utf8(a@),
            y@ == encode_utf8(b@),
            forall|k: int| 0 <= k < i ==> x@[k] == y@[k],
        decreases x.len() - i,
    {
        if x[i] != y[i] {
            return false;
        }
        i += 1;
    }
    assert(x@ == y@);
    true
}

/// `text` with two spaces in front of each of its lines.
pub fn indent(text: &str) -> (out: String)
    ensures
        out@ == indented(text@),
{
    let mut out = String::from_str("  ");
    proof {
        lemma_indented_empty();
        assert(text@.take(0) == Seq::<char>::empty());
    }
    let chars = text.chars();
    for c in it: chars
        invariant
            it.seq() == text@,
            out@ == indented(text@.take(it.index())),
    {
        proof {
            lemma_indented_push(text@.take(it.index()), c);
            assert(text@.take(it.index()).push(c) == text@.take(it.index() + 1));
            reveal_strlit("\n");
            assert("\n"@ == seq!['\n']);
        }
        out.push(c);
        if c == '\n' {
            out.append("  ");
        }
    }
    proof {
        assert(text@.take(text@.len() as int) == text@);
    }
    out
}

fn digit_char(d: u32) -> (c: char)
    requires
        d < 10,
    ensures
        c == digit(d as int),
{
    match d {
        0 => '0',
        1 => '1',
        2 => '2',
        3 => '3',
        4 => '4',
        5 => '5',
        6 => '6',
        7 => '7',
        8 => '8',
        _ => '9',
    }
}

fn push_digits(out: &mut String, n: u32)
    ensures
        final(out)@ == old(out)@ + digits(n as nat),
    decreases n,
{
    if n >= 10 {
        push_digits(out, n / 10);
    }
    out.push(digit_char(n % 10));
}

/// The canonical decimal numeral of `value`.
pub fn decimal_string(value: i32) -> (out: String)
    ensures
        out@ == decimal(value as int),
{
    let mut out = String::new();
    if value < 0 {
        out.push('-');
        let magnitude: u32 = (-(value as i64)) as u32;
        push_digits(&mut out, magnitude);
    } else {
        push_digits(&mut out, value as u32);
    }
    out
}

/// The canonical text of a truth value: `true` or `false`.
pub fn boolean_string(value: bool) -> (out: String)
    ensures
        out@ == boolean_text(value),
{
    if value {
        String::from_str("true")
    } else {
        String::from_str("false")
    }
}

} // verus!
