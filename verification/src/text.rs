//! Small verified string helpers shared by the rest of the library.

use vstd::prelude::*;

verus! {

/// Appends one character to a string (`String::push`).
#[verifier::external_body]
pub(crate) fn push_char(s: &mut String, c: char)
    ensures
        final(s)@ == old(s)@.push(c),
{
    s.push(c)
}

/// Appends a string slice to a string (`String::push_str`).
#[verifier::external_body]
pub(crate) fn push_str(s: &mut String, t: &str)
    ensures
        final(s)@ == old(s)@ + t@,
{
    s.push_str(t)
}

/// The character for a decimal digit.
pub open spec fn digit_char(d: nat) -> char {
    if d == 0 {
        '0'
    } else if d == 1 {
        '1'
    } else if d == 2 {
        '2'
    } else if d == 3 {
        '3'
    } else if d == 4 {
        '4'
    } else if d == 5 {
        '5'
    } else if d == 6 {
        '6'
    } else if d == 7 {
        '7'
    } else if d == 8 {
        '8'
    } else {
        '9'
    }
}

/// The decimal notation of `n`, without leading zeros (`"0"` for zero).
pub open spec fn decimal(n: nat) -> Seq<char>
    decreases n,
{
    if n < 10 {
        seq![digit_char(n)]
    } else {
        decimal(n / 10).push(digit_char(n % 10))
    }
}

fn digit(d: u128) -> (c: char)
    requires
        d < 10,
    ensures
        c == digit_char(d as nat),
{
    if d == 0 {
        '0'
    } else if d == 1 {
        '1'
    } else if d == 2 {
        '2'
    } else if d == 3 {
        '3'
    } else if d == 4 {
        '4'
    } else if d == 5 {
        '5'
    } else if d == 6 {
        '6'
    } else if d == 7 {
        '7'
    } else if d == 8 {
        '8'
    } else {
        '9'
    }
}

/// Appends the decimal notation of `n` to `s`.
pub fn push_decimal(s: &mut String, n: u128)
    ensures
        final(s)@ == old(s)@ + decimal(n as nat),
    decreases n,
{
    if n >= 10 {
        push_decimal(s, n / 10);
    }
    let c = digit(n % 10);
    push_char(s, c);
    proof {
        if n >= 10 {
            assert(old(s)@ + decimal(n as nat) == (old(s)@ + decimal((n / 10) as nat)).push(c));
        } else {
            assert(decimal(n as nat) == seq![c]);
        }
    }
}

/// The lines of a text joined with `'\n'` between consecutive lines.
pub open spec fn join_lines(lines: Seq<Seq<char>>) -> Seq<char>
    decreases lines.len(),
{
    if lines.len() == 0 {
        Seq::empty()
    } else if lines.len() == 1 {
        lines[0]
    } else {
        join_lines(lines.drop_last()).push('\n') + lines.last()
    }
}

/// The text of an editor buffer given by its lines: the lines joined by
/// `'\n'`, with no newline after the last one.
pub fn get_cosmic_text(lines: &Vec<String>) -> (text: String)
    ensures
        text@ == join_lines(lines@.map_values(|l: String| l@)),
{
    let mut text = String::new();
    let ghost views = lines@.map_values(|l: String| l@);
    let line_count = lines.len();
    let mut i: usize = 0;
    while i < line_count
        invariant
            line_count == lines.len(),
            views == lines@.map_values(|l: String| l@),
            i <= line_count,
            text@ == join_lines(views.take(i as int)),
        decreases line_count - i,
    {
        if i > 0 {
            push_char(&mut text, '\n');
        }
        push_str(&mut text, lines[i].as_str());
        proof {
            assert(views.take(i + 1).drop_last() == views.take(i as int));
            assert(views.take(i + 1).last() == lines[i as int]@);
            if i == 0 {
                assert(join_lines(views.take(1)) == views.take(1)[0]);
                assert(join_lines(views.take(0)) == Seq::<char>::empty());
            }
        }
        i = i + 1;
    }
    proof {
        assert(views.take(line_count as int) == views);
    }
    text
}


/// The characters of a string slice, in order.
pub fn chars_of(s: &str) -> (chars: Vec<char>)
    ensures
        chars@ == s@,
{
    let mut chars: Vec<char> = Vec::new();
    let ghost whole = s@;
    for ch in it: s.chars()
        invariant
            it.seq() == whole,
            whole == s@,
            chars@ == whole.take(it.index() as int),
    {
        proof {
            assert(whole.take(it.index() + 1) =~= whole.take(it.index() as int).push(ch));
        }
        chars.push(ch);
    }
    proof {
        assert(whole.take(whole.len() as int) =~= whole);
    }
    chars
}

/// Whether `s` begins with `prefix`.
pub fn starts_with(s: &str, prefix: &str) -> (b: bool)
    ensures
        b == prefix@.is_prefix_of(s@),
{
    let sc = chars_of(s);
    let pc = chars_of(prefix);
    if pc.len() > sc.len() {
        return false;
    }
    let mut i: usize = 0;
    while i < pc.len()
        invariant
            pc@ == prefix@,
            sc@ == s@,
            pc.len() <= sc.len(),
            i <= pc.len(),
            forall|k: int| 0 <= k < i ==> pc@[k] == sc@[k],
        decreases pc.len() - i,
    {
        if pc[i] != sc[i] {
            proof {
                assert(prefix@[i as int] != s@.subrange(0, prefix@.len() as int)[i as int]);
            }
            return false;
        }
        i = i + 1;
    }
    proof {
        assert(prefix@ =~= s@.subrange(0, prefix@.len() as int));
    }
    true
}

/// Whether `a` and `b` hold the same characters.
pub fn same_text(a: &str, b: &str) -> (eq: bool)
    ensures
        eq == (a@ == b@),
{
    if a.unicode_len() != b.unicode_len() {
        return false;
    }
    let p = starts_with(a, b);
    proof {
        if p {
            assert(a@.subrange(0, b@.len() as int) =~= a@);
        }
    }
    p
}


/// The texts one after another.
pub open spec fn concat_all(texts: Seq<Seq<char>>) -> Seq<char>
    decreases texts.len(),
{
    if texts.len() == 0 {
        Seq::empty()
    } else {
        concat_all(texts.drop_last()) + texts.last()
    }
}

/// The number of UTF-8 bytes of a text.
pub open spec fn byte_len(text: Seq<char>) -> nat {
    vstd::utf8::encode_utf8(text).len()
}

/// Lays out one editor line from styled pieces: the line's text is the
/// pieces' texts one after another, and piece `k` covers the bytes from the
/// end of the pieces before it to the end of piece `k`.
pub fn line_layout(texts: &Vec<String>) -> (layout: (String, Vec<(usize, usize)>))
    ensures
        layout.0@ == concat_all(texts@.map_values(|t: String| t@)),
        layout.1.len() == texts.len(),
        forall|k: int|
            0 <= k < texts.len() ==> #[trigger] layout.1@[k] == (
                byte_len(concat_all(texts@.map_values(|t: String| t@).take(k))) as usize,
                byte_len(concat_all(texts@.map_values(|t: String| t@).take(k + 1))) as usize,
            ),
{
    let ghost views = texts@.map_values(|t: String| t@);
    let mut line = String::new();
    let mut ranges: Vec<(usize, usize)> = Vec::new();
    let mut i: usize = 0;
    proof {
        assert(views.take(0) =~= Seq::<Seq<char>>::empty());
    }
    while i < texts.len()
        invariant
            i <= texts.len(),
            views == texts@.map_values(|t: String| t@),
            line@ == concat_all(views.take(i as int)),
            ranges.len() == i,
            forall|k: int|
                0 <= k < i ==> #[trigger] ranges@[k] == (
                    byte_len(concat_all(views.take(k))) as usize,
                    byte_len(concat_all(views.take(k + 1))) as usize,
                ),
        decreases texts.len() - i,
    {
        let start = line.as_str().len();
        push_str(&mut line, texts[i].as_str());
        let end = line.as_str().len();
        proof {
            assert(views.take(i + 1).drop_last() =~= views.take(i as int));
            assert(views.take(i + 1).last() == texts@[i as int]@);
        }
        ranges.push((start, end));
        i = i + 1;
    }
    proof {
        assert(views.take(texts.len() as int) =~= views);
    }
    (line, ranges)
}

} // verus!
