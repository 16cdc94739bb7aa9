//! Serialization of the output mapping as a pretty-printed JSON object:
//! one `"name": weight` member per entry, two-space indentation.

use vstd::prelude::*;

use crate::mapping::NameMap;
use crate::text::push_char;

verus! {

/// The character for one hexadecimal digit value, lower case.
pub open spec fn hex_digit_char(d: int) -> char {
    if d == 0 {
        '0'
    } else if d == 1 {
        '1'
    } else if d == 2 {
        '2'
    } else if d == 3 {
        '3'
    } else if d == 4 {
        '4'
    } else if d == 5 {
        '5'
    } else if d == 6 {
        '6'
    } else if d == 7 {
        '7'
    } else if d == 8 {
        '8'
    } else if d == 9 {
        '9'
    } else if d == 10 {
        'a'
    } else if d == 11 {
        'b'
    } else if d == 12 {
        'c'
    } else if d == 13 {
        'd'
    } else if d == 14 {
        'e'
    } else {
        'f'
    }
}

/// How one character appears inside a rendered string literal: quote and
/// backslash are escaped, the named control characters take their short
/// escape, other control characters take a `\u00..` escape, everything else
/// stands as itself.
pub open spec fn escape_char(c: char) -> Seq<char> {
    if c == '"' {
        seq!['\\', '"']
    } else if c == '\\' {
        seq!['\\', '\\']
    } else if c == '\u{8}' {
        seq!['\\', 'b']
    } else if c == '\t' {
        seq!['\\', 't']
    } else if c == '\n' {
        seq!['\\', 'n']
    } else if c == '\u{c}' {
        seq!['\\', 'f']
    } else if c == '\r' {
        seq!['\\', 'r']
    } else if (c as u32) < 0x20 {
        seq!['\\', 'u', '0', '0', hex_digit_char((c as u32 / 16) as int), hex_digit_char((c as u32 % 16) as int)]
    } else {
        seq![c]
    }
}

/// A whole string, escaped character by character.
pub open spec fn escape_string(s: Seq<char>) -> Seq<char>
    decreases s.len(),
{
    if s.len() == 0 {
        Seq::empty()
    } else {
        escape_char(s[0]) + escape_string(s.skip(1))
    }
}

/// The character for one decimal digit value.
pub open spec fn dec_digit_char(d: int) -> char {
    if d == 0 {
        '0'
    } else if d == 1 {
        '1'
    } else if d == 2 {
        '2'
    } else if d == 3 {
        '3'
    } else if d == 4 {
        '4'
    } else if d == 5 {
        '5'
    } else if d == 6 {
        '6'
    } else if d == 7 {
        '7'
    } else if d == 8 {
        '8'
    } else {
        '9'
    }
}

/// The decimal digits of a non-negative number, most significant first.
pub open spec fn dec_digits(n: int) -> Seq<char>
    decreases n,
{
    if n < 10 {
        seq![dec_digit_char(n)]
    } else {
        dec_digits(n / 10) + seq![dec_digit_char(n % 10)]
    }
}

/// One rendered member: the quoted, escaped key, a colon, a space, and the
/// weight in decimal.
pub open spec fn render_pair(k: Seq<char>, w: u32) -> Seq<char> {
    seq!['"'] + escape_string(k) + seq!['"', ':', ' '] + dec_digits(w as int)
}

/// The rendered members after the first: each preceded by a comma, a line
/// break and the indentation.
pub open spec fn render_items(ps: Seq<(Seq<char>, u32)>) -> Seq<char>
    decreases ps.len(),
{
    if ps.len() == 0 {
        Seq::empty()
    } else {
        seq![',', '\n', ' ', ' '] + render_pair(ps[0].0, ps[0].1) + render_items(ps.skip(1))
    }
}

/// The whole rendered object: `{}` when empty, otherwise one indented
/// member per pair, in pair order, closed on its own line.
pub open spec fn render_map(ps: Seq<(Seq<char>, u32)>) -> Seq<char> {
    if ps.len() == 0 {
        seq!['{', '}']
    } else {
        seq!['{', '\n', ' ', ' '] + render_pair(ps[0].0, ps[0].1) + render_items(ps.skip(1))
            + seq!['\n', '}']
    }
}

fn hex_digit_exec(d: u32) -> (r: char)
    requires
        d < 16,
    ensures
        r == hex_digit_char(d as int),
{
    if d == 0 {
        '0'
    } else if d == 1 {
        '1'
    } else if d == 2 {
        '2'
    } else if d == 3 {
        '3'
    } else if d == 4 {
        '4'
    } else if d == 5 {
        '5'
    } else if d == 6 {
        '6'
    } else if d == 7 {
        '7'
    } else if d == 8 {
        '8'
    } else if d == 9 {
        '9'
    } else if d == 10 {
        'a'
    } else if d == 11 {
        'b'
    } else if d == 12 {
        'c'
    } else if d == 13 {
        'd'
    } else if d == 14 {
        'e'
    } else {
        'f'
    }
}

fn dec_digit_exec(d: u32) -> (r: char)
    requires
        d < 10,
    ensures
        r == dec_digit_char(d as int),
{
    if d == 0 {
        '0'
    } else if d == 1 {
        '1'
    } else if d == 2 {
        '2'
    } else if d == 3 {
        '3'
    } else if d == 4 {
        '4'
    } else if d == 5 {
        '5'
    } else if d == 6 {
        '6'
    } else if d == 7 {
        '7'
    } else if d == 8 {
        '8'
    } else {
        '9'
    }
}

/// Appends the decimal digits of `w`.
fn push_decimal(out: &mut String, w: u32)
    ensures
        final(out)@ == old(out)@ + dec_digits(w as int),
    decreases w,
{
    if w >= 10 {
        push_decimal(out, w / 10);
        let d = dec_digit_exec(w % 10);
        push_char(out, d);
        proof {
            assert(out@ =~= old(out)@ + dec_digits(w as int));
        }
    } else {
        push_char(out, dec_digit_exec(w));
        proof {
            assert(out@ =~= old(out)@ + dec_digits(w as int));
        }
    }
}

/// Appends the characters of `s` from position `i` on, escaped.
fn push_escaped_from(out: &mut String, s: &str, n: usize, i: usize)
    requires
        n == s@.len(),
        i <= n,
    ensures
        final(out)@ == old(out)@ + escape_string(s@.skip(i as int)),
    decreases n - i,
{
    if i >= n {
        proof {
            assert(s@.skip(i as int).len() == 0);
            assert(out@ =~= old(out)@ + escape_string(s@.skip(i as int)));
        }
        return ;
    }
    let c = s.get_char(i);
    proof {
        assert(s@.skip(i as int)[0] == s@[i as int]);
        assert(s@.skip(i as int).skip(1) =~= s@.skip(i + 1));
    }
    if c == '"' {
        push_char(out, '\\');
        push_char(out, '"');
    } else if c == '\\' {
        push_char(out, '\\');
        push_char(out, '\\');
    } else if c == '\u{8}' {
        push_char(out, '\\');
        push_char(out, 'b');
    } else if c == '\t' {
        push_char(out, '\\');
        push_char(out, 't');
    } else if c == '\n' {
        push_char(out, '\\');
        push_char(out, 'n');
    } else if c == '\u{c}' {
        push_char(out, '\\');
        push_char(out, 'f');
    } else if c == '\r' {
        push_char(out, '\\');
        push_char(out, 'r');
    } else if (c as u32) < 0x20 {
        push_char(out, '\\');
        push_char(out, 'u');
        push_char(out, '0');
        push_char(out, '0');
        push_char(out, hex_digit_exec((c as u32) / 16));
        push_char(out, hex_digit_exec((c as u32) % 16));
    } else {
        push_char(out, c);
    }
    let ghost mid = out@;
    proof {
        assert(mid =~= old(out)@ + escape_char(s@[i as int]));
    }
    push_escaped_from(out, s, n, i + 1);
    proof {
        assert(out@ =~= old(out)@ + escape_string(s@.skip(i as int)));
    }
}

/// Appends one rendered member.
fn push_pair(out: &mut String, k: &str, w: u32)
    ensures
        final(out)@ == old(out)@ + render_pair(k@, w),
{
    push_char(out, '"');
    let n = k.unicode_len();
    proof {
        assert(k@.skip(0) =~= k@);
    }
    push_escaped_from(out, k, n, 0);
    push_char(out, '"');
    push_char(out, ':');
    push_char(out, ' ');
    push_decimal(out, w);
    proof {
        assert(out@ =~= old(out)@ + render_pair(k@, w));
    }
}

/// Appends the rendered members from pair `i` on, each preceded by the
/// separator and indentation.
fn push_items(out: &mut String, pairs: &Vec<(String, u32)>, i: usize)
    requires
        i <= pairs@.len(),
    ensures
        final(out)@ == old(out)@ + render_items(
            pairs@.map_values(|p: (String, u32)| (p.0@, p.1)).skip(i as int),
        ),
    decreases pairs@.len() - i,
{
    let ghost pv = pairs@.map_values(|p: (String, u32)| (p.0@, p.1));
    if i >= pairs.len() {
        proof {
            assert(pv.skip(i as int).len() == 0);
            assert(out@ =~= old(out)@ + render_items(pv.skip(i as int)));
        }
        return ;
    }
    push_char(out, ',');
    push_char(out, '\n');
    push_char(out, ' ');
    push_char(out, ' ');
    push_pair(out, pairs[i].0.as_str(), pairs[i].1);
    let ghost mid = out@;
    proof {
        assert(pv.skip(i as int)[0] == pv[i as int]);
        assert(mid =~= old(out)@ + seq![',', '\n', ' ', ' '] + render_pair(
            pv[i as int].0,
            pv[i as int].1,
        ));
        assert(pv.skip(i as int).skip(1) =~= pv.skip(i + 1));
    }
    push_items(out, pairs, i + 1);
    proof {
        assert(out@ =~= old(out)@ + render_items(pv.skip(i as int)));
    }
}

/// Renders the whole mapping as pretty-printed JSON text: `{}` when empty,
/// otherwise one `"name": weight` member per pair, in key insertion order,
/// indented by two spaces.
pub fn to_json_pretty(m: &NameMap) -> (r: String)
    ensures
        r@ == render_map(m.pairs_view()),
{
    let pairs = m.pairs();
    let ghost pv = m.pairs_view();
    let mut out = String::new();
    if pairs.len() == 0 {
        push_char(&mut out, '{');
        push_char(&mut out, '}');
        proof {
            assert(out@ =~= render_map(pv));
        }
        return out;
    }
    push_char(&mut out, '{');
    push_char(&mut out, '\n');
    push_char(&mut out, ' ');
    push_char(&mut out, ' ');
    push_pair(&mut out, pairs[0].0.as_str(), pairs[0].1);
    proof {
        assert(pv[0] == (pairs@.map_values(|p: (String, u32)| (p.0@, p.1)))[0]);
        assert(out@ =~= seq!['{', '\n', ' ', ' '] + render_pair(pv[0].0, pv[0].1));
    }
    push_items(&mut out, pairs, 1);
    proof {
        assert(pairs@.map_values(|p: (String, u32)| (p.0@, p.1)).skip(1) =~= pv.skip(1));
    }
    push_char(&mut out, '\n');
    push_char(&mut out, '}');
    proof {
        assert(out@ =~= render_map(pv));
    }
    out
}

} // verus!
