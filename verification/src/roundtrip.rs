//! The rendered output loses nothing: parsing the pretty-printed text back
//! recovers exactly the pairs that were rendered, keys and weights alike.
//!
//! `spec_parse_rendered` states the grammar of the rendered object; the
//! round-trip law proves it recovers the pair list from `render_map`.

use vstd::prelude::*;

use crate::json::is_digit;
use crate::json::is_hex_digit;
use crate::json::hex_value;
use crate::json::spec_hex4;
use crate::json::spec_short_escape;
use crate::json::spec_skip_digits;
use crate::json::spec_string_body;
use crate::render::dec_digit_char;
use crate::render::dec_digits;
use crate::render::escape_char;
use crate::render::escape_string;
use crate::render::render_items;
use crate::render::render_map;
use crate::render::render_pair;
use crate::render::hex_digit_char;

verus! {

/// The text holds `t` starting at position `i`.
pub open spec fn matches_at(s: Seq<char>, i: int, t: Seq<char>) -> bool {
    &&& 0 <= i
    &&& i + t.len() <= s.len()
    &&& s.subrange(i, i + t.len()) == t
}

/// Matching a concatenation is matching both parts in turn.
proof fn lemma_matches_split(s: Seq<char>, i: int, a: Seq<char>, b: Seq<char>)
    requires
        matches_at(s, i, a + b),
    ensures
        matches_at(s, i, a),
        matches_at(s, i + a.len(), b),
        forall|j: int| 0 <= j < a.len() ==> s[i + j] == a[j],
        forall|j: int| 0 <= j < b.len() ==> s[i + a.len() + j] == b[j],
{
    assert(s.subrange(i, i + a.len()) =~= a) by {
        assert forall|j: int| 0 <= j < a.len() implies s.subrange(i, i + a.len())[j] == a[j] by {
            assert(s.subrange(i, i + (a + b).len())[j] == (a + b)[j]);
        }
    }
    assert(s.subrange(i + a.len(), i + a.len() + b.len()) =~= b) by {
        assert forall|j: int|
            0 <= j < b.len() implies s.subrange(i + a.len(), i + a.len() + b.len())[j] == b[j] by {
            assert(s.subrange(i, i + (a + b).len())[a.len() + j] == (a + b)[a.len() + j]);
        }
    }
    assert forall|j: int| 0 <= j < a.len() implies s[i + j] == a[j] by {
        assert(s.subrange(i, i + a.len())[j] == a[j]);
    }
    assert forall|j: int| 0 <= j < b.len() implies s[i + a.len() + j] == b[j] by {
        assert(s.subrange(i + a.len(), i + a.len() + b.len())[j] == b[j]);
    }
}

/// A hexadecimal digit character reads back as its value.
proof fn lemma_hex_digit_value(d: int)
    requires
        0 <= d < 16,
    ensures
        is_hex_digit(hex_digit_char(d)),
        hex_value(hex_digit_char(d)) == d,
{
}

/// An escaped string, followed by its closing quote, parses back to exactly
/// the original characters, ending just past the quote.
proof fn lemma_string_body_of_escape(s: Seq<char>, i: int, k: Seq<char>)
    requires
        matches_at(s, i, escape_string(k) + seq!['"']),
    ensures
        spec_string_body(s, i) == Some((k, i + escape_string(k).len() + 1)),
    decreases k.len(),
{
    if k.len() == 0 {
        assert(escape_string(k) + seq!['"'] =~= seq!['"']);
        assert(s.subrange(i, i + 1) =~= seq!['"']);
        assert(s[i] == s.subrange(i, i + 1)[0]);
        assert(spec_string_body(s, i) == Some((Seq::<char>::empty(), i + 1)));
        assert(k =~= Seq::<char>::empty());
    } else {
        let c = k[0];
        let e = escape_char(c);
        let rest = escape_string(k.skip(1));
        assert(escape_string(k) == e + rest);
        assert((e + rest) + seq!['"'] =~= e + (rest + seq!['"']));
        lemma_matches_split(s, i, e, rest + seq!['"']);
        lemma_string_body_of_escape(s, i + e.len(), k.skip(1));
        let after = i + e.len() + rest.len() + 1;
        assert(spec_string_body(s, i + e.len()) == Some((k.skip(1), after)));
        assert(after == i + escape_string(k).len() + 1);
        if c == '"' || c == '\\' {
            assert(e =~= seq!['\\', if c == '"' { '"' } else { '\\' }]);
            assert(s[i] == '\\');
            assert(spec_short_escape(s[i + 1]) == Some(c));
            assert(seq![c] + k.skip(1) =~= k);
        } else if c == '\u{8}' || c == '\t' || c == '\n' || c == '\u{c}' || c == '\r' {
            assert(s[i] == '\\');
            assert(s[i + 1] != 'u');
            assert(spec_short_escape(s[i + 1]) == Some(c));
            assert(seq![c] + k.skip(1) =~= k);
        } else if (c as u32) < 0x20 {
            let code = c as u32;
            let hi = code / 16;
            let lo = code % 16;
            assert(e =~= seq!['\\', 'u', '0', '0', hex_digit_char(hi as int), hex_digit_char(lo as int)]);
            assert(s[i] == '\\' && s[i + 1] == 'u');
            assert(s[i + 2] == '0' && s[i + 3] == '0');
            assert(s[i + 4] == hex_digit_char(hi as int) && s[i + 5] == hex_digit_char(lo as int));
            lemma_hex_digit_value(hi as int);
            lemma_hex_digit_value(lo as int);
            assert(hex_value('0') == 0);
            assert(is_hex_digit('0'));
            let v = spec_hex4(s, i + 2);
            assert(v == Some((hi * 16 + lo) as int));
            assert(hi * 16 + lo == code) by {
                assert(code == 16 * (code / 16) + code % 16) by (nonlinear_arith);
            }
            vstd::utf8::char_u32_cast(c, code);
            assert(seq![c] + k.skip(1) =~= k);
        } else {
            assert(e =~= seq![c]);
            assert(s[i + 0] == e[0]);
            assert(s[i] == c);
            assert(seq![c] + k.skip(1) =~= k);
        }
    }
}

/// The numeric value of a run of decimal digit characters, most
/// significant first.
pub open spec fn dec_value(s: Seq<char>) -> int
    decreases s.len(),
{
    if s.len() == 0 {
        0
    } else {
        dec_value(s.drop_last()) * 10 + (s.last() as u32 - '0' as u32)
    }
}

/// The rendered digits of a weight are digits and read back as its value.
proof fn lemma_dec_digits_value(w: u32)
    ensures
        dec_digits(w as int).len() >= 1,
        forall|j: int|
            0 <= j < dec_digits(w as int).len() ==> is_digit(#[trigger] dec_digits(w as int)[j]),
        dec_value(dec_digits(w as int)) == w,
    decreases w,
{
    if w < 10 {
        assert(dec_digits(w as int) =~= seq![dec_digit_char(w as int)]);
        assert(dec_digits(w as int).drop_last() =~= Seq::<char>::empty());
        assert(dec_value(Seq::<char>::empty()) == 0);
        assert(dec_value(dec_digits(w as int)) == dec_digit_char(w as int) as u32 - '0' as u32);
    } else {
        lemma_dec_digits_value(w / 10);
        let d = dec_digits((w / 10) as int);
        assert(dec_digits(w as int) == d + seq![dec_digit_char(w as int % 10)]);
        assert(dec_digits(w as int).drop_last() =~= d);
        assert(dec_digits(w as int).last() == dec_digit_char(w as int % 10));
        assert(w as int == 10 * (w as int / 10) + (w as int % 10));
        assert(dec_value(dec_digits(w as int)) == w);
        assert forall|j: int|
            0 <= j < dec_digits(w as int).len() implies is_digit(
            #[trigger] dec_digits(w as int)[j],
        ) by {
            if j < d.len() {
                assert(dec_digits(w as int)[j] == d[j]);
            } else {
                assert(dec_digits(w as int)[j] == dec_digit_char(w as int % 10));
            }
        }
    }
}

/// A run of digits up to a non-digit is skipped exactly to its end.
proof fn lemma_skip_digits_run(s: Seq<char>, i: int, m: int)
    requires
        0 <= i <= m <= s.len(),
        forall|j: int| i <= j < m ==> is_digit(#[trigger] s[j]),
        m == s.len() || !is_digit(s[m]),
    ensures
        spec_skip_digits(s, i) == m,
    decreases m - i,
{
    if i < m {
        lemma_skip_digits_run(s, i + 1, m);
    }
}

/// A weight in the rendered text: a non-empty digit run, read as a number
/// that must fit the weight type.
pub open spec fn spec_parse_weight(s: Seq<char>, i: int) -> Option<(u32, int)> {
    if !(0 <= i <= s.len()) {
        None
    } else {
        let j = spec_skip_digits(s, i);
        if !(i < j <= s.len()) {
            None
        } else {
            let v = dec_value(s.subrange(i, j));
            if 0 <= v < 0x1_0000_0000 {
                Some((v as u32, j))
            } else {
                None
            }
        }
    }
}

/// The rendered digits of a weight, followed by a non-digit, parse back to
/// exactly that weight.
proof fn lemma_parse_weight_of_digits(s: Seq<char>, i: int, w: u32)
    requires
        matches_at(s, i, dec_digits(w as int)),
        i + dec_digits(w as int).len() == s.len() || !is_digit(s[i + dec_digits(w as int).len()]),
    ensures
        spec_parse_weight(s, i) == Some((w, i + dec_digits(w as int).len())),
{
    let d = dec_digits(w as int);
    lemma_dec_digits_value(w);
    assert forall|j: int| 0 <= j < d.len() implies s[i + j] == d[j] by {
        assert(s.subrange(i, i + d.len())[j] == d[j]);
    }
    assert forall|j: int| i <= j < i + d.len() implies is_digit(#[trigger] s[j]) by {
        assert(s[i + (j - i)] == d[j - i]);
    }
    lemma_skip_digits_run(s, i, i + d.len());
    assert(s.subrange(i, i + d.len()) == d);
}

/// The members of a rendered object from position `i` on: a quoted key, a
/// colon and space, a weight, then either the separator and more members,
/// or the closing line, which must end the text.
pub open spec fn spec_parse_members(s: Seq<char>, i: int) -> Option<(Seq<(Seq<char>, u32)>, int)>
    decreases s.len() - i,
{
    if !(0 <= i < s.len() && s[i] == '"') {
        None
    } else {
        match spec_string_body(s, i + 1) {
            Option::None => None,
            Option::Some((k, a)) => {
                if !(i + 1 < a && a + 2 <= s.len()) {
                    None
                } else if !(s[a] == ':' && s[a + 1] == ' ') {
                    None
                } else {
                    match spec_parse_weight(s, a + 2) {
                        Option::None => None,
                        Option::Some((w, b)) => {
                            if !(a + 2 < b && b + 2 <= s.len()) {
                                None
                            } else if b + 2 == s.len() && s[b] == '\n' && s[b + 1] == '}' {
                                Some((seq![(k, w)], b + 2))
                            } else if b + 4 <= s.len() && s[b] == ',' && s[b + 1] == '\n' && s[b
                                + 2] == ' ' && s[b + 3] == ' ' {
                                match spec_parse_members(s, b + 4) {
                                    Option::None => None,
                                    Option::Some((rest, e)) => Some((seq![(k, w)] + rest, e)),
                                }
                            } else {
                                None
                            }
                        },
                    }
                }
            },
        }
    }
}

/// A whole rendered object read back: `{}` is the empty mapping, otherwise
/// the opening line, the members, and nothing after the closing brace.
pub open spec fn spec_parse_rendered(s: Seq<char>) -> Option<Seq<(Seq<char>, u32)>> {
    if s.len() == 2 && s[0] == '{' && s[1] == '}' {
        Some(Seq::empty())
    } else if s.len() >= 4 && s[0] == '{' && s[1] == '\n' && s[2] == ' ' && s[3] == ' ' {
        match spec_parse_members(s, 4) {
            Option::None => None,
            Option::Some((ps, e)) => {
                if e == s.len() {
                    Some(ps)
                } else {
                    None
                }
            },
        }
    } else {
        None
    }
}

/// The rendered members from one pair on, ending the text, parse back to
/// exactly those pairs.
proof fn lemma_members_of_render(s: Seq<char>, i: int, ps: Seq<(Seq<char>, u32)>)
    requires
        ps.len() >= 1,
        matches_at(
            s,
            i,
            render_pair(ps[0].0, ps[0].1) + render_items(ps.skip(1)) + seq!['\n', '}'],
        ),
        i + (render_pair(ps[0].0, ps[0].1) + render_items(ps.skip(1)) + seq!['\n', '}']).len()
            == s.len(),
    ensures
        spec_parse_members(s, i) == Some((ps, s.len() as int)),
    decreases ps.len(),
{
    let k = ps[0].0;
    let w = ps[0].1;
    let quote = seq!['"'];
    let esc = escape_string(k);
    let colon = seq![':', ' '];
    let digits = dec_digits(w as int);
    let items = render_items(ps.skip(1));
    let tail = seq!['\n', '}'];
    assert(render_pair(k, w) + items + tail =~= quote + ((esc + quote) + (colon + (digits + (items
        + tail)))));
    lemma_matches_split(s, i, quote, (esc + quote) + (colon + (digits + (items + tail))));
    assert(s[i + 0] == quote[0]);
    lemma_matches_split(s, i + 1, esc + quote, colon + (digits + (items + tail)));
    lemma_string_body_of_escape(s, i + 1, k);
    let a = i + 1 + esc.len() + 1;
    assert(spec_string_body(s, i + 1) == Some((k, a)));
    lemma_matches_split(s, a, colon, digits + (items + tail));
    assert(s[a + 0] == ':' && s[a + 1] == ' ');
    lemma_matches_split(s, a + 2, digits, items + tail);
    let b = a + 2 + digits.len();
    assert((items + tail)[0] == '\n' || (items + tail)[0] == ',');
    assert(s[b + 0] == (items + tail)[0]);
    lemma_parse_weight_of_digits(s, a + 2, w);
    assert(spec_parse_weight(s, a + 2) == Some((w, b)));
    if ps.len() == 1 {
        assert(items =~= Seq::<char>::empty());
        assert(items + tail =~= tail);
        assert(s[b + 0] == '\n' && s[b + 1] == '}');
        assert(b + 2 == s.len());
        assert(seq![(k, w)] =~= ps);
    } else {
        let ps1 = ps.skip(1);
        assert(items == seq![',', '\n', ' ', ' '] + render_pair(ps1[0].0, ps1[0].1) + render_items(
            ps1.skip(1),
        ));
        let sep = seq![',', '\n', ' ', ' '];
        let next = render_pair(ps1[0].0, ps1[0].1) + render_items(ps1.skip(1)) + tail;
        assert(items + tail =~= sep + next);
        lemma_matches_split(s, b, sep, next);
        assert(s[b + 0] == ',' && s[b + 1] == '\n' && s[b + 2] == ' ' && s[b + 3] == ' ');
        assert(b + 2 != s.len());
        lemma_members_of_render(s, b + 4, ps1);
        assert(spec_parse_members(s, b + 4) == Some((ps1, s.len() as int)));
        assert(seq![(k, w)] + ps1 =~= ps);
    }
}

/// Round trip: parsing the rendered mapping back recovers exactly the pairs
/// that were rendered, keys and weights alike, in order. Serialization
/// loses nothing.
pub proof fn lemma_render_round_trip(ps: Seq<(Seq<char>, u32)>)
    ensures
        spec_parse_rendered(render_map(ps)) == Some(ps),
{
    let s = render_map(ps);
    if ps.len() == 0 {
        assert(s =~= seq!['{', '}']);
        assert(Seq::<(Seq<char>, u32)>::empty() =~= ps);
    } else {
        let head = seq!['{', '\n', ' ', ' '];
        let body = render_pair(ps[0].0, ps[0].1) + render_items(ps.skip(1)) + seq!['\n', '}'];
        assert(s =~= head + body);
        assert(matches_at(s, 0, head + body)) by {
            assert(s.subrange(0, s.len() as int) =~= s);
        }
        lemma_matches_split(s, 0, head, body);
        assert(s[0] == '{' && s[1] == '\n' && s[2] == ' ' && s[3] == ' ');
        assert(body.len() >= 2);
        lemma_members_of_render(s, 4, ps);
    }
}

} // verus!
