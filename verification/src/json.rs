//! Parsing of input documents: JSON text expected to hold an array of
//! objects, each with a `"name"` string member.
//!
//! The grammar is stated by the `spec_` functions over the character
//! sequence; the executable parser returns exactly what they define. A
//! document is accepted when it is a well-formed JSON array whose elements
//! are objects carrying exactly one `"name"` member with a string value;
//! other members are allowed and skipped, whatever JSON values they hold.

use vstd::prelude::*;

use crate::text::push_char;

verus! {

/// The error of a failed parse: the text is not valid JSON, or does not
/// match the expected array-of-named-objects shape.
#[derive(Debug, PartialEq, Eq, Structural)]
pub struct ParseError;

/// JSON insignificant whitespace.
pub open spec fn is_ws_char(c: char) -> bool {
    c == ' ' || c == '\t' || c == '\n' || c == '\r'
}

/// A decimal digit.
pub open spec fn is_digit(c: char) -> bool {
    '0' <= c && c <= '9'
}

/// A hexadecimal digit, either case.
pub open spec fn is_hex_digit(c: char) -> bool {
    is_digit(c) || ('a' <= c && c <= 'f') || ('A' <= c && c <= 'F')
}

/// The numeric value of a hexadecimal digit.
pub open spec fn hex_value(c: char) -> int {
    if is_digit(c) {
        c as u32 - '0' as u32
    } else if 'a' <= c && c <= 'f' {
        c as u32 - 'a' as u32 + 10
    } else {
        c as u32 - 'A' as u32 + 10
    }
}

/// The first position at or after `i` that does not hold whitespace.
pub open spec fn spec_skip_ws(s: Seq<char>, i: int) -> int
    decreases s.len() - i,
{
    if 0 <= i < s.len() && is_ws_char(s[i]) {
        spec_skip_ws(s, i + 1)
    } else {
        i
    }
}

/// The first position at or after `i` that does not hold a decimal digit.
pub open spec fn spec_skip_digits(s: Seq<char>, i: int) -> int
    decreases s.len() - i,
{
    if 0 <= i < s.len() && is_digit(s[i]) {
        spec_skip_digits(s, i + 1)
    } else {
        i
    }
}

/// Four hexadecimal digits starting at `i`, read as one value.
pub open spec fn spec_hex4(s: Seq<char>, i: int) -> Option<int> {
    if 0 <= i && i + 4 <= s.len() && is_hex_digit(s[i]) && is_hex_digit(s[i + 1]) && is_hex_digit(
        s[i + 2],
    ) && is_hex_digit(s[i + 3]) {
        Some(
            hex_value(s[i]) * 0x1000 + hex_value(s[i + 1]) * 0x100 + hex_value(s[i + 2]) * 0x10
                + hex_value(s[i + 3]),
        )
    } else {
        None
    }
}

/// The character a short escape stands for, if `c` may follow a backslash.
pub open spec fn spec_short_escape(c: char) -> Option<char> {
    if c == '"' {
        Some('"')
    } else if c == '\\' {
        Some('\\')
    } else if c == '/' {
        Some('/')
    } else if c == 'b' {
        Some('\u{8}')
    } else if c == 'f' {
        Some('\u{c}')
    } else if c == 'n' {
        Some('\n')
    } else if c == 'r' {
        Some('\r')
    } else if c == 't' {
        Some('\t')
    } else {
        None
    }
}

/// The body of a string literal from position `i` (just after the opening
/// quote): its decoded characters and the position just after the closing
/// quote. Escapes are decoded; a `\u` escape must be a Unicode scalar value,
/// with surrogates only as a well-formed high/low pair; raw control
/// characters are refused.
pub open spec fn spec_string_body(s: Seq<char>, i: int) -> Option<(Seq<char>, int)>
    decreases s.len() - i,
{
    if !(0 <= i < s.len()) {
        None
    } else {
        let c = s[i];
        if c == '"' {
            Some((Seq::empty(), i + 1))
        } else if c == '\\' {
            if i + 2 > s.len() {
                None
            } else {
                let e = s[i + 1];
                if e == 'u' {
                    match spec_hex4(s, i + 2) {
                        Option::None => None,
                        Option::Some(v) => {
                            if 0xD800 <= v < 0xDC00 {
                                if i + 8 <= s.len() && s[i + 6] == '\\' && s[i + 7] == 'u' {
                                    match spec_hex4(s, i + 8) {
                                        Option::None => None,
                                        Option::Some(w) => {
                                            if 0xDC00 <= w < 0xE000 {
                                                let code = 0x10000 + (v - 0xD800) * 0x400 + (w
                                                    - 0xDC00);
                                                match spec_string_body(s, i + 12) {
                                                    Option::None => None,
                                                    Option::Some((t, j)) => Some(
                                                        (seq![((code as u32) as char)] + t, j),
                                                    ),
                                                }
                                            } else {
                                                None
                                            }
                                        },
                                    }
                                } else {
                                    None
                                }
                            } else if 0xDC00 <= v < 0xE000 {
                                None
                            } else {
                                match spec_string_body(s, i + 6) {
                                    Option::None => None,
                                    Option::Some((t, j)) => Some((seq![((v as u32) as char)] + t, j)),
                                }
                            }
                        },
                    }
                } else {
                    match spec_short_escape(e) {
                        Option::None => None,
                        Option::Some(d) => match spec_string_body(s, i + 2) {
                            Option::None => None,
                            Option::Some((t, j)) => Some((seq![d] + t, j)),
                        },
                    }
                }
            }
        } else if (c as u32) < 0x20 {
            None
        } else {
            match spec_string_body(s, i + 1) {
                Option::None => None,
                Option::Some((t, j)) => Some((seq![c] + t, j)),
            }
        }
    }
}

/// The end of a number token starting at `i`: an optional minus sign, an
/// integer part without leading zeros, an optional fraction and an optional
/// exponent, each with at least one digit.
pub open spec fn spec_number_end(s: Seq<char>, i: int) -> Option<int> {
    if !(0 <= i < s.len()) {
        None
    } else {
        let j = if s[i] == '-' {
            i + 1
        } else {
            i
        };
        if !(j < s.len() && is_digit(s[j])) {
            None
        } else {
            let p = if s[j] == '0' {
                j + 1
            } else {
                spec_skip_digits(s, j)
            };
            if !(j < p <= s.len()) {
                None
            } else {
                if p < s.len() && s[p] == '.' {
                    let f = spec_skip_digits(s, p + 1);
                    if !(p + 1 < f <= s.len()) {
                        None
                    } else {
                        spec_number_exp(s, f)
                    }
                } else {
                    spec_number_exp(s, p)
                }
            }
        }
    }
}

/// The end of the optional exponent part at `q`, or `q` itself when none
/// starts there.
pub open spec fn spec_number_exp(s: Seq<char>, q: int) -> Option<int> {
    if 0 <= q < s.len() && (s[q] == 'e' || s[q] == 'E') {
        let e0 = if q + 1 < s.len() && (s[q + 1] == '+' || s[q + 1] == '-') {
            q + 2
        } else {
            q + 1
        };
        let g = spec_skip_digits(s, e0);
        if !(e0 < g <= s.len()) {
            None
        } else {
            Some(g)
        }
    } else {
        Some(q)
    }
}

/// The position after a complete JSON value starting at `i`.
pub open spec fn spec_value_end(s: Seq<char>, i: int) -> Option<int>
    decreases s.len() - i, 0int,
{
    if !(0 <= i < s.len()) {
        None
    } else {
        let c = s[i];
        if c == '"' {
            match spec_string_body(s, i + 1) {
                Option::None => None,
                Option::Some((t, j)) => Some(j),
            }
        } else if c == '-' || is_digit(c) {
            spec_number_end(s, i)
        } else if c == 'n' {
            if i + 4 <= s.len() && s[i + 1] == 'u' && s[i + 2] == 'l' && s[i + 3] == 'l' {
                Some(i + 4)
            } else {
                None
            }
        } else if c == 't' {
            if i + 4 <= s.len() && s[i + 1] == 'r' && s[i + 2] == 'u' && s[i + 3] == 'e' {
                Some(i + 4)
            } else {
                None
            }
        } else if c == 'f' {
            if i + 5 <= s.len() && s[i + 1] == 'a' && s[i + 2] == 'l' && s[i + 3] == 's' && s[i + 4]
                == 'e' {
                Some(i + 5)
            } else {
                None
            }
        } else if c == '[' {
            spec_array_start(s, i + 1)
        } else if c == '{' {
            spec_object_start(s, i + 1)
        } else {
            None
        }
    }
}

/// The position after the rest of an array whose `[` stood at `i - 1`:
/// either an immediate `]` or one or more comma-separated values.
pub open spec fn spec_array_start(s: Seq<char>, i: int) -> Option<int>
    decreases s.len() - i, 2int,
{
    let j = spec_skip_ws(s, i);
    if !(i <= j < s.len()) {
        None
    } else if s[j] == ']' {
        Some(j + 1)
    } else {
        spec_array_items(s, j)
    }
}

/// The position after one or more comma-separated array items and the
/// closing `]`, starting at `i`.
pub open spec fn spec_array_items(s: Seq<char>, i: int) -> Option<int>
    decreases s.len() - i, 1int,
{
    let j = spec_skip_ws(s, i);
    if !(i <= j <= s.len()) {
        None
    } else {
        match spec_value_end(s, j) {
            Option::None => None,
            Option::Some(k) => {
                if !(j < k <= s.len()) {
                    None
                } else {
                    let m = spec_skip_ws(s, k);
                    if !(k <= m < s.len()) {
                        None
                    } else if s[m] == ',' {
                        spec_array_items(s, m + 1)
                    } else if s[m] == ']' {
                        Some(m + 1)
                    } else {
                        None
                    }
                }
            },
        }
    }
}

/// The position after the rest of an object whose `{` stood at `i - 1`:
/// either an immediate `}` or one or more comma-separated members.
pub open spec fn spec_object_start(s: Seq<char>, i: int) -> Option<int>
    decreases s.len() - i, 2int,
{
    let j = spec_skip_ws(s, i);
    if !(i <= j < s.len()) {
        None
    } else if s[j] == '}' {
        Some(j + 1)
    } else {
        spec_object_members(s, j)
    }
}

/// The position after one or more comma-separated object members (a string
/// key, a colon, a value) and the closing `}`, starting at `i`.
pub open spec fn spec_object_members(s: Seq<char>, i: int) -> Option<int>
    decreases s.len() - i, 1int,
{
    let j = spec_skip_ws(s, i);
    if !(i <= j < s.len() && s[j] == '"') {
        None
    } else {
        match spec_string_body(s, j + 1) {
            Option::None => None,
            Option::Some((key, k)) => {
                if !(j + 1 < k <= s.len()) {
                    None
                } else {
                    let m = spec_skip_ws(s, k);
                    if !(k <= m < s.len() && s[m] == ':') {
                        None
                    } else {
                        let v = spec_skip_ws(s, m + 1);
                        if !(m + 1 <= v <= s.len()) {
                            None
                        } else {
                            match spec_value_end(s, v) {
                                Option::None => None,
                                Option::Some(e) => {
                                    if !(v < e <= s.len()) {
                                        None
                                    } else {
                                        let t = spec_skip_ws(s, e);
                                        if !(e <= t < s.len()) {
                                            None
                                        } else if s[t] == ',' {
                                            spec_object_members(s, t + 1)
                                        } else if s[t] == '}' {
                                            Some(t + 1)
                                        } else {
                                            None
                                        }
                                    }
                                },
                            }
                        }
                    }
                }
            },
        }
    }
}

/// One or more members of an entry object, starting at `i`, with `name`
/// holding the `"name"` value seen so far. The `"name"` member must appear
/// exactly once and hold a string; other members may hold any JSON value and
/// are skipped. Yields the entry's name and the position after the `}`.
pub open spec fn spec_entry_members(s: Seq<char>, i: int, name: Option<Seq<char>>) -> Option<
    (Seq<char>, int),
>
    decreases s.len() - i, 1int,
{
    let j = spec_skip_ws(s, i);
    if !(i <= j < s.len() && s[j] == '"') {
        None
    } else {
        match spec_string_body(s, j + 1) {
            Option::None => None,
            Option::Some((key, k)) => {
                if !(j + 1 < k <= s.len()) {
                    None
                } else {
                    let m = spec_skip_ws(s, k);
                    if !(k <= m < s.len() && s[m] == ':') {
                        None
                    } else {
                        let v = spec_skip_ws(s, m + 1);
                        if !(m + 1 <= v <= s.len()) {
                            None
                        } else {
                            if key == "name"@ {
                                if name is Some {
                                    None
                                } else if !(v < s.len() && s[v] == '"') {
                                    None
                                } else {
                                    match spec_string_body(s, v + 1) {
                                        Option::None => None,
                                        Option::Some((nm, e)) => {
                                            if !(v + 1 < e <= s.len()) {
                                                None
                                            } else {
                                                spec_entry_after_member(s, e, Some(nm))
                                            }
                                        },
                                    }
                                }
                            } else {
                                match spec_value_end(s, v) {
                                    Option::None => None,
                                    Option::Some(e) => {
                                        if !(v < e <= s.len()) {
                                            None
                                        } else {
                                            spec_entry_after_member(s, e, name)
                                        }
                                    },
                                }
                            }
                        }
                    }
                }
            },
        }
    }
}

/// After one member of an entry object, at `i`: a comma continues the
/// member list, a `}` closes the object and yields the name seen, which must
/// exist by then.
pub open spec fn spec_entry_after_member(
    s: Seq<char>,
    i: int,
    name: Option<Seq<char>>,
) -> Option<(Seq<char>, int)>
    decreases s.len() - i, 0int,
{
    let t = spec_skip_ws(s, i);
    if !(i <= t < s.len()) {
        None
    } else if s[t] == ',' {
        spec_entry_members(s, t + 1, name)
    } else if s[t] == '}' {
        match name {
            Option::Some(nm) => Some((nm, t + 1)),
            Option::None => None,
        }
    } else {
        None
    }
}

/// An entry object starting at `i`: a `{`, members among which exactly one
/// `"name"` with a string value, and a `}`. Yields the name and the position
/// after the `}`. An empty object has no name and is refused.
pub open spec fn spec_entry_object(s: Seq<char>, i: int) -> Option<(Seq<char>, int)> {
    if !(0 <= i < s.len() && s[i] == '{') {
        None
    } else {
        spec_entry_members(s, i + 1, None)
    }
}

/// One or more comma-separated entry objects and the closing `]`, starting
/// at `i`. Yields the names in document order.
pub open spec fn spec_entry_list(s: Seq<char>, i: int) -> Option<(Seq<Seq<char>>, int)>
    decreases s.len() - i,
{
    let j = spec_skip_ws(s, i);
    if !(i <= j) {
        None
    } else {
        match spec_entry_object(s, j) {
            Option::None => None,
            Option::Some((nm, k)) => {
                if !(j < k <= s.len()) {
                    None
                } else {
                    let m = spec_skip_ws(s, k);
                    if !(k <= m < s.len()) {
                        None
                    } else if s[m] == ',' {
                        match spec_entry_list(s, m + 1) {
                            Option::None => None,
                            Option::Some((rest, e)) => Some((seq![nm] + rest, e)),
                        }
                    } else if s[m] == ']' {
                        Some((seq![nm], m + 1))
                    } else {
                        None
                    }
                }
            },
        }
    }
}

/// A whole input document: whitespace, an array of entry objects, and
/// whitespace to the very end. Yields the entry names in document order, or
/// nothing when the text is not such a document.
pub open spec fn spec_parse_names(s: Seq<char>) -> Option<Seq<Seq<char>>> {
    let i = spec_skip_ws(s, 0);
    if !(0 <= i < s.len() && s[i] == '[') {
        None
    } else {
        let j = spec_skip_ws(s, i + 1);
        if !(i + 1 <= j < s.len()) {
            None
        } else if s[j] == ']' {
            if spec_skip_ws(s, j + 1) == s.len() {
                Some(Seq::empty())
            } else {
                None
            }
        } else {
            match spec_entry_list(s, i + 1) {
                Option::None => None,
                Option::Some((nms, e)) => {
                    if spec_skip_ws(s, e) == s.len() {
                        Some(nms)
                    } else {
                        None
                    }
                },
            }
        }
    }
}

/// Appending one decoded character keeps the accumulated prefix in front.
proof fn lemma_cons_assoc(acc: Seq<char>, d: char, t: Seq<char>)
    ensures
        acc + (seq![d] + t) == acc.push(d) + t,
{
    assert(acc + (seq![d] + t) =~= acc.push(d) + t);
}

/// Relies on char::from_u32: `Some` exactly for Unicode scalar values (not a
/// surrogate, at most 0x10FFFF), yielding the character with that code.
#[verifier::external_body]
fn char_from_u32(v: u32) -> (r: Option<char>)
    ensures
        r is Some <==> (v < 0xD800 || (0xE000 <= v && v <= 0x10FFFF)),
        r matches Some(c) ==> c as u32 == v,
{
    char::from_u32(v)
}

fn is_ws_exec(c: char) -> (r: bool)
    ensures
        r == is_ws_char(c),
{
    c == ' ' || c == '\t' || c == '\n' || c == '\r'
}

fn is_digit_exec(c: char) -> (r: bool)
    ensures
        r == is_digit(c),
{
    '0' <= c && c <= '9'
}

fn is_hex_digit_exec(c: char) -> (r: bool)
    ensures
        r == is_hex_digit(c),
{
    ('0' <= c && c <= '9') || ('a' <= c && c <= 'f') || ('A' <= c && c <= 'F')
}

fn hex_value_exec(c: char) -> (r: u32)
    requires
        is_hex_digit(c),
    ensures
        r == hex_value(c),
        r < 16,
{
    if '0' <= c && c <= '9' {
        c as u32 - '0' as u32
    } else if 'a' <= c && c <= 'f' {
        c as u32 - 'a' as u32 + 10
    } else {
        c as u32 - 'A' as u32 + 10
    }
}

fn short_escape(c: char) -> (r: Option<char>)
    ensures
        r == spec_short_escape(c),
{
    if c == '"' {
        Some('"')
    } else if c == '\\' {
        Some('\\')
    } else if c == '/' {
        Some('/')
    } else if c == 'b' {
        Some('\u{8}')
    } else if c == 'f' {
        Some('\u{c}')
    } else if c == 'n' {
        Some('\n')
    } else if c == 'r' {
        Some('\r')
    } else if c == 't' {
        Some('\t')
    } else {
        None
    }
}

fn skip_ws(s: &str, n: usize, i: usize) -> (r: usize)
    requires
        n == s@.len(),
        i <= n,
    ensures
        r as int == spec_skip_ws(s@, i as int),
        i <= r <= n,
        r < n ==> !is_ws_char(s@[r as int]),
{
    let mut k = i;
    loop
        invariant
            n == s@.len(),
            i <= k <= n,
            spec_skip_ws(s@, i as int) == spec_skip_ws(s@, k as int),
        decreases n - k,
    {
        if k >= n {
            return k;
        }
        if !is_ws_exec(s.get_char(k)) {
            return k;
        }
        k = k + 1;
    }
}

fn skip_digits(s: &str, n: usize, i: usize) -> (r: usize)
    requires
        n == s@.len(),
        i <= n,
    ensures
        r as int == spec_skip_digits(s@, i as int),
        i <= r <= n,
        r < n ==> !is_digit(s@[r as int]),
{
    let mut k = i;
    loop
        invariant
            n == s@.len(),
            i <= k <= n,
            spec_skip_digits(s@, i as int) == spec_skip_digits(s@, k as int),
        decreases n - k,
    {
        if k >= n {
            return k;
        }
        if !is_digit_exec(s.get_char(k)) {
            return k;
        }
        k = k + 1;
    }
}

fn hex4(s: &str, n: usize, i: usize) -> (r: Option<u32>)
    requires
        n == s@.len(),
        i <= n,
    ensures
        r is Some <==> spec_hex4(s@, i as int) is Some,
        r matches Some(v) ==> spec_hex4(s@, i as int) == Some(v as int) && v < 0x10000,
{
    if n - i < 4 {
        return None;
    }
    let c0 = s.get_char(i);
    let c1 = s.get_char(i + 1);
    let c2 = s.get_char(i + 2);
    let c3 = s.get_char(i + 3);
    if !(is_hex_digit_exec(c0) && is_hex_digit_exec(c1) && is_hex_digit_exec(c2)
        && is_hex_digit_exec(c3)) {
        return None;
    }
    let v = hex_value_exec(c0) * 0x1000 + hex_value_exec(c1) * 0x100 + hex_value_exec(c2) * 0x10
        + hex_value_exec(c3);
    Some(v)
}

/// Parses a string literal body from `i` (just after the opening quote),
/// decoding escapes, up to and past the closing quote.
fn string_body(s: &str, n: usize, i: usize) -> (r: Option<(String, usize)>)
    requires
        n == s@.len(),
        i <= n,
    ensures
        r is Some <==> spec_string_body(s@, i as int) is Some,
        r matches Some((t, j)) ==> spec_string_body(s@, i as int) == Some((t@, j as int)) && i < j
            <= n,
{
    let mut acc = String::new();
    let mut k = i;
    loop
        invariant
            n == s@.len(),
            i <= k <= n,
            spec_string_body(s@, i as int) == (match spec_string_body(s@, k as int) {
                Option::None => Option::<(Seq<char>, int)>::None,
                Option::Some((t, j)) => Option::Some((acc@ + t, j)),
            }),
        decreases n - k,
    {
        if k >= n {
            return None;
        }
        let c = s.get_char(k);
        if c == '"' {
            proof {
                assert(acc@ + Seq::<char>::empty() =~= acc@);
            }
            return Some((acc, k + 1));
        } else if c == '\\' {
            if n - k < 2 {
                return None;
            }
            let e = s.get_char(k + 1);
            if e == 'u' {
                let hv = hex4(s, n, k + 2);
                match hv {
                    Option::None => {
                        return None;
                    },
                    Option::Some(v) => {
                        if 0xD800 <= v && v < 0xDC00 {
                            if n - k >= 8 && s.get_char(k + 6) == '\\' && s.get_char(k + 7) == 'u' {
                                let hw = hex4(s, n, k + 8);
                                match hw {
                                    Option::None => {
                                        return None;
                                    },
                                    Option::Some(w) => {
                                        if 0xDC00 <= w && w < 0xE000 {
                                            let code: u32 = 0x10000 + (v - 0xD800) * 0x400 + (w
                                                - 0xDC00);
                                            let oc = char_from_u32(code);
                                            match oc {
                                                Option::Some(d) => {
                                                    proof {
                                                        vstd::utf8::char_u32_cast(d, code);
                                                        match spec_string_body(s@, k + 12) {
                                                            Option::Some((t, _j)) => {
                                                                lemma_cons_assoc(acc@, d, t);
                                                            },
                                                            Option::None => {},
                                                        }
                                                    }
                                                    push_char(&mut acc, d);
                                                    k = k + 12;
                                                },
                                                Option::None => {
                                                    proof {
                                                        assert(false);
                                                    }
                                                    return None;
                                                },
                                            }
                                        } else {
                                            return None;
                                        }
                                    },
                                }
                            } else {
                                return None;
                            }
                        } else if 0xDC00 <= v && v < 0xE000 {
                            return None;
                        } else {
                            let oc = char_from_u32(v);
                            match oc {
                                Option::Some(d) => {
                                    proof {
                                        vstd::utf8::char_u32_cast(d, v);
                                        match spec_string_body(s@, k + 6) {
                                            Option::Some((t, _j)) => {
                                                lemma_cons_assoc(acc@, d, t);
                                            },
                                            Option::None => {},
                                        }
                                    }
                                    push_char(&mut acc, d);
                                    k = k + 6;
                                },
                                Option::None => {
                                    proof {
                                        assert(false);
                                    }
                                    return None;
                                },
                            }
                        }
                    },
                }
            } else {
                let od = short_escape(e);
                match od {
                    Option::None => {
                        return None;
                    },
                    Option::Some(d) => {
                        proof {
                            match spec_string_body(s@, k + 2) {
                                Option::Some((t, _j)) => {
                                    lemma_cons_assoc(acc@, d, t);
                                },
                                Option::None => {},
                            }
                        }
                        push_char(&mut acc, d);
                        k = k + 2;
                    },
                }
            }
        } else if (c as u32) < 0x20 {
            return None;
        } else {
            proof {
                match spec_string_body(s@, k + 1) {
                    Option::Some((t, _j)) => {
                        lemma_cons_assoc(acc@, c, t);
                    },
                    Option::None => {},
                }
            }
            push_char(&mut acc, c);
            k = k + 1;
        }
    }
}

/// Scans a number token from `i`.
fn number_end(s: &str, n: usize, i: usize) -> (r: Option<usize>)
    requires
        n == s@.len(),
        i <= n,
    ensures
        r is Some <==> spec_number_end(s@, i as int) is Some,
        r matches Some(k) ==> spec_number_end(s@, i as int) == Some(k as int) && i < k <= n,
{
    if i >= n {
        return None;
    }
    let c0 = s.get_char(i);
    let j = if c0 == '-' {
        i + 1
    } else {
        i
    };
    if j >= n {
        return None;
    }
    let cj = s.get_char(j);
    if !is_digit_exec(cj) {
        return None;
    }
    let p = if cj == '0' {
        j + 1
    } else {
        skip_digits(s, n, j)
    };
    if p < n && s.get_char(p) == '.' {
        let f = skip_digits(s, n, p + 1);
        if f == p + 1 {
            return None;
        }
        number_exp(s, n, f)
    } else {
        number_exp(s, n, p)
    }
}

/// Scans the optional exponent part at `q`.
fn number_exp(s: &str, n: usize, q: usize) -> (r: Option<usize>)
    requires
        n == s@.len(),
        q <= n,
    ensures
        r is Some <==> spec_number_exp(s@, q as int) is Some,
        r matches Some(k) ==> spec_number_exp(s@, q as int) == Some(k as int) && q <= k <= n,
{
    if q < n && (s.get_char(q) == 'e' || s.get_char(q) == 'E') {
        let e0 = if q + 1 < n && (s.get_char(q + 1) == '+' || s.get_char(q + 1) == '-') {
            q + 2
        } else {
            q + 1
        };
        let g = skip_digits(s, n, e0);
        if g == e0 {
            return None;
        }
        Some(g)
    } else {
        Some(q)
    }
}

/// Scans one complete JSON value from `i`.
fn value_end(s: &str, n: usize, i: usize) -> (r: Option<usize>)
    requires
        n == s@.len(),
        i <= n,
    ensures
        r is Some <==> spec_value_end(s@, i as int) is Some,
        r matches Some(k) ==> spec_value_end(s@, i as int) == Some(k as int) && i < k <= n,
    decreases n - i, 0int,
{
    if i >= n {
        return None;
    }
    let c = s.get_char(i);
    if c == '"' {
        match string_body(s, n, i + 1) {
            Option::None => None,
            Option::Some((_t, j)) => Some(j),
        }
    } else if c == '-' || is_digit_exec(c) {
        number_end(s, n, i)
    } else if c == 'n' {
        if n - i >= 4 && s.get_char(i + 1) == 'u' && s.get_char(i + 2) == 'l' && s.get_char(i + 3)
            == 'l' {
            Some(i + 4)
        } else {
            None
        }
    } else if c == 't' {
        if n - i >= 4 && s.get_char(i + 1) == 'r' && s.get_char(i + 2) == 'u' && s.get_char(i + 3)
            == 'e' {
            Some(i + 4)
        } else {
            None
        }
    } else if c == 'f' {
        if n - i >= 5 && s.get_char(i + 1) == 'a' && s.get_char(i + 2) == 'l' && s.get_char(i + 3)
            == 's' && s.get_char(i + 4) == 'e' {
            Some(i + 5)
        } else {
            None
        }
    } else if c == '[' {
        array_start(s, n, i + 1)
    } else if c == '{' {
        object_start(s, n, i + 1)
    } else {
        None
    }
}

/// Scans the rest of an array whose `[` stood at `i - 1`.
fn array_start(s: &str, n: usize, i: usize) -> (r: Option<usize>)
    requires
        n == s@.len(),
        i <= n,
    ensures
        r is Some <==> spec_array_start(s@, i as int) is Some,
        r matches Some(k) ==> spec_array_start(s@, i as int) == Some(k as int) && i < k <= n,
    decreases n - i, 2int,
{
    let j = skip_ws(s, n, i);
    if j >= n {
        return None;
    }
    if s.get_char(j) == ']' {
        Some(j + 1)
    } else {
        array_items(s, n, j)
    }
}

/// Scans one or more comma-separated array items and the closing `]`.
fn array_items(s: &str, n: usize, i: usize) -> (r: Option<usize>)
    requires
        n == s@.len(),
        i <= n,
    ensures
        r is Some <==> spec_array_items(s@, i as int) is Some,
        r matches Some(k) ==> spec_array_items(s@, i as int) == Some(k as int) && i < k <= n,
    decreases n - i, 1int,
{
    let j = skip_ws(s, n, i);
    match value_end(s, n, j) {
        Option::None => None,
        Option::Some(k) => {
            let m = skip_ws(s, n, k);
            if m >= n {
                return None;
            }
            let cm = s.get_char(m);
            if cm == ',' {
                array_items(s, n, m + 1)
            } else if cm == ']' {
                Some(m + 1)
            } else {
                None
            }
        },
    }
}

/// Scans the rest of an object whose `{` stood at `i - 1`.
fn object_start(s: &str, n: usize, i: usize) -> (r: Option<usize>)
    requires
        n == s@.len(),
        i <= n,
    ensures
        r is Some <==> spec_object_start(s@, i as int) is Some,
        r matches Some(k) ==> spec_object_start(s@, i as int) == Some(k as int) && i < k <= n,
    decreases n - i, 2int,
{
    let j = skip_ws(s, n, i);
    if j >= n {
        return None;
    }
    if s.get_char(j) == '}' {
        Some(j + 1)
    } else {
        object_members(s, n, j)
    }
}

/// Scans one or more comma-separated object members and the closing `}`.
fn object_members(s: &str, n: usize, i: usize) -> (r: Option<usize>)
    requires
        n == s@.len(),
        i <= n,
    ensures
        r is Some <==> spec_object_members(s@, i as int) is Some,
        r matches Some(k) ==> spec_object_members(s@, i as int) == Some(k as int) && i < k <= n,
    decreases n - i, 1int,
{
    let j = skip_ws(s, n, i);
    if j >= n || s.get_char(j) != '"' {
        return None;
    }
    match string_body(s, n, j + 1) {
        Option::None => None,
        Option::Some((_key, k)) => {
            let m = skip_ws(s, n, k);
            if m >= n || s.get_char(m) != ':' {
                return None;
            }
            let v = skip_ws(s, n, m + 1);
            match value_end(s, n, v) {
                Option::None => None,
                Option::Some(e) => {
                    let t = skip_ws(s, n, e);
                    if t >= n {
                        return None;
                    }
                    let ct = s.get_char(t);
                    if ct == ',' {
                        object_members(s, n, t + 1)
                    } else if ct == '}' {
                        Some(t + 1)
                    } else {
                        None
                    }
                },
            }
        },
    }
}

/// The name an optional owned string stands for.
pub open spec fn name_view(o: Option<String>) -> Option<Seq<char>> {
    match o {
        Option::None => Option::None,
        Option::Some(nm) => Option::Some(nm@),
    }
}

/// Scans the members of an entry object, carrying the `"name"` value seen.
fn entry_members(s: &str, n: usize, i: usize, name: Option<String>) -> (r: Option<(String, usize)>)
    requires
        n == s@.len(),
        i <= n,
    ensures
        r is Some <==> spec_entry_members(s@, i as int, name_view(name)) is Some,
        r matches Some((nm, e)) ==> spec_entry_members(s@, i as int, name_view(name)) == Some(
            (nm@, e as int),
        ) && i < e <= n,
    decreases n - i, 1int,
{
    let j = skip_ws(s, n, i);
    if j >= n || s.get_char(j) != '"' {
        return None;
    }
    match string_body(s, n, j + 1) {
        Option::None => None,
        Option::Some((key, k)) => {
            let m = skip_ws(s, n, k);
            if m >= n || s.get_char(m) != ':' {
                return None;
            }
            let v = skip_ws(s, n, m + 1);
            if crate::text::str_eq(key.as_str(), "name") {
                if name.is_some() {
                    return None;
                }
                if v >= n || s.get_char(v) != '"' {
                    return None;
                }
                match string_body(s, n, v + 1) {
                    Option::None => None,
                    Option::Some((nm, e)) => entry_after_member(s, n, e, Some(nm)),
                }
            } else {
                match value_end(s, n, v) {
                    Option::None => None,
                    Option::Some(e) => entry_after_member(s, n, e, name),
                }
            }
        },
    }
}

/// After one member of an entry object: a comma continues, a `}` closes and
/// yields the name, which must have been seen.
fn entry_after_member(s: &str, n: usize, i: usize, name: Option<String>) -> (r: Option<
    (String, usize),
>)
    requires
        n == s@.len(),
        i <= n,
    ensures
        r is Some <==> spec_entry_after_member(s@, i as int, name_view(name)) is Some,
        r matches Some((nm, e)) ==> spec_entry_after_member(s@, i as int, name_view(name)) == Some(
            (nm@, e as int),
        ) && i < e <= n,
    decreases n - i, 0int,
{
    let t = skip_ws(s, n, i);
    if t >= n {
        return None;
    }
    let ct = s.get_char(t);
    if ct == ',' {
        entry_members(s, n, t + 1, name)
    } else if ct == '}' {
        match name {
            Option::Some(nm) => Some((nm, t + 1)),
            Option::None => None,
        }
    } else {
        None
    }
}

/// Scans one entry object from `i`.
fn entry_object(s: &str, n: usize, i: usize) -> (r: Option<(String, usize)>)
    requires
        n == s@.len(),
        i <= n,
    ensures
        r is Some <==> spec_entry_object(s@, i as int) is Some,
        r matches Some((nm, e)) ==> spec_entry_object(s@, i as int) == Some((nm@, e as int)) && i
            < e <= n,
{
    if i >= n || s.get_char(i) != '{' {
        return None;
    }
    entry_members(s, n, i + 1, None)
}

/// Scans one or more comma-separated entry objects and the closing `]`,
/// collecting the names in document order.
fn entry_list(s: &str, n: usize, i: usize) -> (r: Option<(Vec<String>, usize)>)
    requires
        n == s@.len(),
        i <= n,
    ensures
        r is Some <==> spec_entry_list(s@, i as int) is Some,
        r matches Some((nms, e)) ==> spec_entry_list(s@, i as int) == Some(
            (nms@.map_values(|x: String| x@), e as int),
        ) && i < e <= n,
    decreases n - i,
{
    let j = skip_ws(s, n, i);
    match entry_object(s, n, j) {
        Option::None => None,
        Option::Some((nm, k)) => {
            let m = skip_ws(s, n, k);
            if m >= n {
                return None;
            }
            let cm = s.get_char(m);
            if cm == ',' {
                match entry_list(s, n, m + 1) {
                    Option::None => None,
                    Option::Some((mut rest, e)) => {
                        proof {
                            assert(rest@.insert(0, nm).map_values(|x: String| x@) =~= seq![nm@]
                                + rest@.map_values(|x: String| x@));
                        }
                        rest.insert(0, nm);
                        Some((rest, e))
                    },
                }
            } else if cm == ']' {
                let mut one: Vec<String> = Vec::new();
                one.push(nm);
                proof {
                    assert(one@.map_values(|x: String| x@) =~= seq![nm@]);
                }
                Some((one, m + 1))
            } else {
                None
            }
        },
    }
}

/// Parses a whole input document: a JSON array of objects, each carrying
/// exactly one `"name"` member with a string value. Returns the names in
/// document order; fails with `ParseError` exactly when the text is not
/// such a document.
pub fn parse_names(s: &str) -> (r: Result<Vec<String>, ParseError>)
    ensures
        r is Ok <==> spec_parse_names(s@) is Some,
        r matches Ok(v) ==> spec_parse_names(s@) == Some(v@.map_values(|x: String| x@)),
{
    let n = s.unicode_len();
    let i = skip_ws(s, n, 0);
    if i >= n || s.get_char(i) != '[' {
        return Err(ParseError);
    }
    let j = skip_ws(s, n, i + 1);
    if j >= n {
        return Err(ParseError);
    }
    if s.get_char(j) == ']' {
        if skip_ws(s, n, j + 1) == n {
            let empty: Vec<String> = Vec::new();
            proof {
                assert(empty@.map_values(|x: String| x@) =~= Seq::<Seq<char>>::empty());
            }
            Ok(empty)
        } else {
            Err(ParseError)
        }
    } else {
        match entry_list(s, n, i + 1) {
            Option::None => Err(ParseError),
            Option::Some((nms, e)) => {
                if skip_ws(s, n, e) == n {
                    Ok(nms)
                } else {
                    Err(ParseError)
                }
            },
        }
    }
}

} // verus!
