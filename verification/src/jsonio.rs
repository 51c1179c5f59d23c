//! The storage representation of the embedded lists: mirrors and screenshots
//! are kept in the release row as JSON text. The writer produces it here,
//! verified against a spec-level definition of the format, so what reaches
//! the store is pinned down to the character.

use vstd::prelude::*;

use crate::release::{Link, LinkView, Mirror, MirrorView};

verus! {

/// The lower-case hex digit of a value below sixteen.
pub open spec fn hex_char(n: int) -> char {
    if n < 10 {
        (((48 + n) as u8) as char)
    } else {
        (((87 + n) as u8) as char)
    }
}

/// The escape of one character inside a JSON string: quote and backslash are
/// escaped, the named control characters take their short forms, other
/// control characters take the four-digit form, everything else stands as is.
pub open spec fn esc_json_char(c: char) -> Seq<char> {
    if c == '"' {
        seq!['\\', '"']
    } else if c == '\\' {
        seq!['\\', '\\']
    } else if c == '\n' {
        seq!['\\', 'n']
    } else if c == '\r' {
        seq!['\\', 'r']
    } else if c == '\t' {
        seq!['\\', 't']
    } else if c == '\u{8}' {
        seq!['\\', 'b']
    } else if c == '\u{c}' {
        seq!['\\', 'f']
    } else if (c as u32) < 32 {
        seq!['\\', 'u', '0', '0', hex_char((c as u32) as int / 16), hex_char((c as u32) as int % 16)]
    } else {
        seq![c]
    }
}

/// The escaped body of the first `j` characters of a JSON string.
pub open spec fn json_body(s: Seq<char>, j: int) -> Seq<char>
    decreases j,
{
    if j <= 0 {
        Seq::empty()
    } else {
        json_body(s, j - 1) + esc_json_char(s[j - 1])
    }
}

/// A JSON string: the escaped body between quotes.
pub open spec fn json_string(s: Seq<char>) -> Seq<char> {
    seq!['"'] + json_body(s, s.len() as int) + seq!['"']
}

/// The comma-joined items of a JSON array body, over the first `j` items.
pub open spec fn json_items(parts: Seq<Seq<char>>, j: int) -> Seq<char>
    decreases j,
{
    if j <= 0 {
        Seq::empty()
    } else if j == 1 {
        parts[0]
    } else {
        json_items(parts, j - 1) + seq![','] + parts[j - 1]
    }
}

/// A JSON array of the given serialized items.
pub open spec fn json_array(parts: Seq<Seq<char>>) -> Seq<char> {
    seq!['['] + json_items(parts, parts.len() as int) + seq![']']
}

/// The JSON array of a list of strings.
pub open spec fn json_strings_spec(items: Seq<Seq<char>>) -> Seq<char> {
    json_array(items.map_values(|s: Seq<char>| json_string(s)))
}

/// The JSON object of one link: its name and its target.
pub open spec fn json_link(l: LinkView) -> Seq<char> {
    seq!['{', '"', 'n', 'a', 'm', 'e', '"', ':'] + json_string(l.name) + seq![
        ',',
        '"',
        'l',
        'i',
        'n',
        'k',
        '"',
        ':',
    ] + json_string(l.link) + seq!['}']
}

/// The JSON object of one mirror: its list of links.
pub open spec fn json_mirror(m: MirrorView) -> Seq<char> {
    seq!['{', '"', 'l', 'i', 'n', 'k', 's', '"', ':'] + json_array(
        m.links.map_values(|l: LinkView| json_link(l)),
    ) + seq!['}']
}

/// The JSON array of a list of mirrors.
pub open spec fn json_mirrors_spec(mirrors: Seq<MirrorView>) -> Seq<char> {
    json_array(mirrors.map_values(|m: MirrorView| json_mirror(m)))
}

/// Appends one JSON-escaped character to `out`.
fn push_esc_json(out: &mut Vec<char>, c: char)
    ensures
        final(out)@ == old(out)@ + esc_json_char(c),
{
    if c == '"' {
        out.push('\\');
        out.push('"');
    } else if c == '\\' {
        out.push('\\');
        out.push('\\');
    } else if c == '\n' {
        out.push('\\');
        out.push('n');
    } else if c == '\r' {
        out.push('\\');
        out.push('r');
    } else if c == '\t' {
        out.push('\\');
        out.push('t');
    } else if c == '\u{8}' {
        out.push('\\');
        out.push('b');
    } else if c == '\u{c}' {
        out.push('\\');
        out.push('f');
    } else if (c as u32) < 32 {
        out.push('\\');
        out.push('u');
        out.push('0');
        out.push('0');
        let n: u32 = c as u32;
        let hi: u32 = n / 16;
        let lo: u32 = n % 16;
        let hic: char = if hi < 10 {
            ((48 + hi as u8) as char)
        } else {
            ((87 + hi as u8) as char)
        };
        let loc: char = if lo < 10 {
            ((48 + lo as u8) as char)
        } else {
            ((87 + lo as u8) as char)
        };
        out.push(hic);
        out.push(loc);
    } else {
        out.push(c);
    }
    proof {
        assert(out@ =~= old(out)@ + esc_json_char(c));
    }
}

/// Appends a JSON string for `s` to `out`.
fn push_json_string(out: &mut Vec<char>, s: &str)
    ensures
        final(out)@ == old(out)@ + json_string(s@),
{
    let n: usize = s.unicode_len();
    out.push('"');
    let mut i: usize = 0;
    while i < n
        invariant
            i <= n,
            n == s@.len(),
            out@ == old(out)@ + seq!['"'] + json_body(s@, i as int),
        decreases n - i,
    {
        let c = s.get_char(i);
        push_esc_json(out, c);
        i = i + 1;
        assert(out@ =~= old(out)@ + seq!['"'] + json_body(s@, i as int));
    }
    out.push('"');
    proof {
        assert(out@ =~= old(out)@ + json_string(s@));
    }
}

/// The JSON text stored for a list of screenshot sources.
pub fn screenshots_json(items: &Vec<String>) -> (r: String)
    ensures
        r@ == json_strings_spec(items.deep_view()),
{
    let ghost iv = items.deep_view();
    let ghost parts = iv.map_values(|s: Seq<char>| json_string(s));
    let mut out: Vec<char> = Vec::new();
    out.push('[');
    let mut i: usize = 0;
    while i < items.len()
        invariant
            i <= items@.len(),
            iv == items.deep_view(),
            iv.len() == items@.len(),
            parts == iv.map_values(|s: Seq<char>| json_string(s)),
            out@ == seq!['['] + json_items(parts, i as int),
        decreases items@.len() - i,
    {
        proof {
            assert(items.deep_view()[i as int] == items@[i as int]@);
        }
        if i > 0 {
            out.push(',');
        }
        push_json_string(&mut out, items[i].as_str());
        i = i + 1;
        proof {
            assert(parts[i - 1] == json_string(iv[i - 1]));
            assert(out@ =~= seq!['['] + json_items(parts, i as int));
        }
    }
    out.push(']');
    proof {
        assert(out@ =~= json_strings_spec(iv));
    }
    crate::strutil::string_from_chars(out.as_slice())
}

/// Appends the JSON object of one mirror to `out`.
#[verifier::rlimit(100)]
fn push_json_mirror(out: &mut Vec<char>, m: &Mirror)
    ensures
        final(out)@ == old(out)@ + json_mirror(m@),
{
    let ghost lv = m.links.deep_view();
    let ghost parts = lv.map_values(|l: LinkView| json_link(l));
    out.push('{');
    out.push('"');
    out.push('l');
    out.push('i');
    out.push('n');
    out.push('k');
    out.push('s');
    out.push('"');
    out.push(':');
    out.push('[');
    let ghost head = old(out)@ + seq!['{', '"', 'l', 'i', 'n', 'k', 's', '"', ':', '['];
    proof {
        assert(out@ =~= head + json_items(parts, 0));
    }
    let mut i: usize = 0;
    while i < m.links.len()
        invariant
            i <= m.links@.len(),
            lv == m.links.deep_view(),
            lv.len() == m.links@.len(),
            parts == lv.map_values(|l: LinkView| json_link(l)),
            out@ == head + json_items(parts, i as int),
        decreases m.links@.len() - i,
    {
        proof {
            assert(m.links.deep_view()[i as int] == m.links@[i as int]@);
        }
        if i > 0 {
            out.push(',');
        }
        out.push('{');
        out.push('"');
        out.push('n');
        out.push('a');
        out.push('m');
        out.push('e');
        out.push('"');
        out.push(':');
        push_json_string(out, m.links[i].name.as_str());
        out.push(',');
        out.push('"');
        out.push('l');
        out.push('i');
        out.push('n');
        out.push('k');
        out.push('"');
        out.push(':');
        push_json_string(out, m.links[i].link.as_str());
        out.push('}');
        i = i + 1;
        proof {
            assert(parts[i - 1] == json_link(lv[i - 1]));
            assert(out@ =~= head + json_items(parts, i as int));
        }
    }
    out.push(']');
    out.push('}');
    proof {
        assert(out@ =~= old(out)@ + json_mirror(m@));
    }
}

/// The JSON text stored for a list of mirrors.
pub fn mirrors_json(mirrors: &Vec<Mirror>) -> (r: String)
    ensures
        r@ == json_mirrors_spec(mirrors.deep_view()),
{
    let ghost mv = mirrors.deep_view();
    let ghost parts = mv.map_values(|m: MirrorView| json_mirror(m));
    let mut out: Vec<char> = Vec::new();
    out.push('[');
    let mut i: usize = 0;
    while i < mirrors.len()
        invariant
            i <= mirrors@.len(),
            mv == mirrors.deep_view(),
            mv.len() == mirrors@.len(),
            parts == mv.map_values(|m: MirrorView| json_mirror(m)),
            out@ == seq!['['] + json_items(parts, i as int),
        decreases mirrors@.len() - i,
    {
        proof {
            assert(mirrors.deep_view()[i as int] == mirrors@[i as int]@);
        }
        if i > 0 {
            out.push(',');
        }
        push_json_mirror(&mut out, &mirrors[i]);
        i = i + 1;
        proof {
            assert(parts[i - 1] == json_mirror(mv[i - 1]));
            assert(out@ =~= seq!['['] + json_items(parts, i as int));
        }
    }
    out.push(']');
    proof {
        assert(out@ =~= json_mirrors_spec(mv));
    }
    crate::strutil::string_from_chars(out.as_slice())
}

/// The character an escape code names, if it is a known one-letter escape.
pub open spec fn unesc_code(c: char) -> Option<char> {
    if c == '"' {
        Some('"')
    } else if c == '\\' {
        Some('\\')
    } else if c == 'n' {
        Some('\n')
    } else if c == 'r' {
        Some('\r')
    } else if c == 't' {
        Some('\t')
    } else if c == 'b' {
        Some('\u{8}')
    } else if c == 'f' {
        Some('\u{c}')
    } else {
        None
    }
}

/// The value of a lower-case hex digit, sixteen where it is none.
pub open spec fn hex_val(c: char) -> int {
    if '0' <= c && c <= '9' {
        (c as u32) - 48
    } else if 'a' <= c && c <= 'f' {
        (c as u32) - 87
    } else {
        16
    }
}

/// Reads a string body from position `i` up to its closing quote: the decoded
/// characters and the position after the quote.
pub open spec fn parse_body(s: Seq<char>, i: int) -> Option<(Seq<char>, int)>
    decreases s.len() - i,
    when 0 <= i
{
    if i >= s.len() {
        None
    } else if s[i] == '"' {
        Some((Seq::empty(), i + 1))
    } else if s[i] == '\\' {
        if i + 1 >= s.len() {
            None
        } else if s[i + 1] == 'u' {
            if i + 6 > s.len() || s[i + 2] != '0' || s[i + 3] != '0' || hex_val(s[i + 4]) >= 16
                || hex_val(s[i + 5]) >= 16 {
                None
            } else {
                let code = hex_val(s[i + 4]) * 16 + hex_val(s[i + 5]);
                match parse_body(s, i + 6) {
                    Some(t) => Some((seq![((code as u8) as char)] + t.0, t.1)),
                    None => None,
                }
            }
        } else {
            match unesc_code(s[i + 1]) {
                Some(c) => match parse_body(s, i + 2) {
                    Some(t) => Some((seq![c] + t.0, t.1)),
                    None => None,
                },
                None => None,
            }
        }
    } else {
        match parse_body(s, i + 1) {
            Some(t) => Some((seq![s[i]] + t.0, t.1)),
            None => None,
        }
    }
}

/// Reads a quoted string at position `i`.
pub open spec fn parse_str_at(s: Seq<char>, i: int) -> Option<(Seq<char>, int)> {
    if 0 <= i < s.len() && s[i] == '"' {
        parse_body(s, i + 1)
    } else {
        None
    }
}

/// The read position never moves backwards.
proof fn lemma_parse_body_advances(s: Seq<char>, i: int)
    requires
        0 <= i,
    ensures
        match parse_body(s, i) {
            Some(t) => i < t.1 <= s.len(),
            None => true,
        },
    decreases s.len() - i,
{
    if i >= s.len() {
    } else if s[i] == '"' {
    } else if s[i] == '\\' {
        if i + 1 >= s.len() {
        } else if s[i + 1] == 'u' {
            if i + 6 > s.len() || s[i + 2] != '0' || s[i + 3] != '0' || hex_val(s[i + 4]) >= 16
                || hex_val(s[i + 5]) >= 16 {
            } else {
                lemma_parse_body_advances(s, i + 6);
            }
        } else {
            lemma_parse_body_advances(s, i + 2);
        }
    } else {
        lemma_parse_body_advances(s, i + 1);
    }
}

/// Reads a string body in executable code.
fn parse_body_exec(s: &Vec<char>, i: usize) -> (r: Option<(Vec<char>, usize)>)
    ensures
        match r {
            Some(t) => parse_body(s@, i as int) == Some((t.0@, t.1 as int)) && i < t.1 <= s@.len(),
            None => parse_body(s@, i as int) is None,
        },
    decreases s@.len() - i,
{
    proof {
        lemma_parse_body_advances(s@, i as int);
    }
    let n: usize = s.len();
    if i >= n {
        return None;
    }
    let c = s[i];
    if c == '"' {
        return Some((Vec::new(), i + 1));
    }
    if c == '\\' {
        if i + 1 >= n {
            return None;
        }
        let e = s[i + 1];
        if e == 'u' {
            if n - i < 6 || s[i + 2] != '0' || s[i + 3] != '0' {
                return None;
            }
            let hi = hex_val_exec(s[i + 4]);
            let lo = hex_val_exec(s[i + 5]);
            if hi >= 16 || lo >= 16 {
                return None;
            }
            let code: u32 = hi * 16 + lo;
            match parse_body_exec(s, i + 6) {
                Some((tail, j)) => {
                    let mut out: Vec<char> = Vec::new();
                    out.push(((code as u8) as char));
                    append_chars(&mut out, &tail);
                    proof {
                        assert(out@ =~= seq![((code as u8) as char)] + tail@);
                    }
                    return Some((out, j));
                },
                None => {
                    return None;
                },
            }
        }
        let decoded: char = if e == '"' {
            '"'
        } else if e == '\\' {
            '\\'
        } else if e == 'n' {
            '\n'
        } else if e == 'r' {
            '\r'
        } else if e == 't' {
            '\t'
        } else if e == 'b' {
            '\u{8}'
        } else if e == 'f' {
            '\u{c}'
        } else {
            return None;
        };
        match parse_body_exec(s, i + 2) {
            Some((tail, j)) => {
                let mut out: Vec<char> = Vec::new();
                out.push(decoded);
                append_chars(&mut out, &tail);
                proof {
                    assert(out@ =~= seq![decoded] + tail@);
                }
                Some((out, j))
            },
            None => None,
        }
    } else {
        match parse_body_exec(s, i + 1) {
            Some((tail, j)) => {
                let mut out: Vec<char> = Vec::new();
                out.push(c);
                append_chars(&mut out, &tail);
                proof {
                    assert(out@ =~= seq![c] + tail@);
                }
                Some((out, j))
            },
            None => None,
        }
    }
}

/// The value of a lower-case hex digit, sixteen where it is none.
fn hex_val_exec(c: char) -> (r: u32)
    ensures
        r as int == hex_val(c),
{
    if '0' <= c && c <= '9' {
        (c as u32) - 48
    } else if 'a' <= c && c <= 'f' {
        (c as u32) - 87
    } else {
        16
    }
}

/// Appends the characters of `src` to `dst`.
fn append_chars(dst: &mut Vec<char>, src: &Vec<char>)
    ensures
        final(dst)@ == old(dst)@ + src@,
{
    let mut i: usize = 0;
    while i < src.len()
        invariant
            i <= src@.len(),
            dst@ == old(dst)@ + src@.subrange(0, i as int),
        decreases src@.len() - i,
    {
        dst.push(src[i]);
        i = i + 1;
        assert(dst@ =~= old(dst)@ + src@.subrange(0, i as int));
    }
    assert(dst@ =~= old(dst)@ + src@);
}

/// Reads the items of a non-empty string array from position `i`: one
/// string, then either a comma and more items or the closing bracket.
pub open spec fn parse_str_items(s: Seq<char>, i: int) -> Option<(Seq<Seq<char>>, int)>
    decreases s.len() - i,
    when 0 <= i
    via parse_str_items_dec
{
    match parse_str_at(s, i) {
        Some(t) => {
            if t.1 < s.len() && s[t.1] == ',' {
                match parse_str_items(s, t.1 + 1) {
                    Some(rest) => Some((seq![t.0] + rest.0, rest.1)),
                    None => None,
                }
            } else if t.1 < s.len() && s[t.1] == ']' {
                Some((seq![t.0], t.1 + 1))
            } else {
                None
            }
        },
        None => None,
    }
}

#[via_fn]
proof fn parse_str_items_dec(s: Seq<char>, i: int) {
    if 0 <= i < s.len() && s[i] == '"' {
        lemma_parse_body_advances(s, i + 1);
    }
}

/// Reads a whole string array: the text must be exactly one array.
pub open spec fn parse_strings_spec(s: Seq<char>) -> Option<Seq<Seq<char>>> {
    if s.len() == 2 && s[0] == '[' && s[1] == ']' {
        Some(Seq::empty())
    } else if s.len() > 0 && s[0] == '[' {
        match parse_str_items(s, 1) {
            Some(t) => if t.1 == s.len() {
                Some(t.0)
            } else {
                None
            },
            None => None,
        }
    } else {
        None
    }
}

/// Reads the items of a non-empty string array in executable code.
fn parse_str_items_exec(s: &Vec<char>, i: usize) -> (r: Option<(Vec<Vec<char>>, usize)>)
    ensures
        match r {
            Some(t) => parse_str_items(s@, i as int) == Some((t.0.deep_view(), t.1 as int)),
            None => parse_str_items(s@, i as int) is None,
        },
    decreases s@.len() - i,
{
    let n: usize = s.len();
    if i >= n || s[i] != '"' {
        return None;
    }
    match parse_body_exec(s, i + 1) {
        Some((piece, j)) => {
            proof {
                assert(parse_str_at(s@, i as int) == Some((piece@, j as int)));
            }
            if j < n && s[j] == ',' {
                match parse_str_items_exec(s, j + 1) {
                    Some((rest, end)) => {
                        let out = prepend_piece(piece, rest);
                        Some((out, end))
                    },
                    None => None,
                }
            } else if j < n && s[j] == ']' {
                let mut out: Vec<Vec<char>> = Vec::new();
                out.push(piece);
                proof {
                    assert(out.deep_view() =~~= seq![out@[0]@]);
                }
                Some((out, j + 1))
            } else {
                None
            }
        },
        None => None,
    }
}

/// A list with one piece put before the others.
fn prepend_piece(piece: Vec<char>, rest: Vec<Vec<char>>) -> (r: Vec<Vec<char>>)
    ensures
        r.deep_view() == seq![piece@] + rest.deep_view(),
{
    let mut out: Vec<Vec<char>> = Vec::new();
    let ghost pv = piece@;
    out.push(piece);
    let mut k: usize = 0;
    while k < rest.len()
        invariant
            k <= rest@.len(),
            out@.len() == 1 + k,
            out.deep_view()[0] == pv,
            forall|q: int| 0 <= q < k ==> out.deep_view()[q + 1] == rest.deep_view()[q],
        decreases rest@.len() - k,
    {
        let item = crate::strutil::sub_chars(&rest[k], 0, rest[k].len());
        proof {
            assert(item@ =~= rest@[k as int]@);
        }
        let ghost prev = out.deep_view();
        out.push(item);
        proof {
            assert(forall|q: int| 0 <= q < prev.len() ==> #[trigger] out.deep_view()[q] == prev[q]);
            assert(out.deep_view()[prev.len() as int] == item@);
            assert(rest.deep_view()[k as int] == rest@[k as int]@);
        }
        k = k + 1;
    }
    proof {
        assert(out.deep_view() =~~= seq![pv] + rest.deep_view());
    }
    out
}

/// Reads the stored screenshots JSON back into the list of sources, exactly
/// the inverse of what the serializer wrote.
pub fn parse_screenshots_json(text: &str) -> (r: Option<Vec<String>>)
    ensures
        match r {
            Some(items) => parse_strings_spec(text@) == Some(items.deep_view()),
            None => parse_strings_spec(text@) is None,
        },
{
    let s = crate::strutil::chars_vec(text);
    let n: usize = s.len();
    if n == 2 && s[0] == '[' && s[1] == ']' {
        let out: Vec<String> = Vec::new();
        proof {
            assert(out.deep_view() =~~= Seq::<Seq<char>>::empty());
        }
        return Some(out);
    }
    if n == 0 || s[0] != '[' {
        return None;
    }
    match parse_str_items_exec(&s, 1) {
        Some((pieces, end)) => {
            if end == n {
                Some(crate::strutil::strings_of_pieces(&pieces))
            } else {
                None
            }
        },
        None => None,
    }
}

/// One position of a matched subrange, read back from the whole sequence.
proof fn lemma_subrange_at(s: Seq<char>, i: int, whole: Seq<char>, off: int)
    requires
        0 <= i,
        i + whole.len() <= s.len(),
        s.subrange(i, i + whole.len() as int) == whole,
        0 <= off < whole.len(),
    ensures
        s[i + off] == whole[off],
{
    assert(s.subrange(i, i + whole.len() as int)[off] == s[i + off]);
}

/// A piece of a matched subrange is itself a matched subrange.
proof fn lemma_subrange_split(s: Seq<char>, i: int, whole: Seq<char>, off: int, piece: Seq<char>)
    requires
        0 <= i,
        i + whole.len() <= s.len(),
        s.subrange(i, i + whole.len() as int) == whole,
        0 <= off,
        off + piece.len() <= whole.len(),
        forall|k: int| 0 <= k < piece.len() ==> piece[k] == whole[off + k],
    ensures
        s.subrange(i + off, i + off + piece.len() as int) == piece,
{
    assert forall|k: int|
        0 <= k < piece.len() implies s.subrange(i + off, i + off + piece.len() as int)[k]
        == piece[k] by {
        assert(s.subrange(i, i + whole.len() as int)[off + k] == s[i + off + k]);
        assert(s.subrange(i + off, i + off + piece.len() as int)[k] == s[i + off + k]);
    };
    assert(s.subrange(i + off, i + off + piece.len() as int) =~= piece);
}

/// The escaped body, seen from the front: the first character's escape, then
/// the rest of the body.
proof fn lemma_json_body_front(s: Seq<char>, j: int)
    requires
        1 <= j <= s.len(),
    ensures
        json_body(s, j) =~= esc_json_char(s[0]) + json_body(s.drop_first(), j - 1),
    decreases j,
{
    if j == 1 {
        assert(json_body(s, 0) =~= Seq::<char>::empty());
        assert(json_body(s.drop_first(), 0) =~= Seq::<char>::empty());
    } else {
        lemma_json_body_front(s, j - 1);
        assert(s.drop_first()[j - 2] == s[j - 1]);
    }
}

/// A hex digit written by the serializer reads back to its value.
proof fn lemma_hex_roundtrip(n: int)
    requires
        0 <= n < 16,
    ensures
        hex_val(hex_char(n)) == n,
{
    if n < 10 {
        assert((((48 + n) as u8) as char) as u32 == 48 + n);
    } else {
        assert((((87 + n) as u8) as char) as u32 == 87 + n);
    }
}

/// Reading right after one serialized character prepends that character.
proof fn lemma_parse_esc(s: Seq<char>, i: int, c: char, t: Seq<char>, j: int)
    requires
        0 <= i,
        i + esc_json_char(c).len() <= s.len(),
        s.subrange(i, i + esc_json_char(c).len() as int) == esc_json_char(c),
        parse_body(s, i + esc_json_char(c).len() as int) == Some((t, j)),
    ensures
        parse_body(s, i) == Some((seq![c] + t, j)),
{
    let e = esc_json_char(c);
    if c == '"' || c == '\\' || c == '\n' || c == '\r' || c == '\t' || c == '\u{8}' || c
        == '\u{c}' {
        lemma_subrange_at(s, i, e, 0);
        lemma_subrange_at(s, i, e, 1);
        assert(unesc_code(s[i + 1]) == Some(c));
    } else if (c as u32) < 32 {
        lemma_subrange_at(s, i, e, 0);
        lemma_subrange_at(s, i, e, 1);
        lemma_subrange_at(s, i, e, 2);
        lemma_subrange_at(s, i, e, 3);
        lemma_subrange_at(s, i, e, 4);
        lemma_subrange_at(s, i, e, 5);
        let cc = (c as u32) as int;
        assert(0 <= cc < 32);
        lemma_hex_roundtrip(cc / 16);
        lemma_hex_roundtrip(cc % 16);
        assert(hex_val(s[i + 4]) == cc / 16);
        assert(hex_val(s[i + 5]) == cc % 16);
        assert(cc / 16 * 16 + cc % 16 == cc) by (nonlinear_arith)
            requires
                0 <= cc < 32,
        ;
        assert(hex_val(s[i + 4]) * 16 + hex_val(s[i + 5]) == cc);
        assert(((cc as u8) as char) == c);
    } else {
        lemma_subrange_at(s, i, e, 0);
        assert(s[i] == c);
    }
}

/// Reading a serialized body followed by its closing quote yields back the
/// characters that were serialized.
proof fn lemma_parse_body_round(v: Seq<char>, s: Seq<char>, i: int)
    requires
        0 <= i,
        i + json_body(v, v.len() as int).len() + 1 <= s.len(),
        s.subrange(i, i + json_body(v, v.len() as int).len() + 1) == json_body(
            v,
            v.len() as int,
        ) + seq!['"'],
    ensures
        parse_body(s, i) == Some((v, i + json_body(v, v.len() as int).len() + 1)),
    decreases v.len(),
{
    let body = json_body(v, v.len() as int);
    let whole = body + seq!['"'];
    if v.len() == 0 {
        assert(body =~= Seq::<char>::empty());
        lemma_subrange_at(s, i, whole, 0);
        assert(s[i] == '"');
        assert(v =~= Seq::<char>::empty());
    } else {
        lemma_json_body_front(v, v.len() as int);
        let e = esc_json_char(v[0]);
        let rest = v.drop_first();
        let rest_body = json_body(rest, rest.len() as int);
        assert(body =~= e + rest_body);
        lemma_subrange_split(s, i, whole, 0, e);
        assert(s.subrange(i, i + e.len() as int) == e);
        let tail = rest_body + seq!['"'];
        assert(forall|k: int| 0 <= k < tail.len() ==> tail[k] == whole[e.len() + k]);
        lemma_subrange_split(s, i, whole, e.len() as int, tail);
        lemma_parse_body_round(rest, s, i + e.len());
        lemma_parse_esc(s, i, v[0], rest, i + e.len() + rest_body.len() + 1);
        assert(seq![v[0]] + rest =~= v);
    }
}

/// Reading a serialized string yields back the string.
proof fn lemma_parse_string_round(v: Seq<char>, s: Seq<char>, i: int)
    requires
        0 <= i,
        i + json_string(v).len() <= s.len(),
        s.subrange(i, i + json_string(v).len() as int) == json_string(v),
    ensures
        parse_str_at(s, i) == Some((v, i + json_string(v).len())),
{
    let body = json_body(v, v.len() as int);
    let whole = json_string(v);
    lemma_subrange_at(s, i, whole, 0);
    assert(s[i] == '"');
    let tail = body + seq!['"'];
    assert(forall|k: int| 0 <= k < tail.len() ==> tail[k] == whole[1 + k]);
    lemma_subrange_split(s, i, whole, 1, tail);
    lemma_parse_body_round(v, s, i + 1);
}

/// The serialized items of a non-empty array, seen from the front.
proof fn lemma_json_items_front(parts: Seq<Seq<char>>, j: int)
    requires
        1 <= j <= parts.len(),
    ensures
        j == 1 ==> json_items(parts, j) =~= parts[0],
        j > 1 ==> json_items(parts, j) =~= parts[0] + seq![','] + json_items(
            parts.drop_first(),
            j - 1,
        ),
    decreases j,
{
    if j > 1 {
        lemma_json_items_front(parts, j - 1);
        assert(parts.drop_first()[j - 2] == parts[j - 1]);
        if j == 2 {
            assert(json_items(parts.drop_first(), 1) =~= parts.drop_first()[0]);
        }
    }
}

/// Reading the serialized items of a non-empty string array, followed by the
/// closing bracket, yields back the strings.
proof fn lemma_parse_items_round(items: Seq<Seq<char>>, s: Seq<char>, i: int)
    requires
        0 <= i,
        items.len() >= 1,
        i + json_items(items.map_values(|v: Seq<char>| json_string(v)), items.len() as int).len()
            + 1 <= s.len(),
        s.subrange(
            i,
            i + json_items(
                items.map_values(|v: Seq<char>| json_string(v)),
                items.len() as int,
            ).len() + 1,
        ) == json_items(items.map_values(|v: Seq<char>| json_string(v)), items.len() as int)
            + seq![']'],
    ensures
        parse_str_items(s, i) == Some(
            (
                items,
                i + json_items(
                    items.map_values(|v: Seq<char>| json_string(v)),
                    items.len() as int,
                ).len() + 1,
            ),
        ),
    decreases items.len(),
{
    let parts = items.map_values(|v: Seq<char>| json_string(v));
    let body = json_items(parts, items.len() as int);
    let whole = body + seq![']'];
    lemma_json_items_front(parts, items.len() as int);
    let first = json_string(items[0]);
    assert(parts[0] == first);
    if items.len() == 1 {
        assert(body =~= first);
        lemma_subrange_split(s, i, whole, 0, first);
        lemma_parse_string_round(items[0], s, i);
        lemma_subrange_at(s, i, whole, first.len() as int);
        assert(s[i + first.len()] == ']');
        assert(seq![items[0]] =~= items);
    } else {
        let rest = items.drop_first();
        let rest_parts = rest.map_values(|v: Seq<char>| json_string(v));
        assert(parts.drop_first() =~= rest_parts);
        let rest_body = json_items(rest_parts, rest.len() as int);
        assert(body =~= first + seq![','] + rest_body);
        lemma_subrange_split(s, i, whole, 0, first);
        lemma_parse_string_round(items[0], s, i);
        lemma_subrange_at(s, i, whole, first.len() as int);
        assert(s[i + first.len()] == ',');
        let tail = rest_body + seq![']'];
        assert(forall|k: int| 0 <= k < tail.len() ==> tail[k] == whole[first.len() + 1 + k]);
        lemma_subrange_split(s, i, whole, first.len() as int + 1, tail);
        lemma_parse_items_round(rest, s, i + first.len() + 1);
        assert(seq![items[0]] + rest =~= items);
    }
}

/// Law: the stored screenshots JSON round-trips — reading what the
/// serializer wrote yields back exactly the serialized list.
pub proof fn lemma_screenshots_roundtrip(items: Seq<Seq<char>>)
    ensures
        parse_strings_spec(json_strings_spec(items)) == Some(items),
{
    let parts = items.map_values(|v: Seq<char>| json_string(v));
    let s = json_strings_spec(items);
    if items.len() == 0 {
        assert(json_items(parts, 0) =~= Seq::<char>::empty());
        assert(s =~= seq!['[', ']']);
        assert(s.len() == 2 && s[0] == '[' && s[1] == ']');
        assert(items =~= Seq::<Seq<char>>::empty());
    } else {
        let body = json_items(parts, items.len() as int);
        assert(s =~= seq!['['] + body + seq![']']);
        assert(s[0] == '[');
        lemma_json_items_front(parts, items.len() as int);
        assert(json_string(items[0]).len() >= 2);
        assert(body.len() >= 2) by {
            if items.len() > 1 {
                assert(body =~= parts[0] + seq![','] + json_items(
                    parts.drop_first(),
                    items.len() - 1,
                ));
            } else {
                assert(body =~= parts[0]);
            }
        }
        assert(s.len() > 2);
        let whole = body + seq![']'];
        assert(forall|k: int| 0 <= k < whole.len() ==> whole[k] == s[1 + k]);
        assert(s.subrange(1, body.len() as int + 2) =~= whole);
        lemma_parse_items_round(items, s, 1);
    }
}

/// Reads a link object at position `i`: its name and its target.
pub open spec fn parse_link_at(s: Seq<char>, i: int) -> Option<(LinkView, int)> {
    if crate::strutil::match_at(s, "{\"name\":"@, i) {
        match parse_str_at(s, i + 8) {
            Some(name) => {
                if crate::strutil::match_at(s, ",\"link\":"@, name.1) {
                    match parse_str_at(s, name.1 + 8) {
                        Some(url) => {
                            if url.1 < s.len() && s[url.1] == '}' {
                                Some((LinkView { name: name.0, link: url.0 }, url.1 + 1))
                            } else {
                                None
                            }
                        },
                        None => None,
                    }
                } else {
                    None
                }
            },
            None => None,
        }
    } else {
        None
    }
}

/// A read link ends after its opening position.
proof fn lemma_parse_link_advances(s: Seq<char>, i: int)
    requires
        0 <= i,
    ensures
        match parse_link_at(s, i) {
            Some(t) => i < t.1 <= s.len(),
            None => true,
        },
{
    if crate::strutil::match_at(s, "{\"name\":"@, i) {
        lemma_parse_body_advances(s, i + 9);
        match parse_str_at(s, i + 8) {
            Some(name) => {
                lemma_parse_body_advances(s, name.1 + 9);
            },
            None => {},
        }
    }
}

/// Reads the links of a non-empty link array from position `i`.
pub open spec fn parse_link_items(s: Seq<char>, i: int) -> Option<(Seq<LinkView>, int)>
    decreases s.len() - i,
    when 0 <= i
    via parse_link_items_dec
{
    match parse_link_at(s, i) {
        Some(t) => {
            if t.1 < s.len() && s[t.1] == ',' {
                match parse_link_items(s, t.1 + 1) {
                    Some(rest) => Some((seq![t.0] + rest.0, rest.1)),
                    None => None,
                }
            } else if t.1 < s.len() && s[t.1] == ']' {
                Some((seq![t.0], t.1 + 1))
            } else {
                None
            }
        },
        None => None,
    }
}

#[via_fn]
proof fn parse_link_items_dec(s: Seq<char>, i: int) {
    if 0 <= i {
        lemma_parse_link_advances(s, i);
    }
}

/// Read links end after their opening position.
proof fn lemma_parse_link_items_advances(s: Seq<char>, i: int)
    requires
        0 <= i,
    ensures
        match parse_link_items(s, i) {
            Some(t) => i < t.1 <= s.len(),
            None => true,
        },
    decreases s.len() - i,
{
    lemma_parse_link_advances(s, i);
    match parse_link_at(s, i) {
        Some(t) => {
            if t.1 < s.len() && s[t.1] == ',' {
                lemma_parse_link_items_advances(s, t.1 + 1);
            }
        },
        None => {},
    }
}

/// Reads a mirror object at position `i`: its list of links, which may be
/// empty.
pub open spec fn parse_mirror_at(s: Seq<char>, i: int) -> Option<(MirrorView, int)> {
    if crate::strutil::match_at(s, "{\"links\":["@, i) {
        if i + 11 < s.len() && s[i + 10] == ']' && s[i + 11] == '}' {
            Some((MirrorView { links: Seq::empty() }, i + 12))
        } else {
            match parse_link_items(s, i + 10) {
                Some(t) => {
                    if t.1 < s.len() && s[t.1] == '}' {
                        Some((MirrorView { links: t.0 }, t.1 + 1))
                    } else {
                        None
                    }
                },
                None => None,
            }
        }
    } else {
        None
    }
}

/// A read mirror ends after its opening position.
proof fn lemma_parse_mirror_advances(s: Seq<char>, i: int)
    requires
        0 <= i,
    ensures
        match parse_mirror_at(s, i) {
            Some(t) => i < t.1 <= s.len(),
            None => true,
        },
{
    lemma_parse_link_items_advances(s, i + 10);
}

/// Reads the mirrors of a non-empty mirror array from position `i`.
pub open spec fn parse_mirror_items(s: Seq<char>, i: int) -> Option<(Seq<MirrorView>, int)>
    decreases s.len() - i,
    when 0 <= i
    via parse_mirror_items_dec
{
    match parse_mirror_at(s, i) {
        Some(t) => {
            if t.1 < s.len() && s[t.1] == ',' {
                match parse_mirror_items(s, t.1 + 1) {
                    Some(rest) => Some((seq![t.0] + rest.0, rest.1)),
                    None => None,
                }
            } else if t.1 < s.len() && s[t.1] == ']' {
                Some((seq![t.0], t.1 + 1))
            } else {
                None
            }
        },
        None => None,
    }
}

#[via_fn]
proof fn parse_mirror_items_dec(s: Seq<char>, i: int) {
    if 0 <= i {
        lemma_parse_mirror_advances(s, i);
    }
}

/// Reads a whole mirror array: the text must be exactly one array.
pub open spec fn parse_mirrors_spec(s: Seq<char>) -> Option<Seq<MirrorView>> {
    if s.len() == 2 && s[0] == '[' && s[1] == ']' {
        Some(Seq::empty())
    } else if s.len() > 0 && s[0] == '[' {
        match parse_mirror_items(s, 1) {
            Some(t) => if t.1 == s.len() {
                Some(t.0)
            } else {
                None
            },
            None => None,
        }
    } else {
        None
    }
}

/// Reading a serialized link object yields back the link.
proof fn lemma_parse_link_round(l: LinkView, s: Seq<char>, i: int)
    requires
        0 <= i,
        i + json_link(l).len() <= s.len(),
        s.subrange(i, i + json_link(l).len() as int) == json_link(l),
    ensures
        parse_link_at(s, i) == Some((l, i + json_link(l).len())),
{
    let whole = json_link(l);
    let h1 = seq!['{', '"', 'n', 'a', 'm', 'e', '"', ':'];
    let ns = json_string(l.name);
    let h2 = seq![',', '"', 'l', 'i', 'n', 'k', '"', ':'];
    let ls = json_string(l.link);
    reveal_strlit("{\"name\":");
    reveal_strlit(",\"link\":");
    assert("{\"name\":"@ =~= h1);
    assert(",\"link\":"@ =~= h2);
    assert(forall|k: int| 0 <= k < h1.len() ==> h1[k] == whole[k]);
    lemma_subrange_split(s, i, whole, 0, h1);
    assert(crate::strutil::match_at(s, "{\"name\":"@, i));
    assert(forall|k: int| 0 <= k < ns.len() ==> ns[k] == whole[8 + k]);
    lemma_subrange_split(s, i, whole, 8, ns);
    lemma_parse_string_round(l.name, s, i + 8);
    let p1 = i + 8 + ns.len();
    assert(forall|k: int| 0 <= k < h2.len() ==> h2[k] == whole[8 + ns.len() + k]);
    lemma_subrange_split(s, i, whole, 8 + ns.len() as int, h2);
    assert(crate::strutil::match_at(s, ",\"link\":"@, p1));
    assert(forall|k: int| 0 <= k < ls.len() ==> ls[k] == whole[8 + ns.len() + 8 + k]);
    lemma_subrange_split(s, i, whole, 8 + ns.len() as int + 8, ls);
    lemma_parse_string_round(l.link, s, p1 + 8);
    let p2 = p1 + 8 + ls.len();
    lemma_subrange_at(s, i, whole, whole.len() as int - 1);
    assert(s[p2] == '}');
    assert(LinkView { name: l.name, link: l.link } == l);
}

/// Reading the serialized links of a non-empty link array, followed by the
/// closing bracket, yields back the links.
proof fn lemma_parse_link_items_round(links: Seq<LinkView>, s: Seq<char>, i: int)
    requires
        0 <= i,
        links.len() >= 1,
        i + json_items(links.map_values(|l: LinkView| json_link(l)), links.len() as int).len() + 1
            <= s.len(),
        s.subrange(
            i,
            i + json_items(links.map_values(|l: LinkView| json_link(l)), links.len() as int).len()
                + 1,
        ) == json_items(links.map_values(|l: LinkView| json_link(l)), links.len() as int) + seq![
            ']',
        ],
    ensures
        parse_link_items(s, i) == Some(
            (
                links,
                i + json_items(
                    links.map_values(|l: LinkView| json_link(l)),
                    links.len() as int,
                ).len() + 1,
            ),
        ),
    decreases links.len(),
{
    let parts = links.map_values(|l: LinkView| json_link(l));
    let body = json_items(parts, links.len() as int);
    let whole = body + seq![']'];
    lemma_json_items_front(parts, links.len() as int);
    let first = json_link(links[0]);
    assert(parts[0] == first);
    if links.len() == 1 {
        assert(body =~= first);
        lemma_subrange_split(s, i, whole, 0, first);
        lemma_parse_link_round(links[0], s, i);
        lemma_subrange_at(s, i, whole, first.len() as int);
        assert(s[i + first.len()] == ']');
        assert(seq![links[0]] =~= links);
    } else {
        let rest = links.drop_first();
        let rest_parts = rest.map_values(|l: LinkView| json_link(l));
        assert(parts.drop_first() =~= rest_parts);
        let rest_body = json_items(rest_parts, rest.len() as int);
        assert(body =~= first + seq![','] + rest_body);
        lemma_subrange_split(s, i, whole, 0, first);
        lemma_parse_link_round(links[0], s, i);
        lemma_subrange_at(s, i, whole, first.len() as int);
        assert(s[i + first.len()] == ',');
        let tail = rest_body + seq![']'];
        assert(forall|k: int| 0 <= k < tail.len() ==> tail[k] == whole[first.len() + 1 + k]);
        lemma_subrange_split(s, i, whole, first.len() as int + 1, tail);
        lemma_parse_link_items_round(rest, s, i + first.len() + 1);
        assert(seq![links[0]] + rest =~= links);
    }
}

/// Reading a serialized mirror object yields back the mirror.
proof fn lemma_parse_mirror_round(m: MirrorView, s: Seq<char>, i: int)
    requires
        0 <= i,
        i + json_mirror(m).len() <= s.len(),
        s.subrange(i, i + json_mirror(m).len() as int) == json_mirror(m),
    ensures
        parse_mirror_at(s, i) == Some((m, i + json_mirror(m).len())),
{
    let whole = json_mirror(m);
    let parts = m.links.map_values(|l: LinkView| json_link(l));
    let h = seq!['{', '"', 'l', 'i', 'n', 'k', 's', '"', ':', '['];
    reveal_strlit("{\"links\":[");
    assert("{\"links\":["@ =~= h);
    assert(whole =~= h + json_items(parts, parts.len() as int) + seq![']', '}']);
    assert(forall|k: int| 0 <= k < h.len() ==> h[k] == whole[k]);
    lemma_subrange_split(s, i, whole, 0, h);
    assert(crate::strutil::match_at(s, "{\"links\":["@, i));
    if m.links.len() == 0 {
        assert(json_items(parts, 0) =~= Seq::<char>::empty());
        assert(whole.len() == 12);
        lemma_subrange_at(s, i, whole, 10);
        lemma_subrange_at(s, i, whole, 11);
        assert(s[i + 10] == ']' && s[i + 11] == '}');
        assert(s.len() - i > 11);
        assert(m.links =~= Seq::<LinkView>::empty());
        assert(MirrorView { links: Seq::empty() } == m);
    } else {
        let body = json_items(parts, parts.len() as int);
        lemma_json_items_front(parts, parts.len() as int);
        assert(parts[0] == json_link(m.links[0]));
        assert(body.len() >= json_link(m.links[0]).len()) by {
            if parts.len() > 1 {
                assert(body =~= parts[0] + seq![','] + json_items(
                    parts.drop_first(),
                    parts.len() - 1,
                ));
            } else {
                assert(body =~= parts[0]);
            }
        }
        assert(json_link(m.links[0])[0] == '{');
        lemma_subrange_at(s, i, whole, 10);
        assert(s[i + 10] == '{');
        let tail = body + seq![']'];
        assert(forall|k: int| 0 <= k < tail.len() ==> tail[k] == whole[10 + k]);
        lemma_subrange_split(s, i, whole, 10, tail);
        lemma_parse_link_items_round(m.links, s, i + 10);
        let p = i + 10 + body.len() + 1;
        lemma_subrange_at(s, i, whole, whole.len() as int - 1);
        assert(s[p] == '}');
        assert(MirrorView { links: m.links } == m);
    }
}

/// Reading the serialized mirrors of a non-empty mirror array, followed by
/// the closing bracket, yields back the mirrors.
proof fn lemma_parse_mirror_items_round(mirrors: Seq<MirrorView>, s: Seq<char>, i: int)
    requires
        0 <= i,
        mirrors.len() >= 1,
        i + json_items(
            mirrors.map_values(|m: MirrorView| json_mirror(m)),
            mirrors.len() as int,
        ).len() + 1 <= s.len(),
        s.subrange(
            i,
            i + json_items(
                mirrors.map_values(|m: MirrorView| json_mirror(m)),
                mirrors.len() as int,
            ).len() + 1,
        ) == json_items(mirrors.map_values(|m: MirrorView| json_mirror(m)), mirrors.len() as int)
            + seq![']'],
    ensures
        parse_mirror_items(s, i) == Some(
            (
                mirrors,
                i + json_items(
                    mirrors.map_values(|m: MirrorView| json_mirror(m)),
                    mirrors.len() as int,
                ).len() + 1,
            ),
        ),
    decreases mirrors.len(),
{
    let parts = mirrors.map_values(|m: MirrorView| json_mirror(m));
    let body = json_items(parts, mirrors.len() as int);
    let whole = body + seq![']'];
    lemma_json_items_front(parts, mirrors.len() as int);
    let first = json_mirror(mirrors[0]);
    assert(parts[0] == first);
    if mirrors.len() == 1 {
        assert(body =~= first);
        lemma_subrange_split(s, i, whole, 0, first);
        lemma_parse_mirror_round(mirrors[0], s, i);
        lemma_subrange_at(s, i, whole, first.len() as int);
        assert(s[i + first.len()] == ']');
        assert(seq![mirrors[0]] =~= mirrors);
    } else {
        let rest = mirrors.drop_first();
        let rest_parts = rest.map_values(|m: MirrorView| json_mirror(m));
        assert(parts.drop_first() =~= rest_parts);
        let rest_body = json_items(rest_parts, rest.len() as int);
        assert(body =~= first + seq![','] + rest_body);
        lemma_subrange_split(s, i, whole, 0, first);
        lemma_parse_mirror_round(mirrors[0], s, i);
        lemma_subrange_at(s, i, whole, first.len() as int);
        assert(s[i + first.len()] == ',');
        let tail = rest_body + seq![']'];
        assert(forall|k: int| 0 <= k < tail.len() ==> tail[k] == whole[first.len() + 1 + k]);
        lemma_subrange_split(s, i, whole, first.len() as int + 1, tail);
        lemma_parse_mirror_items_round(rest, s, i + first.len() + 1);
        assert(seq![mirrors[0]] + rest =~= mirrors);
    }
}

/// Law: the stored mirrors JSON round-trips — reading what the serializer
/// wrote yields back exactly the serialized list.
pub proof fn lemma_mirrors_roundtrip(mirrors: Seq<MirrorView>)
    ensures
        parse_mirrors_spec(json_mirrors_spec(mirrors)) == Some(mirrors),
{
    let parts = mirrors.map_values(|m: MirrorView| json_mirror(m));
    let s = json_mirrors_spec(mirrors);
    if mirrors.len() == 0 {
        assert(json_items(parts, 0) =~= Seq::<char>::empty());
        assert(s =~= seq!['[', ']']);
        assert(s.len() == 2 && s[0] == '[' && s[1] == ']');
        assert(mirrors =~= Seq::<MirrorView>::empty());
    } else {
        let body = json_items(parts, mirrors.len() as int);
        assert(s =~= seq!['['] + body + seq![']']);
        assert(s[0] == '[');
        lemma_json_items_front(parts, mirrors.len() as int);
        assert(json_mirror(mirrors[0]).len() >= 12);
        assert(body.len() >= 2) by {
            if mirrors.len() > 1 {
                assert(body =~= parts[0] + seq![','] + json_items(
                    parts.drop_first(),
                    mirrors.len() - 1,
                ));
            } else {
                assert(body =~= parts[0]);
            }
        }
        assert(s.len() > 2);
        let whole = body + seq![']'];
        assert(forall|k: int| 0 <= k < whole.len() ==> whole[k] == s[1 + k]);
        assert(s.subrange(1, body.len() as int + 2) =~= whole);
        lemma_parse_mirror_items_round(mirrors, s, 1);
    }
}

/// Reads a quoted string in executable code.
fn parse_str_exec(s: &Vec<char>, i: usize) -> (r: Option<(Vec<char>, usize)>)
    ensures
        match r {
            Some(t) => parse_str_at(s@, i as int) == Some((t.0@, t.1 as int)) && i < t.1
                <= s@.len(),
            None => parse_str_at(s@, i as int) is None,
        },
{
    let n: usize = s.len();
    if i >= n || s[i] != '"' {
        return None;
    }
    parse_body_exec(s, i + 1)
}

/// Reads a link object in executable code.
fn parse_link_exec(s: &Vec<char>, i: usize) -> (r: Option<(Link, usize)>)
    ensures
        match r {
            Some(t) => parse_link_at(s@, i as int) == Some((t.0@, t.1 as int)) && i < t.1
                <= s@.len(),
            None => parse_link_at(s@, i as int) is None,
        },
{
    let n: usize = s.len();
    let head = crate::strutil::chars_vec("{\"name\":");
    proof {
        reveal_strlit("{\"name\":");
        lemma_parse_link_advances(s@, i as int);
    }
    if !crate::strutil::sub_match(s, &head, i) {
        return None;
    }
    let name = match parse_str_exec(s, i + 8) {
        Some(t) => t,
        None => {
            return None;
        },
    };
    let mid = crate::strutil::chars_vec(",\"link\":");
    proof {
        reveal_strlit(",\"link\":");
    }
    if !crate::strutil::sub_match(s, &mid, name.1) {
        return None;
    }
    let url = match parse_str_exec(s, name.1 + 8) {
        Some(t) => t,
        None => {
            return None;
        },
    };
    if url.1 < n && s[url.1] == '}' {
        let link = Link {
            name: crate::strutil::string_from_chars(name.0.as_slice()),
            link: crate::strutil::string_from_chars(url.0.as_slice()),
        };
        Some((link, url.1 + 1))
    } else {
        None
    }
}

/// Reads the links of a non-empty link array in executable code.
fn parse_link_items_exec(s: &Vec<char>, i: usize) -> (r: Option<(Vec<Link>, usize)>)
    ensures
        match r {
            Some(t) => parse_link_items(s@, i as int) == Some((t.0.deep_view(), t.1 as int)),
            None => parse_link_items(s@, i as int) is None,
        },
    decreases s@.len() - i,
{
    let n: usize = s.len();
    match parse_link_exec(s, i) {
        Some((link, j)) => {
            if j < n && s[j] == ',' {
                match parse_link_items_exec(s, j + 1) {
                    Some((rest, end)) => {
                        let ghost lv = link@;
                        let mut out: Vec<Link> = Vec::new();
                        out.push(link);
                        let mut k: usize = 0;
                        while k < rest.len()
                            invariant
                                k <= rest@.len(),
                                out@.len() == 1 + k,
                                out.deep_view()[0] == lv,
                                forall|q: int|
                                    0 <= q < k ==> out.deep_view()[q + 1] == rest.deep_view()[q],
                            decreases rest@.len() - k,
                        {
                            let item = Link {
                                name: rest[k].name.clone(),
                                link: rest[k].link.clone(),
                            };
                            let ghost prev = out.deep_view();
                            out.push(item);
                            proof {
                                assert(forall|q: int|
                                    0 <= q < prev.len() ==> #[trigger] out.deep_view()[q]
                                        == prev[q]);
                                assert(out.deep_view()[prev.len() as int] == item@);
                                assert(rest.deep_view()[k as int] == rest@[k as int]@);
                            }
                            k = k + 1;
                        }
                        proof {
                            assert(out.deep_view() =~~= seq![lv] + rest.deep_view());
                        }
                        Some((out, end))
                    },
                    None => None,
                }
            } else if j < n && s[j] == ']' {
                let ghost lv = link@;
                let mut out: Vec<Link> = Vec::new();
                out.push(link);
                proof {
                    assert(out.deep_view() =~~= seq![lv]);
                }
                Some((out, j + 1))
            } else {
                None
            }
        },
        None => None,
    }
}

/// Reads a mirror object in executable code.
fn parse_mirror_exec(s: &Vec<char>, i: usize) -> (r: Option<(Mirror, usize)>)
    ensures
        match r {
            Some(t) => parse_mirror_at(s@, i as int) == Some((t.0@, t.1 as int)) && i < t.1
                <= s@.len(),
            None => parse_mirror_at(s@, i as int) is None,
        },
{
    let n: usize = s.len();
    let head = crate::strutil::chars_vec("{\"links\":[");
    proof {
        reveal_strlit("{\"links\":[");
        lemma_parse_mirror_advances(s@, i as int);
    }
    if !crate::strutil::sub_match(s, &head, i) {
        return None;
    }
    if n - i > 11 && s[i + 10] == ']' && s[i + 11] == '}' {
        proof {
            assert(i + 11 < n);
        }
        let mirror = Mirror { links: Vec::new() };
        proof {
            assert(mirror@.links =~~= Seq::<LinkView>::empty());
        }
        return Some((mirror, i + 12));
    }
    match parse_link_items_exec(s, i + 10) {
        Some((links, j)) => {
            if j < n && s[j] == '}' {
                Some((Mirror { links }, j + 1))
            } else {
                None
            }
        },
        None => None,
    }
}

/// Reads the mirrors of a non-empty mirror array in executable code.
fn parse_mirror_items_exec(s: &Vec<char>, i: usize) -> (r: Option<(Vec<Mirror>, usize)>)
    ensures
        match r {
            Some(t) => parse_mirror_items(s@, i as int) == Some((t.0.deep_view(), t.1 as int)),
            None => parse_mirror_items(s@, i as int) is None,
        },
    decreases s@.len() - i,
{
    let n: usize = s.len();
    match parse_mirror_exec(s, i) {
        Some((mirror, j)) => {
            if j < n && s[j] == ',' {
                match parse_mirror_items_exec(s, j + 1) {
                    Some((mut rest, end)) => {
                        let ghost mv = mirror@;
                        let ghost rv = rest.deep_view();
                        rest.insert(0, mirror);
                        proof {
                            assert(rest.deep_view() =~~= seq![mv] + rv);
                        }
                        Some((rest, end))
                    },
                    None => None,
                }
            } else if j < n && s[j] == ']' {
                let ghost mv = mirror@;
                let mut out: Vec<Mirror> = Vec::new();
                out.push(mirror);
                proof {
                    assert(out.deep_view() =~~= seq![mv]);
                }
                Some((out, j + 1))
            } else {
                None
            }
        },
        None => None,
    }
}

/// Reads the stored mirrors JSON back into the list of mirrors, exactly the
/// inverse of what the serializer wrote.
pub fn parse_mirrors_json(text: &str) -> (r: Option<Vec<Mirror>>)
    ensures
        match r {
            Some(mirrors) => parse_mirrors_spec(text@) == Some(mirrors.deep_view()),
            None => parse_mirrors_spec(text@) is None,
        },
{
    let s = crate::strutil::chars_vec(text);
    let n: usize = s.len();
    if n == 2 && s[0] == '[' && s[1] == ']' {
        let out: Vec<Mirror> = Vec::new();
        proof {
            assert(out.deep_view() =~~= Seq::<MirrorView>::empty());
        }
        return Some(out);
    }
    if n == 0 || s[0] != '[' {
        return None;
    }
    match parse_mirror_items_exec(&s, 1) {
        Some((mirrors, end)) => {
            if end == n {
                Some(mirrors)
            } else {
                None
            }
        },
        None => None,
    }
}

} // verus!
