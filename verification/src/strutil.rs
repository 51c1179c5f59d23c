//! Character-sequence utilities: the exact string operations that the markup
//! extractor and the tag splitter are specified with, each proved against a
//! spec-level definition over `Seq<char>`.

use vstd::prelude::*;

verus! {

/// ASCII whitespace, the characters trimmed from tag values.
pub open spec fn is_space(c: char) -> bool {
    c == ' ' || c == '\t' || c == '\n' || c == '\r'
}

/// Lower-cases one ASCII letter; every other character is kept.
pub open spec fn lower_char(c: char) -> char {
    if 'A' <= c && c <= 'Z' {
        (((c as u8) + 32) as char)
    } else {
        c
    }
}

/// Lower-cases the ASCII letters of a sequence.
pub open spec fn lower_seq(s: Seq<char>) -> Seq<char> {
    s.map_values(|c: char| lower_char(c))
}

/// Appends one character to a string.
/// Relies on std's `String::push`, which vstd gives no specification:
/// it appends the given char to the end of the string.
#[verifier::external_body]
pub fn push_char(s: &mut String, c: char)
    ensures
        final(s)@ == old(s)@.push(c),
{
    s.push(c);
}

/// The characters of a string slice, as a vector.
pub fn chars_vec(s: &str) -> (r: Vec<char>)
    ensures
        r@ == s@,
{
    let n: usize = s.unicode_len();
    let mut r: Vec<char> = Vec::new();
    let mut i: usize = 0;
    while i < n
        invariant
            i <= n,
            n == s@.len(),
            r@ == s@.subrange(0, i as int),
        decreases n - i,
    {
        let c = s.get_char(i);
        r.push(c);
        i = i + 1;
        assert(r@ =~= s@.subrange(0, i as int));
    }
    assert(r@ =~= s@);
    r
}

/// A string built from a sequence of characters.
pub fn string_from_chars(v: &[char]) -> (r: String)
    ensures
        r@ == v@,
{
    let mut r = String::new();
    let mut i: usize = 0;
    while i < v.len()
        invariant
            i <= v@.len(),
            r@ == v@.subrange(0, i as int),
        decreases v@.len() - i,
    {
        push_char(&mut r, v[i]);
        i = i + 1;
        assert(r@ =~= v@.subrange(0, i as int));
    }
    assert(r@ =~= v@);
    r
}

/// Lower-cases the ASCII letters of a string.
pub fn lower_ascii(v: &Vec<char>) -> (r: Vec<char>)
    ensures
        r@ == lower_seq(v@),
{
    let mut r: Vec<char> = Vec::new();
    let mut i: usize = 0;
    while i < v.len()
        invariant
            i <= v@.len(),
            r@ == lower_seq(v@.subrange(0, i as int)),
        decreases v@.len() - i,
    {
        let c = v[i];
        if 'A' <= c && c <= 'Z' {
            r.push(((c as u8) + 32) as char);
        } else {
            r.push(c);
        }
        i = i + 1;
        assert(r@ =~= lower_seq(v@.subrange(0, i as int)));
    }
    assert(v@.subrange(0, v@.len() as int) =~= v@);
    r
}

/// Appends the characters of `s` to `out`.
pub fn push_str_chars(out: &mut Vec<char>, s: &str)
    ensures
        final(out)@ == old(out)@ + s@,
{
    let n: usize = s.unicode_len();
    let mut i: usize = 0;
    while i < n
        invariant
            i <= n,
            n == s@.len(),
            out@ == old(out)@ + s@.subrange(0, i as int),
        decreases n - i,
    {
        let c = s.get_char(i);
        out.push(c);
        i = i + 1;
        assert(out@ =~= old(out)@ + s@.subrange(0, i as int));
    }
    assert(out@ =~= old(out)@ + s@);
}

/// Decides `is_space` in executable code.
pub fn is_space_ch(c: char) -> (b: bool)
    ensures
        b == is_space(c),
{
    c == ' ' || c == '\t' || c == '\n' || c == '\r'
}

/// The characters of `v` from `a` (inclusive) to `b` (exclusive).
pub fn sub_chars(v: &Vec<char>, a: usize, b: usize) -> (r: Vec<char>)
    requires
        a <= b <= v@.len(),
    ensures
        r@ == v@.subrange(a as int, b as int),
{
    let mut r: Vec<char> = Vec::new();
    let mut i: usize = a;
    while i < b
        invariant
            a <= i <= b <= v@.len(),
            r@ == v@.subrange(a as int, i as int),
        decreases b - i,
    {
        r.push(v[i]);
        i = i + 1;
        assert(r@ =~= v@.subrange(a as int, i as int));
    }
    r
}

/// True of two equal character vectors.
pub fn chars_eq(a: &Vec<char>, b: &Vec<char>) -> (r: bool)
    ensures
        r == (a@ == b@),
{
    if a.len() != b.len() {
        return false;
    }
    let mut i: usize = 0;
    while i < a.len()
        invariant
            i <= a@.len(),
            a@.len() == b@.len(),
            forall|k: int| 0 <= k < i ==> a@[k] == b@[k],
        decreases a@.len() - i,
    {
        if a[i] != b[i] {
            return false;
        }
        i = i + 1;
    }
    proof {
        assert(a@ =~= b@);
    }
    true
}

/// True of two string slices with equal character sequences.
pub fn str_eq(a: &str, b: &str) -> (r: bool)
    ensures
        r == (a@ == b@),
{
    let na: usize = a.unicode_len();
    let nb: usize = b.unicode_len();
    if na != nb {
        return false;
    }
    let mut i: usize = 0;
    while i < na
        invariant
            i <= na,
            na == a@.len(),
            na == b@.len(),
            forall|k: int| 0 <= k < i ==> a@[k] == b@[k],
        decreases na - i,
    {
        if a.get_char(i) != b.get_char(i) {
            return false;
        }
        i = i + 1;
    }
    proof {
        assert(a@ =~= b@);
    }
    true
}

/// What is left of a sequence once leading spaces go.
pub open spec fn trim_start_spec(s: Seq<char>) -> Seq<char>
    decreases s.len(),
{
    if s.len() > 0 && is_space(s[0]) {
        trim_start_spec(s.drop_first())
    } else {
        s
    }
}

/// What is left of a sequence once trailing spaces go.
pub open spec fn trim_end_spec(s: Seq<char>) -> Seq<char>
    decreases s.len(),
{
    if s.len() > 0 && is_space(s[s.len() - 1]) {
        trim_end_spec(s.drop_last())
    } else {
        s
    }
}

/// A sequence without its surrounding spaces.
pub open spec fn trim_spec(s: Seq<char>) -> Seq<char> {
    trim_end_spec(trim_start_spec(s))
}

proof fn lemma_trim_start_at(s: Seq<char>, a: int)
    requires
        0 <= a <= s.len(),
        forall|k: int| 0 <= k < a ==> is_space(s[k]),
        a < s.len() ==> !is_space(s[a]),
    ensures
        trim_start_spec(s) == s.subrange(a, s.len() as int),
    decreases a,
{
    if a == 0 {
        assert(s.subrange(0, s.len() as int) =~= s);
    } else {
        assert(is_space(s[0]));
        lemma_trim_start_at(s.drop_first(), a - 1);
        assert(s.drop_first().subrange(a - 1, s.drop_first().len() as int) =~= s.subrange(
            a,
            s.len() as int,
        ));
    }
}

proof fn lemma_trim_end_at(s: Seq<char>, b: int)
    requires
        0 <= b <= s.len(),
        forall|k: int| b <= k < s.len() ==> is_space(s[k]),
        b > 0 ==> !is_space(s[b - 1]),
    ensures
        trim_end_spec(s) == s.subrange(0, b),
    decreases s.len() - b,
{
    if b == s.len() {
        assert(s.subrange(0, b) =~= s);
    } else {
        assert(is_space(s[s.len() - 1]));
        lemma_trim_end_at(s.drop_last(), b);
        assert(s.drop_last().subrange(0, b) =~= s.subrange(0, b));
    }
}

/// Trims surrounding ASCII whitespace.
pub fn trim_chars(v: &Vec<char>) -> (r: Vec<char>)
    ensures
        r@ == trim_spec(v@),
{
    let n: usize = v.len();
    let mut a: usize = 0;
    while a < n
        invariant
            a <= n,
            n == v@.len(),
            forall|k: int| 0 <= k < a ==> is_space(v@[k]),
        ensures
            a <= n,
            forall|k: int| 0 <= k < a ==> is_space(v@[k]),
            a < n ==> !is_space(v@[a as int]),
        decreases n - a,
    {
        if !is_space_ch(v[a]) {
            break;
        }
        a = a + 1;
    }
    let mut b: usize = n;
    while b > a
        invariant
            a <= b <= n,
            n == v@.len(),
            forall|k: int| b <= k < n ==> is_space(v@[k]),
        ensures
            a <= b <= n,
            forall|k: int| b <= k < n ==> is_space(v@[k]),
            b > a ==> !is_space(v@[b - 1]),
        decreases b,
    {
        if !is_space_ch(v[b - 1]) {
            break;
        }
        b = b - 1;
    }
    let r = sub_chars(v, a, b);
    proof {
        lemma_trim_start_at(v@, a as int);
        let t = v@.subrange(a as int, n as int);
        lemma_trim_end_at(t, b - a);
        assert(t.subrange(0, b - a) =~= v@.subrange(a as int, b as int));
    }
    r
}

/// The separator families that the extractor splits on.
pub enum Sep {
    /// `,` or `/`: multi-value tag fields.
    Tag,
    /// Line feeds.
    Newline,
    /// ASCII whitespace: `class` attribute word lists.
    Space,
}

/// Whether `c` separates under the family `k`.
pub open spec fn sep_spec(k: Sep, c: char) -> bool {
    match k {
        Sep::Tag => c == ',' || c == '/',
        Sep::Newline => c == '\n',
        Sep::Space => is_space(c),
    }
}

/// The pieces of `s` between separators, scanning from `i` with the current
/// piece begun at `start`. Pieces keep empty entries, as `str::split` does.
pub open spec fn split_from(s: Seq<char>, k: Sep, start: int, i: int) -> Seq<Seq<char>>
    decreases s.len() - i,
    when 0 <= start <= i <= s.len()
{
    if i == s.len() {
        seq![s.subrange(start, i)]
    } else if sep_spec(k, s[i]) {
        seq![s.subrange(start, i)] + split_from(s, k, i + 1, i + 1)
    } else {
        split_from(s, k, start, i + 1)
    }
}

/// The pieces of `s` between separators of the family `k`.
pub open spec fn split_spec(s: Seq<char>, k: Sep) -> Seq<Seq<char>> {
    split_from(s, k, 0, 0)
}

/// Decides `sep_spec` in executable code.
pub fn sep_ch(k: &Sep, c: char) -> (b: bool)
    ensures
        b == sep_spec(*k, c),
{
    match k {
        Sep::Tag => c == ',' || c == '/',
        Sep::Newline => c == '\n',
        Sep::Space => is_space_ch(c),
    }
}

/// Splits `v` on the separator family `k`, keeping empty pieces.
pub fn split_chars(v: &Vec<char>, k: Sep) -> (r: Vec<Vec<char>>)
    ensures
        r.deep_view() == split_spec(v@, k),
{
    let n: usize = v.len();
    let mut r: Vec<Vec<char>> = Vec::new();
    let mut start: usize = 0;
    let mut i: usize = 0;
    while i < n
        invariant
            0 <= start <= i <= n,
            n == v@.len(),
            split_spec(v@, k) == r.deep_view() + split_from(v@, k, start as int, i as int),
        decreases n - i,
    {
        let is_sep = sep_ch(&k, v[i]);
        if is_sep {
            let piece = sub_chars(v, start, i);
            let ghost prev = r.deep_view();
            r.push(piece);
            proof {
                assert(r.deep_view() =~~= prev.push(piece@));
                assert(prev + (seq![piece@] + split_from(v@, k, i + 1, i + 1)) =~~= prev.push(
                    piece@,
                ) + split_from(v@, k, i + 1, i + 1));
            }
            start = i + 1;
        }
        i = i + 1;
    }
    let piece = sub_chars(v, start, n);
    let ghost prev = r.deep_view();
    r.push(piece);
    proof {
        assert(r.deep_view() =~~= prev.push(piece@));
        assert(prev + seq![piece@] =~~= prev.push(piece@));
    }
    r
}

/// Whether `p` occurs in `s` starting at `i`.
pub open spec fn match_at(s: Seq<char>, p: Seq<char>, i: int) -> bool {
    0 <= i && i + p.len() <= s.len() && s.subrange(i, i + p.len() as int) == p
}

/// The first position at or after `i` where `p` occurs in `s`.
pub open spec fn find_from(s: Seq<char>, p: Seq<char>, i: int) -> Option<int>
    decreases s.len() + 1 - i,
    when 0 <= i
{
    if i + p.len() > s.len() {
        None
    } else if match_at(s, p, i) {
        Some(i)
    } else {
        find_from(s, p, i + 1)
    }
}

/// The first position where `p` occurs in `s`.
pub open spec fn find_spec(s: Seq<char>, p: Seq<char>) -> Option<int> {
    find_from(s, p, 0)
}

/// Whether `p` occurs somewhere in `s`.
pub open spec fn contains_spec(s: Seq<char>, p: Seq<char>) -> bool {
    find_spec(s, p) is Some
}

/// Checks for an occurrence of `p` at position `i` of `v`.
pub fn match_at_exec(v: &Vec<char>, p: &Vec<char>, i: usize) -> (r: bool)
    requires
        i + p@.len() <= v@.len(),
    ensures
        r == match_at(v@, p@, i as int),
{
    let n: usize = v.len();
    let m: usize = p.len();
    let mut j: usize = 0;
    while j < m
        invariant
            j <= m,
            n == v@.len(),
            m == p@.len(),
            i + m <= n,
            forall|k: int| 0 <= k < j ==> v@[i + k] == p@[k],
        decreases m - j,
    {
        if v[i + j] != p[j] {
            proof {
                assert(v@.subrange(i as int, i + p@.len() as int)[j as int] != p@[j as int]);
            }
            return false;
        }
        j = j + 1;
    }
    proof {
        assert(v@.subrange(i as int, i + p@.len() as int) =~= p@);
    }
    true
}

/// Checks for an occurrence of `p` at position `i` of `v`, any position.
pub fn sub_match(v: &Vec<char>, p: &Vec<char>, i: usize) -> (r: bool)
    ensures
        r == match_at(v@, p@, i as int),
{
    let n: usize = v.len();
    if i > n {
        return false;
    }
    if n - i < p.len() {
        return false;
    }
    match_at_exec(v, p, i)
}

/// The position of the first occurrence of `p` in `v`, if any.
pub fn find_sub(v: &Vec<char>, p: &Vec<char>) -> (r: Option<usize>)
    ensures
        match r {
            Some(i) => find_spec(v@, p@) == Some(i as int),
            None => find_spec(v@, p@) is None,
        },
{
    let n: usize = v.len();
    let m: usize = p.len();
    if m > n {
        return None;
    }
    if m == 0 {
        proof {
            assert(v@.subrange(0, 0) =~= p@);
        }
        return Some(0);
    }
    let mut i: usize = 0;
    while i <= n - m
        invariant
            0 <= i <= n - m + 1,
            1 <= m <= n,
            n == v@.len(),
            m == p@.len(),
            find_spec(v@, p@) == find_from(v@, p@, i as int),
        ensures
            i <= n - m + 1,
            find_spec(v@, p@) == find_from(v@, p@, i as int),
            i <= n - m ==> match_at(v@, p@, i as int),
        decreases n + 1 - m - i,
    {
        if match_at_exec(v, p, i) {
            break;
        }
        i = i + 1;
    }
    if i <= n - m {
        Some(i)
    } else {
        None
    }
}

/// Whether `p` occurs in `v`.
pub fn contains_sub(v: &Vec<char>, p: &Vec<char>) -> (r: bool)
    ensures
        r == contains_spec(v@, p@),
{
    find_sub(v, p).is_some()
}

/// What remains of `s` when every occurrence of `p` is removed, left to right.
pub open spec fn remove_all_spec(s: Seq<char>, p: Seq<char>) -> Seq<char>
    decreases s.len(),
    when p.len() > 0
    via remove_all_spec_dec
{
    match find_spec(s, p) {
        Some(i) => s.subrange(0, i) + remove_all_spec(
            s.subrange(i + p.len() as int, s.len() as int),
            p,
        ),
        None => s,
    }
}

#[via_fn]
proof fn remove_all_spec_dec(s: Seq<char>, p: Seq<char>) {
    if p.len() > 0 {
        lemma_find_bounds(s, p, 0);
    }
}

/// Removes every occurrence of `p` from `v`, scanning left to right.
pub fn remove_all(v: &Vec<char>, p: &Vec<char>) -> (r: Vec<char>)
    requires
        p@.len() > 0,
    ensures
        r@ == remove_all_spec(v@, p@),
    decreases v@.len(),
{
    match find_sub(v, p) {
        Some(i) => {
            let n: usize = v.len();
            proof {
                lemma_find_bounds(v@, p@, 0);
                assert(i + p@.len() <= v@.len());
            }
            let head = sub_chars(v, 0, i);
            let tail = sub_chars(v, i + p.len(), n);
            let rest = remove_all(&tail, p);
            let mut r = head;
            let mut j: usize = 0;
            proof {
                assert(r@ =~= v@.subrange(0, i as int) + rest@.subrange(0, 0));
            }
            while j < rest.len()
                invariant
                    j <= rest@.len(),
                    r@ == v@.subrange(0, i as int) + rest@.subrange(0, j as int),
                decreases rest@.len() - j,
            {
                r.push(rest[j]);
                j = j + 1;
                assert(r@ =~= v@.subrange(0, i as int) + rest@.subrange(0, j as int));
            }
            proof {
                assert(rest@.subrange(0, rest@.len() as int) =~= rest@);
            }
            r
        },
        None => {
            let r = sub_chars(v, 0, v.len());
            proof {
                assert(v@.subrange(0, v@.len() as int) =~= v@);
            }
            r
        },
    }
}

/// A found position lies within the searched sequence.
pub proof fn lemma_find_bounds(s: Seq<char>, p: Seq<char>, i: int)
    requires
        0 <= i,
    ensures
        match find_from(s, p, i) {
            Some(j) => i <= j && j + p.len() <= s.len(),
            None => true,
        },
    decreases s.len() + 1 - i,
{
    if i + p.len() > s.len() {
    } else if match_at(s, p, i) {
    } else {
        lemma_find_bounds(s, p, i + 1);
    }
}

/// Whether `w` stands as one whitespace-separated word of `s`.
pub open spec fn has_word(s: Seq<char>, w: Seq<char>) -> bool {
    split_spec(s, Sep::Space).contains(w)
}

/// Checks whether `w` is one of the whitespace-separated words of `v`.
pub fn has_word_exec(v: &Vec<char>, w: &Vec<char>) -> (r: bool)
    ensures
        r == has_word(v@, w@),
{
    let pieces = split_chars(v, Sep::Space);
    let mut i: usize = 0;
    while i < pieces.len()
        invariant
            i <= pieces@.len(),
            pieces.deep_view() == split_spec(v@, Sep::Space),
            forall|k: int| 0 <= k < i ==> pieces.deep_view()[k] != w@,
        decreases pieces@.len() - i,
    {
        let hit = chars_eq(&pieces[i], w);
        proof {
            assert(pieces.deep_view()[i as int] =~= pieces@[i as int]@);
        }
        if hit {
            return true;
        }
        i = i + 1;
    }
    false
}

/// A line without its trailing carriage return, if it carries one.
pub open spec fn strip_cr(t: Seq<char>) -> Seq<char> {
    if t.len() > 0 && t[t.len() - 1] == '\r' {
        t.drop_last()
    } else {
        t
    }
}

/// The lines of `s`, as `str::lines` yields them: pieces split at line feeds,
/// one final empty piece dropped, one trailing carriage return removed per line.
pub open spec fn lines_spec(s: Seq<char>) -> Seq<Seq<char>> {
    let ps = split_spec(s, Sep::Newline);
    let kept = if ps.len() > 0 && ps.last().len() == 0 {
        ps.drop_last()
    } else {
        ps
    };
    kept.map_values(|t: Seq<char>| strip_cr(t))
}

/// Splits `v` into its lines.
pub fn lines_chars(v: &Vec<char>) -> (r: Vec<Vec<char>>)
    ensures
        r.deep_view() == lines_spec(v@),
{
    let mut pieces = split_chars(v, Sep::Newline);
    proof {
        assert(split_spec(v@, Sep::Newline).len() > 0) by {
            lemma_split_nonempty(v@, Sep::Newline, 0, 0);
        }
    }
    if pieces.len() > 0 && pieces[pieces.len() - 1].len() == 0 {
        proof {
            assert(pieces.deep_view().last() =~= pieces@.last()@);
        }
        let ghost prev = pieces.deep_view();
        pieces.pop();
        proof {
            assert(pieces.deep_view() =~= prev.drop_last());
        }
    }
    let ghost kept = pieces.deep_view();
    let mut r: Vec<Vec<char>> = Vec::new();
    let mut i: usize = 0;
    while i < pieces.len()
        invariant
            i <= pieces@.len(),
            kept == pieces.deep_view(),
            r@.len() == i,
            forall|k: int| 0 <= k < i ==> r.deep_view()[k] == strip_cr(kept[k]),
        decreases pieces@.len() - i,
    {
        let p = &pieces[i];
        let mut line: Vec<char>;
        if p.len() > 0 && p[p.len() - 1] == '\r' {
            line = sub_chars(p, 0, p.len() - 1);
            proof {
                assert(p@.subrange(0, p@.len() - 1) =~= p@.drop_last());
            }
        } else {
            line = sub_chars(p, 0, p.len());
            proof {
                assert(p@.subrange(0, p@.len() as int) =~= p@);
            }
        }
        let ghost prev = r.deep_view();
        r.push(line);
        proof {
            assert(pieces.deep_view()[i as int] =~= pieces@[i as int]@);
            assert(forall|k: int|
                0 <= k < prev.len() ==> #[trigger] r.deep_view()[k] == prev[k]);
            assert(r.deep_view()[i as int] == line@);
        }
        i = i + 1;
    }
    proof {
        assert(r.deep_view() =~~= kept.map_values(|t: Seq<char>| strip_cr(t)));
    }
    r
}

/// A split yields at least one piece.
proof fn lemma_split_nonempty(s: Seq<char>, k: Sep, start: int, i: int)
    requires
        0 <= start <= i <= s.len(),
    ensures
        split_from(s, k, start, i).len() > 0,
    decreases s.len() - i,
{
    if i == s.len() {
    } else if sep_spec(k, s[i]) {
    } else {
        lemma_split_nonempty(s, k, start, i + 1);
    }
}

/// The trimmed tag values of one multi-value field: pieces between `,` or `/`,
/// each without surrounding whitespace, empty pieces kept.
pub open spec fn split_tags_spec(s: Seq<char>) -> Seq<Seq<char>> {
    split_spec(s, Sep::Tag).map_values(|t: Seq<char>| trim_spec(t))
}

/// Splits one multi-value tag field into its trimmed values.
pub fn split_tags(v: &Vec<char>) -> (r: Vec<Vec<char>>)
    ensures
        r.deep_view() == split_tags_spec(v@),
{
    let pieces = split_chars(v, Sep::Tag);
    let mut r: Vec<Vec<char>> = Vec::new();
    let mut i: usize = 0;
    while i < pieces.len()
        invariant
            i <= pieces@.len(),
            pieces.deep_view() == split_spec(v@, Sep::Tag),
            r@.len() == i,
            forall|k: int|
                0 <= k < i ==> r.deep_view()[k] == trim_spec(pieces.deep_view()[k]),
        decreases pieces@.len() - i,
    {
        let t = trim_chars(&pieces[i]);
        let ghost prev = r.deep_view();
        r.push(t);
        proof {
            assert(pieces.deep_view()[i as int] =~= pieces@[i as int]@);
            assert(forall|k: int|
                0 <= k < prev.len() ==> #[trigger] r.deep_view()[k] == prev[k]);
            assert(r.deep_view()[i as int] == t@);
        }
        i = i + 1;
    }
    proof {
        assert(r.deep_view() =~~= split_tags_spec(v@));
    }
    r
}

/// The strings of a list of character vectors.
pub fn strings_of_pieces(pieces: &Vec<Vec<char>>) -> (r: Vec<String>)
    ensures
        r.deep_view() == pieces.deep_view(),
{
    let mut r: Vec<String> = Vec::new();
    let mut i: usize = 0;
    while i < pieces.len()
        invariant
            i <= pieces@.len(),
            r@.len() == i,
            forall|k: int| 0 <= k < i ==> r.deep_view()[k] == pieces.deep_view()[k],
        decreases pieces@.len() - i,
    {
        let s = string_from_chars(pieces[i].as_slice());
        let ghost prev = r.deep_view();
        r.push(s);
        proof {
            assert(pieces.deep_view()[i as int] =~= pieces@[i as int]@);
            assert(forall|k: int|
                0 <= k < prev.len() ==> #[trigger] r.deep_view()[k] == prev[k]);
            assert(r.deep_view()[i as int] == s@);
        }
        i = i + 1;
    }
    proof {
        assert(r.deep_view() =~~= pieces.deep_view());
    }
    r
}

} // verus!
