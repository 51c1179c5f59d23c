//! The markup extractor: locates the fields of a release inside the flat
//! document by the structural conventions of the source markup — a heading
//! introduces a sibling block, a paragraph after the primary heading carries
//! `key: value` lines — and is verified against spec-level definitions of
//! each of those conventions.

use vstd::prelude::*;

use crate::dom::{
    attr_lookup, attr_spec, deep_index, depth_of, has_class, has_class_exec, inner_markup,
    inner_markup_exec, is_elem, node_is_elem, parent_exec, parent_of, prev_elem_sib,
    prev_elem_sib_exec, subtree_end, subtree_end_exec, subtree_text, subtree_text_exec, tag_is,
    tag_of, FlatNode, NodeView,
};
use crate::release::{Extracted, ExtractedView, ExtractError, Link, LinkView, Mirror,
    MirrorView, Release, ReleaseView};
use crate::strutil::{chars_vec, contains_spec, contains_sub, find_spec, find_sub, lines_chars,
    lines_spec, lower_ascii, lower_seq, split_tags, split_tags_spec, str_eq, string_from_chars,
    strings_of_pieces, sub_chars, trim_chars, trim_spec};

verus! {

/// Whether the node at `i` is a section: an element whose preceding element
/// sibling is an `h3` heading.
pub open spec fn is_section(doc: Seq<NodeView>, i: int) -> bool {
    is_elem(doc[i]) && match prev_elem_sib(doc, i) {
        Some(h) => tag_of(doc[h]) == "h3"@,
        None => false,
    }
}

/// The caption of a section: the text of the heading that introduces it.
pub open spec fn caption_of(doc: Seq<NodeView>, i: int) -> Seq<char> {
    match prev_elem_sib(doc, i) {
        Some(h) => subtree_text(doc, h),
        None => Seq::empty(),
    }
}

/// What a section holds, told apart by its caption.
#[derive(PartialEq, Eq, Structural)]
pub enum SectionKind {
    Screenshots,
    Repack,
    Mirrors,
    Other,
}

/// The kind of the section at `i`: the first of the known caption words that
/// its caption contains.
pub open spec fn section_kind(doc: Seq<NodeView>, i: int) -> SectionKind {
    let cap = caption_of(doc, i);
    if contains_spec(cap, "Screenshots"@) {
        SectionKind::Screenshots
    } else if contains_spec(cap, "Repack"@) {
        SectionKind::Repack
    } else if contains_spec(cap, "Mirrors"@) {
        SectionKind::Mirrors
    } else {
        SectionKind::Other
    }
}

/// The heading of the section at `i`, where `i` is a section.
fn section_heading(doc: &Vec<FlatNode>, i: usize) -> (r: Option<usize>)
    requires
        i < doc@.len(),
    ensures
        match r {
            Some(h) => is_section(doc.deep_view(), i as int) && prev_elem_sib(
                doc.deep_view(),
                i as int,
            ) == Some(h as int) && h < doc@.len(),
            None => !is_section(doc.deep_view(), i as int),
        },
{
    proof {
        deep_index(doc, i as int);
    }
    if !node_is_elem(&doc[i]) {
        return None;
    }
    proof {
        crate::dom::lemma_prev_elem_sib_from(
            doc.deep_view(),
            depth_of(doc.deep_view()[i as int]),
            i - 1,
        );
    }
    match prev_elem_sib_exec(doc, i) {
        Some(h) => {
            proof {
                deep_index(doc, h as int);
            }
            if tag_is(&doc[h], "h3") {
                Some(h)
            } else {
                None
            }
        },
        None => None,
    }
}

/// The kind of the section at `i`, given its heading.
fn section_kind_exec(doc: &Vec<FlatNode>, i: usize, h: usize) -> (r: SectionKind)
    requires
        i < doc@.len(),
        h < doc@.len(),
        prev_elem_sib(doc.deep_view(), i as int) == Some(h as int),
    ensures
        r == section_kind(doc.deep_view(), i as int),
{
    let cap = subtree_text_exec(doc, h);
    if contains_sub(&cap, &chars_vec("Screenshots")) {
        SectionKind::Screenshots
    } else if contains_sub(&cap, &chars_vec("Repack")) {
        SectionKind::Repack
    } else if contains_sub(&cap, &chars_vec("Mirrors")) {
        SectionKind::Mirrors
    } else {
        SectionKind::Other
    }
}

/// The last section of the given kind among the positions `[lo, j)`.
pub open spec fn last_section(doc: Seq<NodeView>, lo: int, j: int, kind: SectionKind) -> Option<
    int,
>
    decreases j - lo,
{
    if j <= lo {
        None
    } else if is_section(doc, j - 1) && section_kind(doc, j - 1) == kind {
        Some(j - 1)
    } else {
        last_section(doc, lo, j - 1, kind)
    }
}

/// Whether the node at `k` is an `img` element directly under an `a` element.
pub open spec fn is_linked_img(doc: Seq<NodeView>, k: int) -> bool {
    is_elem(doc[k]) && tag_of(doc[k]) == "img"@ && match parent_of(doc, k) {
        Some(p) => is_elem(doc[p]) && tag_of(doc[p]) == "a"@,
        None => false,
    }
}

/// Checks `is_linked_img` at `k`.
fn is_linked_img_exec(doc: &Vec<FlatNode>, k: usize) -> (r: bool)
    requires
        k < doc@.len(),
    ensures
        r == is_linked_img(doc.deep_view(), k as int),
{
    proof {
        deep_index(doc, k as int);
    }
    if !tag_is(&doc[k], "img") {
        return false;
    }
    match parent_exec(doc, k) {
        Some(p) => {
            proof {
                deep_index(doc, p as int);
            }
            tag_is(&doc[p], "a")
        },
        None => false,
    }
}

/// The source of a linked image at `k`, as a sequence of none or one value.
pub open spec fn img_src_at(doc: Seq<NodeView>, k: int) -> Seq<Seq<char>> {
    if is_linked_img(doc, k) {
        match attr_spec(doc[k], "src"@) {
            Some(s) => seq![s],
            None => Seq::empty(),
        }
    } else {
        Seq::empty()
    }
}

/// The linked-image sources among the positions `[lo, k)`, in document order.
pub open spec fn imgs_upto(doc: Seq<NodeView>, lo: int, k: int) -> Seq<Seq<char>>
    decreases k - lo,
{
    if k <= lo {
        Seq::empty()
    } else {
        imgs_upto(doc, lo, k - 1) + img_src_at(doc, k - 1)
    }
}

/// Collects the linked-image sources among the positions `[lo, hi)`.
fn collect_imgs(doc: &Vec<FlatNode>, lo: usize, hi: usize) -> (r: Vec<String>)
    requires
        lo <= hi <= doc@.len(),
    ensures
        r.deep_view() == imgs_upto(doc.deep_view(), lo as int, hi as int),
{
    let ghost dv = doc.deep_view();
    let mut r: Vec<String> = Vec::new();
    let mut k: usize = lo;
    while k < hi
        invariant
            lo <= k <= hi <= doc@.len(),
            dv == doc.deep_view(),
            r.deep_view() == imgs_upto(dv, lo as int, k as int),
        decreases hi - k,
    {
        proof {
            deep_index(doc, k as int);
        }
        if is_linked_img_exec(doc, k) {
            match attr_lookup(&doc[k], "src") {
                Some(s) => {
                    let ghost prev = r.deep_view();
                    r.push(s);
                    proof {
                        assert(forall|q: int|
                            0 <= q < prev.len() ==> #[trigger] r.deep_view()[q] == prev[q]);
                        assert(r.deep_view() =~= prev + img_src_at(dv, k as int));
                    }
                },
                None => {
                    proof {
                        assert(r.deep_view() =~= r.deep_view() + img_src_at(dv, k as int));
                    }
                },
            }
        } else {
            proof {
                assert(r.deep_view() =~= r.deep_view() + img_src_at(dv, k as int));
            }
        }
        k = k + 1;
    }
    r
}

/// The link of an anchor at `k`, as a sequence of none or one value.
pub open spec fn anchor_at(doc: Seq<NodeView>, k: int) -> Seq<LinkView> {
    if is_elem(doc[k]) && tag_of(doc[k]) == "a"@ {
        seq![
            LinkView {
                name: subtree_text(doc, k),
                link: match attr_spec(doc[k], "href"@) {
                    Some(h) => h,
                    None => Seq::empty(),
                },
            },
        ]
    } else {
        Seq::empty()
    }
}

/// The anchors among the positions `[lo, k)`, in document order, each with its
/// text as the link name and its `href` as the link, empty when absent.
pub open spec fn anchors_upto(doc: Seq<NodeView>, lo: int, k: int) -> Seq<LinkView>
    decreases k - lo,
{
    if k <= lo {
        Seq::empty()
    } else {
        anchors_upto(doc, lo, k - 1) + anchor_at(doc, k - 1)
    }
}

/// Collects the anchors among the positions `[lo, hi)`.
fn collect_anchors(doc: &Vec<FlatNode>, lo: usize, hi: usize) -> (r: Vec<Link>)
    requires
        lo <= hi <= doc@.len(),
    ensures
        r.deep_view() == anchors_upto(doc.deep_view(), lo as int, hi as int),
{
    let ghost dv = doc.deep_view();
    let mut r: Vec<Link> = Vec::new();
    let mut k: usize = lo;
    while k < hi
        invariant
            lo <= k <= hi <= doc@.len(),
            dv == doc.deep_view(),
            r.deep_view() == anchors_upto(dv, lo as int, k as int),
        decreases hi - k,
    {
        proof {
            deep_index(doc, k as int);
        }
        if tag_is(&doc[k], "a") {
            let name_chars = subtree_text_exec(doc, k);
            let name = string_from_chars(name_chars.as_slice());
            let link = match attr_lookup(&doc[k], "href") {
                Some(h) => h,
                None => String::new(),
            };
            let item = Link { name, link };
            let ghost prev = r.deep_view();
            r.push(item);
            proof {
                assert(forall|q: int|
                    0 <= q < prev.len() ==> #[trigger] r.deep_view()[q] == prev[q]);
                assert(r.deep_view()[prev.len() as int] == item@);
                assert(r.deep_view() =~= prev + anchor_at(dv, k as int));
            }
        } else {
            proof {
                assert(r.deep_view() =~= r.deep_view() + anchor_at(dv, k as int));
            }
        }
        k = k + 1;
    }
    r
}

/// The mirror of a list item at `k`, as a sequence of none or one value: its
/// links are the anchors of the item's subtree.
pub open spec fn mirror_at(doc: Seq<NodeView>, k: int) -> Seq<MirrorView> {
    if is_elem(doc[k]) && tag_of(doc[k]) == "li"@ {
        seq![MirrorView { links: anchors_upto(doc, k + 1, subtree_end(doc, k)) }]
    } else {
        Seq::empty()
    }
}

/// The mirrors built from the list items among the positions `[lo, k)`.
pub open spec fn mirrors_upto(doc: Seq<NodeView>, lo: int, k: int) -> Seq<MirrorView>
    decreases k - lo,
{
    if k <= lo {
        Seq::empty()
    } else {
        mirrors_upto(doc, lo, k - 1) + mirror_at(doc, k - 1)
    }
}

/// Collects the mirrors of the list items among the positions `[lo, hi)`.
fn collect_mirrors(doc: &Vec<FlatNode>, lo: usize, hi: usize) -> (r: Vec<Mirror>)
    requires
        lo <= hi <= doc@.len(),
    ensures
        r.deep_view() == mirrors_upto(doc.deep_view(), lo as int, hi as int),
{
    let ghost dv = doc.deep_view();
    let mut r: Vec<Mirror> = Vec::new();
    let mut k: usize = lo;
    while k < hi
        invariant
            lo <= k <= hi <= doc@.len(),
            dv == doc.deep_view(),
            r.deep_view() == mirrors_upto(dv, lo as int, k as int),
        decreases hi - k,
    {
        proof {
            deep_index(doc, k as int);
        }
        if tag_is(&doc[k], "li") {
            let se = subtree_end_exec(doc, k);
            let links = collect_anchors(doc, k + 1, se);
            let item = Mirror { links };
            let ghost prev = r.deep_view();
            r.push(item);
            proof {
                assert(forall|q: int|
                    0 <= q < prev.len() ==> #[trigger] r.deep_view()[q] == prev[q]);
                assert(r.deep_view()[prev.len() as int] == item@);
                assert(r.deep_view() =~= prev + mirror_at(dv, k as int));
            }
        } else {
            proof {
                assert(r.deep_view() =~= r.deep_view() + mirror_at(dv, k as int));
            }
        }
        k = k + 1;
    }
    r
}

/// Whether the node at `k` is the cover pattern: an `img` under an `a` under
/// a `p` paragraph that directly follows an `h3` heading.
pub open spec fn is_cover_img(doc: Seq<NodeView>, k: int) -> bool {
    is_linked_img(doc, k) && match parent_of(doc, k) {
        Some(p) => match parent_of(doc, p) {
            Some(q) => is_elem(doc[q]) && tag_of(doc[q]) == "p"@ && match prev_elem_sib(doc, q) {
                Some(h) => tag_of(doc[h]) == "h3"@,
                None => false,
            },
            None => false,
        },
        None => false,
    }
}

/// Checks `is_cover_img` at `k`.
fn is_cover_img_exec(doc: &Vec<FlatNode>, k: usize) -> (r: bool)
    requires
        k < doc@.len(),
    ensures
        r == is_cover_img(doc.deep_view(), k as int),
{
    let ghost dv = doc.deep_view();
    if !is_linked_img_exec(doc, k) {
        return false;
    }
    match parent_exec(doc, k) {
        Some(p) => {
            match parent_exec(doc, p) {
                Some(q) => {
                    proof {
                        deep_index(doc, q as int);
                    }
                    if !tag_is(&doc[q], "p") {
                        return false;
                    }
                    proof {
                        crate::dom::lemma_prev_elem_sib_from(
                            dv,
                            depth_of(dv[q as int]),
                            q - 1,
                        );
                    }
                    match prev_elem_sib_exec(doc, q) {
                        Some(h) => {
                            proof {
                                deep_index(doc, h as int);
                            }
                            tag_is(&doc[h], "h3")
                        },
                        None => false,
                    }
                },
                None => false,
            }
        },
        None => false,
    }
}

/// The first cover-pattern image among the positions `[j, hi)`.
pub open spec fn first_cover_from(doc: Seq<NodeView>, j: int, hi: int) -> Option<int>
    decreases hi - j,
{
    if j >= hi {
        None
    } else if is_cover_img(doc, j) {
        Some(j)
    } else {
        first_cover_from(doc, j + 1, hi)
    }
}

/// The cover image source: the `src` of the first cover-pattern image among
/// the positions `[lo, hi)`, empty when there is none or it has no source.
pub open spec fn cover_src_spec(doc: Seq<NodeView>, lo: int, hi: int) -> Seq<char> {
    match first_cover_from(doc, lo, hi) {
        Some(k) => match attr_spec(doc[k], "src"@) {
            Some(s) => s,
            None => Seq::empty(),
        },
        None => Seq::empty(),
    }
}

/// Finds the cover image source among the positions `[lo, hi)`.
fn cover_src_exec(doc: &Vec<FlatNode>, lo: usize, hi: usize) -> (r: String)
    requires
        lo <= hi <= doc@.len(),
    ensures
        r@ == cover_src_spec(doc.deep_view(), lo as int, hi as int),
{
    let ghost dv = doc.deep_view();
    let mut k: usize = lo;
    while k < hi
        invariant
            lo <= k <= hi <= doc@.len(),
            dv == doc.deep_view(),
            first_cover_from(dv, lo as int, hi as int) == first_cover_from(
                dv,
                k as int,
                hi as int,
            ),
        decreases hi - k,
    {
        if is_cover_img_exec(doc, k) {
            proof {
                deep_index(doc, k as int);
            }
            match attr_lookup(&doc[k], "src") {
                Some(s) => {
                    return s;
                },
                None => {
                    return String::new();
                },
            }
        }
        k = k + 1;
    }
    String::new()
}

/// The classes a `key: value` line can fall under, told apart by the
/// substrings of its lower-cased key, tried in this order.
#[derive(PartialEq, Eq, Structural)]
pub enum LineClass {
    Genre,
    Company,
    Language,
    Original,
    Repack,
    Plain,
}

/// The key and value of a line split at its first `": "`, the key lower-cased.
pub open spec fn key_value_of(line: Seq<char>) -> Option<(Seq<char>, Seq<char>)> {
    match find_spec(line, seq![':', ' ']) {
        Some(i) => Some((lower_seq(line.subrange(0, i)), line.subrange(i + 2, line.len() as int))),
        None => None,
    }
}

/// The class of a line.
pub open spec fn line_class(line: Seq<char>) -> LineClass {
    match key_value_of(line) {
        Some(kv) => {
            if contains_spec(kv.0, "genre"@) {
                LineClass::Genre
            } else if contains_spec(kv.0, "compan"@) {
                LineClass::Company
            } else if contains_spec(kv.0, "language"@) {
                LineClass::Language
            } else if contains_spec(kv.0, "original"@) {
                LineClass::Original
            } else if contains_spec(kv.0, "repack"@) {
                LineClass::Repack
            } else {
                LineClass::Plain
            }
        },
        None => LineClass::Plain,
    }
}

/// The value part of a line, empty when the line has no `": "`.
pub open spec fn line_value(line: Seq<char>) -> Seq<char> {
    match key_value_of(line) {
        Some(kv) => kv.1,
        None => Seq::empty(),
    }
}

/// Splits a line into its class and value.
fn classify_line(line: &Vec<char>) -> (r: (LineClass, Vec<char>))
    ensures
        r.0 == line_class(line@),
        r.1@ == line_value(line@),
{
    let pat: Vec<char> = vec![':', ' '];
    proof {
        assert(pat@ =~= seq![':', ' ']);
    }
    match find_sub(line, &pat) {
        Some(i) => {
            let n: usize = line.len();
            proof {
                crate::strutil::lemma_find_bounds(line@, pat@, 0);
                assert(i + 2 <= n);
            }
            let key = lower_ascii(&sub_chars(line, 0, i));
            let value = sub_chars(line, i + 2, n);
            let class = if contains_sub(&key, &chars_vec("genre")) {
                LineClass::Genre
            } else if contains_sub(&key, &chars_vec("compan")) {
                LineClass::Company
            } else if contains_sub(&key, &chars_vec("language")) {
                LineClass::Language
            } else if contains_sub(&key, &chars_vec("original")) {
                LineClass::Original
            } else if contains_sub(&key, &chars_vec("repack")) {
                LineClass::Repack
            } else {
                LineClass::Plain
            };
            (class, value)
        },
        None => (LineClass::Plain, Vec::new()),
    }
}

/// The first paragraph that directly follows a heading among `[j, hi)`.
pub open spec fn first_heading_para_from(doc: Seq<NodeView>, j: int, hi: int) -> Option<int>
    decreases hi - j,
{
    if j >= hi {
        None
    } else if is_section(doc, j) && tag_of(doc[j]) == "p"@ {
        Some(j)
    } else {
        first_heading_para_from(doc, j + 1, hi)
    }
}

/// The `key: value` lines of the info paragraph: the text lines of the first
/// paragraph that follows a heading among `[lo, hi)`, none when there is no
/// such paragraph.
pub open spec fn info_lines_spec(doc: Seq<NodeView>, lo: int, hi: int) -> Seq<Seq<char>> {
    match first_heading_para_from(doc, lo, hi) {
        Some(p) => lines_spec(subtree_text(doc, p)),
        None => Seq::empty(),
    }
}

/// Finds the info paragraph and splits its text into lines.
fn info_lines_exec(doc: &Vec<FlatNode>, lo: usize, hi: usize) -> (r: Vec<Vec<char>>)
    requires
        lo <= hi <= doc@.len(),
    ensures
        r.deep_view() == info_lines_spec(doc.deep_view(), lo as int, hi as int),
{
    let ghost dv = doc.deep_view();
    let mut j: usize = lo;
    while j < hi
        invariant
            lo <= j <= hi <= doc@.len(),
            dv == doc.deep_view(),
            first_heading_para_from(dv, lo as int, hi as int) == first_heading_para_from(
                dv,
                j as int,
                hi as int,
            ),
        decreases hi - j,
    {
        proof {
            deep_index(doc, j as int);
        }
        let heading = section_heading(doc, j);
        let is_para = tag_is(&doc[j], "p");
        if heading.is_some() && is_para {
            let text = subtree_text_exec(doc, j);
            return lines_chars(&text);
        }
        j = j + 1;
    }
    Vec::new()
}

/// The tag values a class accumulates over the first `j` lines: the split,
/// trimmed values of every line of that class, in order.
pub open spec fn tags_upto(lines: Seq<Seq<char>>, cls: LineClass, j: int) -> Seq<Seq<char>>
    decreases j,
{
    if j <= 0 {
        Seq::empty()
    } else {
        tags_upto(lines, cls, j - 1) + if line_class(lines[j - 1]) == cls {
            split_tags_spec(line_value(lines[j - 1]))
        } else {
            Seq::empty()
        }
    }
}

/// The value a size class holds after the first `j` lines: the value of the
/// last line of that class, empty when there is none.
pub open spec fn size_upto(lines: Seq<Seq<char>>, cls: LineClass, j: int) -> Seq<char>
    decreases j,
{
    if j <= 0 {
        Seq::empty()
    } else if line_class(lines[j - 1]) == cls {
        line_value(lines[j - 1])
    } else {
        size_upto(lines, cls, j - 1)
    }
}

/// Appends copies of the pieces of `src` to `dst`.
fn extend_pieces(dst: &mut Vec<Vec<char>>, src: &Vec<Vec<char>>)
    ensures
        final(dst).deep_view() == old(dst).deep_view() + src.deep_view(),
{
    let mut i: usize = 0;
    while i < src.len()
        invariant
            i <= src@.len(),
            dst.deep_view() == old(dst).deep_view() + src.deep_view().subrange(0, i as int),
        decreases src@.len() - i,
    {
        let ghost prev = dst.deep_view();
        let piece = sub_chars(&src[i], 0, src[i].len());
        proof {
            assert(piece@ =~= src@[i as int]@);
        }
        dst.push(piece);
        proof {
            assert(forall|q: int| 0 <= q < prev.len() ==> #[trigger] dst.deep_view()[q] == prev[q]);
            assert(dst.deep_view()[prev.len() as int] == piece@);
            assert(src.deep_view()[i as int] == src@[i as int]@);
            assert(dst.deep_view() =~= old(dst).deep_view() + src.deep_view().subrange(
                0,
                i + 1,
            ));
        }
        i = i + 1;
    }
    proof {
        assert(src.deep_view().subrange(0, src.deep_view().len() as int) =~= src.deep_view());
        assert(final(dst).deep_view() =~= old(dst).deep_view() + src.deep_view());
    }
}

/// Whether the element at `p` is a spoiler block: it carries the class
/// `su-spoiler` and follows a `ul` list that itself follows an `h3` heading.
pub open spec fn matches_spoiler(doc: Seq<NodeView>, p: int) -> bool {
    has_class(doc[p], "su-spoiler"@) && match prev_elem_sib(doc, p) {
        Some(u) => tag_of(doc[u]) == "ul"@ && match prev_elem_sib(doc, u) {
            Some(h) => tag_of(doc[h]) == "h3"@,
            None => false,
        },
        None => false,
    }
}

/// Checks `matches_spoiler` at `p`.
fn matches_spoiler_exec(doc: &Vec<FlatNode>, p: usize) -> (r: bool)
    requires
        p < doc@.len(),
    ensures
        r == matches_spoiler(doc.deep_view(), p as int),
{
    let ghost dv = doc.deep_view();
    proof {
        deep_index(doc, p as int);
    }
    if !has_class_exec(&doc[p], &chars_vec("su-spoiler")) {
        return false;
    }
    proof {
        crate::dom::lemma_prev_elem_sib_from(dv, depth_of(dv[p as int]), p - 1);
    }
    match prev_elem_sib_exec(doc, p) {
        Some(u) => {
            proof {
                deep_index(doc, u as int);
                crate::dom::lemma_prev_elem_sib_from(dv, depth_of(dv[u as int]), u - 1);
            }
            if !tag_is(&doc[u], "ul") {
                return false;
            }
            match prev_elem_sib_exec(doc, u) {
                Some(h) => {
                    proof {
                        deep_index(doc, h as int);
                    }
                    tag_is(&doc[h], "h3")
                },
                None => false,
            }
        },
        None => false,
    }
}

/// Whether some enclosing node of the node at `k` is a spoiler block.
pub open spec fn under_spoiler(doc: Seq<NodeView>, k: int) -> bool
    decreases k,
    when 0 <= k < doc.len()
    via under_spoiler_dec
{
    match parent_of(doc, k) {
        None => false,
        Some(p) => matches_spoiler(doc, p) || under_spoiler(doc, p),
    }
}

#[via_fn]
proof fn under_spoiler_dec(doc: Seq<NodeView>, k: int) {
    if 0 <= k < doc.len() {
        crate::dom::lemma_parent_from(doc, depth_of(doc[k]), k - 1);
    }
}

/// Checks `under_spoiler` at `k`.
fn under_spoiler_exec(doc: &Vec<FlatNode>, k: usize) -> (r: bool)
    requires
        k < doc@.len(),
    ensures
        r == under_spoiler(doc.deep_view(), k as int),
{
    let ghost dv = doc.deep_view();
    let mut cur: usize = k;
    loop
        invariant
            cur <= k < doc@.len(),
            dv == doc.deep_view(),
            under_spoiler(dv, k as int) == under_spoiler(dv, cur as int),
        decreases cur,
    {
        match parent_exec(doc, cur) {
            None => {
                return false;
            },
            Some(p) => {
                if matches_spoiler_exec(doc, p) {
                    return true;
                }
                cur = p;
            },
        }
    }
}

/// The first spoiler-content element among `[j, hi)`: one with the class
/// `su-spoiler-content` inside a spoiler block.
pub open spec fn first_spoiler_content_from(doc: Seq<NodeView>, j: int, hi: int) -> Option<int>
    decreases hi - j,
{
    if j >= hi {
        None
    } else if has_class(doc[j], "su-spoiler-content"@) && under_spoiler(doc, j) {
        Some(j)
    } else {
        first_spoiler_content_from(doc, j + 1, hi)
    }
}

/// The game description: the serialized contents of the first spoiler-content
/// element among `[lo, hi)`, empty when there is none.
pub open spec fn game_desc_spec(doc: Seq<NodeView>, lo: int, hi: int) -> Seq<char> {
    match first_spoiler_content_from(doc, lo, hi) {
        Some(k) => inner_markup(doc, k),
        None => Seq::empty(),
    }
}

/// Finds and serializes the game description among `[lo, hi)`.
fn game_desc_exec(doc: &Vec<FlatNode>, lo: usize, hi: usize) -> (r: Vec<char>)
    requires
        lo <= hi <= doc@.len(),
    ensures
        r@ == game_desc_spec(doc.deep_view(), lo as int, hi as int),
{
    let ghost dv = doc.deep_view();
    let cls = chars_vec("su-spoiler-content");
    let mut j: usize = lo;
    while j < hi
        invariant
            lo <= j <= hi <= doc@.len(),
            dv == doc.deep_view(),
            cls@ == "su-spoiler-content"@,
            first_spoiler_content_from(dv, lo as int, hi as int) == first_spoiler_content_from(
                dv,
                j as int,
                hi as int,
            ),
        decreases hi - j,
    {
        proof {
            deep_index(doc, j as int);
        }
        let classed = has_class_exec(&doc[j], &cls);
        if classed {
            if under_spoiler_exec(doc, j) {
                return inner_markup_exec(doc, j);
            }
        }
        j = j + 1;
    }
    Vec::new()
}

/// The screenshots after scanning the sections in `[lo, j)`: the linked-image
/// sources of the last section captioned `Screenshots`.
pub open spec fn screenshots_state(doc: Seq<NodeView>, lo: int, j: int) -> Seq<Seq<char>> {
    match last_section(doc, lo, j, SectionKind::Screenshots) {
        Some(i) => imgs_upto(doc, i + 1, subtree_end(doc, i)),
        None => Seq::empty(),
    }
}

/// The repack notes after scanning the sections in `[lo, j)`: the trimmed
/// serialized contents of the last section captioned `Repack`.
pub open spec fn repack_state(doc: Seq<NodeView>, lo: int, j: int) -> Seq<char> {
    match last_section(doc, lo, j, SectionKind::Repack) {
        Some(i) => trim_spec(inner_markup(doc, i)),
        None => Seq::empty(),
    }
}

/// The mirrors after scanning the sections in `[lo, j)`: one mirror per list
/// item of the last section captioned `Mirrors`.
pub open spec fn mirrors_state(doc: Seq<NodeView>, lo: int, j: int) -> Seq<MirrorView> {
    match last_section(doc, lo, j, SectionKind::Mirrors) {
        Some(i) => mirrors_upto(doc, i + 1, subtree_end(doc, i)),
        None => Seq::empty(),
    }
}

/// What extraction yields on the flat document `doc` whose primary content
/// element stands at `c`, once title, link and publish instant are known.
pub open spec fn parse_info_spec(
    doc: Seq<NodeView>,
    c: int,
    title: Seq<char>,
    link: Seq<char>,
    published: int,
) -> ExtractedView {
    let lo = c + 1;
    let hi = subtree_end(doc, c);
    let lines = info_lines_spec(doc, lo, hi);
    ExtractedView {
        release: ReleaseView {
            title,
            link,
            published,
            cover_src: cover_src_spec(doc, lo, hi),
            original_size: size_upto(lines, LineClass::Original, lines.len() as int),
            repack_size: size_upto(lines, LineClass::Repack, lines.len() as int),
            mirrors: mirrors_state(doc, lo, hi),
            screenshots: screenshots_state(doc, lo, hi),
            repack_description: repack_state(doc, lo, hi),
            game_description: game_desc_spec(doc, lo, hi),
        },
        languages: tags_upto(lines, LineClass::Language, lines.len() as int),
        companies: tags_upto(lines, LineClass::Company, lines.len() as int),
        genres: tags_upto(lines, LineClass::Genre, lines.len() as int),
    }
}

/// Extracts every field of a release from the content element at `c`,
/// walking the heading-introduced sections and the `key: value` paragraph.
#[verifier::rlimit(80)]
pub fn parse_info_from_html(
    doc: &Vec<FlatNode>,
    c: usize,
    title: String,
    link: String,
    published: i64,
) -> (r: Extracted)
    requires
        c < doc@.len(),
    ensures
        r@ == parse_info_spec(doc.deep_view(), c as int, title@, link@, published as int),
{
    let ghost dv = doc.deep_view();
    let n: usize = doc.len();
    let lo: usize = c + 1;
    let hi: usize = subtree_end_exec(doc, c);

    let cover_src = cover_src_exec(doc, lo, hi);

    let mut shots: Vec<String> = Vec::new();
    let mut repack_desc: Vec<char> = Vec::new();
    let mut mirrors: Vec<Mirror> = Vec::new();
    let mut j: usize = lo;
    while j < hi
        invariant
            lo <= j <= hi <= doc@.len(),
            dv == doc.deep_view(),
            shots.deep_view() == screenshots_state(dv, lo as int, j as int),
            repack_desc@ == repack_state(dv, lo as int, j as int),
            mirrors.deep_view() == mirrors_state(dv, lo as int, j as int),
        decreases hi - j,
    {
        match section_heading(doc, j) {
            Some(h) => {
                let kind = section_kind_exec(doc, j, h);
                if kind == SectionKind::Screenshots {
                    let se = subtree_end_exec(doc, j);
                    shots = collect_imgs(doc, j + 1, se);
                } else if kind == SectionKind::Repack {
                    let im = inner_markup_exec(doc, j);
                    repack_desc = trim_chars(&im);
                } else if kind == SectionKind::Mirrors {
                    let se = subtree_end_exec(doc, j);
                    mirrors = collect_mirrors(doc, j + 1, se);
                }
            },
            None => {},
        }
        j = j + 1;
    }

    let lines = info_lines_exec(doc, lo, hi);
    let ghost lv = lines.deep_view();
    let mut genres_p: Vec<Vec<char>> = Vec::new();
    let mut companies_p: Vec<Vec<char>> = Vec::new();
    let mut languages_p: Vec<Vec<char>> = Vec::new();
    let mut original_size: Vec<char> = Vec::new();
    let mut repack_size: Vec<char> = Vec::new();
    let mut i: usize = 0;
    while i < lines.len()
        invariant
            i <= lines@.len(),
            lv == lines.deep_view(),
            lv.len() == lines@.len(),
            genres_p.deep_view() == tags_upto(lv, LineClass::Genre, i as int),
            companies_p.deep_view() == tags_upto(lv, LineClass::Company, i as int),
            languages_p.deep_view() == tags_upto(lv, LineClass::Language, i as int),
            original_size@ == size_upto(lv, LineClass::Original, i as int),
            repack_size@ == size_upto(lv, LineClass::Repack, i as int),
        decreases lines@.len() - i,
    {
        proof {
            assert(lines.deep_view()[i as int] =~= lines@[i as int]@);
        }
        let (class, value) = classify_line(&lines[i]);
        if class == LineClass::Genre {
            let pieces = split_tags(&value);
            extend_pieces(&mut genres_p, &pieces);
        } else if class == LineClass::Company {
            let pieces = split_tags(&value);
            extend_pieces(&mut companies_p, &pieces);
        } else if class == LineClass::Language {
            let pieces = split_tags(&value);
            extend_pieces(&mut languages_p, &pieces);
        } else if class == LineClass::Original {
            original_size = value;
        } else if class == LineClass::Repack {
            repack_size = value;
        }
        proof {
            let ii = i as int;
            assert(tags_upto(lv, LineClass::Genre, ii + 1) =~~= genres_p.deep_view());
            assert(tags_upto(lv, LineClass::Company, ii + 1) =~~= companies_p.deep_view());
            assert(tags_upto(lv, LineClass::Language, ii + 1) =~~= languages_p.deep_view());
        }
        i = i + 1;
    }

    let game_desc = game_desc_exec(doc, lo, hi);

    let release = Release {
        title,
        link,
        published,
        cover_src,
        original_size: string_from_chars(original_size.as_slice()),
        repack_size: string_from_chars(repack_size.as_slice()),
        mirrors,
        screenshots: shots,
        repack_description: string_from_chars(repack_desc.as_slice()),
        game_description: string_from_chars(game_desc.as_slice()),
    };
    let r = Extracted {
        release,
        languages: strings_of_pieces(&languages_p),
        companies: strings_of_pieces(&companies_p),
        genres: strings_of_pieces(&genres_p),
    };
    proof {
        assert(lv.subrange(0, lv.len() as int) =~= lv);
    }
    r
}

/// The first element at or after `j` that carries the class `cls`.
pub open spec fn first_class_from(doc: Seq<NodeView>, cls: Seq<char>, j: int) -> Option<int>
    decreases doc.len() + 1 - j,
    when 0 <= j
{
    if j >= doc.len() {
        None
    } else if has_class(doc[j], cls) {
        Some(j)
    } else {
        first_class_from(doc, cls, j + 1)
    }
}

/// Finds the first element of the document carrying the class `cls`.
fn find_class(doc: &Vec<FlatNode>, cls: &Vec<char>) -> (r: Option<usize>)
    ensures
        match r {
            Some(k) => first_class_from(doc.deep_view(), cls@, 0) == Some(k as int) && k
                < doc@.len(),
            None => first_class_from(doc.deep_view(), cls@, 0) is None,
        },
{
    let ghost dv = doc.deep_view();
    let n: usize = doc.len();
    let mut j: usize = 0;
    while j < n
        invariant
            j <= n,
            n == doc@.len(),
            dv == doc.deep_view(),
            dv.len() == n,
            first_class_from(dv, cls@, 0) == first_class_from(dv, cls@, j as int),
        decreases n - j,
    {
        proof {
            deep_index(doc, j as int);
        }
        if has_class_exec(&doc[j], cls) {
            return Some(j);
        }
        j = j + 1;
    }
    None
}

/// The first element at or after `j` with the tag `tag` whose attribute
/// `name` holds exactly `value`.
pub open spec fn first_tag_attr_from(
    doc: Seq<NodeView>,
    tag: Seq<char>,
    name: Seq<char>,
    value: Seq<char>,
    j: int,
) -> Option<int>
    decreases doc.len() + 1 - j,
    when 0 <= j
{
    if j >= doc.len() {
        None
    } else if is_elem(doc[j]) && tag_of(doc[j]) == tag && attr_spec(doc[j], name) == Some(value) {
        Some(j)
    } else {
        first_tag_attr_from(doc, tag, name, value, j + 1)
    }
}

/// Finds the first element with the given tag whose attribute holds the value.
fn find_tag_attr(doc: &Vec<FlatNode>, tag: &str, name: &str, value: &str) -> (r: Option<usize>)
    ensures
        match r {
            Some(k) => first_tag_attr_from(doc.deep_view(), tag@, name@, value@, 0) == Some(
                k as int,
            ) && k < doc@.len(),
            None => first_tag_attr_from(doc.deep_view(), tag@, name@, value@, 0) is None,
        },
{
    let ghost dv = doc.deep_view();
    let n: usize = doc.len();
    let mut j: usize = 0;
    while j < n
        invariant
            j <= n,
            n == doc@.len(),
            dv == doc.deep_view(),
            dv.len() == n,
            first_tag_attr_from(dv, tag@, name@, value@, 0) == first_tag_attr_from(
                dv,
                tag@,
                name@,
                value@,
                j as int,
            ),
        decreases n - j,
    {
        proof {
            deep_index(doc, j as int);
        }
        if tag_is(&doc[j], tag) {
            match attr_lookup(&doc[j], name) {
                Some(v) => {
                    if str_eq(v.as_str(), value) {
                        return Some(j);
                    }
                },
                None => {},
            }
        }
        j = j + 1;
    }
    None
}

/// The first element of the document at or after `j`.
pub open spec fn first_elem_from(doc: Seq<NodeView>, j: int) -> Option<int>
    decreases doc.len() + 1 - j,
    when 0 <= j
{
    if j >= doc.len() {
        None
    } else if is_elem(doc[j]) {
        Some(j)
    } else {
        first_elem_from(doc, j + 1)
    }
}

/// Finds the first element of the document.
fn find_first_elem(doc: &Vec<FlatNode>) -> (r: Option<usize>)
    ensures
        match r {
            Some(k) => first_elem_from(doc.deep_view(), 0) == Some(k as int) && k < doc@.len(),
            None => first_elem_from(doc.deep_view(), 0) is None,
        },
{
    let ghost dv = doc.deep_view();
    let n: usize = doc.len();
    let mut j: usize = 0;
    while j < n
        invariant
            j <= n,
            n == doc@.len(),
            dv == doc.deep_view(),
            dv.len() == n,
            first_elem_from(dv, 0) == first_elem_from(dv, j as int),
        decreases n - j,
    {
        proof {
            deep_index(doc, j as int);
        }
        if node_is_elem(&doc[j]) {
            return Some(j);
        }
        j = j + 1;
    }
    None
}

/// What extraction yields on a full article page: the primary content block
/// must exist, the publish instant must be present and readable, and a title
/// and a canonical link must be found; everything else degrades to empty.
pub open spec fn page_release_spec(doc: Seq<NodeView>) -> Result<ExtractedView, ExtractError> {
    match first_class_from(doc, "entry-content"@, 0) {
        None => Err(ExtractError::MissingContent),
        Some(c) => match first_tag_attr_from(
            doc,
            "meta"@,
            "property"@,
            "article:published_time"@,
            0,
        ) {
            None => Err(ExtractError::MissingPublished),
            Some(m) => match attr_spec(doc[m], "content"@) {
                None => Err(ExtractError::UnparsableDate),
                Some(ds) => match crate::dates::rfc3339_epoch(ds) {
                    None => Err(ExtractError::UnparsableDate),
                    Some(ts) => match first_class_from(doc, "entry-title"@, 0) {
                        None => Err(ExtractError::MissingTitle),
                        Some(t) => match first_tag_attr_from(doc, "link"@, "rel"@, "canonical"@, 0) {
                            None => Err(ExtractError::MissingLink),
                            Some(l) => match attr_spec(doc[l], "href"@) {
                                None => Err(ExtractError::MissingLink),
                                Some(href) => Ok(
                                    parse_info_spec(doc, c, subtree_text(doc, t), href, ts as int),
                                ),
                            },
                        },
                    },
                },
            },
        },
    }
}

/// Extracts a release from a full article page.
pub fn get_release_from_html(html: &str) -> (r: Result<Extracted, ExtractError>)
    ensures
        match r {
            Ok(e) => page_release_spec(crate::markup::doc_spec(html@)) == Ok::<
                ExtractedView,
                ExtractError,
            >(e@),
            Err(err) => page_release_spec(crate::markup::doc_spec(html@)) == Err::<
                ExtractedView,
                ExtractError,
            >(err),
        },
{
    let doc = crate::markup::parse_markup(html);
    let ghost dv = doc.deep_view();
    let c = match find_class(&doc, &chars_vec("entry-content")) {
        Some(c) => c,
        None => {
            return Err(ExtractError::MissingContent);
        },
    };
    let m = match find_tag_attr(&doc, "meta", "property", "article:published_time") {
        Some(m) => m,
        None => {
            return Err(ExtractError::MissingPublished);
        },
    };
    proof {
        deep_index(&doc, m as int);
    }
    let ds = match attr_lookup(&doc[m], "content") {
        Some(ds) => ds,
        None => {
            return Err(ExtractError::UnparsableDate);
        },
    };
    let ts = match crate::dates::parse_rfc3339(ds.as_str()) {
        Some(ts) => ts,
        None => {
            return Err(ExtractError::UnparsableDate);
        },
    };
    let t = match find_class(&doc, &chars_vec("entry-title")) {
        Some(t) => t,
        None => {
            return Err(ExtractError::MissingTitle);
        },
    };
    let l = match find_tag_attr(&doc, "link", "rel", "canonical") {
        Some(l) => l,
        None => {
            return Err(ExtractError::MissingLink);
        },
    };
    proof {
        deep_index(&doc, l as int);
    }
    let href = match attr_lookup(&doc[l], "href") {
        Some(href) => href,
        None => {
            return Err(ExtractError::MissingLink);
        },
    };
    let title_chars = subtree_text_exec(&doc, t);
    let title = string_from_chars(title_chars.as_slice());
    Ok(parse_info_from_html(&doc, c, title, href, ts))
}

/// What extraction yields on one feed item: title, link and publication date
/// must be present, the date must be readable, the item must carry content,
/// and the content markup must hold at least one element.
pub open spec fn item_release_spec(item: crate::feed::FeedItemView) -> Result<
    ExtractedView,
    ExtractError,
> {
    match item.title {
        None => Err(ExtractError::MissingTitle),
        Some(t) => match item.link {
            None => Err(ExtractError::MissingLink),
            Some(l) => match item.pub_date {
                None => Err(ExtractError::MissingPublished),
                Some(d) => match crate::dates::rfc2822_epoch(d) {
                    None => Err(ExtractError::UnparsableDate),
                    Some(ts) => match item.content {
                        None => Err(ExtractError::MissingContent),
                        Some(html) => {
                            let doc = crate::markup::doc_spec(html);
                            match first_elem_from(doc, 0) {
                                None => Err(ExtractError::MissingContent),
                                Some(c) => Ok(parse_info_spec(doc, c, t, l, ts as int)),
                            }
                        },
                    },
                },
            },
        },
    }
}

/// Law: a fragment that carries a heading with a following captioned image
/// yields a release whose required fields are the given non-empty ones and
/// whose cover is exactly the captioned image's source.
pub proof fn lemma_cover_extracted(
    doc: Seq<NodeView>,
    c: int,
    title: Seq<char>,
    link: Seq<char>,
    published: int,
    k: int,
    src: Seq<char>,
)
    requires
        0 <= c < doc.len(),
        title.len() > 0,
        link.len() > 0,
        first_cover_from(doc, c + 1, subtree_end(doc, c)) == Some(k),
        attr_spec(doc[k], "src"@) == Some(src),
    ensures
        parse_info_spec(doc, c, title, link, published).release.title == title,
        parse_info_spec(doc, c, title, link, published).release.title.len() > 0,
        parse_info_spec(doc, c, title, link, published).release.link == link,
        parse_info_spec(doc, c, title, link, published).release.link.len() > 0,
        parse_info_spec(doc, c, title, link, published).release.published == published,
        parse_info_spec(doc, c, title, link, published).release.cover_src == src,
{
}

/// Law: a full page whose required fields are all located, whose title text
/// and canonical target are non-empty, and whose content block carries a
/// heading with a following captioned image, yields a release with exactly
/// that non-empty title and link and with the image's source as its cover.
pub proof fn lemma_page_cover_extracted(
    doc: Seq<NodeView>,
    c: int,
    t: int,
    l: int,
    k: int,
    src: Seq<char>,
)
    requires
        page_release_spec(doc) is Ok,
        first_class_from(doc, "entry-content"@, 0) == Some(c),
        first_class_from(doc, "entry-title"@, 0) == Some(t),
        subtree_text(doc, t).len() > 0,
        first_tag_attr_from(doc, "link"@, "rel"@, "canonical"@, 0) == Some(l),
        attr_spec(doc[l], "href"@) is Some,
        attr_spec(doc[l], "href"@).unwrap().len() > 0,
        first_cover_from(doc, c + 1, subtree_end(doc, c)) == Some(k),
        attr_spec(doc[k], "src"@) == Some(src),
    ensures
        page_release_spec(doc) matches Ok(e) && {
            &&& e.release.title == subtree_text(doc, t)
            &&& e.release.title.len() > 0
            &&& e.release.link == attr_spec(doc[l], "href"@).unwrap()
            &&& e.release.link.len() > 0
            &&& e.release.cover_src == src
        },
{
}

/// Law: a page without the primary content block yields no release.
pub proof fn lemma_no_content_no_release(doc: Seq<NodeView>)
    requires
        first_class_from(doc, "entry-content"@, 0) is None,
    ensures
        page_release_spec(doc) == Err::<ExtractedView, ExtractError>(ExtractError::MissingContent),
{
}

/// Law: a page that yields a release located every required field — the
/// primary content block, the publish instant, the title and the canonical
/// link; where any of them cannot be located, extraction yields no release.
pub proof fn lemma_release_locates_required(doc: Seq<NodeView>)
    ensures
        page_release_spec(doc) is Ok ==> first_class_from(doc, "entry-content"@, 0) is Some,
        page_release_spec(doc) is Ok ==> first_tag_attr_from(
            doc,
            "meta"@,
            "property"@,
            "article:published_time"@,
            0,
        ) is Some,
        page_release_spec(doc) is Ok ==> first_class_from(doc, "entry-title"@, 0) is Some,
        page_release_spec(doc) is Ok ==> first_tag_attr_from(doc, "link"@, "rel"@, "canonical"@, 0)
            is Some,
{
}

/// Law: a feed item missing its title, link, publication date or content
/// yields no release, with the matching error.
pub proof fn lemma_item_requires_fields(item: crate::feed::FeedItemView)
    ensures
        item.title is None ==> item_release_spec(item) == Err::<ExtractedView, ExtractError>(
            ExtractError::MissingTitle,
        ),
        item.title is Some && item.link is None ==> item_release_spec(item) == Err::<
            ExtractedView,
            ExtractError,
        >(ExtractError::MissingLink),
        item.title is Some && item.link is Some && item.pub_date is None ==> item_release_spec(
            item,
        ) == Err::<ExtractedView, ExtractError>(ExtractError::MissingPublished),
{
}

/// Extracts a release from one feed item: title, link and publication date
/// come from the item's own fields, everything else from its content markup.
pub fn get_release_from_item(item: &crate::feed::FeedItem) -> (r: Result<Extracted, ExtractError>)
    ensures
        match r {
            Ok(e) => item_release_spec(item@) == Ok::<ExtractedView, ExtractError>(e@),
            Err(err) => item_release_spec(item@) == Err::<ExtractedView, ExtractError>(err),
        },
{
    let title = match &item.title {
        Some(t) => t.clone(),
        None => {
            return Err(ExtractError::MissingTitle);
        },
    };
    let link = match &item.link {
        Some(l) => l.clone(),
        None => {
            return Err(ExtractError::MissingLink);
        },
    };
    let pub_date = match &item.pub_date {
        Some(d) => d,
        None => {
            return Err(ExtractError::MissingPublished);
        },
    };
    let ts = match crate::dates::parse_rfc2822(pub_date.as_str()) {
        Some(ts) => ts,
        None => {
            return Err(ExtractError::UnparsableDate);
        },
    };
    let html = match &item.content {
        Some(html) => html,
        None => {
            return Err(ExtractError::MissingContent);
        },
    };
    let doc = crate::markup::parse_markup(html.as_str());
    let c = match find_first_elem(&doc) {
        Some(c) => c,
        None => {
            return Err(ExtractError::MissingContent);
        },
    };
    Ok(parse_info_from_html(&doc, c, title, link, ts))
}

} // verus!
