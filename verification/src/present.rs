//! The computed parts of the presentation layer: the full-resolution source
//! of a screenshot, and the split of a release title into its short title
//! and subtitle at the first dash or en-dash.

use vstd::prelude::*;

use crate::strutil::{chars_vec, remove_all, remove_all_spec, string_from_chars, sub_chars};

verus! {

/// The query parameters of the fullscreen-screenshot view.
pub struct FullscreenScreenshotParams {
    pub original_url: String,
}

/// The full-resolution source of a screenshot: its preview suffix removed
/// wherever it occurs in the URL.
pub fn fullscreen_screenshot(params: &FullscreenScreenshotParams) -> (r: String)
    ensures
        r@ == remove_all_spec(params.original_url@, ".240p.jpg"@),
{
    let pat = chars_vec(".240p.jpg");
    proof {
        reveal_strlit(".240p.jpg");
    }
    let url = chars_vec(params.original_url.as_str());
    let cleaned = remove_all(&url, &pat);
    string_from_chars(cleaned.as_slice())
}

/// Whether the character splits a title: a dash or an en-dash.
pub open spec fn is_title_sep(c: char) -> bool {
    c == '-' || c == '\u{2013}'
}

/// The position of the first title separator at or after `i`.
pub open spec fn first_sep_from(s: Seq<char>, i: int) -> Option<int>
    decreases s.len() + 1 - i,
    when 0 <= i
{
    if i >= s.len() {
        None
    } else if is_title_sep(s[i]) {
        Some(i)
    } else {
        first_sep_from(s, i + 1)
    }
}

/// The short title: what stands before the first separator, the whole title
/// when there is none.
pub open spec fn short_title_spec(s: Seq<char>) -> Seq<char> {
    match first_sep_from(s, 0) {
        Some(i) => s.subrange(0, i),
        None => s,
    }
}

/// The subtitle: what stands after the first separator, empty when there is
/// none.
pub open spec fn subtitle_spec(s: Seq<char>) -> Seq<char> {
    match first_sep_from(s, 0) {
        Some(i) => s.subrange(i + 1, s.len() as int),
        None => Seq::empty(),
    }
}

/// Splits a release title at its first dash or en-dash into the short title
/// and the subtitle.
pub fn title_parts(title: &str) -> (r: (String, String))
    ensures
        r.0@ == short_title_spec(title@),
        r.1@ == subtitle_spec(title@),
{
    let v = chars_vec(title);
    let n: usize = v.len();
    let mut i: usize = 0;
    while i < n
        invariant
            i <= n,
            n == v@.len(),
            v@ == title@,
            first_sep_from(title@, 0) == first_sep_from(title@, i as int),
        decreases n - i,
    {
        let c = v[i];
        if c == '-' || c == '\u{2013}' {
            let head = sub_chars(&v, 0, i);
            let tail = sub_chars(&v, i + 1, n);
            return (
                string_from_chars(head.as_slice()),
                string_from_chars(tail.as_slice()),
            );
        }
        i = i + 1;
    }
    let whole = sub_chars(&v, 0, n);
    proof {
        assert(v@.subrange(0, n as int) =~= title@);
    }
    (string_from_chars(whole.as_slice()), String::new())
}

} // verus!
