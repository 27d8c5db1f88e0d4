//! Text put together out of segments.
use vstd::prelude::*;
use vstd::string::*;

use crate::text::{chars_of, is_white_space, trim, trim_is_final, trimmed, white_space};

verus! {

/// `base` with `segment` behind it: without the white space around the
/// segment, and with one space between the two unless one of them brings its
/// own. A segment of white space adds nothing.
pub open spec fn appended(base: Seq<char>, segment: Seq<char>) -> Seq<char> {
    let t = trimmed(segment);
    if t.len() == 0 {
        base
    } else if base.len() == 0 {
        t
    } else if is_white_space(base.last()) || is_white_space(t.first()) {
        base + t
    } else {
        base + " "@ + t
    }
}

/// Appends `segment` to `base`.
pub fn append_text(segment: &str, base: &mut String)
    ensures
        final(base)@ == appended(old(base)@, segment@),
{
    let t = trim(segment);
    if t.is_empty() {
        return ;
    }
    if base.as_str().is_empty() {
        base.append(t);
        assert(base@ =~= t@);
        return ;
    }
    let b: Vec<char> = chars_of(base.as_str());
    let f: char = t.get_char(0);
    if white_space(b[b.len() - 1]) || white_space(f) {
        base.append(t);
    } else {
        base.append(" ");
        base.append(t);
    }
}

/// `a` with `b` behind it.
pub fn concat_text(a: &str, b: &str) -> (r: String)
    ensures
        r@ == appended(a@, b@),
{
    let mut out = a.to_owned();
    append_text(b, &mut out);
    out
}

/// Appending keeps what was there, adds the trimmed segment at the end, and
/// never puts two words together: between two texts neither of which brings
/// white space there is a space.
pub proof fn appending_keeps_words(base: Seq<char>, segment: Seq<char>)
    ensures
        base.is_prefix_of(appended(base, segment)),
        trimmed(segment).len() > 0 ==> appended(base, segment).skip(
            appended(base, segment).len() - trimmed(segment).len(),
        ) == trimmed(segment),
        trimmed(segment).len() > 0 && base.len() > 0 && !is_white_space(base.last()) ==> appended(
            base,
            segment,
        ) == base + " "@ + trimmed(segment),
        trimmed(segment).len() == 0 ==> appended(base, segment) == base,
{
    let t = trimmed(segment);
    let r = appended(base, segment);
    trim_is_final(segment);
    if t.len() > 0 {
        assert(r.skip(r.len() - t.len()) =~= t);
    }
    assert(r.take(base.len() as int) =~= base);
}

/// White space around a segment makes no difference.
pub proof fn appending_ignores_margins(base: Seq<char>, segment: Seq<char>)
    ensures
        appended(base, trimmed(segment)) == appended(base, segment),
{
    trim_is_final(segment);
}

/// The first segment begins the text, and one behind white space follows it
/// without more.
pub proof fn appending_adds_no_second_space(base: Seq<char>, segment: Seq<char>)
    ensures
        base.len() == 0 ==> appended(base, segment) == trimmed(segment),
        base.len() > 0 && is_white_space(base.last()) ==> appended(base, segment) == base
            + trimmed(segment),
{
    let t = trimmed(segment);
    if t.len() == 0 {
        assert(base + t =~= base);
        if base.len() == 0 {
            assert(base =~= t);
        }
    }
}

} // verus!
