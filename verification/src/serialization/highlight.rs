use crate::serialization::color::{colored, push_colored, ColorRole};
use crate::serialization::types::RenderConfig;
use crate::utils::text::str_eq;
use regex::Regex;
use vstd::prelude::*;

verus! {

/// The texts of the successive matches of a pattern in a text.
pub uninterp spec fn match_texts(re: Regex, text: Seq<char>) -> Seq<Seq<char>>;

/// The parts of a text that no match of a pattern covers: what stands before
/// the first match, between two matches, and behind the last.
pub uninterp spec fn split_texts(re: Regex, text: Seq<char>) -> Seq<Seq<char>>;

/// The texts of a sequence of strings.
pub open spec fn texts_of(pieces: Seq<String>) -> Seq<Seq<char>> {
    Seq::new(pieces.len(), |i: int| pieces[i]@)
}

/// `Regex::find_iter` of the `regex` crate yields the successive
/// non-overlapping matches of the pattern in the text; the wrapper hands out
/// the text of each. They depend on the pattern and the text alone; nothing
/// else is claimed of them.
#[verifier::external_body]
fn texts_of_matches(re: &Regex, text: &str) -> (found: Vec<String>)
    ensures
        texts_of(found@) == match_texts(*re, text@),
{
    re.find_iter(text).map(|m| m.as_str().to_string()).collect()
}

/// `Regex::split` of the `regex` crate yields the parts of the text that are
/// delimited by the matches of the pattern; the wrapper hands out each part.
/// They depend on the pattern and the text alone; nothing else is claimed of
/// them.
#[verifier::external_body]
fn texts_between_matches(re: &Regex, text: &str) -> (parts: Vec<String>)
    ensures
        texts_of(parts@) == split_texts(*re, text@),
{
    re.split(text).map(|part| part.to_string()).collect()
}

/// The parts outside the matches and the matches by turns, beginning and
/// ending with a part outside.
pub open spec fn woven(between: Seq<Seq<char>>, found: Seq<Seq<char>>) -> Seq<Seq<char>> {
    Seq::new(
        (2 * found.len() + 1) as nat,
        |k: int|
            if k % 2 == 0 {
                between[k / 2]
            } else {
                found[k / 2]
            },
    )
}

/// A text cut at the matches of a pattern: the pieces alternate between text
/// outside a match and text of a match, and begin with text outside one.
/// Where there is not one part more outside the matches than there are
/// matches, the text is one piece.
pub open spec fn match_pieces(re: Regex, text: Seq<char>) -> Seq<Seq<char>> {
    let between = split_texts(re, text);
    let found = match_texts(re, text);
    if between.len() == found.len() + 1 {
        woven(between, found)
    } else {
        seq![text]
    }
}

/// Cut a text at the matches of a pattern.
pub fn split_at_matches(re: &Regex, text: &str) -> (pieces: Vec<String>)
    ensures
        texts_of(pieces@) == match_pieces(*re, text@),
{
    let found = texts_of_matches(re, text);
    let parts = texts_between_matches(re, text);
    let ghost between = texts_of(parts@);
    let ghost matched = texts_of(found@);
    let mut pieces: Vec<String> = Vec::new();
    if parts.len() == 0 || parts.len() - 1 != found.len() {
        pieces.push(text.to_owned());
        assert(texts_of(pieces@) =~= seq![text@]);
        return pieces;
    }
    let mut i: usize = 0;
    while i < found.len()
        invariant
            i <= found@.len(),
            parts@.len() == found@.len() + 1,
            between == texts_of(parts@),
            matched == texts_of(found@),
            pieces@.len() == 2 * i,
            forall|k: int| 0 <= k < pieces@.len() ==> (#[trigger] pieces@[k])@ == woven(between, matched)[k],
        decreases found@.len() - i,
    {
        pieces.push(parts[i].clone());
        pieces.push(found[i].clone());
        i += 1;
    }
    pieces.push(parts[i].clone());
    assert(texts_of(pieces@) =~= woven(between, matched));
    pieces
}

/// The pieces from the `k`-th on, one after another; with `mark`, every
/// second piece stands in the color of a match.
pub open spec fn joined_from(pieces: Seq<Seq<char>>, k: int, mark: bool) -> Seq<char>
    decreases pieces.len() - k,
{
    if k < 0 || k >= pieces.len() {
        Seq::empty()
    } else {
        colored(ColorRole::Match, pieces[k], mark && k % 2 == 1) + joined_from(pieces, k + 1, mark)
    }
}

/// A text with the matches of a pattern in the color of a match. Where the
/// pieces do not add up to the text, the text stands as it is.
pub open spec fn highlighted(re: Regex, text: Seq<char>) -> Seq<char> {
    let pieces = match_pieces(re, text);
    if joined_from(pieces, 0, false) == text {
        joined_from(pieces, 0, true)
    } else {
        text
    }
}

/// Append `text` with the matches of `re` in the color of a match.
pub fn push_highlighted(out: &mut String, re: &Regex, text: &str)
    ensures
        final(out)@ == old(out)@ + highlighted(*re, text@),
{
    let pieces = split_at_matches(re, text);
    let ghost views = texts_of(pieces@);
    let mut plain = String::new();
    let mut marked = String::new();
    let mut k: usize = 0;
    assert(plain@ + joined_from(views, 0, false) =~= joined_from(views, 0, false));
    assert(marked@ + joined_from(views, 0, true) =~= joined_from(views, 0, true));
    while k < pieces.len()
        invariant
            k <= pieces@.len(),
            views == texts_of(pieces@),
            plain@ + joined_from(views, k as int, false) == joined_from(views, 0, false),
            marked@ + joined_from(views, k as int, true) == joined_from(views, 0, true),
        decreases pieces@.len() - k,
    {
        let ghost p0 = plain@;
        let ghost m0 = marked@;
        let piece = pieces[k].as_str();
        assert(piece@ == views[k as int]);
        plain.push_str(piece);
        push_colored(&mut marked, ColorRole::Match, piece, k % 2 == 1);
        assert(plain@ + joined_from(views, k + 1, false) =~= p0 + joined_from(
            views,
            k as int,
            false,
        ));
        assert(marked@ + joined_from(views, k + 1, true) =~= m0 + joined_from(
            views,
            k as int,
            true,
        ));
        k += 1;
    }
    assert(plain@ =~= joined_from(views, 0, false));
    assert(marked@ =~= joined_from(views, 0, true));
    if str_eq(plain.as_str(), text) {
        out.push_str(marked.as_str());
    } else {
        out.push_str(text);
    }
}

/// How a piece of output of some role is shown: the text `inner` between
/// `pre` and `post`. With color and no search, all of it stands in the color
/// of the role. With color and a search, only the matches inside `inner` are
/// colored. Without color it stands bare.
pub open spec fn painted(
    cfg: &RenderConfig,
    role: ColorRole,
    pre: Seq<char>,
    inner: Seq<char>,
    post: Seq<char>,
) -> Seq<char> {
    if !cfg.color_enabled {
        pre + inner + post
    } else {
        match cfg.grep_highlight {
            Some(re) => pre + highlighted(re, inner) + post,
            None => colored(role, pre + inner + post, true),
        }
    }
}

pub fn push_painted(
    out: &mut String,
    cfg: &RenderConfig,
    role: ColorRole,
    pre: &str,
    inner: &str,
    post: &str,
)
    ensures
        final(out)@ == old(out)@ + painted(cfg, role, pre@, inner@, post@),
{
    if !cfg.color_enabled {
        out.push_str(pre);
        out.push_str(inner);
        out.push_str(post);
        assert(out@ =~= old(out)@ + (pre@ + inner@ + post@));
    } else {
        match &cfg.grep_highlight {
            Some(re) => {
                out.push_str(pre);
                push_highlighted(out, re, inner);
                out.push_str(post);
                assert(out@ =~= old(out)@ + (pre@ + highlighted(*re, inner@) + post@));
            },
            None => {
                out.push_str(crate::serialization::color::sgr_on_code(role));
                out.push_str(pre);
                out.push_str(inner);
                out.push_str(post);
                out.push_str(crate::serialization::color::sgr_off_code(role));
                assert(out@ =~= old(out)@ + colored(role, pre@ + inner@ + post@, true));
            },
        }
    }
}

} // verus!
