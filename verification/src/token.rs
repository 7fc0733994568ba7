use crate::error::PathError;
use crate::segment::{render_canonical, render_with, seg_text, seg_views, SegView, Segment};
use vstd::prelude::*;
use vstd::string::StrSliceExecFns;

verus! {

/// A separator character: paths accept both `/` and `\`.
pub open spec fn is_sep_char(c: char) -> bool {
    c == '/' || c == '\\'
}

/// The length of the longest prefix of `s` whose characters all are (when
/// `sep` is true) or all are not (when `sep` is false) separator characters.
pub open spec fn run_len(s: Seq<char>, sep: bool) -> int
    decreases s.len(),
{
    if s.len() == 0 || is_sep_char(s[0]) != sep {
        0
    } else {
        1 + run_len(s.drop_first(), sep)
    }
}

/// How one maximal run of characters is classified: a separator run is a
/// single `Separator`; a non-separator run is `Dot` when its whole text is
/// exactly `.`, `DotDot` when exactly `..`, and otherwise one literal
/// segment holding the entire run.
pub open spec fn classify_run(t: Seq<char>, sep: bool) -> SegView {
    if sep {
        SegView::Separator
    } else if t.len() == 1 && t[0] == '.' {
        SegView::Dot
    } else if t.len() == 2 && t[0] == '.' && t[1] == '.' {
        SegView::DotDot
    } else {
        SegView::Segment(t)
    }
}

pub proof fn lemma_run_len_bounds(s: Seq<char>, sep: bool)
    ensures
        0 <= run_len(s, sep) <= s.len(),
    decreases s.len(),
{
    if s.len() == 0 || is_sep_char(s[0]) != sep {
    } else {
        lemma_run_len_bounds(s.drop_first(), sep);
    }
}

/// Left-to-right, maximal-munch tokenization of a raw path string: at each
/// position the maximal run of separator or of non-separator characters is
/// consumed and classified by `classify_run`.
pub open spec fn tokenize(s: Seq<char>) -> Seq<SegView>
    decreases s.len()
    via tokenize_decreases
{
    if s.len() == 0 {
        Seq::empty()
    } else {
        let sep = is_sep_char(s[0]);
        let n = run_len(s, sep);
        seq![classify_run(s.take(n), sep)] + tokenize(s.skip(n))
    }
}

#[via_fn]
proof fn tokenize_decreases(s: Seq<char>) {
    if s.len() > 0 {
        lemma_run_len_bounds(s, is_sep_char(s[0]));
        lemma_run_len_bounds(s.drop_first(), is_sep_char(s[0]));
    }
}

/// Whether one segment can come out of the tokenizer: a literal's text is a
/// nonempty run of non-separator characters that is not `.` and not `..`.
pub open spec fn wf_token(seg: SegView) -> bool {
    match seg {
        SegView::Segment(t) => t.len() > 0 && (forall|k: int|
            0 <= k < t.len() ==> !is_sep_char(#[trigger] t[k])) && !(t.len() == 1 && t[0] == '.')
            && !(t.len() == 2 && t[0] == '.' && t[1] == '.'),
        _ => true,
    }
}

/// Whether a segment sequence can come out of the tokenizer: every segment
/// is well-formed, and separator segments alternate with non-separator
/// segments, since each is a maximal run.
pub open spec fn wf_tokens(segs: Seq<SegView>) -> bool {
    (forall|k: int| 0 <= k < segs.len() ==> wf_token(#[trigger] segs[k])) && (forall|k: int|
        0 < k < segs.len() ==> ((#[trigger] segs[k]) is Separator) != (segs[k - 1] is Separator))
}

proof fn lemma_run_len_props(s: Seq<char>, sep: bool)
    ensures
        0 <= run_len(s, sep) <= s.len(),
        forall|k: int| 0 <= k < run_len(s, sep) ==> is_sep_char(#[trigger] s[k]) == sep,
        run_len(s, sep) < s.len() ==> is_sep_char(s[run_len(s, sep)]) != sep,
    decreases s.len(),
{
    if s.len() == 0 || is_sep_char(s[0]) != sep {
    } else {
        lemma_run_len_props(s.drop_first(), sep);
        assert forall|k: int| 0 <= k < run_len(s, sep) implies is_sep_char(#[trigger] s[k]) == sep by {
            if k > 0 {
                assert(s.drop_first()[k - 1] == s[k]);
            }
        }
        if run_len(s, sep) < s.len() {
            assert(s.drop_first()[run_len(s, sep) - 1] == s[run_len(s, sep)]);
        }
    }
}

/// Every tokenization is well-formed: each literal is a nonempty run of
/// non-separator characters other than `.` and `..`, and separators
/// alternate with non-separators. This is the stability a `Path` built by
/// parsing enjoys: rendering it and tokenizing the rendering cannot split
/// its segments differently.
pub proof fn lemma_tokenize_wf(s: Seq<char>)
    ensures
        wf_tokens(tokenize(s)),
        tokenize(s).len() > 0 <==> s.len() > 0,
        s.len() > 0 ==> ((tokenize(s)[0] is Separator) == is_sep_char(s[0])),
    decreases s.len(),
{
    if s.len() == 0 {
    } else {
        let sep = is_sep_char(s[0]);
        let n = run_len(s, sep);
        lemma_run_len_props(s, sep);
        let first = classify_run(s.take(n), sep);
        let rest = s.skip(n);
        let toks = tokenize(s);
        lemma_tokenize_wf(rest);
        assert(toks == seq![first] + tokenize(rest));
        assert(wf_token(first)) by {
            if !sep {
                let t = s.take(n);
                assert(t.len() == n);
                assert forall|k: int| 0 <= k < t.len() implies !is_sep_char(#[trigger] t[k]) by {
                    assert(t[k] == s[k]);
                }
            }
        }
        assert((first is Separator) == sep);
        if rest.len() > 0 {
            assert(rest[0] == s[n]);
            assert((tokenize(rest)[0] is Separator) != sep);
        }
        assert forall|k: int| 0 <= k < toks.len() implies wf_token(#[trigger] toks[k]) by {
            if k > 0 {
                assert(toks[k] == tokenize(rest)[k - 1]);
            }
        }
        assert forall|k: int|
            0 < k < toks.len() implies ((#[trigger] toks[k]) is Separator) != (toks[k - 1]
            is Separator) by {
            assert(toks[k] == tokenize(rest)[k - 1]);
            if k > 1 {
                assert(toks[k - 1] == tokenize(rest)[k - 2]);
            }
        }
    }
}

proof fn lemma_run_len_concat(a: Seq<char>, b: Seq<char>, sep: bool)
    requires
        forall|k: int| 0 <= k < a.len() ==> is_sep_char(#[trigger] a[k]) == sep,
        b.len() > 0 ==> is_sep_char(b[0]) != sep,
    ensures
        run_len(a + b, sep) == a.len(),
    decreases a.len(),
{
    if a.len() == 0 {
        assert(a + b =~= b);
    } else {
        assert((a + b)[0] == a[0]);
        assert((a + b).drop_first() =~= a.drop_first() + b);
        assert forall|k: int|
            0 <= k < a.drop_first().len() implies is_sep_char(#[trigger] a.drop_first()[k])
            == sep by {
            assert(a.drop_first()[k] == a[k + 1]);
        }
        lemma_run_len_concat(a.drop_first(), b, sep);
    }
}

proof fn lemma_tokenize_render(segs: Seq<SegView>)
    requires
        wf_tokens(segs),
    ensures
        tokenize(render_canonical(segs)) == segs,
    decreases segs.len(),
{
    if segs.len() == 0 {
    } else {
        let first = segs[0];
        let rest = segs.drop_first();
        let a = seg_text(first, '/');
        let b = render_with(rest, '/');
        let sep = first is Separator;
        assert(wf_token(first));
        assert(a.len() > 0);
        assert forall|k: int| 0 <= k < a.len() implies is_sep_char(#[trigger] a[k]) == sep by {
            assert(is_sep_char('/'));
            assert(!is_sep_char('.'));
        }
        assert forall|k: int| 0 <= k < rest.len() implies wf_token(#[trigger] rest[k]) by {
            assert(rest[k] == segs[k + 1]);
        }
        assert forall|k: int|
            0 < k < rest.len() implies ((#[trigger] rest[k]) is Separator) != (rest[k - 1]
            is Separator) by {
            assert(rest[k] == segs[k + 1]);
            assert(rest[k - 1] == segs[k]);
        }
        if rest.len() > 0 {
            let a2 = seg_text(rest[0], '/');
            assert(b == a2 + render_with(rest.drop_first(), '/'));
            assert(wf_token(rest[0]));
            assert(a2.len() > 0);
            assert(b[0] == a2[0]);
            assert(rest[0] == segs[1]);
            assert((rest[0] is Separator) == !sep);
            assert(is_sep_char(b[0]) != sep) by {
                assert(is_sep_char('/'));
                assert(!is_sep_char('.'));
            }
        }
        lemma_run_len_concat(a, b, sep);
        let full = a + b;
        assert(render_canonical(segs) == full);
        assert(full.len() == a.len() + b.len());
        assert(full[0] == a[0]);
        assert(is_sep_char(full[0]) == sep);
        let n = run_len(full, is_sep_char(full[0]));
        assert(n == a.len());
        assert(full.take(n) =~= a);
        assert(full.skip(n) =~= b);
        assert(classify_run(a, sep) == first);
        lemma_tokenize_render(rest);
        assert(tokenize(full) == seq![first] + tokenize(b));
        assert(seq![first] + rest =~= segs);
    }
}

/// Round trip of parsing and canonical rendering: tokenizing a string,
/// rendering the segments canonically, and tokenizing again gives the same
/// segments, for any input whose separators are all written `/`.
pub proof fn lemma_parse_render_round_trip(s: Seq<char>)
    requires
        forall|k: int| 0 <= k < s.len() ==> #[trigger] s[k] != '\\',
    ensures
        tokenize(render_canonical(tokenize(s))) == tokenize(s),
{
    lemma_tokenize_wf(s);
    lemma_tokenize_render(tokenize(s));
}

/// The raw token classes of the path tokenizer. The tokenizer itself is
/// `Token::from_str`, which hands back classified [`Segment`]s directly.
#[derive(Debug)]
pub enum Token {
    /// A run of one or more separator characters.
    Separator,
    /// A run of one or more non-separator characters other than `.` and `..`.
    Segment,
    /// Exactly `.`.
    Dot,
    /// Exactly `..`.
    DotDot,
    /// A slice that matches no token class; unreachable, since the two run
    /// classes jointly cover every character.
    Error,
}

/// Whether `c` is a directory-separator character.
fn is_sep(c: char) -> (r: bool)
    ensures
        r == is_sep_char(c),
{
    c == '/' || c == '\\'
}

impl Token {
    /// Tokenizes a raw path string into classified segments, scanning left
    /// to right with maximal munch. Every character belongs to a separator
    /// run or to a non-separator run, so this always succeeds.
    pub fn from_str(path: &str) -> (r: Result<Vec<Segment>, PathError>)
        ensures
            r matches Ok(v) && seg_views(v@) == tokenize(path@),
    {
        let len = path.unicode_len();
        let mut segments: Vec<Segment> = Vec::new();
        let mut i: usize = 0;
        proof {
            assert(path@.skip(0) =~= path@);
            assert(seg_views(segments@) + tokenize(path@) =~= tokenize(path@));
        }
        while i < len
            invariant
                len == path@.len(),
                i <= len,
                seg_views(segments@) + tokenize(path@.skip(i as int)) == tokenize(path@),
            decreases len - i,
        {
            let sep = is_sep(path.get_char(i));
            let mut j: usize = i + 1;
            proof {
                assert(path@.skip(i as int).drop_first() =~= path@.skip(i + 1));
            }
            while j < len && is_sep(path.get_char(j)) == sep
                invariant
                    len == path@.len(),
                    i < j <= len,
                    sep == is_sep_char(path@[i as int]),
                    run_len(path@.skip(i as int), sep) == (j - i) + run_len(
                        path@.skip(j as int),
                        sep,
                    ),
                decreases len - j,
            {
                proof {
                    assert(path@.skip(j as int).drop_first() =~= path@.skip(j + 1));
                }
                j = j + 1;
            }
            proof {
                assert(run_len(path@.skip(j as int), sep) == 0);
                assert(run_len(path@.skip(i as int), sep) == j - i);
            }
            let seg: Segment = if sep {
                Segment::Separator
            } else if j - i == 1 && path.get_char(i) == '.' {
                Segment::Dot
            } else if j - i == 2 && path.get_char(i) == '.' && path.get_char(i + 1) == '.' {
                Segment::DotDot
            } else {
                let text = path.substring_char(i, j);
                Segment::Segment(text.to_owned())
            };
            proof {
                let s = path@.skip(i as int);
                assert(s.take((j - i) as int) =~= path@.subrange(i as int, j as int));
                assert(s.take((j - i) as int)[0] == path@[i as int]);
                assert(j - i == 2 ==> s.take((j - i) as int)[1] == path@[i + 1]);
                assert(seg@ == classify_run(s.take(run_len(s, is_sep_char(s[0]))), is_sep_char(s[0])));
                assert(s.skip((j - i) as int) =~= path@.skip(j as int));
                assert(tokenize(s) == seq![seg@] + tokenize(path@.skip(j as int)));
                assert(seg_views(segments@.push(seg)) =~= seg_views(segments@).push(seg@));
                assert(seg_views(segments@).push(seg@) + tokenize(path@.skip(j as int)) =~= seg_views(
                    segments@,
                ) + tokenize(s));
            }
            segments.push(seg);
            i = j;
        }
        proof {
            assert(path@.skip(len as int) =~= Seq::<char>::empty());
            assert(seg_views(segments@) + tokenize(path@.skip(len as int)) =~= seg_views(segments@));
        }
        Ok(segments)
    }
}

} // verus!
