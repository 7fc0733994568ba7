use crate::error::PathError;
use crate::file_name_token::{file_name_seg_views, tokenize_name, FileNameSegView, FileNameSegment, FileNameToken};
use crate::segment::{render_canonical, render_with, seg_text, seg_views, SegView, Segment};
use crate::token::{is_sep_char, tokenize, Token};
use vstd::prelude::*;
use vstd::string::StringExecFns;

verus! {

/// The text of an optional string.
pub open spec fn opt_text(o: Option<String>) -> Option<Seq<char>> {
    match o {
        Some(s) => Some(s@),
        None => None,
    }
}

/// One pass of the extension reduction over file-name tokens, carried out
/// on the rest of the tokens from a given state: `skip_first_sep` is true
/// until the reduction has seen a delimiter or an unskipped piece,
/// `skip_next` marks a piece to be passed over, and `candidate` is the
/// extension found so far. The first delimiter of a name that starts with
/// one only arms the skip mark, so a name beginning with `.` has no
/// extension unless a further `.` follows; any other delimiter makes the
/// empty extension the candidate; an unskipped piece becomes the candidate.
pub open spec fn ext_from(
    toks: Seq<FileNameSegView>,
    skip_first_sep: bool,
    skip_next: bool,
    candidate: Option<Seq<char>>,
) -> Option<Seq<char>>
    decreases toks.len(),
{
    if toks.len() == 0 {
        candidate
    } else {
        match toks[0] {
            FileNameSegView::Separator => if skip_first_sep {
                ext_from(toks.drop_first(), false, true, candidate)
            } else {
                ext_from(toks.drop_first(), skip_first_sep, skip_next, Some(Seq::empty()))
            },
            FileNameSegView::Segment(t) => if skip_next {
                ext_from(toks.drop_first(), skip_first_sep, false, candidate)
            } else {
                ext_from(toks.drop_first(), false, skip_next, Some(t))
            },
        }
    }
}

/// The extension of a segment sequence: the extension reduction over the
/// tokenized text of the final segment, when that segment is a literal, and
/// absent otherwise.
pub open spec fn extension_of(segs: Seq<SegView>) -> Option<Seq<char>> {
    if segs.len() == 0 {
        None
    } else {
        match segs.last() {
            SegView::Segment(t) => ext_from(tokenize_name(t), true, false, None),
            _ => None,
        }
    }
}

/// `s` without its last element; an empty sequence stays empty.
pub open spec fn pop_one(s: Seq<SegView>) -> Seq<SegView> {
    if s.len() > 0 {
        s.drop_last()
    } else {
        s
    }
}

/// One step of the dedot walk. The state is the output built so far and a
/// flag that suppresses the next separator. A `Dot` is dropped and arms the
/// flag; a `DotDot` pops the two most recently emitted segments (or fewer,
/// near the start) and arms the flag; a `Separator` is emitted unless the
/// flag is armed, which clears it; a literal is emitted verbatim.
pub open spec fn dedot_step(acc: Seq<SegView>, skip_sep: bool, seg: SegView) -> (Seq<SegView>, bool) {
    match seg {
        SegView::Separator => if skip_sep {
            (acc, false)
        } else {
            (acc.push(SegView::Separator), false)
        },
        SegView::Segment(t) => (acc.push(SegView::Segment(t)), skip_sep),
        SegView::Dot => (acc, true),
        SegView::DotDot => (pop_one(pop_one(acc)), true),
    }
}

/// The dedot walk over `segs`, started with output `acc` and suppress flag
/// `skip_sep`.
pub open spec fn dedot_from(segs: Seq<SegView>, acc: Seq<SegView>, skip_sep: bool) -> Seq<SegView>
    decreases segs.len(),
{
    if segs.len() == 0 {
        acc
    } else {
        let (acc2, skip2) = dedot_step(acc, skip_sep, segs[0]);
        dedot_from(segs.drop_first(), acc2, skip2)
    }
}

/// The dedot normalization of a segment sequence.
pub open spec fn dedot_segs(segs: Seq<SegView>) -> Seq<SegView> {
    dedot_from(segs, Seq::empty(), false)
}

/// A base with one trailing non-separator segment trimmed off, as the
/// relativization operations prepare it.
pub open spec fn trim_base(base: Seq<SegView>) -> Seq<SegView> {
    if base.len() > 0 && !(base.last() is Separator) {
        base.drop_last()
    } else {
        base
    }
}

/// What `relative_to` returns: the trimmed base, extended by the dedot walk
/// over `segs` with the suppress-next-separator flag initially armed.
pub open spec fn relative_to_segs(segs: Seq<SegView>, base: Seq<SegView>) -> Seq<SegView> {
    dedot_from(segs, trim_base(base), true)
}

/// What `append` returns: both sides dedotted, joined by exactly one
/// separator.
pub open spec fn append_segs(segs: Seq<SegView>, other: Seq<SegView>) -> Seq<SegView> {
    let left = dedot_segs(segs);
    let joined = if left.len() > 0 && !(left.last() is Separator) {
        left.push(SegView::Separator)
    } else {
        left
    };
    joined + dedot_segs(other)
}

/// What `push` does: a separator is added unless the sequence is empty or
/// already ends in one, then a literal segment holding `name`.
pub open spec fn push_segs(segs: Seq<SegView>, name: Seq<char>) -> Seq<SegView> {
    let joined = if segs.len() > 0 && !(segs.last() is Separator) {
        segs.push(SegView::Separator)
    } else {
        segs
    };
    joined.push(SegView::Segment(name))
}

/// What `pop` does: a trailing separator is dropped if present, then one
/// more trailing segment if any is left.
pub open spec fn pop_segs(segs: Seq<SegView>) -> Seq<SegView> {
    let trimmed = if segs.len() > 0 && segs.last() is Separator {
        segs.drop_last()
    } else {
        segs
    };
    pop_one(trimmed)
}

/// The length of the longest shared prefix of `a` and `b`.
pub open spec fn shared_prefix_len(a: Seq<SegView>, b: Seq<SegView>) -> int
    decreases a.len(),
{
    if a.len() == 0 || b.len() == 0 || a[0] != b[0] {
        0
    } else {
        1 + shared_prefix_len(a.drop_first(), b.drop_first())
    }
}

/// What `relative_from` returns: `Dot`, then `Separator`, then what is left
/// of `segs` after the longest prefix it shares with the trimmed base.
pub open spec fn relative_from_segs(segs: Seq<SegView>, base: Seq<SegView>) -> Seq<SegView> {
    seq![SegView::Dot, SegView::Separator] + segs.skip(shared_prefix_len(trim_base(base), segs))
}

/// Whether a segment sequence holds no `.` and no `..`, as every dedot
/// output does.
pub open spec fn no_dot_segs(segs: Seq<SegView>) -> bool {
    forall|k: int|
        0 <= k < segs.len() ==> !((#[trigger] segs[k]) is Dot) && !(segs[k] is DotDot)
}

proof fn lemma_dedot_from_no_dots(segs: Seq<SegView>, acc: Seq<SegView>, skip_sep: bool)
    requires
        no_dot_segs(acc),
    ensures
        no_dot_segs(dedot_from(segs, acc, skip_sep)),
    decreases segs.len(),
{
    if segs.len() == 0 {
    } else {
        let (acc2, skip2) = dedot_step(acc, skip_sep, segs[0]);
        assert(no_dot_segs(acc2)) by {
            match segs[0] {
                SegView::Separator => {
                    if !skip_sep {
                        assert forall|k: int|
                            0 <= k < acc2.len() implies !((#[trigger] acc2[k]) is Dot) && !(acc2[k]
                            is DotDot) by {
                            if k < acc.len() {
                                assert(acc2[k] == acc[k]);
                            }
                        }
                    }
                },
                SegView::Segment(t) => {
                    assert forall|k: int|
                        0 <= k < acc2.len() implies !((#[trigger] acc2[k]) is Dot) && !(acc2[k]
                        is DotDot) by {
                        if k < acc.len() {
                            assert(acc2[k] == acc[k]);
                        }
                    }
                },
                SegView::Dot => {},
                SegView::DotDot => {},
            }
        }
        lemma_dedot_from_no_dots(segs.drop_first(), acc2, skip2);
    }
}

proof fn lemma_dedot_from_id(segs: Seq<SegView>, acc: Seq<SegView>)
    requires
        no_dot_segs(segs),
    ensures
        dedot_from(segs, acc, false) == acc + segs,
    decreases segs.len(),
{
    if segs.len() == 0 {
        assert(acc + segs =~= acc);
    } else {
        let (acc2, skip2) = dedot_step(acc, false, segs[0]);
        assert(acc2 == acc.push(segs[0]));
        assert(!skip2);
        assert(no_dot_segs(segs.drop_first())) by {
            assert forall|k: int|
                0 <= k < segs.drop_first().len() implies !((#[trigger] segs.drop_first()[k])
                is Dot) && !(segs.drop_first()[k] is DotDot) by {
                assert(segs.drop_first()[k] == segs[k + 1]);
            }
        }
        lemma_dedot_from_id(segs.drop_first(), acc2);
        assert(acc.push(segs[0]) + segs.drop_first() =~= acc + segs);
    }
}

/// Dedot is idempotent: its output holds no `.` and no `..`, and the walk
/// leaves such a sequence unchanged.
pub proof fn lemma_dedot_idempotent(segs: Seq<SegView>)
    ensures
        dedot_segs(dedot_segs(segs)) == dedot_segs(segs),
{
    let d = dedot_segs(segs);
    lemma_dedot_from_no_dots(segs, Seq::empty(), false);
    lemma_dedot_from_id(d, Seq::empty());
    assert(Seq::<SegView>::empty() + d =~= d);
}

/// Pushing a name and then popping restores the path exactly, for a path
/// that is empty or ends in a separator. (A path ending in a literal gains
/// a separator before the pushed name, and `pop` leaves that separator
/// behind, so only its rendered text grows by one trailing separator.)
pub proof fn lemma_push_pop_restores(segs: Seq<SegView>, name: Seq<char>)
    requires
        segs.len() == 0 || segs.last() is Separator,
    ensures
        pop_segs(push_segs(segs, name)) == segs,
{
    let pushed = push_segs(segs, name);
    assert(pushed == segs.push(SegView::Segment(name)));
    assert(pushed.last() == SegView::Segment(name));
    assert(pushed.drop_last() =~= segs);
}

/// Relies on `String::push`: appends the given character to the end of the
/// string.
#[verifier::external_body]
fn push_char(s: &mut String, c: char)
    ensures
        final(s)@ == old(s)@.push(c),
{
    s.push(c)
}

/// The host's native path value type, opaque to the library's reasoning.
#[verifier::external_type_specification]
#[verifier::external_body]
pub struct ExPathBuf(std::path::PathBuf);

/// The native path value holding the given text.
pub uninterp spec fn native_path_of(text: Seq<char>) -> std::path::PathBuf;

/// The text a native path value yields when its underlying representation
/// is valid Unicode, and nothing otherwise.
pub uninterp spec fn native_text_of(p: std::path::PathBuf) -> Option<Seq<char>>;

/// Relies on `std::path::PathBuf::from::<String>`: builds the native path
/// value holding exactly the given text; the result depends on the text
/// alone. A `String` is valid Unicode, so `std::path::Path::to_str` yields
/// that same text back from the result.
#[verifier::external_body]
fn path_buf_from_text(text: String) -> (r: std::path::PathBuf)
    ensures
        r == native_path_of(text@),
        native_text_of(r) == Some(text@),
{
    std::path::PathBuf::from(text)
}

/// Relies on `std::path::Path::to_str`: yields the native path's text when
/// its underlying representation is valid Unicode, and nothing otherwise;
/// the answer depends on the path value alone.
#[verifier::external_body]
fn path_buf_to_text(p: &std::path::PathBuf) -> (r: Option<String>)
    ensures
        r is Some <==> native_text_of(*p) is Some,
        r matches Some(s) ==> Some(s@) == native_text_of(*p),
{
    match p.as_path().to_str() {
        Some(text) => Some(text.to_owned()),
        None => None,
    }
}

/// Relies on `std::path::MAIN_SEPARATOR`: the host's primary path-separator
/// character, `/` on Unix-family hosts and `\` on Windows.
#[verifier::external_body]
fn platform_separator() -> (r: char)
    ensures
        is_sep_char(r),
{
    std::path::MAIN_SEPARATOR
}

/// A copy of a segment vector, element by element.
fn clone_segments(src: &Vec<Segment>) -> (r: Vec<Segment>)
    ensures
        seg_views(r@) == seg_views(src@),
{
    let mut r: Vec<Segment> = Vec::new();
    let mut i: usize = 0;
    while i < src.len()
        invariant
            i <= src.len(),
            r@.len() == i,
            forall|k: int| 0 <= k < i ==> r@[k]@ == src@[k]@,
        decreases src.len() - i,
    {
        r.push(src[i].clone());
        i = i + 1;
    }
    proof {
        assert(seg_views(r@) =~= seg_views(src@));
    }
    r
}

/// Runs the dedot walk over `src`, extending `dst` in place, with the
/// suppress-next-separator flag initially `skip0`.
fn dedot_into(dst: &mut Vec<Segment>, src: &Vec<Segment>, skip0: bool)
    ensures
        seg_views(final(dst)@) == dedot_from(seg_views(src@), seg_views(old(dst)@), skip0),
{
    let ghost goal = dedot_from(seg_views(src@), seg_views(old(dst)@), skip0);
    let mut skip_sep = skip0;
    let mut i: usize = 0;
    proof {
        assert(seg_views(src@).skip(0) =~= seg_views(src@));
    }
    while i < src.len()
        invariant
            i <= src.len(),
            src@.len() == seg_views(src@).len(),
            dedot_from(seg_views(src@).skip(i as int), seg_views(dst@), skip_sep) == goal,
        decreases src.len() - i,
    {
        let ghost rest = seg_views(src@).skip(i as int);
        let ghost acc = seg_views(dst@);
        proof {
            assert(rest[0] == src@[i as int]@);
            assert(rest.drop_first() =~= seg_views(src@).skip(i + 1));
        }
        match &src[i] {
            Segment::Separator => {
                if skip_sep {
                    skip_sep = false;
                } else {
                    dst.push(Segment::Separator);
                    proof {
                        assert(seg_views(dst@) =~= acc.push(SegView::Separator));
                    }
                }
            },
            Segment::Segment(t) => {
                dst.push(Segment::Segment(t.clone()));
                proof {
                    assert(seg_views(dst@) =~= acc.push(SegView::Segment(t@)));
                }
            },
            Segment::Dot => {
                skip_sep = true;
            },
            Segment::DotDot => {
                let _ = dst.pop();
                proof {
                    assert(seg_views(dst@) =~= pop_one(acc));
                }
                let _ = dst.pop();
                proof {
                    assert(seg_views(dst@) =~= pop_one(pop_one(acc)));
                }
                skip_sep = true;
            },
        }
        i = i + 1;
    }
    proof {
        assert(seg_views(src@).skip(src@.len() as int) =~= Seq::<SegView>::empty());
    }
}

/// An ordered sequence of [`Segment`]s, exclusively owned.
///
/// A `Path` is created by parsing a string or converting a native path;
/// `push` and `pop` mutate it in place, and every other operation is a pure
/// function returning a new `Path`. Its mathematical value is the sequence
/// of its segments' values.
#[derive(Debug, Hash)]
pub struct Path {
    segments: Vec<Segment>,
}

impl View for Path {
    type V = Seq<SegView>;

    closed spec fn view(&self) -> Seq<SegView> {
        seg_views(self.segments@)
    }
}

impl Path {
    pub(crate) fn new(segments: Vec<Segment>) -> (r: Path)
        ensures
            r@ == seg_views(segments@),
    {
        Path { segments }
    }

    /// Tokenizes a raw path string. The tokenizer classifies every string,
    /// so this always succeeds.
    pub fn from_str(path: &str) -> (r: Result<Path, PathError>)
        ensures
            r matches Ok(p) && p@ == tokenize(path@),
    {
        match Token::from_str(path) {
            Ok(segments) => Ok(Path::new(segments)),
            Err(e) => Err(e),
        }
    }

    /// Renders the path, writing `sep` for each separator segment, literal
    /// text for literal segments, and `.` and `..` for the dot segments.
    pub fn to_string_with_separator(&self, sep: char) -> (r: String)
        ensures
            r@ == render_with(self@, sep),
    {
        let mut result = String::new();
        let mut i: usize = 0;
        proof {
            assert(self@.skip(0) =~= self@);
            assert(result@ + render_with(self@, sep) =~= render_with(self@, sep));
        }
        while i < self.segments.len()
            invariant
                i <= self.segments.len(),
                self@.len() == self.segments@.len(),
                result@ + render_with(self@.skip(i as int), sep) == render_with(self@, sep),
            decreases self.segments.len() - i,
        {
            let ghost prev = result@;
            let ghost rest = self@.skip(i as int);
            match &self.segments[i] {
                Segment::Separator => push_char(&mut result, sep),
                Segment::Segment(t) => result.append(t.as_str()),
                Segment::Dot => result.append("."),
                Segment::DotDot => result.append(".."),
            }
            proof {
                reveal_strlit(".");
                reveal_strlit("..");
                assert("."@ =~= seq!['.']);
                assert(".."@ =~= seq!['.', '.']);
                assert(rest[0] == self@[i as int]);
                assert(result@ =~= prev + seg_text(rest[0], sep));
                assert(rest.drop_first() =~= self@.skip(i + 1));
                assert(result@ + render_with(self@.skip(i + 1), sep) =~= prev + render_with(
                    rest,
                    sep,
                ));
            }
            i = i + 1;
        }
        proof {
            assert(self@.skip(self.segments@.len() as int) =~= Seq::<SegView>::empty());
            assert(result@ + render_with(self@.skip(self.segments@.len() as int), sep) =~= result@);
        }
        result
    }

    /// Tokenizes the text of a native path value: the result is the
    /// tokenization of exactly that text. Fails with `ConvertError` exactly
    /// when the native path's representation is not valid Unicode;
    /// tokenization itself classifies every string.
    pub fn from_std_path(path: &std::path::PathBuf) -> (r: Result<Path, PathError>)
        ensures
            native_text_of(*path) matches Some(text) ==> (r matches Ok(p) && p@ == tokenize(
                text,
            )),
            native_text_of(*path) is None ==> (r matches Err(e) && e is ConvertError),
    {
        match path_buf_to_text(path) {
            Some(text) => Path::from_str(text.as_str()),
            None => Err(PathError::ConvertError),
        }
    }

    /// Renders the path with the host's native separator character and wraps
    /// the result in the native path value type. Always succeeds.
    pub fn to_path_buf(&self) -> (r: std::path::PathBuf)
        ensures
            exists|sep: char|
                is_sep_char(sep) && r == native_path_of(render_with(self@, sep))
                    && native_text_of(r) == Some(render_with(self@, sep)),
    {
        let text = self.to_platform_string();
        let ghost sep = choose|sep: char| is_sep_char(sep) && text@ == render_with(self@, sep);
        let r = path_buf_from_text(text);
        proof {
            assert(is_sep_char(sep) && r == native_path_of(render_with(self@, sep))
                && native_text_of(r) == Some(render_with(self@, sep)));
        }
        r
    }

    /// Renders the path as `to_string` does, except that each separator
    /// segment appears as the host's native separator character.
    pub fn to_platform_string(&self) -> (r: String)
        ensures
            exists|sep: char| is_sep_char(sep) && r@ == render_with(self@, sep),
    {
        let sep = platform_separator();
        let r = self.to_string_with_separator(sep);
        proof {
            assert(is_sep_char(sep) && r@ == render_with(self@, sep));
        }
        r
    }

    /// Renders the path canonically: separators appear as `/`.
    pub fn to_string(&self) -> (r: String)
        ensures
            r@ == render_canonical(self@),
    {
        self.to_string_with_separator('/')
    }

    /// The dedot normalization: drops `.` segments, collapses each `..`
    /// against the most recently emitted separator-and-segment pair, and
    /// never doubles a separator at a collapse. A `..` with fewer than two
    /// emitted segments before it is silently lost rather than preserved;
    /// this does not resolve a path against an unknown base.
    pub fn dedot(&self) -> (r: Path)
        ensures
            r@ == dedot_segs(self@),
    {
        let mut segments: Vec<Segment> = Vec::new();
        proof {
            assert(seg_views(segments@) =~= Seq::<SegView>::empty());
        }
        dedot_into(&mut segments, &self.segments, false);
        Path::new(segments)
    }

    /// Resolves this path against `base`: `base` loses one trailing
    /// non-separator segment, and this path's segments are then walked onto
    /// it with the same collapsing rules as `dedot`, starting with the
    /// suppress-next-separator flag armed.
    pub fn relative_to(&self, base: &Path) -> (r: Path)
        ensures
            r@ == relative_to_segs(self@, base@),
    {
        let mut segments = clone_segments(&base.segments);
        if segments.len() > 0 && !segments[segments.len() - 1].is_separator() {
            let ghost before = seg_views(segments@);
            proof {
                assert(before.last() == segments@.last()@);
            }
            let _ = segments.pop();
            proof {
                assert(seg_views(segments@) =~= before.drop_last());
            }
        }
        proof {
            assert(seg_views(segments@) == trim_base(base@));
        }
        dedot_into(&mut segments, &self.segments, true);
        Path::new(segments)
    }

    /// Concatenation: both operands are dedotted, and exactly one separator
    /// stands at the join.
    pub fn append(&self, other: &Path) -> (r: Path)
        ensures
            r@ == append_segs(self@, other@),
    {
        let mut segments = self.dedot().segments;
        if segments.len() > 0 && !segments[segments.len() - 1].is_separator() {
            let ghost before = seg_views(segments@);
            proof {
                assert(before.last() == segments@.last()@);
            }
            segments.push(Segment::Separator);
            proof {
                assert(seg_views(segments@) =~= before.push(SegView::Separator));
            }
        }
        let mut tail = other.dedot().segments;
        proof {
            assert(seg_views(segments@ + tail@) =~= seg_views(segments@) + seg_views(tail@));
        }
        segments.append(&mut tail);
        Path::new(segments)
    }

    /// Appends `value` as one literal segment, preceded by a separator
    /// unless the path is empty or already ends in one. Never fails.
    pub fn push(&mut self, value: &str)
        ensures
            final(self)@ == push_segs(old(self)@, value@),
    {
        if self.segments.len() > 0 && !self.segments[self.segments.len() - 1].is_separator() {
            let ghost before = seg_views(self.segments@);
            proof {
                assert(before.last() == self.segments@.last()@);
            }
            self.segments.push(Segment::Separator);
            proof {
                assert(seg_views(self.segments@) =~= before.push(SegView::Separator));
            }
        }
        let ghost joined = seg_views(self.segments@);
        self.segments.push(Segment::Segment(value.to_owned()));
        proof {
            assert(seg_views(self.segments@) =~= joined.push(SegView::Segment(value@)));
        }
    }

    /// Drops one trailing separator if present, then one more trailing
    /// segment if any is left. Popping an empty path is a no-op.
    pub fn pop(&mut self)
        ensures
            final(self)@ == pop_segs(old(self)@),
    {
        if self.segments.len() > 0 && self.segments[self.segments.len() - 1].is_separator() {
            let ghost before = seg_views(self.segments@);
            proof {
                assert(before.last() == self.segments@.last()@);
            }
            let _ = self.segments.pop();
            proof {
                assert(seg_views(self.segments@) =~= before.drop_last());
            }
        }
        if self.segments.len() > 0 {
            let ghost trimmed = seg_views(self.segments@);
            let _ = self.segments.pop();
            proof {
                assert(seg_views(self.segments@) =~= trimmed.drop_last());
            }
        }
    }

    /// The extension of the path's final segment: absent unless that segment
    /// is a literal, and otherwise the result of the extension reduction
    /// over the literal's file-name tokens. A name beginning with `.` has no
    /// extension unless it contains a further `.`; a trailing `.` yields the
    /// empty extension.
    pub fn extension(&self) -> (r: Option<String>)
        ensures
            opt_text(r) == extension_of(self@),
    {
        if self.segments.len() == 0 {
            return None;
        }
        let last = &self.segments[self.segments.len() - 1];
        proof {
            assert(self@.last() == self.segments@.last()@);
        }
        match last {
            Segment::Segment(text) => {
                match FileNameToken::from_str(text.as_str()) {
                    Ok(toks) => {
                        let ghost all = file_name_seg_views(toks@);
                        let mut skip_first_sep = true;
                        let mut skip_next = false;
                        let mut candidate: Option<String> = None;
                        let mut i: usize = 0;
                        proof {
                            assert(all.skip(0) =~= all);
                        }
                        while i < toks.len()
                            invariant
                                i <= toks@.len(),
                                all == file_name_seg_views(toks@),
                                all.len() == toks@.len(),
                                ext_from(
                                    all.skip(i as int),
                                    skip_first_sep,
                                    skip_next,
                                    opt_text(candidate),
                                ) == ext_from(all, true, false, None),
                            decreases toks.len() - i,
                        {
                            proof {
                                assert(all.skip(i as int)[0] == toks@[i as int]@);
                                assert(all.skip(i as int).drop_first() =~= all.skip(i + 1));
                            }
                            match &toks[i] {
                                FileNameSegment::Separator => {
                                    if skip_first_sep {
                                        skip_first_sep = false;
                                        skip_next = true;
                                    } else {
                                        candidate = Some(String::new());
                                    }
                                },
                                FileNameSegment::Segment(piece) => {
                                    if skip_next {
                                        skip_next = false;
                                    } else {
                                        skip_first_sep = false;
                                        candidate = Some(piece.clone());
                                    }
                                },
                            }
                            i = i + 1;
                        }
                        proof {
                            assert(all.skip(toks@.len() as int) =~= Seq::<FileNameSegView>::empty());
                        }
                        candidate
                    },
                    Err(_) => None,
                }
            },
            _ => None,
        }
    }

    /// The structural difference from `base` to this path: `base` loses one
    /// trailing non-separator segment, the longest shared segment prefix is
    /// removed, and `./` is prepended to what remains of this path. Nothing
    /// is collapsed: a `..` left in the remainder stays.
    pub fn relative_from(&self, base: &Path) -> (r: Path)
        ensures
            r@ == relative_from_segs(self@, base@),
    {
        let mut base_len = base.segments.len();
        if base_len > 0 && !base.segments[base_len - 1].is_separator() {
            proof {
                assert(base@.last() == base.segments@.last()@);
            }
            base_len = base_len - 1;
        }
        let ghost tb = trim_base(base@);
        proof {
            assert(tb.len() == base_len);
            assert(forall|m: int| 0 <= m < base_len ==> tb[m] == base@[m]);
            assert(tb.skip(0) =~= tb);
            assert(self@.skip(0) =~= self@);
        }
        let mut k: usize = 0;
        while k < base_len && k < self.segments.len() && base.segments[k].eq(&self.segments[k])
            invariant
                k <= base_len <= base.segments@.len(),
                k <= self.segments@.len(),
                base@.len() == base.segments@.len(),
                self@.len() == self.segments@.len(),
                tb == trim_base(base@),
                tb.len() == base_len,
                forall|m: int| 0 <= m < base_len ==> tb[m] == base@[m],
                shared_prefix_len(tb, self@) == k + shared_prefix_len(
                    tb.skip(k as int),
                    self@.skip(k as int),
                ),
            decreases base_len - k,
        {
            proof {
                assert(tb.skip(k as int)[0] == tb[k as int]);
                assert(self@.skip(k as int)[0] == self@[k as int]);
                assert(self@[k as int] == self.segments@[k as int]@);
                assert(tb.skip(k as int).drop_first() =~= tb.skip(k + 1));
                assert(self@.skip(k as int).drop_first() =~= self@.skip(k + 1));
            }
            k = k + 1;
        }
        proof {
            assert(shared_prefix_len(tb.skip(k as int), self@.skip(k as int)) == 0);
        }
        let mut segments: Vec<Segment> = Vec::new();
        segments.push(Segment::Dot);
        segments.push(Segment::Separator);
        let mut j: usize = k;
        while j < self.segments.len()
            invariant
                k <= j <= self.segments@.len(),
                self@.len() == self.segments@.len(),
                segments@.len() == 2 + j - k,
                segments@[0]@ == SegView::Dot,
                segments@[1]@ == SegView::Separator,
                forall|m: int| k <= m < j ==> segments@[m - k + 2]@ == self.segments@[m]@,
            decreases self.segments.len() - j,
        {
            segments.push(self.segments[j].clone());
            j = j + 1;
        }
        proof {
            assert(seg_views(segments@) =~= seq![SegView::Dot, SegView::Separator] + self@.skip(
                k as int,
            ));
        }
        Path::new(segments)
    }
}

impl Clone for Path {
    /// An independent copy with the same segment sequence.
    fn clone(&self) -> (r: Path)
        ensures
            r@ == self@,
    {
        Path { segments: clone_segments(&self.segments) }
    }
}

impl PartialEq for Path {
    /// Structural equality: the segment sequences are element-wise equal.
    /// Nothing is normalized first.
    fn eq(&self, other: &Path) -> (r: bool) {
        if self.segments.len() != other.segments.len() {
            proof {
                assert(self@.len() != other@.len());
            }
            return false;
        }
        let mut i: usize = 0;
        while i < self.segments.len()
            invariant
                i <= self.segments@.len(),
                self.segments@.len() == other.segments@.len(),
                self@.len() == self.segments@.len(),
                other@.len() == other.segments@.len(),
                forall|m: int| 0 <= m < i ==> self@[m] == other@[m],
            decreases self.segments.len() - i,
        {
            if !(self.segments[i].eq(&other.segments[i])) {
                proof {
                    assert(self@[i as int] != other@[i as int]);
                }
                return false;
            }
            i = i + 1;
        }
        proof {
            assert(self@ =~= other@);
        }
        true
    }
}

impl vstd::std_specs::cmp::PartialEqSpecImpl for Path {
    open spec fn obeys_eq_spec() -> bool {
        true
    }

    open spec fn eq_spec(&self, other: &Path) -> bool {
        self@ == other@
    }
}

impl Eq for Path {}

} // verus!
