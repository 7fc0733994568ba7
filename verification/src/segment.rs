use vstd::prelude::*;

verus! {

/// The mathematical value of one path segment.
///
/// `Segment(t)` carries the literal text as a sequence of characters; the
/// other variants carry no data. This is the vocabulary every specification
/// in the crate is written over.
pub enum SegView {
    /// One or more consecutive separator characters, collapsed.
    Separator,
    /// A maximal run of non-separator characters that is not `.` or `..`.
    Segment(Seq<char>),
    /// Exactly `.`.
    Dot,
    /// Exactly `..`.
    DotDot,
}

/// One classified unit of a tokenized path.
///
/// Equality is structural: same variant and, for `Segment`, identical text.
/// A segment is immutable once produced by tokenization.
#[derive(Debug, Hash)]
pub enum Segment {
    /// One or more consecutive separator characters, collapsed.
    Separator,
    /// A maximal run of non-separator characters that is not `.` or `..`.
    Segment(String),
    /// Exactly `.`.
    Dot,
    /// Exactly `..`.
    DotDot,
}

impl View for Segment {
    type V = SegView;

    open spec fn view(&self) -> SegView {
        match self {
            Segment::Separator => SegView::Separator,
            Segment::Segment(t) => SegView::Segment(t@),
            Segment::Dot => SegView::Dot,
            Segment::DotDot => SegView::DotDot,
        }
    }
}

/// The segment values of a sequence of segments.
pub open spec fn seg_views(segs: Seq<Segment>) -> Seq<SegView> {
    segs.map_values(|s: Segment| s@)
}

/// The text of one segment, rendered with the separator character `sep`.
pub open spec fn seg_text(seg: SegView, sep: char) -> Seq<char> {
    match seg {
        SegView::Separator => seq![sep],
        SegView::Segment(t) => t,
        SegView::Dot => seq!['.'],
        SegView::DotDot => seq!['.', '.'],
    }
}

/// The text of a segment sequence, rendered with the separator character
/// `sep`: the concatenation of its segments' texts.
pub open spec fn render_with(segs: Seq<SegView>, sep: char) -> Seq<char>
    decreases segs.len(),
{
    if segs.len() == 0 {
        Seq::empty()
    } else {
        seg_text(segs[0], sep) + render_with(segs.drop_first(), sep)
    }
}

/// The canonical text of a segment sequence: rendered with `/`.
pub open spec fn render_canonical(segs: Seq<SegView>) -> Seq<char> {
    render_with(segs, '/')
}

impl Segment {
    /// The literal text of a `Segment::Segment`, and nothing of the other
    /// variants.
    pub fn get_segment(&self) -> (r: Option<&str>)
        ensures
            r is Some <==> self is Segment,
            r matches Some(t) ==> self@ == SegView::Segment(t@),
    {
        match self {
            Segment::Segment(segment) => Some(segment.as_str()),
            _ => None,
        }
    }

    /// Whether this segment is a separator.
    pub fn is_separator(&self) -> (r: bool)
        ensures
            r == (self@ is Separator),
    {
        match self {
            Segment::Separator => true,
            _ => false,
        }
    }
}

impl Clone for Segment {
    fn clone(&self) -> (r: Segment)
        ensures
            r@ == self@,
    {
        match self {
            Segment::Separator => Segment::Separator,
            Segment::Segment(t) => Segment::Segment(t.clone()),
            Segment::Dot => Segment::Dot,
            Segment::DotDot => Segment::DotDot,
        }
    }
}

impl PartialEq for Segment {
    fn eq(&self, other: &Segment) -> (r: bool) {
        match (self, other) {
            (Segment::Separator, Segment::Separator) => true,
            (Segment::Segment(a), Segment::Segment(b)) => a.eq(b),
            (Segment::Dot, Segment::Dot) => true,
            (Segment::DotDot, Segment::DotDot) => true,
            _ => false,
        }
    }
}

impl vstd::std_specs::cmp::PartialEqSpecImpl for Segment {
    open spec fn obeys_eq_spec() -> bool {
        true
    }

    open spec fn eq_spec(&self, other: &Segment) -> bool {
        self@ == other@
    }
}

impl Eq for Segment {}

} // verus!
