use crate::error::PathError;
use vstd::prelude::*;
use vstd::string::StrSliceExecFns;

verus! {

/// The mathematical value of one file-name piece: a `.` delimiter or a run
/// of other characters.
pub enum FileNameSegView {
    /// Exactly one `.`.
    Separator,
    /// A maximal run of non-`.` characters.
    Segment(Seq<char>),
}

/// One classified unit of a tokenized file name, used only while a path's
/// extension is extracted.
#[derive(Debug)]
pub enum FileNameSegment {
    /// Exactly one `.`.
    Separator,
    /// A maximal run of non-`.` characters.
    Segment(String),
}

impl View for FileNameSegment {
    type V = FileNameSegView;

    open spec fn view(&self) -> FileNameSegView {
        match self {
            FileNameSegment::Separator => FileNameSegView::Separator,
            FileNameSegment::Segment(t) => FileNameSegView::Segment(t@),
        }
    }
}

/// The values of a sequence of file-name segments.
pub open spec fn file_name_seg_views(segs: Seq<FileNameSegment>) -> Seq<FileNameSegView> {
    segs.map_values(|s: FileNameSegment| s@)
}

/// The length of the longest prefix of `s` holding no `.`.
pub open spec fn piece_len(s: Seq<char>) -> int
    decreases s.len(),
{
    if s.len() == 0 || s[0] == '.' {
        0
    } else {
        1 + piece_len(s.drop_first())
    }
}

pub proof fn lemma_piece_len_bounds(s: Seq<char>)
    ensures
        0 <= piece_len(s) <= s.len(),
    decreases s.len(),
{
    if s.len() == 0 || s[0] == '.' {
    } else {
        lemma_piece_len_bounds(s.drop_first());
    }
}

/// Tokenization of a file name: each `.` is its own delimiter token, and
/// every maximal run of other characters is one literal piece. The two
/// patterns jointly cover all characters, so this grammar is total.
pub open spec fn tokenize_name(s: Seq<char>) -> Seq<FileNameSegView>
    decreases s.len()
    via tokenize_name_decreases
{
    if s.len() == 0 {
        Seq::empty()
    } else if s[0] == '.' {
        seq![FileNameSegView::Separator] + tokenize_name(s.drop_first())
    } else {
        let n = piece_len(s);
        seq![FileNameSegView::Segment(s.take(n))] + tokenize_name(s.skip(n))
    }
}

#[via_fn]
proof fn tokenize_name_decreases(s: Seq<char>) {
    if s.len() > 0 && s[0] != '.' {
        lemma_piece_len_bounds(s);
        lemma_piece_len_bounds(s.drop_first());
    }
}

/// The raw token classes of the file-name tokenizer. The tokenizer itself is
/// `FileNameToken::from_str`.
#[derive(Debug)]
pub enum FileNameToken {
    /// Exactly one `.`.
    Separator,
    /// A maximal run of non-`.` characters.
    Segment,
    /// A slice that matches no token class; unreachable, since the two token
    /// classes jointly cover every character.
    Error,
}

impl FileNameToken {
    /// Tokenizes a file name: each `.` becomes one delimiter token, and
    /// every maximal run of other characters becomes one literal piece.
    /// Every character belongs to one of the two classes, so this always
    /// succeeds.
    pub fn from_str(name: &str) -> (r: Result<Vec<FileNameSegment>, PathError>)
        ensures
            r matches Ok(v) && file_name_seg_views(v@) == tokenize_name(name@),
    {
        let len = name.unicode_len();
        let mut segments: Vec<FileNameSegment> = Vec::new();
        let mut i: usize = 0;
        proof {
            assert(name@.skip(0) =~= name@);
            assert(file_name_seg_views(segments@) + tokenize_name(name@) =~= tokenize_name(name@));
        }
        while i < len
            invariant
                len == name@.len(),
                i <= len,
                file_name_seg_views(segments@) + tokenize_name(name@.skip(i as int))
                    == tokenize_name(name@),
            decreases len - i,
        {
            let ghost rest = name@.skip(i as int);
            let ghost done = file_name_seg_views(segments@);
            proof {
                assert(rest[0] == name@[i as int]);
                assert(rest.drop_first() =~= name@.skip(i + 1));
            }
            if name.get_char(i) == '.' {
                segments.push(FileNameSegment::Separator);
                proof {
                    assert(file_name_seg_views(segments@) =~= done.push(FileNameSegView::Separator));
                    assert(done.push(FileNameSegView::Separator) + tokenize_name(name@.skip(i + 1))
                        =~= done + tokenize_name(rest));
                }
                i = i + 1;
            } else {
                let mut j: usize = i + 1;
                while j < len && name.get_char(j) != '.'
                    invariant
                        len == name@.len(),
                        i < j <= len,
                        piece_len(name@.skip(i as int)) == (j - i) + piece_len(
                            name@.skip(j as int),
                        ),
                    decreases len - j,
                {
                    proof {
                        assert(name@.skip(j as int).drop_first() =~= name@.skip(j + 1));
                    }
                    j = j + 1;
                }
                proof {
                    assert(piece_len(name@.skip(j as int)) == 0);
                    assert(piece_len(rest) == j - i);
                }
                let text = name.substring_char(i, j);
                segments.push(FileNameSegment::Segment(text.to_owned()));
                proof {
                    assert(rest.take((j - i) as int) =~= name@.subrange(i as int, j as int));
                    assert(rest.skip((j - i) as int) =~= name@.skip(j as int));
                    assert(file_name_seg_views(segments@) =~= done.push(
                        FileNameSegView::Segment(text@),
                    ));
                    assert(done.push(FileNameSegView::Segment(text@)) + tokenize_name(
                        name@.skip(j as int),
                    ) =~= done + tokenize_name(rest));
                }
                i = j;
            }
        }
        proof {
            assert(name@.skip(len as int) =~= Seq::<char>::empty());
            assert(file_name_seg_views(segments@) + tokenize_name(name@.skip(len as int))
                =~= file_name_seg_views(segments@));
        }
        Ok(segments)
    }
}

} // verus!
