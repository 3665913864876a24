//! The repetition-marker detector.
//!
//! A marker is the punctuation `#`, directly followed by a parenthesized group, directly
//! followed by the punctuation `*`. The detector looks for markers in a body, at every
//! depth and inside every kind of bracket, and from what it finds selects the mode of the
//! expansion: `Direct` where there is none, `Targeted` where there is exactly one. A
//! second marker, and a `#( ... )` that lacks its `*`, are refused.

use crate::diagnostic::{Diagnostic, ErrorKind, Place};
use crate::token::{
    clone_range,
    clone_tokens,
    lemma_group_view,
    models,
    Delimiter,
    Position,
    Token,
    TokenModel,
};
use vstd::prelude::*;

verus! {

/// The character that opens a marker.
pub open spec fn marker_mark() -> char {
    '#'
}

/// The character that closes a marker.
pub open spec fn repeat_mark() -> char {
    '*'
}

/// A marker starts at place `i` of `s`.
pub open spec fn is_marker_at(s: Seq<TokenModel>, i: int) -> bool {
    &&& 0 <= i
    &&& i + 2 < s.len()
    &&& s[i].is_punct(marker_mark())
    &&& s[i + 1].is_group_of(Delimiter::Parenthesis)
    &&& s[i + 2].is_punct(repeat_mark())
}

/// At place `i` stands `#` and a parenthesized group that no `*` follows.
pub open spec fn is_open_marker_at(s: Seq<TokenModel>, i: int) -> bool {
    &&& 0 <= i
    &&& i + 1 < s.len()
    &&& s[i].is_punct(marker_mark())
    &&& s[i + 1].is_group_of(Delimiter::Parenthesis)
    &&& !is_marker_at(s, i)
}

/// Some marker lies at or behind place `i`, at this level or inside a group, however deep.
pub open spec fn has_marker_from(s: Seq<TokenModel>, i: int) -> bool
    decreases s, s.len() - i,
{
    if i < 0 || i >= s.len() {
        false
    } else {
        ||| is_marker_at(s, i)
        ||| (s[i] matches TokenModel::Group { inner, .. } && has_marker_from(inner, 0))
        ||| has_marker_from(s, i + 1)
    }
}

/// The body holds a marker somewhere.
pub open spec fn has_marker(s: Seq<TokenModel>) -> bool {
    has_marker_from(s, 0)
}

/// The positions of the markers at or behind place `i`, in the order of a depth-first
/// walk from left to right. The walk enters every group but the group of a marker: what
/// a marker encloses belongs to that marker.
pub open spec fn markers_from(s: Seq<TokenModel>, i: int) -> Seq<Position>
    decreases s, s.len() - i,
{
    if i < 0 || i >= s.len() {
        Seq::empty()
    } else if is_marker_at(s, i) {
        seq![s[i].position()] + markers_from(s, i + 3)
    } else {
        let below = match s[i] {
            TokenModel::Group { inner, .. } => markers_from(inner, 0),
            _ => Seq::empty(),
        };
        below + markers_from(s, i + 1)
    }
}

/// The positions of all markers of a body, first found first.
pub open spec fn markers(s: Seq<TokenModel>) -> Seq<Position> {
    markers_from(s, 0)
}

/// The position of the first `#( ... )` without its `*`, found by the same walk.
pub open spec fn first_open_marker_from(s: Seq<TokenModel>, i: int) -> Option<Position>
    decreases s, s.len() - i,
{
    if i < 0 || i >= s.len() {
        None
    } else if is_marker_at(s, i) {
        first_open_marker_from(s, i + 3)
    } else if is_open_marker_at(s, i) {
        Some(s[i].position())
    } else {
        let below = match s[i] {
            TokenModel::Group { inner, .. } => first_open_marker_from(inner, 0),
            _ => None,
        };
        match below {
            Some(p) => Some(p),
            None => first_open_marker_from(s, i + 1),
        }
    }
}

/// The position of the first `#( ... )` without its `*` in a body.
pub open spec fn first_open_marker(s: Seq<TokenModel>) -> Option<Position> {
    first_open_marker_from(s, 0)
}

/// One bracket around the marker: the group's own brackets and position, and its
/// neighbours to the left and to the right in the sequence that holds it.
#[derive(Debug, PartialEq, Eq)]
pub struct Frame {
    pub before: Vec<Token>,
    pub delimiter: Delimiter,
    pub pos: Position,
    pub after: Vec<Token>,
}

/// The value of a [`Frame`].
pub ghost struct FrameModel {
    pub before: Seq<TokenModel>,
    pub delimiter: Delimiter,
    pub pos: Position,
    pub after: Seq<TokenModel>,
}

impl View for Frame {
    type V = FrameModel;

    open spec fn view(&self) -> FrameModel {
        FrameModel {
            before: models(self.before@),
            delimiter: self.delimiter,
            pos: self.pos,
            after: models(self.after@),
        }
    }
}

/// The values of a sequence of frames.
pub open spec fn frame_models(s: Seq<Frame>) -> Seq<FrameModel> {
    Seq::new(s.len(), |i: int| s[i]@)
}

/// How a body is expanded.
#[derive(Debug, PartialEq, Eq)]
pub enum ExpansionMode {
    /// No marker: the whole body is repeated once per index.
    Direct,
    /// One marker: `marked_subsequence`, the members of the marker's group, is repeated
    /// once per index. `outer_prefix` and `outer_suffix` are the tokens before the `#` and
    /// after the `*` in the sequence that holds the marker; `enclosing` lists the groups
    /// around that sequence, innermost first. All of these appear once, as they are.
    Targeted {
        enclosing: Vec<Frame>,
        outer_prefix: Vec<Token>,
        marked_subsequence: Vec<Token>,
        outer_suffix: Vec<Token>,
    },
}

/// The value of an [`ExpansionMode`].
pub ghost enum ModeModel {
    Direct,
    Targeted {
        enclosing: Seq<FrameModel>,
        outer_prefix: Seq<TokenModel>,
        marked_subsequence: Seq<TokenModel>,
        outer_suffix: Seq<TokenModel>,
    },
}

impl View for ExpansionMode {
    type V = ModeModel;

    open spec fn view(&self) -> ModeModel {
        match self {
            ExpansionMode::Direct => ModeModel::Direct,
            ExpansionMode::Targeted {
                enclosing,
                outer_prefix,
                marked_subsequence,
                outer_suffix,
            } => ModeModel::Targeted {
                enclosing: frame_models(enclosing@),
                outer_prefix: models(outer_prefix@),
                marked_subsequence: models(marked_subsequence@),
                outer_suffix: models(outer_suffix@),
            },
        }
    }
}

/// The mode that the first marker at or behind place `i` selects, and the partition of
/// `s` around that marker; `Direct` where there is no marker.
pub open spec fn mode_from(s: Seq<TokenModel>, i: int) -> ModeModel
    decreases s, s.len() - i,
{
    if i < 0 || i >= s.len() {
        ModeModel::Direct
    } else if is_marker_at(s, i) {
        ModeModel::Targeted {
            enclosing: Seq::empty(),
            outer_prefix: s.subrange(0, i),
            marked_subsequence: s[i + 1]->Group_inner,
            outer_suffix: s.subrange(i + 3, s.len() as int),
        }
    } else {
        let below = match s[i] {
            TokenModel::Group { inner, .. } => mode_from(inner, 0),
            _ => ModeModel::Direct,
        };
        match below {
            ModeModel::Targeted {
                enclosing,
                outer_prefix,
                marked_subsequence,
                outer_suffix,
            } => ModeModel::Targeted {
                enclosing: enclosing.push(
                    FrameModel {
                        before: s.subrange(0, i),
                        delimiter: s[i]->Group_delimiter,
                        pos: s[i]->Group_pos,
                        after: s.subrange(i + 1, s.len() as int),
                    },
                ),
                outer_prefix,
                marked_subsequence,
                outer_suffix,
            },
            ModeModel::Direct => mode_from(s, i + 1),
        }
    }
}

/// The mode that the first marker of a body selects.
pub open spec fn mode_of(s: Seq<TokenModel>) -> ModeModel {
    mode_from(s, 0)
}

/// What the detector answers for a body.
///
/// A second marker is refused, at its place. Otherwise a `#( ... )` without its `*` is
/// refused, at its place, whether or not a marker stands beside it. Otherwise the first
/// marker selects the mode: `Targeted` where there is one, `Direct` where there is none.
pub open spec fn detected(s: Seq<TokenModel>) -> Result<ModeModel, Diagnostic> {
    if markers(s).len() >= 2 {
        Err(Diagnostic { kind: ErrorKind::Structure, place: Place::At(markers(s)[1]) })
    } else {
        match first_open_marker(s) {
            Some(p) => Err(Diagnostic { kind: ErrorKind::Structure, place: Place::At(p) }),
            None => Ok(mode_of(s)),
        }
    }
}

/// Whether a marker starts at place `i`.
fn marker_starts_at(tokens: &Vec<Token>, i: usize) -> (b: bool)
    requires
        i < tokens.len(),
    ensures
        b == is_marker_at(models(tokens@), i as int),
{
    tokens.len() - i >= 3 && tokens[i].is_punct('#') && tokens[i + 1].is_group_of(
        Delimiter::Parenthesis,
    ) && tokens[i + 2].is_punct('*')
}

/// Whether `#` and a parenthesized group without `*` stand at place `i`.
fn open_marker_starts_at(tokens: &Vec<Token>, i: usize) -> (b: bool)
    requires
        i < tokens.len(),
    ensures
        b == is_open_marker_at(models(tokens@), i as int),
{
    tokens.len() - i >= 2 && tokens[i].is_punct('#') && tokens[i + 1].is_group_of(
        Delimiter::Parenthesis,
    ) && !marker_starts_at(tokens, i)
}

/// Appends the positions of the markers of `tokens` to `found`.
fn collect_markers(tokens: &Vec<Token>, found: &mut Vec<Position>)
    ensures
        final(found)@ == old(found)@ + markers(models(tokens@)),
    decreases tokens,
{
    let ghost s = models(tokens@);
    let ghost start = found@;
    let mut i: usize = 0;
    assert(start + Seq::<Position>::empty() =~= start);
    while i < tokens.len()
        invariant
            i <= tokens.len(),
            s == models(tokens@),
            start + markers(s) == found@ + markers_from(s, i as int),
        decreases tokens.len() - i,
    {
        let ghost before = found@;
        let ghost rest = markers_from(s, i as int);
        if marker_starts_at(tokens, i) {
            let p = tokens[i].position();
            found.push(p);
            proof {
                let tail = markers_from(s, i + 3);
                assert(before + (seq![p] + tail) =~= before.push(p) + tail);
            }
            i += 3;
        } else {
            match &tokens[i] {
                Token::Group { inner, .. } => {
                    proof {
                        lemma_group_view(tokens@[i as int]);
                    }
                    collect_markers(inner, found);
                    proof {
                        let below = markers(models(inner@));
                        let tail = markers_from(s, i + 1);
                        assert(before + (below + tail) =~= (before + below) + tail);
                    }
                },
                _ => {
                    proof {
                        let tail = markers_from(s, i + 1);
                        assert(before + (Seq::<Position>::empty() + tail) =~= before + tail);
                    }
                },
            }
            i += 1;
        }
    }
    assert(found@ + Seq::<Position>::empty() =~= found@);
}

/// The positions of all markers of `tokens`, first found first.
pub fn find_markers(tokens: &Vec<Token>) -> (found: Vec<Position>)
    ensures
        found@ == markers(models(tokens@)),
{
    let mut found: Vec<Position> = Vec::new();
    collect_markers(tokens, &mut found);
    assert(Seq::<Position>::empty() + markers(models(tokens@)) =~= markers(models(tokens@)));
    found
}

/// The position of the first `#( ... )` without its `*` in `tokens`.
pub fn find_open_marker(tokens: &Vec<Token>) -> (found: Option<Position>)
    ensures
        found == first_open_marker(models(tokens@)),
    decreases tokens,
{
    let ghost s = models(tokens@);
    let mut i: usize = 0;
    while i < tokens.len()
        invariant
            i <= tokens.len(),
            s == models(tokens@),
            first_open_marker(s) == first_open_marker_from(s, i as int),
        decreases tokens.len() - i,
    {
        if marker_starts_at(tokens, i) {
            i += 3;
        } else if open_marker_starts_at(tokens, i) {
            return Some(tokens[i].position());
        } else {
            match &tokens[i] {
                Token::Group { inner, .. } => {
                    proof {
                        lemma_group_view(tokens@[i as int]);
                    }
                    let below = find_open_marker(inner);
                    if below.is_some() {
                        return below;
                    }
                },
                _ => {},
            }
            i += 1;
        }
    }
    None
}

/// The partition of `tokens` around its first marker; `Direct` where it has none.
pub fn locate_marker(tokens: &Vec<Token>) -> (mode: ExpansionMode)
    ensures
        mode@ == mode_of(models(tokens@)),
    decreases tokens,
{
    let ghost s = models(tokens@);
    let n = tokens.len();
    let mut i: usize = 0;
    while i < n
        invariant
            i <= n,
            n == tokens.len(),
            s == models(tokens@),
            mode_of(s) == mode_from(s, i as int),
        decreases n - i,
    {
        if marker_starts_at(tokens, i) {
            match &tokens[i + 1] {
                Token::Group { inner, .. } => {
                    proof {
                        lemma_group_view(tokens@[i + 1]);
                    }
                    let mode = ExpansionMode::Targeted {
                        enclosing: Vec::new(),
                        outer_prefix: clone_range(tokens, 0, i),
                        marked_subsequence: clone_tokens(inner),
                        outer_suffix: clone_range(tokens, i + 3, n),
                    };
                    assert(mode@->Targeted_enclosing =~= Seq::<FrameModel>::empty());
                    return mode;
                },
                _ => {},
            }
        }
        match &tokens[i] {
            Token::Group { delimiter, inner, pos } => {
                proof {
                    lemma_group_view(tokens@[i as int]);
                }
                match locate_marker(inner) {
                    ExpansionMode::Targeted {
                        enclosing,
                        outer_prefix,
                        marked_subsequence,
                        outer_suffix,
                    } => {
                        let mut enclosing = enclosing;
                        let ghost inner_frames = frame_models(enclosing@);
                        let frame = Frame {
                            before: clone_range(tokens, 0, i),
                            delimiter: *delimiter,
                            pos: *pos,
                            after: clone_range(tokens, i + 1, n),
                        };
                        enclosing.push(frame);
                        assert(frame_models(enclosing@) =~= inner_frames.push(frame@));
                        return ExpansionMode::Targeted {
                            enclosing,
                            outer_prefix,
                            marked_subsequence,
                            outer_suffix,
                        };
                    },
                    ExpansionMode::Direct => {},
                }
            },
            _ => {},
        }
        i += 1;
    }
    ExpansionMode::Direct
}

/// Selects the mode of expansion for `body`.
///
/// A structure error where the body holds a second marker, reported at that marker, or
/// else a `#( ... )` that lacks its `*`, reported at its `#`. Otherwise `Targeted`, with
/// the partition around the marker, where the body holds a marker at any depth, and
/// `Direct` where it holds none.
pub fn detect_mode(body: &Vec<Token>) -> (r: Result<ExpansionMode, Diagnostic>)
    ensures
        match r {
            Ok(mode) => detected(models(body@)) == Ok::<ModeModel, Diagnostic>(mode@),
            Err(d) => detected(models(body@)) == Err::<ModeModel, Diagnostic>(d),
        },
{
    let found = find_markers(body);
    if found.len() >= 2 {
        return Err(Diagnostic::at(ErrorKind::Structure, found[1]));
    }
    match find_open_marker(body) {
        Some(p) => Err(Diagnostic::at(ErrorKind::Structure, p)),
        None => Ok(locate_marker(body)),
    }
}

} // verus!
