//! The expansion driver: evaluates the range, selects the mode, and assembles the output.

use crate::diagnostic::{Diagnostic, ErrorKind, Place};
use crate::header::{admits_at, end_place, parsed, read_bounds, ExpansionSpec, SpecModel};
use crate::marker::{
    detect_mode,
    detected,
    frame_models,
    ExpansionMode,
    Frame,
    FrameModel,
    ModeModel,
};
use crate::literal::Reading;
use crate::range::{evaluated, indices, IndexRange};
use crate::substitute::{find_dangling_splice, first_dangling_splice, substitute, substituted};
use crate::token::{append_tokens, clone_tokens, lemma_models_push, models, Token, TokenModel};
use vstd::prelude::*;

verus! {

/// The expansions of `s`, one for each index, in the order of the indices.
pub open spec fn expansions(s: Seq<TokenModel>, placeholder: Seq<char>, idxs: Seq<nat>) -> Seq<
    Seq<TokenModel>,
> {
    Seq::new(idxs.len(), |k: int| substituted(s, placeholder, idxs[k]))
}

/// The expansions of `s` for each index, joined in the order of the indices.
pub open spec fn repeated(s: Seq<TokenModel>, placeholder: Seq<char>, idxs: Seq<nat>) -> Seq<
    TokenModel,
> {
    expansions(s, placeholder, idxs).flatten()
}

/// `middle` put back into the groups that enclose it, innermost first.
pub open spec fn plug(frames: Seq<FrameModel>, middle: Seq<TokenModel>) -> Seq<TokenModel>
    decreases frames.len(),
{
    if frames.len() == 0 {
        middle
    } else {
        let f = frames[0];
        let group = TokenModel::Group { delimiter: f.delimiter, inner: middle, pos: f.pos };
        plug(frames.drop_first(), f.before + seq![group] + f.after)
    }
}

/// The output for a mode: the whole body repeated, or the marked part repeated between
/// its unchanged surroundings.
pub open spec fn assembled(
    mode: ModeModel,
    body: Seq<TokenModel>,
    placeholder: Seq<char>,
    idxs: Seq<nat>,
) -> Seq<TokenModel> {
    match mode {
        ModeModel::Direct => repeated(body, placeholder, idxs),
        ModeModel::Targeted { enclosing, outer_prefix, marked_subsequence, outer_suffix } => plug(
            enclosing,
            outer_prefix + repeated(marked_subsequence, placeholder, idxs) + outer_suffix,
        ),
    }
}

/// What an invocation expands to.
///
/// The range is checked first, then the markers of the body, then its splices. The first
/// failure is the answer and nothing is produced beside it.
pub open spec fn expansion(spec: SpecModel) -> Result<Seq<TokenModel>, Diagnostic> {
    match evaluated(
        spec.start.value,
        spec.end.value,
        spec.inclusive,
        spec.start.pos,
        spec.end.pos,
    ) {
        Err(d) => Err(d),
        Ok(range) => match detected(spec.body) {
            Err(d) => Err(d),
            Ok(mode) => match first_dangling_splice(spec.body) {
                Some(p) => Err(Diagnostic { kind: ErrorKind::Splice, place: Place::At(p) }),
                None => Ok(assembled(mode, spec.body, spec.placeholder, range@)),
            },
        },
    }
}

/// What the tokens of an invocation expand to, where the literals at the places of its
/// bounds were read as `start` and `end`.
pub open spec fn expanded(input: Seq<TokenModel>, start: Reading, end: Reading) -> Result<
    Seq<TokenModel>,
    Diagnostic,
> {
    match parsed(input, start, end) {
        Err(d) => Err(d),
        Ok(spec) => expansion(spec),
    }
}

/// The answer `r` of an expansion is what `expected` says.
pub open spec fn expansion_agrees(
    r: Result<Vec<Token>, Diagnostic>,
    expected: Result<Seq<TokenModel>, Diagnostic>,
) -> bool {
    match r {
        Ok(out) => expected == Ok::<Seq<TokenModel>, Diagnostic>(models(out@)),
        Err(d) => expected == Err::<Seq<TokenModel>, Diagnostic>(d),
    }
}

/// One more index adds its expansion at the end.
pub proof fn lemma_repeated_push(
    s: Seq<TokenModel>,
    placeholder: Seq<char>,
    idxs: Seq<nat>,
    index: nat,
)
    ensures
        repeated(s, placeholder, idxs.push(index)) == repeated(s, placeholder, idxs) + substituted(
            s,
            placeholder,
            index,
        ),
{
    let parts = expansions(s, placeholder, idxs);
    let part = substituted(s, placeholder, index);
    assert(expansions(s, placeholder, idxs.push(index)) =~= parts.push(part));
    parts.lemma_flatten_push(part);
}

/// Without an index nothing is produced.
pub proof fn lemma_repeated_empty(s: Seq<TokenModel>, placeholder: Seq<char>)
    ensures
        repeated(s, placeholder, Seq::empty()) == Seq::<TokenModel>::empty(),
{
    assert(expansions(s, placeholder, Seq::empty()) =~= Seq::<Seq<TokenModel>>::empty());
}

/// The expansions of `tokens` for every index of `range`, joined in ascending order.
pub fn repeat(tokens: &Vec<Token>, placeholder: &String, range: &IndexRange) -> (out: Vec<Token>)
    ensures
        models(out@) == repeated(models(tokens@), placeholder@, range@),
{
    let ghost s = models(tokens@);
    let ghost ph = placeholder@;
    let mut out: Vec<Token> = Vec::new();
    let mut i: usize = range.start;
    proof {
        lemma_repeated_empty(s, ph);
        assert(indices(range.start as nat, i as nat, false) =~= Seq::<nat>::empty());
        assert(models(out@) =~= Seq::<TokenModel>::empty());
    }
    while i < range.end
        invariant
            range.start <= i,
            range.start <= range.end ==> i <= range.end,
            range.start > range.end ==> i == range.start,
            s == models(tokens@),
            ph == placeholder@,
            models(out@) == repeated(s, ph, indices(range.start as nat, i as nat, false)),
        decreases range.end - i,
    {
        let part = substitute(tokens, placeholder, i);
        proof {
            let done = indices(range.start as nat, i as nat, false);
            lemma_repeated_push(s, ph, done, i as nat);
            assert(done.push(i as nat) =~= indices(range.start as nat, (i + 1) as nat, false));
        }
        append_tokens(&mut out, part);
        i += 1;
    }
    if range.inclusive && range.start <= range.end {
        let part = substitute(tokens, placeholder, range.end);
        proof {
            let done = indices(range.start as nat, range.end as nat, false);
            lemma_repeated_push(s, ph, done, range.end as nat);
            assert(done.push(range.end as nat) =~= range@);
        }
        append_tokens(&mut out, part);
    } else {
        assert(indices(range.start as nat, i as nat, false) =~= range@);
    }
    out
}

/// Puts `middle` back into the groups of `frames`, innermost first.
pub fn plug_frames(frames: &Vec<Frame>, middle: Vec<Token>) -> (out: Vec<Token>)
    ensures
        models(out@) == plug(frame_models(frames@), models(middle@)),
{
    let ghost all = frame_models(frames@);
    let ghost goal = plug(all, models(middle@));
    let mut out = middle;
    let mut k: usize = 0;
    assert(all.skip(0) =~= all);
    while k < frames.len()
        invariant
            k <= frames.len(),
            all == frame_models(frames@),
            goal == plug(all.skip(k as int), models(out@)),
        decreases frames.len() - k,
    {
        let frame = &frames[k];
        let ghost inner = models(out@);
        let mut next = clone_tokens(&frame.before);
        let group = Token::group(frame.delimiter, out, frame.pos);
        proof {
            lemma_models_push(next@, group);
        }
        next.push(group);
        let after = clone_tokens(&frame.after);
        append_tokens(&mut next, after);
        proof {
            let f = all.skip(k as int)[0];
            assert(f == frames@[k as int]@);
            assert(all.skip(k as int).drop_first() =~= all.skip(k + 1));
            assert(models(next@) =~= f.before + seq![group@] + f.after);
        }
        out = next;
        k += 1;
    }
    out
}

/// Builds the output for `mode` from the body and the indices.
pub fn assemble(
    mode: &ExpansionMode,
    body: &Vec<Token>,
    placeholder: &String,
    range: &IndexRange,
) -> (out: Vec<Token>)
    ensures
        models(out@) == assembled(mode@, models(body@), placeholder@, range@),
{
    match mode {
        ExpansionMode::Direct => repeat(body, placeholder, range),
        ExpansionMode::Targeted { enclosing, outer_prefix, marked_subsequence, outer_suffix } => {
            let mut middle = clone_tokens(outer_prefix);
            let marked = repeat(marked_subsequence, placeholder, range);
            append_tokens(&mut middle, marked);
            let suffix = clone_tokens(outer_suffix);
            append_tokens(&mut middle, suffix);
            plug_frames(enclosing, middle)
        },
    }
}

impl ExpansionSpec {
    /// Expands the invocation.
    ///
    /// Fails with a range error where a bound has no value or the start lies beyond the
    /// end, with a structure error where the markers of the body cannot be honoured, and
    /// with a splice error where a splice has nothing to join. Otherwise the output is
    /// the body repeated for each index in ascending order or, with a marker, the marked
    /// part repeated in place and everything around it once.
    pub fn expand(&self) -> (r: Result<Vec<Token>, Diagnostic>)
        ensures
            expansion_agrees(r, expansion(self@)),
    {
        let range = match self.range() {
            Ok(range) => range,
            Err(d) => {
                return Err(d);
            },
        };
        let mode = match detect_mode(&self.body) {
            Ok(mode) => mode,
            Err(d) => {
                return Err(d);
            },
        };
        match find_dangling_splice(&self.body) {
            Some(p) => Err(Diagnostic::at(ErrorKind::Splice, p)),
            None => Ok(assemble(&mode, &self.body, &self.placeholder, &range)),
        }
    }
}

/// Expands the tokens of one invocation `<placeholder> in <start>..<end> { <body> }`,
/// where the literals at the places of its bounds were read as `start` and `end`.
///
/// The answer is either the complete replacement or one diagnostic: no partial output is
/// ever handed out.
pub fn seq_with(input: &Vec<Token>, start: Reading, end: Reading) -> (r: Result<
    Vec<Token>,
    Diagnostic,
>)
    ensures
        expansion_agrees(r, expanded(models(input@), start, end)),
{
    match ExpansionSpec::parse_with(input, start, end) {
        Ok(spec) => spec.expand(),
        Err(d) => Err(d),
    }
}

/// Expands the tokens of one invocation `<placeholder> in <start>..<end> { <body> }`.
///
/// The bounds are read as integers, and the answer is that of [`seq_with`] for what was
/// read. What was read is what the texts of the bounds admit: bounds written in decimal
/// digits alone are read as the numbers they write.
pub fn seq(input: &Vec<Token>) -> (r: Result<Vec<Token>, Diagnostic>)
    ensures
        exists|start: Reading, end: Reading|
            {
                &&& admits_at(models(input@), 2, start)
                &&& admits_at(models(input@), end_place(models(input@)), end)
                &&& expansion_agrees(r, #[trigger] expanded(models(input@), start, end))
            },
{
    let (start, end) = read_bounds(input);
    seq_with(input, start, end)
}

} // verus!
