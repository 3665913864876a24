//! What holds of every expansion, proved from the definitions.

use crate::decimal::{decimal, lemma_decimal_injective};
use crate::literal::{is_decimal, number};
use crate::diagnostic::{Diagnostic, ErrorKind, Place};
use crate::expand::{assembled, expansion, expansions, plug, repeated};
use crate::header::SpecModel;
use crate::marker::{
    detected,
    first_open_marker,
    has_marker,
    has_marker_from,
    is_marker_at,
    markers,
    markers_from,
    mode_from,
    mode_of,
    FrameModel,
    ModeModel,
};
use crate::range::indices;
use crate::substitute::{
    first_dangling_splice,
    is_splice_at,
    rewrite_from,
    splice_mark,
    substituted,
};
use crate::token::{Position, Spacing, TokenModel};
use vstd::prelude::*;

verus! {

/// The number of expansions is the number of indices: `end - start` where the end is
/// left out, one more where it is included, and none for equal bounds with the end left
/// out.
pub proof fn lemma_expansion_count(
    s: Seq<TokenModel>,
    placeholder: Seq<char>,
    start: nat,
    end: nat,
    inclusive: bool,
)
    requires
        start <= end,
    ensures
        expansions(s, placeholder, indices(start, end, inclusive)).len() == end - start + (
        if inclusive {
            1int
        } else {
            0int
        }),
        start == end && !inclusive ==> expansions(
            s,
            placeholder,
            indices(start, end, inclusive),
        ).len() == 0,
{
}

/// Each expansion belongs to its index: the one at place `k` is the body rewritten for
/// `start + k`.
pub proof fn lemma_expansion_at(
    s: Seq<TokenModel>,
    placeholder: Seq<char>,
    start: nat,
    end: nat,
    inclusive: bool,
    k: int,
)
    requires
        0 <= k < indices(start, end, inclusive).len(),
    ensures
        expansions(s, placeholder, indices(start, end, inclusive))[k] == substituted(
            s,
            placeholder,
            (start + k) as nat,
        ),
{
}

/// An invocation whose body holds no marker, no `#( ... )` without its `*` and no
/// dangling splice expands, for bounds in order, to its body rewritten once for each
/// index from `start` on, joined in ascending order: `end - start` expansions, and one
/// more where the end is included.
pub proof fn lemma_direct_expansion(spec: SpecModel, start: usize, end: usize)
    requires
        spec.start.value == Some(start),
        spec.end.value == Some(end),
        start <= end,
        !has_marker(spec.body),
        first_open_marker(spec.body) is None,
        first_dangling_splice(spec.body) is None,
    ensures
        expansion(spec) == Ok::<Seq<TokenModel>, Diagnostic>(
            expansions(
                spec.body,
                spec.placeholder,
                indices(start as nat, end as nat, spec.inclusive),
            ).flatten(),
        ),
        expansions(
            spec.body,
            spec.placeholder,
            indices(start as nat, end as nat, spec.inclusive),
        ).len() == end - start + (if spec.inclusive {
            1int
        } else {
            0int
        }),
{
    lemma_marker_found(spec.body);
}

/// A start beyond the end is refused as a range error at the end bound, whatever the
/// body holds and whether or not the end is included.
pub proof fn lemma_start_beyond_end_refused(spec: SpecModel, start: usize, end: usize)
    requires
        spec.start.value == Some(start),
        spec.end.value == Some(end),
        start > end,
    ensures
        expansion(spec) == Err::<Seq<TokenModel>, Diagnostic>(
            Diagnostic { kind: ErrorKind::Range, place: Place::At(spec.end.pos) },
        ),
{
}

/// The identifier `name` occurs at or behind place `i`, at this level or inside a group.
pub open spec fn mentions_from(s: Seq<TokenModel>, i: int, name: Seq<char>) -> bool
    decreases s, s.len() - i,
{
    if i < 0 || i >= s.len() {
        false
    } else {
        ||| s[i].is_ident_named(name)
        ||| (s[i] matches TokenModel::Group { inner, .. } && mentions_from(inner, 0, name))
        ||| mentions_from(s, i + 1, name)
    }
}

/// The identifier `name` occurs somewhere in `s`.
pub open spec fn mentions(s: Seq<TokenModel>, name: Seq<char>) -> bool {
    mentions_from(s, 0, name)
}

proof fn lemma_mentioned_behind(s: Seq<TokenModel>, i: int, j: int, name: Seq<char>)
    requires
        0 <= i <= j < s.len(),
        s[j].is_ident_named(name),
    ensures
        mentions_from(s, i, name),
    decreases j - i,
{
    if i < j {
        lemma_mentioned_behind(s, i + 1, j, name);
    }
}

proof fn lemma_rewrite_from_without_placeholder(
    s: Seq<TokenModel>,
    i: int,
    placeholder: Seq<char>,
    digits: Seq<char>,
)
    requires
        0 <= i <= s.len(),
        !mentions_from(s, i, placeholder),
    ensures
        rewrite_from(s, i, placeholder, digits) == s.subrange(i, s.len() as int),
    decreases s, s.len() - i,
{
    if i < s.len() {
        lemma_rewrite_from_without_placeholder(s, i + 1, placeholder, digits);
        if is_splice_at(s, i, placeholder) {
            lemma_mentioned_behind(s, i, i + 2, placeholder);
        }
        match s[i] {
            TokenModel::Group { delimiter, inner, pos } => {
                lemma_rewrite_from_without_placeholder(inner, 0, placeholder, digits);
                assert(inner.subrange(0, inner.len() as int) =~= inner);
            },
            _ => {},
        }
        assert(seq![s[i]] + s.subrange(i + 1, s.len() as int) =~= s.subrange(i, s.len() as int));
    } else {
        assert(s.subrange(i, s.len() as int) =~= Seq::<TokenModel>::empty());
    }
}

/// Tokens that do not mention the placeholder are reproduced as they are, whatever the
/// index: every expansion of them is the same sequence, the input itself.
pub proof fn lemma_rewrite_without_placeholder(
    s: Seq<TokenModel>,
    placeholder: Seq<char>,
    index: nat,
)
    requires
        !mentions(s, placeholder),
    ensures
        substituted(s, placeholder, index) == s,
{
    lemma_rewrite_from_without_placeholder(s, 0, placeholder, decimal(index));
    assert(s.subrange(0, s.len() as int) =~= s);
}

/// No splice that starts before place `i` covers it: the token there is not the `~` and
/// not the placeholder of a splice.
pub open spec fn reached(s: Seq<TokenModel>, i: int, placeholder: Seq<char>) -> bool {
    &&& !is_splice_at(s, i - 1, placeholder)
    &&& !is_splice_at(s, i - 2, placeholder)
}

/// No splice covers place `i`: none starts there or at one of the two places before.
pub open spec fn outside_splices(s: Seq<TokenModel>, i: int, placeholder: Seq<char>) -> bool {
    &&& !is_splice_at(s, i, placeholder)
    &&& reached(s, i, placeholder)
}

/// The number of tokens that the places from `from` up to `i` put out. It does not
/// depend on the index.
pub open spec fn output_place_from(
    s: Seq<TokenModel>,
    from: int,
    i: int,
    placeholder: Seq<char>,
) -> int
    decreases i - from,
{
    if from >= i {
        0
    } else if is_splice_at(s, from, placeholder) && from + 3 <= i {
        1 + output_place_from(s, from + 3, i, placeholder)
    } else {
        1 + output_place_from(s, from + 1, i, placeholder)
    }
}

/// The place in every expansion of `s` at which the token of place `i` comes out.
pub open spec fn output_place(s: Seq<TokenModel>, i: int, placeholder: Seq<char>) -> int {
    output_place_from(s, 0, i, placeholder)
}

proof fn lemma_output_from(
    s: Seq<TokenModel>,
    from: int,
    i: int,
    placeholder: Seq<char>,
    digits: Seq<char>,
)
    requires
        0 <= from <= i < s.len(),
        reached(s, i, placeholder),
    ensures
        0 <= output_place_from(s, from, i, placeholder) < rewrite_from(
            s,
            from,
            placeholder,
            digits,
        ).len(),
        rewrite_from(s, from, placeholder, digits)[output_place_from(s, from, i, placeholder)]
            == rewrite_from(s, i, placeholder, digits)[0],
    decreases i - from,
{
    if from < i {
        if is_splice_at(s, from, placeholder) {
            lemma_output_from(s, from + 3, i, placeholder, digits);
        } else {
            lemma_output_from(s, from + 1, i, placeholder, digits);
        }
    }
}

/// A token that is neither the placeholder nor a group nor covered by a splice comes out
/// unchanged, at the same place of every expansion.
pub proof fn lemma_plain_token_kept(
    s: Seq<TokenModel>,
    i: int,
    placeholder: Seq<char>,
    index: nat,
)
    requires
        0 <= i < s.len(),
        outside_splices(s, i, placeholder),
        !s[i].is_ident_named(placeholder),
        !(s[i] is Group),
    ensures
        0 <= output_place(s, i, placeholder) < substituted(s, placeholder, index).len(),
        substituted(s, placeholder, index)[output_place(s, i, placeholder)] == s[i],
{
    lemma_output_from(s, 0, i, placeholder, decimal(index));
}

/// A group that no splice covers keeps its brackets and its position in every expansion;
/// its members are the expansion of its members.
pub proof fn lemma_group_kept(s: Seq<TokenModel>, i: int, placeholder: Seq<char>, index: nat)
    requires
        0 <= i < s.len(),
        s[i] is Group,
    ensures
        0 <= output_place(s, i, placeholder) < substituted(s, placeholder, index).len(),
        substituted(s, placeholder, index)[output_place(s, i, placeholder)] == (
        TokenModel::Group {
            delimiter: s[i]->Group_delimiter,
            inner: substituted(s[i]->Group_inner, placeholder, index),
            pos: s[i]->Group_pos,
        }),
{
    assert(outside_splices(s, i, placeholder));
    lemma_output_from(s, 0, i, placeholder, decimal(index));
}

proof fn lemma_output_place_sum(
    s: Seq<TokenModel>,
    from: int,
    i: int,
    j: int,
    placeholder: Seq<char>,
)
    requires
        0 <= from <= i <= j,
        reached(s, i, placeholder),
    ensures
        output_place_from(s, from, j, placeholder) == output_place_from(s, from, i, placeholder)
            + output_place_from(s, i, j, placeholder),
    decreases i - from,
{
    if from < i {
        if is_splice_at(s, from, placeholder) {
            lemma_output_place_sum(s, from + 3, i, j, placeholder);
        } else {
            lemma_output_place_sum(s, from + 1, i, j, placeholder);
        }
    }
}

/// A splice at any place of a sequence, behind whatever comes before it: where an
/// identifier, `~` and the placeholder stand at places `i`, `i + 1` and `i + 2`, every
/// expansion holds in their stead one identifier, the text of the first followed by the
/// numeral of the index, at the position of the first. The three put out one token: what
/// stands behind them comes out at the next place, so the placeholder of the splice is
/// not put out again.
pub proof fn lemma_splice_at_place(s: Seq<TokenModel>, i: int, placeholder: Seq<char>, index: nat)
    requires
        0 <= i,
        is_splice_at(s, i, placeholder),
        reached(s, i, placeholder),
    ensures
        0 <= output_place(s, i, placeholder) < substituted(s, placeholder, index).len(),
        substituted(s, placeholder, index)[output_place(s, i, placeholder)] == (
        TokenModel::Ident {
            text: s[i]->Ident_text + decimal(index),
            pos: s[i]->Ident_pos,
        }),
        output_place(s, i + 3, placeholder) == output_place(s, i, placeholder) + 1,
{
    lemma_output_from(s, 0, i, placeholder, decimal(index));
    lemma_output_place_sum(s, 0, i, i + 3, placeholder);
    assert(output_place_from(s, i + 3, i + 3, placeholder) == 0);
}

/// A lone placeholder at any place of a sequence: where the placeholder stands at place
/// `i` and no splice covers it, every expansion holds in its stead one literal, the
/// numeral of the index, at the position of the placeholder. It puts out one token: what
/// stands behind it comes out at the next place.
pub proof fn lemma_placeholder_at_place(
    s: Seq<TokenModel>,
    i: int,
    placeholder: Seq<char>,
    index: nat,
)
    requires
        0 <= i < s.len(),
        s[i].is_ident_named(placeholder),
        outside_splices(s, i, placeholder),
    ensures
        0 <= output_place(s, i, placeholder) < substituted(s, placeholder, index).len(),
        substituted(s, placeholder, index)[output_place(s, i, placeholder)] == (
        TokenModel::Literal { text: decimal(index), pos: s[i]->Ident_pos }),
        output_place(s, i + 1, placeholder) == output_place(s, i, placeholder) + 1,
{
    lemma_output_from(s, 0, i, placeholder, decimal(index));
    lemma_output_place_sum(s, 0, i, i + 1, placeholder);
    assert(output_place_from(s, i + 1, i + 1, placeholder) == 0);
}

/// The sequence that is reached from `s` by going into the group at place `path[0]`,
/// there into the group at place `path[1]`, and so on; `None` where a step finds no
/// group.
pub open spec fn descend(s: Seq<TokenModel>, path: Seq<int>) -> Option<Seq<TokenModel>>
    decreases path.len(),
{
    if path.len() == 0 {
        Some(s)
    } else if 0 <= path[0] < s.len() && s[path[0]] is Group {
        descend(s[path[0]]->Group_inner, path.drop_first())
    } else {
        None
    }
}

/// The path in every expansion of `s` that goes through the same groups as `path` does
/// in `s`.
pub open spec fn output_path(s: Seq<TokenModel>, path: Seq<int>, placeholder: Seq<char>) -> Seq<
    int,
>
    decreases path.len(),
{
    if path.len() > 0 && 0 <= path[0] < s.len() && s[path[0]] is Group {
        seq![output_place(s, path[0], placeholder)] + output_path(
            s[path[0]]->Group_inner,
            path.drop_first(),
            placeholder,
        )
    } else {
        Seq::empty()
    }
}

/// At any depth the members of a group are expanded as a sequence of their own: going
/// into the same groups of an expansion leads to the expansion of what the groups hold.
/// So what holds of a place in any sequence - a kept token, a splice, a lone placeholder
/// - holds at every depth.
pub proof fn lemma_expansion_at_depth(
    s: Seq<TokenModel>,
    path: Seq<int>,
    placeholder: Seq<char>,
    index: nat,
)
    requires
        descend(s, path) is Some,
    ensures
        descend(substituted(s, placeholder, index), output_path(s, path, placeholder)) == Some(
            substituted(descend(s, path)->Some_0, placeholder, index),
        ),
    decreases path.len(),
{
    if path.len() > 0 {
        let inner = s[path[0]]->Group_inner;
        lemma_group_kept(s, path[0], placeholder, index);
        lemma_expansion_at_depth(inner, path.drop_first(), placeholder, index);
        let out_path = output_path(s, path, placeholder);
        assert(out_path[0] == output_place(s, path[0], placeholder));
        assert(out_path.drop_first() =~= output_path(inner, path.drop_first(), placeholder));
    }
}

/// Two tokens are alike but for the text that stands for the placeholder: they are the
/// same token, or literals at one position with the texts `d1` and `d2`, or identifiers
/// at one position whose texts are one text followed by `d1` and by `d2`, or groups with
/// the same brackets at one position whose members are alike, one by one.
pub open spec fn akin(a: TokenModel, b: TokenModel, d1: Seq<char>, d2: Seq<char>) -> bool
    decreases a,
{
    match a {
        TokenModel::Group { delimiter, inner, pos } => {
            &&& b is Group
            &&& b->Group_delimiter == delimiter
            &&& b->Group_pos == pos
            &&& b->Group_inner.len() == inner.len()
            &&& forall|j: int|
                0 <= j < inner.len() ==> akin(#[trigger] inner[j], b->Group_inner[j], d1, d2)
        },
        TokenModel::Literal { text, pos } => {
            &&& b is Literal
            &&& b->Literal_pos == pos
            &&& (b->Literal_text == text || (text == d1 && b->Literal_text == d2))
        },
        TokenModel::Ident { text, pos } => {
            &&& b is Ident
            &&& b->Ident_pos == pos
            &&& (b->Ident_text == text || exists|head: Seq<char>|
                text == #[trigger] (head + d1) && b->Ident_text == head + d2)
        },
        TokenModel::Punct { .. } => a == b,
    }
}

proof fn lemma_alike_from(
    s: Seq<TokenModel>,
    i: int,
    placeholder: Seq<char>,
    d1: Seq<char>,
    d2: Seq<char>,
)
    requires
        0 <= i <= s.len(),
    ensures
        rewrite_from(s, i, placeholder, d1).len() == rewrite_from(s, i, placeholder, d2).len(),
        forall|j: int|
            0 <= j < rewrite_from(s, i, placeholder, d1).len() ==> akin(
                #[trigger] rewrite_from(s, i, placeholder, d1)[j],
                rewrite_from(s, i, placeholder, d2)[j],
                d1,
                d2,
            ),
    decreases s, s.len() - i,
{
    let a = rewrite_from(s, i, placeholder, d1);
    let b = rewrite_from(s, i, placeholder, d2);
    if i < s.len() {
        let step: int = if is_splice_at(s, i, placeholder) {
            3
        } else {
            1
        };
        lemma_alike_from(s, i + step, placeholder, d1, d2);
        let a_rest = rewrite_from(s, i + step, placeholder, d1);
        let b_rest = rewrite_from(s, i + step, placeholder, d2);
        assert(a == seq![a[0]] + a_rest);
        assert(b == seq![b[0]] + b_rest);
        if is_splice_at(s, i, placeholder) {
            let head = s[i]->Ident_text;
            assert(a[0]->Ident_text == head + d1 && b[0]->Ident_text == head + d2);
        } else {
            match s[i] {
                TokenModel::Group { inner, .. } => {
                    lemma_alike_from(inner, 0, placeholder, d1, d2);
                },
                _ => {},
            }
        }
        assert(akin(a[0], b[0], d1, d2));
        assert forall|j: int| 0 <= j < a.len() implies akin(#[trigger] a[j], b[j], d1, d2) by {
            if j > 0 {
                assert(a[j] == a_rest[j - 1]);
                assert(b[j] == b_rest[j - 1]);
            }
        }
    }
}

/// Two expansions of one sequence, for whatever two indices, have the same length and
/// the same groups at every depth, and differ only in the tokens made from the
/// placeholder: the numeral of the one index against the numeral of the other, an
/// identifier spliced with the one against the same identifier spliced with the other.
/// Every other token is the same in both.
pub proof fn lemma_expansions_alike(
    s: Seq<TokenModel>,
    placeholder: Seq<char>,
    i: nat,
    j: nat,
)
    ensures
        substituted(s, placeholder, i).len() == substituted(s, placeholder, j).len(),
        forall|k: int|
            0 <= k < substituted(s, placeholder, i).len() ==> akin(
                #[trigger] substituted(s, placeholder, i)[k],
                substituted(s, placeholder, j)[k],
                decimal(i),
                decimal(j),
            ),
{
    lemma_alike_from(s, 0, placeholder, decimal(i), decimal(j));
}

/// The numeral that is written for an index is read back as that index: it is decimal
/// digits alone and writes the number.
pub proof fn lemma_numeral_reads_back(n: nat)
    ensures
        is_decimal(decimal(n)),
        number(decimal(n)) == n,
    decreases n,
{
    if n < 10 {
        assert(decimal(n).drop_last() =~= Seq::<char>::empty());
        assert(number(Seq::<char>::empty()) == 0);
    } else {
        lemma_numeral_reads_back(n / 10);
        assert(decimal(n).drop_last() =~= decimal(n / 10));
    }
}

/// An identifier, the splice operator and the placeholder become one identifier: the
/// text of the first followed by the numeral of the index, at the position of the first.
pub proof fn lemma_splice_joins(
    head: Seq<char>,
    head_pos: Position,
    mark_spacing: Spacing,
    mark_pos: Position,
    placeholder: Seq<char>,
    placeholder_pos: Position,
    index: nat,
)
    ensures
        substituted(
            seq![
                TokenModel::Ident { text: head, pos: head_pos },
                TokenModel::Punct { ch: splice_mark(), spacing: mark_spacing, pos: mark_pos },
                TokenModel::Ident { text: placeholder, pos: placeholder_pos },
            ],
            placeholder,
            index,
        ) == seq![TokenModel::Ident { text: head + decimal(index), pos: head_pos }],
{
    let s = seq![
        TokenModel::Ident { text: head, pos: head_pos },
        TokenModel::Punct { ch: splice_mark(), spacing: mark_spacing, pos: mark_pos },
        TokenModel::Ident { text: placeholder, pos: placeholder_pos },
    ];
    assert(is_splice_at(s, 0, placeholder));
    assert(rewrite_from(s, 3, placeholder, decimal(index)) =~= Seq::<TokenModel>::empty());
    assert(substituted(s, placeholder, index) =~= seq![
        TokenModel::Ident { text: head + decimal(index), pos: head_pos },
    ]);
}

/// The identifiers that one splice makes for different indices differ.
pub proof fn lemma_spliced_names_differ(head: Seq<char>, a: nat, b: nat)
    requires
        a != b,
    ensures
        head + decimal(a) != head + decimal(b),
{
    lemma_decimal_injective(a, b);
    if head + decimal(a) == head + decimal(b) {
        assert((head + decimal(a)).skip(head.len() as int) =~= decimal(a));
        assert((head + decimal(b)).skip(head.len() as int) =~= decimal(b));
    }
}

/// A lone placeholder becomes the numeral of the index, as a literal at the
/// placeholder's position.
pub proof fn lemma_lone_placeholder(placeholder: Seq<char>, pos: Position, index: nat)
    ensures
        substituted(seq![TokenModel::Ident { text: placeholder, pos }], placeholder, index)
            == seq![TokenModel::Literal { text: decimal(index), pos }],
{
    let s = seq![TokenModel::Ident { text: placeholder, pos }];
    assert(!is_splice_at(s, 0, placeholder));
    assert(rewrite_from(s, 1, placeholder, decimal(index)) =~= Seq::<TokenModel>::empty());
    assert(substituted(s, placeholder, index) =~= seq![
        TokenModel::Literal { text: decimal(index), pos },
    ]);
}

proof fn lemma_marker_walks_agree(s: Seq<TokenModel>, i: int)
    ensures
        has_marker_from(s, i) <==> markers_from(s, i).len() > 0,
        has_marker_from(s, i) <==> mode_from(s, i) is Targeted,
    decreases s, s.len() - i,
{
    if 0 <= i < s.len() {
        lemma_marker_walks_agree(s, i + 1);
        if is_marker_at(s, i) {
        } else {
            match s[i] {
                TokenModel::Group { inner, .. } => {
                    lemma_marker_walks_agree(inner, 0);
                },
                _ => {},
            }
        }
    }
}

/// A body holds a marker exactly if the walk finds one, and exactly then the first
/// marker selects the targeted mode.
pub proof fn lemma_marker_found(s: Seq<TokenModel>)
    ensures
        has_marker(s) <==> markers(s).len() > 0,
        has_marker(s) <==> mode_of(s) is Targeted,
{
    lemma_marker_walks_agree(s, 0);
}

/// A body without any marker, at any depth, and without a `#( ... )` that lacks its `*`
/// is expanded directly; and of the bodies without such a `#( ... )`, only those
/// without a marker.
pub proof fn lemma_direct_without_marker(s: Seq<TokenModel>)
    requires
        first_open_marker(s) is None,
    ensures
        !has_marker(s) <==> detected(s) == Ok::<ModeModel, Diagnostic>(ModeModel::Direct),
{
    lemma_marker_found(s);
}

/// A `#( ... )` that lacks its `*` is refused as a structure error, with or without a
/// marker beside it: at the second marker where there are two, else at its own `#`.
pub proof fn lemma_open_marker_refused(s: Seq<TokenModel>)
    requires
        first_open_marker(s) is Some,
    ensures
        detected(s) is Err,
        detected(s)->Err_0.kind == ErrorKind::Structure,
        markers(s).len() < 2 ==> detected(s)->Err_0.place == Place::At(
            first_open_marker(s)->Some_0,
        ),
{
}

/// A body with exactly one marker, however deep, and no `#( ... )` without its `*` is
/// expanded around that marker: the output is the marked part repeated once per index,
/// between the prefix and the suffix, inside the groups that enclosed the marker.
pub proof fn lemma_targeted_with_one_marker(
    s: Seq<TokenModel>,
    placeholder: Seq<char>,
    idxs: Seq<nat>,
)
    requires
        markers(s).len() == 1,
        first_open_marker(s) is None,
    ensures
        detected(s) == Ok::<ModeModel, Diagnostic>(mode_of(s)),
        mode_of(s) is Targeted,
        assembled(mode_of(s), s, placeholder, idxs) == plug(
            mode_of(s)->Targeted_enclosing,
            mode_of(s)->Targeted_outer_prefix + repeated(
                mode_of(s)->Targeted_marked_subsequence,
                placeholder,
                idxs,
            ) + mode_of(s)->Targeted_outer_suffix,
        ),
{
    lemma_marker_found(s);
}

/// An invocation whose body holds exactly one marker, no `#( ... )` without its `*` and
/// no dangling splice expands, for bounds in order, to the body with the marker replaced
/// by the marked part rewritten once for each index; everything around the marker comes
/// out once, as it is.
pub proof fn lemma_targeted_expansion(spec: SpecModel, start: usize, end: usize)
    requires
        spec.start.value == Some(start),
        spec.end.value == Some(end),
        start <= end,
        markers(spec.body).len() == 1,
        first_open_marker(spec.body) is None,
        first_dangling_splice(spec.body) is None,
    ensures
        mode_of(spec.body) is Targeted,
        expansion(spec) == Ok::<Seq<TokenModel>, Diagnostic>(
            plug(
                mode_of(spec.body)->Targeted_enclosing,
                mode_of(spec.body)->Targeted_outer_prefix + repeated(
                    mode_of(spec.body)->Targeted_marked_subsequence,
                    spec.placeholder,
                    indices(start as nat, end as nat, spec.inclusive),
                ) + mode_of(spec.body)->Targeted_outer_suffix,
            ),
        ),
{
    lemma_marker_found(spec.body);
}

/// Putting something into one more frame, the outermost, wraps what the inner frames
/// make of it.
pub proof fn lemma_plug_push(frames: Seq<FrameModel>, outer: FrameModel, middle: Seq<TokenModel>)
    ensures
        plug(frames.push(outer), middle) == outer.before + seq![
            TokenModel::Group {
                delimiter: outer.delimiter,
                inner: plug(frames, middle),
                pos: outer.pos,
            },
        ] + outer.after,
    decreases frames.len(),
{
    if frames.len() == 0 {
        let group = TokenModel::Group {
            delimiter: outer.delimiter,
            inner: middle,
            pos: outer.pos,
        };
        let wrapped = outer.before + seq![group] + outer.after;
        assert(frames.push(outer)[0] == outer);
        assert(frames.push(outer).drop_first() =~= Seq::<FrameModel>::empty());
        assert(plug(frames.push(outer), middle) == plug(Seq::<FrameModel>::empty(), wrapped));
        assert(plug(Seq::<FrameModel>::empty(), wrapped) == wrapped);
    } else {
        let f = frames[0];
        let group = TokenModel::Group { delimiter: f.delimiter, inner: middle, pos: f.pos };
        assert(frames.push(outer)[0] == f);
        assert(frames.push(outer).drop_first() =~= frames.drop_first().push(outer));
        lemma_plug_push(frames.drop_first(), outer, f.before + seq![group] + f.after);
    }
}

proof fn lemma_partition_from(s: Seq<TokenModel>, i: int) -> (marker: Seq<TokenModel>)
    requires
        0 <= i,
        mode_from(s, i) is Targeted,
    ensures
        marker.len() == 3,
        is_marker_at(marker, 0),
        marker[1]->Group_inner == mode_from(s, i)->Targeted_marked_subsequence,
        plug(
            mode_from(s, i)->Targeted_enclosing,
            mode_from(s, i)->Targeted_outer_prefix + marker + mode_from(s, i)->Targeted_outer_suffix,
        ) == s,
    decreases s, s.len() - i,
{
    if is_marker_at(s, i) {
        let marker = s.subrange(i, i + 3);
        assert(s.subrange(0, i) + marker + s.subrange(i + 3, s.len() as int) =~= s);
        marker
    } else {
        let below = match s[i] {
            TokenModel::Group { inner, .. } => mode_from(inner, 0),
            _ => ModeModel::Direct,
        };
        if below is Targeted {
            let inner = s[i]->Group_inner;
            let marker = lemma_partition_from(inner, 0);
            let outer = FrameModel {
                before: s.subrange(0, i),
                delimiter: s[i]->Group_delimiter,
                pos: s[i]->Group_pos,
                after: s.subrange(i + 1, s.len() as int),
            };
            let middle = below->Targeted_outer_prefix + marker + below->Targeted_outer_suffix;
            lemma_plug_push(below->Targeted_enclosing, outer, middle);
            assert(outer.before + seq![s[i]] + outer.after =~= s);
            marker
        } else {
            lemma_partition_from(s, i + 1)
        }
    }
}

/// The partition loses nothing: with the marker itself put back between the prefix and
/// the suffix, and all of it put back into the enclosing groups, the body is as it was.
/// The marked part is what the marker's group holds.
pub proof fn lemma_partition_reassembles(s: Seq<TokenModel>) -> (marker: Seq<TokenModel>)
    requires
        mode_of(s) is Targeted,
    ensures
        marker.len() == 3,
        is_marker_at(marker, 0),
        marker[1]->Group_inner == mode_of(s)->Targeted_marked_subsequence,
        plug(
            mode_of(s)->Targeted_enclosing,
            mode_of(s)->Targeted_outer_prefix + marker + mode_of(s)->Targeted_outer_suffix,
        ) == s,
{
    lemma_partition_from(s, 0)
}

/// Over an empty range the direct mode produces nothing, and the targeted mode produces
/// the prefix directly followed by the suffix, inside the enclosing groups.
pub proof fn lemma_assembled_without_indices(
    mode: ModeModel,
    body: Seq<TokenModel>,
    placeholder: Seq<char>,
)
    ensures
        mode is Direct ==> assembled(mode, body, placeholder, Seq::empty()) == Seq::<
            TokenModel,
        >::empty(),
        mode is Targeted ==> assembled(mode, body, placeholder, Seq::empty()) == plug(
            mode->Targeted_enclosing,
            mode->Targeted_outer_prefix + mode->Targeted_outer_suffix,
        ),
{
    assert(expansions(body, placeholder, Seq::empty()) =~= Seq::<Seq<TokenModel>>::empty());
    if mode is Targeted {
        let marked = mode->Targeted_marked_subsequence;
        assert(expansions(marked, placeholder, Seq::empty()) =~= Seq::<Seq<TokenModel>>::empty());
        assert(mode->Targeted_outer_prefix + Seq::<TokenModel>::empty()
            + mode->Targeted_outer_suffix =~= mode->Targeted_outer_prefix
            + mode->Targeted_outer_suffix);
    }
}

} // verus!
