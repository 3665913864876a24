//! The substitution and splice engine: rewrites a token sequence for one index.
//!
//! Three rules, tried in this order at every place of a sequence, from left to right:
//!
//! 1. an identifier, the splice operator `~` and the placeholder become one new identifier,
//!    the text of the first followed by the numeral of the index;
//! 2. a lone placeholder becomes the numeral of the index, as a literal;
//! 3. a group keeps its brackets and its position, and its members are rewritten in turn.
//!
//! Every other token is copied.

use crate::decimal::{decimal, numeral};
use crate::token::{lemma_group_view, lemma_models_push, models, Position, Token, TokenModel};
use vstd::prelude::*;
use vstd::string::StringExecFns;

verus! {

/// The character of the splice operator.
pub open spec fn splice_mark() -> char {
    '~'
}

/// A splice starts at place `i`: an identifier, then `~`, then the placeholder.
pub open spec fn is_splice_at(s: Seq<TokenModel>, i: int, placeholder: Seq<char>) -> bool {
    &&& 0 <= i
    &&& i + 2 < s.len()
    &&& s[i] is Ident
    &&& s[i + 1].is_punct(splice_mark())
    &&& s[i + 2].is_ident_named(placeholder)
}

/// The identifier that a splice at the token `head` makes.
pub open spec fn spliced(head: TokenModel, digits: Seq<char>) -> TokenModel {
    TokenModel::Ident { text: head->Ident_text + digits, pos: head->Ident_pos }
}

/// The tokens from place `i` on, rewritten with `digits` standing for the placeholder.
pub open spec fn rewrite_from(
    s: Seq<TokenModel>,
    i: int,
    placeholder: Seq<char>,
    digits: Seq<char>,
) -> Seq<TokenModel>
    decreases s, s.len() - i,
{
    if i < 0 || i >= s.len() {
        Seq::empty()
    } else if is_splice_at(s, i, placeholder) {
        seq![spliced(s[i], digits)] + rewrite_from(s, i + 3, placeholder, digits)
    } else {
        let head = match s[i] {
            TokenModel::Ident { text, pos } => if text == placeholder {
                TokenModel::Literal { text: digits, pos }
            } else {
                s[i]
            },
            TokenModel::Group { delimiter, inner, pos } => TokenModel::Group {
                delimiter,
                inner: rewrite_from(inner, 0, placeholder, digits),
                pos,
            },
            other => other,
        };
        seq![head] + rewrite_from(s, i + 1, placeholder, digits)
    }
}

/// A whole sequence rewritten with `digits` standing for the placeholder.
pub open spec fn rewrite(s: Seq<TokenModel>, placeholder: Seq<char>, digits: Seq<char>) -> Seq<
    TokenModel,
> {
    rewrite_from(s, 0, placeholder, digits)
}

/// The expansion of `s` for one index.
pub open spec fn substituted(s: Seq<TokenModel>, placeholder: Seq<char>, index: nat) -> Seq<
    TokenModel,
> {
    rewrite(s, placeholder, decimal(index))
}

/// At place `i` stands an identifier and `~`, and no identifier follows: the splice has
/// nothing to join.
pub open spec fn is_dangling_splice_at(s: Seq<TokenModel>, i: int) -> bool {
    &&& 0 <= i
    &&& i + 1 < s.len()
    &&& s[i] is Ident
    &&& s[i + 1].is_punct(splice_mark())
    &&& !(i + 2 < s.len() && s[i + 2] is Ident)
}

/// The position of the `~` of the first dangling splice at or behind place `i`, found by
/// a depth-first walk from left to right.
pub open spec fn first_dangling_splice_from(s: Seq<TokenModel>, i: int) -> Option<Position>
    decreases s, s.len() - i,
{
    if i < 0 || i >= s.len() {
        None
    } else if is_dangling_splice_at(s, i) {
        Some(s[i + 1].position())
    } else {
        let below = match s[i] {
            TokenModel::Group { inner, .. } => first_dangling_splice_from(inner, 0),
            _ => None,
        };
        match below {
            Some(p) => Some(p),
            None => first_dangling_splice_from(s, i + 1),
        }
    }
}

/// The position of the `~` of the first dangling splice of a body.
pub open spec fn first_dangling_splice(s: Seq<TokenModel>) -> Option<Position> {
    first_dangling_splice_from(s, 0)
}

/// Whether a splice starts at place `i`.
fn splice_starts_at(tokens: &Vec<Token>, i: usize, placeholder: &String) -> (b: bool)
    requires
        i < tokens.len(),
    ensures
        b == is_splice_at(models(tokens@), i as int, placeholder@),
{
    if tokens.len() - i < 3 {
        false
    } else {
        match &tokens[i] {
            Token::Ident { .. } => tokens[i + 1].is_punct('~') && tokens[i + 2].is_ident_named(
                placeholder,
            ),
            _ => false,
        }
    }
}

/// Rewrites `tokens` with the text `digits` standing for the placeholder.
pub fn rewrite_tokens(tokens: &Vec<Token>, placeholder: &String, digits: &String) -> (out: Vec<
    Token,
>)
    ensures
        models(out@) == rewrite(models(tokens@), placeholder@, digits@),
    decreases tokens,
{
    let ghost s = models(tokens@);
    let mut out: Vec<Token> = Vec::new();
    let mut i: usize = 0;
    assert(models(out@) =~= Seq::<TokenModel>::empty());
    while i < tokens.len()
        invariant
            i <= tokens.len(),
            s == models(tokens@),
            rewrite(s, placeholder@, digits@) == models(out@) + rewrite_from(
                s,
                i as int,
                placeholder@,
                digits@,
            ),
        decreases tokens.len() - i,
    {
        let ghost before = models(out@);
        let ghost rest = rewrite_from(s, i as int, placeholder@, digits@);
        if splice_starts_at(tokens, i, placeholder) {
            match &tokens[i] {
                Token::Ident { text, pos } => {
                    let mut name = text.clone();
                    name.append(digits.as_str());
                    let made = Token::Ident { text: name, pos: *pos };
                    proof {
                        lemma_models_push(out@, made);
                        assert(made@ == spliced(s[i as int], digits@));
                        let tail = rewrite_from(s, i + 3, placeholder@, digits@);
                        assert(rest == seq![made@] + tail);
                        assert(before + (seq![made@] + tail) =~= before.push(made@) + tail);
                    }
                    out.push(made);
                },
                _ => {},
            }
            i += 3;
        } else {
            let made = match &tokens[i] {
                Token::Ident { text, pos } => {
                    if *text == *placeholder {
                        Token::Literal { text: digits.clone(), pos: *pos }
                    } else {
                        tokens[i].clone()
                    }
                },
                Token::Group { delimiter, inner, pos } => {
                    proof {
                        lemma_group_view(tokens@[i as int]);
                    }
                    let members = rewrite_tokens(inner, placeholder, digits);
                    Token::group(*delimiter, members, *pos)
                },
                _ => tokens[i].clone(),
            };
            proof {
                lemma_models_push(out@, made);
                let tail = rewrite_from(s, i + 1, placeholder@, digits@);
                assert(rest == seq![made@] + tail);
                assert(before + (seq![made@] + tail) =~= before.push(made@) + tail);
            }
            out.push(made);
            i += 1;
        }
    }
    assert(models(out@) + Seq::<TokenModel>::empty() =~= models(out@));
    out
}

/// Whether a dangling splice starts at place `i`.
fn dangling_splice_starts_at(tokens: &Vec<Token>, i: usize) -> (b: bool)
    requires
        i < tokens.len(),
    ensures
        b == is_dangling_splice_at(models(tokens@), i as int),
{
    if tokens.len() - i < 2 {
        false
    } else {
        let followed = tokens.len() - i >= 3 && match &tokens[i + 2] {
            Token::Ident { .. } => true,
            _ => false,
        };
        match &tokens[i] {
            Token::Ident { .. } => tokens[i + 1].is_punct('~') && !followed,
            _ => false,
        }
    }
}

/// Looks for a splice that has nothing to join: an identifier and `~` that no identifier
/// follows, at any depth. Answers with the position of the first such `~`.
pub fn find_dangling_splice(tokens: &Vec<Token>) -> (found: Option<Position>)
    ensures
        found == first_dangling_splice(models(tokens@)),
    decreases tokens,
{
    let ghost s = models(tokens@);
    let mut i: usize = 0;
    while i < tokens.len()
        invariant
            i <= tokens.len(),
            s == models(tokens@),
            first_dangling_splice(s) == first_dangling_splice_from(s, i as int),
        decreases tokens.len() - i,
    {
        if dangling_splice_starts_at(tokens, i) {
            return Some(tokens[i + 1].position());
        }
        match &tokens[i] {
            Token::Group { inner, .. } => {
                proof {
                    lemma_group_view(tokens@[i as int]);
                }
                let below = find_dangling_splice(inner);
                if below.is_some() {
                    return below;
                }
            },
            _ => {},
        }
        i += 1;
    }
    None
}

/// The expansion of `tokens` for one index: every lone placeholder becomes the numeral of
/// `index`, every `prefix~placeholder` becomes the identifier `prefix<index>`, groups are
/// rewritten member by member, and everything else is copied. The input is left as it is.
pub fn substitute(tokens: &Vec<Token>, placeholder: &String, index: usize) -> (out: Vec<Token>)
    ensures
        models(out@) == substituted(models(tokens@), placeholder@, index as nat),
{
    let digits = numeral(index);
    rewrite_tokens(tokens, placeholder, &digits)
}

} // verus!
