//! The token tree: the shared representation that every other module reads and rebuilds.
//!
//! A token is an identifier, a literal, a punctuation mark or a bracketed group that holds
//! a nested token sequence. Code fragments are treated as opaque trees: only the lexical
//! shape is ever inspected.

use vstd::prelude::*;

verus! {

/// A handle on a place in the source text. It is carried through every rewrite for
/// diagnostics and is never interpreted.
#[derive(Clone, Copy, Debug, PartialEq, Eq, Structural)]
pub struct Position {
    pub index: usize,
}

/// The bracket kind of a group.
#[derive(Clone, Copy, Debug, PartialEq, Eq, Structural)]
pub enum Delimiter {
    Parenthesis,
    Brace,
    Bracket,
    /// A group without visible brackets.
    Invisible,
}

/// Whether a punctuation mark is glued to the mark that follows it (`Joint`) or not.
#[derive(Clone, Copy, Debug, PartialEq, Eq, Structural)]
pub enum Spacing {
    Alone,
    Joint,
}

/// One node of a token tree.
#[derive(Debug, PartialEq, Eq)]
pub enum Token {
    Ident { text: String, pos: Position },
    Literal { text: String, pos: Position },
    Punct { ch: char, spacing: Spacing, pos: Position },
    Group { delimiter: Delimiter, inner: Vec<Token>, pos: Position },
}

/// The mathematical value of a [`Token`]: texts are character sequences and a group holds
/// the sequence of its members' values.
pub ghost enum TokenModel {
    Ident { text: Seq<char>, pos: Position },
    Literal { text: Seq<char>, pos: Position },
    Punct { ch: char, spacing: Spacing, pos: Position },
    Group { delimiter: Delimiter, inner: Seq<TokenModel>, pos: Position },
}

impl TokenModel {
    /// A punctuation mark with the character `c`, whatever its spacing.
    pub open spec fn is_punct(self, c: char) -> bool {
        self matches TokenModel::Punct { ch, .. } && ch == c
    }

    /// An identifier spelled `name`.
    pub open spec fn is_ident_named(self, name: Seq<char>) -> bool {
        self matches TokenModel::Ident { text, .. } && text == name
    }

    /// A group with the bracket kind `d`.
    pub open spec fn is_group_of(self, d: Delimiter) -> bool {
        self matches TokenModel::Group { delimiter, .. } && delimiter == d
    }

    /// The source position that the token carries.
    pub open spec fn position(self) -> Position {
        match self {
            TokenModel::Ident { pos, .. } => pos,
            TokenModel::Literal { pos, .. } => pos,
            TokenModel::Punct { pos, .. } => pos,
            TokenModel::Group { pos, .. } => pos,
        }
    }
}

/// The value of a token; the value of a group holds the values of its members.
pub open spec fn model_of(t: Token) -> TokenModel
    decreases t,
{
    match t {
        Token::Ident { text, pos } => TokenModel::Ident { text: text@, pos },
        Token::Literal { text, pos } => TokenModel::Literal { text: text@, pos },
        Token::Punct { ch, spacing, pos } => TokenModel::Punct { ch, spacing, pos },
        Token::Group { delimiter, inner, pos } => TokenModel::Group {
            delimiter,
            inner: Seq::new(
                inner@.len(),
                |i: int|
                    if 0 <= i < inner@.len() {
                        model_of(inner@[i])
                    } else {
                        arbitrary()
                    },
            ),
            pos,
        },
    }
}

impl View for Token {
    type V = TokenModel;

    open spec fn view(&self) -> TokenModel {
        model_of(*self)
    }
}

/// The values of a token sequence, member by member.
pub open spec fn models(s: Seq<Token>) -> Seq<TokenModel> {
    Seq::new(s.len(), |i: int| s[i]@)
}

/// The value of a group is built from the values of its members.
pub proof fn lemma_group_view(t: Token)
    requires
        t is Group,
    ensures
        t@ == (TokenModel::Group {
            delimiter: t->Group_delimiter,
            inner: models(t->Group_inner@),
            pos: t->Group_pos,
        }),
{
    assert(t@->Group_inner =~= models(t->Group_inner@));
}

/// Appending a token appends its value.
pub proof fn lemma_models_push(s: Seq<Token>, t: Token)
    ensures
        models(s.push(t)) == models(s).push(t@),
{
    assert(models(s.push(t)) =~= models(s).push(t@));
}

/// The values of a concatenation are the concatenation of the values.
pub proof fn lemma_models_add(a: Seq<Token>, b: Seq<Token>)
    ensures
        models(a + b) == models(a) + models(b),
{
    assert(models(a + b) =~= models(a) + models(b));
}

impl Clone for Token {
    /// A deep copy with the same value.
    fn clone(&self) -> (r: Self)
        ensures
            r@ == self@,
        decreases self,
    {
        match self {
            Token::Ident { text, pos } => Token::Ident { text: text.clone(), pos: *pos },
            Token::Literal { text, pos } => Token::Literal { text: text.clone(), pos: *pos },
            Token::Punct { ch, spacing, pos } => Token::Punct {
                ch: *ch,
                spacing: *spacing,
                pos: *pos,
            },
            Token::Group { delimiter, inner, pos } => {
                let mut copy: Vec<Token> = Vec::new();
                let mut i: usize = 0;
                while i < inner.len()
                    invariant
                        i <= inner.len(),
                        copy.len() == i,
                        forall|k: int| 0 <= k < i ==> copy@[k]@ == inner@[k]@,
                        decreases_to!(self => inner),
                    decreases inner.len() - i,
                {
                    let t = inner[i].clone();
                    copy.push(t);
                    i += 1;
                }
                let r = Token::Group { delimiter: *delimiter, inner: copy, pos: *pos };
                assert(r@ == self@) by {
                    assert(r@->Group_inner =~= self@->Group_inner);
                }
                r
            },
        }
    }
}

impl Token {
    /// An identifier token.
    pub fn ident(text: String, pos: Position) -> (t: Token)
        ensures
            t@ == (TokenModel::Ident { text: text@, pos }),
    {
        Token::Ident { text, pos }
    }

    /// A literal token.
    pub fn literal(text: String, pos: Position) -> (t: Token)
        ensures
            t@ == (TokenModel::Literal { text: text@, pos }),
    {
        Token::Literal { text, pos }
    }

    /// A punctuation token.
    pub fn punct(ch: char, spacing: Spacing, pos: Position) -> (t: Token)
        ensures
            t@ == (TokenModel::Punct { ch, spacing, pos }),
    {
        Token::Punct { ch, spacing, pos }
    }

    /// A group around `inner`.
    pub fn group(delimiter: Delimiter, inner: Vec<Token>, pos: Position) -> (t: Token)
        ensures
            t@ == (TokenModel::Group { delimiter, inner: models(inner@), pos }),
    {
        let t = Token::Group { delimiter, inner, pos };
        proof {
            lemma_group_view(t);
        }
        t
    }

    /// The source position that the token carries.
    pub fn position(&self) -> (p: Position)
        ensures
            p == self@.position(),
    {
        match self {
            Token::Ident { pos, .. } => *pos,
            Token::Literal { pos, .. } => *pos,
            Token::Punct { pos, .. } => *pos,
            Token::Group { pos, .. } => *pos,
        }
    }

    /// Whether the token is the punctuation mark `c`.
    pub fn is_punct(&self, c: char) -> (b: bool)
        ensures
            b == self@.is_punct(c),
    {
        match self {
            Token::Punct { ch, .. } => *ch == c,
            _ => false,
        }
    }

    /// Whether the token is the identifier spelled `name`.
    pub fn is_ident_named(&self, name: &String) -> (b: bool)
        ensures
            b == self@.is_ident_named(name@),
    {
        match self {
            Token::Ident { text, .. } => *text == *name,
            _ => false,
        }
    }

    /// Whether the token is a group with the bracket kind `d`.
    pub fn is_group_of(&self, d: Delimiter) -> (b: bool)
        ensures
            b == self@.is_group_of(d),
    {
        match self {
            Token::Group { delimiter, .. } => *delimiter == d,
            _ => false,
        }
    }
}

/// A deep copy of `tokens[lo..hi]`.
pub fn clone_range(tokens: &Vec<Token>, lo: usize, hi: usize) -> (out: Vec<Token>)
    requires
        lo <= hi <= tokens.len(),
    ensures
        models(out@) == models(tokens@).subrange(lo as int, hi as int),
{
    let mut out: Vec<Token> = Vec::new();
    let mut i: usize = lo;
    while i < hi
        invariant
            lo <= i <= hi <= tokens.len(),
            models(out@) == models(tokens@).subrange(lo as int, i as int),
        decreases hi - i,
    {
        let t = tokens[i].clone();
        proof {
            lemma_models_push(out@, t);
            assert(models(tokens@).subrange(lo as int, i as int).push(t@) =~= models(
                tokens@,
            ).subrange(lo as int, i + 1));
        }
        out.push(t);
        i += 1;
    }
    out
}

/// A deep copy of a whole token sequence.
pub fn clone_tokens(tokens: &Vec<Token>) -> (out: Vec<Token>)
    ensures
        models(out@) == models(tokens@),
{
    let out = clone_range(tokens, 0, tokens.len());
    assert(models(tokens@).subrange(0, tokens.len() as int) =~= models(tokens@));
    out
}

/// Moves the tokens of `tail` to the end of `out`.
pub fn append_tokens(out: &mut Vec<Token>, tail: Vec<Token>)
    ensures
        models(final(out)@) == models(old(out)@) + models(tail@),
{
    let mut tail = tail;
    proof {
        lemma_models_add(out@, tail@);
    }
    out.append(&mut tail);
}

} // verus!
