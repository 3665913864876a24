//! The header parser: reads `<placeholder> in <start>..<end> { <body> }`.
//!
//! The range operator is `..` or `..=`. Each bound is one integer literal; it is kept as
//! written, with the index it denotes beside it. The body is kept as an opaque token
//! sequence: nothing is computed here.

use crate::diagnostic::{Diagnostic, ErrorKind, Place};
use crate::literal::{
    admits,
    bracket_free,
    is_bracket_free,
    is_decimal,
    number,
    read_integer,
    reading_of_number,
    Reading,
};
use crate::token::{
    clone_tokens,
    lemma_group_view,
    models,
    Delimiter,
    Position,
    Spacing,
    Token,
    TokenModel,
};
use vstd::prelude::*;
use vstd::string::StringExecFns;

verus! {

/// A bound of the range: the integer literal as it is written in the header, and the
/// index that it denotes. `value` is `None` where the literal denotes no index.
#[derive(Debug, PartialEq, Eq)]
pub struct Bound {
    pub text: String,
    pub pos: Position,
    pub value: Option<usize>,
}

/// The value of a [`Bound`].
pub ghost struct BoundModel {
    pub text: Seq<char>,
    pub pos: Position,
    pub value: Option<usize>,
}

impl View for Bound {
    type V = BoundModel;

    open spec fn view(&self) -> BoundModel {
        BoundModel { text: self.text@, pos: self.pos, value: self.value }
    }
}

/// One invocation, taken apart: the placeholder, the two bounds, whether the end is
/// included, and the body.
#[derive(Debug, PartialEq, Eq)]
pub struct ExpansionSpec {
    pub placeholder: String,
    pub placeholder_pos: Position,
    pub start: Bound,
    pub end: Bound,
    pub inclusive: bool,
    pub body: Vec<Token>,
}

/// The value of an [`ExpansionSpec`].
pub ghost struct SpecModel {
    pub placeholder: Seq<char>,
    pub placeholder_pos: Position,
    pub start: BoundModel,
    pub end: BoundModel,
    pub inclusive: bool,
    pub body: Seq<TokenModel>,
}

impl View for ExpansionSpec {
    type V = SpecModel;

    open spec fn view(&self) -> SpecModel {
        SpecModel {
            placeholder: self.placeholder@,
            placeholder_pos: self.placeholder_pos,
            start: self.start@,
            end: self.end@,
            inclusive: self.inclusive,
            body: models(self.body@),
        }
    }
}

/// The keyword between the placeholder and the range.
pub open spec fn keyword() -> Seq<char> {
    "in"@
}

/// A dot that is glued to the mark behind it.
pub open spec fn is_joint_dot(t: TokenModel) -> bool {
    t matches TokenModel::Punct { ch, spacing, .. } && ch == '.' && spacing == Spacing::Joint
}

/// The range operator that starts at place 3 is `..=`: two glued dots and `=`.
pub open spec fn header_inclusive(s: Seq<TokenModel>) -> bool {
    &&& s.len() > 5
    &&& is_joint_dot(s[3])
    &&& is_joint_dot(s[4])
    &&& s[5].is_punct('=')
}

/// The place of the end bound: behind `..=` or behind `..`.
pub open spec fn end_place(s: Seq<TokenModel>) -> int {
    if header_inclusive(s) {
        6
    } else {
        5
    }
}

/// A literal without an opening bracket in its text stands at place `k`: what may be an
/// integer literal.
pub open spec fn readable_at(s: Seq<TokenModel>, k: int) -> bool {
    &&& 0 <= k < s.len()
    &&& s[k] matches TokenModel::Literal { text, .. }
    &&& bracket_free(text)
}

/// At place `k` stands an integer literal: a literal that may be one and was read as
/// one.
pub open spec fn integer_at(s: Seq<TokenModel>, k: int, reading: Reading) -> bool {
    readable_at(s, k) && !(reading is NotInteger)
}

/// The place of the first token that breaks the grammar
/// `ident "in" integer (".." | "..=") integer "{" ... "}"`, or the length of the input
/// where it ends too early; `None` where the input follows the grammar. `start` and `end`
/// are what the literals at the places of the two bounds were read as.
pub open spec fn header_fault(s: Seq<TokenModel>, start: Reading, end: Reading) -> Option<int> {
    let k = end_place(s);
    if !(0 < s.len() && s[0] is Ident) {
        Some(0)
    } else if !(1 < s.len() && s[1].is_ident_named(keyword())) {
        Some(1)
    } else if !integer_at(s, 2, start) {
        Some(2)
    } else if !(3 < s.len() && is_joint_dot(s[3])) {
        Some(3)
    } else if !(4 < s.len() && s[4].is_punct('.')) {
        Some(4)
    } else if !integer_at(s, k, end) {
        Some(k)
    } else if !(k + 1 < s.len() && s[k + 1].is_group_of(Delimiter::Brace)) {
        Some(k + 1)
    } else if k + 2 < s.len() {
        Some(k + 2)
    } else {
        None
    }
}

/// Where a fault at place `j` of `s` is reported.
pub open spec fn place_of(s: Seq<TokenModel>, j: int) -> Place {
    if 0 <= j < s.len() {
        Place::At(s[j].position())
    } else {
        Place::EndOfInput
    }
}

/// The parts of an input that follows the grammar.
pub open spec fn header_of(s: Seq<TokenModel>, start: Reading, end: Reading) -> SpecModel {
    let k = end_place(s);
    SpecModel {
        placeholder: s[0]->Ident_text,
        placeholder_pos: s[0]->Ident_pos,
        start: BoundModel {
            text: s[2]->Literal_text,
            pos: s[2]->Literal_pos,
            value: start.index(),
        },
        end: BoundModel { text: s[k]->Literal_text, pos: s[k]->Literal_pos, value: end.index() },
        inclusive: header_inclusive(s),
        body: s[k + 1]->Group_inner,
    }
}

/// What the parser answers for an input whose bounds were read as `start` and `end`.
pub open spec fn parsed(s: Seq<TokenModel>, start: Reading, end: Reading) -> Result<
    SpecModel,
    Diagnostic,
> {
    match header_fault(s, start, end) {
        Some(j) => Err(Diagnostic { kind: ErrorKind::Syntax, place: place_of(s, j) }),
        None => Ok(header_of(s, start, end)),
    }
}

/// The answer `r` of the parser is what `expected` says.
pub open spec fn parse_agrees(
    r: Result<ExpansionSpec, Diagnostic>,
    expected: Result<SpecModel, Diagnostic>,
) -> bool {
    match r {
        Ok(spec) => expected == Ok::<SpecModel, Diagnostic>(spec@),
        Err(d) => expected == Err::<SpecModel, Diagnostic>(d),
    }
}

/// The shape `ident "in" integer ".." integer "{" ... "}"` and nothing more.
pub open spec fn exclusive_shape(s: Seq<TokenModel>, start: Reading, end: Reading) -> bool {
    &&& s.len() == 7
    &&& s[0] is Ident
    &&& s[1].is_ident_named(keyword())
    &&& integer_at(s, 2, start)
    &&& is_joint_dot(s[3])
    &&& s[4].is_punct('.')
    &&& integer_at(s, 5, end)
    &&& s[6].is_group_of(Delimiter::Brace)
}

/// The shape `ident "in" integer "..=" integer "{" ... "}"` and nothing more.
pub open spec fn inclusive_shape(s: Seq<TokenModel>, start: Reading, end: Reading) -> bool {
    &&& s.len() == 8
    &&& s[0] is Ident
    &&& s[1].is_ident_named(keyword())
    &&& integer_at(s, 2, start)
    &&& is_joint_dot(s[3])
    &&& is_joint_dot(s[4])
    &&& s[5].is_punct('=')
    &&& integer_at(s, 6, end)
    &&& s[7].is_group_of(Delimiter::Brace)
}

/// The parser succeeds exactly on the two shapes of an invocation, and records `..=` as
/// inclusive and `..` as exclusive.
pub proof fn lemma_header_shapes(s: Seq<TokenModel>, start: Reading, end: Reading)
    ensures
        parsed(s, start, end) is Ok <==> exclusive_shape(s, start, end) || inclusive_shape(
            s,
            start,
            end,
        ),
        exclusive_shape(s, start, end) ==> !header_of(s, start, end).inclusive && header_of(
            s,
            start,
            end,
        ).body == s[6]->Group_inner,
        inclusive_shape(s, start, end) ==> header_of(s, start, end).inclusive && header_of(
            s,
            start,
            end,
        ).body == s[7]->Group_inner,
        !(exclusive_shape(s, start, end) && inclusive_shape(s, start, end)),
{
}

/// A bound that is a literal of another kind - a string, a float, a character - is a
/// syntax error at that literal, as is any token that is no literal.
pub proof fn lemma_bound_must_be_integer(s: Seq<TokenModel>, end: Reading)
    requires
        s.len() > 2,
        s[0] is Ident,
        s[1].is_ident_named(keyword()),
    ensures
        parsed(s, Reading::NotInteger, end) == Err::<SpecModel, Diagnostic>(
            Diagnostic { kind: ErrorKind::Syntax, place: Place::At(s[2].position()) },
        ),
{
}

/// A bound written in decimal digits alone leaves the reading no choice: it is an integer
/// literal, read as the number it writes.
pub proof fn lemma_decimal_bound_read(s: Seq<TokenModel>, k: int, reading: Reading)
    requires
        0 <= k < s.len(),
        s[k] is Literal,
        is_decimal(s[k]->Literal_text),
        admits_at(s, k, reading),
    ensures
        reading == reading_of_number(number(s[k]->Literal_text)),
        integer_at(s, k, reading),
{
}

/// The syntax error for place `j` of `input`.
fn fault_at(input: &Vec<Token>, j: usize) -> (d: Diagnostic)
    ensures
        d == (Diagnostic { kind: ErrorKind::Syntax, place: place_of(models(input@), j as int) }),
{
    if j < input.len() {
        Diagnostic { kind: ErrorKind::Syntax, place: Place::At(input[j].position()) }
    } else {
        Diagnostic { kind: ErrorKind::Syntax, place: Place::EndOfInput }
    }
}

/// Whether the token `at` of `input` is a dot glued to what follows.
fn joint_dot_at(input: &Vec<Token>, at: usize) -> (b: bool)
    ensures
        b == (at < input.len() && is_joint_dot(models(input@)[at as int])),
{
    if at < input.len() {
        match &input[at] {
            Token::Punct { ch, spacing, .. } => *ch == '.' && match spacing {
                Spacing::Joint => true,
                Spacing::Alone => false,
            },
            _ => false,
        }
    } else {
        false
    }
}

/// Whether the range operator of `input` is `..=`.
fn inclusive_operator(input: &Vec<Token>) -> (b: bool)
    ensures
        b == header_inclusive(models(input@)),
{
    input.len() > 5 && joint_dot_at(input, 3) && joint_dot_at(input, 4) && input[5].is_punct('=')
}

/// The integer literal at place `at` of `input`, as a bound with the reading `reading`.
fn bound_at(input: &Vec<Token>, at: usize, reading: Reading) -> (r: Option<Bound>)
    ensures
        match r {
            Some(b) => {
                &&& integer_at(models(input@), at as int, reading)
                &&& b@ == (BoundModel {
                    text: models(input@)[at as int]->Literal_text,
                    pos: models(input@)[at as int]->Literal_pos,
                    value: reading.index(),
                })
            },
            None => !integer_at(models(input@), at as int, reading),
        },
{
    if at < input.len() {
        match &input[at] {
            Token::Literal { text, pos } => {
                let value = match reading {
                    Reading::NotInteger => {
                        return None;
                    },
                    Reading::OutOfRange => None,
                    Reading::Value(v) => Some(v),
                };
                if is_bracket_free(text.as_str()) {
                    Some(Bound { text: text.clone(), pos: *pos, value })
                } else {
                    None
                }
            },
            _ => None,
        }
    } else {
        None
    }
}

/// What is known of the reading for place `k`: where a literal stands there, what its
/// text admits; where none stands there, nothing is read and the reading is `NotInteger`.
pub open spec fn admits_at(s: Seq<TokenModel>, k: int, reading: Reading) -> bool {
    if 0 <= k < s.len() && s[k] is Literal {
        admits(s[k]->Literal_text, reading)
    } else {
        reading is NotInteger
    }
}

/// The text of the literal at place `at` of `input`; `None` where no literal stands
/// there.
pub fn literal_text_at(input: &Vec<Token>, at: usize) -> (r: Option<&String>)
    ensures
        match r {
            Some(text) => at < input.len() && models(input@)[at as int] is Literal && models(
                input@,
            )[at as int]->Literal_text == text@,
            None => !(at < input.len() && models(input@)[at as int] is Literal),
        },
{
    if at < input.len() {
        match &input[at] {
            Token::Literal { text, .. } => Some(text),
            _ => None,
        }
    } else {
        None
    }
}

/// Reads the literal at place `at` of `input`.
fn reading_at(input: &Vec<Token>, at: usize) -> (r: Reading)
    ensures
        admits_at(models(input@), at as int, r),
{
    match literal_text_at(input, at) {
        Some(text) => read_integer(text.as_str()),
        None => Reading::NotInteger,
    }
}

/// Reads the literals at the places of the two bounds as integers: the start at place
/// 2, the end behind the range operator, each from the text that [`literal_text_at`]
/// gives for its place.
pub fn read_bounds(input: &Vec<Token>) -> (r: (Reading, Reading))
    ensures
        admits_at(models(input@), 2, r.0),
        admits_at(models(input@), end_place(models(input@)), r.1),
{
    let start = reading_at(input, 2);
    let k: usize = if inclusive_operator(input) {
        6
    } else {
        5
    };
    let end = reading_at(input, k);
    (start, end)
}

impl ExpansionSpec {
    /// Parses the payload of an invocation whose bounds were read as `start` and `end`.
    ///
    /// Succeeds exactly on the inputs of the shape
    /// `ident "in" integer (".." | "..=") integer "{" ... "}"` with nothing behind the
    /// closing brace, and then holds the parts as they were written. Every other input is
    /// a syntax error at the first token that does not fit, or at the end of the input
    /// where a token is missing. A literal with an opening bracket in its text, or one
    /// that was read as `NotInteger`, does not fit as a bound.
    pub fn parse_with(input: &Vec<Token>, start: Reading, end: Reading) -> (r: Result<
        ExpansionSpec,
        Diagnostic,
    >)
        ensures
            parse_agrees(r, parsed(models(input@), start, end)),
    {
        let ghost s = models(input@);
        let n = input.len();
        let (placeholder, placeholder_pos) = if n > 0 {
            match &input[0] {
                Token::Ident { text, pos } => (text.clone(), *pos),
                _ => {
                    return Err(fault_at(input, 0));
                },
            }
        } else {
            return Err(fault_at(input, 0));
        };
        let word = String::from_str("in");
        if !(n > 1 && input[1].is_ident_named(&word)) {
            return Err(fault_at(input, 1));
        }
        let start = match bound_at(input, 2, start) {
            Some(b) => b,
            None => {
                return Err(fault_at(input, 2));
            },
        };
        if !joint_dot_at(input, 3) {
            return Err(fault_at(input, 3));
        }
        if !(n > 4 && input[4].is_punct('.')) {
            return Err(fault_at(input, 4));
        }
        let inclusive = inclusive_operator(input);
        let k: usize = if inclusive {
            6
        } else {
            5
        };
        let end = match bound_at(input, k, end) {
            Some(b) => b,
            None => {
                return Err(fault_at(input, k));
            },
        };
        if !(n > k + 1 && input[k + 1].is_group_of(Delimiter::Brace)) {
            return Err(fault_at(input, k + 1));
        }
        if n > k + 2 {
            return Err(fault_at(input, k + 2));
        }
        match &input[k + 1] {
            Token::Group { inner, .. } => {
                proof {
                    lemma_group_view(input@[k + 1]);
                }
                let body = clone_tokens(inner);
                Ok(ExpansionSpec { placeholder, placeholder_pos, start, end, inclusive, body })
            },
            _ => Err(fault_at(input, k + 1)),
        }
    }

    /// Parses the payload of an invocation.
    ///
    /// The literals at the places of the two bounds are read as integers, and the answer
    /// is that of [`Self::parse_with`] for what was read. What was read is what the texts
    /// at those places admit: bounds written in decimal digits alone are read as the
    /// numbers they write.
    pub fn parse(input: &Vec<Token>) -> (r: Result<ExpansionSpec, Diagnostic>)
        ensures
            exists|start: Reading, end: Reading|
                {
                    &&& admits_at(models(input@), 2, start)
                    &&& admits_at(models(input@), end_place(models(input@)), end)
                    &&& parse_agrees(r, #[trigger] parsed(models(input@), start, end))
                },
    {
        let (start, end) = read_bounds(input);
        ExpansionSpec::parse_with(input, start, end)
    }
}

} // verus!
