use proc_macro2::{TokenStream, TokenTree};
use macro_kit::expand::seq_with;
use macro_kit::header::{literal_text_at, read_bounds};
use macro_kit::literal::{digits_index, is_bracket_free, read_integer, Reading};
use macro_kit::{
    detect_mode, evaluate_range, substitute, Bound, Delimiter, Diagnostic, ErrorKind,
    ExpansionMode, ExpansionSpec, IndexRange, Place, Position, Spacing, Token,
};
use std::str::FromStr;

fn lift(stream: TokenStream, next: &mut usize) -> Vec<Token> {
    let mut out = Vec::new();
    for tree in stream {
        let pos = Position { index: *next };
        *next += 1;
        out.push(match tree {
            TokenTree::Ident(i) => Token::Ident { text: i.to_string(), pos },
            TokenTree::Literal(l) => Token::Literal { text: l.to_string(), pos },
            TokenTree::Punct(p) => Token::Punct {
                ch: p.as_char(),
                spacing: match p.spacing() {
                    proc_macro2::Spacing::Alone => Spacing::Alone,
                    proc_macro2::Spacing::Joint => Spacing::Joint,
                },
                pos,
            },
            TokenTree::Group(g) => Token::Group {
                delimiter: match g.delimiter() {
                    proc_macro2::Delimiter::Parenthesis => Delimiter::Parenthesis,
                    proc_macro2::Delimiter::Brace => Delimiter::Brace,
                    proc_macro2::Delimiter::Bracket => Delimiter::Bracket,
                    proc_macro2::Delimiter::None => Delimiter::Invisible,
                },
                inner: lift(g.stream(), next),
                pos,
            },
        });
    }
    out
}

fn tokens(src: &str) -> Vec<Token> {
    let mut next = 0;
    lift(TokenStream::from_str(src).unwrap(), &mut next)
}

fn lower(tokens: &[Token]) -> TokenStream {
    let mut out = Vec::new();
    for t in tokens {
        out.push(match t {
            Token::Ident { text, .. } => {
                TokenTree::Ident(proc_macro2::Ident::new(text, proc_macro2::Span::call_site()))
            }
            Token::Literal { text, .. } => {
                TokenTree::Literal(proc_macro2::Literal::from_str(text).unwrap())
            }
            Token::Punct { ch, spacing, .. } => TokenTree::Punct(proc_macro2::Punct::new(
                *ch,
                match spacing {
                    Spacing::Alone => proc_macro2::Spacing::Alone,
                    Spacing::Joint => proc_macro2::Spacing::Joint,
                },
            )),
            Token::Group { delimiter, inner, .. } => TokenTree::Group(proc_macro2::Group::new(
                match delimiter {
                    Delimiter::Parenthesis => proc_macro2::Delimiter::Parenthesis,
                    Delimiter::Brace => proc_macro2::Delimiter::Brace,
                    Delimiter::Bracket => proc_macro2::Delimiter::Bracket,
                    Delimiter::Invisible => proc_macro2::Delimiter::None,
                },
                lower(inner),
            )),
        });
    }
    out.into_iter().collect()
}

fn text(tokens: &[Token]) -> String {
    lower(tokens).to_string()
}

fn canon(src: &str) -> String {
    TokenStream::from_str(src).unwrap().to_string()
}

fn name(s: &str) -> String {
    s.to_string()
}

fn at(index: usize) -> Place {
    Place::At(Position { index })
}

fn error_of(src: &str) -> Diagnostic {
    match macro_kit::expand::seq(&tokens(src)) {
        Ok(out) => panic!("expanded to `{}`", text(&out)),
        Err(d) => d,
    }
}

fn output_of(src: &str) -> Vec<Token> {
    match macro_kit::expand::seq(&tokens(src)) {
        Ok(out) => out,
        Err(d) => panic!("failed: {}", d.message()),
    }
}

fn flat_kinds(tokens: &[Token]) -> String {
    let mut s = String::new();
    for t in tokens {
        s.push(match t {
            Token::Ident { .. } => 'i',
            Token::Literal { .. } => 'l',
            Token::Punct { .. } => 'p',
            Token::Group { .. } => 'g',
        });
    }
    s
}

#[test]
fn three_functions_in_ascending_order() {
    let out = output_of("N in 0..3 { fn f~N() -> usize { N } }");
    assert_eq!(
        text(&out),
        canon("fn f0() -> usize { 0 } fn f1() -> usize { 1 } fn f2() -> usize { 2 }")
    );
    assert_eq!(flat_kinds(&out), "iigppigiigppigiigppig");
}

#[test]
fn body_without_placeholder_is_repeated_unchanged() {
    let out = output_of("N in 0..=2 { X, }");
    assert_eq!(text(&out), canon("X, X, X,"));
    assert_eq!(out.len(), 6);
    let body = tokens("X ,");
    for k in 0..3 {
        match (&out[2 * k], &body[0]) {
            (Token::Ident { text: a, .. }, Token::Ident { text: b, .. }) => assert_eq!(a, b),
            _ => panic!("expected identifiers"),
        }
        assert!(matches!(&out[2 * k + 1], Token::Punct { ch: ',', spacing: Spacing::Alone, .. }));
    }
}

#[test]
fn empty_range_with_marker_gives_no_tokens() {
    let out = output_of("N in 0..0 { #( N )* }");
    assert_eq!(out, Vec::<Token>::new());
}

#[test]
fn start_beyond_end_is_a_range_error() {
    let d = error_of("N in 5..2 { }");
    assert_eq!(d.kind, ErrorKind::Range);
    assert_eq!(d.place, at(5));
}

#[test]
fn start_beyond_end_is_a_range_error_when_inclusive() {
    let d = error_of("N in 5..=2 { x }");
    assert_eq!(d.kind, ErrorKind::Range);
    assert_eq!(d.place, at(6));
}

#[test]
fn splice_makes_one_identifier() {
    let out = substitute(&tokens("f~N"), &name("N"), 3);
    assert_eq!(out.len(), 1);
    assert_eq!(out[0], Token::Ident { text: name("f3"), pos: Position { index: 0 } });
}

#[test]
fn lone_placeholder_becomes_numeral() {
    let out = substitute(&tokens("N"), &name("N"), 3);
    assert_eq!(out, vec![Token::Literal { text: name("3"), pos: Position { index: 0 } }]);
}

#[test]
fn numeral_has_all_digits() {
    let out = substitute(&tokens("N x~N"), &name("N"), 1203);
    assert_eq!(
        out,
        vec![
            Token::Literal { text: name("1203"), pos: Position { index: 0 } },
            Token::Ident { text: name("x1203"), pos: Position { index: 1 } },
        ]
    );
    let zero = substitute(&tokens("N"), &name("N"), 0);
    assert_eq!(zero, vec![Token::Literal { text: name("0"), pos: Position { index: 0 } }]);
}

#[test]
fn splice_is_tried_before_the_lone_placeholder() {
    let out = substitute(&tokens("N~N"), &name("N"), 7);
    assert_eq!(out, vec![Token::Ident { text: name("N7"), pos: Position { index: 0 } }]);
}

#[test]
fn splice_consumes_its_placeholder() {
    let out = substitute(&tokens("a~N~N"), &name("N"), 2);
    assert_eq!(text(&out), canon("a2 ~ 2"));
    assert_eq!(out.len(), 3);
}

#[test]
fn splice_with_another_identifier_is_copied() {
    let src = tokens("f~g N");
    let out = substitute(&src, &name("N"), 4);
    assert_eq!(out.len(), 4);
    assert_eq!(out[0], src[0]);
    assert_eq!(out[1], src[1]);
    assert_eq!(out[2], src[2]);
    assert_eq!(out[3], Token::Literal { text: name("4"), pos: Position { index: 3 } });
}

#[test]
fn groups_keep_brackets_and_positions() {
    let src = tokens("[ N ( N { N } ) ]");
    let out = substitute(&src, &name("N"), 9);
    assert_eq!(text(&out), canon("[ 9 ( 9 { 9 } ) ]"));
    match (&src[0], &out[0]) {
        (
            Token::Group { delimiter: d0, pos: p0, .. },
            Token::Group { delimiter: d1, pos: p1, inner },
        ) => {
            assert_eq!(d0, d1);
            assert_eq!(*d1, Delimiter::Bracket);
            assert_eq!(p0, p1);
            match &inner[1] {
                Token::Group { delimiter, pos, .. } => {
                    assert_eq!(*delimiter, Delimiter::Parenthesis);
                    assert_eq!(*pos, Position { index: 2 });
                }
                _ => panic!("expected a group"),
            }
        }
        _ => panic!("expected groups"),
    }
}

#[test]
fn substitute_leaves_its_input_alone() {
    let src = tokens("a N b~N ( N )");
    let copy = src.clone();
    let _ = substitute(&src, &name("N"), 1);
    assert_eq!(src, copy);
}

#[test]
fn other_tokens_are_the_same_at_every_index() {
    let src = tokens("let x = \"s\" + 1.5 - y ; # [ a ]");
    for index in [0usize, 1, 17, 4096] {
        assert_eq!(substitute(&src, &name("N"), index), src);
    }
    let mixed = tokens("a , N ; b~N . c");
    let first = substitute(&mixed, &name("N"), 1);
    let second = substitute(&mixed, &name("N"), 22);
    for k in [0usize, 1, 3, 5, 6] {
        assert_eq!(first[k], second[k]);
    }
    assert_eq!(first[0], mixed[0]);
    assert_eq!(first[1], mixed[1]);
    assert_eq!(first[3], mixed[3]);
    assert_eq!(first[5], mixed[7]);
    assert_eq!(first[6], mixed[8]);
    assert_ne!(first[2], second[2]);
    assert_ne!(first[4], second[4]);
}

#[test]
fn number_of_expansions_follows_the_bounds() {
    assert_eq!(output_of("N in 2..7 { N }").len(), 5);
    assert_eq!(output_of("N in 2..=7 { N }").len(), 6);
    assert_eq!(output_of("N in 4..4 { N }").len(), 0);
    assert_eq!(output_of("N in 4..=4 { N }").len(), 1);
    assert_eq!(text(&output_of("N in 2..=4 { N }")), canon("2 3 4"));
}

#[test]
fn index_range_members() {
    let r = IndexRange { start: 3, end: 6, inclusive: false };
    assert_eq!(r.get(0), Some(3));
    assert_eq!(r.get(2), Some(5));
    assert_eq!(r.get(3), None);
    assert!(!r.is_empty());
    let r = IndexRange { start: 3, end: 6, inclusive: true };
    assert_eq!(r.get(3), Some(6));
    assert_eq!(r.get(4), None);
    let r = IndexRange { start: 3, end: 3, inclusive: false };
    assert!(r.is_empty());
    assert_eq!(r.get(0), None);
    let r = IndexRange { start: 3, end: 3, inclusive: true };
    assert!(!r.is_empty());
    assert_eq!(r.get(0), Some(3));
    let r = IndexRange { start: 0, end: usize::MAX, inclusive: true };
    assert_eq!(r.get(usize::MAX), Some(usize::MAX));
    let r = IndexRange { start: 9, end: 3, inclusive: true };
    assert!(r.is_empty());
    assert_eq!(r.get(0), None);
}

#[test]
fn evaluate_range_checks_the_bounds() {
    let a = Position { index: 10 };
    let b = Position { index: 20 };
    assert_eq!(
        evaluate_range(Some(1), Some(4), true, a, b),
        Ok(IndexRange { start: 1, end: 4, inclusive: true })
    );
    assert_eq!(
        evaluate_range(Some(4), Some(4), false, a, b),
        Ok(IndexRange { start: 4, end: 4, inclusive: false })
    );
    assert_eq!(
        evaluate_range(None, Some(4), false, a, b),
        Err(Diagnostic { kind: ErrorKind::Range, place: Place::At(a) })
    );
    assert_eq!(
        evaluate_range(None, None, false, a, b),
        Err(Diagnostic { kind: ErrorKind::Range, place: Place::At(a) })
    );
    assert_eq!(
        evaluate_range(Some(4), None, false, a, b),
        Err(Diagnostic { kind: ErrorKind::Range, place: Place::At(b) })
    );
    assert_eq!(
        evaluate_range(Some(5), Some(4), true, a, b),
        Err(Diagnostic { kind: ErrorKind::Range, place: Place::At(b) })
    );
}

#[test]
fn literals_are_read_as_integers() {
    assert_eq!(read_integer("0"), Reading::Value(0));
    assert_eq!(read_integer("42"), Reading::Value(42));
    assert_eq!(read_integer("0x10"), Reading::Value(16));
    assert_eq!(read_integer("0b101"), Reading::Value(5));
    assert_eq!(read_integer("1_000"), Reading::Value(1000));
    assert_eq!(read_integer("7u8"), Reading::Value(7));
    assert_eq!(read_integer("1.5"), Reading::NotInteger);
    assert_eq!(read_integer("\"3\""), Reading::NotInteger);
    assert_eq!(read_integer("'c'"), Reading::NotInteger);
    assert_eq!(read_integer("x"), Reading::NotInteger);
    assert_eq!(read_integer(""), Reading::NotInteger);
    assert_eq!(read_integer("99999999999999999999999"), Reading::OutOfRange);
    assert_eq!(read_integer("18446744073709551616"), Reading::OutOfRange);
    assert_eq!(read_integer("-3"), Reading::OutOfRange);
}

#[test]
fn decimal_digits_are_read_as_their_number() {
    assert_eq!(read_integer("007"), Reading::Value(7));
    assert_eq!(read_integer("000"), Reading::Value(0));
    assert_eq!(read_integer("1203"), Reading::Value(1203));
    assert_eq!(read_integer(&usize::MAX.to_string()), Reading::Value(usize::MAX));
    assert_eq!(read_integer("340282366920938463463374607431768211456"), Reading::OutOfRange);
}

#[test]
fn digits_write_an_index() {
    assert_eq!(digits_index("0"), Some(0));
    assert_eq!(digits_index("16"), Some(16));
    assert_eq!(digits_index("0016"), Some(16));
    assert_eq!(digits_index(&usize::MAX.to_string()), Some(usize::MAX));
    assert_eq!(digits_index("340282366920938463463374607431768211456"), None);
    assert_eq!(digits_index(&(usize::MAX.to_string() + "0")), None);
    assert_eq!(digits_index(""), None);
    assert_eq!(digits_index("-3"), None);
    assert_eq!(digits_index("12a"), None);
    assert_eq!(digits_index("1_000"), None);
    assert_eq!(digits_index("99999999999999999999999x"), None);
}

#[test]
fn literal_text_is_taken_from_its_place() {
    let input = tokens("N in 0x3..=7 { }");
    assert_eq!(literal_text_at(&input, 2), Some(&name("0x3")));
    assert_eq!(literal_text_at(&input, 6), Some(&name("7")));
    assert_eq!(literal_text_at(&input, 0), None);
    assert_eq!(literal_text_at(&input, 3), None);
    assert_eq!(literal_text_at(&input, 7), None);
    assert_eq!(literal_text_at(&input, 8), None);
}

#[test]
fn text_with_a_bracket_is_no_integer() {
    assert!(is_bracket_free(""));
    assert!(is_bracket_free("0x1F_u8"));
    assert!(is_bracket_free("a ) ] } b"));
    assert!(!is_bracket_free("("));
    assert!(!is_bracket_free("1[0]"));
    assert!(!is_bracket_free("é{"));
    assert_eq!(read_integer("(1)"), Reading::NotInteger);
    assert_eq!(read_integer("\"(\""), Reading::NotInteger);
    let deep = "(".repeat(200000) + "1";
    assert_eq!(read_integer(&deep), Reading::NotInteger);
}

#[test]
fn bound_that_is_no_integer_is_a_syntax_error() {
    let d = error_of("N in 1.5..3 X");
    assert_eq!(d.kind, ErrorKind::Syntax);
    assert_eq!(d.place, at(2));
    let d = error_of("N in 0..'c' { N }");
    assert_eq!(d.kind, ErrorKind::Syntax);
    assert_eq!(d.place, at(5));
    let d = error_of("N in \"0\"..=3 { N }");
    assert_eq!(d.kind, ErrorKind::Syntax);
    assert_eq!(d.place, at(2));
    let d = error_of("N in 0..=2.0 { N }");
    assert_eq!(d.kind, ErrorKind::Syntax);
    assert_eq!(d.place, at(6));
}

#[test]
fn bound_that_is_no_index_is_a_range_error() {
    let d = error_of("N in 0..=99999999999999999999999 { N }");
    assert_eq!(d.kind, ErrorKind::Range);
    assert_eq!(d.place, at(6));
    let d = error_of("N in 99999999999999999999999..3 { N }");
    assert_eq!(d.kind, ErrorKind::Range);
    assert_eq!(d.place, at(2));
}

#[test]
fn bounds_are_read_where_they_stand() {
    assert_eq!(read_bounds(&tokens("N in 3..7 { }")), (Reading::Value(3), Reading::Value(7)));
    assert_eq!(read_bounds(&tokens("N in 3..=7 { }")), (Reading::Value(3), Reading::Value(7)));
    assert_eq!(read_bounds(&tokens("N in 1.5..x")), (Reading::NotInteger, Reading::NotInteger));
    assert_eq!(read_bounds(&tokens("N in")), (Reading::NotInteger, Reading::NotInteger));
    assert_eq!(read_bounds(&tokens("a b 9 c d 8")), (Reading::Value(9), Reading::Value(8)));
}

#[test]
fn parse_follows_what_was_read() {
    let input = tokens("N in 3..7 { N }");
    let spec = ExpansionSpec::parse_with(&input, Reading::Value(1), Reading::OutOfRange).unwrap();
    assert_eq!(spec.start, Bound { text: name("3"), pos: Position { index: 2 }, value: Some(1) });
    assert_eq!(spec.end, Bound { text: name("7"), pos: Position { index: 5 }, value: None });
    assert_eq!(
        ExpansionSpec::parse_with(&input, Reading::NotInteger, Reading::Value(7)),
        Err(Diagnostic { kind: ErrorKind::Syntax, place: at(2) })
    );
    assert_eq!(
        ExpansionSpec::parse_with(&input, Reading::Value(3), Reading::NotInteger),
        Err(Diagnostic { kind: ErrorKind::Syntax, place: at(5) })
    );
    let bracketed = vec![
        Token::ident(name("N"), Position { index: 0 }),
        Token::ident(name("in"), Position { index: 1 }),
        Token::literal(name("(1)"), Position { index: 2 }),
    ];
    assert_eq!(
        ExpansionSpec::parse_with(&bracketed, Reading::Value(1), Reading::Value(1)),
        Err(Diagnostic { kind: ErrorKind::Syntax, place: at(2) })
    );
    assert_eq!(
        ExpansionSpec::parse_with(&tokens("N in x..7 { }"), Reading::Value(1), Reading::Value(7)),
        Err(Diagnostic { kind: ErrorKind::Syntax, place: at(2) })
    );
}

#[test]
fn seq_with_follows_what_was_read() {
    let input = tokens("N in 0..0 { N , }");
    let out = seq_with(&input, Reading::Value(1), Reading::Value(3)).unwrap();
    assert_eq!(text(&out), canon("1 , 2 ,"));
    assert_eq!(
        seq_with(&input, Reading::Value(3), Reading::Value(1)),
        Err(Diagnostic { kind: ErrorKind::Range, place: at(5) })
    );
    assert_eq!(
        seq_with(&input, Reading::OutOfRange, Reading::Value(1)),
        Err(Diagnostic { kind: ErrorKind::Range, place: at(2) })
    );
    assert_eq!(
        seq_with(&input, Reading::Value(0), Reading::NotInteger),
        Err(Diagnostic { kind: ErrorKind::Syntax, place: at(5) })
    );
}

#[test]
fn hexadecimal_bounds_count_in_decimal() {
    assert_eq!(text(&output_of("N in 0x8..0xb { v~N }")), canon("v8 v9 v10"));
}

#[test]
fn header_is_taken_apart() {
    let spec = ExpansionSpec::parse(&tokens("I in 1..=4 { a I }")).unwrap();
    assert_eq!(spec.placeholder, "I");
    assert_eq!(spec.placeholder_pos, Position { index: 0 });
    assert_eq!(spec.start, Bound { text: name("1"), pos: Position { index: 2 }, value: Some(1) });
    assert_eq!(spec.end, Bound { text: name("4"), pos: Position { index: 6 }, value: Some(4) });
    assert!(spec.inclusive);
    assert_eq!(text(&spec.body), canon("a I"));
    assert_eq!(spec.range(), Ok(IndexRange { start: 1, end: 4, inclusive: true }));

    let spec = ExpansionSpec::parse(&tokens("I in 1..4 { }")).unwrap();
    assert!(!spec.inclusive);
    assert_eq!(spec.end, Bound { text: name("4"), pos: Position { index: 5 }, value: Some(4) });
    assert_eq!(spec.body, Vec::<Token>::new());
    assert_eq!(spec.range(), Ok(IndexRange { start: 1, end: 4, inclusive: false }));
}

#[test]
fn body_may_be_ill_formed_code() {
    let out = output_of("N in 0..2 { + fn ( ) N ; ; else }");
    assert_eq!(text(&out), canon("+ fn ( ) 0 ; ; else + fn ( ) 1 ; ; else"));
}

fn syntax_error_place(src: &str) -> Place {
    let d = error_of(src);
    assert_eq!(d.kind, ErrorKind::Syntax);
    assert!(d.is_syntactic());
    d.place
}

#[test]
fn header_faults_are_reported_at_the_first_offending_token() {
    assert_eq!(syntax_error_place("3 in 0..3 { }"), at(0));
    assert_eq!(syntax_error_place("N of 0..3 { }"), at(1));
    assert_eq!(syntax_error_place("N 0..3 { }"), at(1));
    assert_eq!(syntax_error_place("N in x..3 { }"), at(2));
    assert_eq!(syntax_error_place("N in -1..3 { }"), at(2));
    assert_eq!(syntax_error_place("N in 0 3 { }"), at(3));
    assert_eq!(syntax_error_place("N in 0.. { }"), at(5));
    assert_eq!(syntax_error_place("N in 0..=x { }"), at(6));
    assert_eq!(syntax_error_place("N in 0..3 ( )"), at(6));
    assert_eq!(syntax_error_place("N in 0..3 [ ]"), at(6));
    assert_eq!(syntax_error_place("N in 0..3 { } x"), at(7));
    assert_eq!(syntax_error_place("N in 0..=3 { a b } ;"), at(10));
    assert_eq!(syntax_error_place("N in 0...3 { }"), at(5));
}

#[test]
fn dots_of_the_range_must_be_glued() {
    assert_eq!(syntax_error_place("N in 0 . . 3 { }"), at(3));
    assert_eq!(syntax_error_place("N in 0 .. = 3 { }"), at(5));
    assert_eq!(syntax_error_place("N in 0 , . 3 { }"), at(3));
    assert_eq!(syntax_error_place("N in 0 . , 3 { }"), at(3));
}

#[test]
fn missing_tokens_are_reported_at_the_end() {
    assert_eq!(syntax_error_place(""), Place::EndOfInput);
    assert_eq!(syntax_error_place("N"), Place::EndOfInput);
    assert_eq!(syntax_error_place("N in"), Place::EndOfInput);
    assert_eq!(syntax_error_place("N in 0"), Place::EndOfInput);
    assert_eq!(syntax_error_place("N in 0.."), Place::EndOfInput);
    assert_eq!(syntax_error_place("N in 0..3"), Place::EndOfInput);
    assert_eq!(syntax_error_place("N in 0..=3"), Place::EndOfInput);
}

#[test]
fn body_without_marker_is_expanded_directly() {
    assert!(matches!(detect_mode(&tokens("a b ( c [ d ] )")), Ok(ExpansionMode::Direct)));
    assert!(matches!(detect_mode(&tokens("")), Ok(ExpansionMode::Direct)));
    assert!(matches!(detect_mode(&tokens("# [ a ] * ( b )")), Ok(ExpansionMode::Direct)));
    assert!(matches!(detect_mode(&tokens("# { a } * # !")), Ok(ExpansionMode::Direct)));
    assert_eq!(text(&output_of("N in 0..2 { # [ N ] ; }")), canon("# [ 0 ] ; # [ 1 ] ;"));
}

#[test]
fn marker_without_star_is_a_structure_error() {
    assert_eq!(
        detect_mode(&tokens("# ( N )")),
        Err(Diagnostic { kind: ErrorKind::Structure, place: at(0) })
    );
    assert_eq!(
        detect_mode(&tokens("a [ b # ( a ) + ] # { b } *")),
        Err(Diagnostic { kind: ErrorKind::Structure, place: at(3) })
    );
    let d = error_of("N in 0..2 { # ( N ) ; }");
    assert_eq!(d.kind, ErrorKind::Structure);
    assert_eq!(d.place, at(7));
}

#[test]
fn marker_splits_the_body() {
    match detect_mode(&tokens("a b # ( c N ) * d")).unwrap() {
        ExpansionMode::Targeted { enclosing, outer_prefix, marked_subsequence, outer_suffix } => {
            assert!(enclosing.is_empty());
            assert_eq!(outer_prefix, tokens("a b"));
            assert_eq!(text(&marked_subsequence), canon("c N"));
            assert_eq!(text(&outer_suffix), canon("d"));
            assert_eq!(outer_suffix[0].position(), Position { index: 7 });
            assert_eq!(marked_subsequence[0].position(), Position { index: 4 });
        }
        ExpansionMode::Direct => panic!("expected the targeted mode"),
    }
}

#[test]
fn nested_marker_is_found_with_its_frames() {
    match detect_mode(&tokens("a [ b { # ( N ) * c } d ] e")).unwrap() {
        ExpansionMode::Targeted { enclosing, outer_prefix, marked_subsequence, outer_suffix } => {
            assert_eq!(enclosing.len(), 2);
            assert_eq!(enclosing[0].delimiter, Delimiter::Brace);
            assert_eq!(text(&enclosing[0].before), canon("b"));
            assert_eq!(text(&enclosing[0].after), canon("d"));
            assert_eq!(enclosing[0].pos, Position { index: 3 });
            assert_eq!(enclosing[1].delimiter, Delimiter::Bracket);
            assert_eq!(text(&enclosing[1].before), canon("a"));
            assert_eq!(text(&enclosing[1].after), canon("e"));
            assert_eq!(enclosing[1].pos, Position { index: 1 });
            assert!(outer_prefix.is_empty());
            assert_eq!(text(&marked_subsequence), canon("N"));
            assert_eq!(text(&outer_suffix), canon("c"));
        }
        ExpansionMode::Direct => panic!("expected the targeted mode"),
    }
}

#[test]
fn only_the_marked_part_is_repeated() {
    let out = output_of("N in 0..3 { enum E { #( V~N = N , )* Last } const N : u8 = 0 ; }");
    assert_eq!(
        text(&out),
        canon("enum E { V0 = 0 , V1 = 1 , V2 = 2 , Last } const N : u8 = 0 ;")
    );
}

#[test]
fn marker_over_an_empty_range_leaves_prefix_and_suffix() {
    let out = output_of("N in 3..3 { a [ b #( N )* c ] d }");
    assert_eq!(text(&out), canon("a [ b c ] d"));
    let out = output_of("N in 3..=3 { a [ b #( N )* c ] d }");
    assert_eq!(text(&out), canon("a [ b 3 c ] d"));
}

#[test]
fn marker_inside_a_marker_belongs_to_the_outer_one() {
    let out = output_of("N in 0..2 { x #( a #( N )* )* y }");
    assert_eq!(text(&out), canon("x a # ( 0 ) * a # ( 1 ) * y"));
}

#[test]
fn second_marker_is_a_structure_error() {
    let d = error_of("N in 0..2 { #( a )* #( b )* }");
    assert_eq!(d.kind, ErrorKind::Structure);
    assert_eq!(d.place, at(11));
    assert!(!d.is_syntactic());
    let d = error_of("N in 0..2 { [ #( a )* ] { ( #( b )* ) } }");
    assert_eq!(d.kind, ErrorKind::Structure);
    assert_eq!(d.place, at(14));
    assert!(matches!(
        detect_mode(&tokens("#( a )* #( b )* #( c )*")),
        Err(Diagnostic { kind: ErrorKind::Structure, place: Place::At(Position { index: 4 }) })
    ));
}

#[test]
fn marker_without_star_beside_a_marker_is_a_structure_error() {
    let d = error_of("N in 0..2 { #( a ) #( N )* }");
    assert_eq!(d.kind, ErrorKind::Structure);
    assert_eq!(d.place, at(7));
    let d = error_of("N in 0..2 { #( N )* [ x #( a ) ] }");
    assert_eq!(d.kind, ErrorKind::Structure);
    assert_eq!(d.place, at(13));
}

#[test]
fn dangling_splice_is_a_splice_error() {
    let d = error_of("N in 0..2 { f~ }");
    assert_eq!(d.kind, ErrorKind::Splice);
    assert_eq!(d.place, at(8));
    assert!(d.is_syntactic());
    let d = error_of("N in 0..2 { a ( f~3 ) }");
    assert_eq!(d.kind, ErrorKind::Splice);
    assert_eq!(d.place, at(10));
    let d = error_of("N in 0..2 { f~g ; h~( N ) }");
    assert_eq!(d.kind, ErrorKind::Splice);
    assert_eq!(d.place, at(12));
}

#[test]
fn errors_come_in_the_order_of_the_steps() {
    assert_eq!(error_of("N in 5..2 { #( a )* #( b )* f~ }").kind, ErrorKind::Range);
    assert_eq!(error_of("N in 0..2 { #( a )* #( b )* f~ }").kind, ErrorKind::Structure);
    assert_eq!(error_of("N in 0..2 { #( a )* f~ }").kind, ErrorKind::Splice);
    assert_eq!(error_of("N in 5..2 { } x").kind, ErrorKind::Syntax);
}

#[test]
fn expand_goes_by_the_values_of_the_bounds() {
    let mut spec = ExpansionSpec::parse(&tokens("N in 0..0 { N , }")).unwrap();
    assert_eq!(spec.expand(), Ok(Vec::<Token>::new()));
    spec.start.value = Some(1);
    spec.end.value = Some(3);
    assert_eq!(text(&spec.expand().unwrap()), canon("1 , 2 ,"));
    spec.inclusive = true;
    assert_eq!(text(&spec.expand().unwrap()), canon("1 , 2 , 3 ,"));
    spec.start.value = None;
    assert_eq!(spec.expand(), Err(Diagnostic { kind: ErrorKind::Range, place: at(2) }));
    spec.start.value = Some(4);
    assert_eq!(spec.expand(), Err(Diagnostic { kind: ErrorKind::Range, place: at(5) }));
    assert_eq!(spec.range(), Err(Diagnostic { kind: ErrorKind::Range, place: at(5) }));
}

#[test]
fn every_kind_has_its_message() {
    let p = Position { index: 0 };
    let kinds = [ErrorKind::Syntax, ErrorKind::Range, ErrorKind::Structure, ErrorKind::Splice];
    let mut seen: Vec<String> = Vec::new();
    for kind in kinds {
        let m = Diagnostic::at(kind, p).message();
        assert!(!m.is_empty());
        assert!(!seen.contains(&m));
        seen.push(m);
    }
    assert_eq!(seen[1], "range bounds must be non-negative integers with start <= end");
}

#[test]
fn clone_is_deep() {
    let src = tokens("a ( b [ c 1 ] ) + d");
    let copy: Vec<Token> = src.iter().map(|t| t.clone()).collect();
    assert_eq!(src, copy);
}
