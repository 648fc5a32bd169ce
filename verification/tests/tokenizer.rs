use hubris::tok::{Error, ErrorCode, Tok, Tokenizer};

fn lex(text: &str) -> Vec<Result<(usize, Tok<'_>, usize), Error>> {
    let mut tokenizer = Tokenizer::new(text, 0);
    let mut items = Vec::new();
    while let Some(item) = tokenizer.next() {
        let stop = item.is_err();
        items.push(item);
        if stop || items.len() > 1000 {
            break;
        }
    }
    items
}

#[test]
fn empty_text_has_no_tokens() {
    assert_eq!(lex(""), vec![]);
    assert_eq!(lex("  \n\t "), vec![]);
}

#[test]
fn keywords_and_identifiers() {
    assert_eq!(
        lex("def two : Nat"),
        vec![
            Ok((0, Tok::Def, 3)),
            Ok((4, Tok::Id("two"), 7)),
            Ok((8, Tok::Colon, 9)),
            Ok((10, Tok::Id("Nat"), 13)),
        ]
    );
    assert_eq!(
        lex("end extern forall fun in inductive import let match module Type with"),
        vec![
            Ok((0, Tok::End, 3)),
            Ok((4, Tok::Extern, 10)),
            Ok((11, Tok::Forall, 17)),
            Ok((18, Tok::Fun, 21)),
            Ok((22, Tok::In, 24)),
            Ok((25, Tok::Inductive, 34)),
            Ok((35, Tok::Import, 41)),
            Ok((42, Tok::Let, 45)),
            Ok((46, Tok::Match, 51)),
            Ok((52, Tok::Module, 58)),
            Ok((59, Tok::Type, 63)),
            Ok((64, Tok::With, 68)),
        ]
    );
    assert_eq!(lex("type"), vec![Ok((0, Tok::Id("type"), 4))]);
    assert_eq!(lex("define"), vec![Ok((0, Tok::Id("define"), 6))]);
    assert_eq!(lex("x1_y"), vec![Ok((0, Tok::Id("x1_y"), 4))]);
}

#[test]
fn punctuation_of_one_character() {
    assert_eq!(
        lex(",#>{[(<+?}]);*_|"),
        vec![
            Ok((0, Tok::Comma, 1)),
            Ok((1, Tok::Hash, 2)),
            Ok((2, Tok::GreaterThan, 3)),
            Ok((3, Tok::LeftBrace, 4)),
            Ok((4, Tok::LeftBracket, 5)),
            Ok((5, Tok::LeftParen, 6)),
            Ok((6, Tok::LessThan, 7)),
            Ok((7, Tok::Plus, 8)),
            Ok((8, Tok::Question, 9)),
            Ok((9, Tok::RightBrace, 10)),
            Ok((10, Tok::RightBracket, 11)),
            Ok((11, Tok::RightParen, 12)),
            Ok((12, Tok::Semi, 13)),
            Ok((13, Tok::Star, 14)),
            Ok((14, Tok::Underscore, 15)),
            Ok((15, Tok::Bar, 16)),
        ]
    );
}

#[test]
fn punctuation_of_two_characters() {
    assert_eq!(
        lex("!= :: := .. == => @L @R -> ~~"),
        vec![
            Ok((0, Tok::BangEquals, 2)),
            Ok((3, Tok::ColonColon, 5)),
            Ok((6, Tok::ColonEq, 8)),
            Ok((9, Tok::DotDot, 11)),
            Ok((12, Tok::EqualsEquals, 14)),
            Ok((15, Tok::FatArrow, 17)),
            Ok((18, Tok::Lookahead, 20)),
            Ok((21, Tok::Lookbehind, 23)),
            Ok((24, Tok::Arrow, 26)),
            Ok((27, Tok::TildeTilde, 29)),
        ]
    );
    assert_eq!(
        lex(": . ="),
        vec![Ok((0, Tok::Colon, 1)), Ok((2, Tok::Period, 3)), Ok((4, Tok::Equals, 5))]
    );
    assert_eq!(lex(":x"), vec![Ok((0, Tok::Colon, 1)), Ok((1, Tok::Id("x"), 2))]);
    assert_eq!(lex("="), vec![Ok((0, Tok::Equals, 1))]);
}

#[test]
fn underscore_is_a_token_of_its_own() {
    assert_eq!(lex("_x"), vec![Ok((0, Tok::Underscore, 1)), Ok((1, Tok::Id("x"), 2))]);
}

#[test]
fn unfinished_pairs_are_unrecognized() {
    let unrecognized = |at| Err(Error { location: at, code: ErrorCode::UnrecognizedToken });
    assert_eq!(lex("!x"), vec![unrecognized(0)]);
    assert_eq!(lex("@"), vec![unrecognized(0)]);
    assert_eq!(lex("a -"), vec![Ok((0, Tok::Id("a"), 1)), unrecognized(2)]);
    assert_eq!(lex("~ ~"), vec![unrecognized(0)]);
    assert_eq!(lex("/ x"), vec![unrecognized(0)]);
    assert_eq!(lex("  $"), vec![unrecognized(2)]);
    assert_eq!(lex("1"), vec![unrecognized(0)]);
}

#[test]
fn an_unrecognized_character_is_not_consumed() {
    let mut tokenizer = Tokenizer::new("$", 0);
    let first = tokenizer.next();
    let second = tokenizer.next();
    assert_eq!(first, Some(Err(Error { location: 0, code: ErrorCode::UnrecognizedToken })));
    assert_eq!(first, second);
}

#[test]
fn after_a_broken_pair_the_second_character_is_next() {
    let mut tokenizer = Tokenizer::new("!x", 0);
    assert_eq!(
        tokenizer.next(),
        Some(Err(Error { location: 0, code: ErrorCode::UnrecognizedToken }))
    );
    assert_eq!(tokenizer.next(), Some(Ok((1, Tok::Id("x"), 2))));
    assert_eq!(tokenizer.next(), None);
}

#[test]
fn comments_run_to_the_end_of_the_line() {
    assert_eq!(
        lex("a // b c\nd"),
        vec![Ok((0, Tok::Id("a"), 1)), Ok((9, Tok::Id("d"), 10))]
    );
    assert_eq!(lex("// only a comment"), vec![]);
    assert_eq!(lex("//\n//\nx"), vec![Ok((6, Tok::Id("x"), 7))]);
}

#[test]
fn string_literals() {
    assert_eq!(lex("\"abc\""), vec![Ok((0, Tok::StringLiteral("abc"), 5))]);
    assert_eq!(lex("\"\""), vec![Ok((0, Tok::StringLiteral(""), 2))]);
    assert_eq!(
        lex("x \"a\\\"b\" y"),
        vec![
            Ok((0, Tok::Id("x"), 1)),
            Ok((2, Tok::StringLiteral("a\\\"b"), 8)),
            Ok((9, Tok::Id("y"), 10)),
        ]
    );
    assert_eq!(lex("\"a\\\\\""), vec![Ok((0, Tok::StringLiteral("a\\\\"), 5))]);
}

#[test]
fn unterminated_string_literal() {
    let unterminated =
        |at| Err(Error { location: at, code: ErrorCode::UnterminatedStringLiteral });
    assert_eq!(lex("\"abc"), vec![unterminated(0)]);
    assert_eq!(lex("x \"abc\\\""), vec![Ok((0, Tok::Id("x"), 1)), unterminated(2)]);
    let mut tokenizer = Tokenizer::new("\"abc", 0);
    assert!(tokenizer.next().is_some());
    assert_eq!(tokenizer.next(), None);
}

#[test]
fn positions_are_byte_offsets() {
    assert_eq!(
        lex("é λx ∀"),
        vec![
            Ok((0, Tok::Id("é"), 2)),
            Ok((3, Tok::Id("λx"), 6)),
            Err(Error { location: 7, code: ErrorCode::UnrecognizedToken }),
        ]
    );
    assert_eq!(
        lex("\"日本\" 𝒳 €"),
        vec![
            Ok((0, Tok::StringLiteral("日本"), 8)),
            Ok((9, Tok::Id("𝒳"), 13)),
            Err(Error { location: 14, code: ErrorCode::UnrecognizedToken }),
        ]
    );
    assert_eq!(lex("\u{a0}x"), vec![Ok((2, Tok::Id("x"), 3))]);
}

#[test]
fn next_moves_positions_up_by_the_shift() {
    let mut tokenizer = Tokenizer::new("a $", 100);
    assert_eq!(tokenizer.next(), Some(Ok((100, Tok::Id("a"), 101))));
    assert_eq!(
        tokenizer.next(),
        Some(Err(Error { location: 102, code: ErrorCode::UnrecognizedToken }))
    );
    let mut unshifted = Tokenizer::new("a $", 100);
    assert_eq!(unshifted.next_unshifted(), Some(Ok((0, Tok::Id("a"), 1))));
    assert_eq!(
        unshifted.next_unshifted(),
        Some(Err(Error { location: 2, code: ErrorCode::UnrecognizedToken }))
    );
}

#[test]
fn try_new_refuses_a_shift_that_does_not_fit() {
    assert!(Tokenizer::try_new("abc", usize::MAX - 3).is_some());
    assert!(Tokenizer::try_new("abc", usize::MAX - 2).is_none());
    assert!(Tokenizer::try_new("", usize::MAX).is_some());
    let mut tokenizer = Tokenizer::try_new("ab", usize::MAX - 2).unwrap();
    assert_eq!(tokenizer.next(), Some(Ok((usize::MAX - 2, Tok::Id("ab"), usize::MAX))));
}

#[test]
fn code_ends_at_a_terminator_outside_brackets() {
    let mut tokenizer = Tokenizer::new("f(a, b), c", 0);
    assert_eq!(tokenizer.code(0, "([{", "}])"), Ok(7));
    assert_eq!(tokenizer.next(), Some(Ok((7, Tok::Comma, 8))));

    let mut tokenizer = Tokenizer::new("x + y", 0);
    assert_eq!(tokenizer.code(0, "([{", "}])"), Ok(5));
    assert_eq!(tokenizer.next(), None);

    let mut tokenizer = Tokenizer::new("a]", 0);
    assert_eq!(tokenizer.code(0, "([{", "}])"), Ok(1));

    let mut tokenizer = Tokenizer::new("\";\" // ;\n;", 0);
    assert_eq!(tokenizer.code(0, "([{", "}])"), Ok(9));

    let mut tokenizer = Tokenizer::new("a / b;", 0);
    assert_eq!(tokenizer.code(0, "([{", "}])"), Ok(5));
}

#[test]
fn code_that_does_not_end() {
    let mut tokenizer = Tokenizer::new("f(a, b", 0);
    assert_eq!(
        tokenizer.code(42, "([{", "}])"),
        Err(Error { location: 42, code: ErrorCode::UnterminatedCode })
    );
    let mut tokenizer = Tokenizer::new("f \"a", 0);
    assert_eq!(
        tokenizer.code(42, "([{", "}])"),
        Err(Error { location: 2, code: ErrorCode::UnterminatedStringLiteral })
    );
}

#[test]
fn right_arrow_reads_marks_and_code() {
    let mut tokenizer = Tokenizer::new("@L", 0);
    assert_eq!(tokenizer.right_arrow(7), Ok((7, Tok::EqualsGreaterThanLookahead, 2)));
    let mut tokenizer = Tokenizer::new("@R", 0);
    assert_eq!(tokenizer.right_arrow(7), Ok((7, Tok::EqualsGreaterThanLookbehind, 2)));
    let mut tokenizer = Tokenizer::new("@x", 0);
    assert_eq!(
        tokenizer.right_arrow(7),
        Err(Error { location: 7, code: ErrorCode::UnrecognizedToken })
    );
    let mut tokenizer = Tokenizer::new(" f(x);", 0);
    assert_eq!(tokenizer.right_arrow(7), Ok((7, Tok::EqualsGreaterThanCode(" f(x)"), 5)));
    let mut tokenizer = Tokenizer::new("? f(x),", 0);
    assert_eq!(
        tokenizer.right_arrow(7),
        Ok((7, Tok::EqualsGreaterThanQuestionCode(" f(x)"), 6))
    );
    let mut tokenizer = Tokenizer::new("", 0);
    assert_eq!(
        tokenizer.right_arrow(7),
        Err(Error { location: 7, code: ErrorCode::UnterminatedCode })
    );
    let mut tokenizer = Tokenizer::new("(", 0);
    assert_eq!(
        tokenizer.right_arrow(7),
        Err(Error { location: 7, code: ErrorCode::UnterminatedCode })
    );
}
