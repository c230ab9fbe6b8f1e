use compiler::lexer::{Lexer, Token, TokenKind};

fn token(kind: TokenKind, value: &str) -> Token {
    Token { kind, value: value.to_string() }
}

fn all_tokens(text: &str) -> Vec<Token> {
    let mut lexer = Lexer::new(text);
    let mut tokens = Vec::new();
    while let Some(token) = lexer.tokenize() {
        tokens.push(token);
    }
    tokens
}

fn only_token(text: &str) -> Token {
    let mut tokens = all_tokens(text);
    assert_eq!(tokens.len(), 1, "{:?}", tokens);
    tokens.remove(0)
}

/// The symbol table: every spelling with its kind.
fn symbol_table() -> Vec<(&'static str, TokenKind)> {
    vec![
        ("{", TokenKind::LeftCurly),
        ("}", TokenKind::RightCurly),
        ("(", TokenKind::LeftParen),
        (")", TokenKind::RightParen),
        ("[", TokenKind::LeftBracket),
        ("]", TokenKind::RightBracket),
        (".", TokenKind::Dot),
        (",", TokenKind::Comma),
        (":", TokenKind::Colon),
        (";", TokenKind::Semi),
        (":=", TokenKind::DeclAssign),
        ("=", TokenKind::Assign),
        ("+", TokenKind::Plus),
        ("-", TokenKind::Minus),
        ("*", TokenKind::Times),
        ("/", TokenKind::DividedBy),
        ("==", TokenKind::Equals),
        ("!", TokenKind::Not),
        ("!=", TokenKind::NotEquals),
        ("||", TokenKind::Or),
        ("&&", TokenKind::And),
        (">", TokenKind::GreaterThan),
        (">=", TokenKind::GreaterOrEquals),
        ("<", TokenKind::LowerThan),
        ("<=", TokenKind::LowerOrEquals),
        ("&", TokenKind::BitAnd),
        ("|", TokenKind::BitOr),
        ("^", TokenKind::BitXor),
        ("~", TokenKind::BitNot),
    ]
}

#[test]
fn empty_text_has_no_token() {
    let mut lexer = Lexer::new("");
    assert_eq!(lexer.tokenize(), None);
    assert_eq!(lexer.tokenize(), None);
}

#[test]
fn white_space_alone_has_no_token() {
    for text in [" ", "   ", "\t", "\n", "\r\n", " \t\n\r \u{b}\u{c}", "\u{a0}\u{2003}\u{3000}"] {
        let mut lexer = Lexer::new(text);
        assert_eq!(lexer.tokenize(), None, "{:?}", text);
    }
}

#[test]
fn exhausted_tokenizer_stays_exhausted() {
    let mut lexer = Lexer::new("a  ");
    assert_eq!(lexer.tokenize(), Some(token(TokenKind::Identifier, "a")));
    for _ in 0..5 {
        assert_eq!(lexer.tokenize(), None);
    }
}

#[test]
fn white_space_around_tokens_is_skipped() {
    assert_eq!(
        all_tokens("  \n\tx \u{a0} 1\r\n"),
        vec![token(TokenKind::Identifier, "x"), token(TokenKind::Integer, "1")]
    );
}

#[test]
fn digits_make_an_integer() {
    assert_eq!(only_token("5"), token(TokenKind::Integer, "5"));
    assert_eq!(only_token("0"), token(TokenKind::Integer, "0"));
    assert_eq!(only_token("0123456789"), token(TokenKind::Integer, "0123456789"));
    assert_eq!(
        only_token("123456789012345678901234567890"),
        token(TokenKind::Integer, "123456789012345678901234567890")
    );
}

#[test]
fn a_dot_makes_a_float() {
    assert_eq!(only_token("1.5"), token(TokenKind::Float, "1.5"));
    assert_eq!(only_token("1."), token(TokenKind::Float, "1."));
    assert_eq!(only_token(".5"), token(TokenKind::Float, ".5"));
    assert_eq!(only_token("3.14159"), token(TokenKind::Float, "3.14159"));
}

#[test]
fn several_dots_still_make_one_float() {
    assert_eq!(only_token("1.2.3"), token(TokenKind::Float, "1.2.3"));
    assert_eq!(only_token("1..2"), token(TokenKind::Float, "1..2"));
    assert_eq!(only_token("..."), token(TokenKind::Float, "..."));
}

#[test]
fn a_dot_alone_is_a_float_and_not_the_dot_symbol() {
    assert_eq!(only_token("."), token(TokenKind::Float, "."));
    assert_eq!(
        all_tokens("a.b"),
        vec![
            token(TokenKind::Identifier, "a"),
            token(TokenKind::Float, "."),
            token(TokenKind::Identifier, "b"),
        ]
    );
}

#[test]
fn a_number_ends_where_its_run_ends() {
    assert_eq!(
        all_tokens("12ab"),
        vec![token(TokenKind::Integer, "12"), token(TokenKind::Identifier, "ab")]
    );
    assert_eq!(
        all_tokens("1.5;"),
        vec![token(TokenKind::Float, "1.5"), token(TokenKind::Semi, ";")]
    );
    assert_eq!(
        all_tokens("7 8"),
        vec![token(TokenKind::Integer, "7"), token(TokenKind::Integer, "8")]
    );
    assert_eq!(
        all_tokens("-3"),
        vec![token(TokenKind::Minus, "-"), token(TokenKind::Integer, "3")]
    );
    assert_eq!(
        all_tokens("1e5"),
        vec![token(TokenKind::Integer, "1"), token(TokenKind::Identifier, "e5")]
    );
}

#[test]
fn number_token_text_is_the_run_and_float_iff_it_has_a_dot() {
    for run in ["7", "42", "4.2", ".", "..", "1.", ".1", "1.2.3", "000", "9.9.9.9"] {
        for after in ["", " ", ";", "x", "\n"] {
            let text = format!("{}{}", run, after);
            let mut lexer = Lexer::new(&text);
            let found = lexer.tokenize().unwrap();
            assert_eq!(found.value, run);
            let expected = if run.contains('.') { TokenKind::Float } else { TokenKind::Integer };
            assert_eq!(found.kind, expected, "{:?}", text);
        }
    }
}

#[test]
fn keywords_are_told_from_identifiers() {
    assert_eq!(only_token("fn"), token(TokenKind::Fn, "fn"));
    assert_eq!(only_token("mut"), token(TokenKind::Mut, "mut"));
    assert_eq!(only_token("if"), token(TokenKind::If, "if"));
    assert_eq!(only_token("else"), token(TokenKind::Else, "else"));
}

#[test]
fn other_words_are_identifiers() {
    for word in [
        "x", "f", "i", "fnn", "ffn", "fm", "mu", "mutt", "iff", "els", "elsee", "elsf", "Fn", "FN",
        "Mut", "IF", "Else", "function", "foo", "bar42", "a1b2c3", "Z",
    ] {
        assert_eq!(only_token(word), token(TokenKind::Identifier, word));
    }
}

#[test]
fn an_underscore_can_only_start_an_identifier() {
    assert_eq!(only_token("_"), token(TokenKind::Identifier, "_"));
    assert_eq!(only_token("_abc"), token(TokenKind::Identifier, "_abc"));
    assert_eq!(only_token("_1"), token(TokenKind::Identifier, "_1"));
    assert_eq!(
        all_tokens("a_b"),
        vec![token(TokenKind::Identifier, "a"), token(TokenKind::Identifier, "_b")]
    );
    assert_eq!(
        all_tokens("foo_"),
        vec![token(TokenKind::Identifier, "foo"), token(TokenKind::Identifier, "_")]
    );
    assert_eq!(
        all_tokens("__"),
        vec![token(TokenKind::Identifier, "_"), token(TokenKind::Identifier, "_")]
    );
    assert_eq!(
        all_tokens("snake_case_name"),
        vec![
            token(TokenKind::Identifier, "snake"),
            token(TokenKind::Identifier, "_case"),
            token(TokenKind::Identifier, "_name"),
        ]
    );
}

#[test]
fn a_keyword_before_an_underscore_is_still_a_keyword() {
    assert_eq!(
        all_tokens("fn_x"),
        vec![token(TokenKind::Fn, "fn"), token(TokenKind::Identifier, "_x")]
    );
    assert_eq!(only_token("_fn"), token(TokenKind::Identifier, "_fn"));
}

#[test]
fn an_identifier_ends_at_a_letter_beyond_ascii() {
    assert_eq!(
        all_tokens("caf\u{e9}"),
        vec![token(TokenKind::Identifier, "caf"), token(TokenKind::Unknown, "\u{e9}")]
    );
}

#[test]
fn string_literal_text_is_what_stands_between_the_quotes() {
    assert_eq!(only_token("\"abc\""), token(TokenKind::String, "abc"));
    assert_eq!(only_token("\"\""), token(TokenKind::String, ""));
    assert_eq!(only_token("\"a b\tc\n\""), token(TokenKind::String, "a b\tc\n"));
    assert_eq!(only_token("\"x := 1;\""), token(TokenKind::String, "x := 1;"));
    assert_eq!(only_token("\"h\u{e9}llo \u{4e16}\""), token(TokenKind::String, "h\u{e9}llo \u{4e16}"));
}

#[test]
fn string_literal_has_no_escapes() {
    assert_eq!(
        all_tokens("\"a\\\"b\""),
        vec![
            token(TokenKind::String, "a\\"),
            token(TokenKind::Identifier, "b"),
            token(TokenKind::Unknown, ""),
        ]
    );
}

#[test]
fn unterminated_string_is_unknown() {
    assert_eq!(only_token("\"abc"), token(TokenKind::Unknown, "abc"));
    assert_eq!(only_token("\""), token(TokenKind::Unknown, ""));
    assert_eq!(only_token("\"abc def "), token(TokenKind::Unknown, "abc def "));
    let mut lexer = Lexer::new("\"abc");
    assert_eq!(lexer.tokenize(), Some(token(TokenKind::Unknown, "abc")));
    assert_eq!(lexer.tokenize(), None);
}

#[test]
fn tokens_after_a_string_follow_its_closing_quote() {
    assert_eq!(
        all_tokens("\"a\"\"b\"x"),
        vec![
            token(TokenKind::String, "a"),
            token(TokenKind::String, "b"),
            token(TokenKind::Identifier, "x"),
        ]
    );
}

#[test]
fn every_symbol_alone_has_its_kind() {
    for (spelling, kind) in symbol_table() {
        if spelling != "." {
            assert_eq!(only_token(spelling), token(kind, spelling));
        }
    }
}

#[test]
fn symbol_table_round_trip() {
    let table = symbol_table();
    let spellings: Vec<&str> = table.iter().map(|entry| entry.0).collect();
    for separator in [" ", "\n", " \t "] {
        let found = all_tokens(&spellings.join(separator));
        assert_eq!(found.len(), table.len());
        for (found, (spelling, kind)) in found.iter().zip(table.iter()) {
            if *spelling == "." {
                // the rule for numbers comes before the rule for symbols
                assert_eq!(*found, token(TokenKind::Float, "."));
            } else {
                assert_eq!(*found, token(*kind, spelling));
            }
        }
    }
}

#[test]
fn symbols_widen() {
    assert_eq!(only_token(":"), token(TokenKind::Colon, ":"));
    assert_eq!(only_token(":="), token(TokenKind::DeclAssign, ":="));
    assert_eq!(only_token("="), token(TokenKind::Assign, "="));
    assert_eq!(only_token("=="), token(TokenKind::Equals, "=="));
    assert_eq!(only_token("&"), token(TokenKind::BitAnd, "&"));
    assert_eq!(only_token("&&"), token(TokenKind::And, "&&"));
    assert_eq!(only_token("|"), token(TokenKind::BitOr, "|"));
    assert_eq!(only_token("||"), token(TokenKind::Or, "||"));
    assert_eq!(only_token("!"), token(TokenKind::Not, "!"));
    assert_eq!(only_token("!="), token(TokenKind::NotEquals, "!="));
    assert_eq!(only_token(">"), token(TokenKind::GreaterThan, ">"));
    assert_eq!(only_token(">="), token(TokenKind::GreaterOrEquals, ">="));
    assert_eq!(only_token("<"), token(TokenKind::LowerThan, "<"));
    assert_eq!(only_token("<="), token(TokenKind::LowerOrEquals, "<="));
}

#[test]
fn symbols_widen_by_two_characters_at_most() {
    assert_eq!(
        all_tokens("==="),
        vec![token(TokenKind::Equals, "=="), token(TokenKind::Assign, "=")]
    );
    assert_eq!(
        all_tokens("&&&"),
        vec![token(TokenKind::And, "&&"), token(TokenKind::BitAnd, "&")]
    );
    assert_eq!(
        all_tokens(":=="),
        vec![token(TokenKind::DeclAssign, ":="), token(TokenKind::Assign, "=")]
    );
    assert_eq!(
        all_tokens("<=>"),
        vec![token(TokenKind::LowerOrEquals, "<="), token(TokenKind::GreaterThan, ">")]
    );
}

#[test]
fn symbols_do_not_widen_across_other_characters() {
    assert_eq!(
        all_tokens(": ="),
        vec![token(TokenKind::Colon, ":"), token(TokenKind::Assign, "=")]
    );
    assert_eq!(
        all_tokens("&|"),
        vec![token(TokenKind::BitAnd, "&"), token(TokenKind::BitOr, "|")]
    );
    assert_eq!(
        all_tokens("|&"),
        vec![token(TokenKind::BitOr, "|"), token(TokenKind::BitAnd, "&")]
    );
    assert_eq!(
        all_tokens("&="),
        vec![token(TokenKind::BitAnd, "&"), token(TokenKind::Assign, "=")]
    );
    assert_eq!(
        all_tokens("+="),
        vec![token(TokenKind::Plus, "+"), token(TokenKind::Assign, "=")]
    );
    assert_eq!(
        all_tokens("=:"),
        vec![token(TokenKind::Assign, "="), token(TokenKind::Colon, ":")]
    );
    assert_eq!(
        all_tokens("!x"),
        vec![token(TokenKind::Not, "!"), token(TokenKind::Identifier, "x")]
    );
}

#[test]
fn symbols_need_no_space_between_them() {
    assert_eq!(
        all_tokens("(){}[],;"),
        vec![
            token(TokenKind::LeftParen, "("),
            token(TokenKind::RightParen, ")"),
            token(TokenKind::LeftCurly, "{"),
            token(TokenKind::RightCurly, "}"),
            token(TokenKind::LeftBracket, "["),
            token(TokenKind::RightBracket, "]"),
            token(TokenKind::Comma, ","),
            token(TokenKind::Semi, ";"),
        ]
    );
}

#[test]
fn unrecognized_text_runs_to_the_next_white_space() {
    assert_eq!(only_token("@"), token(TokenKind::Unknown, "@"));
    assert_eq!(only_token("#tag"), token(TokenKind::Unknown, "#tag"));
    assert_eq!(only_token("$1+2;"), token(TokenKind::Unknown, "$1+2;"));
    assert_eq!(only_token("\u{e9}t\u{e9}"), token(TokenKind::Unknown, "\u{e9}t\u{e9}"));
    assert_eq!(
        all_tokens("@a b"),
        vec![token(TokenKind::Unknown, "@a"), token(TokenKind::Identifier, "b")]
    );
    assert_eq!(
        all_tokens("?\u{a0}?\n"),
        vec![token(TokenKind::Unknown, "?"), token(TokenKind::Unknown, "?")]
    );
    assert_eq!(only_token("'a\"b'"), token(TokenKind::Unknown, "'a\"b'"));
}

#[test]
fn a_declaration_in_tokens() {
    assert_eq!(
        all_tokens("x := 5;"),
        vec![
            token(TokenKind::Identifier, "x"),
            token(TokenKind::DeclAssign, ":="),
            token(TokenKind::Integer, "5"),
            token(TokenKind::Semi, ";"),
        ]
    );
}

#[test]
fn a_function_in_tokens() {
    assert_eq!(
        all_tokens("f := fn(a, b) { if a >= b { x := \"yes\"; } else { x := 1.5; } }"),
        vec![
            token(TokenKind::Identifier, "f"),
            token(TokenKind::DeclAssign, ":="),
            token(TokenKind::Fn, "fn"),
            token(TokenKind::LeftParen, "("),
            token(TokenKind::Identifier, "a"),
            token(TokenKind::Comma, ","),
            token(TokenKind::Identifier, "b"),
            token(TokenKind::RightParen, ")"),
            token(TokenKind::LeftCurly, "{"),
            token(TokenKind::If, "if"),
            token(TokenKind::Identifier, "a"),
            token(TokenKind::GreaterOrEquals, ">="),
            token(TokenKind::Identifier, "b"),
            token(TokenKind::LeftCurly, "{"),
            token(TokenKind::Identifier, "x"),
            token(TokenKind::DeclAssign, ":="),
            token(TokenKind::String, "yes"),
            token(TokenKind::Semi, ";"),
            token(TokenKind::RightCurly, "}"),
            token(TokenKind::Else, "else"),
            token(TokenKind::LeftCurly, "{"),
            token(TokenKind::Identifier, "x"),
            token(TokenKind::DeclAssign, ":="),
            token(TokenKind::Float, "1.5"),
            token(TokenKind::Semi, ";"),
            token(TokenKind::RightCurly, "}"),
            token(TokenKind::RightCurly, "}"),
        ]
    );
}

#[test]
fn a_token_can_be_cloned() {
    let first = token(TokenKind::String, "text");
    let copy = first.clone();
    assert_eq!(copy, first);
    assert_eq!(copy.kind, TokenKind::String);
    assert_eq!(copy.value, "text");
}

#[test]
fn a_long_text_is_tokenized() {
    let text = "x := 1; ".repeat(20000);
    let found = all_tokens(&text);
    assert_eq!(found.len(), 80000);
    assert_eq!(found[79999], token(TokenKind::Semi, ";"));
}

#[test]
fn tokens_after_a_token_are_those_of_the_rest_of_the_text() {
    let all = all_tokens("x := fn(a) { \"s\" 1.5 }");
    assert_eq!(all[1..].to_vec(), all_tokens(" := fn(a) { \"s\" 1.5 }"));
    assert_eq!(all[2..].to_vec(), all_tokens(" fn(a) { \"s\" 1.5 }"));
    assert_eq!(all[3..].to_vec(), all_tokens("(a) { \"s\" 1.5 }"));
    assert_eq!(all[7..].to_vec(), all_tokens(" \"s\" 1.5 }"));
    assert_eq!(all[8..].to_vec(), all_tokens(" 1.5 }"));
    assert_eq!(all[10..].to_vec(), all_tokens(""));
}

#[test]
fn symbol_kinds_are_distinct() {
    let table = symbol_table();
    assert_eq!(table.len(), 29);
    for (i, (spelling, kind)) in table.iter().enumerate() {
        assert_ne!(*kind, TokenKind::Unknown);
        for (other_spelling, other_kind) in &table[i + 1..] {
            assert_ne!(spelling, other_spelling);
            assert_ne!(kind, other_kind);
        }
    }
}

#[test]
fn symbols_are_read_back_whatever_their_order() {
    let table = symbol_table();
    let mut text = String::new();
    let mut expected = Vec::new();
    for (spelling, kind) in table.iter().rev() {
        if *spelling != "." {
            text.push_str(spelling);
            text.push('\t');
            expected.push(token(*kind, spelling));
        }
    }
    assert_eq!(all_tokens(&text), expected);
}
