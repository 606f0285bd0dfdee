use simple_script_compiler::lexer::{tokenize, Lexer, Literal, Numeral, Token};

/// The tokens of `source`, up to the end of input.
fn tokens(source: &str) -> Vec<Token> {
    tokenize(source)
}

#[test]
fn tokenize_gives_what_the_lexer_gives() {
    for source in ["", "var x = 1;", "print(\"a\", -2.5) @ 1.2.3 y", "\"open", "a-b -c"] {
        let mut lexer = Lexer::new(source);
        let mut all = Vec::new();
        loop {
            match lexer.current_token() {
                Token::EOF => break,
                token => all.push(token.clone()),
            }
            lexer.advance();
        }
        assert_eq!(tokenize(source), all, "{:?}", source);
    }
    assert_eq!(tokenize("a-b -c").len(), 5);
}

fn num(text: &str) -> Token {
    Token::Literal(Literal::Number(Numeral::new(text).expect("a numeral")))
}

fn id(name: &str) -> Token {
    Token::Identifier(name.to_string())
}

fn text(s: &str) -> Token {
    Token::Literal(Literal::String(s.to_string()))
}

#[test]
fn numerals_keep_their_text_and_value() {
    for source in ["5", "-5", "5.", ".5", "-0.5", "-.5", "-5.", "007", "1234567890.0987654321", "0"] {
        let found = tokens(source);
        assert_eq!(found.len(), 1, "{}", source);
        match &found[0] {
            Token::Literal(Literal::Number(n)) => {
                assert_eq!(n.as_str(), source);
                let value: f64 = n.as_str().parse().expect("a numeral is a double");
                assert_eq!(value, source.parse::<f64>().unwrap());
            }
            other => panic!("{} gave {:?}", source, other),
        }
    }
}

#[test]
fn numeral_values_are_exact() {
    let value = |source: &str| -> f64 {
        match &tokens(source)[0] {
            Token::Literal(Literal::Number(n)) => n.as_str().parse().unwrap(),
            other => panic!("{} gave {:?}", source, other),
        }
    };
    assert_eq!(value(".5"), 0.5);
    assert_eq!(value("5."), 5.0);
    assert_eq!(value("-0.5"), -0.5);
    assert_eq!(value("3.14159"), 3.14159);
    assert_eq!(value("0.1"), 0.1);
    assert_eq!(value("-123"), -123.0);
}

#[test]
fn numeral_new_accepts_numerals_only() {
    for good in ["5", "-5", "5.", ".5", "-.5", "0.25", "10."] {
        let n = Numeral::new(good).expect(good);
        assert_eq!(n.as_str(), good);
        assert_eq!(n.clone(), n);
    }
    for bad in ["", ".", "-", "-.", "1.2.3", "..5", "1e5", "+1", "inf", "nan", "1 ", " 1", "--1", "1-", "a"] {
        assert!(Numeral::new(bad).is_none(), "{:?}", bad);
    }
}

#[test]
fn unrecognized_characters_are_transparent() {
    let with = tokens("var @ x # = $ 42 % ;");
    let without = tokens("var x = 42 ;");
    assert_eq!(with, without);
    assert_eq!(without, vec![Token::Var, id("x"), Token::Equals, num("42"), Token::SemiColon]);
    assert_eq!(tokens("@#$%^&!~?[]{}<>|\\:'`"), vec![]);
}

#[test]
fn punctuation_and_operators() {
    assert_eq!(
        tokens("=;(),+*/-"),
        vec![
            Token::Equals,
            Token::SemiColon,
            Token::LeftParen,
            Token::RightParen,
            Token::Comma,
            Token::Add,
            Token::Multiply,
            Token::Divide,
            Token::Subtract,
        ]
    );
}

#[test]
fn minus_is_contextual() {
    assert_eq!(tokens("a - b"), vec![id("a"), Token::Subtract, id("b")]);
    assert_eq!(tokens("a -5"), vec![id("a"), num("-5")]);
    assert_eq!(tokens("a-.5"), vec![id("a"), num("-.5")]);
    assert_eq!(tokens("-x"), vec![Token::Subtract, id("x")]);
    assert_eq!(tokens("- 5"), vec![Token::Subtract, num("5")]);
    assert_eq!(tokens("-"), vec![Token::Subtract]);
    assert_eq!(tokens("3-2"), vec![num("3"), num("-2")]);
}

#[test]
fn point_is_contextual() {
    assert_eq!(tokens(".25"), vec![num(".25")]);
    assert_eq!(tokens(". 5"), vec![num("5")]);
    assert_eq!(tokens(".x"), vec![id("x")]);
    assert_eq!(tokens("."), vec![]);
    assert_eq!(tokens("..5"), vec![num(".5")]);
}

#[test]
fn malformed_numbers_are_dropped_and_nothing_else() {
    assert_eq!(tokens("1.2.3;"), vec![Token::SemiColon]);
    assert_eq!(tokens("1.2.3 x"), vec![id("x")]);
    assert_eq!(tokens("1.2.3x y"), vec![id("x"), id("y")]);
    assert_eq!(tokens("1.2.3"), vec![]);
    assert_eq!(tokens("1..2;7"), vec![Token::SemiColon, num("7")]);
    assert_eq!(tokens(".5.;7"), vec![Token::SemiColon, num("7")]);
    assert_eq!(tokens("1.2.3\"s\""), vec![text("s")]);
    assert_eq!(tokens("-1.2.3;7"), vec![Token::Subtract, Token::SemiColon, num("7")]);
    assert_eq!(tokens("-."), vec![Token::Subtract]);
    assert_eq!(tokens("-.x y"), vec![Token::Subtract, id("x"), id("y")]);
    assert_eq!(tokens("-..5"), vec![Token::Subtract]);
}

#[test]
fn words_are_keywords_booleans_or_identifiers() {
    assert_eq!(
        tokens("var true false varx _a1 truely Var x_y_9 _"),
        vec![
            Token::Var,
            Token::Literal(Literal::Boolean(true)),
            Token::Literal(Literal::Boolean(false)),
            id("varx"),
            id("_a1"),
            id("truely"),
            id("Var"),
            id("x_y_9"),
            id("_"),
        ]
    );
    assert_eq!(tokens("a1b2(c)"), vec![id("a1b2"), Token::LeftParen, id("c"), Token::RightParen]);
}

#[test]
fn letters_digits_and_space_beyond_ascii() {
    assert_eq!(
        tokens("\u{e9}t\u{e9}1\u{a0}=\u{2003}\u{f1}\u{663};\t\u{b}\u{c}\r\nz"),
        vec![
            id("\u{e9}t\u{e9}1"),
            Token::Equals,
            id("\u{f1}\u{663}"),
            Token::SemiColon,
            id("z"),
        ]
    );
    // A digit beyond ASCII begins nothing.
    assert_eq!(tokens("\u{663} x"), vec![id("x")]);
}

#[test]
fn strings_run_to_the_next_quote_or_the_end() {
    assert_eq!(tokens("\"a b\" x"), vec![text("a b"), id("x")]);
    assert_eq!(tokens("\"\""), vec![text("")]);
    assert_eq!(tokens("\"unterminated ; 1"), vec![text("unterminated ; 1")]);
    assert_eq!(tokens("\""), vec![text("")]);
    assert_eq!(tokens("\"a\\\" b"), vec![text("a\\"), id("b")]);
    assert_eq!(tokens("\"line\nbreak\"+\"x\""), vec![text("line\nbreak"), Token::Add, text("x")]);
}

#[test]
fn end_of_input_is_stable() {
    let mut lexer = Lexer::new("  x  ");
    assert_eq!(lexer.current_token(), &id("x"));
    assert_eq!(lexer.current_token(), &id("x"));
    lexer.advance();
    assert_eq!(lexer.current_token(), &Token::EOF);
    lexer.advance();
    lexer.advance();
    assert_eq!(lexer.current_token(), &Token::EOF);
    let empty = Lexer::new("");
    assert_eq!(empty.current_token(), &Token::EOF);
    let blank = Lexer::new(" \n\t @ ");
    assert_eq!(blank.current_token(), &Token::EOF);
}

#[test]
fn a_numeral_is_one_token_whatever_follows() {
    for numeral in ["5", "-5", "5.", ".5", "-0.5", "-.5", "12.125"] {
        for behind in ["", ";", " ", ")", "+1", "x", "\"s\"", "-", "@", "\n7"] {
            let source = format!("{}{}", numeral, behind);
            let found = tokens(&source);
            match &found[0] {
                Token::Literal(Literal::Number(n)) => {
                    assert_eq!(n.as_str(), numeral, "{:?}", source);
                    let value: f64 = n.as_str().parse().unwrap();
                    assert_eq!(value, numeral.parse::<f64>().unwrap());
                }
                other => panic!("{:?} gave {:?}", source, other),
            }
            assert_eq!(found[1..], tokens(behind)[..], "{:?}", source);
        }
    }
}

#[test]
fn unrecognized_characters_between_tokens_change_nothing() {
    let plain = "var x = 42 ;\nprint ( \"a b\" , x - 1 , .5 ) ;\tvar y = \"open";
    let expected = tokens(plain);
    assert_eq!(expected.len(), 20);
    for junk in ['@', '#', '$', '%', '[', '?', '\u{20ac}'] {
        // Put the character, between blanks, in place of each white space
        // that stands outside a string literal.
        let mut changed = String::new();
        let mut in_string = false;
        for c in plain.chars() {
            if c == '"' {
                in_string = !in_string;
            }
            if c.is_whitespace() && !in_string {
                changed.push(' ');
                changed.push(junk);
                changed.push(' ');
            } else {
                changed.push(c);
            }
        }
        assert_ne!(changed, plain);
        assert_eq!(tokens(&changed), expected, "{:?}", changed);
    }
}
