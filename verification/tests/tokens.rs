use minicc::lexer::{Lexer, Num, Real, Tag, Token, TokenBase, TypeBase, Word, WordBase};

fn lexer(text: &str) -> Lexer {
    Lexer::new(text.as_bytes().to_vec())
}

fn word(tag: Tag, text: &str) -> Token {
    Token::Word(Word::Word(WordBase { token: TokenBase { tag: tag.code() }, lexeme: text.to_string() }))
}

fn symbol(c: char) -> Token {
    Token::Token(TokenBase { tag: c as u32 })
}

#[test]
fn two_character_operators() {
    assert_eq!(lexer("&&").scan(), Ok(word(Tag::And, "&&")));
    assert_eq!(lexer("||").scan(), Ok(word(Tag::Or, "||")));
    assert_eq!(lexer("==").scan(), Ok(word(Tag::Eq_, "==")));
}

#[test]
fn lone_operator_character_keeps_the_next_one() {
    let mut lex = lexer("&x |y =z =");
    assert_eq!(lex.scan(), Ok(symbol('&')));
    assert_eq!(lex.scan(), Ok(word(Tag::Id, "x")));
    assert_eq!(lex.scan(), Ok(symbol('|')));
    assert_eq!(lex.scan(), Ok(word(Tag::Id, "y")));
    assert_eq!(lex.scan(), Ok(symbol('=')));
    assert_eq!(lex.scan(), Ok(word(Tag::Id, "z")));
    assert_eq!(lex.scan(), Ok(symbol('=')));
    assert_eq!(lex.scan(), Ok(Token::Eof));
}

#[test]
fn three_equal_signs() {
    let mut lex = lexer("===");
    assert_eq!(lex.scan(), Ok(word(Tag::Eq_, "==")));
    assert_eq!(lex.scan(), Ok(symbol('=')));
    assert_eq!(lex.scan(), Ok(Token::Eof));
}

#[test]
fn integer_then_non_digit() {
    let mut lex = lexer("123;");
    assert_eq!(lex.scan(), Ok(Token::Num(Num::new(123))));
    assert_eq!(lex.scan(), Ok(symbol(';')));
}

#[test]
fn integer_at_end_of_input() {
    let mut lex = lexer("123");
    assert_eq!(lex.scan(), Ok(Token::Num(Num { value: 123 })));
    assert_eq!(lex.scan(), Ok(Token::Eof));
    assert_eq!(lex.scan(), Ok(Token::Eof));
}

fn as_float(r: &Real) -> f64 {
    let mut x = r.whole as f64;
    let mut d = 10.0;
    for digit in &r.frac {
        x += *digit as f64 / d;
        d *= 10.0;
    }
    x
}

#[test]
fn literal_with_fraction() {
    let mut lex = lexer("12.5");
    match lex.scan() {
        Ok(Token::Real(r)) => {
            assert_eq!(r, Real::new(12, vec![5]));
            assert!((as_float(&r) - 12.5).abs() < 1e-9);
        }
        other => panic!("{:?}", other),
    }
    assert_eq!(lex.scan(), Ok(Token::Eof));
}

#[test]
fn literal_with_point_and_no_fraction() {
    let mut lex = lexer("12.x");
    match lex.scan() {
        Ok(Token::Real(r)) => {
            assert_eq!(r, Real::new(12, vec![]));
            assert!((as_float(&r) - 12.0).abs() < 1e-9);
        }
        other => panic!("{:?}", other),
    }
    assert_eq!(lex.scan(), Ok(word(Tag::Id, "x")));
}

#[test]
fn fraction_digits_in_order() {
    let mut lex = lexer("3.14159 ");
    assert_eq!(lex.scan(), Ok(Token::Real(Real::new(3, vec![1, 4, 1, 5, 9]))));
}

#[test]
fn largest_integer_fits() {
    assert_eq!(lexer("4294967295").scan(), Ok(Token::Num(Num::new(4294967295))));
}

#[test]
fn integer_too_large_is_an_error() {
    let mut lex = lexer("\n4294967296 x");
    let e = lex.scan().unwrap_err();
    assert_eq!(e.line, 2);
    assert_eq!(lex.line_num(), 1);
    assert!(lexer("99999999999999999999.5").scan().is_err());
}

#[test]
fn same_identifier_twice() {
    let mut lex = lexer("count count");
    let a = lex.scan().unwrap();
    let b = lex.scan().unwrap();
    assert_eq!(a, b);
    assert_eq!(a, word(Tag::Id, "count"));
    assert_eq!(a.get_tag(), Some(Tag::Id.code()));
}

#[test]
fn reserved_words_are_not_identifiers() {
    let mut lex = lexer("if else while break true false iff");
    assert_eq!(lex.scan(), Ok(word(Tag::If, "if")));
    assert_eq!(lex.scan(), Ok(word(Tag::Else, "else")));
    assert_eq!(lex.scan(), Ok(word(Tag::While, "while")));
    assert_eq!(lex.scan(), Ok(word(Tag::Break, "break")));
    assert_eq!(lex.scan(), Ok(word(Tag::True, "true")));
    assert_eq!(lex.scan(), Ok(word(Tag::False, "false")));
    assert_eq!(lex.scan(), Ok(word(Tag::Id, "iff")));
}

#[test]
fn type_names_with_widths() {
    let mut lex = lexer("int float char bool");
    for (name, width) in [("int", 4usize), ("float", 8), ("char", 1), ("bool", 1)] {
        match lex.scan() {
            Ok(Token::Word(Word::Type(t))) => {
                assert_eq!(t.word.lexeme, name);
                assert_eq!(t.word.token.tag, Tag::Basic.code());
                assert_eq!(t.get_width(), width);
            }
            other => panic!("{:?}", other),
        }
    }
}

#[test]
fn type_base_keeps_width() {
    let w = WordBase { token: TokenBase { tag: Tag::Basic.code() }, lexeme: "long".to_string() };
    let t = TypeBase::new(w.clone(), 16);
    assert_eq!(t.get_width(), 16);
    assert_eq!(t.word, w);
}

#[test]
fn single_character_symbols() {
    let mut lex = lexer("{}();+-*/<>!");
    for c in "{}();+-*/<>!".chars() {
        assert_eq!(lex.scan(), Ok(symbol(c)));
    }
    assert_eq!(lex.scan(), Ok(Token::Eof));
}

#[test]
fn relational_pairs_are_two_tokens() {
    let mut lex = lexer("<= >= !=");
    for c in ['<', '=', '>', '=', '!', '='] {
        assert_eq!(lex.scan(), Ok(symbol(c)));
    }
}

#[test]
fn lines_are_counted() {
    let mut lex = lexer("a\n\n  b\t\nc");
    assert_eq!(lex.line_num(), 1);
    lex.scan().unwrap();
    assert_eq!(lex.line_num(), 1);
    lex.scan().unwrap();
    assert_eq!(lex.line_num(), 3);
    lex.scan().unwrap();
    assert_eq!(lex.line_num(), 4);
}

#[test]
fn identifier_with_digits() {
    let mut lex = lexer("x1y2 3z");
    assert_eq!(lex.scan(), Ok(word(Tag::Id, "x1y2")));
    assert_eq!(lex.scan(), Ok(Token::Num(Num::new(3))));
    assert_eq!(lex.scan(), Ok(word(Tag::Id, "z")));
}

#[test]
fn tags_lie_above_character_codes() {
    for t in [Tag::And, Tag::Basic, Tag::Break, Tag::Else, Tag::Eq_, Tag::False, Tag::Id, Tag::If,
        Tag::Num, Tag::Or, Tag::Real, Tag::True, Tag::While]
    {
        assert!(t.code() >= 256);
    }
    assert_eq!(Tag::And.code(), 256);
    assert_eq!(Token::Eof.get_tag(), None);
    assert_eq!(Token::Num(Num::new(1)).get_tag(), Some(Tag::Num.code()));
    assert_eq!(Token::Real(Real::new(1, vec![])).get_tag(), Some(Tag::Real.code()));
}

#[test]
fn token_text() {
    assert_eq!(symbol('{').to_string(), "{");
    assert_eq!(word(Tag::Id, "abc").to_string(), "abc");
    assert_eq!(Token::Num(Num::new(0)).to_string(), "0");
    assert_eq!(Token::Num(Num::new(4294967295)).to_string(), "4294967295");
    assert_eq!(Token::Real(Real::new(12, vec![5, 0])).to_string(), "12.50");
    assert_eq!(Token::Real(Real::new(7, vec![])).to_string(), "7.");
}

#[test]
fn operator_words() {
    assert_eq!(Token::Word(Word::Word(minicc::lexer::word_and())), word(Tag::And, "&&"));
    assert_eq!(Token::Word(Word::Word(minicc::lexer::word_or())), word(Tag::Or, "||"));
    assert_eq!(Token::Word(Word::Word(minicc::lexer::word_eq())), word(Tag::Eq_, "=="));
    assert_eq!(TokenBase::new('{').tag, 123);
}

#[test]
fn latin_letters_are_word_characters() {
    let mut lex = Lexer::new(vec![0xE9, b'a', b' ', 0xD7]);
    assert_eq!(lex.scan(), Ok(word(Tag::Id, "\u{e9}a")));
    assert_eq!(lex.scan(), Ok(Token::Token(TokenBase { tag: 0xD7 })));
}
