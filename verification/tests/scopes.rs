use minicc::lexer::{Tag, TokenBase, TypeBase, WordBase};
use minicc::symbols::{Env, Id};

fn word(text: &str) -> WordBase {
    WordBase { token: TokenBase { tag: Tag::Id.code() }, lexeme: text.to_string() }
}

fn ty(name: &str, width: usize) -> TypeBase {
    TypeBase::new(WordBase { token: TokenBase { tag: Tag::Basic.code() }, lexeme: name.to_string() }, width)
}

fn id(name: &str, kind: &str, width: usize, offset: u64) -> Id {
    Id::new(word(name), ty(kind, width), offset)
}

#[test]
fn empty_scope_declares_nothing() {
    let env = Env::new(None);
    assert_eq!(env.get(&word("x")), None);
}

#[test]
fn declared_word_is_found() {
    let mut env = Env::new(None);
    env.put(word("x"), id("x", "int", 4, 0));
    assert_eq!(env.get(&word("x")), Some(id("x", "int", 4, 0)));
    assert_eq!(env.get(&word("y")), None);
}

#[test]
fn shadowing_then_restoration() {
    let mut outer = Env::new(None);
    outer.put(word("x"), id("x", "int", 4, 0));
    outer.put(word("y"), id("y", "bool", 1, 4));
    let mut inner = Env::new(Some(Box::new(outer)));
    assert_eq!(inner.get(&word("x")), Some(id("x", "int", 4, 0)));
    inner.put(word("x"), id("x", "float", 8, 5));
    assert_eq!(inner.get(&word("x")), Some(id("x", "float", 8, 5)));
    assert_eq!(inner.get(&word("y")), Some(id("y", "bool", 1, 4)));
    let outer = match inner.leave() {
        Some(e) => e,
        None => panic!("the outer scope is gone"),
    };
    assert_eq!(outer.get(&word("x")), Some(id("x", "int", 4, 0)));
    assert!(outer.leave().is_none());
}

#[test]
fn redeclaration_replaces_in_the_same_scope_only() {
    let mut outer = Env::new(None);
    outer.put(word("x"), id("x", "int", 4, 0));
    let mut inner = Env::new(Some(Box::new(outer)));
    inner.put(word("x"), id("x", "char", 1, 4));
    inner.put(word("x"), id("x", "bool", 1, 5));
    assert_eq!(inner.get(&word("x")), Some(id("x", "bool", 1, 5)));
    let outer = inner.leave().unwrap();
    assert_eq!(outer.get(&word("x")), Some(id("x", "int", 4, 0)));
}

#[test]
fn search_goes_through_every_enclosing_scope() {
    let mut a = Env::new(None);
    a.put(word("deep"), id("deep", "int", 4, 0));
    let b = Env::new(Some(Box::new(a)));
    let c = Env::new(Some(Box::new(b)));
    let d = Env::new(Some(Box::new(c)));
    assert_eq!(d.get(&word("deep")), Some(id("deep", "int", 4, 0)));
    assert_eq!(d.get(&word("none")), None);
}

#[test]
fn words_differ_by_tag_as_well_as_spelling() {
    let mut env = Env::new(None);
    env.put(word("x"), id("x", "int", 4, 0));
    let other = WordBase { token: TokenBase { tag: Tag::If.code() }, lexeme: "x".to_string() };
    assert_eq!(env.get(&other), None);
    assert!(word("x").same(&word("x")));
    assert!(!word("x").same(&other));
    assert!(!word("x").same(&word("y")));
}
