//! The tokens of an input as one sequence, and what holds of it.

use vstd::prelude::*;
use crate::lexer::{
    and_spelling, digits_end, eq_spelling, is_blank, is_digit, is_letter, is_word_char,
    literal_fits, lookup, newlines, or_spelling, reserved_words, skip_blanks, spelling, table_after,
    table_ok, token_at, token_end, word_end, word_table, word_token, Tag, TokenView,
};

verus! {

/// One item of the token sequence.
pub enum Lexeme {
    /// A token and the line it stands on.
    Token(TokenView, u32),
    /// A literal that cannot be read, and the line it stands on.
    Bad(u32),
}

impl Lexeme {
    /// The token of the item; an unreadable literal counts as the end.
    pub open spec fn token(self) -> TokenView {
        match self {
            Lexeme::Token(t, _) => t,
            Lexeme::Bad(_) => TokenView::Eof,
        }
    }

    /// The line of the item.
    pub open spec fn line(self) -> u32 {
        match self {
            Lexeme::Token(_, l) => l,
            Lexeme::Bad(l) => l,
        }
    }

    /// Whether the item ends the sequence.
    pub open spec fn last(self) -> bool {
        self is Bad || self.token() is Eof
    }
}

/// From a position in range, skipping blanks stays in range and ends on a
/// byte that is no blank, or at the end.
pub proof fn lemma_skip_blanks(src: Seq<u8>, i: int)
    requires
        0 <= i <= src.len(),
    ensures
        i <= skip_blanks(src, i) <= src.len(),
        skip_blanks(src, i) < src.len() ==> !is_blank(src[skip_blanks(src, i)]),
    decreases src.len() - i,
{
    if i < src.len() && is_blank(src[i]) {
        lemma_skip_blanks(src, i + 1);
    }
}

/// From a position in range, a run of digits ends in range.
pub proof fn lemma_digits_end(src: Seq<u8>, i: int)
    requires
        0 <= i <= src.len(),
    ensures
        i <= digits_end(src, i) <= src.len(),
    decreases src.len() - i,
{
    if i < src.len() && is_digit(src[i]) {
        lemma_digits_end(src, i + 1);
    }
}

/// From a position in range, a word ends in range.
pub proof fn lemma_word_end(src: Seq<u8>, i: int)
    requires
        0 <= i <= src.len(),
    ensures
        i <= word_end(src, i) <= src.len(),
    decreases src.len() - i,
{
    if i < src.len() && is_word_char(src[i]) {
        lemma_word_end(src, i + 1);
    }
}

/// A token takes at least one byte and ends in range.
pub proof fn lemma_token_end(src: Seq<u8>, start: int)
    requires
        0 <= start < src.len(),
    ensures
        start < token_end(src, start) <= src.len(),
{
    lemma_digits_end(src, start + 1);
    lemma_word_end(src, start + 1);
    let e = digits_end(src, start);
    if is_digit(src[start]) && e < src.len() {
        lemma_digits_end(src, e + 1);
    }
}

/// A token inside the input is never the end marker.
pub proof fn lemma_token_not_eof(src: Seq<u8>, table: Seq<TokenView>, start: int)
    requires
        0 <= start < src.len(),
    ensures
        !(token_at(src, table, start) is Eof),
{
    let s = spelling(src, start, word_end(src, start));
    lemma_word_end(src, start + 1);
    lemma_lookup_in(table, s, 0);
    if is_letter(src[start]) {
        assert(s.len() >= 1);
        if let Some(w) = lookup(table, s, 0) {
            assert(w.spelling().len() >= 1);
        }
    }
}

/// The tokens from the position `cursor` on, with the table `table`, where
/// the token before stands on line `line`: each token with its line, up to
/// and including the end marker or the first literal that cannot be read.
pub open spec fn lex(src: Seq<u8>, cursor: int, table: Seq<TokenView>, line: u32) -> Seq<Lexeme>
    decreases src.len() - cursor,
    via lex_ends
{
    let start = skip_blanks(src, cursor);
    let here = (line + newlines(src, cursor, start)) as u32;
    if cursor < 0 || cursor > src.len() {
        Seq::empty()
    } else if !literal_fits(src, start) {
        seq![Lexeme::Bad(here)]
    } else if start >= src.len() {
        seq![Lexeme::Token(TokenView::Eof, here)]
    } else {
        seq![Lexeme::Token(token_at(src, table, start), here)] + lex(
            src,
            token_end(src, start),
            table_after(src, table, start),
            here,
        )
    }
}

#[via_fn]
proof fn lex_ends(src: Seq<u8>, cursor: int, table: Seq<TokenView>, line: u32) {
    if 0 <= cursor <= src.len() {
        lemma_skip_blanks(src, cursor);
        let start = skip_blanks(src, cursor);
        if start < src.len() {
            lemma_token_end(src, start);
        }
    }
}

/// The tokens of a whole input.
pub open spec fn tokens(src: Seq<u8>) -> Seq<Lexeme> {
    lex(src, 0, reserved_words(), 1)
}

/// Whether `toks` has the shape of a token sequence: it is not empty, its
/// last item ends it, and no item before does.
pub open spec fn stream_ok(toks: Seq<Lexeme>) -> bool {
    &&& toks.len() >= 1
    &&& toks.last().last()
    &&& forall|i: int| 0 <= i < toks.len() - 1 ==> !(#[trigger] toks[i]).last()
}

/// The tokens from a position in range have the shape of a token sequence,
/// and there is at most one for each byte left, and the end.
pub proof fn lemma_lex_shape(src: Seq<u8>, cursor: int, table: Seq<TokenView>, line: u32)
    requires
        0 <= cursor <= src.len(),
    ensures
        stream_ok(lex(src, cursor, table, line)),
        lex(src, cursor, table, line).len() <= src.len() - cursor + 1,
    decreases src.len() - cursor,
{
    lemma_skip_blanks(src, cursor);
    let start = skip_blanks(src, cursor);
    let here = (line + newlines(src, cursor, start)) as u32;
    if literal_fits(src, start) && start < src.len() {
        lemma_token_end(src, start);
        let rest = lex(src, token_end(src, start), table_after(src, table, start), here);
        lemma_lex_shape(src, token_end(src, start), table_after(src, table, start), here);
        let all = lex(src, cursor, table, line);
        assert(all =~= seq![Lexeme::Token(token_at(src, table, start), here)] + rest);
        assert(all.last() == rest.last());
        assert forall|i: int| 0 <= i < all.len() - 1 implies !(#[trigger] all[i]).last() by {
            if i > 0 {
                assert(all[i] == rest[i - 1]);
            } else {
                lemma_token_not_eof(src, table, start);
            }
        }
    }
}

/// An entry found in a table is an entry of the table.
pub proof fn lemma_lookup_in(table: Seq<TokenView>, s: Seq<char>, i: int)
    requires
        0 <= i,
    ensures
        match lookup(table, s, i) {
            Some(w) => exists|j: int| i <= j < table.len() && table[j] == w && w.spelling() == s,
            None => forall|j: int| i <= j < table.len() ==> (#[trigger] table[j]).spelling() != s,
        },
    decreases table.len() - i,
{
    if i < table.len() && table[i].spelling() != s {
        lemma_lookup_in(table, s, i + 1);
    }
}

/// With a table that starts with the reserved words and holds identifiers
/// behind them, a type name among the tokens is one of the four primitive
/// types, whose widths are at most 8.
pub proof fn lemma_type_width(src: Seq<u8>, table: Seq<TokenView>, start: int)
    requires
        table_ok(table),
    ensures
        token_at(src, table, start) matches TokenView::Type(_, _, w) ==> w <= 8,
        table_ok(table_after(src, table, start)),
{
    let s = spelling(src, start, word_end(src, start));
    lemma_lookup_in(table, s, 0);
    if let Some(w) = lookup(table, s, 0) {
        let j = choose|j: int| 0 <= j < table.len() && table[j] == w && w.spelling() == s;
        if j < reserved_words().len() {
            assert(table[j] == reserved_words()[j]);
        } else {
            assert(table[j].is_identifier());
        }
    } else {
        let t2 = word_table(table, s);
        assert forall|i: int| 0 <= i < reserved_words().len() implies t2[i]
            == #[trigger] reserved_words()[i] by {
            assert(table[i] == reserved_words()[i]);
        }
        assert forall|i: int| reserved_words().len() <= i < t2.len() implies (#[trigger] t2[i])
            .is_identifier() by {
            if i < table.len() {
                assert(table[i].is_identifier());
            }
        }
    }
}


/// On `&`, `|` or `=` the same character right behind it makes one operator
/// token of two characters; anything else behind it leaves a token of the
/// one character, and the character behind it is where the next token is
/// looked for.
pub proof fn lemma_operator_pair(src: Seq<u8>, table: Seq<TokenView>, start: int)
    requires
        0 <= start < src.len(),
        src[start] == 38 || src[start] == 124 || src[start] == 61,
    ensures
        start + 1 < src.len() && src[start + 1] == src[start] ==> token_end(src, start) == start + 2 && token_at(
            src,
            table,
            start,
        ) == (if src[start] == 38 {
            TokenView::Word(Tag::And.spec_code(), and_spelling())
        } else if src[start] == 124 {
            TokenView::Word(Tag::Or.spec_code(), or_spelling())
        } else {
            TokenView::Word(Tag::Eq_.spec_code(), eq_spelling())
        }),
        !(start + 1 < src.len() && src[start + 1] == src[start]) ==> token_end(src, start) == start + 1
            && token_at(src, table, start) == TokenView::Symbol(src[start] as u32),
{
}

/// Looking a spelling up in a table with one more entry at its end.
pub proof fn lemma_lookup_push(table: Seq<TokenView>, w: TokenView, s: Seq<char>, i: int)
    requires
        0 <= i <= table.len(),
    ensures
        lookup(table.push(w), s, i) == match lookup(table, s, i) {
            Some(x) => Some(x),
            None => if w.spelling() == s {
                Some(w)
            } else {
                None
            },
        },
    decreases table.len() - i,
{
    if i < table.len() {
        assert(table.push(w)[i] == table[i]);
        if table[i].spelling() != s {
            lemma_lookup_push(table, w, s, i + 1);
        }
    } else {
        assert(table.push(w)[i] == w);
        assert(lookup(table.push(w), s, i + 1).is_none());
    }
}

/// Words are interned: the word spelled `s` yields the same token, tag and
/// spelling, when it is seen again, also after any other word `o` was seen
/// in between.
pub proof fn lemma_interning(table: Seq<TokenView>, s: Seq<char>, o: Seq<char>)
    ensures
        word_token(word_table(table, s), s) == word_token(table, s),
        word_token(word_table(word_table(table, s), o), s) == word_token(table, s),
        word_table(word_table(table, s), s) == word_table(table, s),
{
    lemma_lookup_push(table, TokenView::Word(Tag::Id.spec_code(), s), s, 0);
    let t1 = word_table(table, s);
    lemma_lookup_push(t1, TokenView::Word(Tag::Id.spec_code(), o), s, 0);
}

/// A reserved word or type name never yields an identifier: with a table
/// that the tokenizer keeps, the word spelled like the reserved word number
/// `i` yields that reserved word.
pub proof fn lemma_reserved_word(table: Seq<TokenView>, i: int)
    requires
        table_ok(table),
        0 <= i < reserved_words().len(),
    ensures
        word_token(table, reserved_words()[i].spelling()) == reserved_words()[i],
        !reserved_words()[i].is_identifier(),
        word_table(table, reserved_words()[i].spelling()) == table,
{
    let r = reserved_words();
    let s = r[i].spelling();
    assert forall|j: int| 0 <= j < i implies (#[trigger] table[j]).spelling() != s by {
        assert(table[j] == r[j]);
        let a = r[j].spelling();
        if a.len() == s.len() {
            assert(a[0] != s[0] || a[1] != s[1]);
        }
    }
    assert(table[i] == r[i]);
    lemma_lookup_first(table, s, 0, i);
}

/// The entry found is the first one spelled so.
pub proof fn lemma_lookup_first(table: Seq<TokenView>, s: Seq<char>, from: int, i: int)
    requires
        0 <= from <= i < table.len(),
        table[i].spelling() == s,
        forall|j: int| from <= j < i ==> (#[trigger] table[j]).spelling() != s,
    ensures
        lookup(table, s, from) == Some(table[i]),
    decreases i - from,
{
    if from < i {
        lemma_lookup_first(table, s, from + 1, i);
    }
}

} // verus!
