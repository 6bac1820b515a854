//! Tokens and the tokenizer.

use vstd::prelude::*;

verus! {

/// Kinds of token other than single-character symbols such as `{` or `;`.
#[derive(Clone, Copy, Debug, PartialEq, Eq, Structural)]
pub enum Tag {
    And,
    Else,
    Eq_,
    Id,
    If,
    Num,
    Or,
    Real,
    Basic,
    Break,
    False,
    True,
    While,
}

impl Tag {
    /// The number by which the grammar dispatches on this kind. All of them
    /// lie above every single-byte character code.
    pub open spec fn spec_code(self) -> u32 {
        match self {
            Tag::And => 256,
            Tag::Else => 257,
            Tag::Eq_ => 258,
            Tag::Id => 259,
            Tag::If => 260,
            Tag::Num => 261,
            Tag::Or => 262,
            Tag::Real => 263,
            Tag::Basic => 264,
            Tag::Break => 265,
            Tag::False => 266,
            Tag::True => 267,
            Tag::While => 268,
        }
    }

    #[verifier::when_used_as_spec(spec_code)]
    pub fn code(self) -> (c: u32)
        ensures
            c == self.spec_code(),
    {
        match self {
            Tag::And => 256,
            Tag::Else => 257,
            Tag::Eq_ => 258,
            Tag::Id => 259,
            Tag::If => 260,
            Tag::Num => 261,
            Tag::Or => 262,
            Tag::Real => 263,
            Tag::Basic => 264,
            Tag::Break => 265,
            Tag::False => 266,
            Tag::True => 267,
            Tag::While => 268,
        }
    }
}

/// The part every token has: the tag the grammar dispatches on.
#[derive(Clone, Copy, Debug, PartialEq, Eq, Structural)]
pub struct TokenBase {
    pub tag: u32,
}

impl TokenBase {
    /// The token of a single-character symbol: its tag is the character's code.
    pub fn new(c: char) -> (t: TokenBase)
        ensures
            t.tag == c as u32,
    {
        TokenBase { tag: c as u32 }
    }
}

/// A tag together with a spelling: operators, reserved words and identifiers.
#[derive(Debug, PartialEq, Eq)]
pub struct WordBase {
    pub token: TokenBase,
    pub lexeme: String,
}

impl View for WordBase {
    type V = (u32, Seq<char>);

    open spec fn view(&self) -> (u32, Seq<char>) {
        (self.token.tag, self.lexeme@)
    }
}

impl Clone for WordBase {
    fn clone(&self) -> (w: WordBase)
        ensures
            w@ == self@,
    {
        WordBase { token: TokenBase { tag: self.token.tag }, lexeme: self.lexeme.clone() }
    }
}

impl WordBase {
    /// Whether two words have the same tag and the same spelling.
    pub fn same(&self, other: &WordBase) -> (b: bool)
        ensures
            b == (self@ == other@),
    {
        self.token.tag == other.token.tag && self.lexeme == other.lexeme
    }
}

/// The spelling `&&`.
pub open spec fn and_spelling() -> Seq<char> {
    seq!['&', '&']
}

/// The spelling `||`.
pub open spec fn or_spelling() -> Seq<char> {
    seq!['|', '|']
}

/// The spelling `==`.
pub open spec fn eq_spelling() -> Seq<char> {
    seq!['=', '=']
}

/// Appends one character to a string.
///
/// Wraps `String::push`, which adds the given character to the end of the
/// string and leaves what was there unchanged.
#[verifier::external_body]
fn push_char(s: &mut String, c: char)
    ensures
        final(s)@ == old(s)@.push(c),
{
    s.push(c)
}

/// The word for the operator `&&`.
pub fn word_and() -> (w: WordBase)
    ensures
        w@ == (Tag::And.spec_code(), and_spelling()),
{
    let mut s = String::new();
    push_char(&mut s, '&');
    push_char(&mut s, '&');
    assert(s@ =~= and_spelling());
    WordBase { token: TokenBase { tag: Tag::And.code() }, lexeme: s }
}

/// The word for the operator `||`.
pub fn word_or() -> (w: WordBase)
    ensures
        w@ == (Tag::Or.spec_code(), or_spelling()),
{
    let mut s = String::new();
    push_char(&mut s, '|');
    push_char(&mut s, '|');
    assert(s@ =~= or_spelling());
    WordBase { token: TokenBase { tag: Tag::Or.code() }, lexeme: s }
}

/// The word for the operator `==`.
pub fn word_eq() -> (w: WordBase)
    ensures
        w@ == (Tag::Eq_.spec_code(), eq_spelling()),
{
    let mut s = String::new();
    push_char(&mut s, '=');
    push_char(&mut s, '=');
    assert(s@ =~= eq_spelling());
    WordBase { token: TokenBase { tag: Tag::Eq_.code() }, lexeme: s }
}

/// An integer literal.
#[derive(Clone, Copy, Debug, PartialEq, Eq, Structural)]
pub struct Num {
    pub value: u32,
}

impl Num {
    pub fn new(v: u32) -> (n: Num)
        ensures
            n.value == v,
    {
        Num { value: v }
    }
}

/// A literal with a decimal point, kept exactly: the digits before the point
/// as a number, and the digits after it one by one. Fraction digit `i`,
/// counted from one, stands for `digit / 10^i`.
#[derive(Debug, PartialEq, Eq)]
pub struct Real {
    pub whole: u32,
    pub frac: Vec<u8>,
}

impl Real {
    pub fn new(whole: u32, frac: Vec<u8>) -> (r: Real)
        ensures
            r.whole == whole,
            r.frac@ == frac@,
    {
        Real { whole, frac }
    }
}

impl Clone for Real {
    fn clone(&self) -> (r: Real)
        ensures
            r.whole == self.whole,
            r.frac@ == self.frac@,
    {
        Real { whole: self.whole, frac: self.frac.clone() }
    }
}

/// A primitive type: its name and the bytes one value of it takes.
#[derive(Debug, PartialEq, Eq)]
pub struct TypeBase {
    pub word: WordBase,
    pub width: usize,
}

impl TypeBase {
    pub open spec fn spec_width(&self) -> usize {
        self.width
    }

    pub fn new(w: WordBase, wid: usize) -> (t: TypeBase)
        ensures
            t.word@ == w@,
            t.spec_width() == wid,
    {
        TypeBase { word: w, width: wid }
    }

    #[verifier::when_used_as_spec(spec_width)]
    pub fn get_width(&self) -> (w: usize)
        ensures
            w == self.spec_width(),
    {
        self.width
    }
}

impl Clone for TypeBase {
    fn clone(&self) -> (t: TypeBase)
        ensures
            t.word@ == self.word@,
            t.spec_width() == self.spec_width(),
    {
        TypeBase { word: self.word.clone(), width: self.width }
    }
}

/// What a token is, as a plain value.
pub enum TokenView {
    /// A single-character symbol, by its character code.
    Symbol(u32),
    /// An operator, reserved word or identifier: tag and spelling.
    Word(u32, Seq<char>),
    /// A type name: tag, spelling and width.
    Type(u32, Seq<char>, usize),
    /// An integer literal.
    Num(u32),
    /// A literal with a decimal point: whole part and fraction digits.
    Real(u32, Seq<u8>),
    /// The end of the input.
    Eof,
}

impl TokenView {
    /// The tag the grammar dispatches on; the end of input has none.
    pub open spec fn tag(self) -> Option<u32> {
        match self {
            TokenView::Symbol(t) => Some(t),
            TokenView::Word(t, _) => Some(t),
            TokenView::Type(t, _, _) => Some(t),
            TokenView::Num(_) => Some(Tag::Num.spec_code()),
            TokenView::Real(_, _) => Some(Tag::Real.spec_code()),
            TokenView::Eof => None,
        }
    }
}

/// A word of the language: plain, or the name of a type.
#[derive(Debug, PartialEq, Eq)]
pub enum Word {
    Word(WordBase),
    Type(TypeBase),
}

impl View for Word {
    type V = TokenView;

    open spec fn view(&self) -> TokenView {
        match self {
            Word::Word(w) => TokenView::Word(w.token.tag, w.lexeme@),
            Word::Type(t) => TokenView::Type(t.word.token.tag, t.word.lexeme@, t.spec_width()),
        }
    }
}

impl Clone for Word {
    fn clone(&self) -> (w: Word)
        ensures
            w@ == self@,
    {
        match self {
            Word::Word(x) => Word::Word(x.clone()),
            Word::Type(t) => Word::Type(t.clone()),
        }
    }
}

/// One token of the input.
#[derive(Debug, PartialEq, Eq)]
pub enum Token {
    Token(TokenBase),
    Word(Word),
    Num(Num),
    Real(Real),
    Eof,
}

impl View for Token {
    type V = TokenView;

    open spec fn view(&self) -> TokenView {
        match self {
            Token::Token(t) => TokenView::Symbol(t.tag),
            Token::Word(w) => w@,
            Token::Num(n) => TokenView::Num(n.value),
            Token::Real(r) => TokenView::Real(r.whole, r.frac@),
            Token::Eof => TokenView::Eof,
        }
    }
}

impl Clone for Token {
    fn clone(&self) -> (t: Token)
        ensures
            t@ == self@,
    {
        match self {
            Token::Token(b) => Token::Token(*b),
            Token::Word(w) => Token::Word(w.clone()),
            Token::Num(n) => Token::Num(*n),
            Token::Real(r) => Token::Real(r.clone()),
            Token::Eof => Token::Eof,
        }
    }
}

impl Token {
    /// The tag the grammar dispatches on; the end of input has none.
    pub fn get_tag(&self) -> (t: Option<u32>)
        ensures
            t == self@.tag(),
    {
        match self {
            Token::Token(a) => Some(a.tag),
            Token::Word(b) => match b {
                Word::Word(x) => Some(x.token.tag),
                Word::Type(y) => Some(y.word.token.tag),
            },
            Token::Num(_) => Some(Tag::Num.code()),
            Token::Real(_) => Some(Tag::Real.code()),
            Token::Eof => None,
        }
    }
}


impl TokenView {
    /// The spelling of a word or type name; other tokens have none.
    pub open spec fn spelling(self) -> Seq<char> {
        match self {
            TokenView::Word(_, s) => s,
            TokenView::Type(_, s, _) => s,
            _ => Seq::empty(),
        }
    }

    /// A word tagged as an identifier.
    pub open spec fn is_identifier(self) -> bool {
        match self {
            TokenView::Word(t, _) => t == Tag::Id.spec_code(),
            _ => false,
        }
    }
}

/// The decimal digits of `v`, most significant first.
pub open spec fn decimal_text(v: nat) -> Seq<char>
    decreases v,
{
    if v < 10 {
        seq![(48 + v) as char]
    } else {
        decimal_text(v / 10).push((48 + v % 10) as char)
    }
}

/// Whether every item is the value of a digit.
pub open spec fn all_digits(ds: Seq<u8>) -> bool {
    forall|i: int| 0 <= i < ds.len() ==> (#[trigger] ds[i]) < 10
}

/// The characters of the digits `ds`, given by value.
pub open spec fn digit_text(ds: Seq<u8>) -> Seq<char> {
    Seq::new(ds.len(), |i: int| (48 + ds[i]) as char)
}

impl TokenView {
    /// Whether the token has a text: a symbol must be a single-byte
    /// character, each fraction digit a digit, and the end marker has none.
    pub open spec fn printable(self) -> bool {
        match self {
            TokenView::Symbol(t) => t < 256,
            TokenView::Real(_, f) => all_digits(f),
            TokenView::Eof => false,
            _ => true,
        }
    }

    /// The token as text: a symbol is its character, a word its spelling,
    /// an integer its decimal digits, and a literal with a fraction its
    /// whole part, a point and the fraction digits. The end marker has no
    /// text.
    pub open spec fn text(self) -> Seq<char>
        recommends
            self.printable(),
    {
        match self {
            TokenView::Symbol(t) => seq![t as char],
            TokenView::Word(_, s) => s,
            TokenView::Type(_, s, _) => s,
            TokenView::Num(v) => decimal_text(v as nat),
            TokenView::Real(w, f) => decimal_text(w as nat).push('.') + digit_text(f),
            TokenView::Eof => Seq::empty(),
        }
    }
}

/// Appends the decimal digits of `v` to `s`.
fn push_decimal(s: &mut String, v: u32)
    ensures
        final(s)@ == old(s)@ + decimal_text(v as nat),
    decreases v,
{
    if v >= 10 {
        push_decimal(s, v / 10);
    }
    let d: u8 = (v % 10) as u8;
    push_char(s, (48 + d) as char);
    assert(s@ =~= old(s)@ + decimal_text(v as nat));
}

impl Token {
    /// The token as text, for diagnostics. Each fraction digit must be a
    /// digit, and a symbol a single-byte character; the end marker has no
    /// text to give.
    pub fn to_string(&self) -> (s: String)
        requires
            self@.printable(),
        ensures
            s@ == self@.text(),
    {
        match self {
            Token::Token(a) => {
                let mut s = String::new();
                push_char(&mut s, (a.tag as u8) as char);
                assert(s@ =~= self@.text());
                s
            },
            Token::Word(b) => match b {
                Word::Word(x) => x.lexeme.clone(),
                Word::Type(y) => y.word.lexeme.clone(),
            },
            Token::Num(c) => {
                let mut s = String::new();
                push_decimal(&mut s, c.value);
                assert(s@ =~= self@.text());
                s
            },
            Token::Real(d) => {
                let mut s = String::new();
                push_decimal(&mut s, d.whole);
                push_char(&mut s, '.');
                let ghost head = s@;
                let mut i: usize = 0;
                proof {
                    let f = d.frac@;
                    assert(self@ == TokenView::Real(d.whole, f));
                    assert(s@ =~= head + digit_text(f.subrange(0, 0)));
                }
                while i < d.frac.len()
                    invariant
                        i <= d.frac.len(),
                        all_digits(d.frac@),
                        s@ == head + digit_text(d.frac@.subrange(0, i as int)),
                    decreases d.frac.len() - i,
                {
                    push_char(&mut s, (48 + d.frac[i]) as char);
                    i += 1;
                    assert(s@ =~= head + digit_text(d.frac@.subrange(0, i as int)));
                }
                assert(d.frac@.subrange(0, i as int) =~= d.frac@);
                assert(head =~= decimal_text(d.whole as nat).push('.'));
                s
            },
            Token::Eof => String::new(),
        }
    }
}

/// Space, tab or newline.
pub open spec fn is_blank(c: u8) -> bool {
    c == 32 || c == 9 || c == 10
}

/// A decimal digit.
pub open spec fn is_digit(c: u8) -> bool {
    48 <= c <= 57
}

/// Whether a character beyond ASCII counts as alphabetic.
pub uninterp spec fn alphabetic(c: char) -> bool;

/// Whether a character is alphabetic.
///
/// Wraps `char::is_alphabetic`, whose answer depends on the character alone.
#[verifier::external_body]
fn char_is_alphabetic(c: char) -> (r: bool)
    ensures
        r == alphabetic(c),
{
    c.is_alphabetic()
}

/// A byte that may start a word: in ASCII the letters `A` to `Z` and `a` to
/// `z`; above ASCII the bytes whose character is alphabetic.
pub open spec fn is_letter(c: u8) -> bool {
    if c < 128 {
        65 <= c <= 90 || 97 <= c <= 122
    } else {
        alphabetic(c as char)
    }
}

/// A byte that may continue a word.
pub open spec fn is_word_char(c: u8) -> bool {
    is_letter(c) || is_digit(c)
}

/// The first position at or after `i` that holds no blank.
pub open spec fn skip_blanks(src: Seq<u8>, i: int) -> int
    decreases src.len() - i,
{
    if 0 <= i < src.len() && is_blank(src[i]) {
        skip_blanks(src, i + 1)
    } else {
        i
    }
}

/// The first position at or after `i` that holds no digit.
pub open spec fn digits_end(src: Seq<u8>, i: int) -> int
    decreases src.len() - i,
{
    if 0 <= i < src.len() && is_digit(src[i]) {
        digits_end(src, i + 1)
    } else {
        i
    }
}

/// The first position at or after `i` that holds neither letter nor digit.
pub open spec fn word_end(src: Seq<u8>, i: int) -> int
    decreases src.len() - i,
{
    if 0 <= i < src.len() && is_word_char(src[i]) {
        word_end(src, i + 1)
    } else {
        i
    }
}

/// The number of newlines in `src[i..j]`.
pub open spec fn newlines(src: Seq<u8>, i: int, j: int) -> nat
    decreases j - i,
{
    if j <= i {
        0
    } else {
        newlines(src, i, j - 1) + if src[j - 1] == 10 { 1nat } else { 0nat }
    }
}

/// The number that the digits `src[i..j]` spell.
pub open spec fn decimal(src: Seq<u8>, i: int, j: int) -> nat
    decreases j - i,
{
    if j <= i {
        0
    } else {
        10 * decimal(src, i, j - 1) + (src[j - 1] - 48) as nat
    }
}

/// The digits `src[i..j]`, each as its value.
pub open spec fn digit_values(src: Seq<u8>, i: int, j: int) -> Seq<u8> {
    Seq::new((j - i) as nat, |k: int| (src[i + k] - 48) as u8)
}

/// The bytes `src[i..j]` as characters.
pub open spec fn spelling(src: Seq<u8>, i: int, j: int) -> Seq<char> {
    Seq::new((j - i) as nat, |k: int| src[i + k] as char)
}

/// The first entry of `table` at or after index `i` that is spelled `s`.
pub open spec fn lookup(table: Seq<TokenView>, s: Seq<char>, i: int) -> Option<TokenView>
    decreases table.len() - i,
{
    if i < 0 || i >= table.len() {
        None
    } else if table[i].spelling() == s {
        Some(table[i])
    } else {
        lookup(table, s, i + 1)
    }
}

/// The words every table starts with: the reserved words, the two truth
/// values, and the names of the primitive types with their widths.
pub open spec fn reserved_words() -> Seq<TokenView> {
    seq![
        TokenView::Word(Tag::If.spec_code(), seq!['i', 'f']),
        TokenView::Word(Tag::Else.spec_code(), seq!['e', 'l', 's', 'e']),
        TokenView::Word(Tag::While.spec_code(), seq!['w', 'h', 'i', 'l', 'e']),
        TokenView::Word(Tag::Break.spec_code(), seq!['b', 'r', 'e', 'a', 'k']),
        TokenView::Word(Tag::True.spec_code(), seq!['t', 'r', 'u', 'e']),
        TokenView::Word(Tag::False.spec_code(), seq!['f', 'a', 'l', 's', 'e']),
        TokenView::Type(Tag::Basic.spec_code(), seq!['i', 'n', 't'], 4),
        TokenView::Type(Tag::Basic.spec_code(), seq!['f', 'l', 'o', 'a', 't'], 8),
        TokenView::Type(Tag::Basic.spec_code(), seq!['c', 'h', 'a', 'r'], 1),
        TokenView::Type(Tag::Basic.spec_code(), seq!['b', 'o', 'o', 'l'], 1),
    ]
}

/// A table as the tokenizer keeps it: it starts with the reserved words, and
/// every later entry is an identifier.
pub open spec fn table_ok(table: Seq<TokenView>) -> bool {
    &&& table.len() >= reserved_words().len()
    &&& forall|i: int| 0 <= i < reserved_words().len() ==> table[i] == #[trigger] reserved_words()[i]
    &&& forall|i: int|
        reserved_words().len() <= i < table.len() ==> (#[trigger] table[i]).is_identifier()
}

/// The token that the word spelled `s` yields with the table `table`: the
/// entry of that spelling, or else a new identifier.
pub open spec fn word_token(table: Seq<TokenView>, s: Seq<char>) -> TokenView {
    match lookup(table, s, 0) {
        Some(w) => w,
        None => TokenView::Word(Tag::Id.spec_code(), s),
    }
}

/// The table after the word spelled `s` was seen: a new identifier is added
/// at the end, a known word changes nothing.
pub open spec fn word_table(table: Seq<TokenView>, s: Seq<char>) -> Seq<TokenView> {
    match lookup(table, s, 0) {
        Some(_) => table,
        None => table.push(TokenView::Word(Tag::Id.spec_code(), s)),
    }
}

/// Whether the token that starts at `start` can be given: an integer part
/// must fit in 32 bits.
pub open spec fn literal_fits(src: Seq<u8>, start: int) -> bool {
    0 <= start < src.len() && is_digit(src[start]) ==> decimal(src, start, digits_end(src, start))
        <= u32::MAX
}

/// Where the token that starts at `start` ends. `start` holds no blank.
pub open spec fn token_end(src: Seq<u8>, start: int) -> int {
    let c = src[start];
    if start >= src.len() {
        start
    } else if c == 38 || c == 124 || c == 61 {
        if start + 1 < src.len() && src[start + 1] == c {
            start + 2
        } else {
            start + 1
        }
    } else if is_digit(c) {
        let e = digits_end(src, start);
        if e < src.len() && src[e] == 46 {
            digits_end(src, e + 1)
        } else {
            e
        }
    } else if is_letter(c) {
        word_end(src, start)
    } else {
        start + 1
    }
}

/// The token that starts at `start`, with the table `table`. `start` holds no
/// blank; past the end of the input stands the end marker.
pub open spec fn token_at(src: Seq<u8>, table: Seq<TokenView>, start: int) -> TokenView {
    let c = src[start];
    if start >= src.len() {
        TokenView::Eof
    } else if c == 38 || c == 124 || c == 61 {
        if start + 1 < src.len() && src[start + 1] == c {
            if c == 38 {
                TokenView::Word(Tag::And.spec_code(), and_spelling())
            } else if c == 124 {
                TokenView::Word(Tag::Or.spec_code(), or_spelling())
            } else {
                TokenView::Word(Tag::Eq_.spec_code(), eq_spelling())
            }
        } else {
            TokenView::Symbol(c as u32)
        }
    } else if is_digit(c) {
        let e = digits_end(src, start);
        let v = decimal(src, start, e) as u32;
        if e < src.len() && src[e] == 46 {
            TokenView::Real(v, digit_values(src, e + 1, digits_end(src, e + 1)))
        } else {
            TokenView::Num(v)
        }
    } else if is_letter(c) {
        word_token(table, spelling(src, start, word_end(src, start)))
    } else {
        TokenView::Symbol(c as u32)
    }
}

/// The table after the token that starts at `start` was given.
pub open spec fn table_after(src: Seq<u8>, table: Seq<TokenView>, start: int) -> Seq<TokenView> {
    let c = src[start];
    if 0 <= start < src.len() && !(c == 38 || c == 124 || c == 61) && !is_digit(c) && is_letter(c) {
        word_table(table, spelling(src, start, word_end(src, start)))
    } else {
        table
    }
}

/// A literal whose integer part does not fit in 32 bits.
#[derive(Clone, Copy, Debug, PartialEq, Eq, Structural)]
pub struct LexError {
    /// The line the literal stands on.
    pub line: u32,
}


/// There are at most as many newlines as bytes.
pub proof fn lemma_newlines_bound(src: Seq<u8>, i: int, j: int)
    requires
        i <= j,
    ensures
        newlines(src, i, j) <= j - i,
    decreases j - i,
{
    if i < j {
        lemma_newlines_bound(src, i, j - 1);
    }
}

/// Newlines are counted piece by piece.
pub proof fn lemma_newlines_split(src: Seq<u8>, i: int, j: int, k: int)
    requires
        i <= j <= k,
    ensures
        newlines(src, i, k) == newlines(src, i, j) + newlines(src, j, k),
    decreases k - j,
{
    if j < k {
        lemma_newlines_split(src, i, j, k - 1);
    }
}

/// The end of the digits that start at `start`, and the number they spell
/// where it fits in 32 bits.
fn scan_digits(src: &Vec<u8>, start: usize) -> (r: (usize, Option<u32>))
    requires
        start <= src.len(),
    ensures
        r.0 == digits_end(src@, start as int),
        start <= r.0 <= src.len(),
        decimal(src@, start as int, r.0 as int) <= u32::MAX ==> r.1 == Some(
            decimal(src@, start as int, r.0 as int) as u32,
        ),
        decimal(src@, start as int, r.0 as int) > u32::MAX ==> r.1.is_none(),
        newlines(src@, start as int, r.0 as int) == 0,
{
    let n = src.len();
    let mut e: usize = start;
    let mut acc: Option<u32> = Some(0);
    while e < n && 48 <= src[e] && src[e] <= 57
        invariant
            n == src.len(),
            start <= e <= n,
            digits_end(src@, start as int) == digits_end(src@, e as int),
            acc matches Some(v) ==> v == decimal(src@, start as int, e as int),
            acc.is_none() ==> decimal(src@, start as int, e as int) > u32::MAX,
            newlines(src@, start as int, e as int) == 0,
        decreases n - e,
    {
        let d: u32 = (src[e] - 48) as u32;
        acc = match acc {
            Some(v) => if v > (u32::MAX - d) / 10 {
                None
            } else {
                Some(10 * v + d)
            },
            None => None,
        };
        e += 1;
    }
    (e, acc)
}

/// The end of the digits that start at `from`, and those digits by value.
fn scan_fraction(src: &Vec<u8>, from: usize) -> (r: (usize, Vec<u8>))
    requires
        from <= src.len(),
    ensures
        r.0 == digits_end(src@, from as int),
        from <= r.0 <= src.len(),
        r.1@ == digit_values(src@, from as int, r.0 as int),
        newlines(src@, from as int, r.0 as int) == 0,
{
    let n = src.len();
    let mut e: usize = from;
    let mut frac: Vec<u8> = Vec::new();
    while e < n && 48 <= src[e] && src[e] <= 57
        invariant
            n == src.len(),
            from <= e <= n,
            digits_end(src@, from as int) == digits_end(src@, e as int),
            frac@ == digit_values(src@, from as int, e as int),
            newlines(src@, from as int, e as int) == 0,
        decreases n - e,
    {
        frac.push(src[e] - 48);
        e += 1;
        assert(frac@ =~= digit_values(src@, from as int, e as int));
    }
    (e, frac)
}

/// Whether a byte may start a word.
fn letter(c: u8) -> (r: bool)
    ensures
        r == is_letter(c),
{
    if c < 128 {
        (65 <= c && c <= 90) || (97 <= c && c <= 122)
    } else {
        char_is_alphabetic(c as char)
    }
}

/// The end of the word that starts at `start`, and its spelling.
fn scan_word(src: &Vec<u8>, start: usize) -> (r: (usize, String))
    requires
        start <= src.len(),
    ensures
        r.0 == word_end(src@, start as int),
        start <= r.0 <= src.len(),
        r.1@ == spelling(src@, start as int, r.0 as int),
        newlines(src@, start as int, r.0 as int) == 0,
{
    let n = src.len();
    let mut e: usize = start;
    let mut s = String::new();
    assert(s@ =~= spelling(src@, start as int, e as int));
    while e < n && (letter(src[e]) || (48 <= src[e] && src[e] <= 57))
        invariant
            n == src.len(),
            start <= e <= n,
            word_end(src@, start as int) == word_end(src@, e as int),
            s@ == spelling(src@, start as int, e as int),
            newlines(src@, start as int, e as int) == 0,
        decreases n - e,
    {
        push_char(&mut s, src[e] as char);
        e += 1;
        assert(s@ =~= spelling(src@, start as int, e as int));
    }
    (e, s)
}

/// A word with the given tag, spelled with the given characters.
fn word_of(tag: u32, cs: &Vec<char>) -> (w: WordBase)
    ensures
        w@ == (tag, cs@),
{
    let mut s = String::new();
    let mut i: usize = 0;
    assert(s@ =~= cs@.subrange(0, 0));
    while i < cs.len()
        invariant
            i <= cs.len(),
            s@ == cs@.subrange(0, i as int),
        decreases cs.len() - i,
    {
        push_char(&mut s, cs[i]);
        i += 1;
        assert(s@ =~= cs@.subrange(0, i as int));
    }
    assert(s@ =~= cs@);
    WordBase { token: TokenBase { tag }, lexeme: s }
}

/// The tokenizer: the input, how far it has been read, and the table of the
/// words seen so far.
pub struct Lexer {
    src: Vec<u8>,
    pos: usize,
    start: usize,
    line: u32,
    words: Vec<Word>,
}

impl Lexer {
    /// The input.
    pub closed spec fn source(&self) -> Seq<u8> {
        self.src@
    }

    /// The position of the first byte not yet read.
    pub closed spec fn cursor(&self) -> int {
        self.pos as int
    }

    /// The position at which the token given last starts.
    pub closed spec fn mark(&self) -> int {
        self.start as int
    }

    /// The line of the token given last, counted from one.
    pub closed spec fn line(&self) -> u32 {
        self.line
    }

    /// The table of words: reserved words first, then the identifiers in the
    /// order in which they were first seen.
    pub closed spec fn table(&self) -> Seq<TokenView> {
        Seq::new(self.words@.len(), |i: int| self.words@[i]@)
    }

    /// The tokenizer's invariant.
    pub closed spec fn wf(&self) -> bool {
        &&& self.src.len() < u32::MAX
        &&& self.start <= self.pos <= self.src.len()
        &&& self.line == 1 + newlines(self.src@, 0, self.start as int)
        &&& newlines(self.src@, self.start as int, self.pos as int) == 0
        &&& table_ok(self.table())
    }

    /// What the invariant says of the state.
    pub proof fn lemma_wf(&self)
        requires
            self.wf(),
        ensures
            0 <= self.mark() <= self.cursor() <= self.source().len() < u32::MAX,
            self.line() == 1 + newlines(self.source(), 0, self.mark()),
            newlines(self.source(), self.mark(), self.cursor()) == 0,
            table_ok(self.table()),
    {
    }

    /// Enters `w` at the end of the table.
    fn reserve(&mut self, w: Word)
        ensures
            final(self).table() == old(self).table().push(w@),
            final(self).src == old(self).src,
            final(self).pos == old(self).pos,
            final(self).start == old(self).start,
            final(self).line == old(self).line,
    {
        self.words.push(w);
        assert(self.table() =~= old(self).table().push(w@));
    }

    /// A tokenizer at the start of `src`, on line one, whose table holds the
    /// reserved words.
    pub fn new(src: Vec<u8>) -> (lex: Lexer)
        requires
            src.len() < u32::MAX,
        ensures
            lex.wf(),
            lex.source() == src@,
            lex.cursor() == 0,
            lex.mark() == 0,
            lex.line() == 1,
            lex.table() == reserved_words(),
    {
        let mut lex = Lexer { src, pos: 0, start: 0, line: 1, words: Vec::new() };
        assert(lex.table() =~= Seq::<TokenView>::empty());
        lex.reserve(Word::Word(word_of(Tag::If.code(), &vec!['i', 'f'])));
        lex.reserve(Word::Word(word_of(Tag::Else.code(), &vec!['e', 'l', 's', 'e'])));
        lex.reserve(Word::Word(word_of(Tag::While.code(), &vec!['w', 'h', 'i', 'l', 'e'])));
        lex.reserve(Word::Word(word_of(Tag::Break.code(), &vec!['b', 'r', 'e', 'a', 'k'])));
        lex.reserve(Word::Word(word_of(Tag::True.code(), &vec!['t', 'r', 'u', 'e'])));
        lex.reserve(Word::Word(word_of(Tag::False.code(), &vec!['f', 'a', 'l', 's', 'e'])));
        lex.reserve(Word::Type(TypeBase::new(word_of(Tag::Basic.code(), &vec!['i', 'n', 't']), 4)));
        lex.reserve(
            Word::Type(TypeBase::new(word_of(Tag::Basic.code(), &vec!['f', 'l', 'o', 'a', 't']), 8)),
        );
        lex.reserve(Word::Type(TypeBase::new(word_of(Tag::Basic.code(), &vec!['c', 'h', 'a', 'r']), 1)));
        lex.reserve(Word::Type(TypeBase::new(word_of(Tag::Basic.code(), &vec!['b', 'o', 'o', 'l']), 1)));
        assert(lex.table() =~= reserved_words());
        lex
    }

    /// The line of the token given last, counted from one.
    pub fn line_num(&self) -> (n: u32)
        ensures
            n == self.line(),
    {
        self.line
    }

    /// Gives the next token. Blanks before it are skipped, and each newline
    /// among them counts one line. At the end of the input the end marker is
    /// given, again and again. On `&`, `|` or `=` the same character right
    /// behind it makes an operator, and any other character stays for the
    /// next call. Digits make an integer, or with a point behind them a
    /// literal with a fraction. A letter starts a word, which is looked up
    /// in the table and, where it is new, entered as an identifier. Any other
    /// character is a token by itself. An integer part that does not fit in
    /// 32 bits is an error, and the state stays as it was.
    pub fn scan(&mut self) -> (r: Result<Token, LexError>)
        requires
            old(self).wf(),
        ensures
            final(self).wf(),
            final(self).source() == old(self).source(),
            ({
                let src = old(self).source();
                let start = skip_blanks(src, old(self).cursor());
                let line = old(self).line() + newlines(src, old(self).cursor(), start);
                match r {
                    Ok(tok) => {
                        &&& literal_fits(src, start)
                        &&& tok@ == token_at(src, old(self).table(), start)
                        &&& final(self).table() == table_after(src, old(self).table(), start)
                        &&& final(self).mark() == start
                        &&& final(self).cursor() == token_end(src, start)
                        &&& final(self).line() == line
                    },
                    Err(e) => {
                        &&& !literal_fits(src, start)
                        &&& e.line == line
                        &&& final(self).table() == old(self).table()
                        &&& final(self).mark() == old(self).mark()
                        &&& final(self).cursor() == old(self).cursor()
                        &&& final(self).line() == old(self).line()
                    },
                }
            }),
    {
        let n = self.src.len();
        let mut p: usize = self.pos;
        let mut line: u32 = self.line;
        proof {
            lemma_newlines_split(self.src@, 0, self.start as int, self.pos as int);
            lemma_newlines_bound(self.src@, 0, self.pos as int);
        }
        while p < n && (self.src[p] == 32 || self.src[p] == 9 || self.src[p] == 10)
            invariant
                n == self.src.len(),
                n < u32::MAX,
                self.pos <= p <= n,
                line == 1 + newlines(self.src@, 0, p as int),
                line <= p + 1,
                skip_blanks(self.src@, self.pos as int) == skip_blanks(self.src@, p as int),
                line == self.line + newlines(self.src@, self.pos as int, p as int),
            decreases n - p,
        {
            if self.src[p] == 10 {
                line += 1;
            }
            p += 1;
        }

        if p >= n {
            self.pos = p;
            self.start = p;
            self.line = line;
            return Ok(Token::Eof);
        }
        let c: u8 = self.src[p];
        assert(newlines(self.src@, p as int, p as int) == 0);
        assert(newlines(self.src@, p as int, p + 1) == 0);
        if c == 38 || c == 124 || c == 61 {
            self.start = p;
            self.line = line;
            if p + 1 < n && self.src[p + 1] == c {
                self.pos = p + 2;
                let w = if c == 38 {
                    word_and()
                } else if c == 124 {
                    word_or()
                } else {
                    word_eq()
                };
                return Ok(Token::Word(Word::Word(w)));
            }
            self.pos = p + 1;
            return Ok(Token::Token(TokenBase::new(c as char)));
        }
        if 48 <= c && c <= 57 {
            let (e, value) = scan_digits(&self.src, p);
            let v = match value {
                Some(v) => v,
                None => {
                    return Err(LexError { line });
                },
            };
            self.start = p;
            self.line = line;
            if e < n && self.src[e] == 46 {
                let (f, frac) = scan_fraction(&self.src, e + 1);
                self.pos = f;
                proof {
                    lemma_newlines_split(self.src@, p as int, e + 1, f as int);
                }
                return Ok(Token::Real(Real::new(v, frac)));
            }
            self.pos = e;
            return Ok(Token::Num(Num::new(v)));
        }
        if letter(c) {
            let (e, s) = scan_word(&self.src, p);
            self.start = p;
            self.line = line;
            self.pos = e;
            match self.find(&s) {
                Some(i) => {
                    return Ok(Token::Word(self.words[i].clone()));
                },
                None => {
                    let w = WordBase { token: TokenBase { tag: Tag::Id.code() }, lexeme: s };
                    self.reserve(Word::Word(w.clone()));
                    return Ok(Token::Word(Word::Word(w)));
                },
            }
        }
        self.start = p;
        self.line = line;
        self.pos = p + 1;
        Ok(Token::Token(TokenBase::new(c as char)))
    }

    /// The index of the entry spelled `s`, if there is one.
    fn find(&self, s: &String) -> (r: Option<usize>)
        ensures
            match r {
                Some(i) => i < self.words.len() && lookup(self.table(), s@, 0) == Some(
                    self.table()[i as int],
                ),
                None => lookup(self.table(), s@, 0).is_none(),
            },
    {
        let mut i: usize = 0;
        while i < self.words.len()
            invariant
                i <= self.words.len(),
                lookup(self.table(), s@, 0) == lookup(self.table(), s@, i as int),
            decreases self.words.len() - i,
        {
            let hit = match &self.words[i] {
                Word::Word(w) => w.lexeme == *s,
                Word::Type(t) => t.word.lexeme == *s,
            };
            if hit {
                return Some(i);
            }
            i += 1;
        }
        None
    }
}

} // verus!
