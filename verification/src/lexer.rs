//! The tokenizer: source text to lexical tokens, one token of lookahead at a
//! time.
//!
//! The lexical rules are stated once, as the function [`scan`] on sequences
//! of characters; [`Lexer`] is proved to follow it token by token.

use crate::text::{chars_of, digit, is_digit, is_letter, is_letter_or_digit, is_space, text_of};
use vstd::prelude::*;

verus! {

// ---------------------------------------------------------------------------
// Numerals
// ---------------------------------------------------------------------------

/// A numeral without its optional leading minus sign.
pub open spec fn unsigned(text: Seq<char>) -> Seq<char> {
    if text.len() > 0 && text[0] == '-' {
        text.skip(1)
    } else {
        text
    }
}

/// The numerals of the language: an optional `-`, then digits with at most
/// one `.` among them and at least one digit. `5`, `-5`, `5.`, `.5` and
/// `-0.5` are numerals; `.`, `-` and `1.2.3` are not. These are exactly the
/// texts made of `-`, digits and `.` that a standard decimal parser reads as
/// a double.
pub open spec fn is_numeral(text: Seq<char>) -> bool {
    let body = unsigned(text);
    &&& forall|i: int| 0 <= i < body.len() ==> is_digit(#[trigger] body[i]) || body[i] == '.'
    &&& exists|i: int| 0 <= i < body.len() && is_digit(#[trigger] body[i])
    &&& forall|i: int, j: int|
        0 <= i < j < body.len() ==> !(#[trigger] body[i] == '.' && #[trigger] body[j] == '.')
}

/// The text of a number literal, kept exactly as it was written. The value
/// it denotes is the double nearest to that decimal; computing it is left to
/// the host's decimal parser, which accepts every `Numeral`.
#[derive(Debug, PartialEq)]
pub struct Numeral {
    text: String,
}

impl View for Numeral {
    type V = Seq<char>;

    closed spec fn view(&self) -> Seq<char> {
        self.text@
    }
}

impl Clone for Numeral {
    fn clone(&self) -> (r: Self)
        ensures
            r@ == self@,
    {
        proof {
            use_type_invariant(self);
        }
        Numeral { text: self.text.clone() }
    }
}

impl Numeral {
    #[verifier::type_invariant]
    spec fn well_formed(self) -> bool {
        is_numeral(self.text@)
    }

    /// Reads `text` as a numeral; `None` when it is not one.
    pub fn new(text: &str) -> (r: Option<Numeral>)
        ensures
            match r {
                Some(n) => n@ == text@ && is_numeral(text@),
                None => !is_numeral(text@),
            },
    {
        let chars = chars_of(text);
        let r = Numeral::from_chars(&chars, 0, chars.len());
        assert(chars@.subrange(0, chars.len() as int) =~= text@);
        r
    }

    /// The numeral as written.
    pub fn as_str(&self) -> (s: &str)
        ensures
            s@ == self@,
            is_numeral(s@),
    {
        proof {
            use_type_invariant(self);
        }
        self.text.as_str()
    }

    /// Reads `chars[from..to]` as a numeral; `None` when it is not one.
    fn from_chars(chars: &Vec<char>, from: usize, to: usize) -> (r: Option<Numeral>)
        requires
            from <= to <= chars.len(),
        ensures
            match r {
                Some(n) => n@ == chars@.subrange(from as int, to as int) && is_numeral(n@),
                None => !is_numeral(chars@.subrange(from as int, to as int)),
            },
    {
        let ghost text = chars@.subrange(from as int, to as int);
        let ghost body = unsigned(text);
        let start: usize = if from < to && chars[from] == '-' {
            from + 1
        } else {
            from
        };
        let mut seen_digit = false;
        let mut seen_dot = false;
        let mut i: usize = start;
        while i < to
            invariant
                from <= start <= i <= to <= chars.len(),
                body == chars@.subrange(start as int, to as int),
                body == unsigned(chars@.subrange(from as int, to as int)),
                forall|k: int| 0 <= k < i - start ==> is_digit(#[trigger] body[k]) || body[k] == '.',
                seen_digit <==> exists|k: int| 0 <= k < i - start && is_digit(#[trigger] body[k]),
                seen_dot <==> exists|k: int| 0 <= k < i - start && #[trigger] body[k] == '.',
                forall|k: int, j: int|
                    0 <= k < j < i - start ==> !(#[trigger] body[k] == '.' && #[trigger] body[j]
                        == '.'),
            decreases to - i,
        {
            let c = chars[i];
            assert(body[i - start] == c);
            if digit(c) {
                seen_digit = true;
            } else if c == '.' {
                if seen_dot {
                    proof {
                        let k = choose|k: int| 0 <= k < i - start && #[trigger] body[k] == '.';
                        assert(body[k] == '.' && body[i - start] == '.');
                    }
                    return None;
                }
                seen_dot = true;
            } else {
                return None;
            }
            i += 1;
        }
        if !seen_digit {
            return None;
        }
        let s = text_of(chars, from, to);
        Some(Numeral { text: s })
    }
}

// ---------------------------------------------------------------------------
// Tokens
// ---------------------------------------------------------------------------

/// A literal as it stands in the source.
#[derive(Debug, PartialEq)]
pub enum Literal {
    String(String),
    Number(Numeral),
    Boolean(bool),
}

/// The mathematical content of a [`Literal`].
pub enum LiteralView {
    String(Seq<char>),
    Number(Seq<char>),
    Boolean(bool),
}

impl View for Literal {
    type V = LiteralView;

    open spec fn view(&self) -> LiteralView {
        match self {
            Literal::String(s) => LiteralView::String(s@),
            Literal::Number(n) => LiteralView::Number(n@),
            Literal::Boolean(b) => LiteralView::Boolean(*b),
        }
    }
}

impl Clone for Literal {
    fn clone(&self) -> (r: Self)
        ensures
            r@ == self@,
    {
        match self {
            Literal::String(s) => Literal::String(s.clone()),
            Literal::Number(n) => Literal::Number(n.clone()),
            Literal::Boolean(b) => Literal::Boolean(*b),
        }
    }
}

/// One lexical unit.
#[derive(Debug, PartialEq)]
pub enum Token {
    Var,
    Identifier(String),
    Equals,
    SemiColon,
    Literal(Literal),
    LeftParen,
    RightParen,
    Comma,
    Add,
    Subtract,
    Multiply,
    Divide,
    EOF,
}

/// The mathematical content of a [`Token`].
pub enum TokenView {
    Var,
    Identifier(Seq<char>),
    Equals,
    SemiColon,
    Literal(LiteralView),
    LeftParen,
    RightParen,
    Comma,
    Add,
    Subtract,
    Multiply,
    Divide,
    EOF,
}

impl View for Token {
    type V = TokenView;

    open spec fn view(&self) -> TokenView {
        match self {
            Token::Var => TokenView::Var,
            Token::Identifier(name) => TokenView::Identifier(name@),
            Token::Equals => TokenView::Equals,
            Token::SemiColon => TokenView::SemiColon,
            Token::Literal(literal) => TokenView::Literal(literal@),
            Token::LeftParen => TokenView::LeftParen,
            Token::RightParen => TokenView::RightParen,
            Token::Comma => TokenView::Comma,
            Token::Add => TokenView::Add,
            Token::Subtract => TokenView::Subtract,
            Token::Multiply => TokenView::Multiply,
            Token::Divide => TokenView::Divide,
            Token::EOF => TokenView::EOF,
        }
    }
}

impl Clone for Token {
    fn clone(&self) -> (r: Self)
        ensures
            r@ == self@,
    {
        match self {
            Token::Var => Token::Var,
            Token::Identifier(name) => Token::Identifier(name.clone()),
            Token::Equals => Token::Equals,
            Token::SemiColon => Token::SemiColon,
            Token::Literal(literal) => Token::Literal(literal.clone()),
            Token::LeftParen => Token::LeftParen,
            Token::RightParen => Token::RightParen,
            Token::Comma => Token::Comma,
            Token::Add => Token::Add,
            Token::Subtract => Token::Subtract,
            Token::Multiply => Token::Multiply,
            Token::Divide => Token::Divide,
            Token::EOF => Token::EOF,
        }
    }
}

// ---------------------------------------------------------------------------
// The lexical rules
// ---------------------------------------------------------------------------

/// The character classes whose longest runs make up tokens.
#[derive(Clone, Copy)]
pub enum CharClass {
    /// White space between tokens.
    Space,
    /// Digits and the decimal point.
    Numeric,
    /// Letters, digits and the underscore.
    Word,
    /// Anything but the double quote.
    Quoted,
}

pub open spec fn belongs(c: char, class: CharClass) -> bool {
    match class {
        CharClass::Space => is_space(c),
        CharClass::Numeric => is_digit(c) || c == '.',
        CharClass::Word => is_letter_or_digit(c) || c == '_',
        CharClass::Quoted => c != '"',
    }
}

/// The length of the longest prefix of `s` made of characters of `class`.
pub open spec fn span(s: Seq<char>, class: CharClass) -> nat
    decreases s.len(),
{
    if s.len() > 0 && belongs(s[0], class) {
        1 + span(s.skip(1), class)
    } else {
        0
    }
}

/// `s` without its first `n` characters; empty when it has no more than `n`.
pub open spec fn after(s: Seq<char>, n: nat) -> Seq<char> {
    if n <= s.len() {
        s.skip(n as int)
    } else {
        Seq::empty()
    }
}

/// The length of the text that is tried as a numeral at the head of `t`: a
/// leading `-`, if there is one, and the digits and points that follow.
pub open spec fn numeral_len(t: Seq<char>) -> nat {
    if t.len() > 0 && t[0] == '-' {
        1 + span(after(t, 1), CharClass::Numeric)
    } else {
        span(t, CharClass::Numeric)
    }
}

/// The length of the word at the head of a non-empty `t`: its first
/// character, taken as it is, and the letters, digits and underscores that
/// follow.
pub open spec fn word_len(t: Seq<char>) -> nat {
    1 + span(after(t, 1), CharClass::Word)
}

/// The token that a word stands for: the keyword `var`, one of the boolean
/// literals, or else an identifier.
pub open spec fn word_token(text: Seq<char>) -> TokenView {
    if text == seq!['v', 'a', 'r'] {
        TokenView::Var
    } else if text == seq!['t', 'r', 'u', 'e'] {
        TokenView::Literal(LiteralView::Boolean(true))
    } else if text == seq!['f', 'a', 'l', 's', 'e'] {
        TokenView::Literal(LiteralView::Boolean(false))
    } else {
        TokenView::Identifier(text)
    }
}

/// The token that a single punctuation or operator character stands for.
pub open spec fn punctuation(c: char) -> Option<TokenView> {
    if c == '=' {
        Some(TokenView::Equals)
    } else if c == ';' {
        Some(TokenView::SemiColon)
    } else if c == '(' {
        Some(TokenView::LeftParen)
    } else if c == ')' {
        Some(TokenView::RightParen)
    } else if c == ',' {
        Some(TokenView::Comma)
    } else if c == '+' {
        Some(TokenView::Add)
    } else if c == '*' {
        Some(TokenView::Multiply)
    } else if c == '/' {
        Some(TokenView::Divide)
    } else {
        None
    }
}

/// What stands at the head of `t`, a text that is not empty and does not
/// begin with white space: the token there, or `None` where characters are
/// dropped, and the number of characters that it takes up. By the first
/// character of `t`:
/// - `= ; ( ) , + * /`: that token, one character long;
/// - `-` before a digit or a point: the candidate numeral of
///   [`numeral_len`] characters is a number literal if it is a numeral; if
///   not, those characters are `Subtract`. A `-` before anything else is
///   `Subtract`, one character long;
/// - a digit, or `.` before a digit: the candidate numeral is a number
///   literal if it is a numeral; if not, it is dropped. A `.` before
///   anything else is dropped;
/// - a letter or `_`: the word of [`word_len`] characters, read by
///   [`word_token`];
/// - `"`: a string literal of the characters up to the next `"`, which
///   belongs to it, or up to the end of the text; without the closing quote
///   the length given is one more than there are characters;
/// - any other character is dropped.
pub open spec fn lexeme(t: Seq<char>) -> (Option<TokenView>, nat) {
    if punctuation(t[0]) is Some {
        (punctuation(t[0]), 1)
    } else if t[0] == '-' {
        if t.len() > 1 && (is_digit(t[1]) || t[1] == '.') {
            let n = numeral_len(t);
            if is_numeral(t.take(n as int)) {
                (Some(TokenView::Literal(LiteralView::Number(t.take(n as int)))), n)
            } else {
                (Some(TokenView::Subtract), n)
            }
        } else {
            (Some(TokenView::Subtract), 1)
        }
    } else if is_digit(t[0]) || (t[0] == '.' && t.len() > 1 && is_digit(t[1])) {
        let n = numeral_len(t);
        if is_numeral(t.take(n as int)) {
            (Some(TokenView::Literal(LiteralView::Number(t.take(n as int)))), n)
        } else {
            (None, n)
        }
    } else if is_letter(t[0]) || t[0] == '_' {
        let n = word_len(t);
        (Some(word_token(t.take(n as int))), n)
    } else if t[0] == '"' {
        let n = span(after(t, 1), CharClass::Quoted);
        (Some(TokenView::Literal(LiteralView::String(t.subrange(1, 1 + n as int)))), n + 2)
    } else {
        (None, 1)
    }
}

/// The first token of `s` and the text that is left behind it: white space
/// is skipped; at the end of the text the token is `EOF`; else what stands
/// there by [`lexeme`] is the token, or is dropped and scanning goes on
/// behind it.
pub open spec fn scan(s: Seq<char>) -> (TokenView, Seq<char>)
    decreases s.len(),
{
    let t = after(s, span(s, CharClass::Space));
    if t.len() == 0 {
        (TokenView::EOF, t)
    } else {
        match lexeme(t).0 {
            Some(token) => (token, after(t, lexeme(t).1)),
            None => scan(after(t, lexeme(t).1)),
        }
    }
}

/// The tokens of `s` in order, up to the end of input (`EOF` not included).
pub open spec fn token_stream(s: Seq<char>) -> Seq<TokenView>
    decreases s.len(),
    via token_stream_decreases
{
    let (token, rest) = scan(s);
    if token is EOF {
        Seq::empty()
    } else {
        seq![token] + token_stream(rest)
    }
}

#[via_fn]
proof fn token_stream_decreases(s: Seq<char>) {
    lemma_scan_progress(s);
}

/// A run never extends beyond the text.
pub proof fn lemma_span_bound(s: Seq<char>, class: CharClass)
    ensures
        span(s, class) <= s.len(),
    decreases s.len(),
{
    if s.len() > 0 && belongs(s[0], class) {
        lemma_span_bound(s.skip(1), class);
    }
}

/// A run is the prefix of characters of the class that ends at the first
/// character outside it, or at the end of the text.
pub proof fn lemma_span_is(s: Seq<char>, class: CharClass, n: nat)
    requires
        n <= s.len(),
        forall|i: int| 0 <= i < n ==> belongs(#[trigger] s[i], class),
        n < s.len() ==> !belongs(s[n as int], class),
    ensures
        span(s, class) == n,
    decreases n,
{
    if n > 0 {
        let rest = s.skip(1);
        assert forall|i: int| 0 <= i < n - 1 implies belongs(#[trigger] rest[i], class) by {
            assert(rest[i] == s[i + 1]);
        }
        lemma_span_is(rest, class, (n - 1) as nat);
    }
}

/// A run is the longest of its kind: every character of it belongs to the
/// class, and the character behind it, if there is one, does not.
pub proof fn lemma_span_members(s: Seq<char>, class: CharClass)
    ensures
        forall|i: int| 0 <= i < span(s, class) ==> belongs(#[trigger] s[i], class),
        span(s, class) < s.len() ==> !belongs(s[span(s, class) as int], class),
        span(s, class) <= s.len(),
    decreases s.len(),
{
    if s.len() > 0 && belongs(s[0], class) {
        let rest = s.skip(1);
        lemma_span_members(rest, class);
        assert forall|i: int| 0 <= i < span(s, class) implies belongs(#[trigger] s[i], class) by {
            if i > 0 {
                assert(s[i] == rest[i - 1]);
            }
        }
    }
}

/// A token other than `EOF` uses up at least one character, and `EOF` is
/// only reported when nothing is left.
pub proof fn lemma_scan_progress(s: Seq<char>)
    ensures
        scan(s).0 is EOF ==> scan(s).1.len() == 0,
        !(scan(s).0 is EOF) ==> scan(s).1.len() < s.len(),
        scan(s).1.len() <= s.len(),
    decreases s.len(),
{
    lemma_span_bound(s, CharClass::Space);
    let t = after(s, span(s, CharClass::Space));
    if t.len() > 0 && lexeme(t).0 is None {
        lemma_scan_progress(after(t, lexeme(t).1));
    }
}

/// A numeral is tokenized as one number literal that holds the numeral as
/// it was written, whatever its form (`5`, `-5`, `5.`, `.5`, `-0.5`) and
/// whatever stands behind it, so long as that does not begin with a digit
/// or a point; and exactly the characters of the numeral are used up. The
/// double that the literal stands for is then whatever a decimal parser
/// makes of that same text.
pub proof fn lemma_numeral_is_one_token(text: Seq<char>, behind: Seq<char>)
    requires
        is_numeral(text),
        behind.len() == 0 || !belongs(behind[0], CharClass::Numeric),
    ensures
        scan(text + behind) == (TokenView::Literal(LiteralView::Number(text)), behind),
        token_stream(text + behind) == seq![TokenView::Literal(LiteralView::Number(text))]
            + token_stream(behind),
{
    let s = text + behind;
    let body = unsigned(text);
    let d = choose|i: int| 0 <= i < body.len() && is_digit(#[trigger] body[i]);
    assert(is_digit(body[0]) || body[0] == '.');
    let t = after(s, span(s, CharClass::Space));
    assert(s[0] == text[0]);
    assert(t =~= s);
    let run = body + behind;
    assert forall|i: int| 0 <= i < body.len() implies belongs(#[trigger] run[i], CharClass::Numeric) by {
        assert(run[i] == body[i]);
    }
    lemma_span_is(run, CharClass::Numeric, body.len());
    if text[0] == '-' {
        assert(after(t, 1) =~= run);
        assert(t[1] == body[0]);
    } else {
        assert(t =~= run);
        if t[0] == '.' {
            assert(d >= 1);
            assert(t[1] == body[1]);
            assert(!(body[0] == '.' && body[1] == '.'));
        }
    }
    assert(numeral_len(t) == text.len());
    assert(t.take(text.len() as int) =~= text);
    assert(after(t, text.len()) =~= behind);
}

/// A run goes on over the join of two texts only if it fills the first:
/// where a character outside the class begins the second text, or the
/// second text is empty, the run of the join is the run of the first text.
pub proof fn lemma_span_stops_at(x: Seq<char>, r: Seq<char>, class: CharClass)
    requires
        span(x, class) < x.len() || r.len() == 0 || !belongs(r[0], class),
    ensures
        span(x + r, class) == span(x, class),
{
    lemma_span_members(x, class);
    let n = span(x, class);
    let all = x + r;
    assert forall|i: int| 0 <= i < n implies belongs(#[trigger] all[i], class) by {
        assert(all[i] == x[i]);
    }
    if n < x.len() {
        assert(all[n as int] == x[n as int]);
    } else if r.len() > 0 {
        assert(all[n as int] == r[0]);
    }
    lemma_span_is(all, class, n);
}

/// A run that fills the first of two texts goes on into the second.
pub proof fn lemma_span_goes_on(x: Seq<char>, r: Seq<char>, class: CharClass)
    requires
        span(x, class) == x.len(),
    ensures
        span(x + r, class) == x.len() + span(r, class),
{
    lemma_span_members(x, class);
    lemma_span_members(r, class);
    let n = x.len() + span(r, class);
    let all = x + r;
    assert forall|i: int| 0 <= i < n implies belongs(#[trigger] all[i], class) by {
        if i < x.len() {
            assert(all[i] == x[i]);
        } else {
            assert(all[i] == r[i - x.len()]);
        }
    }
    if n < all.len() {
        assert(all[n as int] == r[span(r, class) as int]);
    }
    lemma_span_is(all, class, n);
}

/// The characters that separate tokens: white space that is no letter and
/// no digit. All white space of ASCII is of this kind.
pub open spec fn separates(c: char) -> bool {
    is_space(c) && !is_letter_or_digit(c)
}

/// Whether every string literal of a text is closed: no token of the text
/// would go on if more text followed.
pub open spec fn closed(p: Seq<char>) -> bool
    decreases p.len(),
{
    let t = after(p, span(p, CharClass::Space));
    if t.len() == 0 {
        true
    } else if 1 <= lexeme(t).1 <= t.len() {
        closed(after(t, lexeme(t).1))
    } else {
        false
    }
}

/// What stands at the head of a text depends on nothing behind it, if a
/// separator follows it or nothing at all.
pub proof fn lemma_lexeme_is_local(t: Seq<char>, r: Seq<char>)
    requires
        t.len() > 0,
        lexeme(t).1 <= t.len(),
        r.len() == 0 || separates(r[0]),
    ensures
        lexeme(t + r) == lexeme(t),
{
    let all = t + r;
    assert(all[0] == t[0]);
    if t.len() > 1 {
        assert(all[1] == t[1]);
    } else if r.len() > 0 {
        assert(all[1] == r[0]);
    }
    assert(after(all, 1) =~= after(t, 1) + r);
    lemma_span_bound(t, CharClass::Numeric);
    lemma_span_bound(after(t, 1), CharClass::Numeric);
    lemma_span_bound(after(t, 1), CharClass::Word);
    lemma_span_stops_at(t, r, CharClass::Numeric);
    lemma_span_stops_at(after(t, 1), r, CharClass::Numeric);
    lemma_span_stops_at(after(t, 1), r, CharClass::Word);
    if t[0] == '"' {
        lemma_span_stops_at(after(t, 1), r, CharClass::Quoted);
        let n = span(after(t, 1), CharClass::Quoted);
        assert(all.subrange(1, 1 + n as int) =~= t.subrange(1, 1 + n as int));
    }
    assert(numeral_len(all) == numeral_len(t));
    assert(all.take(numeral_len(t) as int) =~= t.take(numeral_len(t) as int));
    assert(word_len(all) == word_len(t));
    assert(all.take(word_len(t) as int) =~= t.take(word_len(t) as int));
}

/// Behind a text whose string literals are closed, a separator begins
/// afresh: the tokens of the whole are the tokens of the text and then the
/// tokens of what follows.
pub proof fn lemma_tokens_split_at_separators(p: Seq<char>, r: Seq<char>)
    requires
        closed(p),
        r.len() == 0 || separates(r[0]),
    ensures
        token_stream(p + r) == token_stream(p) + token_stream(r),
    decreases p.len(),
{
    let all = p + r;
    lemma_span_bound(p, CharClass::Space);
    let k = span(p, CharClass::Space);
    let t = after(p, k);
    if t.len() == 0 {
        lemma_span_goes_on(p, r, CharClass::Space);
        lemma_span_bound(r, CharClass::Space);
        let j = span(r, CharClass::Space);
        assert(after(all, k + j) =~= after(r, j));
        assert(scan(all) == scan(r));
        assert(token_stream(p) =~= Seq::<TokenView>::empty());
        assert(token_stream(all) =~= token_stream(p) + token_stream(r));
    } else {
        lemma_span_stops_at(p, r, CharClass::Space);
        assert(after(all, k) =~= t + r);
        lemma_lexeme_is_local(t, r);
        let n = lexeme(t).1;
        let rest = after(t, n);
        assert(after(t + r, n) =~= rest + r);
        lemma_tokens_split_at_separators(rest, r);
        match lexeme(t).0 {
            Some(token) => {
                assert(token_stream(all) =~= seq![token] + token_stream(rest + r));
                assert(token_stream(p) =~= seq![token] + token_stream(rest));
                assert(token_stream(all) =~= token_stream(p) + token_stream(r));
            },
            None => {
                assert(scan(all) == scan(rest + r));
                assert(scan(p) == scan(rest));
            },
        }
    }
}

/// The characters that begin no token and are no white space: the tokenizer
/// drops them wherever a token could begin.
pub open spec fn unrecognized(c: char) -> bool {
    &&& !is_space(c)
    &&& punctuation(c) is None
    &&& c != '-'
    &&& c != '.'
    &&& c != '"'
    &&& c != '_'
    &&& !is_digit(c)
    &&& !is_letter(c)
}

/// An unrecognized character in front of a text changes nothing: the
/// tokens are those of the text alone.
pub proof fn lemma_unrecognized_is_transparent(c: char, s: Seq<char>)
    requires
        unrecognized(c),
    ensures
        scan(seq![c] + s) == scan(s),
        token_stream(seq![c] + s) == token_stream(s),
{
    let all = seq![c] + s;
    let t = after(all, span(all, CharClass::Space));
    assert(after(t, 1) =~= s);
}

/// White space in front of a text changes nothing either.
pub proof fn lemma_space_is_transparent(c: char, s: Seq<char>)
    requires
        is_space(c),
    ensures
        scan(seq![c] + s) == scan(s),
        token_stream(seq![c] + s) == token_stream(s),
{
    let all = seq![c] + s;
    assert(all.skip(1) =~= s);
    lemma_span_bound(s, CharClass::Space);
    lemma_span_bound(all, CharClass::Space);
    let n = span(s, CharClass::Space);
    assert(after(all, n + 1) =~= after(s, n));
}

/// Behind a text whose string literals are closed, a separator begins
/// afresh for the string literals too: those of the whole are closed if
/// those of what follows are.
pub proof fn lemma_closed_splits_at_separators(p: Seq<char>, r: Seq<char>)
    requires
        closed(p),
        r.len() == 0 || separates(r[0]),
    ensures
        closed(p + r) == closed(r),
    decreases p.len(),
{
    let all = p + r;
    lemma_span_bound(p, CharClass::Space);
    let k = span(p, CharClass::Space);
    let t = after(p, k);
    if t.len() == 0 {
        lemma_span_goes_on(p, r, CharClass::Space);
        lemma_span_bound(r, CharClass::Space);
        let j = span(r, CharClass::Space);
        assert(after(all, k + j) =~= after(r, j));
    } else {
        lemma_span_stops_at(p, r, CharClass::Space);
        assert(after(all, k) =~= t + r);
        lemma_lexeme_is_local(t, r);
        let n = lexeme(t).1;
        assert(after(t + r, n) =~= after(t, n) + r);
        lemma_closed_splits_at_separators(after(t, n), r);
    }
}

/// White space and unrecognized characters in front of a text neither
/// open nor close a string literal.
pub proof fn lemma_closed_behind_dropped(c: char, s: Seq<char>)
    requires
        is_space(c) || unrecognized(c),
    ensures
        closed(seq![c] + s) == closed(s),
{
    let all = seq![c] + s;
    assert(all.skip(1) =~= s);
    if is_space(c) {
        lemma_span_bound(s, CharClass::Space);
        lemma_span_bound(all, CharClass::Space);
        let n = span(s, CharClass::Space);
        assert(after(all, n + 1) =~= after(s, n));
    } else {
        let t = after(all, span(all, CharClass::Space));
        assert(t =~= all);
        assert(after(t, 1) =~= s);
    }
}

/// Unrecognized characters are transparent wherever they stand between
/// tokens. Take a text in which a separator `w` stands outside every string
/// literal (the string literals in front of it are closed), and put an
/// unrecognized character `c` in its place, with a separator on either
/// side: the tokens stay what they were. The string literals stay closed
/// where they were, too, so that the same holds of the next such
/// replacement further on, and of any number of them.
pub proof fn lemma_unrecognized_between_tokens(
    p: Seq<char>,
    w: char,
    q: Seq<char>,
    left: char,
    c: char,
    right: char,
)
    requires
        closed(p),
        separates(w),
        separates(left),
        separates(right),
        unrecognized(c),
    ensures
        token_stream(p + seq![left, c, right] + q) == token_stream(p + seq![w] + q),
        closed(p + seq![left, c, right] + q) == closed(p + seq![w] + q),
{
    let with = seq![left, c, right] + q;
    let without = seq![w] + q;
    assert(p + seq![left, c, right] + q =~= p + with);
    assert(p + seq![w] + q =~= p + without);
    lemma_tokens_split_at_separators(p, with);
    lemma_tokens_split_at_separators(p, without);
    lemma_closed_splits_at_separators(p, with);
    lemma_closed_splits_at_separators(p, without);
    lemma_space_is_transparent(w, q);
    lemma_closed_behind_dropped(w, q);
    assert(with =~= seq![left] + (seq![c] + (seq![right] + q)));
    lemma_space_is_transparent(left, seq![c] + (seq![right] + q));
    lemma_closed_behind_dropped(left, seq![c] + (seq![right] + q));
    lemma_unrecognized_is_transparent(c, seq![right] + q);
    lemma_closed_behind_dropped(c, seq![right] + q);
    lemma_space_is_transparent(right, q);
    lemma_closed_behind_dropped(right, q);
}

/// At the end of the text the token is `EOF`, and it stays `EOF` however
/// often it is asked for.
pub proof fn lemma_end_is_stable(s: Seq<char>)
    requires
        scan(s).0 is EOF,
    ensures
        scan(scan(s).1) == scan(s),
        token_stream(s) == Seq::<TokenView>::empty(),
{
    lemma_scan_progress(s);
}

// ---------------------------------------------------------------------------
// The tokenizer
// ---------------------------------------------------------------------------

/// The token at the head of a token sequence; `EOF` when nothing is left.
pub open spec fn head(tokens: Seq<TokenView>) -> TokenView {
    if tokens.len() > 0 {
        tokens[0]
    } else {
        TokenView::EOF
    }
}

/// A token sequence without its head; still empty when nothing is left.
pub open spec fn tail(tokens: Seq<TokenView>) -> Seq<TokenView> {
    if tokens.len() > 0 {
        tokens.skip(1)
    } else {
        tokens
    }
}

/// Tests whether `c` belongs to `class`.
fn member(c: char, class: CharClass) -> (r: bool)
    ensures
        r == belongs(c, class),
{
    match class {
        CharClass::Space => c.is_whitespace(),
        CharClass::Numeric => digit(c) || c == '.',
        CharClass::Word => c.is_alphanumeric() || c == '_',
        CharClass::Quoted => c != '"',
    }
}

/// The token of a punctuation or operator character.
fn punctuation_token(c: char) -> (r: Option<Token>)
    ensures
        match r {
            Some(token) => punctuation(c) == Some(token@),
            None => punctuation(c) is None,
        },
{
    if c == '=' {
        Some(Token::Equals)
    } else if c == ';' {
        Some(Token::SemiColon)
    } else if c == '(' {
        Some(Token::LeftParen)
    } else if c == ')' {
        Some(Token::RightParen)
    } else if c == ',' {
        Some(Token::Comma)
    } else if c == '+' {
        Some(Token::Add)
    } else if c == '*' {
        Some(Token::Multiply)
    } else if c == '/' {
        Some(Token::Divide)
    } else {
        None
    }
}

/// The token that the word `chars[from..to]` stands for.
fn classify_word(chars: &Vec<char>, from: usize, to: usize) -> (token: Token)
    requires
        from <= to <= chars.len(),
    ensures
        token@ == word_token(chars@.subrange(from as int, to as int)),
{
    let ghost text = chars@.subrange(from as int, to as int);
    let n = to - from;
    if n == 3 && chars[from] == 'v' && chars[from + 1] == 'a' && chars[from + 2] == 'r' {
        assert(text =~= seq!['v', 'a', 'r']);
        return Token::Var;
    }
    if n == 4 && chars[from] == 't' && chars[from + 1] == 'r' && chars[from + 2] == 'u' && chars[from
        + 3] == 'e' {
        assert(text =~= seq!['t', 'r', 'u', 'e']);
        return Token::Literal(Literal::Boolean(true));
    }
    if n == 5 && chars[from] == 'f' && chars[from + 1] == 'a' && chars[from + 2] == 'l' && chars[from
        + 3] == 's' && chars[from + 4] == 'e' {
        assert(text =~= seq!['f', 'a', 'l', 's', 'e']);
        return Token::Literal(Literal::Boolean(false));
    }
    proof {
        let var = seq!['v', 'a', 'r'];
        let yes = seq!['t', 'r', 'u', 'e'];
        let no = seq!['f', 'a', 'l', 's', 'e'];
        if text == var {
            assert(text.len() == 3 && text[0] == var[0] && text[1] == var[1] && text[2] == var[2]);
        }
        if text == yes {
            assert(text.len() == 4 && text[0] == yes[0] && text[1] == yes[1] && text[2] == yes[2]
                && text[3] == yes[3]);
        }
        if text == no {
            assert(text.len() == 5 && text[0] == no[0] && text[1] == no[1] && text[2] == no[2]
                && text[3] == no[3] && text[4] == no[4]);
        }
    }
    Token::Identifier(text_of(chars, from, to))
}

/// A tokenizer over a source text. It holds one token of lookahead, the
/// current token, and produces the next one on demand.
pub struct Lexer {
    chars: Vec<char>,
    pos: usize,
    current_token: Token,
}

impl Lexer {
    #[verifier::type_invariant]
    spec fn well_formed(self) -> bool {
        &&& self.pos <= self.chars.len()
        &&& self.current_token@ is EOF ==> self.pos == self.chars.len()
    }

    /// The current token.
    pub closed spec fn current(&self) -> TokenView {
        self.current_token@
    }

    /// The source text behind the current token.
    pub closed spec fn remaining(&self) -> Seq<char> {
        self.chars@.skip(self.pos as int)
    }

    /// The tokens that are still to be consumed, the current one first.
    pub open spec fn pending(&self) -> Seq<TokenView> {
        if self.current() is EOF {
            Seq::empty()
        } else {
            seq![self.current()] + token_stream(self.remaining())
        }
    }

    /// A tokenizer at the first token of `input`.
    pub fn new(input: &str) -> (lexer: Lexer)
        ensures
            lexer.current() == scan(input@).0,
            lexer.remaining() == scan(input@).1,
            lexer.pending() == token_stream(input@),
    {
        let chars = chars_of(input);
        assert(chars@.skip(0) =~= input@);
        let (token, pos) = Self::next_token(&chars, 0);
        proof {
            lemma_scan_progress(input@);
        }
        Lexer { chars, pos, current_token: token }
    }

    /// The current token, without consuming it.
    pub fn current_token(&self) -> (token: &Token)
        ensures
            token@ == self.current(),
    {
        &self.current_token
    }

    /// Consumes the current token and reads the next one. At the end of
    /// input this changes nothing: `EOF` stays the current token.
    pub fn advance(&mut self)
        ensures
            final(self).current() == scan(old(self).remaining()).0,
            final(self).remaining() == scan(old(self).remaining()).1,
            final(self).pending() == tail(old(self).pending()),
            old(self).current() is EOF ==> final(self).current() is EOF,
    {
        proof {
            use_type_invariant(&*self);
            lemma_scan_progress(self.remaining());
        }
        let (token, pos) = Self::next_token(&self.chars, self.pos);
        self.pos = pos;
        self.current_token = token;
    }

    /// The end of the run of `class` that starts at `pos`.
    fn span_end(chars: &Vec<char>, pos: usize, class: CharClass) -> (end: usize)
        requires
            pos <= chars.len(),
        ensures
            end == pos + span(chars@.skip(pos as int), class),
            end <= chars.len(),
    {
        let mut end: usize = pos;
        while end < chars.len() && member(chars[end], class)
            invariant
                pos <= end <= chars.len(),
                forall|i: int| pos <= i < end ==> belongs(#[trigger] chars@[i], class),
            decreases chars.len() - end,
        {
            end += 1;
        }
        proof {
            let s = chars@.skip(pos as int);
            assert forall|i: int| 0 <= i < end - pos implies belongs(#[trigger] s[i], class) by {
                assert(s[i] == chars@[pos + i]);
            }
            lemma_span_is(s, class, (end - pos) as nat);
        }
        end
    }

    /// The position behind the white space that starts at `pos`.
    fn skip_whitespace(chars: &Vec<char>, pos: usize) -> (next: usize)
        requires
            pos <= chars.len(),
        ensures
            next == pos + span(chars@.skip(pos as int), CharClass::Space),
            next <= chars.len(),
    {
        Self::span_end(chars, pos, CharClass::Space)
    }

    /// Reads the candidate numeral at `pos`: a `-`, if one stands there, and
    /// the digits and points behind it. Gives the numeral, if the text is
    /// one, and the position behind the text.
    fn read_number(chars: &Vec<char>, pos: usize) -> (r: (Option<Numeral>, usize))
        requires
            pos <= chars.len(),
        ensures
            r.1 == pos + numeral_len(chars@.skip(pos as int)),
            r.1 <= chars.len(),
            match r.0 {
                Some(n) => n@ == chars@.skip(pos as int).take(r.1 - pos) && is_numeral(n@),
                None => !is_numeral(chars@.skip(pos as int).take(r.1 - pos)),
            },
    {
        let ghost t = chars@.skip(pos as int);
        let start: usize = if pos < chars.len() && chars[pos] == '-' {
            pos + 1
        } else {
            pos
        };
        assert(start > pos ==> after(t, 1) =~= chars@.skip(start as int));
        let end = Self::span_end(chars, start, CharClass::Numeric);
        assert(t.take(end - pos) =~= chars@.subrange(pos as int, end as int));
        (Numeral::from_chars(chars, pos, end), end)
    }

    /// Reads the word at `pos`: the character there and the letters, digits
    /// and underscores behind it.
    fn read_identifier(chars: &Vec<char>, pos: usize) -> (r: (Token, usize))
        requires
            pos < chars.len(),
        ensures
            r.1 == pos + word_len(chars@.skip(pos as int)),
            r.1 <= chars.len(),
            r.0@ == word_token(chars@.skip(pos as int).take(r.1 - pos)),
    {
        let ghost t = chars@.skip(pos as int);
        assert(after(t, 1) =~= chars@.skip(pos + 1));
        let end = Self::span_end(chars, pos + 1, CharClass::Word);
        assert(t.take(end - pos) =~= chars@.subrange(pos as int, end as int));
        (classify_word(chars, pos, end), end)
    }

    /// Reads the string literal whose opening quote stands at `pos`: the
    /// characters up to the closing quote or the end of the text. Gives the
    /// text between the quotes and the position behind the literal.
    fn read_string(chars: &Vec<char>, pos: usize) -> (r: (String, usize))
        requires
            pos < chars.len(),
        ensures
            pos < r.1 <= chars.len(),
            r.0@ == chars@.skip(pos as int).subrange(
                1,
                1 + span(after(chars@.skip(pos as int), 1), CharClass::Quoted) as int,
            ),
            chars@.skip(r.1 as int) == after(
                chars@.skip(pos as int),
                span(after(chars@.skip(pos as int), 1), CharClass::Quoted) + 2,
            ),
    {
        let ghost t = chars@.skip(pos as int);
        assert(after(t, 1) =~= chars@.skip(pos + 1));
        let close = Self::span_end(chars, pos + 1, CharClass::Quoted);
        let text = text_of(chars, pos + 1, close);
        let next: usize = if close < chars.len() {
            close + 1
        } else {
            close
        };
        (text, next)
    }

    /// Reads the token at `pos` and gives it with the position behind it.
    fn next_token(chars: &Vec<char>, pos: usize) -> (r: (Token, usize))
        requires
            pos <= chars.len(),
        ensures
            pos <= r.1 <= chars.len(),
            r.0@ == scan(chars@.skip(pos as int)).0,
            chars@.skip(r.1 as int) == scan(chars@.skip(pos as int)).1,
    {
        let mut at: usize = pos;
        loop
            invariant
                pos <= at <= chars.len(),
                scan(chars@.skip(at as int)) == scan(chars@.skip(pos as int)),
            decreases chars.len() - at,
        {
            let ghost s = chars@.skip(at as int);
            let start = Self::skip_whitespace(chars, at);
            let ghost t = chars@.skip(start as int);
            assert(t =~= after(s, span(s, CharClass::Space)));
            if start >= chars.len() {
                return (Token::EOF, start);
            }
            let c = chars[start];
            assert(after(t, 1) =~= chars@.skip(start + 1));
            let second_is_digit = start + 1 < chars.len() && digit(chars[start + 1]);
            let second_is_point = start + 1 < chars.len() && chars[start + 1] == '.';
            if let Some(token) = punctuation_token(c) {
                return (token, start + 1);
            } else if c == '-' {
                if second_is_digit || second_is_point {
                    let (number, end) = Self::read_number(chars, start);
                    match number {
                        Some(n) => {
                            return (Token::Literal(Literal::Number(n)), end);
                        },
                        None => {
                            return (Token::Subtract, end);
                        },
                    }
                }
                return (Token::Subtract, start + 1);
            } else if digit(c) || (c == '.' && second_is_digit) {
                let (number, end) = Self::read_number(chars, start);
                match number {
                    Some(n) => {
                        return (Token::Literal(Literal::Number(n)), end);
                    },
                    None => {
                        assert(chars@.skip(end as int) =~= after(t, (end - start) as nat));
                        at = end;
                    },
                }
            } else if c.is_alphabetic() || c == '_' {
                let (token, end) = Self::read_identifier(chars, start);
                return (token, end);
            } else if c == '"' {
                let (text, next) = Self::read_string(chars, start);
                return (Token::Literal(Literal::String(text)), next);
            } else {
                at = start + 1;
            }
        }
    }
}

/// The mathematical content of a list of tokens.
pub open spec fn token_views(list: Seq<Token>) -> Seq<TokenView> {
    Seq::new(list.len(), |i: int| list[i]@)
}

/// All the tokens of `input` in order, up to the end of input.
pub fn tokenize(input: &str) -> (tokens: Vec<Token>)
    ensures
        token_views(tokens@) == token_stream(input@),
{
    let mut lexer = Lexer::new(input);
    let mut tokens: Vec<Token> = Vec::new();
    loop
        invariant
            token_views(tokens@) + lexer.pending() == token_stream(input@),
        decreases lexer.pending().len(),
    {
        let ghost found = token_views(tokens@);
        let ghost left = lexer.pending();
        let token = lexer.current_token().clone();
        if let Token::EOF = token {
            return tokens;
        }
        tokens.push(token);
        lexer.advance();
        assert(token_views(tokens@) =~= found.push(left[0]));
        assert(token_views(tokens@) + lexer.pending() =~= found + left);
    }
}

} // verus!
