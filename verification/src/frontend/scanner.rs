//! The scanner: from source text to tokens.
//!
//! Tokens are words, decimal numbers, strings in double quotes, and
//! operators and separators of one or two characters. White space separates
//! tokens and is otherwise ignored. A token reaches as far as it can: a word
//! or a number ends only before a character that cannot continue it.
use vstd::prelude::*;
use crate::frontend::tokens::{
    tokens_view, DataType, DataTypeView, Keyword, Punctuation, Token, TokenType, TokenTypeView,
    TokenView,
};
use crate::util::same_text;
use crate::util::text::{is_space, is_whitespace, parse_i64, spec_parse_i64};

verus! {

/// Whether a character can start a word.
pub open spec fn is_letter(c: char) -> bool {
    ('a' <= c <= 'z') || ('A' <= c <= 'Z') || c == '_'
}

/// Whether a character is a decimal digit.
pub open spec fn is_digit(c: char) -> bool {
    '0' <= c <= '9'
}

/// The end of the word that starts at `i`: the first place from `i` on
/// that holds neither a letter nor a digit.
pub open spec fn word_end(s: Seq<char>, i: int) -> int
    decreases s.len() - i,
{
    if 0 <= i < s.len() && (is_letter(s[i]) || is_digit(s[i])) {
        word_end(s, i + 1)
    } else {
        i
    }
}

/// The end of the number that starts at `i`.
pub open spec fn digits_end(s: Seq<char>, i: int) -> int
    decreases s.len() - i,
{
    if 0 <= i < s.len() && is_digit(s[i]) {
        digits_end(s, i + 1)
    } else {
        i
    }
}

/// The place of the first double quote from `i` on.
pub open spec fn quote_at(s: Seq<char>, i: int) -> Option<int>
    decreases s.len() - i,
{
    if 0 <= i < s.len() {
        if s[i] == '"' {
            Some(i)
        } else {
            quote_at(s, i + 1)
        }
    } else {
        None
    }
}

/// The kind of a word: a reserved word, an operator written as a word, a
/// literal, or an identifier.
pub open spec fn word_kind(w: Seq<char>) -> TokenTypeView {
    if w == "for"@ {
        TokenTypeView::Keyword(Keyword::For)
    } else if w == "while"@ {
        TokenTypeView::Keyword(Keyword::While)
    } else if w == "if"@ {
        TokenTypeView::Keyword(Keyword::If)
    } else if w == "else"@ {
        TokenTypeView::Keyword(Keyword::Else)
    } else if w == "var"@ {
        TokenTypeView::Keyword(Keyword::Var)
    } else if w == "fun"@ {
        TokenTypeView::Keyword(Keyword::Fun)
    } else if w == "return"@ {
        TokenTypeView::Keyword(Keyword::Return)
    } else if w == "struct"@ {
        TokenTypeView::Keyword(Keyword::Struct)
    } else if w == "and"@ {
        TokenTypeView::Punctuation(Punctuation::And)
    } else if w == "or"@ {
        TokenTypeView::Punctuation(Punctuation::Or)
    } else if w == "not"@ {
        TokenTypeView::Punctuation(Punctuation::Bang)
    } else if w == "True"@ {
        TokenTypeView::Literal(DataTypeView::Bool(true))
    } else if w == "False"@ {
        TokenTypeView::Literal(DataTypeView::Bool(false))
    } else if w == "Nil"@ {
        TokenTypeView::Literal(DataTypeView::Nil)
    } else {
        TokenTypeView::Identifier
    }
}

/// The operator or separator of two characters that `a` and `b` spell.
pub open spec fn double_symbol(a: char, b: char) -> Option<Punctuation> {
    if a == '=' && b == '=' {
        Some(Punctuation::EqualEqual)
    } else if a == '!' && b == '=' {
        Some(Punctuation::BangEqual)
    } else if a == '<' && b == '=' {
        Some(Punctuation::LessEqual)
    } else if a == '>' && b == '=' {
        Some(Punctuation::GreaterEqual)
    } else if a == '-' && b == '>' {
        Some(Punctuation::Arrow)
    } else {
        None
    }
}

/// The operator or separator that the single character `c` spells.
pub open spec fn single_symbol(c: char) -> Option<Punctuation> {
    if c == '+' {
        Some(Punctuation::Plus)
    } else if c == '-' {
        Some(Punctuation::Minus)
    } else if c == '*' {
        Some(Punctuation::Star)
    } else if c == '/' {
        Some(Punctuation::Slash)
    } else if c == '%' {
        Some(Punctuation::Percent)
    } else if c == '=' {
        Some(Punctuation::Equal)
    } else if c == '!' {
        Some(Punctuation::Bang)
    } else if c == '<' {
        Some(Punctuation::Less)
    } else if c == '>' {
        Some(Punctuation::Greater)
    } else if c == ';' {
        Some(Punctuation::Semicolon)
    } else if c == ':' {
        Some(Punctuation::Colon)
    } else if c == ',' {
        Some(Punctuation::Comma)
    } else if c == '.' {
        Some(Punctuation::Dot)
    } else if c == '(' {
        Some(Punctuation::LeftParen)
    } else if c == ')' {
        Some(Punctuation::RightParen)
    } else if c == '{' {
        Some(Punctuation::LeftBrace)
    } else if c == '}' {
        Some(Punctuation::RightBrace)
    } else if c == '[' {
        Some(Punctuation::LeftBracket)
    } else if c == ']' {
        Some(Punctuation::RightBracket)
    } else {
        None
    }
}

/// The token that starts at `i`, where a character that is no white space
/// stands, and the place behind the token. The result is `None` where no
/// token starts with that character, a string is not closed, or a number
/// is beyond the range of the integers.
pub open spec fn token_at(s: Seq<char>, i: int) -> Option<(TokenView, int)> {
    let c = s[i];
    if is_letter(c) {
        let j = word_end(s, i);
        Some((TokenView { lexeme: s.subrange(i, j), type_of: word_kind(s.subrange(i, j)) }, j))
    } else if is_digit(c) {
        let j = digits_end(s, i);
        match spec_parse_i64(s.subrange(i, j)) {
            Some(n) => Some(
                (
                    TokenView {
                        lexeme: s.subrange(i, j),
                        type_of: TokenTypeView::Literal(DataTypeView::Int(n)),
                    },
                    j,
                ),
            ),
            None => None,
        }
    } else if c == '"' {
        match quote_at(s, i + 1) {
            Some(j) => Some(
                (
                    TokenView {
                        lexeme: s.subrange(i, j + 1),
                        type_of: TokenTypeView::Literal(
                            DataTypeView::String(s.subrange(i + 1, j)),
                        ),
                    },
                    j + 1,
                ),
            ),
            None => None,
        }
    } else if i + 1 < s.len() && double_symbol(c, s[i + 1]) is Some {
        Some(
            (
                TokenView {
                    lexeme: s.subrange(i, i + 2),
                    type_of: TokenTypeView::Punctuation(double_symbol(c, s[i + 1])->Some_0),
                },
                i + 2,
            ),
        )
    } else {
        match single_symbol(c) {
            Some(p) => Some(
                (
                    TokenView {
                        lexeme: s.subrange(i, i + 1),
                        type_of: TokenTypeView::Punctuation(p),
                    },
                    i + 1,
                ),
            ),
            None => None,
        }
    }
}

/// The tokens of a text from the place `i` on, or `None` where some
/// character starts no token.
pub open spec fn scanned(s: Seq<char>, i: int) -> Option<Seq<TokenView>>
    decreases s.len() - i,
{
    if i < 0 || i >= s.len() {
        Some(Seq::empty())
    } else if is_space(s[i]) {
        scanned(s, i + 1)
    } else {
        match token_at(s, i) {
            None => None,
            Some((token, j)) => if i < j <= s.len() {
                match scanned(s, j) {
                    Some(rest) => Some(seq![token] + rest),
                    None => None,
                }
            } else {
                None
            },
        }
    }
}

fn letter(c: char) -> (r: bool)
    ensures
        r == is_letter(c),
{
    (c >= 'a' && c <= 'z') || (c >= 'A' && c <= 'Z') || c == '_'
}

fn digit(c: char) -> (r: bool)
    ensures
        r == is_digit(c),
{
    c >= '0' && c <= '9'
}

/// The kind of the word `w`.
fn classify(w: &str) -> (r: TokenType)
    ensures
        r@ == word_kind(w@),
{
    if same_text(w, "for") {
        TokenType::Keyword(Keyword::For)
    } else if same_text(w, "while") {
        TokenType::Keyword(Keyword::While)
    } else if same_text(w, "if") {
        TokenType::Keyword(Keyword::If)
    } else if same_text(w, "else") {
        TokenType::Keyword(Keyword::Else)
    } else if same_text(w, "var") {
        TokenType::Keyword(Keyword::Var)
    } else if same_text(w, "fun") {
        TokenType::Keyword(Keyword::Fun)
    } else if same_text(w, "return") {
        TokenType::Keyword(Keyword::Return)
    } else if same_text(w, "struct") {
        TokenType::Keyword(Keyword::Struct)
    } else if same_text(w, "and") {
        TokenType::Punctuation(Punctuation::And)
    } else if same_text(w, "or") {
        TokenType::Punctuation(Punctuation::Or)
    } else if same_text(w, "not") {
        TokenType::Punctuation(Punctuation::Bang)
    } else if same_text(w, "True") {
        TokenType::Literal(DataType::Bool(true))
    } else if same_text(w, "False") {
        TokenType::Literal(DataType::Bool(false))
    } else if same_text(w, "Nil") {
        TokenType::Literal(DataType::Nil)
    } else {
        TokenType::Identifier
    }
}

fn double(a: char, b: char) -> (r: Option<Punctuation>)
    ensures
        r == double_symbol(a, b),
{
    if a == '=' && b == '=' {
        Some(Punctuation::EqualEqual)
    } else if a == '!' && b == '=' {
        Some(Punctuation::BangEqual)
    } else if a == '<' && b == '=' {
        Some(Punctuation::LessEqual)
    } else if a == '>' && b == '=' {
        Some(Punctuation::GreaterEqual)
    } else if a == '-' && b == '>' {
        Some(Punctuation::Arrow)
    } else {
        None
    }
}

fn single(c: char) -> (r: Option<Punctuation>)
    ensures
        r == single_symbol(c),
{
    if c == '+' {
        Some(Punctuation::Plus)
    } else if c == '-' {
        Some(Punctuation::Minus)
    } else if c == '*' {
        Some(Punctuation::Star)
    } else if c == '/' {
        Some(Punctuation::Slash)
    } else if c == '%' {
        Some(Punctuation::Percent)
    } else if c == '=' {
        Some(Punctuation::Equal)
    } else if c == '!' {
        Some(Punctuation::Bang)
    } else if c == '<' {
        Some(Punctuation::Less)
    } else if c == '>' {
        Some(Punctuation::Greater)
    } else if c == ';' {
        Some(Punctuation::Semicolon)
    } else if c == ':' {
        Some(Punctuation::Colon)
    } else if c == ',' {
        Some(Punctuation::Comma)
    } else if c == '.' {
        Some(Punctuation::Dot)
    } else if c == '(' {
        Some(Punctuation::LeftParen)
    } else if c == ')' {
        Some(Punctuation::RightParen)
    } else if c == '{' {
        Some(Punctuation::LeftBrace)
    } else if c == '}' {
        Some(Punctuation::RightBrace)
    } else if c == '[' {
        Some(Punctuation::LeftBracket)
    } else if c == ']' {
        Some(Punctuation::RightBracket)
    } else {
        None
    }
}

/// The characters of a text.
fn characters(input: &str) -> (r: Vec<char>)
    ensures
        r@ == input@,
{
    let n = input.unicode_len();
    let mut chars: Vec<char> = Vec::new();
    let mut i: usize = 0;
    while i < n
        invariant
            i <= n,
            n == input@.len(),
            chars@ == input@.take(i as int),
        decreases n - i,
    {
        chars.push(input.get_char(i));
        assert(chars@ =~= input@.take(i + 1));
        i += 1;
    }
    assert(input@.take(n as int) =~= input@);
    chars
}

/// Reads the token that starts at `i`.
fn next_token(input: &str, chars: &Vec<char>, i: usize) -> (r: Option<(Token, usize)>)
    requires
        chars@ == input@,
        i < chars.len(),
    ensures
        match token_at(input@, i as int) {
            Some((token, j)) => r is Some && r->Some_0.0@ == token && r->Some_0.1 == j && i < j
                <= chars.len(),
            None => r is None,
        },
{
    let n = chars.len();
    let c = chars[i];
    if letter(c) {
        let mut j: usize = i + 1;
        while j < n && (letter(chars[j]) || digit(chars[j]))
            invariant
                i < j <= n,
                n == chars.len(),
                chars@ == input@,
                word_end(input@, i as int) == word_end(input@, j as int),
            decreases n - j,
        {
            j += 1;
        }
        let lexeme = input.substring_char(i, j);
        Some((Token { lexeme: lexeme.to_owned(), type_of: classify(lexeme) }, j))
    } else if digit(c) {
        let mut j: usize = i + 1;
        while j < n && digit(chars[j])
            invariant
                i < j <= n,
                n == chars.len(),
                chars@ == input@,
                digits_end(input@, i as int) == digits_end(input@, j as int),
            decreases n - j,
        {
            j += 1;
        }
        let lexeme = input.substring_char(i, j);
        match parse_i64(lexeme) {
            Some(value) => Some(
                (
                    Token {
                        lexeme: lexeme.to_owned(),
                        type_of: TokenType::Literal(DataType::Int(value)),
                    },
                    j,
                ),
            ),
            None => None,
        }
    } else if c == '"' {
        let mut j: usize = i + 1;
        while j < n && chars[j] != '"'
            invariant
                i < j <= n,
                n == chars.len(),
                chars@ == input@,
                quote_at(input@, i + 1) == quote_at(input@, j as int),
            decreases n - j,
        {
            j += 1;
        }
        if j >= n {
            return None;
        }
        let lexeme = input.substring_char(i, j + 1);
        let content = input.substring_char(i + 1, j);
        Some(
            (
                Token {
                    lexeme: lexeme.to_owned(),
                    type_of: TokenType::Literal(DataType::String(content.to_owned())),
                },
                j + 1,
            ),
        )
    } else {
        if i + 1 < n {
            match double(c, chars[i + 1]) {
                Some(p) => {
                    let lexeme = input.substring_char(i, i + 2);
                    return Some(
                        (
                            Token {
                                lexeme: lexeme.to_owned(),
                                type_of: TokenType::Punctuation(p),
                            },
                            i + 2,
                        ),
                    );
                },
                None => {},
            }
        }
        match single(c) {
            Some(p) => {
                let lexeme = input.substring_char(i, i + 1);
                Some(
                    (
                        Token { lexeme: lexeme.to_owned(), type_of: TokenType::Punctuation(p) },
                        i + 1,
                    ),
                )
            },
            None => None,
        }
    }
}

/// Splits a source text into tokens. Where some character starts no token,
/// the error is the place of that character, counted in characters.
pub fn scan(input: &str) -> (r: Result<Vec<Token>, usize>)
    ensures
        match scanned(input@, 0) {
            Some(tokens) => r is Ok && tokens_view(r->Ok_0@) == tokens,
            None => r is Err,
        },
{
    let chars = characters(input);
    let n = chars.len();
    let mut tokens: Vec<Token> = Vec::new();
    let mut i: usize = 0;
    while i < n
        invariant
            i <= n,
            n == chars.len(),
            chars@ == input@,
            scanned(input@, 0) == match scanned(input@, i as int) {
                Some(rest) => Some(tokens_view(tokens@) + rest),
                None => None,
            },
        decreases n - i,
    {
        if is_whitespace(chars[i]) {
            i += 1;
        } else {
            match next_token(input, &chars, i) {
                None => {
                    return Err(i);
                },
                Some((token, j)) => {
                    let ghost before = tokens_view(tokens@);
                    tokens.push(token);
                    proof {
                        assert(tokens_view(tokens@) =~= before.push(token@));
                        match scanned(input@, j as int) {
                            Some(rest) => {
                                assert(before + (seq![token@] + rest) =~= tokens_view(tokens@)
                                    + rest);
                            },
                            None => {},
                        }
                    }
                    i = j;
                },
            }
        }
    }
    assert(tokens_view(tokens@) + Seq::<TokenView>::empty() =~= tokens_view(tokens@));
    Ok(tokens)
}

} // verus!
