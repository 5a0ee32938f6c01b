//! Turning source text into tokens.
use vstd::prelude::*;

use crate::text::{chars_eq, string_from_chars};

verus! {

/// A lexical token of the language.
#[derive(Debug, PartialEq)]
pub enum Token {
    Name(String),
    Let,
    Fun,
    Ret,
    Struct,
    Enum,
    Number(isize),
    LParens,
    RParens,
    LBrace,
    RBrace,
    LBracket,
    RBracket,
    LAngle,
    RAngle,
    Comma,
    Equals,
    SemiColon,
    Dot,
    Colon,
    Plus,
    Minus,
}

/// The mathematical model of a token: names are character sequences.
pub enum SpecToken {
    Name(Seq<char>),
    Let,
    Fun,
    Ret,
    Struct,
    Enum,
    Number(isize),
    LParens,
    RParens,
    LBrace,
    RBrace,
    LBracket,
    RBracket,
    LAngle,
    RAngle,
    Comma,
    Equals,
    SemiColon,
    Dot,
    Colon,
    Plus,
    Minus,
}

impl View for Token {
    type V = SpecToken;

    open spec fn view(&self) -> SpecToken {
        match self {
            Token::Name(n) => SpecToken::Name(n@),
            Token::Let => SpecToken::Let,
            Token::Fun => SpecToken::Fun,
            Token::Ret => SpecToken::Ret,
            Token::Struct => SpecToken::Struct,
            Token::Enum => SpecToken::Enum,
            Token::Number(x) => SpecToken::Number(*x),
            Token::LParens => SpecToken::LParens,
            Token::RParens => SpecToken::RParens,
            Token::LBrace => SpecToken::LBrace,
            Token::RBrace => SpecToken::RBrace,
            Token::LBracket => SpecToken::LBracket,
            Token::RBracket => SpecToken::RBracket,
            Token::LAngle => SpecToken::LAngle,
            Token::RAngle => SpecToken::RAngle,
            Token::Comma => SpecToken::Comma,
            Token::Equals => SpecToken::Equals,
            Token::SemiColon => SpecToken::SemiColon,
            Token::Dot => SpecToken::Dot,
            Token::Colon => SpecToken::Colon,
            Token::Plus => SpecToken::Plus,
            Token::Minus => SpecToken::Minus,
        }
    }
}

/// The models of a sequence of tokens.
pub open spec fn tokens_view(s: Seq<Token>) -> Seq<SpecToken> {
    Seq::new(s.len(), |i: int| s[i]@)
}

pub open spec fn is_digit(c: char) -> bool {
    '0' <= c && c <= '9'
}

/// Characters that make up names, keywords and numbers.
pub open spec fn is_word_char(c: char) -> bool {
    ||| is_digit(c)
    ||| ('a' <= c && c <= 'z')
    ||| ('A' <= c && c <= 'Z')
    ||| c == '_'
}

/// Characters that only separate tokens.
pub open spec fn is_blank(c: char) -> bool {
    c == '\t' || c == '\n' || c == ' '
}

/// The token that a single punctuation character stands for.
pub open spec fn punct_token(c: char) -> Option<SpecToken> {
    if c == '(' {
        Some(SpecToken::LParens)
    } else if c == ')' {
        Some(SpecToken::RParens)
    } else if c == '{' {
        Some(SpecToken::LBrace)
    } else if c == '}' {
        Some(SpecToken::RBrace)
    } else if c == '[' {
        Some(SpecToken::LBracket)
    } else if c == ']' {
        Some(SpecToken::RBracket)
    } else if c == '<' {
        Some(SpecToken::LAngle)
    } else if c == '>' {
        Some(SpecToken::RAngle)
    } else if c == ',' {
        Some(SpecToken::Comma)
    } else if c == ';' {
        Some(SpecToken::SemiColon)
    } else if c == ':' {
        Some(SpecToken::Colon)
    } else if c == '=' {
        Some(SpecToken::Equals)
    } else if c == '+' {
        Some(SpecToken::Plus)
    } else if c == '-' {
        Some(SpecToken::Minus)
    } else if c == '.' {
        Some(SpecToken::Dot)
    } else {
        None
    }
}

pub open spec fn digit_value(c: char) -> int {
    (c as int) - ('0' as int)
}

/// The number that a sequence of decimal digits denotes.
pub open spec fn decimal_value(s: Seq<char>) -> int
    decreases s.len(),
{
    if s.len() == 0 {
        0
    } else {
        10 * decimal_value(s.drop_last()) + digit_value(s.last())
    }
}

pub open spec fn all_digits(s: Seq<char>) -> bool {
    forall|i: int| 0 <= i < s.len() ==> is_digit(#[trigger] s[i])
}

/// The token that a maximal run of word characters stands for: a run that
/// starts with a digit must be a decimal number that fits in an `isize`; the
/// keywords stand for themselves; anything else is a name.
pub open spec fn word_token(w: Seq<char>) -> Option<SpecToken> {
    if w.len() > 0 && is_digit(w[0]) {
        if all_digits(w) && decimal_value(w) <= isize::MAX {
            Some(SpecToken::Number(decimal_value(w) as isize))
        } else {
            None
        }
    } else if w == seq!['l', 'e', 't'] {
        Some(SpecToken::Let)
    } else if w == seq!['f', 'u', 'n'] {
        Some(SpecToken::Fun)
    } else if w == seq!['r', 'e', 't'] {
        Some(SpecToken::Ret)
    } else if w == seq!['s', 't', 'r', 'u', 'c', 't'] {
        Some(SpecToken::Struct)
    } else if w == seq!['e', 'n', 'u', 'm'] {
        Some(SpecToken::Enum)
    } else {
        Some(SpecToken::Name(w))
    }
}

/// Ends the pending word, if there is one, by appending its token.
pub open spec fn flush_word(word: Seq<char>, toks: Seq<SpecToken>) -> Option<Seq<SpecToken>> {
    if word.len() == 0 {
        Some(toks)
    } else {
        match word_token(word) {
            Some(t) => Some(toks.push(t)),
            None => None,
        }
    }
}

/// One character of input: word characters extend the pending word; any other
/// character ends it and is then skipped (blanks), turned into a token
/// (punctuation), or rejected.
pub open spec fn lex_step(word: Seq<char>, toks: Seq<SpecToken>, c: char) -> Option<(Seq<char>, Seq<SpecToken>)> {
    if is_word_char(c) {
        Some((word.push(c), toks))
    } else {
        match flush_word(word, toks) {
            None => None,
            Some(toks1) => if is_blank(c) {
                Some((Seq::empty(), toks1))
            } else {
                match punct_token(c) {
                    Some(t) => Some((Seq::empty(), toks1.push(t))),
                    None => None,
                }
            },
        }
    }
}

/// The pending word and the tokens after reading all of `s`.
pub open spec fn lex(s: Seq<char>) -> Option<(Seq<char>, Seq<SpecToken>)>
    decreases s.len(),
{
    if s.len() == 0 {
        Some((Seq::empty(), Seq::empty()))
    } else {
        match lex(s.drop_last()) {
            Some((word, toks)) => lex_step(word, toks, s.last()),
            None => None,
        }
    }
}

/// The tokens of a source text, or `None` where the text holds a character
/// that is no token, or a number that is malformed or too large.
pub open spec fn spec_tokenize(s: Seq<char>) -> Option<Seq<SpecToken>> {
    match lex(s) {
        Some((word, toks)) => flush_word(word, toks),
        None => None,
    }
}

proof fn lemma_decimal_monotone(s: Seq<char>, k: int)
    requires
        0 <= k <= s.len(),
        all_digits(s),
    ensures
        decimal_value(s.take(k)) <= decimal_value(s),
        decimal_value(s) >= 0,
    decreases s.len(),
{
    if s.len() > 0 {
        let p = s.drop_last();
        assert(all_digits(p)) by {
            assert forall|i: int| 0 <= i < p.len() implies is_digit(#[trigger] p[i]) by {
                assert(p[i] == s[i]);
            }
        }
        assert(is_digit(s[s.len() - 1]));
        if k < s.len() {
            lemma_decimal_monotone(p, k);
            assert(p.take(k) =~= s.take(k));
        } else {
            lemma_decimal_monotone(p, 0);
            assert(s.take(k) =~= s);
        }
    }
}

fn is_digit_char(c: char) -> (r: bool)
    ensures r == is_digit(c),
{
    '0' <= c && c <= '9'
}

fn is_word_character(c: char) -> (r: bool)
    ensures r == is_word_char(c),
{
    ('0' <= c && c <= '9') || ('a' <= c && c <= 'z') || ('A' <= c && c <= 'Z') || c == '_'
}

/// The value of a run of word characters that starts with a digit, where it is
/// a decimal number that fits in an `isize`.
fn parse_number(w: &Vec<char>) -> (r: Option<isize>)
    ensures
        r == (if all_digits(w@) && decimal_value(w@) <= isize::MAX {
            Some(decimal_value(w@) as isize)
        } else {
            None
        }),
{
    let mut v: isize = 0;
    let mut i: usize = 0;
    while i < w.len()
        invariant
            0 <= i <= w.len(),
            all_digits(w@.take(i as int)),
            v == decimal_value(w@.take(i as int)),
        decreases w.len() - i,
    {
        let c = w[i];
        if !is_digit_char(c) {
            assert(!all_digits(w@));
            return None;
        }
        let d = (c as u32 - '0' as u32) as isize;
        let ghost prefix = w@.take(i as int + 1);
        assert(prefix.drop_last() =~= w@.take(i as int));
        assert(all_digits(prefix)) by {
            assert forall|j: int| 0 <= j < prefix.len() implies is_digit(#[trigger] prefix[j]) by {
                if j < i {
                    assert(prefix[j] == w@.take(i as int)[j]);
                }
            }
        }
        let m = v.checked_mul(10);
        if m.is_none() {
            proof {
                lemma_decimal_monotone(prefix, prefix.len() - 1);
                assert(prefix.take(prefix.len() - 1) =~= w@.take(i as int));
                if all_digits(w@) {
                    lemma_decimal_monotone(w@, i + 1);
                }
            }
            return None;
        }
        let s = m.unwrap().checked_add(d);
        if s.is_none() {
            proof {
                if all_digits(w@) {
                    lemma_decimal_monotone(w@, i + 1);
                }
            }
            return None;
        }
        v = s.unwrap();
        i = i + 1;
    }
    assert(w@.take(i as int) =~= w@);
    Some(v)
}


/// The token of a pending word (see `word_token`).
fn word_to_token(w: &Vec<char>) -> (r: Option<Token>)
    requires
        w.len() > 0,
    ensures
        match r {
            Some(t) => word_token(w@) == Some(t@),
            None => word_token(w@) is None,
        },
{
    if is_digit_char(w[0]) {
        match parse_number(w) {
            Some(n) => Some(Token::Number(n)),
            None => None,
        }
    } else if chars_eq(w, &vec!['l', 'e', 't']) {
        Some(Token::Let)
    } else if chars_eq(w, &vec!['f', 'u', 'n']) {
        Some(Token::Fun)
    } else if chars_eq(w, &vec!['r', 'e', 't']) {
        Some(Token::Ret)
    } else if chars_eq(w, &vec!['s', 't', 'r', 'u', 'c', 't']) {
        Some(Token::Struct)
    } else if chars_eq(w, &vec!['e', 'n', 'u', 'm']) {
        Some(Token::Enum)
    } else {
        Some(Token::Name(string_from_chars(w)))
    }
}

/// The token of a punctuation character (see `punct_token`).
fn punct_to_token(c: char) -> (r: Option<Token>)
    ensures
        match r {
            Some(t) => punct_token(c) == Some(t@),
            None => punct_token(c) is None,
        },
{
    if c == '(' {
        Some(Token::LParens)
    } else if c == ')' {
        Some(Token::RParens)
    } else if c == '{' {
        Some(Token::LBrace)
    } else if c == '}' {
        Some(Token::RBrace)
    } else if c == '[' {
        Some(Token::LBracket)
    } else if c == ']' {
        Some(Token::RBracket)
    } else if c == '<' {
        Some(Token::LAngle)
    } else if c == '>' {
        Some(Token::RAngle)
    } else if c == ',' {
        Some(Token::Comma)
    } else if c == ';' {
        Some(Token::SemiColon)
    } else if c == ':' {
        Some(Token::Colon)
    } else if c == '=' {
        Some(Token::Equals)
    } else if c == '+' {
        Some(Token::Plus)
    } else if c == '-' {
        Some(Token::Minus)
    } else if c == '.' {
        Some(Token::Dot)
    } else {
        None
    }
}

/// Once a prefix of the input is rejected, so is the whole input.
pub proof fn lemma_lex_rejects_extension(s: Seq<char>, k: int)
    requires
        0 <= k <= s.len(),
        lex(s.take(k)) is None,
    ensures
        lex(s) is None,
    decreases s.len(),
{
    if k < s.len() {
        assert(s.drop_last().take(k) =~= s.take(k));
        lemma_lex_rejects_extension(s.drop_last(), k);
    } else {
        assert(s.take(k) =~= s);
    }
}

/// Appends the token of the pending word, if there is one, and empties it.
fn flush(word: &mut Vec<char>, toks: &mut Vec<Token>) -> (ok: bool)
    ensures
        ok == flush_word(old(word)@, tokens_view(old(toks)@)) is Some,
        ok ==> tokens_view(final(toks)@) == flush_word(old(word)@, tokens_view(old(toks)@)).unwrap(),
        final(word)@ == Seq::<char>::empty(),
{
    if word.len() == 0 {
        return true;
    }
    match word_to_token(word) {
        Some(t) => {
            let ghost old_toks = toks@;
            toks.push(t);
            assert(tokens_view(toks@) =~= tokens_view(old_toks).push(t@));
            *word = Vec::new();
            true
        },
        None => {
            *word = Vec::new();
            false
        },
    }
}

/// The tokens of a source text (see `spec_tokenize`); `None` where the text
/// holds a character that is no token, or a malformed or too large number.
/// This is the checking form of `tokenize`.
pub fn try_tokenize(file: &str) -> (r: Option<Vec<Token>>)
    ensures
        match r {
            Some(v) => spec_tokenize(file@) == Some(tokens_view(v@)),
            None => spec_tokenize(file@) is None,
        },
{
    let mut word: Vec<char> = Vec::new();
    let mut tokens: Vec<Token> = Vec::new();
    assert(tokens_view(tokens@) =~= Seq::<SpecToken>::empty());
    assert(word@ =~= Seq::<char>::empty());
    for c in iter: file.chars()
        invariant
            iter.seq() == file@,
            lex(file@.take(iter.index() as int)) == Some((word@, tokens_view(tokens@))),
    {
        let ghost i = iter.index() as int;
        let ghost s = file@.take(i + 1);
        assert(s.drop_last() =~= file@.take(i));
        assert(s.last() == c);
        if is_word_character(c) {
            word.push(c);
        } else {
            if !flush(&mut word, &mut tokens) {
                proof {
                    lemma_lex_rejects_extension(file@, i + 1);
                }
                return None;
            }
            if !(c == '\t' || c == '\n' || c == ' ') {
                match punct_to_token(c) {
                    Some(t) => {
                        let ghost old_toks = tokens@;
                        tokens.push(t);
                        assert(tokens_view(tokens@) =~= tokens_view(old_toks).push(t@));
                    },
                    None => {
                        proof {
                            lemma_lex_rejects_extension(file@, i + 1);
                        }
                        return None;
                    },
                }
            }
        }
    }
    assert(file@.take(file@.len() as int) =~= file@);
    if flush(&mut word, &mut tokens) {
        Some(tokens)
    } else {
        None
    }
}

/// The tokens of a source text (see `spec_tokenize`). The text must hold
/// only tokens, blanks, and numbers that fit in an `isize`; `try_tokenize`
/// answers `None` on any other.
pub fn tokenize(file: &str) -> (r: Vec<Token>)
    requires
        spec_tokenize(file@) is Some,
    ensures
        spec_tokenize(file@) == Some(tokens_view(r@)),
{
    match try_tokenize(file) {
        Some(tokens) => tokens,
        None => Vec::new(),
    }
}

} // verus!
