//! The lexer: from the characters of a formula to its tokens.

use vstd::prelude::*;
use vstd::string::StrSliceExecFns;
use crate::token::{Token, Implicator, Operator, Parenthesis, Identifier, ParseError, is_identifier,
    is_whitespace, is_identifier_char, is_space};

verus! {

/// What stands at one place of a formula: nothing to keep, or a token, with
/// the number of characters it takes up.
pub enum Lexeme {
    Blank,
    Word(Token, nat),
    Unknown,
}

/// The lexeme that starts at `pos`. The arrows are matched longest first:
/// `<=>` before `=>`; a `<` or `=` that starts neither is unknown.
pub open spec fn lexeme_at(s: Seq<char>, pos: int) -> Lexeme
    recommends
        0 <= pos < s.len(),
{
    let c = s[pos];
    if is_space(c) {
        Lexeme::Blank
    } else if c == '+' || c == '|' || c == '^' || c == '!' {
        Lexeme::Word(Token::Operator(Operator(c)), 1)
    } else if c == '(' || c == ')' {
        Lexeme::Word(Token::Parenthesis(Parenthesis(c)), 1)
    } else if is_identifier_char(c) {
        Lexeme::Word(Token::Identifier(Identifier(c)), 1)
    } else if c == '<' && pos + 2 < s.len() && s[pos + 1] == '=' && s[pos + 2] == '>' {
        Lexeme::Word(Token::Implicator(Implicator { iff: true }), 3)
    } else if c == '=' && pos + 1 < s.len() && s[pos + 1] == '>' {
        Lexeme::Word(Token::Implicator(Implicator { iff: false }), 2)
    } else {
        Lexeme::Unknown
    }
}

/// The tokens of `s` from `pos` on, in source order, or the first character
/// that starts no lexeme.
pub open spec fn lex_from(s: Seq<char>, pos: int) -> Result<Seq<Token>, ParseError>
    decreases s.len() - pos,
{
    if pos < 0 || pos >= s.len() {
        Ok(Seq::empty())
    } else {
        match lexeme_at(s, pos) {
            Lexeme::Unknown => Err(ParseError::LexError { position: pos as usize, character: s[pos] }),
            Lexeme::Blank => lex_from(s, pos + 1),
            Lexeme::Word(t, width) => match lex_from(s, pos + width) {
                Ok(rest) => Ok(seq![t] + rest),
                Err(e) => Err(e),
            },
        }
    }
}

/// The tokens of the formula `s`.
pub open spec fn lex(s: Seq<char>) -> Result<Seq<Token>, ParseError> {
    lex_from(s, 0)
}

/// What `lex` gives when `done` are the tokens before `pos`.
pub open spec fn lex_after(done: Seq<Token>, s: Seq<char>, pos: int) -> Result<Seq<Token>, ParseError> {
    match lex_from(s, pos) {
        Ok(rest) => Ok(done + rest),
        Err(e) => Err(e),
    }
}

/// Splits a formula into tokens. Blank space is dropped; any character that
/// starts no token is given back with its position.
pub fn tokenize(formula: &str) -> (r: Result<Vec<Token>, ParseError>)
    ensures
        match r {
            Ok(tokens) => lex(formula@) == Ok::<Seq<Token>, ParseError>(tokens@),
            Err(e) => lex(formula@) == Err::<Seq<Token>, ParseError>(e),
        },
{
    let n: usize = formula.unicode_len();
    let mut out: Vec<Token> = Vec::new();
    let mut i: usize = 0;
    proof {
        if let Ok(all) = lex_from(formula@, 0) {
            assert(out@ + all =~= all);
        }
    }
    while i < n
        invariant
            n == formula@.len(),
            i <= n,
            lex(formula@) == lex_after(out@, formula@, i as int),
        decreases n - i,
    {
        let c = formula.get_char(i);
        let ghost before = out@;
        let mut width: usize = 1;
        if is_whitespace(c) {
        } else if c == '+' || c == '|' || c == '^' || c == '!' {
            out.push(Token::Operator(Operator(c)));
        } else if c == '(' || c == ')' {
            out.push(Token::Parenthesis(Parenthesis(c)));
        } else if is_identifier(c) {
            out.push(Token::Identifier(Identifier(c)));
        } else if c == '<' && n - i > 2 && formula.get_char(i + 1) == '=' && formula.get_char(i + 2) == '>' {
            out.push(Token::Implicator(Implicator { iff: true }));
            width = 3;
        } else if c == '=' && n - i > 1 && formula.get_char(i + 1) == '>' {
            out.push(Token::Implicator(Implicator { iff: false }));
            width = 2;
        } else {
            return Err(ParseError::LexError { position: i, character: c });
        }
        proof {
            match lexeme_at(formula@, i as int) {
                Lexeme::Word(t, w) => {
                    assert(w == width);
                    let rest = lex_from(formula@, i + width);
                    if rest is Ok {
                        assert(before + (seq![t] + rest->Ok_0) =~= before.push(t) + rest->Ok_0);
                    }
                },
                _ => {},
            }
        }
        i = i + width;
    }
    proof {
        assert(out@ + Seq::<Token>::empty() =~= out@);
    }
    Ok(out)
}

} // verus!
