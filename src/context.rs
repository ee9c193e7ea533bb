use vstd::prelude::*;
use crate::ir::{ErrorKind, Expected, ParseError, Punct, Value, ValueModel};
use crate::lexer::{lex, tokenize, tokens_fit, Token, TokenKind};
use crate::parser::{fail_at, first_error, is_kind, is_sym, remaining, str_body, value_spec};

verus! {

pub open spec fn pairs_view(v: Seq<(String, Value)>) -> Seq<(Seq<char>, ValueModel)> {
    v.map_values(|p: (String, Value)| (p.0@, p.1@))
}

/// The `"key" => value` pairs from `i` to the end of the input, separated by
/// commas, with an optional trailing comma; keys may repeat.
pub open spec fn pairs_spec(s: Seq<char>, t: Seq<Token>, i: int) -> Result<
    Seq<(Seq<char>, ValueModel)>,
    ParseError,
>
    decreases remaining(t, i),
{
    if i < 0 || i >= t.len() {
        Ok(Seq::empty())
    } else if !is_kind(t, i, TokenKind::Str) {
        fail_at(s, t, i, ErrorKind::Grammar(Expected::StringLiteral))
    } else if !is_sym(t, i + 1, Punct::FatArrow) {
        fail_at(s, t, i + 1, ErrorKind::Grammar(Expected::Punct(Punct::FatArrow)))
    } else {
        match value_spec(s, t, i + 2) {
            Err(e) => Err(e),
            Ok((v, n)) => {
                let p = (str_body(s, t[i]), v);
                let k = i + 2 + n;
                if k >= t.len() {
                    Ok(seq![p])
                } else if !is_sym(t, k, Punct::Comma) {
                    fail_at(s, t, k, ErrorKind::Grammar(Expected::Punct(Punct::Comma)))
                } else {
                    match pairs_spec(s, t, k + 1) {
                        Ok(rest) => Ok(seq![p] + rest),
                        Err(e) => Err(e),
                    }
                }
            },
        }
    }
}

/// What reading the context literal `s` yields: its pairs, or the first
/// error in it.
pub open spec fn context_spec(s: Seq<char>) -> Result<Seq<(Seq<char>, ValueModel)>, ParseError> {
    first_error(pairs_spec(s, lex(s).0, 0), lex(s).1)
}

/// Parses the context pairs from token `i` to the end, as `pairs_spec` says.
pub fn parse_pairs(src: &str, t: &Vec<Token>, i: usize) -> (r: Result<Vec<(String, Value)>, ParseError>)
    requires
        tokens_fit(src@, t@),
    ensures
        match (r, pairs_spec(src@, t@, i as int)) {
            (Ok(v), Ok(w)) => pairs_view(v@) == w,
            (Err(e), Err(f)) => e == f,
            _ => false,
        },
    decreases remaining(t@, i as int),
{
    if i >= t.len() {
        return Ok(Vec::new());
    }
    if !(t[i].kind == TokenKind::Str) {
        return Err(crate::parser::error_at(src, t, i, ErrorKind::Grammar(Expected::StringLiteral)));
    }
    if !(i + 1 < t.len() && t[i + 1].kind == TokenKind::Sym(Punct::FatArrow)) {
        return Err(
            crate::parser::error_at(
                src,
                t,
                i + 1,
                ErrorKind::Grammar(Expected::Punct(Punct::FatArrow)),
            ),
        );
    }
    let (value, n) = match crate::parser::parse_value(src, t, i + 2) {
        Ok(x) => x,
        Err(e) => return Err(e),
    };
    let k = i + 2 + n;
    let key = crate::parser::body_of(src, t, i);
    let ghost pm = (key@, value@);
    if k >= t.len() {
        let mut v: Vec<(String, Value)> = Vec::new();
        v.push((key, value));
        assert(pairs_view(v@) =~= seq![pm]);
        return Ok(v);
    }
    if !(t[k].kind == TokenKind::Sym(Punct::Comma)) {
        return Err(
            crate::parser::error_at(src, t, k, ErrorKind::Grammar(Expected::Punct(Punct::Comma))),
        );
    }
    match parse_pairs(src, t, k + 1) {
        Ok(rest) => {
            let mut v = rest;
            let ghost old_v = v@;
            v.insert(0, (key, value));
            assert(pairs_view(v@) =~= seq![pm] + pairs_view(old_v));
            Ok(v)
        },
        Err(e) => Err(e),
    }
}

/// Reads a context literal: `"key" => value` pairs, in order, duplicates
/// kept.
pub fn ctx(src: &str) -> (r: Result<Vec<(String, Value)>, ParseError>)
    ensures
        match (r, context_spec(src@)) {
            (Ok(v), Ok(w)) => pairs_view(v@) == w,
            (Err(e), Err(f)) => e == f,
            _ => false,
        },
{
    let (t, lexing) = tokenize(src);
    let parsed = parse_pairs(src, &t, 0);
    match lexing {
        None => parsed,
        Some(e) => match parsed {
            Err(p) => if p.pos < e.pos {
                Err(p)
            } else {
                Err(e)
            },
            Ok(_) => Err(e),
        },
    }
}

} // verus!
