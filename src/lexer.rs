use vstd::prelude::*;
use crate::ir::{ErrorKind, Expected, ParseError, Punct};

verus! {

broadcast use vstd::string::group_string_axioms;

/// What a token is; identifiers and string literals are read back from the
/// source through the token's span.
#[derive(Clone, Copy, Debug, PartialEq, Eq, Structural)]
pub enum TokenKind {
    Ident,
    /// A double-quoted string; its contents lie strictly inside the span.
    Str,
    /// A decimal literal (digits, with `_` allowed between them) and the
    /// number it denotes, at most 2^63; a minus sign is a separate token.
    Int(u64),
    /// Any other numeric literal, such as `5usize` or `0x1F`: only opaque
    /// expressions hold one.
    Number,
    Bool(bool),
    Sym(Punct),
}

/// A token and its span `[start, end)` in characters of the source.
#[derive(Clone, Copy, Debug, PartialEq, Eq, Structural)]
pub struct Token {
    pub kind: TokenKind,
    pub start: usize,
    pub end: usize,
}

pub open spec fn is_space(c: char) -> bool {
    c == ' ' || c == '\t' || c == '\n' || c == '\r'
}

pub open spec fn is_digit(c: char) -> bool {
    '0' <= c && c <= '9'
}

/// An ASCII letter, `_`, or any character outside ASCII.
pub open spec fn is_ident_start(c: char) -> bool {
    ('a' <= c && c <= 'z') || ('A' <= c && c <= 'Z') || c == '_' || (c as u32) >= 0x80
}

pub open spec fn is_ident_char(c: char) -> bool {
    is_ident_start(c) || is_digit(c)
}

/// The character classes that a token extends over.
#[derive(Clone, Copy, PartialEq, Eq, Structural)]
pub enum Run {
    IdentChars,
    /// Digits and `_`.
    Digits,
    HexDigits,
    Spaces,
    /// Anything but a line break.
    CommentBody,
}

pub open spec fn in_run(c: char, k: Run) -> bool {
    match k {
        Run::IdentChars => is_ident_char(c),
        Run::Digits => is_digit(c) || c == '_',
        Run::HexDigits => hex_value(c) is Some,
        Run::Spaces => is_space(c),
        Run::CommentBody => c != '\n',
    }
}

/// The first position at or after `i` whose character is not in `k`, or the
/// end of `s`.
pub open spec fn run_end(s: Seq<char>, i: int, k: Run) -> int
    decreases s.len() - i,
{
    if 0 <= i < s.len() && in_run(s[i], k) {
        run_end(s, i + 1, k)
    } else {
        i
    }
}

pub proof fn lemma_run_end_bounds(s: Seq<char>, i: int, k: Run)
    requires
        0 <= i <= s.len(),
    ensures
        i <= run_end(s, i, k) <= s.len(),
        forall|j: int| i <= j < run_end(s, i, k) ==> in_run(#[trigger] s[j], k),
    decreases s.len() - i,
{
    if i < s.len() && in_run(s[i], k) {
        lemma_run_end_bounds(s, i + 1, k);
    }
}

pub open spec fn digit_value(c: char) -> int {
    (c as u32) as int - ('0' as u32) as int
}

/// The number that a string of decimal digits denotes; `_` separates
/// digits and stands for nothing.
pub open spec fn decimal(d: Seq<char>) -> int
    decreases d.len(),
{
    if d.len() == 0 {
        0
    } else if d.last() == '_' {
        decimal(d.drop_last())
    } else {
        10 * decimal(d.drop_last()) + digit_value(d.last())
    }
}

/// The punctuation that a single character (other than `=` before `>`)
/// stands for; a character with no role of its own is an `Operator`, which
/// only opaque expressions hold.
pub open spec fn single_punct(c: char) -> Punct {
    if c == '*' {
        Punct::Star
    } else if c == '(' {
        Punct::LParen
    } else if c == ')' {
        Punct::RParen
    } else if c == '{' {
        Punct::LBrace
    } else if c == '}' {
        Punct::RBrace
    } else if c == '[' {
        Punct::LBracket
    } else if c == ']' {
        Punct::RBracket
    } else if c == ':' {
        Punct::Colon
    } else if c == ',' {
        Punct::Comma
    } else if c == ';' {
        Punct::Semi
    } else {
        Punct::Operator
    }
}

/// Where the string literal whose contents start at `i` closes: the
/// position of its closing quote, or the end of `s` when it never closes.
/// A backslash escapes the character after it.
pub open spec fn str_close(s: Seq<char>, i: int) -> int
    decreases s.len() - i,
{
    if i < 0 || i >= s.len() || s[i] == '"' {
        i
    } else if s[i] == '\\' {
        if i + 1 < s.len() {
            str_close(s, i + 2)
        } else {
            s.len() as int
        }
    } else {
        str_close(s, i + 1)
    }
}

pub proof fn lemma_str_close_bounds(s: Seq<char>, i: int)
    requires
        0 <= i <= s.len(),
    ensures
        i <= str_close(s, i) <= s.len(),
    decreases s.len() - i,
{
    if i < s.len() && s[i] != '"' {
        if s[i] == '\\' {
            if i + 1 < s.len() {
                lemma_str_close_bounds(s, i + 2);
            }
        } else {
            lemma_str_close_bounds(s, i + 1);
        }
    }
}

/// The character that `\c` stands for, for `c` among `n t r 0 \ ' "`.
pub open spec fn escaped(c: char) -> char {
    if c == 'n' {
        '\n'
    } else if c == 't' {
        '\t'
    } else if c == 'r' {
        '\r'
    } else if c == '0' {
        '\0'
    } else {
        c
    }
}

pub open spec fn is_simple_escape(c: char) -> bool {
    c == 'n' || c == 't' || c == 'r' || c == '0' || c == '\\' || c == '\'' || c == '"'
}

pub open spec fn hex_value(c: char) -> Option<int> {
    if '0' <= c && c <= '9' {
        Some((c as u32) as int - ('0' as u32) as int)
    } else if 'a' <= c && c <= 'f' {
        Some((c as u32) as int - ('a' as u32) as int + 10)
    } else if 'A' <= c && c <= 'F' {
        Some((c as u32) as int - ('A' as u32) as int + 10)
    } else {
        None
    }
}

/// The number that a string of hexadecimal digits denotes.
pub open spec fn hex_number(d: Seq<char>) -> int
    decreases d.len(),
{
    if d.len() == 0 {
        0
    } else {
        16 * hex_number(d.drop_last()) + hex_value(d.last())->Some_0
    }
}

/// A Unicode scalar value: a code point that is not a surrogate.
pub open spec fn is_scalar(v: int) -> bool {
    0 <= v <= 0x10FFFF && !(0xD800 <= v <= 0xDFFF)
}

/// The escape that starts at `b[0]`, a backslash: the characters it stands
/// for and how many characters it spans, or `None` when it is not one of
/// Rust's string escapes. `\n \t \r \0 \\ \' \"` stand for one character;
/// `\xHH` for the ASCII character with that code (at most `7F`);
/// `\u{H..}` (one to six hex digits) for the Unicode scalar value with that
/// code; a backslash before a line break for nothing, together with the
/// spaces after it.
pub open spec fn escape_at(b: Seq<char>) -> Option<(Seq<char>, int)> {
    if b.len() < 2 {
        None
    } else if is_simple_escape(b[1]) {
        Some((seq![escaped(b[1])], 2))
    } else if b[1] == 'x' {
        if b.len() >= 4 && hex_value(b[2]) is Some && hex_value(b[3]) is Some && hex_value(
            b[2],
        )->Some_0 <= 7 {
            Some(
                (
                    seq![((16 * hex_value(b[2])->Some_0 + hex_value(b[3])->Some_0) as u32) as char],
                    4,
                ),
            )
        } else {
            None
        }
    } else if b[1] == 'u' {
        let close = run_end(b, 3, Run::HexDigits);
        if b.len() > 3 && b[2] == '{' && 3 < close <= 9 && close < b.len() && b[close] == '}'
            && is_scalar(hex_number(b.subrange(3, close))) {
            Some((seq![(hex_number(b.subrange(3, close)) as u32) as char], close + 1))
        } else {
            None
        }
    } else if b[1] == '\n' {
        Some((Seq::empty(), run_end(b, 2, Run::Spaces)))
    } else {
        None
    }
}

pub proof fn lemma_escape_span(b: Seq<char>)
    requires
        escape_at(b) is Some,
    ensures
        2 <= escape_at(b)->Some_0.1 <= b.len(),
{
    lemma_run_end_bounds(b, 2, Run::Spaces);
    if b.len() > 3 {
        lemma_run_end_bounds(b, 3, Run::HexDigits);
    }
}

/// The characters that the contents `b` of a string literal stand for, with
/// each escape decoded; `None` if an escape is malformed.
pub open spec fn decode(b: Seq<char>) -> Option<Seq<char>>
    decreases b.len(),
{
    if b.len() == 0 {
        Some(Seq::empty())
    } else if b[0] == '\\' {
        match escape_at(b) {
            None => None,
            Some((cs, n)) => {
                proof {
                    lemma_escape_span(b);
                }
                match decode(b.subrange(n, b.len() as int)) {
                    Some(rest) => Some(cs + rest),
                    None => None,
                }
            },
        }
    } else {
        match decode(b.subrange(1, b.len() as int)) {
            Some(rest) => Some(seq![b[0]] + rest),
            None => None,
        }
    }
}

/// Whether a numeric literal starts at `i`.
pub open spec fn starts_number(s: Seq<char>, i: int) -> bool {
    is_digit(s[i])
}

pub open spec fn starts_fat_arrow(s: Seq<char>, i: int) -> bool {
    s[i] == '=' && i + 1 < s.len() && s[i + 1] == '>'
}

/// The end of the token that starts at `i` (not a space or comment).
pub open spec fn token_end(s: Seq<char>, i: int) -> int {
    if is_ident_start(s[i]) {
        run_end(s, i + 1, Run::IdentChars)
    } else if starts_number(s, i) {
        run_end(s, i + 1, Run::IdentChars)
    } else if s[i] == '"' {
        str_close(s, i + 1) + 1
    } else if starts_fat_arrow(s, i) {
        i + 2
    } else {
        i + 1
    }
}

/// The kind of the token that starts at `i`, or why there is none.
pub open spec fn token_kind(s: Seq<char>, i: int) -> Result<TokenKind, ErrorKind> {
    let e = token_end(s, i);
    if is_ident_start(s[i]) {
        let w = s.subrange(i, e);
        if w == seq!['t', 'r', 'u', 'e'] {
            Ok(TokenKind::Bool(true))
        } else if w == seq!['f', 'a', 'l', 's', 'e'] {
            Ok(TokenKind::Bool(false))
        } else {
            Ok(TokenKind::Ident)
        }
    } else if starts_number(s, i) {
        if run_end(s, i, Run::Digits) == e {
            let mag = decimal(s.subrange(i, e));
            if mag <= 0x8000_0000_0000_0000 {
                Ok(TokenKind::Int(mag as u64))
            } else {
                Err(ErrorKind::Type)
            }
        } else {
            Ok(TokenKind::Number)
        }
    } else if s[i] == '"' {
        if e <= s.len() {
            if decode(s.subrange(i + 1, e - 1)) is Some {
                Ok(TokenKind::Str)
            } else {
                Err(ErrorKind::Grammar(Expected::Escape))
            }
        } else {
            Err(ErrorKind::Grammar(Expected::Token))
        }
    } else if starts_fat_arrow(s, i) {
        Ok(TokenKind::Sym(Punct::FatArrow))
    } else {
        Ok(TokenKind::Sym(single_punct(s[i])))
    }
}

pub proof fn lemma_token_end(s: Seq<char>, i: int)
    requires
        0 <= i < s.len(),
    ensures
        i < token_end(s, i) <= s.len() + 1,
        token_kind(s, i) is Ok ==> token_end(s, i) <= s.len(),
        token_kind(s, i) == Ok::<TokenKind, ErrorKind>(TokenKind::Str) ==> i + 2 <= token_end(s, i),
{
    lemma_run_end_bounds(s, i + 1, Run::IdentChars);
    lemma_str_close_bounds(s, i + 1);
    lemma_run_end_bounds(s, i + 1, Run::Digits);
}

/// Just past the `*/` that closes a block comment whose text starts at `j`;
/// `depth` counts the comments open, as block comments nest. Past the end
/// of `s` when the comment never closes.
pub open spec fn block_end(s: Seq<char>, j: int, depth: nat) -> int
    decreases s.len() - j,
{
    if j < 0 || j >= s.len() {
        s.len() + 1int
    } else if s[j] == '*' && j + 1 < s.len() && s[j + 1] == '/' {
        if depth <= 1 {
            j + 2
        } else {
            block_end(s, j + 2, (depth - 1) as nat)
        }
    } else if s[j] == '/' && j + 1 < s.len() && s[j + 1] == '*' {
        block_end(s, j + 2, depth + 1)
    } else {
        block_end(s, j + 1, depth)
    }
}

pub proof fn lemma_block_end(s: Seq<char>, j: int, depth: nat)
    requires
        0 <= j <= s.len(),
    ensures
        j < block_end(s, j, depth),
    decreases s.len() - j,
{
    if j < s.len() {
        if s[j] == '*' && j + 1 < s.len() && s[j + 1] == '/' {
            if depth > 1 {
                lemma_block_end(s, j + 2, (depth - 1) as nat);
            }
        } else if s[j] == '/' && j + 1 < s.len() && s[j + 1] == '*' {
            lemma_block_end(s, j + 2, depth + 1);
        } else {
            lemma_block_end(s, j + 1, depth);
        }
    }
}

/// The tokens of `s` from position `i` on, up to the first lexing error,
/// and that error if there is one. Spaces, `//` comments and `/* */`
/// comments separate tokens; a block comment left open is an error.
pub open spec fn lex_from(s: Seq<char>, i: int) -> (Seq<Token>, Option<ParseError>)
    decreases s.len() - i,
{
    if i < 0 || i >= s.len() {
        (Seq::empty(), None)
    } else if is_space(s[i]) {
        lex_from(s, i + 1)
    } else if s[i] == '/' && i + 1 < s.len() && s[i + 1] == '/' {
        proof {
            lemma_run_end_bounds(s, i + 2, Run::CommentBody);
        }
        lex_from(s, run_end(s, i + 2, Run::CommentBody))
    } else if s[i] == '/' && i + 1 < s.len() && s[i + 1] == '*' {
        proof {
            lemma_block_end(s, i + 2, 1);
        }
        if block_end(s, i + 2, 1) > s.len() {
            (
                Seq::empty(),
                Some(ParseError { kind: ErrorKind::Grammar(Expected::Token), pos: i as usize }),
            )
        } else {
            lex_from(s, block_end(s, i + 2, 1))
        }
    } else {
        proof {
            lemma_token_end(s, i);
        }
        match token_kind(s, i) {
            Err(k) => (Seq::empty(), Some(ParseError { kind: k, pos: i as usize })),
            Ok(k) => {
                let rest = lex_from(s, token_end(s, i));
                (
                    seq![Token { kind: k, start: i as usize, end: token_end(s, i) as usize }]
                        + rest.0,
                    rest.1,
                )
            },
        }
    }
}

pub open spec fn lex(s: Seq<char>) -> (Seq<Token>, Option<ParseError>) {
    lex_from(s, 0)
}

/// Each token's span lies inside `s`, the spans come in order, and a string
/// literal spans at least its two quotes.
pub open spec fn tokens_fit(s: Seq<char>, t: Seq<Token>) -> bool {
    t.len() <= usize::MAX && forall|k: int|
        0 <= k < t.len() ==> {
            &&& (#[trigger] t[k]).start < t[k].end <= s.len()
            &&& t[k].kind is Str ==> t[k].start + 2 <= t[k].end && decode(
                s.subrange(t[k].start + 1, t[k].end - 1),
            ) is Some
        }
        && forall|a: int, b: int| 0 <= a < b < t.len() ==> (#[trigger] t[a]).end <= (#[trigger] t[b]).start
}

/// The characters of `src`, in order.
pub fn source_chars(src: &str) -> (r: Vec<char>)
    ensures
        r@ == src@,
{
    let mut out: Vec<char> = Vec::new();
    for c in it: src.chars()
        invariant
            out@ == it.seq().subrange(0, it.index() as int),
    {
        out.push(c);
    }
    assert(out@ == src@);
    out
}

fn char_in_run(c: char, k: Run) -> (r: bool)
    ensures
        r == in_run(c, k),
{
    match k {
        Run::IdentChars => ('a' <= c && c <= 'z') || ('A' <= c && c <= 'Z') || c == '_' || (c
            as u32) >= 0x80 || ('0' <= c && c <= '9'),
        Run::Digits => ('0' <= c && c <= '9') || c == '_',
        Run::HexDigits => hex_digit(c).is_some(),
        Run::Spaces => c == ' ' || c == '\t' || c == '\n' || c == '\r',
        Run::CommentBody => c != '\n',
    }
}

fn scan_run(s: &Vec<char>, i: usize, k: Run) -> (r: usize)
    requires
        i <= s@.len(),
    ensures
        r == run_end(s@, i as int, k),
        i <= r <= s@.len(),
{
    let mut j = i;
    proof {
        lemma_run_end_bounds(s@, i as int, k);
    }
    while j < s.len() && char_in_run(s[j], k)
        invariant
            i <= j <= s@.len(),
            run_end(s@, i as int, k) == run_end(s@, j as int, k),
        decreases s@.len() - j,
    {
        j = j + 1;
    }
    j
}

proof fn lemma_decimal_push(d: Seq<char>, c: char)
    ensures
        c != '_' ==> decimal(d.push(c)) == 10 * decimal(d) + digit_value(c),
        c == '_' ==> decimal(d.push(c)) == decimal(d),
{
    assert(d.push(c).drop_last() == d);
}

proof fn lemma_decimal_grows(s: Seq<char>, j: int, k: int, e: int)
    requires
        0 <= j <= k <= e <= s.len(),
        forall|x: int| j <= x < e ==> in_run(#[trigger] s[x], Run::Digits),
    ensures
        decimal(s.subrange(j, k)) <= decimal(s.subrange(j, e)),
    decreases e - k,
{
    if k < e {
        lemma_decimal_grows(s, j, k, e - 1);
        lemma_decimal_push(s.subrange(j, e - 1), s[e - 1]);
        assert(s.subrange(j, e - 1).push(s[e - 1]) == s.subrange(j, e));
        assert(decimal(s.subrange(j, e - 1)) >= 0) by {
            lemma_decimal_nonneg(s, j, e - 1);
        }
    }
}

proof fn lemma_decimal_nonneg(s: Seq<char>, j: int, e: int)
    requires
        0 <= j <= e <= s.len(),
        forall|x: int| j <= x < e ==> in_run(#[trigger] s[x], Run::Digits),
    ensures
        decimal(s.subrange(j, e)) >= 0,
    decreases e - j,
{
    if j < e {
        lemma_decimal_nonneg(s, j, e - 1);
        lemma_decimal_push(s.subrange(j, e - 1), s[e - 1]);
        assert(s.subrange(j, e - 1).push(s[e - 1]) == s.subrange(j, e));
    }
}

/// The magnitude that the digits (and `_`) `s[j..e]` denote, when it is at
/// most 2^63.
fn read_magnitude(s: &Vec<char>, j: usize, e: usize) -> (r: Option<u64>)
    requires
        j <= e <= s@.len(),
        forall|x: int| j <= x < e ==> in_run(#[trigger] s@[x], Run::Digits),
    ensures
        match r {
            Some(v) => v as int == decimal(s@.subrange(j as int, e as int)) && v
                <= 0x8000_0000_0000_0000,
            None => decimal(s@.subrange(j as int, e as int)) > 0x8000_0000_0000_0000,
        },
{
    let mut acc: u64 = 0;
    let mut k = j;
    assert(s@.subrange(j as int, j as int) == Seq::<char>::empty());
    while k < e
        invariant
            j <= k <= e <= s@.len(),
            forall|x: int| j <= x < e ==> in_run(#[trigger] s@[x], Run::Digits),
            acc as int == decimal(s@.subrange(j as int, k as int)),
            acc <= 0x8000_0000_0000_0000,
        decreases e - k,
    {
        let c = s[k];
        assert(s@.subrange(j as int, k as int).push(c) == s@.subrange(j as int, k + 1));
        proof {
            lemma_decimal_push(s@.subrange(j as int, k as int), c);
            lemma_decimal_grows(s@, j as int, k + 1, e as int);
        }
        if c == '_' {
            k = k + 1;
            continue;
        }
        let d = (c as u32 - '0' as u32) as u64;
        if acc > 922_337_203_685_477_580 {
            assert(10 * acc + d > 0x8000_0000_0000_0000) by (nonlinear_arith)
                requires
                    acc > 922_337_203_685_477_580,
                    d >= 0,
            ;
            return None;
        }
        assert(10 * acc + d <= 9_223_372_036_854_775_809) by (nonlinear_arith)
            requires
                acc <= 922_337_203_685_477_580,
                d <= 9,
        ;
        acc = 10 * acc + d;
        if acc > 0x8000_0000_0000_0000 {
            return None;
        }
        k = k + 1;
    }
    Some(acc)
}

fn is_word(s: &Vec<char>, i: usize, e: usize, w: &[char]) -> (r: bool)
    requires
        i <= e <= s@.len(),
    ensures
        r == (s@.subrange(i as int, e as int) == w@),
{
    if e - i != w.len() {
        return false;
    }
    let mut k: usize = 0;
    while k < w.len()
        invariant
            e - i == w@.len(),
            i <= e <= s@.len(),
            k <= w@.len(),
            forall|x: int| 0 <= x < k ==> s@[i + x] == w@[x],
        decreases w@.len() - k,
    {
        if s[i + k] != w[k] {
            assert(s@.subrange(i as int, e as int)[k as int] != w@[k as int]);
            return false;
        }
        k = k + 1;
    }
    assert(s@.subrange(i as int, e as int) == w@);
    true
}

fn punct_of(c: char) -> (r: Punct)
    ensures
        r == single_punct(c),
{
    if c == '*' {
        Punct::Star
    } else if c == '(' {
        Punct::LParen
    } else if c == ')' {
        Punct::RParen
    } else if c == '{' {
        Punct::LBrace
    } else if c == '}' {
        Punct::RBrace
    } else if c == '[' {
        Punct::LBracket
    } else if c == ']' {
        Punct::RBracket
    } else if c == ':' {
        Punct::Colon
    } else if c == ',' {
        Punct::Comma
    } else if c == ';' {
        Punct::Semi
    } else {
        Punct::Operator
    }
}

fn scan_string(s: &Vec<char>, i: usize) -> (r: usize)
    requires
        i <= s@.len(),
    ensures
        r == str_close(s@, i as int),
{
    let n = s.len();
    let mut j = i;
    while j < n
        invariant
            i <= j <= n,
            n == s@.len(),
            str_close(s@, i as int) == str_close(s@, j as int),
        decreases n - j,
    {
        if s[j] == '"' {
            return j;
        } else if s[j] == '\\' {
            if j + 1 < n {
                j = j + 2;
            } else {
                return n;
            }
        } else {
            j = j + 1;
        }
    }
    j
}

fn hex_digit(c: char) -> (r: Option<u32>)
    ensures
        match r {
            Some(v) => hex_value(c) == Some(v as int),
            None => hex_value(c) is None,
        },
{
    if '0' <= c && c <= '9' {
        Some(c as u32 - '0' as u32)
    } else if 'a' <= c && c <= 'f' {
        Some(c as u32 - 'a' as u32 + 10)
    } else if 'A' <= c && c <= 'F' {
        Some(c as u32 - 'A' as u32 + 10)
    } else {
        None
    }
}

/// Relies on `char::from_u32`: it returns the character whose code is `v`
/// when `v` is a Unicode scalar value, and `None` otherwise.
#[verifier::external_body]
fn char_from_code(v: u32) -> (r: Option<char>)
    ensures
        r == (if is_scalar(v as int) {
            Some(v as char)
        } else {
            None::<char>
        }),
{
    char::from_u32(v)
}

pub open spec fn pow16(n: nat) -> int
    decreases n,
{
    if n == 0 {
        1
    } else {
        16 * pow16((n - 1) as nat)
    }
}

proof fn lemma_pow16_small(n: nat)
    requires
        n <= 6,
    ensures
        pow16(n) <= 0x100_0000,
        n > 0 ==> pow16(n) == 16 * pow16((n - 1) as nat),
{
    reveal_with_fuel(pow16, 7);
}

proof fn lemma_hex_push(d: Seq<char>, c: char)
    requires
        hex_value(c) is Some,
    ensures
        hex_number(d.push(c)) == 16 * hex_number(d) + hex_value(c)->Some_0,
{
    assert(d.push(c).drop_last() == d);
}

/// The escape that starts at `s[k]`, a backslash, within `s[k..b]`: the
/// character it stands for (none for a line continuation) and its span.
fn read_escape(s: &Vec<char>, k: usize, b: usize) -> (r: Option<(Option<char>, usize)>)
    requires
        k < b <= s@.len(),
        s@[k as int] == '\\',
    ensures
        match (r, escape_at(s@.subrange(k as int, b as int))) {
            (Some((c, n)), Some((cs, m))) => n == m && cs == match c {
                Some(x) => seq![x],
                None => Seq::<char>::empty(),
            },
            (None, None) => true,
            _ => false,
        },
{
    let ghost w = s@.subrange(k as int, b as int);
    proof {
        if w.len() >= 2 {
            lemma_run_end_bounds(w, 2, Run::Spaces);
        }
        if w.len() > 3 {
            lemma_run_end_bounds(w, 3, Run::HexDigits);
        }
    }
    if k + 1 >= b {
        return None;
    }
    let c = s[k + 1];
    if c == 'n' || c == 't' || c == 'r' || c == '0' || c == '\\' || c == '\'' || c == '"' {
        let x = if c == 'n' {
            '\n'
        } else if c == 't' {
            '\t'
        } else if c == 'r' {
            '\r'
        } else if c == '0' {
            '\0'
        } else {
            c
        };
        Some((Some(x), 2))
    } else if c == 'x' {
        if b - k > 3 {
            match (hex_digit(s[k + 2]), hex_digit(s[k + 3])) {
                (Some(h), Some(l)) => if h <= 7 {
                    let code = (16 * h + l) as u8;
                    Some((Some(code as char), 4))
                } else {
                    None
                },
                _ => None,
            }
        } else {
            None
        }
    } else if c == 'u' {
        if b - k > 3 && s[k + 2] == '{' {
            let mut j = k + 3;
            let mut v: u32 = 0;
            assert(w.subrange(3, 3) == Seq::<char>::empty());
            assert(pow16(0) == 1);
            while j < b && j - k < 9 && hex_digit(s[j]).is_some()
                invariant
                    k + 3 <= j <= b,
                    j <= k + 9,
                    b <= s@.len(),
                    w == s@.subrange(k as int, b as int),
                    run_end(w, 3, Run::HexDigits) == run_end(w, j - k, Run::HexDigits),
                    v as int == hex_number(w.subrange(3, j - k)),
                    v < pow16((j - k - 3) as nat),
                    pow16((j - k - 3) as nat) <= 0x100_0000,
                decreases b - j,
            {
                let d = hex_digit(s[j]).unwrap();
                proof {
                    lemma_hex_push(w.subrange(3, j - k), s@[j as int]);
                    assert(w.subrange(3, j - k).push(s@[j as int]) == w.subrange(3, j - k + 1));
                }
                let ghost p = pow16((j - k - 3) as nat);
                proof {
                    lemma_pow16_small((j - k - 2) as nat);
                }
                assert(16 * v + d < 16 * p) by (nonlinear_arith)
                    requires
                        v < p,
                        d <= 15,
                ;
                v = 16 * v + d;
                j = j + 1;
            }
            proof {
                if j < b {
                    lemma_run_end_bounds(w, j - k + 1, Run::HexDigits);
                }
            }
            if j - k > 3 && j < b && s[j] == '}' {
                match char_from_code(v) {
                    Some(x) => Some((Some(x), j + 1 - k)),
                    None => None,
                }
            } else {
                None
            }
        } else {
            None
        }
    } else if c == '\n' {
        let mut j = k + 2;
        while j < b && (s[j] == ' ' || s[j] == '\t' || s[j] == '\n' || s[j] == '\r')
            invariant
                k + 2 <= j <= b,
                b <= s@.len(),
                w == s@.subrange(k as int, b as int),
                run_end(w, 2, Run::Spaces) == run_end(w, j - k, Run::Spaces),
            decreases b - j,
        {
            j = j + 1;
        }
        Some((None, j - k))
    } else {
        None
    }
}

/// The characters that `s[a..b]`, the contents of a string literal, stand
/// for, or `None` if an escape in it is malformed.
pub fn decode_chars(s: &Vec<char>, a: usize, b: usize) -> (r: Option<Vec<char>>)
    requires
        a <= b <= s@.len(),
    ensures
        match r {
            Some(v) => decode(s@.subrange(a as int, b as int)) == Some(v@),
            None => decode(s@.subrange(a as int, b as int)) is None,
        },
{
    let mut out: Vec<char> = Vec::new();
    let mut k = a;
    while k < b
        invariant
            a <= k <= b <= s@.len(),
            decode(s@.subrange(a as int, b as int)) == match decode(s@.subrange(k as int, b as int)) {
                Some(rest) => Some(out@ + rest),
                None => None::<Seq<char>>,
            },
        decreases b - k,
    {
        let ghost w = s@.subrange(k as int, b as int);
        let ghost before = out@;
        if s[k] == '\\' {
            match read_escape(s, k, b) {
                None => {
                    return None;
                },
                Some((c, n)) => {
                    proof {
                        lemma_escape_span(w);
                        assert(w.subrange(n as int, w.len() as int) == s@.subrange(k + n, b as int));
                    }
                    match c {
                        Some(x) => {
                            out.push(x);
                            assert(out@ == before + seq![x]);
                        },
                        None => {
                            assert(before + Seq::<char>::empty() == before);
                        },
                    }
                    proof {
                        match decode(s@.subrange(k + n, b as int)) {
                            Some(rest) => {
                                let cs = escape_at(w)->Some_0.0;
                                assert(before + (cs + rest) == out@ + rest);
                            },
                            None => {},
                        }
                    }
                    k = k + n;
                },
            }
        } else {
            out.push(s[k]);
            proof {
                assert(w.subrange(1, w.len() as int) == s@.subrange(k + 1, b as int));
                match decode(s@.subrange(k + 1, b as int)) {
                    Some(rest) => {
                        assert(before + (seq![w[0]] + rest) == out@ + rest);
                    },
                    None => {},
                }
            }
            k = k + 1;
        }
    }
    assert(decode(s@.subrange(b as int, b as int)) == Some(Seq::<char>::empty()));
    assert(out@ + Seq::<char>::empty() == out@);
    Some(out)
}

/// The token that starts at `i`: its kind and end, or the kind of error.
fn next_token(s: &Vec<char>, i: usize) -> (r: (Result<TokenKind, ErrorKind>, usize))
    requires
        i < s@.len(),
    ensures
        r.0 == token_kind(s@, i as int),
        r.0 is Ok ==> r.1 == token_end(s@, i as int) && i < r.1 <= s@.len(),
{
    proof {
        lemma_token_end(s@, i as int);
    }
    let c = s[i];
    let n = s.len();
    if ('a' <= c && c <= 'z') || ('A' <= c && c <= 'Z') || c == '_' || (c as u32) >= 0x80 {
        let e = scan_run(s, i + 1, Run::IdentChars);
        let kind = if is_word(s, i, e, &['t', 'r', 'u', 'e']) {
            TokenKind::Bool(true)
        } else if is_word(s, i, e, &['f', 'a', 'l', 's', 'e']) {
            TokenKind::Bool(false)
        } else {
            TokenKind::Ident
        };
        (Ok(kind), e)
    } else if '0' <= c && c <= '9' {
        let e = scan_run(s, i + 1, Run::IdentChars);
        let d = scan_run(s, i, Run::Digits);
        proof {
            lemma_run_end_bounds(s@, i as int, Run::Digits);
        }
        if d == e {
            match read_magnitude(s, i, e) {
                None => (Err(ErrorKind::Type), e),
                Some(m) => (Ok(TokenKind::Int(m)), e),
            }
        } else {
            (Ok(TokenKind::Number), e)
        }
    } else if c == '"' {
        let close = scan_string(s, i + 1);
        proof {
            lemma_str_close_bounds(s@, i + 1);
        }
        if close < n {
            match decode_chars(s, i + 1, close) {
                Some(_) => (Ok(TokenKind::Str), close + 1),
                None => (Err(ErrorKind::Grammar(Expected::Escape)), close + 1),
            }
        } else {
            (Err(ErrorKind::Grammar(Expected::Token)), close)
        }
    } else if c == '=' && i + 1 < n && s[i + 1] == '>' {
        (Ok(TokenKind::Sym(Punct::FatArrow)), i + 2)
    } else {
        (Ok(TokenKind::Sym(punct_of(c))), i + 1)
    }
}

/// Just past the end of the block comment whose text starts at `j`, or
/// `None` if it never closes.
fn skip_block(s: &Vec<char>, j: usize) -> (r: Option<usize>)
    requires
        j <= s@.len(),
    ensures
        match r {
            Some(e) => e == block_end(s@, j as int, 1) && j < e <= s@.len(),
            None => block_end(s@, j as int, 1) > s@.len(),
        },
{
    let n = s.len();
    let mut k = j;
    let mut depth: usize = 1;
    while k < n
        invariant
            n == s@.len(),
            j <= k <= n,
            1 <= depth <= k + 1,
            block_end(s@, j as int, 1) == block_end(s@, k as int, depth as nat),
        decreases n - k,
    {
        if s[k] == '*' && k + 1 < n && s[k + 1] == '/' {
            if depth <= 1 {
                return Some(k + 2);
            }
            depth = depth - 1;
            k = k + 2;
        } else if s[k] == '/' && k + 1 < n && s[k + 1] == '*' {
            depth = depth + 1;
            k = k + 2;
        } else {
            k = k + 1;
        }
    }
    None
}

/// Splits `src` into tokens, up to the first lexing error, which is
/// returned beside them.
pub fn tokenize(src: &str) -> (r: (Vec<Token>, Option<ParseError>))
    ensures
        (r.0@, r.1) == lex(src@),
        tokens_fit(src@, r.0@),
{
    let s = source_chars(src);
    let n = s.len();
    let mut out: Vec<Token> = Vec::new();
    let mut i: usize = 0;
    while i < n
        invariant
            n == s@.len(),
            s@ == src@,
            i <= n,
            tokens_fit(s@, out@),
            forall|k: int| 0 <= k < out@.len() ==> (#[trigger] out@[k]).end <= i,
            out@.len() <= i,
            lex_from(s@, 0) == (out@ + lex_from(s@, i as int).0, lex_from(s@, i as int).1),
        decreases n - i,
    {
        let c = s[i];
        if c == ' ' || c == '\t' || c == '\n' || c == '\r' {
            i = i + 1;
        } else if c == '/' && i + 1 < n && s[i + 1] == '/' {
            i = scan_run(&s, i + 2, Run::CommentBody);
        } else if c == '/' && i + 1 < n && s[i + 1] == '*' {
            match skip_block(&s, i + 2) {
                Some(e) => {
                    i = e;
                },
                None => {
                    assert(out@ + Seq::<Token>::empty() == out@);
                    return (
                        out,
                        Some(ParseError { kind: ErrorKind::Grammar(Expected::Token), pos: i }),
                    );
                },
            }
        } else {
            let (kind, e) = next_token(&s, i);
            proof {
                lemma_token_end(s@, i as int);
            }
            match kind {
                Err(k) => {
                    assert(out@ + Seq::<Token>::empty() == out@);
                    return (out, Some(ParseError { kind: k, pos: i }));
                },
                Ok(k) => {
                    let tok = Token { kind: k, start: i, end: e };
                    let ghost before = out@;
                    out.push(tok);
                    assert(before + (seq![tok] + lex_from(s@, e as int).0) == out@ + lex_from(
                        s@,
                        e as int,
                    ).0);
                    i = e;
                },
            }
        }
    }
    assert(out@ + Seq::<Token>::empty() == out@);
    (out, None)
}

} // verus!
