use vstd::prelude::*;
use vstd::string::StrSliceExecFns;
use crate::ir::{
    any_target, config_view, rules_view, strings_view, Condition, ConditionModel, ConfigField,
    ConfigFieldModel, Effect, ErrorKind, Expected, Matcher, MatcherModel, ParseError, PolicyDefinition,
    PolicyModel, Punct, ReasonCode, ReasonModel, Rule, RuleModel, Target, TargetModel, Value,
    ValueModel,
};
use crate::lexer::{decode, decode_chars, lex, source_chars, tokenize, tokens_fit, Token, TokenKind};
use vstd::string::StringExecFns;

verus! {

broadcast use vstd::string::group_string_axioms;

// ---------------------------------------------------------------------------
// Reading tokens
// ---------------------------------------------------------------------------

/// Where an error at token `i` points: the token's start, or the end of the
/// source past the last token.
pub open spec fn pos_of(s: Seq<char>, t: Seq<Token>, i: int) -> usize {
    if 0 <= i < t.len() {
        t[i].start
    } else {
        s.len() as usize
    }
}

pub open spec fn fail_at<T>(s: Seq<char>, t: Seq<Token>, i: int, k: ErrorKind) -> Result<
    T,
    ParseError,
> {
    Err(ParseError { kind: k, pos: pos_of(s, t, i) })
}

pub open spec fn is_sym(t: Seq<Token>, i: int, p: Punct) -> bool {
    0 <= i < t.len() && t[i].kind == TokenKind::Sym(p)
}

pub open spec fn is_kind(t: Seq<Token>, i: int, k: TokenKind) -> bool {
    0 <= i < t.len() && t[i].kind == k
}

/// The source text of a token.
pub open spec fn text(s: Seq<char>, tk: Token) -> Seq<char> {
    s.subrange(tk.start as int, tk.end as int)
}

/// The characters that a string literal token stands for: its contents
/// between the quotes, with escapes decoded.
pub open spec fn str_body(s: Seq<char>, tk: Token) -> Seq<char> {
    decode(s.subrange(tk.start + 1, tk.end - 1))->Some_0
}

/// Whether token `i` is the identifier `w`.
pub open spec fn is_kw(s: Seq<char>, t: Seq<Token>, i: int, w: Seq<char>) -> bool {
    is_kind(t, i, TokenKind::Ident) && text(s, t[i]) == w
}

/// An exec result against a spec result: the same value (by view) and the
/// same number of tokens, or the same error.
pub open spec fn agrees<T: View>(
    r: Result<(T, usize), ParseError>,
    m: Result<(T::V, nat), ParseError>,
) -> bool {
    match (r, m) {
        (Ok((x, n)), Ok((y, k))) => x@ == y && n as nat == k,
        (Err(e), Err(f)) => e == f,
        _ => false,
    }
}

/// A successful parse from `i` stays within the `len` tokens.
pub open spec fn within<T>(r: Result<(T, usize), ParseError>, i: int, len: int) -> bool {
    match r {
        Ok((_, n)) => i + n <= len,
        Err(_) => true,
    }
}

/// Whether `a` and `b` hold the same characters.
fn same_text(a: &str, b: &str) -> (r: bool)
    ensures
        r == (a@ == b@),
{
    let n = a.unicode_len();
    if n != b.unicode_len() {
        return false;
    }
    let mut i: usize = 0;
    while i < n
        invariant
            n == a@.len() == b@.len(),
            i <= n,
            a@.subrange(0, i as int) == b@.subrange(0, i as int),
        decreases n - i,
    {
        if a.get_char(i) != b.get_char(i) {
            assert(a@[i as int] != b@[i as int]);
            return false;
        }
        assert(a@.subrange(0, i + 1) == a@.subrange(0, i as int).push(a@[i as int]));
        assert(b@.subrange(0, i + 1) == b@.subrange(0, i as int).push(b@[i as int]));
        i = i + 1;
    }
    assert(a@ == a@.subrange(0, n as int));
    assert(b@ == b@.subrange(0, n as int));
    true
}

pub(crate) fn error_at(src: &str, t: &Vec<Token>, i: usize, k: ErrorKind) -> (r: ParseError)
    ensures
        r == (ParseError { kind: k, pos: pos_of(src@, t@, i as int) }),
{
    if i < t.len() {
        ParseError { kind: k, pos: t[i].start }
    } else {
        ParseError { kind: k, pos: src.unicode_len() }
    }
}

fn op_is(src: &str, t: &Vec<Token>, i: usize, c: char) -> (r: bool)
    requires
        tokens_fit(src@, t@),
    ensures
        r == is_op(src@, t@, i as int, c),
{
    i < t.len() && t[i].kind == TokenKind::Sym(Punct::Operator) && src.get_char(t[i].start) == c
}

fn sym(t: &Vec<Token>, i: usize, p: Punct) -> (r: bool)
    ensures
        r == is_sym(t@, i as int, p),
        t@.len() <= usize::MAX,
{
    i < t.len() && t[i].kind == TokenKind::Sym(p)
}

fn kind_at(t: &Vec<Token>, i: usize, k: TokenKind) -> (r: bool)
    ensures
        r == is_kind(t@, i as int, k),
        t@.len() <= usize::MAX,
{
    i < t.len() && t[i].kind == k
}

fn kw(src: &str, t: &Vec<Token>, i: usize, w: &str) -> (r: bool)
    requires
        tokens_fit(src@, t@),
    ensures
        r == is_kw(src@, t@, i as int, w@),
{
    if i < t.len() && t[i].kind == TokenKind::Ident {
        let tk = t[i];
        same_text(src.substring_char(tk.start, tk.end), w)
    } else {
        false
    }
}

fn text_of(src: &str, t: &Vec<Token>, i: usize) -> (r: String)
    requires
        tokens_fit(src@, t@),
        i < t@.len(),
    ensures
        r@ == text(src@, t@[i as int]),
{
    let tk = t[i];
    src.substring_char(tk.start, tk.end).to_owned()
}

/// Relies on `String::push`: it appends `c` to the string.
#[verifier::external_body]
fn push_char(out: &mut String, c: char)
    ensures
        final(out)@ == old(out)@.push(c),
{
    out.push(c);
}

/// The characters that the string literal token `i` stands for.
pub fn body_of(src: &str, t: &Vec<Token>, i: usize) -> (r: String)
    requires
        tokens_fit(src@, t@),
        i < t@.len(),
        t@[i as int].kind is Str,
    ensures
        r@ == str_body(src@, t@[i as int]),
{
    let tk = t[i];
    let chars = source_chars(src.substring_char(tk.start + 1, tk.end - 1));
    assert(chars@.subrange(0, chars@.len() as int) == chars@);
    let decoded = decode_chars(&chars, 0, chars.len());
    let v = decoded.unwrap();
    let mut out = String::new();
    let mut k: usize = 0;
    while k < v.len()
        invariant
            k <= v@.len(),
            out@ == v@.subrange(0, k as int),
        decreases v@.len() - k,
    {
        push_char(&mut out, v[k]);
        assert(v@.subrange(0, k + 1) == v@.subrange(0, k as int).push(v@[k as int]));
        k = k + 1;
    }
    assert(v@.subrange(0, v@.len() as int) == v@);
    out
}

// ---------------------------------------------------------------------------
// Values and matchers
// ---------------------------------------------------------------------------

/// Whether token `i` is the single character `c` with no role of its own.
pub open spec fn is_op(s: Seq<char>, t: Seq<Token>, i: int, c: char) -> bool {
    0 <= i < t.len() && t[i].kind == TokenKind::Sym(Punct::Operator) && t[i].start < s.len()
        && s[t[i].start as int] == c
}

/// A scalar literal: a decimal integer, with an optional `-` before it,
/// that fits in 64 signed bits; a string; or a boolean.
pub open spec fn value_spec(s: Seq<char>, t: Seq<Token>, i: int) -> Result<
    (ValueModel, nat),
    ParseError,
> {
    if is_op(s, t, i, '-') && 0 <= i + 1 < t.len() && t[i + 1].kind is Int {
        let v = t[i + 1].kind->Int_0;
        if v as int <= 0x8000_0000_0000_0000 {
            Ok((ValueModel::Int(-(v as int)), 2))
        } else {
            fail_at(s, t, i + 1, ErrorKind::Type)
        }
    } else if 0 <= i < t.len() {
        match t[i].kind {
            TokenKind::Int(v) => if v as int <= i64::MAX {
                Ok((ValueModel::Int(v as int), 1))
            } else {
                fail_at(s, t, i, ErrorKind::Type)
            },
            TokenKind::Str => Ok((ValueModel::Str(str_body(s, t[i])), 1)),
            TokenKind::Bool(b) => Ok((ValueModel::Bool(b), 1)),
            _ => fail_at(s, t, i, ErrorKind::Type),
        }
    } else {
        fail_at(s, t, i, ErrorKind::Type)
    }
}

/// The string literals of an array, from its first element through `]`:
/// separated by commas, with an optional trailing comma.
pub open spec fn string_list_spec(s: Seq<char>, t: Seq<Token>, i: int) -> Result<
    (Seq<Seq<char>>, nat),
    ParseError,
>
    decreases t.len() - i,
{
    if i < 0 || i >= t.len() {
        fail_at(s, t, i, ErrorKind::Grammar(Expected::Punct(Punct::RBracket)))
    } else if is_sym(t, i, Punct::RBracket) {
        Ok((Seq::empty(), 1))
    } else if !is_kind(t, i, TokenKind::Str) {
        fail_at(s, t, i, ErrorKind::Grammar(Expected::StringLiteral))
    } else if is_sym(t, i + 1, Punct::RBracket) {
        Ok((seq![str_body(s, t[i])], 2))
    } else if !is_sym(t, i + 1, Punct::Comma) {
        fail_at(s, t, i + 1, ErrorKind::Grammar(Expected::Punct(Punct::Comma)))
    } else {
        match string_list_spec(s, t, i + 2) {
            Ok((rest, n)) => Ok((seq![str_body(s, t[i])] + rest, n + 2)),
            Err(e) => Err(e),
        }
    }
}

/// What one target slot accepts: `*` or `ANY`, an array of string literals,
/// or a single string literal.
pub open spec fn field_value_spec(s: Seq<char>, t: Seq<Token>, i: int) -> Result<
    (MatcherModel, nat),
    ParseError,
> {
    if is_sym(t, i, Punct::Star) {
        Ok((MatcherModel::Any, 1))
    } else if is_kind(t, i, TokenKind::Ident) {
        if text(s, t[i]) == "ANY"@ {
            Ok((MatcherModel::Any, 1))
        } else {
            fail_at(s, t, i, ErrorKind::Grammar(Expected::FieldValue))
        }
    } else if is_sym(t, i, Punct::LBracket) {
        match string_list_spec(s, t, i + 1) {
            Ok((v, n)) => Ok((MatcherModel::OneOf(v), n + 1)),
            Err(e) => Err(e),
        }
    } else if is_kind(t, i, TokenKind::Str) {
        Ok((MatcherModel::Exact(str_body(s, t[i])), 1))
    } else {
        fail_at(s, t, i, ErrorKind::Grammar(Expected::FieldValue))
    }
}

pub proof fn lemma_string_list_span(s: Seq<char>, t: Seq<Token>, i: int)
    ensures
        string_list_spec(s, t, i) is Ok ==> i + string_list_spec(s, t, i)->Ok_0.1 <= t.len(),
    decreases t.len() - i,
{
    if 0 <= i < t.len() && !is_sym(t, i, Punct::RBracket) && is_kind(t, i, TokenKind::Str)
        && !is_sym(t, i + 1, Punct::RBracket) && is_sym(t, i + 1, Punct::Comma) {
        lemma_string_list_span(s, t, i + 2);
    }
}

/// A field value that parses spans at least one token, and no more than
/// remain.
pub proof fn lemma_field_value_span(s: Seq<char>, t: Seq<Token>, i: int)
    ensures
        field_value_spec(s, t, i) is Ok ==> 1 <= field_value_spec(s, t, i)->Ok_0.1 && i
            + field_value_spec(s, t, i)->Ok_0.1 <= t.len(),
{
    lemma_string_list_span(s, t, i + 1);
}

/// Parses a scalar literal at token `i`, as `value_spec` says.
pub fn parse_value(src: &str, t: &Vec<Token>, i: usize) -> (r: Result<(Value, usize), ParseError>)
    requires
        tokens_fit(src@, t@),
    ensures
        agrees(r, value_spec(src@, t@, i as int)),
        within(r, i as int, t@.len() as int),
{
    if op_is(src, t, i, '-') && i + 1 < t.len() {
        if let TokenKind::Int(v) = t[i + 1].kind {
            if v < 0x8000_0000_0000_0000 {
                return Ok((Value::Int(-(v as i64)), 2));
            } else if v == 0x8000_0000_0000_0000 {
                return Ok((Value::Int(i64::MIN), 2));
            } else {
                return Err(error_at(src, t, i + 1, ErrorKind::Type));
            }
        }
    }
    if i < t.len() {
        match t[i].kind {
            TokenKind::Int(v) => if v <= 0x7fff_ffff_ffff_ffff {
                Ok((Value::Int(v as i64), 1))
            } else {
                Err(error_at(src, t, i, ErrorKind::Type))
            },
            TokenKind::Str => Ok((Value::Str(body_of(src, t, i)), 1)),
            TokenKind::Bool(b) => Ok((Value::Bool(b), 1)),
            _ => Err(error_at(src, t, i, ErrorKind::Type)),
        }
    } else {
        Err(error_at(src, t, i, ErrorKind::Type))
    }
}

/// Parses the string literals of an array from token `i` through `]`, as
/// `string_list_spec` says.
pub fn parse_string_list(src: &str, t: &Vec<Token>, i: usize) -> (r: Result<
    (Vec<String>, usize),
    ParseError,
>)
    requires
        tokens_fit(src@, t@),
    ensures
        match (r, string_list_spec(src@, t@, i as int)) {
            (Ok((v, n)), Ok((w, k))) => strings_view(v@) == w && n as nat == k,
            (Err(e), Err(f)) => e == f,
            _ => false,
        },
        within(r, i as int, t@.len() as int),
    decreases t@.len() - i,
{
    if i >= t.len() {
        Err(error_at(src, t, i, ErrorKind::Grammar(Expected::Punct(Punct::RBracket))))
    } else if sym(t, i, Punct::RBracket) {
        Ok((Vec::new(), 1))
    } else if !kind_at(t, i, TokenKind::Str) {
        Err(error_at(src, t, i, ErrorKind::Grammar(Expected::StringLiteral)))
    } else if sym(t, i + 1, Punct::RBracket) {
        let mut v: Vec<String> = Vec::new();
        v.push(body_of(src, t, i));
        assert(strings_view(v@) =~= seq![str_body(src@, t@[i as int])]);
        Ok((v, 2))
    } else if !sym(t, i + 1, Punct::Comma) {
        Err(error_at(src, t, i + 1, ErrorKind::Grammar(Expected::Punct(Punct::Comma))))
    } else {
        match parse_string_list(src, t, i + 2) {
            Ok((rest, n)) => {
                let mut v = rest;
                let ghost old_v = v@;
                let first = body_of(src, t, i);
                v.insert(0, first);
                assert(strings_view(v@) =~= seq![str_body(src@, t@[i as int])] + strings_view(
                    old_v,
                ));
                Ok((v, n + 2))
            },
            Err(e) => Err(e),
        }
    }
}

/// Parses a target slot at token `i`, as `field_value_spec` says.
pub fn parse_field_value(src: &str, t: &Vec<Token>, i: usize) -> (r: Result<
    (Matcher, usize),
    ParseError,
>)
    requires
        tokens_fit(src@, t@),
    ensures
        agrees(r, field_value_spec(src@, t@, i as int)),
        within(r, i as int, t@.len() as int),
{
    if sym(t, i, Punct::Star) {
        Ok((Matcher::Any, 1))
    } else if kind_at(t, i, TokenKind::Ident) {
        if kw(src, t, i, "ANY") {
            Ok((Matcher::Any, 1))
        } else {
            Err(error_at(src, t, i, ErrorKind::Grammar(Expected::FieldValue)))
        }
    } else if sym(t, i, Punct::LBracket) {
        match parse_string_list(src, t, i + 1) {
            Ok((v, n)) => Ok((Matcher::OneOf(v), n + 1)),
            Err(e) => Err(e),
        }
    } else if kind_at(t, i, TokenKind::Str) {
        Ok((Matcher::Exact(body_of(src, t, i)), 1))
    } else {
        Err(error_at(src, t, i, ErrorKind::Grammar(Expected::FieldValue)))
    }
}

} // verus!

verus! {

// ---------------------------------------------------------------------------
// Targets
// ---------------------------------------------------------------------------

/// A named field of a struct target.
#[derive(Clone, Copy, Debug, PartialEq, Eq, Structural)]
pub enum Slot {
    Principal,
    Action,
    Resource,
}

/// The slot that a struct-target field name denotes; only `principal`,
/// `action` and `resource` are field names.
pub open spec fn slot_of(w: Seq<char>) -> Option<Slot> {
    if w == "principal"@ {
        Some(Slot::Principal)
    } else if w == "action"@ {
        Some(Slot::Action)
    } else if w == "resource"@ {
        Some(Slot::Resource)
    } else {
        None
    }
}

pub open spec fn slot(tg: TargetModel, f: Slot) -> MatcherModel {
    match f {
        Slot::Principal => tg.principal,
        Slot::Action => tg.action,
        Slot::Resource => tg.resource,
    }
}

pub open spec fn with_slot(tg: TargetModel, f: Slot, m: MatcherModel) -> TargetModel {
    match f {
        Slot::Principal => TargetModel { principal: m, ..tg },
        Slot::Action => TargetModel { action: m, ..tg },
        Slot::Resource => TargetModel { resource: m, ..tg },
    }
}

/// Which struct-target fields have been declared so far.
#[derive(Clone, Copy, Debug, PartialEq, Eq, Structural)]
pub struct SlotSet {
    pub principal: bool,
    pub action: bool,
    pub resource: bool,
}

pub open spec fn no_slots() -> SlotSet {
    SlotSet { principal: false, action: false, resource: false }
}

pub open spec fn has_slot(d: SlotSet, f: Slot) -> bool {
    match f {
        Slot::Principal => d.principal,
        Slot::Action => d.action,
        Slot::Resource => d.resource,
    }
}

pub open spec fn add_slot(d: SlotSet, f: Slot) -> SlotSet {
    match f {
        Slot::Principal => SlotSet { principal: true, ..d },
        Slot::Action => SlotSet { action: true, ..d },
        Slot::Resource => SlotSet { resource: true, ..d },
    }
}

fn slot_seen(d: SlotSet, f: Slot) -> (r: bool)
    ensures
        r == has_slot(d, f),
{
    match f {
        Slot::Principal => d.principal,
        Slot::Action => d.action,
        Slot::Resource => d.resource,
    }
}

fn with_seen(d: SlotSet, f: Slot) -> (r: SlotSet)
    ensures
        r == add_slot(d, f),
{
    match f {
        Slot::Principal => SlotSet { principal: true, ..d },
        Slot::Action => SlotSet { action: true, ..d },
        Slot::Resource => SlotSet { resource: true, ..d },
    }
}

/// `base` with the declared fields set in order.
pub open spec fn apply_fields(base: TargetModel, fs: Seq<(Slot, MatcherModel)>) -> TargetModel
    decreases fs.len(),
{
    if fs.len() == 0 {
        base
    } else {
        apply_fields(with_slot(base, fs[0].0, fs[0].1), fs.subrange(1, fs.len() as int))
    }
}

/// The fields of a struct target, from the first one through `}`:
/// `name: field-value` pairs separated by commas, with an optional trailing
/// comma. A name outside `principal`, `action`, `resource` is a
/// field-validation error, and so is a name already in `seen`.
pub open spec fn struct_fields_spec(s: Seq<char>, t: Seq<Token>, i: int, seen: SlotSet) -> Result<
    (Seq<(Slot, MatcherModel)>, nat),
    ParseError,
>
    decreases t.len() - i,
{
    if is_sym(t, i, Punct::RBrace) {
        Ok((Seq::empty(), 1))
    } else if !is_kind(t, i, TokenKind::Ident) {
        fail_at(s, t, i, ErrorKind::Grammar(Expected::Identifier))
    } else {
        match slot_of(text(s, t[i])) {
            None => fail_at(s, t, i, ErrorKind::FieldValidation),
            Some(f) => if has_slot(seen, f) {
                fail_at(s, t, i, ErrorKind::DuplicateField)
            } else if !is_sym(t, i + 1, Punct::Colon) {
                fail_at(s, t, i + 1, ErrorKind::Grammar(Expected::Punct(Punct::Colon)))
            } else {
                match field_value_spec(s, t, i + 2) {
                    Err(e) => Err(e),
                    Ok((m, n)) => {
                        let k = i + 2 + n;
                        if is_sym(t, k, Punct::RBrace) {
                            Ok((seq![(f, m)], n + 3))
                        } else if !is_sym(t, k, Punct::Comma) {
                            fail_at(s, t, k, ErrorKind::Grammar(Expected::Punct(Punct::Comma)))
                        } else {
                            match struct_fields_spec(s, t, k + 1, add_slot(seen, f)) {
                                Ok((rest, n2)) => Ok((seq![(f, m)] + rest, n + 3 + n2)),
                                Err(e) => Err(e),
                            }
                        }
                    },
                }
            },
        }
    }
}

/// The field values of a tuple target, from the first one through `)`.
pub open spec fn field_values_spec(s: Seq<char>, t: Seq<Token>, i: int) -> Result<
    (Seq<MatcherModel>, nat),
    ParseError,
>
    decreases t.len() - i,
{
    if i < 0 || i >= t.len() {
        fail_at(s, t, i, ErrorKind::Grammar(Expected::Punct(Punct::RParen)))
    } else if is_sym(t, i, Punct::RParen) {
        Ok((Seq::empty(), 1))
    } else {
        proof {
            lemma_field_value_span(s, t, i);
        }
        match field_value_spec(s, t, i) {
            Err(e) => Err(e),
            Ok((m, n)) => match field_values_spec(s, t, i + n) {
                Ok((rest, n2)) => Ok((seq![m] + rest, n + n2)),
                Err(e) => Err(e),
            },
        }
    }
}

/// A rule target: `*` or `ANY`; a tuple of exactly three field values
/// (principal, action, resource); or a struct whose omitted fields match
/// anything.
pub open spec fn target_spec(s: Seq<char>, t: Seq<Token>, i: int) -> Result<
    (TargetModel, nat),
    ParseError,
> {
    if is_sym(t, i, Punct::Star) {
        Ok((any_target(), 1))
    } else if is_kind(t, i, TokenKind::Ident) {
        if text(s, t[i]) == "ANY"@ {
            Ok((any_target(), 1))
        } else {
            fail_at(s, t, i, ErrorKind::Grammar(Expected::Target))
        }
    } else if is_sym(t, i, Punct::LParen) {
        match field_values_spec(s, t, i + 1) {
            Err(e) => Err(e),
            Ok((v, n)) => if v.len() == 3 {
                Ok((TargetModel { principal: v[0], action: v[1], resource: v[2] }, n + 1))
            } else {
                fail_at(s, t, i, ErrorKind::Arity(v.len() as usize))
            },
        }
    } else if is_sym(t, i, Punct::LBrace) {
        match struct_fields_spec(s, t, i + 1, no_slots()) {
            Err(e) => Err(e),
            Ok((fs, n)) => Ok((apply_fields(any_target(), fs), n + 1)),
        }
    } else {
        fail_at(s, t, i, ErrorKind::Grammar(Expected::Target))
    }
}

pub open spec fn matchers_view(v: Seq<Matcher>) -> Seq<MatcherModel> {
    v.map_values(|m: Matcher| m@)
}

fn field_name(src: &str, t: &Vec<Token>, i: usize) -> (r: Option<Slot>)
    requires
        tokens_fit(src@, t@),
        i < t@.len(),
    ensures
        r == slot_of(text(src@, t@[i as int])),
{
    let tk = t[i];
    let w = src.substring_char(tk.start, tk.end);
    if same_text(w, "principal") {
        Some(Slot::Principal)
    } else if same_text(w, "action") {
        Some(Slot::Action)
    } else if same_text(w, "resource") {
        Some(Slot::Resource)
    } else {
        None
    }
}

fn set_slot(tg: &mut Target, f: Slot, m: Matcher)
    ensures
        final(tg)@ == with_slot(old(tg)@, f, m@),
{
    match f {
        Slot::Principal => tg.principal = m,
        Slot::Action => tg.action = m,
        Slot::Resource => tg.resource = m,
    }
}

proof fn lemma_apply_fields_cons(base: TargetModel, f: Slot, m: MatcherModel, rest: Seq<(Slot, MatcherModel)>)
    ensures
        apply_fields(base, seq![(f, m)] + rest) == apply_fields(with_slot(base, f, m), rest),
{
    let fs = seq![(f, m)] + rest;
    assert(fs.subrange(1, fs.len() as int) == rest);
}

/// The struct fields from `i` applied onto `acc`, none of them in `seen`.
pub fn parse_struct_fields(src: &str, t: &Vec<Token>, i: usize, acc: Target, seen: SlotSet) -> (r: Result<
    (Target, usize),
    ParseError,
>)
    requires
        tokens_fit(src@, t@),
    ensures
        match (r, struct_fields_spec(src@, t@, i as int, seen)) {
            (Ok((tg, n)), Ok((fs, k))) => tg@ == apply_fields(acc@, fs) && n as nat == k,
            (Err(e), Err(f)) => e == f,
            _ => false,
        },
        within(r, i as int, t@.len() as int),
    decreases t@.len() - i,
{
    if sym(t, i, Punct::RBrace) {
        Ok((acc, 1))
    } else if !kind_at(t, i, TokenKind::Ident) {
        Err(error_at(src, t, i, ErrorKind::Grammar(Expected::Identifier)))
    } else {
        match field_name(src, t, i) {
            None => Err(error_at(src, t, i, ErrorKind::FieldValidation)),
            Some(f) => if slot_seen(seen, f) {
                Err(error_at(src, t, i, ErrorKind::DuplicateField))
            } else if !sym(t, i + 1, Punct::Colon) {
                Err(error_at(src, t, i + 1, ErrorKind::Grammar(Expected::Punct(Punct::Colon))))
            } else {
                match parse_field_value(src, t, i + 2) {
                    Err(e) => Err(e),
                    Ok((m, n)) => {
                        let k = i + 2 + n;
                        let ghost mm = m@;
                        let mut acc = acc;
                        let ghost before = acc@;
                        set_slot(&mut acc, f, m);
                        proof {
                            lemma_apply_fields_cons(before, f, mm, Seq::empty());
                            assert(seq![(f, mm)] + Seq::<(Slot, MatcherModel)>::empty() == seq![(f, mm)]);
                        }
                        if sym(t, k, Punct::RBrace) {
                            Ok((acc, n + 3))
                        } else if !sym(t, k, Punct::Comma) {
                            Err(error_at(src, t, k, ErrorKind::Grammar(Expected::Punct(Punct::Comma))))
                        } else {
                            match parse_struct_fields(src, t, k + 1, acc, with_seen(seen, f)) {
                                Ok((tg, n2)) => {
                                    proof {
                                        let rest = struct_fields_spec(
                                            src@,
                                            t@,
                                            k + 1,
                                            add_slot(seen, f),
                                        )->Ok_0.0;
                                        lemma_apply_fields_cons(before, f, mm, rest);
                                    }
                                    Ok((tg, n + 3 + n2))
                                },
                                Err(e) => Err(e),
                            }
                        }
                    },
                }
            },
        }
    }
}

/// Parses the field values of a tuple target from token `i` through `)`, as
/// `field_values_spec` says.
pub fn parse_field_values(src: &str, t: &Vec<Token>, i: usize) -> (r: Result<
    (Vec<Matcher>, usize),
    ParseError,
>)
    requires
        tokens_fit(src@, t@),
    ensures
        match (r, field_values_spec(src@, t@, i as int)) {
            (Ok((v, n)), Ok((w, k))) => matchers_view(v@) == w && n as nat == k,
            (Err(e), Err(f)) => e == f,
            _ => false,
        },
        within(r, i as int, t@.len() as int),
    decreases t@.len() - i,
{
    if i >= t.len() {
        Err(error_at(src, t, i, ErrorKind::Grammar(Expected::Punct(Punct::RParen))))
    } else if sym(t, i, Punct::RParen) {
        Ok((Vec::new(), 1))
    } else {
        match parse_field_value(src, t, i) {
            Err(e) => Err(e),
            Ok((m, n)) => match parse_field_values(src, t, i + n) {
                Ok((rest, n2)) => {
                    let mut v = rest;
                    let ghost old_v = v@;
                    let ghost mm = m@;
                    v.insert(0, m);
                    assert(matchers_view(v@) =~= seq![mm] + matchers_view(old_v));
                    Ok((v, n + n2))
                },
                Err(e) => Err(e),
            },
        }
    }
}

/// Parses a rule target at token `i`, as `target_spec` says.
pub fn parse_target(src: &str, t: &Vec<Token>, i: usize) -> (r: Result<(Target, usize), ParseError>)
    requires
        tokens_fit(src@, t@),
    ensures
        agrees(r, target_spec(src@, t@, i as int)),
        within(r, i as int, t@.len() as int),
{
    if sym(t, i, Punct::Star) {
        Ok((any(), 1))
    } else if kind_at(t, i, TokenKind::Ident) {
        if kw(src, t, i, "ANY") {
            Ok((any(), 1))
        } else {
            Err(error_at(src, t, i, ErrorKind::Grammar(Expected::Target)))
        }
    } else if sym(t, i, Punct::LParen) {
        match parse_field_values(src, t, i + 1) {
            Err(e) => Err(e),
            Ok((v, n)) => {
                let mut v = v;
                if v.len() == 3 {
                    let ghost w = matchers_view(v@);
                    let resource = v.pop().unwrap();
                    let action = v.pop().unwrap();
                    let principal = v.pop().unwrap();
                    let tg = Target { principal, action, resource };
                    assert(tg@.principal == w[0] && tg@.action == w[1] && tg@.resource == w[2]);
                    Ok((tg, n + 1))
                } else {
                    Err(error_at(src, t, i, ErrorKind::Arity(v.len())))
                }
            },
        }
    } else if sym(t, i, Punct::LBrace) {
        match parse_struct_fields(
            src,
            t,
            i + 1,
            any(),
            SlotSet { principal: false, action: false, resource: false },
        ) {
            Err(e) => Err(e),
            Ok((tg, n)) => Ok((tg, n + 1)),
        }
    } else {
        Err(error_at(src, t, i, ErrorKind::Grammar(Expected::Target)))
    }
}

fn any() -> (r: Target)
    ensures
        r@ == any_target(),
{
    Target { principal: Matcher::Any, action: Matcher::Any, resource: Matcher::Any }
}

} // verus!

verus! {

// ---------------------------------------------------------------------------
// Conditions
// ---------------------------------------------------------------------------

pub open spec fn bool_at(t: Seq<Token>, i: int) -> Option<bool> {
    if 0 <= i < t.len() {
        match t[i].kind {
            TokenKind::Bool(b) => Some(b),
            _ => None,
        }
    } else {
        None
    }
}

pub open spec fn bool_cond(b: bool) -> ConditionModel {
    if b {
        ConditionModel::True
    } else {
        ConditionModel::False
    }
}

/// The name that token `i` gives an attribute: a string literal's contents
/// or an identifier.
pub open spec fn attr_name(s: Seq<char>, t: Seq<Token>, i: int) -> Seq<char> {
    if t[i].kind is Str {
        str_body(s, t[i])
    } else {
        text(s, t[i])
    }
}

/// A condition without a trailing `AND`/`OR` chain: `NOT` over a
/// parenthesized condition or a boolean literal; `attr EQ value` or
/// `attr NEQ value`; a parenthesized condition; or a boolean literal.
pub open spec fn cond_head_spec(s: Seq<char>, t: Seq<Token>, i: int) -> Result<
    (ConditionModel, nat),
    ParseError,
>
    decreases t.len() - i, 0int,
{
    if is_kw(s, t, i, "NOT"@) {
        if is_sym(t, i + 1, Punct::LParen) {
            match cond_spec(s, t, i + 2) {
                Err(e) => Err(e),
                Ok((c, n)) => if is_sym(t, i + 2 + n, Punct::RParen) {
                    Ok((ConditionModel::Not(Box::new(c)), n + 3))
                } else {
                    fail_at(s, t, i + 2 + n, ErrorKind::Grammar(Expected::Punct(Punct::RParen)))
                },
            }
        } else {
            match bool_at(t, i + 1) {
                Some(b) => Ok((ConditionModel::Not(Box::new(bool_cond(b))), 2)),
                None => fail_at(s, t, i + 1, ErrorKind::Grammar(Expected::Atom)),
            }
        }
    } else if is_sym(t, i, Punct::LParen) {
        match cond_spec(s, t, i + 1) {
            Err(e) => Err(e),
            Ok((c, n)) => if is_sym(t, i + 1 + n, Punct::RParen) {
                Ok((c, n + 2))
            } else {
                fail_at(s, t, i + 1 + n, ErrorKind::Grammar(Expected::Punct(Punct::RParen)))
            },
        }
    } else if bool_at(t, i) is Some {
        Ok((bool_cond(bool_at(t, i)->Some_0), 1))
    } else if is_kind(t, i, TokenKind::Str) || is_kind(t, i, TokenKind::Ident) {
        let attr = attr_name(s, t, i);
        if is_kw(s, t, i + 1, "EQ"@) || is_kw(s, t, i + 1, "NEQ"@) {
            match value_spec(s, t, i + 2) {
                Err(e) => Err(e),
                Ok((v, n)) => if is_kw(s, t, i + 1, "EQ"@) {
                    Ok((ConditionModel::Equals(attr, v), n + 2))
                } else {
                    Ok((ConditionModel::NotEquals(attr, v), n + 2))
                },
            }
        } else {
            fail_at(s, t, i + 1, ErrorKind::Grammar(Expected::Comparison))
        }
    } else {
        fail_at(s, t, i, ErrorKind::Grammar(Expected::Atom))
    }
}

/// A condition: a head, optionally followed by `AND` or `OR` and a further
/// condition. Chains therefore group to the right, and `AND` and `OR` bind
/// equally: `a AND b OR c` is `a AND (b OR c)`.
pub open spec fn cond_spec(s: Seq<char>, t: Seq<Token>, i: int) -> Result<
    (ConditionModel, nat),
    ParseError,
>
    decreases t.len() - i, 1int,
{
    match cond_head_spec(s, t, i) {
        Err(e) => Err(e),
        Ok((h, m)) => {
            let k = i + m;
            if is_kw(s, t, k, "AND"@) {
                match cond_spec(s, t, k + 1) {
                    Ok((r, n)) => Ok((ConditionModel::And(Box::new(h), Box::new(r)), m + 1 + n)),
                    Err(e) => Err(e),
                }
            } else if is_kw(s, t, k, "OR"@) {
                match cond_spec(s, t, k + 1) {
                    Ok((r, n)) => Ok((ConditionModel::Or(Box::new(h), Box::new(r)), m + 1 + n)),
                    Err(e) => Err(e),
                }
            } else if is_kind(t, k, TokenKind::Ident) {
                fail_at(s, t, k, ErrorKind::Grammar(Expected::Connective))
            } else {
                Ok((h, m))
            }
        },
    }
}

fn bool_token(t: &Vec<Token>, i: usize) -> (r: Option<bool>)
    ensures
        r == bool_at(t@, i as int),
{
    if i < t.len() {
        match t[i].kind {
            TokenKind::Bool(b) => Some(b),
            _ => None,
        }
    } else {
        None
    }
}

fn bool_condition(b: bool) -> (r: Condition)
    ensures
        r@ == bool_cond(b),
{
    if b {
        Condition::True
    } else {
        Condition::False
    }
}

/// Parses a condition head at token `i`, as `cond_head_spec` says.
pub fn parse_cond_head(src: &str, t: &Vec<Token>, i: usize) -> (r: Result<
    (Condition, usize),
    ParseError,
>)
    requires
        tokens_fit(src@, t@),
    ensures
        agrees(r, cond_head_spec(src@, t@, i as int)),
        within(r, i as int, t@.len() as int),
    decreases t@.len() - i, 0int,
{
    if kw(src, t, i, "NOT") {
        if sym(t, i + 1, Punct::LParen) {
            match parse_condition(src, t, i + 2) {
                Err(e) => Err(e),
                Ok((c, n)) => if sym(t, i + 2 + n, Punct::RParen) {
                    Ok((Condition::Not(Box::new(c)), n + 3))
                } else {
                    Err(error_at(src, t, i + 2 + n, ErrorKind::Grammar(Expected::Punct(Punct::RParen))))
                },
            }
        } else {
            match bool_token(t, i + 1) {
                Some(b) => Ok((Condition::Not(Box::new(bool_condition(b))), 2)),
                None => Err(error_at(src, t, i + 1, ErrorKind::Grammar(Expected::Atom))),
            }
        }
    } else if sym(t, i, Punct::LParen) {
        match parse_condition(src, t, i + 1) {
            Err(e) => Err(e),
            Ok((c, n)) => if sym(t, i + 1 + n, Punct::RParen) {
                Ok((c, n + 2))
            } else {
                Err(error_at(src, t, i + 1 + n, ErrorKind::Grammar(Expected::Punct(Punct::RParen))))
            },
        }
    } else if let Some(b) = bool_token(t, i) {
        Ok((bool_condition(b), 1))
    } else if kind_at(t, i, TokenKind::Str) || kind_at(t, i, TokenKind::Ident) {
        let attr = if kind_at(t, i, TokenKind::Str) {
            body_of(src, t, i)
        } else {
            text_of(src, t, i)
        };
        let eq = kw(src, t, i + 1, "EQ");
        if eq || kw(src, t, i + 1, "NEQ") {
            match parse_value(src, t, i + 2) {
                Err(e) => Err(e),
                Ok((v, n)) => if eq {
                    Ok((Condition::Equals { attr, value: v }, n + 2))
                } else {
                    Ok((Condition::NotEquals { attr, value: v }, n + 2))
                },
            }
        } else {
            Err(error_at(src, t, i + 1, ErrorKind::Grammar(Expected::Comparison)))
        }
    } else {
        Err(error_at(src, t, i, ErrorKind::Grammar(Expected::Atom)))
    }
}

/// Parses a condition with its `AND`/`OR` chain at token `i`, as
/// `cond_spec` says.
pub fn parse_condition(src: &str, t: &Vec<Token>, i: usize) -> (r: Result<
    (Condition, usize),
    ParseError,
>)
    requires
        tokens_fit(src@, t@),
    ensures
        agrees(r, cond_spec(src@, t@, i as int)),
        within(r, i as int, t@.len() as int),
    decreases t@.len() - i, 1int,
{
    match parse_cond_head(src, t, i) {
        Err(e) => Err(e),
        Ok((h, m)) => {
            let k = i + m;
            if kw(src, t, k, "AND") {
                match parse_condition(src, t, k + 1) {
                    Ok((r, n)) => Ok((Condition::And(Box::new(h), Box::new(r)), m + 1 + n)),
                    Err(e) => Err(e),
                }
            } else if kw(src, t, k, "OR") {
                match parse_condition(src, t, k + 1) {
                    Ok((r, n)) => Ok((Condition::Or(Box::new(h), Box::new(r)), m + 1 + n)),
                    Err(e) => Err(e),
                }
            } else if kind_at(t, k, TokenKind::Ident) {
                Err(error_at(src, t, k, ErrorKind::Grammar(Expected::Connective)))
            } else {
                Ok((h, m))
            }
        },
    }
}

} // verus!

verus! {

// ---------------------------------------------------------------------------
// Rules
// ---------------------------------------------------------------------------

/// How many tokens remain from `i`.
pub open spec fn remaining(t: Seq<Token>, i: int) -> nat {
    if i < t.len() {
        (t.len() - i) as nat
    } else {
        0
    }
}

pub open spec fn effect_spec(s: Seq<char>, t: Seq<Token>, i: int) -> Result<
    (Effect, nat),
    ParseError,
> {
    if is_kw(s, t, i, "ALLOW"@) {
        Ok((Effect::Allow, 1))
    } else if is_kw(s, t, i, "DENY"@) {
        Ok((Effect::Deny, 1))
    } else {
        fail_at(s, t, i, ErrorKind::Grammar(Expected::Effect))
    }
}

/// An optional `WHERE { condition }` clause; without one the rule has no
/// condition and spans no tokens here.
pub open spec fn where_spec(s: Seq<char>, t: Seq<Token>, i: int) -> Result<
    (Option<ConditionModel>, nat),
    ParseError,
> {
    if is_kw(s, t, i, "WHERE"@) {
        if !is_sym(t, i + 1, Punct::LBrace) {
            fail_at(s, t, i + 1, ErrorKind::Grammar(Expected::Punct(Punct::LBrace)))
        } else {
            match cond_spec(s, t, i + 2) {
                Err(e) => Err(e),
                Ok((c, n)) => if is_sym(t, i + 2 + n, Punct::RBrace) {
                    Ok((Some(c), n + 3))
                } else {
                    fail_at(s, t, i + 2 + n, ErrorKind::Grammar(Expected::Punct(Punct::RBrace)))
                },
            }
        }
    } else {
        Ok((None, 0))
    }
}

/// A reason code: an integer literal or the name of a constant.
pub open spec fn reason_spec(s: Seq<char>, t: Seq<Token>, i: int) -> Result<
    (ReasonModel, nat),
    ParseError,
> {
    if 0 <= i < t.len() {
        match t[i].kind {
            TokenKind::Int(v) => if v as int <= i64::MAX {
                Ok((ReasonModel::Literal(v as int), 1))
            } else {
                fail_at(s, t, i, ErrorKind::Type)
            },
            TokenKind::Ident => Ok((ReasonModel::Named(text(s, t[i])), 1)),
            _ => fail_at(s, t, i, ErrorKind::Grammar(Expected::ReasonCode)),
        }
    } else {
        fail_at(s, t, i, ErrorKind::Grammar(Expected::ReasonCode))
    }
}

/// `(ALLOW|DENY) target [WHERE { condition }] => reason ;`
#[verifier::opaque]
pub open spec fn rule_spec(s: Seq<char>, t: Seq<Token>, i: int) -> Result<
    (RuleModel, nat),
    ParseError,
> {
    match effect_spec(s, t, i) {
        Err(e) => Err(e),
        Ok((eff, _)) => match target_spec(s, t, i + 1) {
            Err(e) => Err(e),
            Ok((tg, tn)) => {
                let k = i + 1 + tn;
                match where_spec(s, t, k) {
                    Err(e) => Err(e),
                    Ok((c, cn)) => {
                        let a = k + cn;
                        if !is_sym(t, a, Punct::FatArrow) {
                            fail_at(s, t, a, ErrorKind::Grammar(Expected::Punct(Punct::FatArrow)))
                        } else {
                            match reason_spec(s, t, a + 1) {
                                Err(e) => Err(e),
                                Ok((rc, _)) => if !is_sym(t, a + 2, Punct::Semi) {
                                    fail_at(
                                        s,
                                        t,
                                        a + 2,
                                        ErrorKind::Grammar(Expected::Punct(Punct::Semi)),
                                    )
                                } else {
                                    Ok(
                                        (
                                            RuleModel {
                                                effect: eff,
                                                target: tg,
                                                condition: c,
                                                reason: rc,
                                            },
                                            tn + cn + 4,
                                        ),
                                    )
                                },
                            }
                        }
                    },
                }
            },
        },
    }
}

/// A rule that parses spans at least its effect, target, `=>`, reason and
/// `;`.
pub proof fn lemma_rule_span(s: Seq<char>, t: Seq<Token>, i: int)
    requires
        rule_spec(s, t, i) is Ok,
    ensures
        rule_spec(s, t, i)->Ok_0.1 >= 4,
{
    reveal(rule_spec);
}

/// The rules from `i` to the end of the input, in source order.
pub open spec fn rules_spec(s: Seq<char>, t: Seq<Token>, i: int) -> Result<
    Seq<RuleModel>,
    ParseError,
>
    decreases remaining(t, i),
{
    if i < 0 || i >= t.len() {
        Ok(Seq::empty())
    } else {
        proof {
            if rule_spec(s, t, i) is Ok {
                lemma_rule_span(s, t, i);
            }
        }
        match rule_spec(s, t, i) {
            Err(e) => Err(e),
            Ok((r, n)) => match rules_spec(s, t, i + n) {
                Ok(rest) => Ok(seq![r] + rest),
                Err(e) => Err(e),
            },
        }
    }
}

/// Parses `ALLOW` or `DENY` at token `i`, as `effect_spec` says.
pub fn parse_effect(src: &str, t: &Vec<Token>, i: usize) -> (r: Result<(Effect, usize), ParseError>)
    requires
        tokens_fit(src@, t@),
    ensures
        match (r, effect_spec(src@, t@, i as int)) {
            (Ok((x, n)), Ok((y, k))) => x == y && n as nat == k,
            (Err(e), Err(f)) => e == f,
            _ => false,
        },
        within(r, i as int, t@.len() as int),
{
    if kw(src, t, i, "ALLOW") {
        Ok((Effect::Allow, 1))
    } else if kw(src, t, i, "DENY") {
        Ok((Effect::Deny, 1))
    } else {
        Err(error_at(src, t, i, ErrorKind::Grammar(Expected::Effect)))
    }
}

/// Parses an optional `WHERE { condition }` at token `i`, as `where_spec`
/// says.
pub fn parse_where(src: &str, t: &Vec<Token>, i: usize) -> (r: Result<
    (Option<Condition>, usize),
    ParseError,
>)
    requires
        tokens_fit(src@, t@),
        i <= t@.len(),
    ensures
        match (r, where_spec(src@, t@, i as int)) {
            (Ok((x, n)), Ok((y, k))) => match (x, y) {
                (Some(c), Some(d)) => c@ == d && n as nat == k,
                (None, None) => n as nat == k,
                _ => false,
            },
            (Err(e), Err(f)) => e == f,
            _ => false,
        },
        within(r, i as int, t@.len() as int),
{
    if kw(src, t, i, "WHERE") {
        if !sym(t, i + 1, Punct::LBrace) {
            Err(error_at(src, t, i + 1, ErrorKind::Grammar(Expected::Punct(Punct::LBrace))))
        } else {
            match parse_condition(src, t, i + 2) {
                Err(e) => Err(e),
                Ok((c, n)) => if sym(t, i + 2 + n, Punct::RBrace) {
                    Ok((Some(c), n + 3))
                } else {
                    Err(error_at(src, t, i + 2 + n, ErrorKind::Grammar(Expected::Punct(Punct::RBrace))))
                },
            }
        }
    } else {
        Ok((None, 0))
    }
}

/// Parses a reason code at token `i`, as `reason_spec` says.
pub fn parse_reason(src: &str, t: &Vec<Token>, i: usize) -> (r: Result<(ReasonCode, usize), ParseError>)
    requires
        tokens_fit(src@, t@),
    ensures
        agrees(r, reason_spec(src@, t@, i as int)),
        within(r, i as int, t@.len() as int),
{
    if i < t.len() {
        match t[i].kind {
            TokenKind::Int(v) => if v <= 0x7fff_ffff_ffff_ffff {
                Ok((ReasonCode::Literal(v as i64), 1))
            } else {
                Err(error_at(src, t, i, ErrorKind::Type))
            },
            TokenKind::Ident => Ok((ReasonCode::Named(text_of(src, t, i)), 1)),
            _ => Err(error_at(src, t, i, ErrorKind::Grammar(Expected::ReasonCode))),
        }
    } else {
        Err(error_at(src, t, i, ErrorKind::Grammar(Expected::ReasonCode)))
    }
}

/// Parses one rule at token `i`, as `rule_spec` says.
pub fn parse_rule(src: &str, t: &Vec<Token>, i: usize) -> (r: Result<(Rule, usize), ParseError>)
    requires
        tokens_fit(src@, t@),
    ensures
        agrees(r, rule_spec(src@, t@, i as int)),
        within(r, i as int, t@.len() as int),
{
    reveal(rule_spec);
    match parse_effect(src, t, i) {
        Err(e) => Err(e),
        Ok((effect, _)) => match parse_target(src, t, i + 1) {
            Err(e) => Err(e),
            Ok((target, tn)) => {
                let k = i + 1 + tn;
                match parse_where(src, t, k) {
                    Err(e) => Err(e),
                    Ok((condition, cn)) => {
                        let a = k + cn;
                        if !sym(t, a, Punct::FatArrow) {
                            Err(error_at(src, t, a, ErrorKind::Grammar(Expected::Punct(Punct::FatArrow))))
                        } else {
                            match parse_reason(src, t, a + 1) {
                                Err(e) => Err(e),
                                Ok((reason, _)) => if !sym(t, a + 2, Punct::Semi) {
                                    Err(
                                        error_at(
                                            src,
                                            t,
                                            a + 2,
                                            ErrorKind::Grammar(Expected::Punct(Punct::Semi)),
                                        ),
                                    )
                                } else {
                                    Ok((Rule { effect, target, condition, reason }, tn + cn + 4))
                                },
                            }
                        }
                    },
                }
            },
        },
    }
}

/// Parses the rules from token `i` to the end, as `rules_spec` says.
pub fn parse_rules(src: &str, t: &Vec<Token>, i: usize) -> (r: Result<Vec<Rule>, ParseError>)
    requires
        tokens_fit(src@, t@),
    ensures
        match (r, rules_spec(src@, t@, i as int)) {
            (Ok(v), Ok(w)) => rules_view(v@) == w,
            (Err(e), Err(f)) => e == f,
            _ => false,
        },
    decreases remaining(t@, i as int),
{
    if i >= t.len() {
        Ok(Vec::new())
    } else {
        proof {
            if rule_spec(src@, t@, i as int) is Ok {
                lemma_rule_span(src@, t@, i as int);
            }
        }
        match parse_rule(src, t, i) {
            Err(e) => Err(e),
            Ok((rule, n)) => match parse_rules(src, t, i + n) {
                Ok(rest) => {
                    let mut v = rest;
                    let ghost old_v = v@;
                    let ghost rm = rule@;
                    v.insert(0, rule);
                    assert(rules_view(v@) =~= seq![rm] + rules_view(old_v));
                    Ok(v)
                },
                Err(e) => Err(e),
            },
        }
    }
}

} // verus!

verus! {

// ---------------------------------------------------------------------------
// Policy definitions
// ---------------------------------------------------------------------------

pub open spec fn opens_group(k: TokenKind) -> bool {
    k == TokenKind::Sym(Punct::LParen) || k == TokenKind::Sym(Punct::LBrace) || k
        == TokenKind::Sym(Punct::LBracket)
}

pub open spec fn closes_group(k: TokenKind) -> bool {
    k == TokenKind::Sym(Punct::RParen) || k == TokenKind::Sym(Punct::RBrace) || k
        == TokenKind::Sym(Punct::RBracket)
}

/// A token that is an operand by itself: an identifier or a literal.
pub open spec fn is_word(k: TokenKind) -> bool {
    k is Ident || k is Str || k is Int || k is Number || k is Bool
}

/// Just past the bracket that closes a group whose contents start at `j`;
/// `depth` counts the groups opened inside it so far. The end of the input
/// if it never closes.
pub open spec fn group_end(t: Seq<Token>, j: int, depth: nat) -> int
    decreases remaining(t, j),
{
    if j < 0 || j >= t.len() {
        t.len() as int
    } else if opens_group(t[j].kind) {
        group_end(t, j + 1, depth + 1)
    } else if closes_group(t[j].kind) {
        if depth == 0 {
            j + 1
        } else {
            group_end(t, j + 1, (depth - 1) as nat)
        }
    } else {
        group_end(t, j + 1, depth)
    }
}

/// Just past the `>` that closes generic arguments whose contents start at
/// `j`; `depth` counts the `<` still open. The end of the input if none does.
pub open spec fn angle_end(s: Seq<char>, t: Seq<Token>, j: int, depth: nat) -> int
    decreases remaining(t, j),
{
    if j < 0 || j >= t.len() {
        t.len() as int
    } else if is_op(s, t, j, '<') {
        angle_end(s, t, j + 1, depth + 1)
    } else if is_op(s, t, j, '>') {
        if depth <= 1 {
            j + 1
        } else {
            angle_end(s, t, j + 1, (depth - 1) as nat)
        }
    } else {
        angle_end(s, t, j + 1, depth)
    }
}

/// The next `|` at or after `j`, or the end of the input.
pub open spec fn bar_end(s: Seq<char>, t: Seq<Token>, j: int) -> int
    decreases remaining(t, j),
{
    if j < 0 || j >= t.len() {
        t.len() as int
    } else if is_op(s, t, j, '|') {
        j
    } else {
        bar_end(s, t, j + 1)
    }
}

pub proof fn lemma_skip_bounds(s: Seq<char>, t: Seq<Token>, j: int, depth: nat)
    requires
        0 <= j <= t.len(),
    ensures
        j <= group_end(t, j, depth) <= t.len(),
        j <= angle_end(s, t, j, depth) <= t.len(),
        j <= bar_end(s, t, j) <= t.len(),
    decreases remaining(t, j),
{
    if j < t.len() {
        lemma_skip_bounds(s, t, j + 1, depth + 1);
        lemma_skip_bounds(s, t, j + 1, depth);
        if depth > 0 {
            lemma_skip_bounds(s, t, j + 1, (depth - 1) as nat);
        }
    }
}

/// Reads an opaque expression from `j`, where `operand` says whether an
/// operand was just read. Operands (identifiers, literals, bracketed groups)
/// and operators alternate; a group may also follow an operand (a call, an
/// index, a struct body). Generic arguments after `::` (`f::<A, B>`) and
/// closure parameters (`|a, b|`) are read whole, commas included; `as` joins
/// two operands. The expression ends before a `,`, `;` or closing bracket
/// outside any group, before a second operand in a row, or at the end of
/// the input. The result is where it ends and whether it ends after an
/// operand.
pub open spec fn expr_scan(s: Seq<char>, t: Seq<Token>, j: int, operand: bool) -> (int, bool)
    decreases remaining(t, j),
{
    if j < 0 || j >= t.len() {
        (j, operand)
    } else {
        proof {
            lemma_skip_bounds(s, t, j + 1, 0);
            if j + 3 <= t.len() {
                lemma_skip_bounds(s, t, j + 3, 1);
            }
        }
        let k = t[j].kind;
        if opens_group(k) {
            expr_scan(s, t, group_end(t, j + 1, 0), true)
        } else if closes_group(k) || k == TokenKind::Sym(Punct::Comma) || k == TokenKind::Sym(
            Punct::Semi,
        ) {
            (j, operand)
        } else if is_word(k) {
            if operand && is_kw(s, t, j, "as"@) {
                expr_scan(s, t, j + 1, false)
            } else if operand {
                (j, true)
            } else {
                expr_scan(s, t, j + 1, true)
            }
        } else if !operand && is_op(s, t, j, '|') {
            if bar_end(s, t, j + 1) < t.len() {
                expr_scan(s, t, bar_end(s, t, j + 1) + 1, false)
            } else {
                (t.len() as int, false)
            }
        } else if is_sym(t, j, Punct::Colon) && is_sym(t, j + 1, Punct::Colon) && is_op(
            s,
            t,
            j + 2,
            '<',
        ) {
            expr_scan(s, t, angle_end(s, t, j + 3, 1), true)
        } else {
            expr_scan(s, t, j + 1, false)
        }
    }
}

/// Where the expression that starts at `j` ends.
pub open spec fn expr_end(s: Seq<char>, t: Seq<Token>, j: int) -> int {
    expr_scan(s, t, j, false).0
}

/// Whether the expression that starts at `j` is complete: it holds an
/// operand and does not end on an operator.
pub open spec fn expr_complete(s: Seq<char>, t: Seq<Token>, j: int) -> bool {
    expr_scan(s, t, j, false).1
}

pub proof fn lemma_expr_scan(s: Seq<char>, t: Seq<Token>, j: int, operand: bool)
    requires
        0 <= j <= t.len(),
    ensures
        j <= expr_scan(s, t, j, operand).0 <= t.len(),
        !operand && expr_scan(s, t, j, operand).1 ==> j < expr_scan(s, t, j, operand).0,
    decreases remaining(t, j),
{
    if j < t.len() {
        lemma_skip_bounds(s, t, j + 1, 0);
        if j + 3 <= t.len() {
            lemma_skip_bounds(s, t, j + 3, 1);
        }
        let k = t[j].kind;
        if opens_group(k) {
            lemma_expr_scan(s, t, group_end(t, j + 1, 0), true);
        } else if closes_group(k) || k == TokenKind::Sym(Punct::Comma) || k == TokenKind::Sym(
            Punct::Semi,
        ) {
        } else if is_word(k) {
            lemma_expr_scan(s, t, j + 1, false);
            lemma_expr_scan(s, t, j + 1, true);
        } else if !operand && is_op(s, t, j, '|') {
            if bar_end(s, t, j + 1) < t.len() {
                lemma_expr_scan(s, t, bar_end(s, t, j + 1) + 1, false);
            }
        } else if is_sym(t, j, Punct::Colon) && is_sym(t, j + 1, Punct::Colon) && is_op(
            s,
            t,
            j + 2,
            '<',
        ) {
            lemma_expr_scan(s, t, angle_end(s, t, j + 3, 1), true);
        } else {
            lemma_expr_scan(s, t, j + 1, false);
        }
    }
}

/// The source text from the start of token `a` to the end of token `b - 1`.
pub open spec fn span_text(s: Seq<char>, t: Seq<Token>, a: int, b: int) -> Seq<char> {
    s.subrange(t[a].start as int, t[b - 1].end as int)
}

/// The entries of a `CONFIG` block, from the first one through `}`:
/// `name: expression` pairs separated by commas, with an optional trailing
/// comma. Names and expressions are kept as written.
pub open spec fn config_fields_spec(s: Seq<char>, t: Seq<Token>, i: int) -> Result<
    (Seq<ConfigFieldModel>, nat),
    ParseError,
>
    decreases remaining(t, i),
{
    if is_sym(t, i, Punct::RBrace) {
        Ok((Seq::empty(), 1))
    } else if !is_kind(t, i, TokenKind::Ident) {
        fail_at(s, t, i, ErrorKind::Grammar(Expected::Identifier))
    } else if !is_sym(t, i + 1, Punct::Colon) {
        fail_at(s, t, i + 1, ErrorKind::Grammar(Expected::Punct(Punct::Colon)))
    } else {
        let e = expr_end(s, t, i + 2);
        if !expr_complete(s, t, i + 2) {
            fail_at(s, t, i + 2, ErrorKind::Grammar(Expected::Expression))
        } else {
            let f = ConfigFieldModel { name: text(s, t[i]), value: span_text(s, t, i + 2, e) };
            if is_sym(t, e, Punct::RBrace) {
                Ok((seq![f], (e + 1 - i) as nat))
            } else if !is_sym(t, e, Punct::Comma) {
                fail_at(s, t, e, ErrorKind::Grammar(Expected::Punct(Punct::Comma)))
            } else {
                proof {
                    lemma_expr_scan(s, t, i + 2, false);
                }
                match config_fields_spec(s, t, e + 1) {
                    Ok((rest, n)) => Ok((seq![f] + rest, (e + 1 - i) as nat + n)),
                    Err(e) => Err(e),
                }
            }
        }
    }
}

/// An optional leading `USE expression ;`.
pub open spec fn use_spec(s: Seq<char>, t: Seq<Token>) -> Result<
    (Option<Seq<char>>, nat),
    ParseError,
> {
    if is_kw(s, t, 0, "USE"@) {
        let e = expr_end(s, t, 1);
        if !expr_complete(s, t, 1) {
            fail_at(s, t, 1, ErrorKind::Grammar(Expected::Expression))
        } else if !is_sym(t, e, Punct::Semi) {
            fail_at(s, t, e, ErrorKind::Grammar(Expected::Punct(Punct::Semi)))
        } else {
            Ok((Some(span_text(s, t, 1, e)), (e + 1) as nat))
        }
    } else {
        Ok((None, 0))
    }
}

/// An optional `CONFIG { entries } ;` at `i`.
pub open spec fn config_spec(s: Seq<char>, t: Seq<Token>, i: int) -> Result<
    (Option<Seq<ConfigFieldModel>>, nat),
    ParseError,
> {
    if is_kw(s, t, i, "CONFIG"@) {
        if !is_sym(t, i + 1, Punct::LBrace) {
            fail_at(s, t, i + 1, ErrorKind::Grammar(Expected::Punct(Punct::LBrace)))
        } else {
            match config_fields_spec(s, t, i + 2) {
                Err(e) => Err(e),
                Ok((fs, n)) => if is_sym(t, i + 2 + n, Punct::Semi) {
                    Ok((Some(fs), n + 3))
                } else {
                    fail_at(s, t, i + 2 + n, ErrorKind::Grammar(Expected::Punct(Punct::Semi)))
                },
            }
        }
    } else {
        Ok((None, 0))
    }
}

/// A policy definition: an optional `USE` directive, then an optional
/// `CONFIG` block, then rules to the end of the input.
pub open spec fn policy_spec(s: Seq<char>, t: Seq<Token>) -> Result<PolicyModel, ParseError> {
    match use_spec(s, t) {
        Err(e) => Err(e),
        Ok((u, a)) => match config_spec(s, t, a as int) {
            Err(e) => Err(e),
            Ok((c, b)) => match rules_spec(s, t, (a + b) as int) {
                Err(e) => Err(e),
                Ok(rs) => Ok(PolicyModel { use_builder: u, config: c, rules: rs }),
            },
        },
    }
}

/// The first error in the source: a lexing error ends the tokens, so the
/// parse of the tokens before it keeps its own error where that error lies
/// before the lexing error, and otherwise gives way to it.
pub open spec fn first_error<T>(r: Result<T, ParseError>, lexing: Option<ParseError>) -> Result<
    T,
    ParseError,
> {
    match lexing {
        None => r,
        Some(e) => match r {
            Err(p) => if p.pos < e.pos {
                Err(p)
            } else {
                Err(e)
            },
            Ok(_) => Err(e),
        },
    }
}

/// What compiling the source `s` yields: its definition, or the first error
/// in it.
pub open spec fn compile_spec(s: Seq<char>) -> Result<PolicyModel, ParseError> {
    first_error(policy_spec(s, lex(s).0), lex(s).1)
}

fn skip_group(t: &Vec<Token>, j: usize) -> (r: usize)
    requires
        j <= t@.len(),
    ensures
        r == group_end(t@, j as int, 0),
{
    let mut k = j;
    let mut depth: usize = 0;
    while k < t.len()
        invariant
            j <= k <= t@.len(),
            depth <= k,
            group_end(t@, j as int, 0) == group_end(t@, k as int, depth as nat),
        decreases t@.len() - k,
    {
        let kind = t[k].kind;
        if kind == TokenKind::Sym(Punct::LParen) || kind == TokenKind::Sym(Punct::LBrace) || kind
            == TokenKind::Sym(Punct::LBracket) {
            depth = depth + 1;
        } else if kind == TokenKind::Sym(Punct::RParen) || kind == TokenKind::Sym(Punct::RBrace)
            || kind == TokenKind::Sym(Punct::RBracket) {
            if depth == 0 {
                return k + 1;
            }
            depth = depth - 1;
        }
        k = k + 1;
    }
    k
}

fn skip_angles(src: &str, t: &Vec<Token>, j: usize) -> (r: usize)
    requires
        tokens_fit(src@, t@),
        1 <= j <= t@.len(),
    ensures
        r == angle_end(src@, t@, j as int, 1),
{
    let mut k = j;
    let mut depth: usize = 1;
    while k < t.len()
        invariant
            tokens_fit(src@, t@),
            j <= k <= t@.len(),
            1 <= j,
            1 <= depth <= k - j + 1,
            angle_end(src@, t@, j as int, 1) == angle_end(src@, t@, k as int, depth as nat),
        decreases t@.len() - k,
    {
        if op_is(src, t, k, '<') {
            depth = depth + 1;
        } else if op_is(src, t, k, '>') {
            if depth <= 1 {
                return k + 1;
            }
            depth = depth - 1;
        }
        k = k + 1;
    }
    k
}

fn skip_to_bar(src: &str, t: &Vec<Token>, j: usize) -> (r: usize)
    requires
        tokens_fit(src@, t@),
        j <= t@.len(),
    ensures
        r == bar_end(src@, t@, j as int),
{
    let mut k = j;
    while k < t.len()
        invariant
            tokens_fit(src@, t@),
            j <= k <= t@.len(),
            bar_end(src@, t@, j as int) == bar_end(src@, t@, k as int),
        decreases t@.len() - k,
    {
        if op_is(src, t, k, '|') {
            return k;
        }
        k = k + 1;
    }
    k
}

/// Reads the opaque expression that starts at token `j`, as `expr_scan`
/// says: where it ends, and whether it is complete.
pub fn scan_expr(src: &str, t: &Vec<Token>, j: usize) -> (r: (usize, bool))
    requires
        tokens_fit(src@, t@),
        j <= t@.len(),
    ensures
        r.0 == expr_end(src@, t@, j as int),
        r.1 == expr_complete(src@, t@, j as int),
        j <= r.0 <= t@.len(),
        r.1 ==> j < r.0,
{
    proof {
        lemma_expr_scan(src@, t@, j as int, false);
    }
    let mut k = j;
    let mut operand = false;
    while k < t.len()
        invariant
            tokens_fit(src@, t@),
            j <= k <= t@.len(),
            expr_scan(src@, t@, j as int, false) == expr_scan(src@, t@, k as int, operand),
            operand ==> j < k,
        decreases t@.len() - k,
    {
        proof {
            lemma_skip_bounds(src@, t@, k + 1, 0);
            if k + 3 <= t@.len() {
                lemma_skip_bounds(src@, t@, k + 3, 1);
            }
        }
        let kind = t[k].kind;
        if kind == TokenKind::Sym(Punct::LParen) || kind == TokenKind::Sym(Punct::LBrace) || kind
            == TokenKind::Sym(Punct::LBracket) {
            k = skip_group(t, k + 1);
            operand = true;
        } else if kind == TokenKind::Sym(Punct::RParen) || kind == TokenKind::Sym(Punct::RBrace)
            || kind == TokenKind::Sym(Punct::RBracket) || kind == TokenKind::Sym(Punct::Comma)
            || kind == TokenKind::Sym(Punct::Semi) {
            return (k, operand);
        } else if matches!(kind, TokenKind::Ident | TokenKind::Str | TokenKind::Int(_) | TokenKind::Number | TokenKind::Bool(_)) {
            if operand && kw(src, t, k, "as") {
                k = k + 1;
                operand = false;
            } else if operand {
                return (k, true);
            } else {
                k = k + 1;
                operand = true;
            }
        } else if !operand && op_is(src, t, k, '|') {
            let b = skip_to_bar(src, t, k + 1);
            if b < t.len() {
                k = b + 1;
                operand = false;
            } else {
                return (t.len(), false);
            }
        } else if sym(t, k, Punct::Colon) && sym(t, k + 1, Punct::Colon) && op_is(src, t, k + 2, '<') {
            k = skip_angles(src, t, k + 3);
            operand = true;
        } else {
            k = k + 1;
            operand = false;
        }
    }
    (k, operand)
}

fn span_of(src: &str, t: &Vec<Token>, a: usize, b: usize) -> (r: String)
    requires
        tokens_fit(src@, t@),
        a < b <= t@.len(),
    ensures
        r@ == span_text(src@, t@, a as int, b as int),
{
    let from = t[a].start;
    let to = t[b - 1].end;
    assert(t@[a as int].end <= t@[b - 1].start || a == b - 1);
    src.substring_char(from, to).to_owned()
}

/// Parses `CONFIG` entries from token `i` through `}`, as
/// `config_fields_spec` says.
pub fn parse_config_fields(src: &str, t: &Vec<Token>, i: usize) -> (r: Result<
    (Vec<ConfigField>, usize),
    ParseError,
>)
    requires
        tokens_fit(src@, t@),
    ensures
        match (r, config_fields_spec(src@, t@, i as int)) {
            (Ok((v, n)), Ok((w, k))) => config_view(v@) == w && n as nat == k,
            (Err(e), Err(f)) => e == f,
            _ => false,
        },
        within(r, i as int, t@.len() as int),
    decreases remaining(t@, i as int),
{
    if sym(t, i, Punct::RBrace) {
        Ok((Vec::new(), 1))
    } else if !kind_at(t, i, TokenKind::Ident) {
        Err(error_at(src, t, i, ErrorKind::Grammar(Expected::Identifier)))
    } else if !sym(t, i + 1, Punct::Colon) {
        Err(error_at(src, t, i + 1, ErrorKind::Grammar(Expected::Punct(Punct::Colon))))
    } else {
        let (e, complete) = scan_expr(src, t, i + 2);
        if !complete {
            Err(error_at(src, t, i + 2, ErrorKind::Grammar(Expected::Expression)))
        } else {
            let f = ConfigField { name: text_of(src, t, i), value: span_of(src, t, i + 2, e) };
            if sym(t, e, Punct::RBrace) {
                let mut v: Vec<ConfigField> = Vec::new();
                let ghost fm = f@;
                v.push(f);
                assert(config_view(v@) =~= seq![fm]);
                Ok((v, e + 1 - i))
            } else if !sym(t, e, Punct::Comma) {
                Err(error_at(src, t, e, ErrorKind::Grammar(Expected::Punct(Punct::Comma))))
            } else {
                match parse_config_fields(src, t, e + 1) {
                    Ok((rest, n)) => {
                        let mut v = rest;
                        let ghost old_v = v@;
                        let ghost fm = f@;
                        v.insert(0, f);
                        assert(config_view(v@) =~= seq![fm] + config_view(old_v));
                        Ok((v, e + 1 - i + n))
                    },
                    Err(e) => Err(e),
                }
            }
        }
    }
}

/// Parses an optional leading `USE expression ;`, as `use_spec` says.
pub fn parse_use(src: &str, t: &Vec<Token>) -> (r: Result<(Option<String>, usize), ParseError>)
    requires
        tokens_fit(src@, t@),
    ensures
        match (r, use_spec(src@, t@)) {
            (Ok((x, n)), Ok((y, k))) => match (x, y) {
                (Some(a), Some(b)) => a@ == b && n as nat == k,
                (None, None) => n as nat == k,
                _ => false,
            },
            (Err(e), Err(f)) => e == f,
            _ => false,
        },
        within(r, 0, t@.len() as int),
{
    if kw(src, t, 0, "USE") {
        let (e, complete) = scan_expr(src, t, 1);
        if !complete {
            Err(error_at(src, t, 1, ErrorKind::Grammar(Expected::Expression)))
        } else if !sym(t, e, Punct::Semi) {
            Err(error_at(src, t, e, ErrorKind::Grammar(Expected::Punct(Punct::Semi))))
        } else {
            Ok((Some(span_of(src, t, 1, e)), e + 1))
        }
    } else {
        Ok((None, 0))
    }
}

/// Parses an optional `CONFIG { entries } ;` at token `i`, as `config_spec`
/// says.
pub fn parse_config(src: &str, t: &Vec<Token>, i: usize) -> (r: Result<
    (Option<Vec<ConfigField>>, usize),
    ParseError,
>)
    requires
        tokens_fit(src@, t@),
        i <= t@.len(),
    ensures
        match (r, config_spec(src@, t@, i as int)) {
            (Ok((x, n)), Ok((y, k))) => match (x, y) {
                (Some(a), Some(b)) => config_view(a@) == b && n as nat == k,
                (None, None) => n as nat == k,
                _ => false,
            },
            (Err(e), Err(f)) => e == f,
            _ => false,
        },
        within(r, i as int, t@.len() as int),
{
    if kw(src, t, i, "CONFIG") {
        if !sym(t, i + 1, Punct::LBrace) {
            Err(error_at(src, t, i + 1, ErrorKind::Grammar(Expected::Punct(Punct::LBrace))))
        } else {
            match parse_config_fields(src, t, i + 2) {
                Err(e) => Err(e),
                Ok((fs, n)) => if sym(t, i + 2 + n, Punct::Semi) {
                    Ok((Some(fs), n + 3))
                } else {
                    Err(error_at(src, t, i + 2 + n, ErrorKind::Grammar(Expected::Punct(Punct::Semi))))
                },
            }
        }
    } else {
        Ok((None, 0))
    }
}

/// Parses a policy definition from the tokens `t` of `src`.
pub fn parse_definition(src: &str, t: &Vec<Token>) -> (r: Result<PolicyDefinition, ParseError>)
    requires
        tokens_fit(src@, t@),
    ensures
        match (r, policy_spec(src@, t@)) {
            (Ok(d), Ok(m)) => d@ == m,
            (Err(e), Err(f)) => e == f,
            _ => false,
        },
{
    let (use_builder, a) = match parse_use(src, t) {
        Ok(x) => x,
        Err(e) => return Err(e),
    };
    let (config, b) = match parse_config(src, t, a) {
        Ok(x) => x,
        Err(e) => return Err(e),
    };
    match parse_rules(src, t, a + b) {
        Ok(rules) => Ok(PolicyDefinition { use_builder, config, rules }),
        Err(e) => Err(e),
    }
}

/// Compiles policy source text into its definition: the `USE` builder
/// expression if any, the `CONFIG` entries if any, and the rules in source
/// order. Compilation stops at the first error in the source, which is
/// returned.
pub fn policy_builder(src: &str) -> (r: Result<PolicyDefinition, ParseError>)
    ensures
        match (r, compile_spec(src@)) {
            (Ok(d), Ok(m)) => d@ == m,
            (Err(e), Err(f)) => e == f,
            _ => false,
        },
{
    let (t, lexing) = tokenize(src);
    let parsed = parse_definition(src, &t);
    match lexing {
        None => parsed,
        Some(e) => match parsed {
            Err(p) => if p.pos < e.pos {
                Err(p)
            } else {
                Err(e)
            },
            Ok(_) => Err(e),
        },
    }
}

} // verus!
