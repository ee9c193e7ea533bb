use vstd::prelude::*;

verus! {

/// A typed scalar literal: a 64-bit signed integer, a string or a boolean.
#[derive(Clone, Debug, PartialEq, Eq)]
pub enum Value {
    Int(i64),
    Str(String),
    Bool(bool),
}

/// The mathematical reading of a [`Value`].
pub enum ValueModel {
    Int(int),
    Str(Seq<char>),
    Bool(bool),
}

impl View for Value {
    type V = ValueModel;

    open spec fn view(&self) -> ValueModel {
        match self {
            Value::Int(n) => ValueModel::Int(*n as int),
            Value::Str(s) => ValueModel::Str(s@),
            Value::Bool(b) => ValueModel::Bool(*b),
        }
    }
}

/// What a single target slot accepts.
#[derive(Clone, Debug, PartialEq, Eq)]
pub enum Matcher {
    Any,
    Exact(String),
    /// Candidates in declaration order; duplicates are kept.
    OneOf(Vec<String>),
}

pub enum MatcherModel {
    Any,
    Exact(Seq<char>),
    OneOf(Seq<Seq<char>>),
}

pub open spec fn strings_view(v: Seq<String>) -> Seq<Seq<char>> {
    v.map_values(|x: String| x@)
}

impl View for Matcher {
    type V = MatcherModel;

    open spec fn view(&self) -> MatcherModel {
        match self {
            Matcher::Any => MatcherModel::Any,
            Matcher::Exact(s) => MatcherModel::Exact(s@),
            Matcher::OneOf(v) => MatcherModel::OneOf(strings_view(v@)),
        }
    }
}

/// The principal, action and resource that a rule applies to.
#[derive(Clone, Debug, PartialEq, Eq)]
pub struct Target {
    pub principal: Matcher,
    pub action: Matcher,
    pub resource: Matcher,
}

pub struct TargetModel {
    pub principal: MatcherModel,
    pub action: MatcherModel,
    pub resource: MatcherModel,
}

impl View for Target {
    type V = TargetModel;

    open spec fn view(&self) -> TargetModel {
        TargetModel {
            principal: self.principal@,
            action: self.action@,
            resource: self.resource@,
        }
    }
}

/// The target that matches every request.
pub open spec fn any_target() -> TargetModel {
    TargetModel { principal: MatcherModel::Any, action: MatcherModel::Any, resource: MatcherModel::Any }
}

/// A boolean expression over request attributes.
#[derive(Debug, PartialEq, Eq)]
pub enum Condition {
    Equals { attr: String, value: Value },
    NotEquals { attr: String, value: Value },
    And(Box<Condition>, Box<Condition>),
    Or(Box<Condition>, Box<Condition>),
    Not(Box<Condition>),
    True,
    False,
}

pub enum ConditionModel {
    Equals(Seq<char>, ValueModel),
    NotEquals(Seq<char>, ValueModel),
    And(Box<ConditionModel>, Box<ConditionModel>),
    Or(Box<ConditionModel>, Box<ConditionModel>),
    Not(Box<ConditionModel>),
    True,
    False,
}

impl View for Condition {
    type V = ConditionModel;

    open spec fn view(&self) -> ConditionModel
        decreases self,
    {
        match self {
            Condition::Equals { attr, value } => ConditionModel::Equals(attr@, value@),
            Condition::NotEquals { attr, value } => ConditionModel::NotEquals(attr@, value@),
            Condition::And(l, r) => ConditionModel::And(Box::new((**l)@), Box::new((**r)@)),
            Condition::Or(l, r) => ConditionModel::Or(Box::new((**l)@), Box::new((**r)@)),
            Condition::Not(c) => ConditionModel::Not(Box::new((**c)@)),
            Condition::True => ConditionModel::True,
            Condition::False => ConditionModel::False,
        }
    }
}

#[derive(Clone, Copy, Debug, PartialEq, Eq, Structural)]
pub enum Effect {
    Allow,
    Deny,
}

/// An opaque outcome tag: a literal code or the name of a constant that the
/// host resolves.
#[derive(Clone, Debug, PartialEq, Eq)]
pub enum ReasonCode {
    Literal(i64),
    Named(String),
}

pub enum ReasonModel {
    Literal(int),
    Named(Seq<char>),
}

impl View for ReasonCode {
    type V = ReasonModel;

    open spec fn view(&self) -> ReasonModel {
        match self {
            ReasonCode::Literal(n) => ReasonModel::Literal(*n as int),
            ReasonCode::Named(s) => ReasonModel::Named(s@),
        }
    }
}

#[derive(Debug, PartialEq, Eq)]
pub struct Rule {
    pub effect: Effect,
    pub target: Target,
    /// `None` when the rule has no `WHERE` clause: it always matches.
    pub condition: Option<Condition>,
    pub reason: ReasonCode,
}

pub struct RuleModel {
    pub effect: Effect,
    pub target: TargetModel,
    pub condition: Option<ConditionModel>,
    pub reason: ReasonModel,
}

impl View for Rule {
    type V = RuleModel;

    open spec fn view(&self) -> RuleModel {
        RuleModel {
            effect: self.effect,
            target: self.target@,
            condition: match self.condition {
                Some(c) => Some(c@),
                None => None,
            },
            reason: self.reason@,
        }
    }
}

/// One `name: expression` entry of a `CONFIG` block; the expression is kept
/// as its source text.
#[derive(Clone, Debug, PartialEq, Eq)]
pub struct ConfigField {
    pub name: String,
    pub value: String,
}

pub struct ConfigFieldModel {
    pub name: Seq<char>,
    pub value: Seq<char>,
}

impl View for ConfigField {
    type V = ConfigFieldModel;

    open spec fn view(&self) -> ConfigFieldModel {
        ConfigFieldModel { name: self.name@, value: self.value@ }
    }
}

pub open spec fn config_view(v: Seq<ConfigField>) -> Seq<ConfigFieldModel> {
    v.map_values(|f: ConfigField| f@)
}

pub open spec fn rules_view(v: Seq<Rule>) -> Seq<RuleModel> {
    v.map_values(|r: Rule| r@)
}

/// A compiled policy source: the builder it starts from, its configuration
/// overrides and its rules in source order.
#[derive(Debug, PartialEq, Eq)]
pub struct PolicyDefinition {
    /// Source text of the `USE` expression naming a caller-supplied builder.
    pub use_builder: Option<String>,
    pub config: Option<Vec<ConfigField>>,
    pub rules: Vec<Rule>,
}

pub struct PolicyModel {
    pub use_builder: Option<Seq<char>>,
    pub config: Option<Seq<ConfigFieldModel>>,
    pub rules: Seq<RuleModel>,
}

impl View for PolicyDefinition {
    type V = PolicyModel;

    open spec fn view(&self) -> PolicyModel {
        PolicyModel {
            use_builder: match self.use_builder {
                Some(s) => Some(s@),
                None => None,
            },
            config: match self.config {
                Some(c) => Some(config_view(c@)),
                None => None,
            },
            rules: rules_view(self.rules@),
        }
    }
}

/// Punctuation of the policy language.
#[derive(Clone, Copy, Debug, PartialEq, Eq, Structural)]
pub enum Punct {
    Star,
    LParen,
    RParen,
    LBrace,
    RBrace,
    LBracket,
    RBracket,
    Colon,
    Comma,
    Semi,
    FatArrow,
    /// Any other character, such as `.`, `+` or `#`; only opaque expressions
    /// hold one.
    Operator,
}

/// What the parser was looking for when it stopped.
#[derive(Clone, Copy, Debug, PartialEq, Eq, Structural)]
pub enum Expected {
    /// `ALLOW` or `DENY`.
    Effect,
    /// `*`, `ANY`, a tuple or a struct.
    Target,
    /// `ANY`, `*`, a string literal or an array.
    FieldValue,
    StringLiteral,
    Identifier,
    /// `true`, `false` or a parenthesized condition.
    Atom,
    /// `EQ` or `NEQ`.
    Comparison,
    /// `AND` or `OR`.
    Connective,
    /// An integer literal or a constant name.
    ReasonCode,
    /// A non-empty expression.
    Expression,
    Punct(Punct),
    /// A string literal or block comment left open.
    Token,
    /// One of Rust's string escapes.
    Escape,
}

#[derive(Clone, Copy, Debug, PartialEq, Eq, Structural)]
pub enum ErrorKind {
    /// An unexpected token where the named form was expected.
    Grammar(Expected),
    /// A struct-target field name other than `principal`, `action`, `resource`.
    FieldValidation,
    /// A struct-target field declared a second time.
    DuplicateField,
    /// A tuple target with the given number of positions instead of three.
    Arity(usize),
    /// A literal that is not an integer, string or boolean, or an integer
    /// that does not fit in 64 signed bits.
    Type,
}

/// The first error met, at a character offset of the source.
#[derive(Clone, Copy, Debug, PartialEq, Eq, Structural)]
pub struct ParseError {
    pub kind: ErrorKind,
    pub pos: usize,
}

/// The accepted alternatives for an error of kind `k`, in words.
pub open spec fn message_text(k: ErrorKind) -> Seq<char> {
    match k {
        ErrorKind::Grammar(e) => match e {
            Expected::Effect => "expected ALLOW or DENY"@,
            Expected::Target => "expected *, ANY, tuple, or struct"@,
            Expected::FieldValue => "expected ANY, *, a string literal, or an array"@,
            Expected::StringLiteral => "expected a string literal"@,
            Expected::Identifier => "expected an identifier"@,
            Expected::Atom => "expected true, false, or a parenthesized condition"@,
            Expected::Comparison => "expected one of: EQ, NEQ"@,
            Expected::Connective => "expected one of: AND, OR"@,
            Expected::ReasonCode => "expected an integer literal or a constant name"@,
            Expected::Expression => "expected an expression"@,
            Expected::Punct(p) => match p {
                Punct::Star => "expected `*`"@,
                Punct::LParen => "expected `(`"@,
                Punct::RParen => "expected `)`"@,
                Punct::LBrace => "expected `{`"@,
                Punct::RBrace => "expected `}`"@,
                Punct::LBracket => "expected `[`"@,
                Punct::RBracket => "expected `]`"@,
                Punct::Colon => "expected `:`"@,
                Punct::Comma => "expected `,`"@,
                Punct::Semi => "expected `;`"@,
                Punct::FatArrow => "expected `=>`"@,
                Punct::Operator => "expected an operator"@,
            },
            Expected::Token => "unterminated string literal or block comment"@,
            Expected::Escape => "expected an escape: \\n \\t \\r \\0 \\\\ \\' \\\" \\x.. \\u{..}"@,
        },
        ErrorKind::FieldValidation => "expected one of: principal, action, resource"@,
        ErrorKind::DuplicateField => "each of principal, action, resource may appear once"@,
        ErrorKind::Arity(_) => "expected exactly three positions: principal action resource"@,
        ErrorKind::Type => "expected one of: integer, string, bool"@,
    }
}

impl ParseError {
    /// The accepted alternatives, in words.
    pub fn message(&self) -> (r: &'static str)
        ensures
            r@ == message_text(self.kind),
    {
        match self.kind {
            ErrorKind::Grammar(e) => match e {
                Expected::Effect => "expected ALLOW or DENY",
                Expected::Target => "expected *, ANY, tuple, or struct",
                Expected::FieldValue => "expected ANY, *, a string literal, or an array",
                Expected::StringLiteral => "expected a string literal",
                Expected::Identifier => "expected an identifier",
                Expected::Atom => "expected true, false, or a parenthesized condition",
                Expected::Comparison => "expected one of: EQ, NEQ",
                Expected::Connective => "expected one of: AND, OR",
                Expected::ReasonCode => "expected an integer literal or a constant name",
                Expected::Expression => "expected an expression",
                Expected::Punct(p) => match p {
                    Punct::Star => "expected `*`",
                    Punct::LParen => "expected `(`",
                    Punct::RParen => "expected `)`",
                    Punct::LBrace => "expected `{`",
                    Punct::RBrace => "expected `}`",
                    Punct::LBracket => "expected `[`",
                    Punct::RBracket => "expected `]`",
                    Punct::Colon => "expected `:`",
                    Punct::Comma => "expected `,`",
                    Punct::Semi => "expected `;`",
                    Punct::FatArrow => "expected `=>`",
                    Punct::Operator => "expected an operator",
                },
                Expected::Token => "unterminated string literal or block comment",
                Expected::Escape => "expected an escape: \\n \\t \\r \\0 \\\\ \\' \\\" \\x.. \\u{..}",
            },
            ErrorKind::FieldValidation => "expected one of: principal, action, resource",
            ErrorKind::DuplicateField => "each of principal, action, resource may appear once",
            ErrorKind::Arity(_) => "expected exactly three positions: principal action resource",
            ErrorKind::Type => "expected one of: integer, string, bool",
        }
    }
}

} // verus!
