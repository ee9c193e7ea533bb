//! A compiler for a small access-policy language: source text in, an
//! ordered, validated policy definition (or the first error) out, plus the
//! builder calls that the definition stands for.
pub mod context;
pub mod emit;
pub mod examples;
pub mod ir;
pub mod laws;
pub mod lexer;
pub mod parser;

pub use context::ctx;
pub use emit::{emit, lower, BuildPlan, BuildStep, BuilderSource};
pub use examples::{test_config, test_where, CONFIG_EXAMPLE, WHERE_EXAMPLE};
pub use ir::{
    Condition, ConfigField, Effect, ErrorKind, Expected, Matcher, ParseError, PolicyDefinition,
    Punct, ReasonCode, Rule, Target, Value,
};
pub use lexer::{tokenize, Token, TokenKind};
pub use parser::policy_builder;
