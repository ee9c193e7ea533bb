use vstd::prelude::*;
use crate::ir::{ParseError, PolicyDefinition};
use crate::parser::{compile_spec, policy_builder};

verus! {

/// A policy that only overrides two configuration entries.
pub const CONFIG_EXAMPLE: &'static str = "CONFIG {\n    max_rules: 500,\n    max_condition_depth: 5,\n};\n";

/// Rules gated by conditions: comparisons on quoted and bare attribute
/// names, `NOT` over a group and over a literal, and mixed chains.
pub const WHERE_EXAMPLE: &'static str = "ALLOW ANY\n    WHERE { role EQ \"admin\" } => 1;\n\nALLOW ANY\n    WHERE { \"role\" NEQ \"admin\" } => 1;\n\nALLOW ANY\n    WHERE { NOT (role EQ \"admin\" OR true) } => 1;\n\nALLOW ANY\n    WHERE { NOT ((role NEQ \"admin\") AND true) } => 2;\n\n// same as (NOT true) AND true\nALLOW ANY\n    WHERE { NOT true AND true } => 1;\n";

/// Compiles [`CONFIG_EXAMPLE`].
pub fn test_config() -> (r: Result<PolicyDefinition, ParseError>)
    ensures
        match (r, compile_spec(CONFIG_EXAMPLE@)) {
            (Ok(d), Ok(m)) => d@ == m,
            (Err(e), Err(f)) => e == f,
            _ => false,
        },
{
    policy_builder(CONFIG_EXAMPLE)
}

/// Compiles [`WHERE_EXAMPLE`].
pub fn test_where() -> (r: Result<PolicyDefinition, ParseError>)
    ensures
        match (r, compile_spec(WHERE_EXAMPLE@)) {
            (Ok(d), Ok(m)) => d@ == m,
            (Err(e), Err(f)) => e == f,
            _ => false,
        },
{
    policy_builder(WHERE_EXAMPLE)
}

} // verus!
