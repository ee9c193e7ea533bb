use gate0_dsl::parser::{parse_condition, parse_target};
use gate0_dsl::{
    ctx, emit, lower, policy_builder, tokenize, BuildStep, BuilderSource, Condition, ConfigField,
    Effect, ErrorKind, Expected, Matcher, ParseError, Punct, ReasonCode, Rule, Target, TokenKind,
    Value,
};

fn s(x: &str) -> String {
    x.to_string()
}

fn exact(x: &str) -> Matcher {
    Matcher::Exact(s(x))
}

fn any_target() -> Target {
    Target { principal: Matcher::Any, action: Matcher::Any, resource: Matcher::Any }
}

fn eq(attr: &str, v: &str) -> Condition {
    Condition::Equals { attr: s(attr), value: Value::Str(s(v)) }
}

fn only_condition(src: &str) -> Condition {
    let def = policy_builder(src).unwrap();
    assert_eq!(def.rules.len(), 1);
    let Rule { condition, .. } = def.rules.into_iter().next().unwrap();
    condition.unwrap()
}

fn err(src: &str) -> ParseError {
    policy_builder(src).unwrap_err()
}

#[test]
fn wildcard_targets_match_anything() {
    let def = policy_builder("ALLOW * => 1; ALLOW ANY => 2;").unwrap();
    assert_eq!(def.rules[0].target, any_target());
    assert_eq!(def.rules[1].target, any_target());
}

#[test]
fn struct_target_omitted_fields_are_any() {
    let def = policy_builder(r#"DENY { action: "read" } => 1; DENY {} => 2;"#).unwrap();
    assert_eq!(
        def.rules[0].target,
        Target { principal: Matcher::Any, action: exact("read"), resource: Matcher::Any }
    );
    assert_eq!(def.rules[1].target, any_target());
}

#[test]
fn struct_target_fields_in_any_order_once_each() {
    let def = policy_builder(r#"ALLOW { resource: "doc", principal: ["b", "b"] } => 1;"#).unwrap();
    assert_eq!(
        def.rules[0].target,
        Target {
            principal: Matcher::OneOf(vec![s("b"), s("b")]),
            action: Matcher::Any,
            resource: exact("doc"),
        }
    );
    let e = err(r#"ALLOW { principal: "a", principal: "b" } => 1;"#);
    assert_eq!(e, ParseError { kind: ErrorKind::DuplicateField, pos: 24 });
}

#[test]
fn rules_keep_source_order_when_emitted() {
    let def = policy_builder("ALLOW * => 1; DENY * => 2;").unwrap();
    let plan = emit(def);
    assert_eq!(plan.source, BuilderSource::Default);
    assert_eq!(plan.steps.len(), 2);
    match (&plan.steps[0], &plan.steps[1]) {
        (BuildStep::AddRule(a), BuildStep::AddRule(b)) => {
            assert_eq!(a.effect, Effect::Allow);
            assert_eq!(a.reason, ReasonCode::Literal(1));
            assert_eq!(b.effect, Effect::Deny);
            assert_eq!(b.reason, ReasonCode::Literal(2));
        },
        _ => panic!("expected two rule steps"),
    }
}

#[test]
fn config_step_comes_before_rules() {
    let def = policy_builder("USE base; CONFIG { max_rules: 10 }; ALLOW * => 1;").unwrap();
    let plan = emit(def);
    assert_eq!(plan.source, BuilderSource::External(s("base")));
    assert_eq!(plan.steps.len(), 2);
    assert_eq!(
        plan.steps[0],
        BuildStep::Configure(vec![ConfigField { name: s("max_rules"), value: s("10") }])
    );
    assert!(matches!(plan.steps[1], BuildStep::AddRule(_)));
}

#[test]
fn unknown_struct_field_is_rejected() {
    let e = err(r#"ALLOW {foo: "x"} => 1;"#);
    assert_eq!(e.kind, ErrorKind::FieldValidation);
    assert_eq!(e.pos, 7);
    assert_eq!(e.message(), "expected one of: principal, action, resource");
}

#[test]
fn chains_group_to_the_right() {
    let c = only_condition(r#"ALLOW * WHERE { a EQ "x" AND b EQ "y" OR c EQ "z" } => 1;"#);
    assert_eq!(
        c,
        Condition::And(
            Box::new(eq("a", "x")),
            Box::new(Condition::Or(Box::new(eq("b", "y")), Box::new(eq("c", "z")))),
        )
    );
    let c = only_condition(r#"ALLOW * WHERE { a EQ "x" OR b EQ "y" AND c EQ "z" } => 1;"#);
    assert_eq!(
        c,
        Condition::Or(
            Box::new(eq("a", "x")),
            Box::new(Condition::And(Box::new(eq("b", "y")), Box::new(eq("c", "z")))),
        )
    );
}

#[test]
fn not_wraps_groups_and_literals_only() {
    let c = only_condition(r#"ALLOW * WHERE { NOT (role EQ "admin") } => 1;"#);
    assert_eq!(c, Condition::Not(Box::new(eq("role", "admin"))));
    let c = only_condition("ALLOW * WHERE { NOT true } => 1;");
    assert_eq!(c, Condition::Not(Box::new(Condition::True)));
    let e = err(r#"ALLOW * WHERE { NOT role EQ "admin" } => 1;"#);
    assert_eq!(e.kind, ErrorKind::Grammar(Expected::Atom));
    assert_eq!(e.pos, 20);
}

#[test]
fn tuple_target_needs_three_positions() {
    let e = err(r#"ALLOW ("alice" "read") => 1;"#);
    assert_eq!(e.kind, ErrorKind::Arity(2));
    assert_eq!(e.pos, 6);
    let e = err(r#"ALLOW ("a" "b" "c" "d") => 1;"#);
    assert_eq!(e.kind, ErrorKind::Arity(4));
}

#[test]
fn config_fields_are_forwarded_unchecked() {
    let def = policy_builder("CONFIG { max_rules: 500 };").unwrap();
    assert_eq!(def.config, Some(vec![ConfigField { name: s("max_rules"), value: s("500") }]));
    let def = policy_builder("CONFIG { no_such_key: limit(1, 2) * 3, };").unwrap();
    assert_eq!(
        def.config,
        Some(vec![ConfigField { name: s("no_such_key"), value: s("limit(1, 2) * 3") }])
    );
    let def = policy_builder("CONFIG {};").unwrap();
    assert_eq!(def.config, Some(vec![]));
}

#[test]
fn end_to_end_two_rules() {
    let def = policy_builder(r#"ALLOW ("alice" "read" "doc1") => 1; DENY (["eve","mallory"] * *) => 2;"#)
        .unwrap();
    assert_eq!(
        def.rules,
        vec![
            Rule {
                effect: Effect::Allow,
                target: Target {
                    principal: exact("alice"),
                    action: exact("read"),
                    resource: exact("doc1"),
                },
                condition: None,
                reason: ReasonCode::Literal(1),
            },
            Rule {
                effect: Effect::Deny,
                target: Target {
                    principal: Matcher::OneOf(vec![s("eve"), s("mallory")]),
                    action: Matcher::Any,
                    resource: Matcher::Any,
                },
                condition: None,
                reason: ReasonCode::Literal(2),
            },
        ]
    );
}

#[test]
fn neq_is_emitted_as_negated_equality() {
    let def = policy_builder(r#"ALLOW * WHERE { role NEQ "admin" AND NOT (x NEQ 3) } => 1;"#).unwrap();
    let plan = emit(def);
    match &plan.steps[0] {
        BuildStep::AddRule(r) => assert_eq!(
            r.condition,
            Some(Condition::And(
                Box::new(Condition::Not(Box::new(eq("role", "admin")))),
                Box::new(Condition::Not(Box::new(Condition::Not(Box::new(Condition::Equals {
                    attr: s("x"),
                    value: Value::Int(3),
                }))))),
            ))
        ),
        _ => panic!("expected a rule step"),
    }
    assert_eq!(lower(Condition::True), Condition::True);
}

#[test]
fn condition_values_of_each_kind() {
    let c = only_condition(r#"DENY * WHERE { "level" EQ -7 OR ok EQ false OR n EQ "s" } => 9;"#);
    assert_eq!(
        c,
        Condition::Or(
            Box::new(Condition::Equals { attr: s("level"), value: Value::Int(-7) }),
            Box::new(Condition::Or(
                Box::new(Condition::Equals { attr: s("ok"), value: Value::Bool(false) }),
                Box::new(eq("n", "s")),
            )),
        )
    );
}

#[test]
fn integer_limits() {
    let c = only_condition("ALLOW * WHERE { a EQ 9223372036854775807 OR b EQ -9223372036854775808 } => 1;");
    assert_eq!(
        c,
        Condition::Or(
            Box::new(Condition::Equals { attr: s("a"), value: Value::Int(i64::MAX) }),
            Box::new(Condition::Equals { attr: s("b"), value: Value::Int(i64::MIN) }),
        )
    );
    let e = err("ALLOW * WHERE { a EQ 9223372036854775808 } => 1;");
    assert_eq!(e.kind, ErrorKind::Type);
    assert_eq!(e.pos, 21);
}

#[test]
fn non_scalar_value_is_a_type_error() {
    let e = err("ALLOW * WHERE { a EQ b } => 1;");
    assert_eq!(e.kind, ErrorKind::Type);
    assert_eq!(e.pos, 21);
}

#[test]
fn grammar_errors_name_what_was_expected() {
    assert_eq!(err("PERMIT * => 1;").kind, ErrorKind::Grammar(Expected::Effect));
    assert_eq!(err("ALLOW foo => 1;").kind, ErrorKind::Grammar(Expected::Target));
    assert_eq!(err("ALLOW (foo * *) => 1;").kind, ErrorKind::Grammar(Expected::FieldValue));
    assert_eq!(err("ALLOW ([1] * *) => 1;").kind, ErrorKind::Grammar(Expected::StringLiteral));
    assert_eq!(err("ALLOW * WHERE { a LT 1 } => 1;").kind, ErrorKind::Grammar(Expected::Comparison));
    assert_eq!(
        err("ALLOW * WHERE { true XOR false } => 1;").kind,
        ErrorKind::Grammar(Expected::Connective)
    );
    assert_eq!(err("ALLOW * => \"x\";").kind, ErrorKind::Grammar(Expected::ReasonCode));
    let e = err("ALLOW * => 1");
    assert_eq!(e.kind, ErrorKind::Grammar(Expected::Punct(Punct::Semi)));
    assert_eq!(e.pos, 12);
    assert_eq!(err("ALLOW * 1;").kind, ErrorKind::Grammar(Expected::Punct(Punct::FatArrow)));
    assert_eq!(err("USE ;").kind, ErrorKind::Grammar(Expected::Expression));
    assert_eq!(err("CONFIG { 5: 1 };").kind, ErrorKind::Grammar(Expected::Identifier));
    assert_eq!(err("ALLOW * => 1; @").kind, ErrorKind::Grammar(Expected::Effect));
    assert_eq!(err("ALLOW (\"open * *) => 1;").kind, ErrorKind::Grammar(Expected::Token));
}

#[test]
fn empty_source_is_an_empty_policy() {
    let def = policy_builder("  // nothing here\n").unwrap();
    assert_eq!(def.use_builder, None);
    assert_eq!(def.config, None);
    assert!(def.rules.is_empty());
}

#[test]
fn context_literal_keeps_order_and_duplicates() {
    let pairs = ctx(r#""role" => "admin", "age" => 42, "role" => true,"#).unwrap();
    assert_eq!(
        pairs,
        vec![
            (s("role"), Value::Str(s("admin"))),
            (s("age"), Value::Int(42)),
            (s("role"), Value::Bool(true)),
        ]
    );
    assert_eq!(ctx("").unwrap(), vec![]);
    assert_eq!(ctx(r#""k" 1"#).unwrap_err().kind, ErrorKind::Grammar(Expected::Punct(Punct::FatArrow)));
    assert_eq!(ctx(r#""k" => x"#).unwrap_err().kind, ErrorKind::Type);
}

#[test]
fn tokens_carry_spans() {
    let (t, lexing) = tokenize("ALLOW \"ab\" => -3 true 1_000 5usize");
    assert_eq!(lexing, None);
    let kinds: Vec<TokenKind> = t.iter().map(|x| x.kind).collect();
    assert_eq!(
        kinds,
        vec![
            TokenKind::Ident,
            TokenKind::Str,
            TokenKind::Sym(Punct::FatArrow),
            TokenKind::Sym(Punct::Operator),
            TokenKind::Int(3),
            TokenKind::Bool(true),
            TokenKind::Int(1000),
            TokenKind::Number,
        ]
    );
    assert_eq!((t[1].start, t[1].end), (6, 10));
    assert_eq!((t[4].start, t[4].end), (15, 16));
    assert_eq!((t[7].start, t[7].end), (28, 34));
}

#[test]
fn example_sources_compile() {
    let def = gate0_dsl::test_config().unwrap();
    assert_eq!(def.config.unwrap().len(), 2);
    let def = gate0_dsl::test_where().unwrap();
    assert_eq!(def.rules.len(), 5);
}

#[test]
fn use_and_config_keep_whole_expressions() {
    let def = policy_builder("USE Policy::builder().config(base);\nCONFIG { max_rules: LIMIT + 1 };")
        .unwrap();
    assert_eq!(def.use_builder, Some(s("Policy::builder().config(base)")));
    assert_eq!(
        def.config,
        Some(vec![ConfigField { name: s("max_rules"), value: s("LIMIT + 1") }])
    );
    assert!(def.rules.is_empty());
}

#[test]
fn error_messages_list_the_alternatives() {
    assert_eq!(err("ALLOW * WHERE { true XOR false } => 1;").message(), "expected one of: AND, OR");
    assert_eq!(err("DENY (\"a\") => 1;").message(), "expected exactly three positions: principal action resource");
    assert_eq!(err("ALLOW * WHERE { a EQ b } => 1;").message(), "expected one of: integer, string, bool");
    assert_eq!(err("ALLOW * => 1").message(), "expected `;`");
    assert_eq!(err("ALLOW * 1;").message(), "expected `=>`");
}

#[test]
fn first_error_in_the_source_is_reported() {
    let e = err("X @");
    assert_eq!(e, ParseError { kind: ErrorKind::Grammar(Expected::Effect), pos: 0 });
    let e = err("X \"never closed");
    assert_eq!(e, ParseError { kind: ErrorKind::Grammar(Expected::Effect), pos: 0 });
    let e = err("ALLOW * => 1; DENY * WHERE { a EQ 99999999999999999999 } => 2;");
    assert_eq!(e, ParseError { kind: ErrorKind::Type, pos: 34 });
    let e = err("ALLOW * => 1; \"open");
    assert_eq!(e, ParseError { kind: ErrorKind::Grammar(Expected::Token), pos: 14 });
    let e = ctx("1 => 2, \"k\" => \"open").unwrap_err();
    assert_eq!(e, ParseError { kind: ErrorKind::Grammar(Expected::StringLiteral), pos: 0 });
    let e = ctx("\"k\" => 1, \"j\" => \"open").unwrap_err();
    assert_eq!(e, ParseError { kind: ErrorKind::Grammar(Expected::Token), pos: 17 });
}

#[test]
fn string_escapes_are_decoded() {
    let c = only_condition(r#"ALLOW * WHERE { "a\"b" EQ "x\\y\n\t\r\0\'" } => 1;"#);
    assert_eq!(c, Condition::Equals { attr: s("a\"b"), value: Value::Str(s("x\\y\n\t\r\0'")) });
    let def = policy_builder(r#"ALLOW (["p\"", "\x41\u{1F600}\u{e9}"] * *) => 1;"#).unwrap();
    assert_eq!(def.rules[0].target.principal, Matcher::OneOf(vec![s("p\""), s("A\u{1F600}é")]));
    let c = only_condition("ALLOW * WHERE { a EQ \"ab\\\n    cd\" } => 1;");
    assert_eq!(c, eq("a", "abcd"));
}

#[test]
fn unknown_escapes_are_rejected() {
    let bad = ParseError { kind: ErrorKind::Grammar(Expected::Escape), pos: 21 };
    assert_eq!(err(r#"ALLOW * WHERE { a EQ "\q" } => 1;"#), bad);
    assert_eq!(err(r#"ALLOW * WHERE { a EQ "\x80" } => 1;"#), bad);
    assert_eq!(err(r#"ALLOW * WHERE { a EQ "\u{D800}" } => 1;"#), bad);
    assert_eq!(err(r#"ALLOW * WHERE { a EQ "\u{1234567}" } => 1;"#), bad);
    assert_eq!(err(r#"ALLOW * WHERE { a EQ "\u{}" } => 1;"#), bad);
}

#[test]
fn opaque_expressions_take_any_characters() {
    let def = policy_builder("USE $builder#1 ~ x;\nCONFIG { max_rules: @LIMIT, größe: naïve };").unwrap();
    assert_eq!(def.use_builder, Some(s("$builder#1 ~ x")));
    assert_eq!(
        def.config,
        Some(vec![
            ConfigField { name: s("max_rules"), value: s("@LIMIT") },
            ConfigField { name: s("größe"), value: s("naïve") },
        ])
    );
}

#[test]
fn sub_parsers_report_what_they_consumed() {
    let src = "ANY => 1;";
    let (t, lexing) = tokenize(src);
    assert_eq!(lexing, None);
    assert_eq!(parse_target(src, &t, 0).unwrap(), (any_target(), 1));
    let src = "a EQ 1 OR true )";
    let (t, _) = tokenize(src);
    let (c, n) = parse_condition(src, &t, 0).unwrap();
    assert_eq!(n, 5);
    assert_eq!(
        c,
        Condition::Or(
            Box::new(Condition::Equals { attr: s("a"), value: Value::Int(1) }),
            Box::new(Condition::True),
        )
    );
}

#[test]
fn config_and_use_expressions_end_where_the_grammar_says() {
    let def = policy_builder("USE f::<a, b>();\nCONFIG { x: f::<Vec<u8>, b>(), y: |p, q| p + q, z: LIMIT-1, w: n as u32 };")
        .unwrap();
    assert_eq!(def.use_builder, Some(s("f::<a, b>()")));
    assert_eq!(
        def.config,
        Some(vec![
            ConfigField { name: s("x"), value: s("f::<Vec<u8>, b>()") },
            ConfigField { name: s("y"), value: s("|p, q| p + q") },
            ConfigField { name: s("z"), value: s("LIMIT-1") },
            ConfigField { name: s("w"), value: s("n as u32") },
        ])
    );
    let e = err("CONFIG { max_rules: 500 max_condition_depth: 5 };");
    assert_eq!(e, ParseError { kind: ErrorKind::Grammar(Expected::Punct(Punct::Comma)), pos: 24 });
    let e = err("USE b CONFIG { max_rules: 1 };");
    assert_eq!(e, ParseError { kind: ErrorKind::Grammar(Expected::Punct(Punct::Semi)), pos: 6 });
    let e = err("USE + ;");
    assert_eq!(e, ParseError { kind: ErrorKind::Grammar(Expected::Expression), pos: 4 });
    let e = err("CONFIG { a: 1 + };");
    assert_eq!(e, ParseError { kind: ErrorKind::Grammar(Expected::Expression), pos: 12 });
}

#[test]
fn negative_values_may_have_a_space() {
    let c = only_condition("ALLOW * WHERE { a EQ - 5 } => 1;");
    assert_eq!(c, Condition::Equals { attr: s("a"), value: Value::Int(-5) });
    assert_eq!(err("ALLOW * WHERE { a EQ 5usize } => 1;").kind, ErrorKind::Type);
}

#[test]
fn block_comments_nest_and_must_close() {
    let def = policy_builder("/* outer /* inner */ still */ ALLOW * => 1; /**/").unwrap();
    assert_eq!(def.rules.len(), 1);
    let e = err("ALLOW * => 1; /* open /* */");
    assert_eq!(e, ParseError { kind: ErrorKind::Grammar(Expected::Token), pos: 14 });
    let def = policy_builder("CONFIG { max_rules: 0x1F, depth: 1_000 };").unwrap();
    assert_eq!(
        def.config,
        Some(vec![
            ConfigField { name: s("max_rules"), value: s("0x1F") },
            ConfigField { name: s("depth"), value: s("1_000") },
        ])
    );
}
