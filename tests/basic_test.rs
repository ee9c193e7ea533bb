use gate0_dsl::{
    emit, policy_builder, BuilderSource, Condition, Effect, Matcher, PolicyDefinition,
    ReasonCode, Rule, Target, Value,
};

fn s(x: &str) -> String {
    x.to_string()
}

fn exact(x: &str) -> Matcher {
    Matcher::Exact(s(x))
}

fn one_of(xs: &[&str]) -> Matcher {
    Matcher::OneOf(xs.iter().map(|x| s(x)).collect())
}

fn any_target() -> Target {
    Target { principal: Matcher::Any, action: Matcher::Any, resource: Matcher::Any }
}

fn target(p: Matcher, a: Matcher, r: Matcher) -> Target {
    Target { principal: p, action: a, resource: r }
}

fn rule(effect: Effect, target: Target, condition: Option<Condition>, reason: ReasonCode) -> Rule {
    Rule { effect, target, condition, reason }
}

fn lit(n: i64) -> ReasonCode {
    ReasonCode::Literal(n)
}

fn named(x: &str) -> ReasonCode {
    ReasonCode::Named(s(x))
}

fn eq(attr: &str, v: &str) -> Condition {
    Condition::Equals { attr: s(attr), value: Value::Str(s(v)) }
}

fn neq(attr: &str, v: &str) -> Condition {
    Condition::NotEquals { attr: s(attr), value: Value::Str(s(v)) }
}

fn rules_of(src: &str) -> Vec<Rule> {
    let def = policy_builder(src).unwrap();
    assert_eq!(def.use_builder, None);
    assert_eq!(def.config, None);
    def.rules
}

#[test]
fn test_simple_any_rules() {
    let rules = rules_of(
        "
        // comment test
        ALLOW *   => 1;
        ALLOW *   => REASON_ONE;

        ALLOW ANY => 2;
        ALLOW ANY => REASON_TWO;

        DENY  *   => 3;
        DENY  ANY => REASON_THREE;
        ",
    );
    assert_eq!(
        rules,
        vec![
            rule(Effect::Allow, any_target(), None, lit(1)),
            rule(Effect::Allow, any_target(), None, named("REASON_ONE")),
            rule(Effect::Allow, any_target(), None, lit(2)),
            rule(Effect::Allow, any_target(), None, named("REASON_TWO")),
            rule(Effect::Deny, any_target(), None, lit(3)),
            rule(Effect::Deny, any_target(), None, named("REASON_THREE")),
        ]
    );
}

#[test]
fn test_simple_tuple_rules() {
    let rules = rules_of(
        r#"
        ALLOW ("alice" "read"  "doc1") => 1;
        ALLOW ("bob"   "write" "doc2") => REASON_ONE;

        DENY  ("eve" * ANY) => 2;
        DENY  (["eve", "carl"] "write" *) => 2;
        DENY  ("mallory" "delete" "doc3") => REASON_TWO;
        "#,
    );
    assert_eq!(
        rules,
        vec![
            rule(Effect::Allow, target(exact("alice"), exact("read"), exact("doc1")), None, lit(1)),
            rule(
                Effect::Allow,
                target(exact("bob"), exact("write"), exact("doc2")),
                None,
                named("REASON_ONE"),
            ),
            rule(Effect::Deny, target(exact("eve"), Matcher::Any, Matcher::Any), None, lit(2)),
            rule(
                Effect::Deny,
                target(one_of(&["eve", "carl"]), exact("write"), Matcher::Any),
                None,
                lit(2),
            ),
            rule(
                Effect::Deny,
                target(exact("mallory"), exact("delete"), exact("doc3")),
                None,
                named("REASON_TWO"),
            ),
        ]
    );
}

#[test]
fn test_field_rules() {
    let rules = rules_of(
        r#"
        ALLOW {
            principal: "alice",
            action:    "read",
            resource:  "doc1",
        } => 1;

        ALLOW {
            principal: ["bob", "carl"],
            action:    ["write", "update"],
            resource:  ANY,
        } => REASON_ONE;

        DENY {
            principal: "eve",
            action:    *,
            resource:  ANY,
        } => 2;

        DENY {
            principal: ["mallory", "trent"],
            action:    "delete",
            resource:  ["doc2", "doc3"],
        } => REASON_TWO;
        "#,
    );
    assert_eq!(
        rules,
        vec![
            rule(Effect::Allow, target(exact("alice"), exact("read"), exact("doc1")), None, lit(1)),
            rule(
                Effect::Allow,
                target(one_of(&["bob", "carl"]), one_of(&["write", "update"]), Matcher::Any),
                None,
                named("REASON_ONE"),
            ),
            rule(Effect::Deny, target(exact("eve"), Matcher::Any, Matcher::Any), None, lit(2)),
            rule(
                Effect::Deny,
                target(one_of(&["mallory", "trent"]), exact("delete"), one_of(&["doc2", "doc3"])),
                None,
                named("REASON_TWO"),
            ),
        ]
    );
}

#[test]
fn test_mixed_rules() {
    let rules = rules_of(
        r#"
        ALLOW * => 1;
        ALLOW ("alice" "read" "doc1") => REASON_TWO;
        DENY {
            principal: "eve",
            action:    *,
            resource:  ANY,
        } => REASON_THREE;
        "#,
    );
    assert_eq!(
        rules,
        vec![
            rule(Effect::Allow, any_target(), None, lit(1)),
            rule(
                Effect::Allow,
                target(exact("alice"), exact("read"), exact("doc1")),
                None,
                named("REASON_TWO"),
            ),
            rule(
                Effect::Deny,
                target(exact("eve"), Matcher::Any, Matcher::Any),
                None,
                named("REASON_THREE"),
            ),
        ]
    );
}

#[test]
fn test_config() {
    let def = policy_builder(
        "
        CONFIG {
            max_rules: 500,
            max_condition_depth: 5,
        };
        ",
    )
    .unwrap();
    let config = def.config.clone().unwrap();
    assert_eq!(config.len(), 2);
    assert_eq!(config[0].name, "max_rules");
    assert_eq!(config[0].value, "500");
    assert_eq!(config[1].name, "max_condition_depth");
    assert_eq!(config[1].value, "5");
    assert!(def.rules.is_empty());
    assert_eq!(gate0_dsl::test_config().unwrap(), def);
}

#[test]
fn test_where() {
    let def = policy_builder(
        r#"
        ALLOW ANY
            WHERE { role EQ "admin" } => 1;

        ALLOW ANY
            WHERE { "role" NEQ "admin" } => 1;

        ALLOW ANY
            WHERE { NOT (role EQ "admin" OR true) } => 1;

        ALLOW ANY
            WHERE { NOT ((role NEQ "admin") AND true) } => 2;

        // same as (NOT true) AND true
        ALLOW ANY
            WHERE { NOT true AND true } => 1;
        "#,
    )
    .unwrap();
    let expected = vec![
        rule(Effect::Allow, any_target(), Some(eq("role", "admin")), lit(1)),
        rule(Effect::Allow, any_target(), Some(neq("role", "admin")), lit(1)),
        rule(
            Effect::Allow,
            any_target(),
            Some(Condition::Not(Box::new(Condition::Or(
                Box::new(eq("role", "admin")),
                Box::new(Condition::True),
            )))),
            lit(1),
        ),
        rule(
            Effect::Allow,
            any_target(),
            Some(Condition::Not(Box::new(Condition::And(
                Box::new(neq("role", "admin")),
                Box::new(Condition::True),
            )))),
            lit(2),
        ),
        rule(
            Effect::Allow,
            any_target(),
            Some(Condition::And(
                Box::new(Condition::Not(Box::new(Condition::True))),
                Box::new(Condition::True),
            )),
            lit(1),
        ),
    ];
    assert_eq!(def.rules, expected);
    assert_eq!(gate0_dsl::test_where().unwrap().rules, expected);
}

#[test]
fn test_external_builder() {
    let def = policy_builder("USE builder;").unwrap();
    assert_eq!(
        def,
        PolicyDefinition { use_builder: Some(s("builder")), config: None, rules: vec![] }
    );
    let plan = emit(def);
    assert_eq!(plan.source, BuilderSource::External(s("builder")));
    assert!(plan.steps.is_empty());
}
