use vstd::prelude::*;
use crate::emit::{lower_rule_spec, plan_spec, StepModel};
use crate::ir::{
    any_target, ConditionModel, ConfigFieldModel, ErrorKind, Expected, MatcherModel, ParseError,
    Punct, TargetModel,
};
use crate::lexer::{Token, TokenKind};
use crate::parser::{
    apply_fields, bool_at, compile_spec, cond_head_spec, cond_spec, config_fields_spec, expr_complete, expr_end, lemma_expr_scan,
    fail_at, field_values_spec, is_kind, is_kw, is_sym, lemma_rule_span, remaining, rule_spec,
    rules_spec, has_slot, field_value_spec, no_slots, slot, slot_of, span_text, struct_fields_spec, target_spec, text, with_slot, Slot, SlotSet,
};

verus! {

/// A wildcard target, `*` or `ANY`, is the target whose principal, action
/// and resource all match anything.
pub proof fn law_wildcard_target(s: Seq<char>, t: Seq<Token>, i: int)
    requires
        is_sym(t, i, Punct::Star) || is_kw(s, t, i, "ANY"@),
    ensures
        target_spec(s, t, i) == Ok::<(TargetModel, nat), ParseError>((any_target(), 1)),
        any_target() == (TargetModel {
            principal: MatcherModel::Any,
            action: MatcherModel::Any,
            resource: MatcherModel::Any,
        }),
{
}

/// The matcher of the last declaration of `f` in `fs`, if there is one.
pub open spec fn declared(fs: Seq<(Slot, MatcherModel)>, f: Slot) -> Option<MatcherModel>
    decreases fs.len(),
{
    if fs.len() == 0 {
        None
    } else {
        match declared(fs.subrange(1, fs.len() as int), f) {
            Some(m) => Some(m),
            None => if fs[0].0 == f {
                Some(fs[0].1)
            } else {
                None
            },
        }
    }
}

pub proof fn lemma_apply_fields_slot(base: TargetModel, fs: Seq<(Slot, MatcherModel)>, f: Slot)
    ensures
        slot(apply_fields(base, fs), f) == match declared(fs, f) {
            Some(m) => m,
            None => slot(base, f),
        },
    decreases fs.len(),
{
    if fs.len() > 0 {
        lemma_apply_fields_slot(
            with_slot(base, fs[0].0, fs[0].1),
            fs.subrange(1, fs.len() as int),
            f,
        );
    }
}

/// Each slot of a struct target holds the matcher of its declaration (a
/// struct declares each field at most once), and `Any` when the struct omits
/// it: reading the slots back gives the declared fields, and `Any` for the
/// rest.
pub proof fn law_struct_target_fields(s: Seq<char>, t: Seq<Token>, i: int, f: Slot)
    requires
        is_sym(t, i, Punct::LBrace),
        target_spec(s, t, i) is Ok,
    ensures
        struct_fields_spec(s, t, i + 1, no_slots()) is Ok,
        slot(target_spec(s, t, i)->Ok_0.0, f) == match declared(
            struct_fields_spec(s, t, i + 1, no_slots())->Ok_0.0,
            f,
        ) {
            Some(m) => m,
            None => MatcherModel::Any,
        },
{
    lemma_apply_fields_slot(any_target(), struct_fields_spec(s, t, i + 1, no_slots())->Ok_0.0, f);
}

/// A struct-target field other than `principal`, `action` or `resource`
/// fails with a field-validation error at that name.
pub proof fn law_unknown_field(s: Seq<char>, t: Seq<Token>, i: int)
    requires
        is_sym(t, i, Punct::LBrace),
        is_kind(t, i + 1, TokenKind::Ident),
        slot_of(text(s, t[i + 1])) is None,
    ensures
        target_spec(s, t, i) == fail_at::<(TargetModel, nat)>(s, t, i + 1, ErrorKind::FieldValidation),
{
}

/// A field named `principal`, `action` or `resource`, not declared before in
/// its struct, followed by `:` and a field value, is accepted with that
/// value.
pub proof fn law_known_field(s: Seq<char>, t: Seq<Token>, i: int, seen: SlotSet)
    requires
        is_kind(t, i, TokenKind::Ident),
        slot_of(text(s, t[i])) is Some,
        !has_slot(seen, slot_of(text(s, t[i]))->Some_0),
        is_sym(t, i + 1, Punct::Colon),
        field_value_spec(s, t, i + 2) is Ok,
        is_sym(t, i + 2 + field_value_spec(s, t, i + 2)->Ok_0.1, Punct::RBrace),
    ensures
        struct_fields_spec(s, t, i, seen) == Ok::<(Seq<(Slot, MatcherModel)>, nat), ParseError>(
            (
                seq![(slot_of(text(s, t[i]))->Some_0, field_value_spec(s, t, i + 2)->Ok_0.0)],
                field_value_spec(s, t, i + 2)->Ok_0.1 + 3,
            ),
        ),
{
}

/// A tuple target whose number of positions is not three fails with an
/// arity error that gives the number.
pub proof fn law_tuple_arity(s: Seq<char>, t: Seq<Token>, i: int)
    requires
        is_sym(t, i, Punct::LParen),
        field_values_spec(s, t, i + 1) is Ok,
        field_values_spec(s, t, i + 1)->Ok_0.0.len() != 3,
    ensures
        target_spec(s, t, i) == fail_at::<(TargetModel, nat)>(
            s,
            t,
            i,
            ErrorKind::Arity(field_values_spec(s, t, i + 1)->Ok_0.0.len() as usize),
        ),
{
}

/// `AND` and `OR` bind equally and group to the right: a head followed by a
/// connective takes the whole rest of the chain as its right operand.
pub proof fn law_chain_groups_right(s: Seq<char>, t: Seq<Token>, i: int)
    requires
        cond_head_spec(s, t, i) is Ok,
        cond_spec(s, t, i + cond_head_spec(s, t, i)->Ok_0.1 + 1) is Ok,
    ensures
        ({
            let (h, m) = cond_head_spec(s, t, i)->Ok_0;
            let (r, n) = cond_spec(s, t, i + m + 1)->Ok_0;
            &&& is_kw(s, t, i + m, "AND"@) ==> cond_spec(s, t, i) == Ok::<
                (ConditionModel, nat),
                ParseError,
            >((ConditionModel::And(Box::new(h), Box::new(r)), m + 1 + n))
            &&& !is_kw(s, t, i + m, "AND"@) && is_kw(s, t, i + m, "OR"@) ==> cond_spec(s, t, i)
                == Ok::<(ConditionModel, nat), ParseError>(
                (ConditionModel::Or(Box::new(h), Box::new(r)), m + 1 + n),
            )
        }),
{
}

/// `NOT` takes a parenthesized condition or a boolean literal; before
/// anything else, such as a bare comparison, it is a grammar error.
pub proof fn law_not_operand(s: Seq<char>, t: Seq<Token>, i: int)
    requires
        is_kw(s, t, i, "NOT"@),
        !is_sym(t, i + 1, Punct::LParen),
        bool_at(t, i + 1) is None,
    ensures
        cond_spec(s, t, i) == fail_at::<(ConditionModel, nat)>(
            s,
            t,
            i + 1,
            ErrorKind::Grammar(Expected::Atom),
        ),
{
    assert(cond_head_spec(s, t, i) == fail_at::<(ConditionModel, nat)>(
        s,
        t,
        i + 1,
        ErrorKind::Grammar(Expected::Atom),
    ));
}

/// A `CONFIG` entry is forwarded as written: its name and the source text of
/// its expression, whatever the name is.
pub proof fn law_config_entry_forwarded(s: Seq<char>, t: Seq<Token>, i: int)
    requires
        is_kind(t, i, TokenKind::Ident),
        is_sym(t, i + 1, Punct::Colon),
        expr_complete(s, t, i + 2),
        is_sym(t, expr_end(s, t, i + 2), Punct::RBrace),
    ensures
        config_fields_spec(s, t, i) is Ok,
        config_fields_spec(s, t, i)->Ok_0.0 == seq![
            ConfigFieldModel { name: text(s, t[i]), value: span_text(s, t, i + 2, expr_end(s, t, i + 2)) },
        ],
{
}

/// The rules of a definition are listed in source order: the rule at `i`
/// comes first, then the rules after it.
pub proof fn law_rules_in_source_order(s: Seq<char>, t: Seq<Token>, i: int)
    requires
        0 <= i < t.len(),
        rules_spec(s, t, i) is Ok,
    ensures
        rule_spec(s, t, i) is Ok,
        rules_spec(s, t, i)->Ok_0 == seq![rule_spec(s, t, i)->Ok_0.0] + rules_spec(
            s,
            t,
            i + rule_spec(s, t, i)->Ok_0.1,
        )->Ok_0,
{
}

/// The emitted rule steps follow the rules' source order: after the
/// configuration step, if any, the k-th step appends the k-th rule.
pub proof fn law_emission_order(s: Seq<char>)
    requires
        compile_spec(s) is Ok,
    ensures
        ({
            let m = compile_spec(s)->Ok_0;
            let steps = plan_spec(m).steps;
            let off: int = if m.config is Some {
                1
            } else {
                0
            };
            &&& steps.len() == off + m.rules.len()
            &&& forall|k: int|
                0 <= k < m.rules.len() ==> steps[off + k] == StepModel::AddRule(
                    lower_rule_spec(#[trigger] m.rules[k]),
                )
        }),
{
}

/// Where the rules from `i` on start: each rule starts where the one before
/// it ends.
pub open spec fn rule_starts(s: Seq<char>, t: Seq<Token>, i: int) -> Seq<int>
    decreases remaining(t, i),
{
    if i < 0 || i >= t.len() {
        Seq::empty()
    } else {
        proof {
            if rule_spec(s, t, i) is Ok {
                lemma_rule_span(s, t, i);
            }
        }
        match rule_spec(s, t, i) {
            Ok((_, n)) => seq![i] + rule_starts(s, t, i + n),
            Err(_) => seq![i],
        }
    }
}

/// A rule list keeps every rule of the source, in source order: the k-th
/// rule is the one that starts at the k-th start, the first starts at `i`,
/// each next one starts where the one before it ends, and nothing follows
/// the last.
pub proof fn law_rule_list(s: Seq<char>, t: Seq<Token>, i: int)
    requires
        0 <= i <= t.len(),
        rules_spec(s, t, i) is Ok,
    ensures
        ({
            let rs = rules_spec(s, t, i)->Ok_0;
            let ps = rule_starts(s, t, i);
            &&& rs.len() == ps.len()
            &&& ps.len() > 0 ==> ps[0] == i
            &&& ps.len() == 0 <==> i == t.len()
            &&& forall|k: int|
                0 <= k < ps.len() ==> rule_spec(s, t, #[trigger] ps[k]) is Ok && rs[k]
                    == rule_spec(s, t, ps[k])->Ok_0.0
            &&& forall|k: int|
                0 <= k < ps.len() - 1 ==> #[trigger] ps[k + 1] == ps[k] + rule_spec(
                    s,
                    t,
                    ps[k],
                )->Ok_0.1
            &&& ps.len() > 0 ==> ps.last() + rule_spec(s, t, ps.last())->Ok_0.1 >= t.len()
        }),
    decreases remaining(t, i),
{
    if i < t.len() {
        let n = rule_spec(s, t, i)->Ok_0.1;
        lemma_rule_span(s, t, i);
        if i + n < t.len() {
            law_rule_list(s, t, i + n);
        } else {
            assert(rule_starts(s, t, i + n) == Seq::<int>::empty());
            assert(rules_spec(s, t, i + n) == Ok::<Seq<crate::ir::RuleModel>, ParseError>(
                Seq::empty(),
            ));
        }
        let ps = rule_starts(s, t, i);
        let rest = rule_starts(s, t, i + n);
        assert(ps == seq![i] + rest);
        assert forall|k: int| 0 <= k < ps.len() - 1 implies #[trigger] ps[k + 1] == ps[k]
            + rule_spec(s, t, ps[k])->Ok_0.1 by {
            if k > 0 {
                let j = k - 1;
                assert(ps[k] == rest[j]);
                assert(ps[k + 1] == rest[j + 1]);
                assert(rest[j + 1] == rest[j] + rule_spec(s, t, rest[j])->Ok_0.1);
            }
        }
        assert forall|k: int| 0 <= k < ps.len() implies rule_spec(s, t, #[trigger] ps[k]) is Ok
            && rules_spec(s, t, i)->Ok_0[k] == rule_spec(s, t, ps[k])->Ok_0.0 by {
            if k > 0 {
                assert(ps[k] == rest[k - 1]);
            }
        }
    }
}

/// Where the heads of the condition chain that starts at `i` start: after
/// each head that an `AND` or `OR` follows, the next head starts past that
/// connective.
pub open spec fn chain_starts(s: Seq<char>, t: Seq<Token>, i: int) -> Seq<int>
    decreases remaining(t, i),
{
    if i < 0 || i >= t.len() {
        Seq::empty()
    } else {
        match cond_head_spec(s, t, i) {
            Err(_) => seq![i],
            Ok((_, m)) => if is_kw(s, t, i + m, "AND"@) || is_kw(s, t, i + m, "OR"@) {
                seq![i] + chain_starts(s, t, i + m + 1)
            } else {
                seq![i]
            },
        }
    }
}

/// The heads at `ps` joined by the connectives after them, each joining its
/// head to everything after it: `h0 op0 (h1 op1 (... hn))`.
pub open spec fn group_right(s: Seq<char>, t: Seq<Token>, ps: Seq<int>) -> ConditionModel
    decreases ps.len(),
{
    let (h, m) = cond_head_spec(s, t, ps[0])->Ok_0;
    if ps.len() <= 1 {
        h
    } else if is_kw(s, t, ps[0] + m, "AND"@) {
        ConditionModel::And(Box::new(h), Box::new(group_right(s, t, ps.drop_first())))
    } else {
        ConditionModel::Or(Box::new(h), Box::new(group_right(s, t, ps.drop_first())))
    }
}

/// A chain of heads joined by `AND` and `OR` groups to the right, with no
/// precedence between the two: `c1 op1 c2 op2 ... cn` is
/// `c1 op1 (c2 op2 (... cn))`, each head parsed on its own.
pub proof fn law_chain(s: Seq<char>, t: Seq<Token>, i: int)
    requires
        0 <= i,
        cond_spec(s, t, i) is Ok,
    ensures
        chain_starts(s, t, i).len() >= 1,
        forall|k: int|
            0 <= k < chain_starts(s, t, i).len() ==> cond_head_spec(
                s,
                t,
                #[trigger] chain_starts(s, t, i)[k],
            ) is Ok,
        cond_spec(s, t, i)->Ok_0.0 == group_right(s, t, chain_starts(s, t, i)),
    decreases remaining(t, i),
{
    let (h, m) = cond_head_spec(s, t, i)->Ok_0;
    assert(i < t.len());
    let ps = chain_starts(s, t, i);
    if is_kw(s, t, i + m, "AND"@) || is_kw(s, t, i + m, "OR"@) {
        law_chain(s, t, i + m + 1);
        let rest = chain_starts(s, t, i + m + 1);
        assert(ps == seq![i] + rest);
        assert(ps.drop_first() == rest);
        assert forall|k: int| 0 <= k < ps.len() implies cond_head_spec(
            s,
            t,
            #[trigger] ps[k],
        ) is Ok by {
            if k > 0 {
                assert(ps[k] == rest[k - 1]);
            }
        }
    } else {
        assert(ps == seq![i]);
    }
}

/// Where the entries of a `CONFIG` block start, from `i` up to its `}`:
/// after an entry that a comma follows, the next entry starts past it.
pub open spec fn entry_starts(s: Seq<char>, t: Seq<Token>, i: int) -> Seq<int>
    decreases remaining(t, i),
{
    if i < 0 || i >= t.len() || is_sym(t, i, Punct::RBrace) {
        Seq::empty()
    } else {
        let e = expr_end(s, t, i + 2);
        if expr_complete(s, t, i + 2) && is_sym(t, e, Punct::Comma) {
            proof {
                if i + 2 <= t.len() {
                    lemma_expr_scan(s, t, i + 2, false);
                }
            }
            seq![i] + entry_starts(s, t, e + 1)
        } else {
            seq![i]
        }
    }
}

/// A `CONFIG` block forwards all its entries, in source order and as
/// written: the k-th entry is the identifier at the k-th start with the
/// source text of the expression after its colon, whatever the name is.
pub proof fn law_config_entries(s: Seq<char>, t: Seq<Token>, i: int)
    requires
        0 <= i,
        config_fields_spec(s, t, i) is Ok,
    ensures
        ({
            let fs = config_fields_spec(s, t, i)->Ok_0.0;
            let ps = entry_starts(s, t, i);
            &&& fs.len() == ps.len()
            &&& forall|k: int|
                0 <= k < ps.len() ==> is_kind(t, #[trigger] ps[k], TokenKind::Ident) && fs[k]
                    == (ConfigFieldModel {
                    name: text(s, t[ps[k]]),
                    value: span_text(s, t, ps[k] + 2, expr_end(s, t, ps[k] + 2)),
                })
        }),
    decreases remaining(t, i),
{
    let ps = entry_starts(s, t, i);
    let fs = config_fields_spec(s, t, i)->Ok_0.0;
    if !is_sym(t, i, Punct::RBrace) {
        let e = expr_end(s, t, i + 2);
        if i + 2 <= t.len() {
            lemma_expr_scan(s, t, i + 2, false);
        }
        if is_sym(t, e, Punct::Comma) {
            law_config_entries(s, t, e + 1);
            let rest = entry_starts(s, t, e + 1);
            let frest = config_fields_spec(s, t, e + 1)->Ok_0.0;
            assert(ps == seq![i] + rest);
            assert(fs == seq![fs[0]] + frest);
            assert forall|k: int| 0 <= k < ps.len() implies is_kind(
                t,
                #[trigger] ps[k],
                TokenKind::Ident,
            ) && fs[k] == (ConfigFieldModel {
                name: text(s, t[ps[k]]),
                value: span_text(s, t, ps[k] + 2, expr_end(s, t, ps[k] + 2)),
            }) by {
                if k > 0 {
                    assert(ps[k] == rest[k - 1]);
                    assert(fs[k] == frest[k - 1]);
                }
            }
        } else {
            assert(ps == seq![i]);
        }
    }
}

} // verus!
