use packard::{parse_condition, parse_effects, Condition, EvalError, State, StoreValue};
use packard::conditions::parse_simple_condition;
use packard::effects::Effect;

#[test]
fn test_parse_simple_condition() {
    let cond = parse_simple_condition("player.health > 50").unwrap();
    assert_eq!(cond.variable, "player.health");
    assert_eq!(cond.operator, ">");
    assert_eq!(cond.value, "50");
}

#[test]
fn test_evaluate_simple_condition_true() {
    let mut state = State::new();
    state.set("player.health", StoreValue::Int(100));

    let cond = parse_condition("player.health > 50").unwrap();
    assert_eq!(cond.evaluate(&state).unwrap(), true);
}

#[test]
fn test_evaluate_simple_condition_false() {
    let mut state = State::new();
    state.set("player.health", StoreValue::Int(30));

    let cond = parse_condition("player.health > 50").unwrap();
    assert_eq!(cond.evaluate(&state).unwrap(), false);
}

#[test]
fn test_parse_compound_condition_and() {
    let cond = parse_condition("player.health > 50 AND player.trust >= 30").unwrap();
    match cond {
        Condition::Compound(conditions) => {
            assert_eq!(conditions.len(), 2);
            assert_eq!(conditions[0].0, None);
            assert_eq!(conditions[1].0, Some("AND".to_string()));
        }
        _ => panic!("Expected compound condition"),
    }
}

#[test]
fn test_evaluate_compound_condition_and_true() {
    let mut state = State::new();
    state.set("player.health", StoreValue::Int(100));
    state.set("player.trust", StoreValue::Int(50));

    let cond = parse_condition("player.health > 50 AND player.trust >= 30").unwrap();
    assert_eq!(cond.evaluate(&state).unwrap(), true);
}

#[test]
fn test_evaluate_compound_condition_and_false() {
    let mut state = State::new();
    state.set("player.health", StoreValue::Int(30));
    state.set("player.trust", StoreValue::Int(50));

    let cond = parse_condition("player.health > 50 AND player.trust >= 30").unwrap();
    assert_eq!(cond.evaluate(&state).unwrap(), false);
}

#[test]
fn test_evaluate_compound_condition_or_true() {
    let mut state = State::new();
    state.set("player.health", StoreValue::Int(30));
    state.set("player.trust", StoreValue::Int(50));

    let cond = parse_condition("player.health > 50 OR player.trust >= 30").unwrap();
    assert_eq!(cond.evaluate(&state).unwrap(), true);
}

#[test]
fn test_evaluate_compound_condition_or_false() {
    let mut state = State::new();
    state.set("player.health", StoreValue::Int(30));
    state.set("player.trust", StoreValue::Int(20));

    let cond = parse_condition("player.health > 50 OR player.trust >= 30").unwrap();
    assert_eq!(cond.evaluate(&state).unwrap(), false);
}

#[test]
fn test_parse_single_effect() {
    let effects = parse_effects("player.trust = 50").unwrap();
    assert_eq!(effects.len(), 1);
    assert_eq!(effects[0].variable, "player.trust");
    assert_eq!(effects[0].operation, "=");
    assert_eq!(effects[0].value, "50");
}

#[test]
fn test_parse_multiple_effects() {
    let effects = parse_effects("player.trust += 10; player.kindness = 5").unwrap();
    assert_eq!(effects.len(), 2);
    assert_eq!(effects[0].variable, "player.trust");
    assert_eq!(effects[0].operation, "+=");
    assert_eq!(effects[1].variable, "player.kindness");
    assert_eq!(effects[1].operation, "=");
}

#[test]
fn test_apply_effects() {
    let mut state = State::new();
    let effects = parse_effects("player.trust = 50; player.kindness += 10").unwrap();

    state.apply_effects(&effects).unwrap();

    assert_eq!(state.get("player.trust").unwrap().as_i64(), Some(50));
    assert_eq!(state.get("player.kindness").unwrap().as_i64(), Some(10));
}

#[test]
fn test_apply_effects_increment() {
    let mut state = State::new();
    state.set("counter", StoreValue::Int(5));

    let effects = parse_effects("counter += 3").unwrap();
    state.apply_effects(&effects).unwrap();

    assert_eq!(state.get("counter").unwrap().as_i64(), Some(8));
}

#[test]
fn test_format_round_trip() {
    let cond = parse_simple_condition("player.health   >    50").unwrap();
    let text = cond.format_text();
    assert_eq!(text, "player.health > 50");
    let again = parse_simple_condition(&text).unwrap();
    assert_eq!(again.variable, cond.variable);
    assert_eq!(again.operator, cond.operator);
    assert_eq!(again.value, cond.value);
}

#[test]
fn test_parse_condition_rejects_bad_syntax() {
    assert!(parse_condition("???").is_err());
    assert!(parse_condition("Player > 5").is_err());
    assert!(parse_condition("health >").is_err());
    assert!(parse_condition("").is_err());
}

#[test]
fn test_longest_match_operators() {
    let cond = parse_simple_condition("x>=5").unwrap();
    assert_eq!(cond.operator, ">=");
    assert_eq!(cond.value, "5");
    let cond = parse_simple_condition("x>5").unwrap();
    assert_eq!(cond.operator, ">");
    let cond = parse_simple_condition("x!=alpha").unwrap();
    assert_eq!(cond.operator, "!=");
    assert_eq!(cond.value, "alpha");
}

#[test]
fn test_evaluate_missing_variable_errors() {
    let state = State::new();
    let cond = parse_condition("ghost == 1").unwrap();
    assert_eq!(cond.evaluate(&state), Err(EvalError::MissingVariable));
}

#[test]
fn test_evaluate_non_numeric_variable_errors() {
    let mut state = State::new();
    state.set("word", StoreValue::Str("hello".to_string()));
    let cond = parse_condition("word == 1").unwrap();
    assert_eq!(cond.evaluate(&state), Err(EvalError::NotNumeric));
}

#[test]
fn test_evaluate_bad_literal_errors() {
    let mut state = State::new();
    state.set("x", StoreValue::Int(1));
    let cond = parse_condition("x > banana").unwrap();
    assert_eq!(cond.evaluate(&state), Err(EvalError::BadLiteral));
}

#[test]
fn test_compound_evaluates_every_operand() {
    let mut state = State::new();
    state.set("a", StoreValue::Int(100));
    let cond = parse_condition("a > 1 OR missing > 2").unwrap();
    assert_eq!(cond.evaluate(&state), Err(EvalError::MissingVariable));
}

#[test]
fn test_effect_assignment_coercion() {
    let mut state = State::new();
    let effects = parse_effects("a = true; b = false; c = hello world; d = -7").unwrap();
    state.apply_effects(&effects).unwrap();
    assert!(matches!(state.get("a"), Some(StoreValue::Bool(true))));
    assert!(matches!(state.get("b"), Some(StoreValue::Bool(false))));
    match state.get("c") {
        Some(StoreValue::Str(s)) => assert_eq!(s, "hello world"),
        other => panic!("expected string value, got {:?}", other),
    }
    assert_eq!(state.get("d").unwrap().as_i64(), Some(-7));
}

#[test]
fn test_effect_increment_defaults_missing_to_zero() {
    let mut state = State::new();
    let effects = parse_effects("fresh -= 4").unwrap();
    state.apply_effects(&effects).unwrap();
    assert_eq!(state.get("fresh").unwrap().as_i64(), Some(-4));
}

#[test]
fn test_effect_bad_delta_errors_and_keeps_prefix() {
    let mut state = State::new();
    let effects = parse_effects("a = 1; b += oops; c = 2").unwrap();
    assert_eq!(state.apply_effects(&effects), Err(EvalError::BadLiteral));
    assert_eq!(state.get("a").unwrap().as_i64(), Some(1));
    assert!(state.get("c").is_none());
}

#[test]
fn test_effect_unknown_operation_errors() {
    let mut state = State::new();
    let effects = vec![Effect {
        variable: "a".to_string(),
        operation: "**".to_string(),
        value: "2".to_string(),
    }];
    assert_eq!(state.apply_effects(&effects), Err(EvalError::UnknownOperator));
}

#[test]
fn test_parse_effects_rejects_bad_segment() {
    assert!(parse_effects("player.trust = 50; 5x = 3").is_err());
    assert!(parse_effects("player.trust").is_err());
    // A bare "==" still parses: the operator scan takes the first "=" and
    // the second becomes the literal.
    let effects = parse_effects("player.trust ==").unwrap();
    assert_eq!(effects[0].operation, "=");
    assert_eq!(effects[0].value, "=");
}

#[test]
fn test_parse_effects_skips_empty_segments() {
    let effects = parse_effects(" ; a = 1 ;; b = 2 ; ").unwrap();
    assert_eq!(effects.len(), 2);
    assert_eq!(effects[0].variable, "a");
    assert_eq!(effects[1].variable, "b");
}

#[test]
fn test_integer_literal_bounds() {
    let mut state = State::new();
    state.set("x", StoreValue::Int(i64::MAX));
    let cond = parse_condition("x == 9223372036854775807").unwrap();
    assert_eq!(cond.evaluate(&state).unwrap(), true);
    let cond = parse_condition("x == 9223372036854775808").unwrap();
    assert_eq!(cond.evaluate(&state), Err(EvalError::BadLiteral));
    state.set("y", StoreValue::Int(50));
    let cond = parse_condition("y == +50").unwrap();
    assert_eq!(cond.evaluate(&state).unwrap(), true);
}

#[test]
fn test_parse_condition_simple_fields() {
    match parse_condition("player.health > 50").unwrap() {
        Condition::Simple(cond) => {
            assert_eq!(cond.variable, "player.health");
            assert_eq!(cond.operator, ">");
            assert_eq!(cond.value, "50");
        }
        _ => panic!("Expected simple condition"),
    }
}
