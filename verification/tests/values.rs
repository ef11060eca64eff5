//! Value semantics: tag-strict structural equality and truthiness.

use expr_vm::value::Value;

#[test]
fn equality_is_tag_strict() {
    assert!(!Value::Number(1f64.to_bits()).eq_value(&Value::Str("1".to_string())));
    assert!(!Value::Bool(false).eq_value(&Value::Nil));
    assert!(!Value::Number(0f64.to_bits()).eq_value(&Value::Bool(false)));
}

#[test]
fn equality_within_tags_is_structural() {
    assert!(Value::Nil.eq_value(&Value::Nil));
    assert!(Value::Bool(true).eq_value(&Value::Bool(true)));
    assert!(!Value::Bool(true).eq_value(&Value::Bool(false)));
    assert!(Value::Str("ab".to_string()).eq_value(&Value::Str("ab".to_string())));
    assert!(!Value::Str("ab".to_string()).eq_value(&Value::Str("ba".to_string())));
    assert!(Value::Number(2.5f64.to_bits()).eq_value(&Value::Number(2.5f64.to_bits())));
    assert!(!Value::Number(1f64.to_bits()).eq_value(&Value::Number(2f64.to_bits())));
}

#[test]
fn number_equality_is_numeric() {
    // The two IEEE-754 zeroes differ in bits but compare equal.
    assert!(Value::Number(0f64.to_bits()).eq_value(&Value::Number((-0f64).to_bits())));
}

#[test]
fn only_false_and_nil_are_falsy() {
    assert!(Value::Nil.is_falsy());
    assert!(Value::Bool(false).is_falsy());
    assert!(!Value::Bool(true).is_falsy());
    assert!(!Value::Number(0f64.to_bits()).is_falsy());
    assert!(!Value::Str(String::new()).is_falsy());
}
