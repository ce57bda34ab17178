use rok_crypto::password_policy::{PasswordPolicy, PasswordPolicyError};

#[test]
fn default_policy_accepts_valid() {
    let p = PasswordPolicy::default();
    assert!(p.validate("HelloWorld42").is_ok());
}

#[test]
fn default_policy_rejects_short() {
    let p = PasswordPolicy::default();
    assert_eq!(
        p.validate("Ab1"),
        Err(PasswordPolicyError::TooShort { min: 8, len: 3 })
    );
}

#[test]
fn default_policy_rejects_no_uppercase() {
    let p = PasswordPolicy::default();
    assert_eq!(p.validate("lowercase42"), Err(PasswordPolicyError::NoUppercase));
}

#[test]
fn strict_policy() {
    let p = PasswordPolicy::strict();
    assert!(p.validate("A!bCdef1ghiJklM").is_ok());
    assert!(p.validate("aaa").is_err());
}

#[test]
fn relaxed_policy_accepts_weak() {
    let p = PasswordPolicy::relaxed();
    assert!(p.validate("abcdef").is_ok());
}

#[test]
fn consecutive_characters_rejected() {
    let p = PasswordPolicy {
        max_consecutive: 2,
        ..PasswordPolicy::default()
    };
    assert!(p.validate("Abcd!234").is_ok());
    assert!(p.validate("Abcd!!!234").is_err());
}

#[test]
fn strength_estimator() {
    let p = PasswordPolicy::default();
    assert_eq!(p.strength("a"), 0);
    assert_eq!(p.strength("abcdef"), 1);
    assert_eq!(p.strength("Abcdef12"), 2);
    assert_eq!(p.strength("Abcdef12!xyz"), 3);
    assert_eq!(p.strength("Abcdef12!xyzLONG"), 4);
}

#[test]
fn each_rule_reports_its_error() {
    let p = PasswordPolicy::strict();
    assert_eq!(p.validate("abcdefghijk1!"), Err(PasswordPolicyError::NoUppercase));
    assert_eq!(p.validate("ABCDEFGHIJK1!"), Err(PasswordPolicyError::NoLowercase));
    assert_eq!(p.validate("ABCDEFGHIJKl!"), Err(PasswordPolicyError::NoDigit));
    assert_eq!(p.validate("ABCDEFGHIJKl1"), Err(PasswordPolicyError::NoSpecial));
    assert_eq!(
        p.validate("Abcdefghijk1!!!"),
        Err(PasswordPolicyError::Consecutive { count: 3, max: 2 })
    );
    let long = "A".repeat(200);
    assert!(matches!(p.validate(&long), Err(PasswordPolicyError::TooLong { .. })));
}
