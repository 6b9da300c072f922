use nebula::anonymizer::{sandbox_text, MaskRule};
use nebula::error::NebulaError;
use nebula::eval_ast::structural_hash;
use nebula::wasm_foundry::level_is_error;

#[test]
fn audit_lists_rules_in_name_order() {
    let rules = vec![
        MaskRule { name: "zeta".into(), token: "<Z>".into(), pattern: "z+".into() },
        MaskRule { name: "alpha".into(), token: "<A>".into(), pattern: "a+".into() },
    ];
    let (masked, audit) = sandbox_text("zz aa zz", &rules).unwrap();
    assert_eq!(masked, "<Z> <A> <Z>");
    assert_eq!(audit.by_rule, vec![("alpha".to_string(), 1), ("zeta".to_string(), 2)]);
    assert_eq!(audit.total_masked, 3);
}

#[test]
fn renaming_an_identifier_keeps_the_structural_hash() {
    let original = structural_hash("```rust\nfn foo(a: u8) { bar(a); }\n```").unwrap();
    let renamed = structural_hash("```rust\nfn qux(zed: u8) { bar(zed); }\n```").unwrap();
    assert_eq!(original, renamed);
    let changed = structural_hash("```rust\nfn foo(a: u8) { if a { bar(a); } }\n```").unwrap();
    assert_ne!(original, changed);
}

#[test]
fn error_messages_keep_the_services_wording() {
    assert_eq!(NebulaError::ZeroCount.message(), "curriculum count must be greater than zero");
    assert_eq!(
        NebulaError::UnsupportedTopic("x.y".into()).message(),
        "unsupported topic: x.y"
    );
    assert_eq!(
        NebulaError::MissingBlock("Cargo.toml".into()).message(),
        "missing Cargo.toml block"
    );
    assert_eq!(NebulaError::NoFailedPrompts.message(), "no failed prompts available for validation");
    assert_eq!(
        NebulaError::ConstitutionViolation("no-unwrap".into()).message(),
        "chosen answer violates constitution rule no-unwrap"
    );
}

#[test]
fn only_the_error_level_counts() {
    assert!(level_is_error(&Some("error".to_string())));
    assert!(!level_is_error(&Some("warning".to_string())));
    assert!(!level_is_error(&None));
}
