use nebula::anonymizer::{
    default_rules, handle_raw_triplet, luhn_check, sandbox_text, sanitize_triplet, EventBus,
    InferenceTriplet, MaskAudit, MaskRule, PrivacyMetrics, RAW_TOPIC,
};
use nebula::error::NebulaError;

struct Bus(Vec<InferenceTriplet>);
struct Metrics(Vec<MaskAudit>);

impl EventBus for Bus {
    fn publish(&mut self, _topic: &str, event: &InferenceTriplet) -> Result<(), NebulaError> {
        self.0.push(event.clone());
        Ok(())
    }
}

impl PrivacyMetrics for Metrics {
    fn push_mask_counts(&mut self, _metric: &str, audit: &MaskAudit) -> Result<(), NebulaError> {
        self.0.push(audit.clone());
        Ok(())
    }
}

#[test]
fn masks_default_sensitive_entities() {
    let triplet = InferenceTriplet {
        prompt: "Email john@example.com using Bearer abcdefghijklmnop".into(),
        task_type: "reasoning".into(),
        responses: [
            "Card 4111 1111 1111 1111".into(),
            "Host 192.168.0.1".into(),
            "Trace 550e8400-e29b-41d4-a716-446655440000".into(),
        ],
        context: "{}".into(),
    };

    let sanitized = sanitize_triplet(triplet, &default_rules()).unwrap();

    assert!(sanitized.triplet.prompt.contains("<EMAIL>"));
    assert!(sanitized.triplet.prompt.contains("<BEARER_TOKEN>"));
    assert_eq!(sanitized.audit.total_masked, 5);
}

#[test]
fn forwards_sanitized_payload_and_metrics() {
    let triplet = InferenceTriplet {
        prompt: "john@example.com".into(),
        task_type: "reasoning".into(),
        responses: ["ok".into(), "ok".into(), "ok".into()],
        context: "{}".into(),
    };
    let mut bus = Bus(Vec::new());
    let mut metrics = Metrics(Vec::new());

    let sanitized =
        handle_raw_triplet(&mut bus, &mut metrics, RAW_TOPIC, triplet, &default_rules()).unwrap();

    assert_eq!(bus.0[0].prompt, "<EMAIL>");
    assert_eq!(metrics.0[0], sanitized.audit);
}

#[test]
fn masks_only_luhn_valid_credit_cards() {
    let (masked, audit) = sandbox_text(
        "valid 4111 1111 1111 1111 invalid 4111 1111 1111 1112",
        &default_rules(),
    )
    .unwrap();

    assert!(masked.contains("valid <CREDIT_CARD>"));
    assert!(masked.contains("invalid 4111 1111 1111 1112"));
    assert_eq!(audit.get("credit_card"), Some(1));
}

#[test]
fn masks_uuid_and_ipv6_before_numeric_card_candidates() {
    let (masked, audit) = sandbox_text(
        "trace 550e8400-e29b-41d4-a716-446655440000 host 2001:0db8:85a3:0000:0000:8a2e:0370:7334",
        &default_rules(),
    )
    .unwrap();

    assert!(masked.contains("<UUID>"));
    assert!(masked.contains("<IPV6>"));
    assert!(!masked.contains("<CREDIT_CARD>"));
    assert_eq!(audit.get("credit_card"), None);
}

#[test]
fn refuses_other_topics_before_masking() {
    let triplet = InferenceTriplet {
        prompt: "john@example.com".into(),
        task_type: "reasoning".into(),
        responses: ["ok".into(), "ok".into(), "ok".into()],
        context: "{}".into(),
    };
    let mut bus = Bus(Vec::new());
    let mut metrics = Metrics(Vec::new());
    let result = handle_raw_triplet(&mut bus, &mut metrics, "other.topic", triplet, &default_rules());
    assert_eq!(result, Err(NebulaError::UnsupportedTopic("other.topic".into())));
    assert!(bus.0.is_empty());
    assert!(metrics.0.is_empty());
}

#[test]
fn names_the_first_rule_whose_pattern_does_not_compile() {
    let rules = vec![
        MaskRule { name: "ok".into(), token: "<OK>".into(), pattern: "a+".into() },
        MaskRule { name: "broken".into(), token: "<X>".into(), pattern: "(".into() },
    ];
    match sandbox_text("aaa", &rules) {
        Err(NebulaError::InvalidPattern(name, detail)) => {
            assert_eq!(name, "broken");
            assert!(!detail.is_empty());
            assert_eq!(NebulaError::InvalidPattern(name, detail.clone()).message(), detail);
        }
        other => panic!("expected an invalid pattern, got {:?}", other),
    }
}

#[test]
fn luhn_accepts_valid_numbers_only() {
    let valid: Vec<char> = "4111111111111111".chars().collect();
    let invalid: Vec<char> = "4111111111111112".chars().collect();
    let short: Vec<char> = "411111111111".chars().collect();
    assert!(luhn_check(&valid));
    assert!(!luhn_check(&invalid));
    assert!(!luhn_check(&short));
}

#[test]
fn audit_total_is_sum_of_rule_counts() {
    let (masked, audit) =
        sandbox_text("a@b.io and c@d.io at 10.0.0.1", &default_rules()).unwrap();
    assert_eq!(masked, "<EMAIL> and <EMAIL> at <IPV4>");
    assert_eq!(audit.get("email"), Some(2));
    assert_eq!(audit.get("ipv4"), Some(1));
    let sum: usize = audit.by_rule.iter().map(|(_, count)| *count).sum();
    assert_eq!(audit.total_masked, sum);
    assert_eq!(audit.by_rule[0].0, "email");
}

#[test]
fn default_rules_put_cards_last() {
    let rules = default_rules();
    let names: Vec<&str> = rules.iter().map(|rule| rule.name.as_str()).collect();
    assert_eq!(
        names,
        vec!["email", "bearer_token", "jwt", "ipv4", "uuid", "ipv6", "credit_card"]
    );
}
