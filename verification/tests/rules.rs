use actraild::rules::{
    parse_positive_u32, parse_positive_u64, positive_u32, positive_u64, validate_operation,
    EnforcementDecision, NetworkRuleValidator, RuleTier, StaticRuleParser,
    SyncPluginFallbackReason,
};
use actraild::text::u64_to_decimal;

#[test]
fn positive_u64_accepts_plain_and_plus_signed_values() {
    assert_eq!(parse_positive_u64("timeout-ms", "250"), Ok(250));
    assert_eq!(parse_positive_u64("timeout-ms", "+7"), Ok(7));
    assert_eq!(
        positive_u64("timeout-ms", "18446744073709551615"),
        Ok(u64::MAX)
    );
}

#[test]
fn positive_u64_rejects_zero_with_field_name() {
    assert_eq!(
        parse_positive_u64("timeout-ms", "0"),
        Err("timeout-ms must be greater than zero".to_string())
    );
    assert_eq!(
        positive_u64("timeout-ms", "000"),
        Err("timeout-ms must be greater than zero".to_string())
    );
}

#[test]
fn positive_u64_reports_each_parse_error_kind() {
    assert_eq!(
        parse_positive_u64("timeout-ms", ""),
        Err("timeout-ms must be a positive integer: cannot parse integer from empty string".to_string())
    );
    assert_eq!(
        parse_positive_u64("timeout-ms", "12a"),
        Err("timeout-ms must be a positive integer: invalid digit found in string".to_string())
    );
    assert_eq!(
        parse_positive_u64("timeout-ms", "-5"),
        Err("timeout-ms must be a positive integer: invalid digit found in string".to_string())
    );
    assert_eq!(
        parse_positive_u64("timeout-ms", "+"),
        Err("timeout-ms must be a positive integer: invalid digit found in string".to_string())
    );
    assert_eq!(
        positive_u64("timeout-ms", "18446744073709551616"),
        Err("timeout-ms must be a positive integer: number too large to fit in target type".to_string())
    );
}

#[test]
fn positive_u32_limits_to_u32_range() {
    assert_eq!(parse_positive_u32("concurrency", "4294967295"), Ok(u32::MAX));
    assert_eq!(
        parse_positive_u32("concurrency", "4294967296"),
        Err("concurrency must be a positive integer: number too large to fit in target type".to_string())
    );
    assert_eq!(positive_u32("concurrency", "8"), Ok(8));
    assert_eq!(StaticRuleParser::positive_u32("concurrency", "3"), Ok(3));
    assert_eq!(StaticRuleParser::positive_u64("timeout-ms", "9"), Ok(9));
    assert_eq!(
        StaticRuleParser::positive_u32("concurrency", "0"),
        Err("concurrency must be greater than zero".to_string())
    );
}

#[test]
fn decimal_text_of_a_count_parses_back() {
    for v in [1u64, 9, 10, 12345, u32::MAX as u64, u64::MAX] {
        let text = u64_to_decimal(v);
        assert_eq!(text, v.to_string());
        assert_eq!(positive_u64("n", &text), Ok(v));
    }
    assert_eq!(positive_u32("n", &u64_to_decimal(77)), Ok(77));
}

#[test]
fn fallback_verdict_names_allow_or_deny() {
    assert!(matches!(
        StaticRuleParser::enforcement("allow"),
        Ok(EnforcementDecision::Allow)
    ));
    assert!(matches!(
        StaticRuleParser::enforcement("deny"),
        Ok(EnforcementDecision::Deny)
    ));
    assert_eq!(
        StaticRuleParser::enforcement("Allow").err(),
        Some("fallback must be allow or deny".to_string())
    );
}

#[test]
fn only_open_operation_is_supported() {
    assert_eq!(validate_operation("open"), Ok(()));
    assert_eq!(
        validate_operation("mkdir"),
        Err("unsupported operation mkdir; expected open".to_string())
    );
    assert_eq!(
        validate_operation(""),
        Err("unsupported operation ; expected open".to_string())
    );
}

#[test]
fn network_rule_ids_must_be_non_empty_without_whitespace() {
    let message = Err("network rule id must be non-empty and contain no whitespace".to_string());
    assert_eq!(NetworkRuleValidator::rule_id("rule-1"), Ok(()));
    assert_eq!(NetworkRuleValidator::rule_id("规则"), Ok(()));
    assert_eq!(NetworkRuleValidator::rule_id(""), message);
    assert_eq!(NetworkRuleValidator::rule_id("a b"), message);
    assert_eq!(NetworkRuleValidator::rule_id("tab\there"), message);
    assert_eq!(NetworkRuleValidator::rule_id("nb\u{00A0}sp"), message);
    assert_eq!(NetworkRuleValidator::rule_id("\u{3000}"), message);
    assert_eq!(NetworkRuleValidator::rule_id("line\u{2028}sep"), message);
}

#[test]
fn builtin_rules_rank_after_plugin_and_static_rules() {
    assert_eq!(RuleTier::Plugin.rank(), 0);
    assert_eq!(RuleTier::Static.rank(), 0);
    assert_eq!(RuleTier::Builtin.rank(), 1);
}

#[test]
fn fallback_reasons_have_wire_names() {
    assert_eq!(SyncPluginFallbackReason::PluginError.as_str(), "plugin_error");
    assert_eq!(SyncPluginFallbackReason::PluginPanic.as_str(), "plugin_panic");
    assert_eq!(
        SyncPluginFallbackReason::ConcurrencyLimit.as_str(),
        "concurrency_limit"
    );
    assert_eq!(
        SyncPluginFallbackReason::PluginInstanceConcurrencyLimit.as_str(),
        "plugin_instance_concurrency_limit"
    );
}
