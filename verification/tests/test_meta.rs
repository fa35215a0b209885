use fluvio_core::test_meta::names::{option_type_name, random_suffix, GeneratedNames, SUFFIX_LEN};
use fluvio_core::test_meta::options::TestNameTestOption;
use fluvio_core::test_meta::requirements::{
    parse_cluster_kind, AttributeError, AttributeValue, EnvironmentType, TestRequirements,
    DEFAULT_MIN_SPU, DEFAULT_TIMEOUT_SECS,
};

#[test]
fn option_type_is_named_after_the_test() {
    assert_eq!(option_type_name("test_name"), "TestNameTestOption");
    assert_eq!(option_type_name("smoke"), "SmokeTestOption");
    assert_eq!(option_type_name("multiple_partitions"), "MultiplePartitionsTestOption");
    assert_eq!(option_type_name("multiple-partitions"), "MultiplePartitionsTestOption");
    assert_eq!(option_type_name("Longevity"), "LongevityTestOption");
}

#[test]
fn function_names_carry_the_suffix() {
    let names = GeneratedNames::with("smoke", "a1B2c3D", option_type_name("smoke"));
    assert_eq!(names.test_driver, "smoke_a1B2c3D");
    assert_eq!(names.user_test, "ext_test_fn_a1B2c3D");
    assert_eq!(names.requirements, "requirements_a1B2c3D");
    assert_eq!(names.validate, "validate_subcommand_a1B2c3D");
    assert_eq!(names.test_option, "SmokeTestOption");
}

#[test]
fn random_suffix_is_letters_and_digits() {
    assert_eq!(SUFFIX_LEN, 7);
    for len in [0usize, 1, 7, 64] {
        let suffix = random_suffix(len);
        assert_eq!(suffix.len(), len);
        assert!(suffix.chars().all(|c| c.is_ascii_alphanumeric()));
    }
}

#[test]
fn random_suffixes_vary() {
    let first = random_suffix(32);
    assert!((0..8).any(|_| random_suffix(32) != first));
}

#[test]
fn fresh_names_share_one_suffix() {
    let names = GeneratedNames::fresh("smoke");
    let suffix = names.test_driver.strip_prefix("smoke_").expect("prefix");
    assert_eq!(suffix.len(), 7);
    assert!(suffix.chars().all(|c| c.is_ascii_alphanumeric()));
    assert_eq!(names.user_test, format!("ext_test_fn_{}", suffix));
    assert_eq!(names.requirements, format!("requirements_{}", suffix));
    assert_eq!(names.validate, format!("validate_subcommand_{}", suffix));
    assert_eq!(names.test_option, "SmokeTestOption");
}

#[test]
fn requirements_fall_back_to_their_defaults() {
    let plain = TestRequirements::default();
    assert_eq!(plain.min_spu_or_default(), DEFAULT_MIN_SPU);
    assert_eq!(plain.min_spu_or_default(), 1);
    assert_eq!(plain.timeout_or_default(), DEFAULT_TIMEOUT_SECS);
    assert_eq!(plain.timeout_or_default(), 3600);
    assert_eq!(plain.name_or("run"), "run");
    assert!(!plain.is_async);
    let set = TestRequirements {
        min_spu: Some(2),
        timeout: Some(60),
        test_name: Some("test_name".to_string()),
        ..TestRequirements::default()
    };
    assert_eq!(set.min_spu_or_default(), 2);
    assert_eq!(set.timeout_or_default(), 60);
    assert_eq!(set.name_or("run"), "test_name");
}

#[test]
fn requirements_are_met_by_a_large_enough_cluster_of_the_right_kind() {
    let any = TestRequirements::default();
    assert!(any.is_met_by(0, EnvironmentType::Local));
    let two = TestRequirements { min_spu: Some(2), ..TestRequirements::default() };
    assert!(!two.is_met_by(1, EnvironmentType::K8));
    assert!(two.is_met_by(2, EnvironmentType::K8));
    let local = TestRequirements {
        min_spu: Some(2),
        cluster_type: Some(EnvironmentType::Local),
        ..TestRequirements::default()
    };
    assert!(local.is_met_by(3, EnvironmentType::Local));
    assert!(!local.is_met_by(3, EnvironmentType::K8));
    assert!(!local.is_met_by(1, EnvironmentType::Local));
}

#[test]
fn options_of_the_sample_test_are_found_by_name() {
    assert_eq!(TestNameTestOption::default(), TestNameTestOption {});
    assert_eq!(option_type_name(TestNameTestOption::test_name()), "TestNameTestOption");
}

fn text(s: &str) -> AttributeValue {
    AttributeValue::Text(s.to_string())
}

#[test]
fn keys_set_their_requirements() {
    let mut reqs = TestRequirements::default();
    assert_eq!(reqs.set_attribute("min_spu", AttributeValue::Int(2)), Ok(()));
    assert_eq!(reqs.set_attribute("topic_name", text("orders")), Ok(()));
    assert_eq!(reqs.set_attribute("timeout", AttributeValue::Int(60)), Ok(()));
    assert_eq!(reqs.set_attribute("cluster_type", text("k8")), Ok(()));
    assert_eq!(reqs.set_attribute("name", text("test_name")), Ok(()));
    assert_eq!(reqs.set_attribute("async", AttributeValue::Flag(true)), Ok(()));
    assert_eq!(
        reqs,
        TestRequirements {
            min_spu: Some(2),
            topic: Some("orders".to_string()),
            timeout: Some(60),
            cluster_type: Some(EnvironmentType::K8),
            test_name: Some("test_name".to_string()),
            is_async: true,
        }
    );
    assert_eq!(reqs.set_attribute("timeout", AttributeValue::Flag(false)), Ok(()));
    assert_eq!(reqs.timeout, None);
    assert_eq!(reqs.set_attribute("cluster_type", text("local")), Ok(()));
    assert_eq!(reqs.cluster_type, Some(EnvironmentType::Local));
    assert_eq!(reqs.set_attribute("min_spu", AttributeValue::Int(65535)), Ok(()));
    assert_eq!(reqs.min_spu, Some(65535));
}

#[test]
fn unknown_keys_and_wrong_values_change_nothing() {
    let mut reqs = TestRequirements { min_spu: Some(3), ..TestRequirements::default() };
    let before = reqs.clone();
    for (key, value) in [
        ("min_spu", AttributeValue::Int(65536)),
        ("min_spu", text("2")),
        ("topic_name", AttributeValue::Int(1)),
        ("timeout", AttributeValue::Flag(true)),
        ("timeout", text("60")),
        ("cluster_type", text("cloud")),
        ("cluster_type", text("K8")),
        ("cluster_type", AttributeValue::Flag(true)),
        ("name", AttributeValue::Int(1)),
        ("async", AttributeValue::Int(1)),
    ] {
        assert_eq!(reqs.set_attribute(key, value), Err(AttributeError::WrongValue), "{}", key);
        assert_eq!(reqs, before);
    }
    for key in ["", "min_spus", "Name", "timeout "] {
        assert_eq!(
            reqs.set_attribute(key, AttributeValue::Int(1)),
            Err(AttributeError::UnknownKey)
        );
        assert_eq!(reqs, before);
    }
}

#[test]
fn kinds_of_cluster_go_by_name() {
    assert_eq!(parse_cluster_kind(&"k8".to_string()), Some(EnvironmentType::K8));
    assert_eq!(parse_cluster_kind(&"kubernetes".to_string()), Some(EnvironmentType::K8));
    assert_eq!(parse_cluster_kind(&"local".to_string()), Some(EnvironmentType::Local));
    assert_eq!(parse_cluster_kind(&"".to_string()), None);
    assert_eq!(parse_cluster_kind(&"locale".to_string()), None);
}
