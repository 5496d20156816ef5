use homeassistant_rust_core::entity_id::is_valid_domain;
use homeassistant_rust_core::entity_id::is_valid_entity_id;
use homeassistant_rust_core::entity_id::is_valid_object_id;
use homeassistant_rust_core::entity_id::split_entity_id;
use homeassistant_rust_core::entity_id::split_entity_id_fast;

#[test]
fn test_valid_domain() {
    // Valid domains
    assert!(is_valid_domain("light"));
    assert!(is_valid_domain("sensor"));
    assert!(is_valid_domain("climate"));
    assert!(is_valid_domain("zwave"));
    assert!(is_valid_domain("homeassistant"));
    assert!(is_valid_domain("zwave2mqtt")); // Digits allowed
    assert!(is_valid_domain("1light")); // Can start with digit
    assert!(is_valid_domain("light_sensor")); // Single underscore allowed

    // Invalid domains
    assert!(!is_valid_domain("")); // Empty
    assert!(!is_valid_domain("Light")); // Uppercase
    assert!(!is_valid_domain("light__sensor")); // Double underscore
    assert!(!is_valid_domain("light-sensor")); // Hyphen
    assert!(!is_valid_domain("light.sensor")); // Period
    assert!(!is_valid_domain(&"a".repeat(65))); // Too long
}

#[test]
fn test_valid_object_id() {
    // Valid object IDs
    assert!(is_valid_object_id("living_room"));
    assert!(is_valid_object_id("temp1"));
    assert!(is_valid_object_id("a"));
    assert!(is_valid_object_id("sensor_1_temp"));

    // Invalid object IDs
    assert!(!is_valid_object_id("")); // Empty
    assert!(!is_valid_object_id("_living")); // Starts with underscore
    assert!(!is_valid_object_id("living_")); // Ends with underscore
    assert!(!is_valid_object_id("Living")); // Uppercase
    assert!(!is_valid_object_id("living-room")); // Hyphen
    assert!(!is_valid_object_id("living.room")); // Period
}

#[test]
fn test_valid_entity_id() {
    // Valid entity IDs
    assert!(is_valid_entity_id("light.living_room"));
    assert!(is_valid_entity_id("sensor.temp1"));
    assert!(is_valid_entity_id("climate.bedroom"));
    assert!(is_valid_entity_id("zwave.node_2"));

    // Invalid entity IDs
    assert!(!is_valid_entity_id("light")); // No period
    assert!(!is_valid_entity_id("light.")); // No object_id
    assert!(!is_valid_entity_id(".living_room")); // No domain
    assert!(!is_valid_entity_id("light..living")); // Multiple periods
    assert!(!is_valid_entity_id("Light.living")); // Uppercase domain
    assert!(!is_valid_entity_id("light.Living")); // Uppercase object_id
    assert!(is_valid_entity_id("1light.living")); // Domain may start with digit
    assert!(!is_valid_entity_id("light._living")); // Object_id starts with underscore
    assert!(!is_valid_entity_id("light.living_")); // Object_id ends with underscore
}

#[test]
fn test_split_entity_id() {
    assert_eq!(
        split_entity_id_fast("light.living_room"),
        Some(("light", "living_room"))
    );
    assert_eq!(
        split_entity_id_fast("sensor.temp1"),
        Some(("sensor", "temp1"))
    );
    assert_eq!(split_entity_id_fast("invalid"), None);
    assert_eq!(split_entity_id_fast("light."), None);
    assert_eq!(split_entity_id_fast(".living"), None);
}

#[test]
fn test_performance_common_entities() {
    // Test with common entity patterns
    let entities = vec![
        "light.living_room",
        "sensor.temperature",
        "binary_sensor.motion",
        "switch.kitchen",
        "climate.bedroom",
        "media_player.tv",
        "automation.morning_routine",
        "script.bedtime",
    ];

    for entity in entities {
        assert!(is_valid_entity_id(entity), "Failed for {}", entity);
    }
}

#[test]
fn domain_length_boundaries() {
    assert!(is_valid_domain(&"a".repeat(64)));
    assert!(!is_valid_domain(&"a".repeat(65)));
    assert!(is_valid_domain("a"));
    assert!(is_valid_domain("_"));
}

#[test]
fn domain_underscore_rules() {
    assert!(is_valid_domain("a_b_c"));
    assert!(!is_valid_domain("a__b"));
    assert!(!is_valid_domain("__"));
    assert!(is_valid_domain("_a_"));
}

#[test]
fn object_id_allows_interior_double_underscore() {
    // The asymmetry with domains: doubled underscores are fine inside an
    // object id, though not at its edges.
    assert!(is_valid_object_id("living__room"));
    assert!(!is_valid_domain("living__room"));
}

#[test]
fn entity_id_splits_only_at_first_dot() {
    assert!(!is_valid_entity_id("light.living.room"));
    assert_eq!(
        split_entity_id_fast("light.living.room"),
        Some(("light", "living.room"))
    );
}

#[test]
fn splitter_is_weaker_than_validator() {
    // The splitter only demands non-empty text on both sides of the first
    // dot; it can succeed on strings the full validator rejects.
    assert_eq!(split_entity_id_fast("Light.room"), Some(("Light", "room")));
    assert!(!is_valid_entity_id("Light.room"));
    assert_eq!(split_entity_id_fast("light_.room"), Some(("light_", "room")));
    assert!(is_valid_entity_id("light_.room"));
}

#[test]
fn split_entity_id_reports_the_rejected_input() {
    match split_entity_id("light.living_room") {
        Ok((domain, object_id)) => {
            assert_eq!(domain, "light");
            assert_eq!(object_id, "living_room");
        }
        Err(_) => panic!("valid identifier was rejected"),
    }
    match split_entity_id("invalid") {
        Ok(_) => panic!("identifier without a dot was split"),
        Err(e) => assert_eq!(e.entity_id, "invalid"),
    }
    match split_entity_id(".living") {
        Ok(_) => panic!("identifier with empty domain was split"),
        Err(e) => assert_eq!(e.entity_id, ".living"),
    }
}

#[test]
fn non_ascii_input_is_rejected_but_splits() {
    assert!(!is_valid_entity_id("caf\u{e9}.room"));
    assert_eq!(
        split_entity_id_fast("caf\u{e9}.room"),
        Some(("caf\u{e9}", "room"))
    );
    assert!(!is_valid_domain("caf\u{e9}"));
}
