use mission_centre_pg::connection::probe::{
    format_version, map_server_info, parse_extension_version, Capabilities, PrivilegeLevel,
    ProbeRow, ServerInfo, StatementsAvailability,
};

#[test]
fn formats_a_modern_version_number() {
    assert_eq!(format_version(140011), "14.11");
    assert_eq!(format_version(180004), "18.4");
    assert_eq!(format_version(160000), "16.0");
}

#[test]
fn superuser_and_monitor_see_everything() {
    assert!(!PrivilegeLevel::Superuser.hides_other_sessions());
    assert!(!PrivilegeLevel::Monitor.hides_other_sessions());
}

#[test]
fn a_limited_role_hides_other_sessions() {
    assert!(PrivilegeLevel::Limited.hides_other_sessions());
}

#[test]
fn classifies_privilege_from_probe_flags() {
    assert_eq!(PrivilegeLevel::classify(true, true), PrivilegeLevel::Superuser);
    assert_eq!(PrivilegeLevel::classify(true, false), PrivilegeLevel::Superuser);
    assert_eq!(PrivilegeLevel::classify(false, true), PrivilegeLevel::Monitor);
    assert_eq!(PrivilegeLevel::classify(false, false), PrivilegeLevel::Limited);
}

#[test]
fn recognises_a_server_below_the_supported_floor() {
    let server_13 = ServerInfo {
        version_num: 130015,
        version_display: format_version(130015),
        privilege: PrivilegeLevel::Superuser,
        statements: StatementsAvailability::NotInstalled,
        capabilities: Capabilities::default(),
    };
    assert!(server_13.is_below_floor());

    let server_14 = ServerInfo {
        version_num: 140000,
        version_display: format_version(140000),
        privilege: PrivilegeLevel::Superuser,
        statements: StatementsAvailability::NotInstalled,
        capabilities: Capabilities::default(),
    };
    assert!(!server_14.is_below_floor());

    let server_18 = ServerInfo {
        version_num: 180000,
        version_display: format_version(180000),
        privilege: PrivilegeLevel::Superuser,
        statements: StatementsAvailability::NotInstalled,
        capabilities: Capabilities::default(),
    };
    assert!(!server_18.is_below_floor());
}

#[test]
fn an_absent_extension_is_not_installed() {
    assert_eq!(
        StatementsAvailability::classify(None),
        StatementsAvailability::NotInstalled
    );
}

#[test]
fn version_1_8_and_later_are_available() {
    for version in ["1.8", "1.9", "1.11"] {
        assert_eq!(
            StatementsAvailability::classify(Some(version)),
            StatementsAvailability::Available {
                version: version.to_string()
            },
            "{version} should be usable"
        );
    }
}

#[test]
fn version_1_10_is_available_despite_sorting_before_1_8_as_text() {
    assert_eq!(
        StatementsAvailability::classify(Some("1.10")),
        StatementsAvailability::Available {
            version: "1.10".to_string()
        }
    );
}

#[test]
fn version_1_7_is_too_old() {
    assert_eq!(
        StatementsAvailability::classify(Some("1.7")),
        StatementsAvailability::TooOld {
            version: "1.7".to_string()
        }
    );
}

#[test]
fn an_unparseable_version_is_treated_as_too_old() {
    assert_eq!(
        StatementsAvailability::classify(Some("banana")),
        StatementsAvailability::TooOld {
            version: "banana".to_string()
        }
    );
}

#[test]
fn only_the_available_variant_reports_itself_usable() {
    assert!(StatementsAvailability::classify(Some("1.9")).is_available());
    assert!(!StatementsAvailability::classify(Some("1.7")).is_available());
    assert!(!StatementsAvailability::classify(None).is_available());
}

#[test]
fn absent_objects_probe_as_no_capability() {
    let caps = Capabilities::from_flags(Some(false), Some(false), None, None);
    assert!(!caps.reset_statements);
    assert!(!caps.maintain);
}

#[test]
fn granted_capabilities_are_carried_through_independently() {
    let caps = Capabilities::from_flags(Some(true), Some(false), Some(true), Some(false));
    assert!(caps.signal_backend);
    assert!(!caps.reload_conf);
    assert!(caps.reset_statements);
    assert!(!caps.maintain);
}

#[test]
fn a_monitor_role_has_no_action_capabilities_by_default() {
    let caps = Capabilities::from_flags(Some(false), Some(false), Some(false), Some(false));
    assert!(!caps.signal_backend);
    assert!(!caps.reload_conf);
}

#[test]
fn extension_versions_parse_as_two_numbers() {
    assert_eq!(parse_extension_version("1.10"), Some((1, 10)));
    assert_eq!(parse_extension_version("2.0"), Some((2, 0)));
    assert_eq!(parse_extension_version("1"), Some((1, 0)));
    assert_eq!(parse_extension_version("1.2.3"), Some((1, 2)));
    assert_eq!(parse_extension_version("+1.8"), Some((1, 8)));
    assert_eq!(parse_extension_version("1.x"), None);
    assert_eq!(parse_extension_version(""), None);
}

#[test]
fn versions_before_ten_and_odd_numbers_format_as_the_server_would_print_them() {
    assert_eq!(format_version(90624), "9.624");
    assert_eq!(format_version(100000), "10.0");
}

#[test]
fn a_probe_row_maps_every_field() {
    let info = map_server_info(&ProbeRow {
        version_num: 160002,
        is_monitor: true,
        is_superuser: false,
        statements_version: Some("1.10".to_string()),
        can_signal: Some(true),
        can_reload: None,
        can_reset_statements: Some(true),
        can_maintain: Some(false),
    });
    assert_eq!(info.version_num, 160002);
    assert_eq!(info.version_display, "16.2");
    assert_eq!(info.privilege, PrivilegeLevel::Monitor);
    assert!(info.statements.is_available());
    assert!(info.capabilities.signal_backend);
    assert!(!info.capabilities.reload_conf);
    assert!(info.capabilities.reset_statements);
    assert!(!info.capabilities.maintain);
}

#[test]
fn a_default_capability_set_grants_nothing() {
    let caps = Capabilities::default();
    assert!(!caps.signal_backend && !caps.reload_conf && !caps.reset_statements && !caps.maintain);
}
