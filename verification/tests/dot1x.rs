use startwrt_ctrl::commit::{after_dump, CommitStep, DumpOutcome, DUMP_RETRIES};
use startwrt_ctrl::dot1x::{
    apply_radius, build_radius_users_json, default_auth_mode, dot1x_client_ports, get_config, hostapd_object,
    is_auth_log_line, is_dot1x_section, parse_client_macs, parse_role, port_mode_from_uci,
    radius_users, role_to_uci, serves_radius, services_to_reload, status, write_config,
    Dot1xConfig, Dot1xError, Dot1xGlobal, Dot1xPort, Dot1xRole, PortAuthMode, PortModes,
    ProfileId, ProfileLookup, RadiusConfig, RadiusPaths, Service, UpstreamInfo, WifiStation,
    RADIUS_USERS_PATH,
};

fn profile(fullname: &str, interface: &str, vlan_tag: u16) -> ProfileId {
    ProfileId { fullname: fullname.into(), interface: interface.into(), vlan_tag }
}

/// Two profiles: Admin (lan, VLAN 99) and Guest (guest, VLAN 101).
fn lookup() -> ProfileLookup {
    ProfileLookup { profiles: vec![profile("Admin", "lan", 99), profile("Guest", "guest", 101)] }
}

fn paths() -> RadiusPaths {
    RadiusPaths { ca_cert: "/ca.pem".into(), cert: "/cert.pem".into(), key: "/key.pem".into() }
}

fn core_config() -> Dot1xConfig {
    let mut ports = PortModes::new();
    ports.insert("eth1".to_string(), PortAuthMode::Dot1xClient { guest: profile("Guest", "guest", 101) });
    ports.insert("eth0".to_string(), PortAuthMode::Static);
    Dot1xConfig { enabled: true, role: Dot1xRole::Core, upstream: None, ports }
}

#[test]
fn parse_role_defaults_to_core() {
    assert_eq!(parse_role("satellite"), Dot1xRole::Satellite);
    assert_eq!(parse_role("core"), Dot1xRole::Core);
    assert_eq!(parse_role("garbage"), Dot1xRole::Core);
}

// ── Further cases ───────────────────────────────────────────────────────────

#[test]
fn role_text_round_trips() {
    assert_eq!(role_to_uci(Dot1xRole::Core), "core");
    assert_eq!(role_to_uci(Dot1xRole::Satellite), "satellite");
    assert_eq!(parse_role(role_to_uci(Dot1xRole::Satellite)), Dot1xRole::Satellite);
    assert_eq!(parse_role("Satellite"), Dot1xRole::Core);
}

#[test]
fn default_mode_is_static() {
    assert!(matches!(default_auth_mode::<ProfileId>(), PortAuthMode::Static));
    assert!(matches!(PortAuthMode::<ProfileId>::default(), PortAuthMode::Static));
}

#[test]
fn port_modes_are_ordered_and_replaced() {
    let mut m = PortModes::new();
    m.insert("lan3".into(), PortAuthMode::Static);
    m.insert("lan1".into(), PortAuthMode::SatelliteUplink);
    m.insert("lan2".into(), PortAuthMode::Static);
    m.insert("lan1".into(), PortAuthMode::Static);
    assert_eq!(m.len(), 3);
    let keys: Vec<String> = (0..m.len()).map(|i| m.entry(i).0.clone()).collect();
    assert_eq!(keys, vec!["lan1", "lan2", "lan3"]);
    assert!(matches!(m.get("lan1"), Some(PortAuthMode::Static)));
    assert!(m.get("lan9").is_none());
}

#[test]
fn get_defaults_to_disabled_when_no_dot1x_section() {
    let cfg = get_config(None, &Vec::new(), &lookup()).unwrap();
    assert!(!cfg.enabled, "no dot1x section ⇒ disabled");
    assert_eq!(cfg.role, Dot1xRole::Core);
    assert!(cfg.ports.is_empty());
    assert!(cfg.upstream.is_none());
}

#[test]
fn get_reads_upstream_only_on_satellite() {
    let g = |role: &str| Dot1xGlobal {
        disabled: false,
        role: role.into(),
        upstream_identity: Some("sat-1".into()),
        core_mgmt_addr: None,
        mgmt_vlan: Some(4000),
    };
    let sat = get_config(Some(g("satellite")), &Vec::new(), &lookup()).unwrap();
    let up = sat.upstream.unwrap();
    assert_eq!(up.identity, "sat-1");
    assert_eq!(up.core_mgmt_addr, "");
    assert_eq!(up.mgmt_vlan, 4000);
    let core = get_config(Some(g("core")), &Vec::new(), &lookup()).unwrap();
    assert!(core.upstream.is_none());
    assert!(core.enabled);
}

#[test]
fn port_sections_resolve_guest_vlan() {
    let p = |mode: &str, vlan: Option<u16>| Dot1xPort { port: "eth1".into(), mode: mode.into(), guest_vlan: vlan };
    match port_mode_from_uci(&p("dot1xClient", Some(101)), &lookup()).unwrap() {
        PortAuthMode::Dot1xClient { guest } => assert_eq!(guest.fullname, "Guest"),
        other => panic!("unexpected {:?}", other),
    }
    assert!(matches!(
        port_mode_from_uci(&p("dot1xClient", None), &lookup()),
        Err(Dot1xError::GuestVlanMissing { .. })
    ));
    assert!(matches!(
        port_mode_from_uci(&p("dot1xClient", Some(7)), &lookup()),
        Err(Dot1xError::GuestVlanUnmatched { vlan: 7, .. })
    ));
    assert!(matches!(port_mode_from_uci(&p("satelliteUplink", None), &lookup()), Ok(PortAuthMode::SatelliteUplink)));
    assert!(matches!(port_mode_from_uci(&p("whatever", Some(101)), &lookup()), Ok(PortAuthMode::Static)));
}

#[test]
fn get_reports_first_bad_port() {
    let ports = vec![
        Dot1xPort { port: "a".into(), mode: "static".into(), guest_vlan: None },
        Dot1xPort { port: "b".into(), mode: "dot1xClient".into(), guest_vlan: None },
        Dot1xPort { port: "c".into(), mode: "dot1xClient".into(), guest_vlan: Some(5) },
    ];
    match get_config(None, &ports, &lookup()) {
        Err(Dot1xError::GuestVlanMissing { port }) => assert_eq!(port, "b"),
        other => panic!("unexpected {:?}", other),
    }
}

#[test]
fn set_then_get_round_trips_config() {
    let req = core_config();
    let w = write_config(&req, &lookup(), None, paths()).unwrap();
    assert!(!w.global.disabled);
    assert_eq!(w.global.role, "core");
    assert_eq!(w.ports.len(), 2);
    assert_eq!(w.ports[0].port, "eth0");
    assert_eq!(w.ports[0].mode, "static");
    assert_eq!(w.ports[1].mode, "dot1xClient");
    assert_eq!(w.ports[1].guest_vlan, Some(101));
    assert!(!w.radius.disabled);
    assert_eq!(w.radius.users, RADIUS_USERS_PATH);
    assert_eq!(w.radius.ca_cert, "/ca.pem");

    let got = get_config(Some(w.global), &w.ports, &lookup()).unwrap();
    assert!(got.enabled);
    assert_eq!(got.role, Dot1xRole::Core);
    assert!(matches!(got.ports.get("eth0"), Some(PortAuthMode::Static)));
    assert!(matches!(got.ports.get("eth1"), Some(PortAuthMode::Dot1xClient { .. })));
}

#[test]
fn set_rejects_unknown_guest_profile() {
    let mut ports = PortModes::new();
    ports.insert("eth1".into(), PortAuthMode::Dot1xClient { guest: profile("Nope", "nope", 4000) });
    let req = Dot1xConfig { enabled: true, role: Dot1xRole::Core, upstream: None, ports };
    match write_config(&req, &lookup(), None, paths()) {
        Err(Dot1xError::UnknownGuestProfile { port }) => assert_eq!(port, "eth1"),
        other => panic!("unknown guest profile must be rejected: {:?}", other.is_ok()),
    }
}

#[test]
fn write_keeps_upstream_only_on_satellite() {
    let upstream = || Some(UpstreamInfo { identity: "id".into(), core_mgmt_addr: "10.0.0.1".into(), mgmt_vlan: 4000 });
    let sat = Dot1xConfig { enabled: true, role: Dot1xRole::Satellite, upstream: upstream(), ports: PortModes::new() };
    let w = write_config(&sat, &lookup(), None, paths()).unwrap();
    assert_eq!(w.global.role, "satellite");
    assert_eq!(w.global.upstream_identity.as_deref(), Some("id"));
    assert_eq!(w.global.mgmt_vlan, Some(4000));
    assert!(w.radius.disabled, "a Satellite does not serve RADIUS");
    let core = Dot1xConfig { enabled: true, role: Dot1xRole::Core, upstream: upstream(), ports: PortModes::new() };
    let w = write_config(&core, &lookup(), None, paths()).unwrap();
    assert!(w.global.upstream_identity.is_none());
}

#[test]
fn radius_section_keeps_staged_fields() {
    let staged = RadiusConfig {
        disabled: true,
        ipv6: Some(true),
        log_level: Some("debug".into()),
        ca_cert: "/x".into(),
        cert: "/y".into(),
        key: "/z".into(),
        users: "/u".into(),
        clients: "/c".into(),
        auth_port: Some(1812),
        acct_port: None,
        identity: None,
    };
    let r = apply_radius(Some(staged), &core_config(), paths());
    assert!(!r.disabled);
    assert_eq!(r.users, "/u");
    assert_eq!(r.auth_port, Some(1812));
    let mut off = core_config();
    off.enabled = false;
    assert!(apply_radius(None, &off, paths()).disabled);
    assert!(!serves_radius(&off));
    assert!(serves_radius(&core_config()));
}

#[test]
fn radius_users_derives_from_profile_passwords() {
    let stations = vec![
        WifiStation { key: "adminpass".into(), vid: None, label: None },
        WifiStation { key: "guestpass".into(), vid: Some(101), label: Some("Guest".into()) },
    ];
    let json = build_radius_users_json(&stations, &lookup());
    let v: serde_json::Value = serde_json::from_str(&json).unwrap();
    let users = v["phase2"]["users"].as_object().unwrap();
    // Admin password (no vid) excluded; Guest password present, keyed by label.
    assert_eq!(users.len(), 1, "only the profile-bound password becomes a user");
    let guest = &users["Guest"];
    assert_eq!(guest["password"], "guestpass");
    assert_eq!(guest["vlan-id"], 101);
    assert_eq!(guest["methods"][0], "MSCHAPV2");
    assert_eq!(v["phase1"]["wildcard"][0]["methods"][0], "PEAP");
}

#[test]
fn radius_users_keep_only_profile_bound_passwords() {
    let stations = vec![
        WifiStation { key: "adminpass".into(), vid: None, label: None },
        WifiStation { key: "guestpass".into(), vid: Some(101), label: Some("Guest".into()) },
    ];
    let users = radius_users(&stations, &lookup());
    assert_eq!(users.len(), 1);
    assert_eq!(users[0].0, "Guest");
    assert_eq!(users[0].1.password, "guestpass");
    assert_eq!(users[0].1.vlan_id, 101);
}

#[test]
fn radius_users_document_text() {
    let stations = vec![WifiStation { key: "pw".into(), vid: Some(99), label: None }];
    let json = build_radius_users_json(&stations, &lookup());
    let expected = "{\n  \"phase1\": {\n    \"wildcard\": [\n      {\n        \"methods\": [\n          \"PEAP\"\n        ],\n        \"name\": \"*\"\n      }\n    ]\n  },\n  \"phase2\": {\n    \"users\": {\n      \"Admin\": {\n        \"methods\": [\n          \"MSCHAPV2\"\n        ],\n        \"password\": \"pw\",\n        \"vlan-id\": 99\n      }\n    }\n  }\n}";
    assert_eq!(json, expected);
}

#[test]
fn radius_users_document_with_no_users() {
    let json = build_radius_users_json(&Vec::new(), &lookup());
    let v: serde_json::Value = serde_json::from_str(&json).unwrap();
    assert!(v["phase2"]["users"].as_object().unwrap().is_empty());
    assert_eq!(v["phase1"]["wildcard"][0]["name"], "*");
}

#[test]
fn radius_usernames_default_and_last_write_wins() {
    let stations = vec![
        WifiStation { key: "k1".into(), vid: Some(101), label: Some("".into()) },
        WifiStation { key: "k2".into(), vid: Some(99), label: Some("bob".into()) },
        WifiStation { key: "k3".into(), vid: Some(101), label: None },
        WifiStation { key: "k4".into(), vid: Some(55), label: Some("ghost".into()) },
    ];
    let users = radius_users(&stations, &lookup());
    let flat: Vec<(&str, &str, u16)> =
        users.iter().map(|(u, c)| (u.as_str(), c.password.as_str(), c.vlan_id)).collect();
    assert_eq!(flat, vec![("Guest", "k3", 101), ("bob", "k2", 99)]);
}

#[test]
fn client_macs_come_from_clients_object() {
    let out = r#"{"clients": {"aa:bb:cc:dd:ee:ff": {"auth": true}, "11:22:33:44:55:66": {}}}"#;
    let mut macs = parse_client_macs(out);
    macs.sort();
    assert_eq!(macs, vec!["11:22:33:44:55:66", "aa:bb:cc:dd:ee:ff"]);
    assert!(parse_client_macs("").is_empty());
    assert!(parse_client_macs("not json").is_empty());
    assert!(parse_client_macs(r#"{"clients": [1, 2]}"#).is_empty());
}

#[test]
fn status_lists_dot1x_client_ports() {
    let cfg = core_config();
    let names = dot1x_client_ports(&cfg);
    assert_eq!(names, vec!["eth1"]);
    assert_eq!(hostapd_object(&names[0]), "hostapd.eth1");
    let st = status(&cfg, &vec![r#"{"clients": {"m1": {}}}"#.to_string()]);
    assert!(st.enabled);
    assert_eq!(st.ports.len(), 1);
    assert_eq!(st.ports[0].port, "eth1");
    assert!(st.ports[0].present);
    assert_eq!(st.ports[0].clients, vec!["m1"]);
    let st = status(&cfg, &vec![String::new()]);
    assert!(!st.ports[0].present);
    assert!(st.ports[0].clients.is_empty());
}

#[test]
fn log_lines_are_filtered_by_source() {
    assert!(is_auth_log_line("Mon daemon.info hostapd: eth1: STA authenticated"));
    assert!(is_auth_log_line("radius: Access-Accept"));
    assert!(is_auth_log_line("RADIUS server started"));
    assert!(!is_auth_log_line("kernel: link up"));
    assert!(!is_auth_log_line("Radius"));
}

#[test]
fn dot1x_sections_are_recognised() {
    assert!(is_dot1x_section("dot1x"));
    assert!(is_dot1x_section("dot1x_port"));
    assert!(!is_dot1x_section("profile"));
}

#[test]
fn services_follow_role() {
    assert_eq!(services_to_reload(Dot1xRole::Core), vec![Service::Radius, Service::Wifi]);
    assert_eq!(services_to_reload(Dot1xRole::Satellite), vec![Service::Wifi]);
}

#[test]
fn conflicts_are_retried_a_bounded_number_of_times() {
    let mut left = DUMP_RETRIES;
    let mut attempts = 0;
    loop {
        attempts += 1;
        match after_dump(left, DumpOutcome::Conflict) {
            CommitStep::Retry { retries_left } => left = retries_left,
            CommitStep::Fail => break,
            CommitStep::Done => unreachable!(),
        }
    }
    assert_eq!(attempts, 5);
    assert_eq!(after_dump(3, DumpOutcome::Saved), CommitStep::Done);
    assert_eq!(after_dump(3, DumpOutcome::Failed), CommitStep::Fail);
}

#[test]
fn round_trip_reads_guest_back_by_vlan_tag() {
    // Two profiles share VLAN 101: a guest written as the second one reads
    // back as the first profile with that tag.
    let shared = ProfileLookup {
        profiles: vec![profile("Guest", "guest", 101), profile("Visitors", "visitors", 101)],
    };
    let mut ports = PortModes::new();
    ports.insert("eth2".into(), PortAuthMode::Dot1xClient { guest: profile("Visitors", "visitors", 101) });
    ports.insert("eth1".into(), PortAuthMode::SatelliteUplink);
    let req = Dot1xConfig { enabled: false, role: Dot1xRole::Core, upstream: None, ports };
    let w = write_config(&req, &shared, None, paths()).unwrap();
    let names: Vec<&str> = w.ports.iter().map(|p| p.port.as_str()).collect();
    assert_eq!(names, vec!["eth1", "eth2"]);
    let got = get_config(Some(w.global), &w.ports, &shared).unwrap();
    assert!(!got.enabled);
    assert_eq!(got.ports.len(), 2);
    assert!(matches!(got.ports.get("eth1"), Some(PortAuthMode::SatelliteUplink)));
    match got.ports.get("eth2") {
        Some(PortAuthMode::Dot1xClient { guest }) => {
            assert_eq!(guest.fullname, "Guest");
            assert_eq!(guest.vlan_tag, 101);
        }
        _ => panic!("eth2 must read back as a dot1xClient port"),
    }
}

#[test]
fn port_map_keeps_ports_ascending() {
    let mut ports = PortModes::new();
    for name in ["lan3", "lan1", "wan", "lan2", "lan1"] {
        ports.insert(name.into(), PortAuthMode::Static);
    }
    let names: Vec<String> = (0..ports.len()).map(|i| ports.entry(i).0.clone()).collect();
    assert_eq!(names, vec!["lan1", "lan2", "lan3", "wan"]);
}
