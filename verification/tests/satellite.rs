use startwrt_ctrl::addr::Ipv4Address;
use startwrt_ctrl::satellite::{
    add_satellite, allocate_listen_ports, ensure_core, ensure_satellite, list, pair, parse_role,
    remove_satellite, set_role, status, transit_addrs, tunnel_allowed_ips, unpair, PairParams,
    PairedSatellite, RoleMarker, RouterRole, SatelliteError, SetRoleParams, TRANSIT_BASE,
};

fn sat(name: &str, key: &str) -> PairedSatellite {
    PairedSatellite {
        name: name.to_string(),
        public_key: key.to_string(),
        mgmt_address: "10.0.0.2".to_string(),
        generation_applied: 0,
        last_seen: 0,
    }
}

fn marker(role: RouterRole) -> RoleMarker {
    RoleMarker { role, core_endpoint: None }
}

#[test]
fn role_defaults_to_core() {
    assert_eq!(RoleMarker::default().role, RouterRole::Core);
}

#[test]
fn parse_role_accepts_known_roles() {
    assert_eq!(parse_role("core").unwrap(), RouterRole::Core);
    assert_eq!(parse_role("  Satellite ").unwrap(), RouterRole::Satellite);
    assert!(parse_role("gateway").is_err());
}

#[test]
fn add_then_remove_satellite() {
    let mut list = Vec::new();
    add_satellite(&mut list, sat("s1", "KEY1")).unwrap();
    assert_eq!(list.len(), 1);
    assert!(remove_satellite(&mut list, "s1"));
    assert!(list.is_empty());
    assert!(!remove_satellite(&mut list, "s1"));
}

#[test]
fn rejects_duplicate_name_and_key() {
    let mut list = Vec::new();
    add_satellite(&mut list, sat("s1", "KEY1")).unwrap();
    assert!(add_satellite(&mut list, sat("s1", "KEY2")).is_err());
    assert!(add_satellite(&mut list, sat("s2", "KEY1")).is_err());
    add_satellite(&mut list, sat("s2", "KEY2")).unwrap();
    assert_eq!(list.len(), 2);
}

#[test]
fn allocate_ports_skips_used() {
    assert_eq!(allocate_listen_ports(&[51900, 51901], 3, 51900), vec![51902, 51903, 51904]);
}

#[test]
fn allocate_ports_count_zero() {
    assert!(allocate_listen_ports(&[], 0, 51900).is_empty());
}

#[test]
fn transit_addrs_are_disjoint_per_index() {
    let (c0, s0) = transit_addrs(0);
    let (c1, _s1) = transit_addrs(1);
    assert_eq!(c0.to_string(), "10.42.0.1");
    assert_eq!(s0.to_string(), "10.42.0.2");
    assert_eq!(c1.to_string(), "10.42.1.1");
    assert_ne!(c0, c1);
}

// ── Further cases ───────────────────────────────────────────────────────────

#[test]
fn parse_role_reports_normalised_text() {
    match parse_role("  GateWay\t") {
        Err(SatelliteError::InvalidRole { role }) => assert_eq!(role, "gateway"),
        other => panic!("unexpected {:?}", other),
    }
    assert_eq!(parse_role("\u{3000}CORE\n").unwrap(), RouterRole::Core);
    assert!(parse_role("").is_err());
    assert!(parse_role("sat ellite").is_err());
}

#[test]
fn duplicate_errors_name_the_cause() {
    let mut list = vec![sat("s1", "KEY1")];
    match add_satellite(&mut list, sat("s1", "KEY1")) {
        Err(SatelliteError::DuplicateName { name }) => assert_eq!(name, "s1"),
        other => panic!("unexpected {:?}", other),
    }
    assert!(matches!(
        add_satellite(&mut list, sat("s2", "KEY1")),
        Err(SatelliteError::DuplicatePublicKey)
    ));
    assert_eq!(list.len(), 1);
}

#[test]
fn remove_keeps_order_of_others() {
    let mut list = vec![sat("a", "K1"), sat("b", "K2"), sat("c", "K3")];
    assert!(remove_satellite(&mut list, "b"));
    let names: Vec<&str> = list.iter().map(|s| s.name.as_str()).collect();
    assert_eq!(names, vec!["a", "c"]);
}

#[test]
fn role_gates() {
    assert!(ensure_core(&marker(RouterRole::Core)).is_ok());
    assert!(matches!(ensure_core(&marker(RouterRole::Satellite)), Err(SatelliteError::CoreOnly)));
    assert!(ensure_satellite(&marker(RouterRole::Satellite)).is_ok());
    assert!(matches!(
        ensure_satellite(&marker(RouterRole::Core)),
        Err(SatelliteError::SatelliteOnly)
    ));
}

#[test]
fn pair_and_unpair_on_core() {
    let core = marker(RouterRole::Core);
    let mut reg = Vec::new();
    let resp = pair(
        &core,
        &mut reg,
        PairParams {
            name: "s1".into(),
            public_key: "PK".into(),
            mgmt_address: "10.42.0.2".into(),
            enrollment_token: None,
        },
    )
    .unwrap();
    assert_eq!(resp.name, "s1");
    assert_eq!(resp.status, "registered");
    assert_eq!(reg.len(), 1);
    assert_eq!(reg[0].mgmt_address, "10.42.0.2");
    assert_eq!(reg[0].generation_applied, 0);
    assert!(list(&core, reg.clone()).unwrap().len() == 1);
    match unpair(&core, &mut reg, "nope") {
        Err(SatelliteError::NotFound { name }) => assert_eq!(name, "nope"),
        other => panic!("unexpected {:?}", other),
    }
    unpair(&core, &mut reg, "s1").unwrap();
    assert!(reg.is_empty());
}

#[test]
fn registry_operations_refused_on_satellite() {
    let satm = marker(RouterRole::Satellite);
    let mut reg = vec![sat("s1", "K")];
    assert!(matches!(list(&satm, reg.clone()), Err(SatelliteError::CoreOnly)));
    assert!(matches!(unpair(&satm, &mut reg, "s1"), Err(SatelliteError::CoreOnly)));
    assert_eq!(reg.len(), 1);
    let st = status(satm, reg);
    assert_eq!(st.satellite_count, 0);
    assert!(st.satellites.is_empty());
}

#[test]
fn status_on_core_reports_registry() {
    let st = status(
        RoleMarker { role: RouterRole::Core, core_endpoint: None },
        vec![sat("a", "1"), sat("b", "2")],
    );
    assert_eq!(st.role, RouterRole::Core);
    assert_eq!(st.satellite_count, 2);
}

#[test]
fn set_role_builds_marker() {
    let m = set_role(SetRoleParams {
        role: "Satellite".into(),
        core_endpoint: Some("10.0.0.1:51820".into()),
    })
    .unwrap();
    assert_eq!(m.role, RouterRole::Satellite);
    assert_eq!(m.core_endpoint.as_deref(), Some("10.0.0.1:51820"));
    assert!(set_role(SetRoleParams { role: "x".into(), core_endpoint: None }).is_err());
}

#[test]
fn allocate_ports_stops_at_port_space_end() {
    assert_eq!(allocate_listen_ports(&[65534], 5, 65533), vec![65533, 65535]);
    assert_eq!(allocate_listen_ports(&[], 2, 65535), vec![65535]);
    assert_eq!(allocate_listen_ports(&[7, 9], 3, 6), vec![6, 8, 10]);
}

#[test]
fn transit_base_and_formatting() {
    assert_eq!(TRANSIT_BASE, [10, 42]);
    assert_eq!(Ipv4Address(192, 168, 130, 255).to_string(), "192.168.130.255");
    assert_eq!(transit_addrs(254).1, Ipv4Address(10, 42, 254, 2));
}

#[test]
fn allowed_ips_default_to_full_egress() {
    assert_eq!(tunnel_allowed_ips(vec![]), vec!["0.0.0.0/0".to_string()]);
    assert_eq!(
        tunnel_allowed_ips(vec!["10.0.0.0/8".to_string()]),
        vec!["10.0.0.0/8".to_string()]
    );
}
