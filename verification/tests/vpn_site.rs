use startwrt_ctrl::addr::Ipv4Address;
use startwrt_ctrl::vpn_site::{
    plan_core_site_tunnel, provision_core_site_tunnel, site_interface_name, NetworkSection,
    SectionWrite, SiteTunnelParams, StartwrtSection, WgInterface,
};

fn params<'p>() -> SiteTunnelParams<'p> {
    SiteTunnelParams {
        satellite: "s1",
        profile_interface: "guest",
        core_transit_addr: Ipv4Address(10, 42, 0, 1),
        satellite_subnet: "192.168.130.0/24",
        satellite_public_key: "PUBKEY",
        preshared_key: "PSK",
        listen_port: 51900,
        transit_zone: "transit",
        core_private_key: "PRIVKEY",
    }
}

/// The `startwrt` fixture: the `guest` profile section.
fn base_startwrt() -> Vec<StartwrtSection> {
    vec![StartwrtSection { ty: "profile".into(), name: Some("guest".into()), site: None }]
}

fn base_network() -> Vec<NetworkSection> {
    vec![NetworkSection { ty: "interface".into(), name: Some("guest".into()), wg: None, lines: None }]
}

#[test]
fn interface_name_is_prefixed() {
    assert_eq!(site_interface_name("s1", "guest"), "sat_s1_guest");
}

#[test]
fn provisions_interface_peer_and_metadata_model() {
    let mut net = base_network();
    let mut sw = base_startwrt();
    provision_core_site_tunnel(&mut net, &mut sw, &params());
    let iface = net
        .iter()
        .find(|s| s.name.as_deref() == Some("sat_s1_guest"))
        .and_then(|s| s.wg.as_ref())
        .expect("wg interface should exist");
    assert_eq!(iface.addresses, vec!["10.42.0.1/32".to_string()]);
    assert_eq!(iface.listen_port, Some(51900));
    assert_eq!(iface.proto, "wireguard");
    assert!(net.iter().any(|s| s.ty == "wireguard_sat_s1_guest"), "site peer section should exist");
    let meta = sw.iter().find_map(|s| s.site.as_ref()).expect("vpn_site metadata should exist");
    assert_eq!(meta.subnet, "192.168.130.0/24");
    assert_eq!(meta.satellite, "s1");
    assert_eq!(meta.interface, "sat_s1_guest");
    assert_eq!(sw[0].ty, "profile");
    assert_eq!(sw[1].ty, "vpn_site");
    let peer = net.last().unwrap();
    assert_eq!(peer.name.as_deref(), Some("sat_s1_guest_peer"));
    let lines = peer.lines.as_ref().expect("the peer is written line by line");
    assert_eq!(lines.len(), 6);
    assert_eq!((lines[0].key.as_str(), lines[0].value.as_str()), ("public_key", "PUBKEY"));
    assert!(lines[5].list && lines[5].value == "192.168.130.0/24");
}

#[test]
fn reprovision_is_idempotent() {
    let mut net = base_network();
    let mut sw = base_startwrt();
    provision_core_site_tunnel(&mut net, &mut sw, &params());
    let second = provision_core_site_tunnel(&mut net, &mut sw, &params());
    assert!(matches!(second.interface, SectionWrite::Update { index: 1, .. }));
    assert!(matches!(second.metadata, SectionWrite::Update { index: 1, .. }));
    let peers = net.iter().filter(|s| s.ty == "wireguard_sat_s1_guest").count();
    assert_eq!(peers, 1, "re-provision must not duplicate the peer");
    assert_eq!(net.iter().filter(|s| s.name.as_deref() == Some("sat_s1_guest")).count(), 1);
    assert_eq!(sw.len(), 2);
}

#[test]
fn plan_lists_peer_lines() {
    let plan = plan_core_site_tunnel(&base_network(), &Vec::new(), &params());
    assert_eq!(plan.peer.ty, "wireguard_sat_s1_guest");
    assert_eq!(plan.peer.name, "sat_s1_guest_peer");
    let lines: Vec<(bool, &str, &str)> =
        plan.peer.lines.iter().map(|l| (l.list, l.key.as_str(), l.value.as_str())).collect();
    assert_eq!(
        lines,
        vec![
            (false, "public_key", "PUBKEY"),
            (false, "description", "satellite s1 (guest)"),
            (false, "preshared_key", "PSK"),
            (false, "persistent_keepalive", "25"),
            (false, "route_allowed_ips", "1"),
            (true, "allowed_ips", "192.168.130.0/24"),
        ]
    );
    assert!(matches!(plan.interface, SectionWrite::Append { .. }));
}

#[test]
fn existing_interface_is_updated_in_place() {
    let net = vec![
        NetworkSection { ty: "interface".into(), name: Some("lan".into()), wg: None, lines: None },
        NetworkSection {
            ty: "interface".into(),
            name: Some("sat_s1_guest".into()),
            wg: Some(WgInterface {
                proto: "wireguard".into(),
                private_key: "OLD".into(),
                listen_port: None,
                addresses: vec!["1.2.3.4/32".into()],
                disabled: Some(true),
                mtu: Some(1400),
            }),
            lines: None,
        },
    ];
    let plan = plan_core_site_tunnel(&net, &Vec::new(), &params());
    match plan.interface {
        SectionWrite::Update { index, value } => {
            assert_eq!(index, 1);
            assert_eq!(value.private_key, "PRIVKEY");
            assert_eq!(value.addresses, vec!["10.42.0.1/32".to_string()]);
            assert_eq!(value.disabled, Some(true));
            assert_eq!(value.mtu, Some(1400));
        }
        other => panic!("unexpected {:?}", other),
    }
}

#[test]
fn old_peers_of_the_tunnel_are_dropped() {
    let mut net = vec![
        NetworkSection { ty: "wireguard_sat_s1_guest".into(), name: None, wg: None, lines: None },
        NetworkSection { ty: "interface".into(), name: Some("lan".into()), wg: None, lines: None },
        NetworkSection { ty: "wireguard_sat_s1_guest".into(), name: Some("x".into()), wg: None, lines: None },
        NetworkSection { ty: "wireguard_other".into(), name: None, wg: None, lines: None },
    ];
    let mut sw = Vec::new();
    provision_core_site_tunnel(&mut net, &mut sw, &params());
    let types: Vec<&str> = net.iter().map(|s| s.ty.as_str()).collect();
    assert_eq!(types, vec!["interface", "wireguard_other", "interface", "wireguard_sat_s1_guest"]);
}
