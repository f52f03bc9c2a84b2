//! Site-to-site WireGuard configuration for satellite routers (Core side).
//!
//! A satellite is a *router* that advertises its whole per-profile `/24` over
//! the tunnel. For one such per-profile tunnel this module plans, over a model
//! of the `network` and `startwrt` UCI configs (the parts of each section
//! that the planning reads):
//! - a `wg_*` interface carrying the tunnel, with the Core's transit `/32`;
//! - a peer whose `allowed_ips` is the satellite's subnet, with
//!   `route_allowed_ips=1`, exactly one per tunnel;
//! - the `vpn_site` metadata section in `startwrt`.
//! Re-provisioning is idempotent.

use vstd::prelude::*;
use crate::addr::{Ipv4Address, dotted};
use crate::text::{opt_view, str_eq};

verus! {

// ── Data model ──────────────────────────────────────────────────────────────

/// Satellite per-profile tunnel metadata (a `vpn_site` section of `startwrt`).
#[derive(Debug)]
pub struct UciVpnSite {
    /// The Core-side WireGuard interface name (e.g. "sat_s1_guest").
    pub interface: String,
    /// The profile this tunnel carries (e.g. "guest").
    pub profile_interface: String,
    /// The satellite this tunnel belongs to (its registry name).
    pub satellite: String,
    /// The satellite's downstream subnet for this profile (CIDR).
    pub subnet: String,
    /// UDP listen port on the Core for this tunnel.
    pub listen_port: u16,
}

/// A WireGuard-capable `interface` section of `network`.
#[derive(Debug)]
pub struct WgInterface {
    pub proto: String,
    pub private_key: String,
    pub listen_port: Option<u16>,
    pub addresses: Vec<String>,
    pub disabled: Option<bool>,
    pub mtu: Option<u16>,
}

/// One section of the `network` config: its type, its name, its contents
/// read as a WireGuard interface where they read as one, and its lines where
/// it is a section written line by line (a tunnel's peer).
#[derive(Debug)]
pub struct NetworkSection {
    pub ty: String,
    pub name: Option<String>,
    pub wg: Option<WgInterface>,
    pub lines: Option<Vec<UciLine>>,
}

/// One section of the `startwrt` config: its type, its name, and its contents
/// read as `vpn_site` metadata where they read as such.
#[derive(Debug)]
pub struct StartwrtSection {
    pub ty: String,
    pub name: Option<String>,
    pub site: Option<UciVpnSite>,
}

/// Inputs for one Core-side per-profile satellite tunnel.
pub struct SiteTunnelParams<'p> {
    /// Satellite registry name.
    pub satellite: &'p str,
    /// Profile interface name the tunnel carries.
    pub profile_interface: &'p str,
    /// The Core end's transit address on this tunnel.
    pub core_transit_addr: Ipv4Address,
    /// The satellite's downstream subnet carried over the tunnel (CIDR).
    pub satellite_subnet: &'p str,
    /// The satellite's WireGuard public key (base64), pinned at pairing.
    pub satellite_public_key: &'p str,
    /// Pre-shared key (base64).
    pub preshared_key: &'p str,
    /// UDP listen port on the Core.
    pub listen_port: u16,
    /// The firewall zone the handshake arrives on (the transit-link zone).
    pub transit_zone: &'p str,
    /// The Core's WireGuard private key for this interface (base64).
    pub core_private_key: &'p str,
}

/// One `option` (`list == false`) or `list` line of a UCI section.
#[derive(Debug)]
pub struct UciLine {
    pub list: bool,
    pub key: String,
    pub value: String,
}

/// A section written line by line: its type, its name and its lines.
#[derive(Debug)]
pub struct PeerSection {
    pub ty: String,
    pub name: String,
    pub lines: Vec<UciLine>,
}

/// How one typed section is written: over the section at `index`, or as a
/// new section named `name` at the end of the config.
#[derive(Debug)]
pub enum SectionWrite<T> {
    Update { index: usize, value: T },
    Append { name: String, value: T },
}

/// Everything that provisioning one Core-side tunnel writes: the interface
/// (in `network`), the metadata (in `startwrt`), and the single peer (in
/// `network`, after every section of the peer's type has been dropped).
#[derive(Debug)]
pub struct CoreSitePlan {
    pub interface: SectionWrite<WgInterface>,
    pub metadata: SectionWrite<UciVpnSite>,
    pub peer: PeerSection,
}

// ── Views ───────────────────────────────────────────────────────────────────

pub struct WgView {
    pub proto: Seq<char>,
    pub private_key: Seq<char>,
    pub listen_port: Option<u16>,
    pub addresses: Seq<Seq<char>>,
    pub disabled: Option<bool>,
    pub mtu: Option<u16>,
}

pub struct NetSectionView {
    pub ty: Seq<char>,
    pub name: Option<Seq<char>>,
    pub wg: Option<WgView>,
    pub lines: Option<Seq<(bool, Seq<char>, Seq<char>)>>,
}

pub struct VpnSiteView {
    pub interface: Seq<char>,
    pub profile_interface: Seq<char>,
    pub satellite: Seq<char>,
    pub subnet: Seq<char>,
    pub listen_port: u16,
}

pub struct SiteSectionView {
    pub ty: Seq<char>,
    pub name: Option<Seq<char>>,
    pub site: Option<VpnSiteView>,
}

impl View for WgInterface {
    type V = WgView;

    open spec fn view(&self) -> WgView {
        WgView {
            proto: self.proto@,
            private_key: self.private_key@,
            listen_port: self.listen_port,
            addresses: self.addresses@.map_values(|a: String| a@),
            disabled: self.disabled,
            mtu: self.mtu,
        }
    }
}

impl View for NetworkSection {
    type V = NetSectionView;

    open spec fn view(&self) -> NetSectionView {
        NetSectionView {
            ty: self.ty@,
            name: opt_view(self.name),
            wg: match self.wg {
                Some(w) => Some(w@),
                None => None,
            },
            lines: match self.lines {
                Some(l) => Some(l@.map_values(|x: UciLine| x@)),
                None => None,
            },
        }
    }
}

impl View for UciVpnSite {
    type V = VpnSiteView;

    open spec fn view(&self) -> VpnSiteView {
        VpnSiteView {
            interface: self.interface@,
            profile_interface: self.profile_interface@,
            satellite: self.satellite@,
            subnet: self.subnet@,
            listen_port: self.listen_port,
        }
    }
}

impl View for StartwrtSection {
    type V = SiteSectionView;

    open spec fn view(&self) -> SiteSectionView {
        SiteSectionView {
            ty: self.ty@,
            name: opt_view(self.name),
            site: match self.site {
                Some(m) => Some(m@),
                None => None,
            },
        }
    }
}

impl View for UciLine {
    type V = (bool, Seq<char>, Seq<char>);

    open spec fn view(&self) -> (bool, Seq<char>, Seq<char>) {
        (self.list, self.key@, self.value@)
    }
}

pub open spec fn net_view(s: Seq<NetworkSection>) -> Seq<NetSectionView> {
    s.map_values(|x: NetworkSection| x@)
}

pub open spec fn site_view(s: Seq<StartwrtSection>) -> Seq<SiteSectionView> {
    s.map_values(|x: StartwrtSection| x@)
}

// ── Specification ───────────────────────────────────────────────────────────

/// The Core-side interface name of a satellite's per-profile tunnel.
pub open spec fn site_iface(satellite: Seq<char>, profile: Seq<char>) -> Seq<char> {
    "sat_"@ + satellite + "_"@ + profile
}

/// The interface name that `params` provisions.
pub open spec fn params_iface(p: SiteTunnelParams) -> Seq<char> {
    site_iface(p.satellite@, p.profile_interface@)
}

/// The Core's transit address as a `/32`.
pub open spec fn transit_cidr(a: Ipv4Address) -> Seq<char> {
    dotted(a) + "/32"@
}

/// Whether a network section is the WireGuard interface named `iface`: an
/// `interface` section of that name whose protocol is `wireguard`.
pub open spec fn is_site_wg(s: NetSectionView, iface: Seq<char>) -> bool {
    &&& s.ty == "interface"@
    &&& s.name == Some(iface)
    &&& s.wg is Some
    &&& s.wg->0.proto == "wireguard"@
}

/// The index of the first WireGuard interface named `iface` at or after `i`
/// (`net.len()` when there is none).
pub open spec fn first_site_wg(net: Seq<NetSectionView>, iface: Seq<char>, i: int) -> int
    decreases net.len() - i,
{
    if i >= net.len() || i < 0 {
        net.len() as int
    } else if is_site_wg(net[i], iface) {
        i
    } else {
        first_site_wg(net, iface, i + 1)
    }
}

/// An existing WireGuard interface with the tunnel's key, port and address.
pub open spec fn updated_wg(w: WgView, p: SiteTunnelParams) -> WgView {
    WgView {
        private_key: p.core_private_key@,
        listen_port: Some(p.listen_port),
        addresses: seq![transit_cidr(p.core_transit_addr)],
        ..w
    }
}

/// A new WireGuard interface for the tunnel.
pub open spec fn new_wg(p: SiteTunnelParams) -> WgView {
    WgView {
        proto: "wireguard"@,
        private_key: p.core_private_key@,
        listen_port: Some(p.listen_port),
        addresses: seq![transit_cidr(p.core_transit_addr)],
        disabled: None,
        mtu: None,
    }
}

/// `network` with the tunnel's interface written: the first WireGuard
/// interface of that name is updated in place, else a new `interface` section
/// of that name is appended.
pub open spec fn apply_site_interface(net: Seq<NetSectionView>, p: SiteTunnelParams) -> Seq<NetSectionView> {
    let iface = params_iface(p);
    let i = first_site_wg(net, iface, 0);
    if i < net.len() {
        net.update(i, NetSectionView { wg: Some(updated_wg(net[i].wg->0, p)), ..net[i] })
    } else {
        net.push(NetSectionView { ty: "interface"@, name: Some(iface), wg: Some(new_wg(p)), lines: None })
    }
}

/// The section type of a tunnel's peer.
pub open spec fn peer_type(iface: Seq<char>) -> Seq<char> {
    "wireguard_"@ + iface
}

/// The section name of a tunnel's peer.
pub open spec fn peer_name(iface: Seq<char>) -> Seq<char> {
    iface + "_peer"@
}

/// `net` without its sections of type `ty`, in the same order.
pub open spec fn without_type(net: Seq<NetSectionView>, ty: Seq<char>) -> Seq<NetSectionView>
    decreases net.len(),
{
    if net.len() == 0 {
        Seq::empty()
    } else {
        let rest = without_type(net.drop_last(), ty);
        if net.last().ty == ty {
            rest
        } else {
            rest.push(net.last())
        }
    }
}

/// The tunnel's peer section: its type, its name and its lines.
pub open spec fn peer_section_view(p: SiteTunnelParams) -> NetSectionView {
    NetSectionView {
        ty: peer_type(params_iface(p)),
        name: Some(peer_name(params_iface(p))),
        wg: None,
        lines: Some(site_peer_lines(p)),
    }
}

/// `network` with the tunnel's single peer: every prior section of the peer's
/// type dropped, the new peer appended.
pub open spec fn apply_site_peer(net: Seq<NetSectionView>, p: SiteTunnelParams) -> Seq<NetSectionView> {
    without_type(net, peer_type(params_iface(p))).push(peer_section_view(p))
}

/// The lines of the tunnel's peer section.
pub open spec fn site_peer_lines(p: SiteTunnelParams) -> Seq<(bool, Seq<char>, Seq<char>)> {
    seq![
        (false, "public_key"@, p.satellite_public_key@),
        (false, "description"@, "satellite "@ + p.satellite@ + " ("@ + p.profile_interface@ + ")"@),
        (false, "preshared_key"@, p.preshared_key@),
        (false, "persistent_keepalive"@, "25"@),
        (false, "route_allowed_ips"@, "1"@),
        (true, "allowed_ips"@, p.satellite_subnet@),
    ]
}

/// Whether a `startwrt` section is the metadata of the tunnel `iface`.
pub open spec fn is_site_meta(s: SiteSectionView, iface: Seq<char>) -> bool {
    s.site is Some && s.site->0.interface == iface
}

/// The index of the first metadata section of `iface` at or after `i`.
pub open spec fn first_site_meta(sw: Seq<SiteSectionView>, iface: Seq<char>, i: int) -> int
    decreases sw.len() - i,
{
    if i >= sw.len() || i < 0 {
        sw.len() as int
    } else if is_site_meta(sw[i], iface) {
        i
    } else {
        first_site_meta(sw, iface, i + 1)
    }
}

/// The tunnel's metadata.
pub open spec fn site_meta(p: SiteTunnelParams) -> VpnSiteView {
    VpnSiteView {
        interface: params_iface(p),
        profile_interface: p.profile_interface@,
        satellite: p.satellite@,
        subnet: p.satellite_subnet@,
        listen_port: p.listen_port,
    }
}

/// `startwrt` with the tunnel's metadata written: the first metadata section
/// of the interface is updated in place, else a `vpn_site` section named
/// after the interface is appended.
pub open spec fn apply_site_metadata(sw: Seq<SiteSectionView>, p: SiteTunnelParams) -> Seq<SiteSectionView> {
    let iface = params_iface(p);
    let i = first_site_meta(sw, iface, 0);
    if i < sw.len() {
        sw.update(i, SiteSectionView { site: Some(site_meta(p)), ..sw[i] })
    } else {
        sw.push(SiteSectionView { ty: "vpn_site"@, name: Some(iface), site: Some(site_meta(p)) })
    }
}

/// `network` after provisioning the tunnel.
pub open spec fn provision_network(net: Seq<NetSectionView>, p: SiteTunnelParams) -> Seq<NetSectionView> {
    apply_site_peer(apply_site_interface(net, p), p)
}

/// Whether `plan` is what provisioning the tunnel writes over `net` and `sw`.
pub open spec fn plan_matches(
    plan: CoreSitePlan,
    net: Seq<NetSectionView>,
    sw: Seq<SiteSectionView>,
    p: SiteTunnelParams,
) -> bool {
    let iface = params_iface(p);
    &&& (plan.interface matches SectionWrite::Update { index, value } ==> index == first_site_wg(
        net,
        iface,
        0,
    ) && index < net.len() && value@ == updated_wg(net[index as int].wg->0, p))
    &&& (plan.interface matches SectionWrite::Append { name, value } ==> first_site_wg(net, iface, 0)
        == net.len() && name@ == iface && value@ == new_wg(p))
    &&& (plan.metadata matches SectionWrite::Update { index, value } ==> index == first_site_meta(
        sw,
        iface,
        0,
    ) && index < sw.len() && value@ == site_meta(p))
    &&& (plan.metadata matches SectionWrite::Append { name, value } ==> first_site_meta(sw, iface, 0)
        == sw.len() && name@ == iface && value@ == site_meta(p))
    &&& plan.peer.ty@ == peer_type(iface)
    &&& plan.peer.name@ == peer_name(iface)
    &&& plan.peer.lines@.map_values(|l: UciLine| l@) == site_peer_lines(p)
}

// ── Executable planning ─────────────────────────────────────────────────────

/// The Core-side WireGuard interface name for a satellite's per-profile
/// tunnel: `sat_<satellite>_<profile>`.
pub fn site_interface_name(satellite: &str, profile_interface: &str) -> (r: String)
    ensures
        r@ == site_iface(satellite@, profile_interface@),
{
    let mut s = "sat_".to_owned();
    s.append(satellite);
    s.append("_");
    s.append(profile_interface);
    s
}

fn line(list: bool, key: &str, value: String) -> (r: UciLine)
    ensures
        r@ == (list, key@, value@),
{
    UciLine { list, key: key.to_owned(), value }
}

/// The tunnel's peer section.
fn site_peer(iface: &str, params: &SiteTunnelParams) -> (r: PeerSection)
    ensures
        r.ty@ == peer_type(iface@),
        r.name@ == peer_name(iface@),
        r.lines@.map_values(|l: UciLine| l@) == site_peer_lines(*params),
{
    let mut ty = "wireguard_".to_owned();
    ty.append(iface);
    let mut name = iface.to_owned();
    name.append("_peer");
    let mut desc = "satellite ".to_owned();
    desc.append(params.satellite);
    desc.append(" (");
    desc.append(params.profile_interface);
    desc.append(")");
    let mut lines: Vec<UciLine> = Vec::new();
    lines.push(line(false, "public_key", params.satellite_public_key.to_owned()));
    lines.push(line(false, "description", desc));
    lines.push(line(false, "preshared_key", params.preshared_key.to_owned()));
    lines.push(line(false, "persistent_keepalive", "25".to_owned()));
    lines.push(line(false, "route_allowed_ips", "1".to_owned()));
    lines.push(line(true, "allowed_ips", params.satellite_subnet.to_owned()));
    assert(lines@.map_values(|l: UciLine| l@) =~= site_peer_lines(*params));
    PeerSection { ty, name, lines }
}

fn is_site_wg_exec(s: &NetworkSection, iface: &str) -> (r: bool)
    ensures
        r == is_site_wg(s@, iface@),
{
    match (&s.name, &s.wg) {
        (Some(n), Some(w)) => str_eq(s.ty.as_str(), "interface") && str_eq(n.as_str(), iface) && str_eq(
            w.proto.as_str(),
            "wireguard",
        ),
        _ => false,
    }
}

fn find_site_wg(network: &Vec<NetworkSection>, iface: &str) -> (r: usize)
    ensures
        r == first_site_wg(net_view(network@), iface@, 0),
{
    let ghost v = net_view(network@);
    let mut i: usize = 0;
    while i < network.len()
        invariant
            i <= network.len(),
            v == net_view(network@),
            first_site_wg(v, iface@, 0) == first_site_wg(v, iface@, i as int),
        decreases network.len() - i,
    {
        if is_site_wg_exec(&network[i], iface) {
            return i;
        }
        i = i + 1;
    }
    i
}

fn find_site_meta(startwrt: &Vec<StartwrtSection>, iface: &str) -> (r: usize)
    ensures
        r == first_site_meta(site_view(startwrt@), iface@, 0),
{
    let ghost v = site_view(startwrt@);
    let mut i: usize = 0;
    while i < startwrt.len()
        invariant
            i <= startwrt.len(),
            v == site_view(startwrt@),
            first_site_meta(v, iface@, 0) == first_site_meta(v, iface@, i as int),
        decreases startwrt.len() - i,
    {
        let hit = match &startwrt[i].site {
            Some(m) => str_eq(m.interface.as_str(), iface),
            None => false,
        };
        if hit {
            return i;
        }
        i = i + 1;
    }
    i
}

fn transit_addresses(a: Ipv4Address) -> (r: Vec<String>)
    ensures
        r@.map_values(|s: String| s@) == seq![transit_cidr(a)],
{
    let mut cidr = a.to_string();
    cidr.append("/32");
    let mut v: Vec<String> = Vec::new();
    v.push(cidr);
    assert(v@.map_values(|s: String| s@) =~= seq![transit_cidr(a)]);
    v
}

fn site_meta_exec(iface: &str, params: &SiteTunnelParams) -> (r: UciVpnSite)
    requires
        iface@ == params_iface(*params),
    ensures
        r@ == site_meta(*params),
{
    UciVpnSite {
        interface: iface.to_owned(),
        profile_interface: params.profile_interface.to_owned(),
        satellite: params.satellite.to_owned(),
        subnet: params.satellite_subnet.to_owned(),
        listen_port: params.listen_port,
    }
}

/// Plans the full Core-side config of one per-profile satellite tunnel over
/// the current `network` and `startwrt` sections.
pub fn plan_core_site_tunnel(
    network: &Vec<NetworkSection>,
    startwrt: &Vec<StartwrtSection>,
    params: &SiteTunnelParams,
) -> (r: CoreSitePlan)
    ensures
        plan_matches(r, net_view(network@), site_view(startwrt@), *params),
        r.interface matches SectionWrite::Append { value, .. } ==> value.proto@ == "wireguard"@
            && value.disabled is None && value.mtu is None,
        r.interface matches SectionWrite::Update { index, value } ==> value.proto@ == network@[index as int].wg->0.proto@
            && value.disabled == network@[index as int].wg->0.disabled && value.mtu == network@[index as int].wg->0.mtu,
{
    let iface = site_interface_name(params.satellite, params.profile_interface);
    let i = find_site_wg(network, iface.as_str());
    proof {
        lemma_first_site_wg_matches(net_view(network@), iface@, 0);
        lemma_first_site_meta_bound(site_view(startwrt@), iface@, 0);
    }
    let interface = if i < network.len() {
        proof {
            assert(net_view(network@)[i as int] == network@[i as int]@);
        }
        match &network[i].wg {
            Some(old_wg) => SectionWrite::Update {
                index: i,
                value: WgInterface {
                    proto: old_wg.proto.clone(),
                    private_key: params.core_private_key.to_owned(),
                    listen_port: Some(params.listen_port),
                    addresses: transit_addresses(params.core_transit_addr),
                    disabled: old_wg.disabled,
                    mtu: old_wg.mtu,
                },
            },
            None => unreached(),
        }
    } else {
        SectionWrite::Append {
            name: iface.clone(),
            value: WgInterface {
                proto: "wireguard".to_owned(),
                private_key: params.core_private_key.to_owned(),
                listen_port: Some(params.listen_port),
                addresses: transit_addresses(params.core_transit_addr),
                disabled: None,
                mtu: None,
            },
        }
    };
    let j = find_site_meta(startwrt, iface.as_str());
    let metadata = if j < startwrt.len() {
        SectionWrite::Update { index: j, value: site_meta_exec(iface.as_str(), params) }
    } else {
        SectionWrite::Append { name: iface.clone(), value: site_meta_exec(iface.as_str(), params) }
    };
    let peer = site_peer(iface.as_str(), params);
    assert(iface@ == params_iface(*params));
    let r = CoreSitePlan { interface, metadata, peer };
    r
}

// ── Applying a plan to the model ────────────────────────────────────────────

fn remove_type(network: &mut Vec<NetworkSection>, ty: &str)
    ensures
        net_view(final(network)@) == without_type(net_view(old(network)@), ty@),
{
    let ghost ov = net_view(network@);
    let n = network.len();
    let mut i: usize = 0;
    let mut j: usize = 0;
    while j < n
        invariant
            n == ov.len(),
            0 <= i <= j <= n,
            net_view(network@) == without_type(ov.take(j as int), ty@) + ov.skip(j as int),
            i == without_type(ov.take(j as int), ty@).len(),
        decreases n - j,
    {
        let ghost w = without_type(ov.take(j as int), ty@);
        assert(ov.take(j + 1).drop_last() =~= ov.take(j as int));
        assert(ov.take(j + 1).last() == ov[j as int]);
        assert(net_view(network@).len() == network@.len());
        assert(network@.len() == i + (n - j));
        assert(net_view(network@)[i as int] == network@[i as int]@);
        assert(net_view(network@)[i as int] == ov.skip(j as int)[0]);
        if str_eq(network[i].ty.as_str(), ty) {
            let ghost before = network@;
            network.remove(i);
            assert(net_view(network@) =~= net_view(before).remove(i as int));
            assert(net_view(network@) =~= w + ov.skip(j + 1));
        } else {
            assert(w.push(ov[j as int]) + ov.skip(j + 1) =~= w + ov.skip(j as int));
            i = i + 1;
        }
        j = j + 1;
    }
    assert(ov.take(n as int) =~= ov);
    assert(ov.skip(n as int) =~= Seq::<NetSectionView>::empty());
    assert(net_view(network@) =~= without_type(ov, ty@));
}

fn clone_strings(v: &Vec<String>) -> (r: Vec<String>)
    ensures
        r@.map_values(|s: String| s@) == v@.map_values(|s: String| s@),
{
    let mut r: Vec<String> = Vec::new();
    let mut i: usize = 0;
    while i < v.len()
        invariant
            i <= v@.len(),
            r@.map_values(|s: String| s@) == v@.take(i as int).map_values(|s: String| s@),
        decreases v@.len() - i,
    {
        let ghost before = r@;
        r.push(v[i].clone());
        assert(v@.take(i + 1) =~= v@.take(i as int).push(v@[i as int]));
        assert(r@.map_values(|s: String| s@) =~= before.map_values(|s: String| s@).push(v@[i as int]@));
        assert(v@.take(i + 1).map_values(|s: String| s@) =~= v@.take(i as int).map_values(|s: String| s@).push(
            v@[i as int]@,
        ));
        i = i + 1;
    }
    assert(v@.take(v@.len() as int) =~= v@);
    r
}

fn clone_wg(w: &WgInterface) -> (r: WgInterface)
    ensures
        r@ == w@,
{
    WgInterface {
        proto: w.proto.clone(),
        private_key: w.private_key.clone(),
        listen_port: w.listen_port,
        addresses: clone_strings(&w.addresses),
        disabled: w.disabled,
        mtu: w.mtu,
    }
}

fn clone_site(s: &UciVpnSite) -> (r: UciVpnSite)
    ensures
        r@ == s@,
{
    UciVpnSite {
        interface: s.interface.clone(),
        profile_interface: s.profile_interface.clone(),
        satellite: s.satellite.clone(),
        subnet: s.subnet.clone(),
        listen_port: s.listen_port,
    }
}

fn clone_lines(v: &Vec<UciLine>) -> (r: Vec<UciLine>)
    ensures
        r@.map_values(|l: UciLine| l@) == v@.map_values(|l: UciLine| l@),
{
    let mut r: Vec<UciLine> = Vec::new();
    let mut i: usize = 0;
    while i < v.len()
        invariant
            i <= v@.len(),
            r@.map_values(|l: UciLine| l@) == v@.take(i as int).map_values(|l: UciLine| l@),
        decreases v@.len() - i,
    {
        let ghost before = r@;
        let l = UciLine { list: v[i].list, key: v[i].key.clone(), value: v[i].value.clone() };
        r.push(l);
        assert(v@.take(i + 1) =~= v@.take(i as int).push(v@[i as int]));
        assert(r@.map_values(|l: UciLine| l@) =~= before.map_values(|l: UciLine| l@).push(v@[i as int]@));
        assert(v@.take(i + 1).map_values(|l: UciLine| l@) =~= v@.take(i as int).map_values(|l: UciLine| l@).push(
            v@[i as int]@,
        ));
        i = i + 1;
    }
    assert(v@.take(v@.len() as int) =~= v@);
    r
}

/// Provisions one per-profile satellite tunnel into the model of the
/// `network` and `startwrt` configs, and returns the plan that it applied,
/// for the caller to write the same sections to the configs themselves.
pub fn provision_core_site_tunnel(
    network: &mut Vec<NetworkSection>,
    startwrt: &mut Vec<StartwrtSection>,
    params: &SiteTunnelParams,
) -> (r: CoreSitePlan)
    ensures
        plan_matches(r, net_view(old(network)@), site_view(old(startwrt)@), *params),
        net_view(final(network)@) == provision_network(net_view(old(network)@), *params),
        site_view(final(startwrt)@) == apply_site_metadata(site_view(old(startwrt)@), *params),
{
    let plan = plan_core_site_tunnel(network, startwrt, params);
    let ghost net0 = net_view(network@);
    let ghost sw0 = site_view(startwrt@);
    let ghost iface = params_iface(*params);
    proof {
        lemma_first_site_wg_matches(net0, iface, 0);
        lemma_first_site_meta_bound(sw0, iface, 0);
    }
    match &plan.interface {
        SectionWrite::Update { index, value } => {
            let mut sec = network.remove(*index);
            sec.wg = Some(clone_wg(value));
            network.insert(*index, sec);
        },
        SectionWrite::Append { name, value } => {
            network.push(
                NetworkSection {
                    ty: "interface".to_owned(),
                    name: Some(name.clone()),
                    wg: Some(clone_wg(value)),
                    lines: None,
                },
            );
        },
    }
    assert(net_view(network@) =~= apply_site_interface(net0, *params));
    match &plan.metadata {
        SectionWrite::Update { index, value } => {
            let mut sec = startwrt.remove(*index);
            sec.site = Some(clone_site(value));
            startwrt.insert(*index, sec);
        },
        SectionWrite::Append { name, value } => {
            startwrt.push(
                StartwrtSection { ty: "vpn_site".to_owned(), name: Some(name.clone()), site: Some(clone_site(value)) },
            );
        },
    }
    assert(site_view(startwrt@) =~= apply_site_metadata(sw0, *params));
    let ghost net1 = net_view(network@);
    remove_type(network, plan.peer.ty.as_str());
    network.push(
        NetworkSection {
            ty: plan.peer.ty.clone(),
            name: Some(plan.peer.name.clone()),
            wg: None,
            lines: Some(clone_lines(&plan.peer.lines)),
        },
    );
    assert(net_view(network@) =~= without_type(net1, peer_type(iface)).push(peer_section_view(*params)));
    plan
}

// ── Lemmas ──────────────────────────────────────────────────────────────────

proof fn lemma_first_site_meta_bound(sw: Seq<SiteSectionView>, iface: Seq<char>, i: int)
    requires
        0 <= i <= sw.len(),
    ensures
        i <= first_site_meta(sw, iface, i) <= sw.len(),
        first_site_meta(sw, iface, i) < sw.len() ==> is_site_meta(sw[first_site_meta(sw, iface, i)], iface),
        forall|k: int| i <= k < first_site_meta(sw, iface, i) ==> !is_site_meta(#[trigger] sw[k], iface),
    decreases sw.len() - i,
{
    if i < sw.len() && !is_site_meta(sw[i], iface) {
        lemma_first_site_meta_bound(sw, iface, i + 1);
    }
}

proof fn lemma_first_site_wg_matches(net: Seq<NetSectionView>, iface: Seq<char>, i: int)
    requires
        0 <= i <= net.len(),
    ensures
        i <= first_site_wg(net, iface, i) <= net.len(),
        first_site_wg(net, iface, i) < net.len() ==> is_site_wg(net[first_site_wg(net, iface, i)], iface),
        forall|k: int| i <= k < first_site_wg(net, iface, i) ==> !is_site_wg(#[trigger] net[k], iface),
    decreases net.len() - i,
{
    if i < net.len() && !is_site_wg(net[i], iface) {
        lemma_first_site_wg_matches(net, iface, i + 1);
    }
}

proof fn lemma_without_type_concat(a: Seq<NetSectionView>, b: Seq<NetSectionView>, t: Seq<char>)
    ensures
        without_type(a + b, t) == without_type(a, t) + without_type(b, t),
    decreases b.len(),
{
    if b.len() == 0 {
        assert(a + b =~= a);
        assert(without_type(a, t) + without_type(b, t) =~= without_type(a, t));
    } else {
        assert((a + b).drop_last() =~= a + b.drop_last());
        assert((a + b).last() == b.last());
        lemma_without_type_concat(a, b.drop_last(), t);
        if b.last().ty == t {
        } else {
            assert((without_type(a, t) + without_type(b.drop_last(), t)).push(b.last()) =~= without_type(a, t)
                + without_type(b.drop_last(), t).push(b.last()));
        }
    }
}

proof fn lemma_without_type_elements(a: Seq<NetSectionView>, t: Seq<char>)
    ensures
        forall|k: int|
            0 <= k < without_type(a, t).len() ==> (#[trigger] without_type(a, t)[k]).ty != t && exists|m: int|
                0 <= m < a.len() && without_type(a, t)[k] == a[m],
        (forall|k: int| 0 <= k < a.len() ==> (#[trigger] a[k]).ty != t) ==> without_type(a, t) == a,
    decreases a.len(),
{
    if a.len() > 0 {
        let p = a.drop_last();
        lemma_without_type_elements(p, t);
        let w = without_type(a, t);
        let wp = without_type(p, t);
        assert forall|k: int| 0 <= k < w.len() implies (#[trigger] w[k]).ty != t && exists|m: int|
            0 <= m < a.len() && w[k] == a[m] by {
            if k < wp.len() {
                assert(w[k] == wp[k]);
                let m = choose|m: int| 0 <= m < p.len() && wp[k] == p[m];
                assert(a[m] == p[m]);
            } else {
                assert(w[k] == a[a.len() - 1]);
            }
        }
        if forall|k: int| 0 <= k < a.len() ==> (#[trigger] a[k]).ty != t {
            assert forall|k: int| 0 <= k < p.len() implies (#[trigger] p[k]).ty != t by {
                assert(p[k] == a[k]);
            }
            assert(a[a.len() - 1].ty != t);
            assert(p.push(a.last()) =~= a);
        }
    }
}

proof fn lemma_first_site_wg_at(x: Seq<NetSectionView>, iface: Seq<char>, i: int, n: int)
    requires
        0 <= i <= n < x.len(),
        forall|k: int| i <= k < n ==> !is_site_wg(#[trigger] x[k], iface),
        is_site_wg(x[n], iface),
    ensures
        first_site_wg(x, iface, i) == n,
    decreases n - i,
{
    if i < n {
        lemma_first_site_wg_at(x, iface, i + 1, n);
    }
}

proof fn lemma_first_site_meta_at(x: Seq<SiteSectionView>, iface: Seq<char>, i: int, n: int)
    requires
        0 <= i <= n < x.len(),
        forall|k: int| i <= k < n ==> !is_site_meta(#[trigger] x[k], iface),
        is_site_meta(x[n], iface),
    ensures
        first_site_meta(x, iface, i) == n,
    decreases n - i,
{
    if i < n {
        lemma_first_site_meta_at(x, iface, i + 1, n);
    }
}

/// After the interface step, the tunnel's interface sits at the returned
/// index: the first match, an `interface` section already carrying the
/// tunnel's key, port and address.
proof fn lemma_interface_step(net: Seq<NetSectionView>, p: SiteTunnelParams) -> (k: int)
    ensures
        k == first_site_wg(net, params_iface(p), 0),
        0 <= k < apply_site_interface(net, p).len(),
        is_site_wg(apply_site_interface(net, p)[k], params_iface(p)),
        forall|j: int| 0 <= j < k ==> !is_site_wg(#[trigger] apply_site_interface(net, p)[j], params_iface(p)),
        apply_site_interface(net, p)[k].ty == "interface"@,
        updated_wg(apply_site_interface(net, p)[k].wg->0, p) == apply_site_interface(net, p)[k].wg->0,
{
    let iface = params_iface(p);
    lemma_first_site_wg_matches(net, iface, 0);
    let i = first_site_wg(net, iface, 0);
    let m = apply_site_interface(net, p);
    if i < net.len() {
        assert forall|j: int| 0 <= j < i implies !is_site_wg(#[trigger] m[j], iface) by {
            assert(m[j] == net[j]);
        }
        assert(m[i].wg->0 == updated_wg(net[i].wg->0, p));
        assert(updated_wg(m[i].wg->0, p) =~= m[i].wg->0);
        i
    } else {
        assert forall|j: int| 0 <= j < net.len() implies !is_site_wg(#[trigger] m[j], iface) by {
            assert(m[j] == net[j]);
        }
        assert(updated_wg(m[i].wg->0, p) =~= m[i].wg->0);
        i
    }
}

proof fn lemma_peer_type_differs(iface: Seq<char>)
    ensures
        peer_type(iface) != "interface"@,
{
    reveal_strlit("interface");
    reveal_strlit("wireguard_");
    assert(peer_type(iface)[0] == 'w');
    assert("interface"@[0] == 'i');
}

proof fn lemma_without_type_single(s: NetSectionView, t: Seq<char>)
    requires
        s.ty != t,
    ensures
        without_type(seq![s], t) == seq![s],
{
    assert(seq![s].drop_last() =~= Seq::<NetSectionView>::empty());
    assert(without_type(Seq::<NetSectionView>::empty(), t) == Seq::<NetSectionView>::empty());
    assert(Seq::<NetSectionView>::empty().push(s) =~= seq![s]);
}

/// The shape of `network` after provisioning: the sections before the
/// tunnel's interface (without peers), the interface, the sections after it
/// (without peers), and the single peer; the interface is the first match.
proof fn lemma_provision_layout(net: Seq<NetSectionView>, p: SiteTunnelParams) -> (kk: int)
    ensures
        ({
            let iface = params_iface(p);
            let pt = peer_type(iface);
            let m = apply_site_interface(net, p);
            let n1 = provision_network(net, p);
            let wa = without_type(m.take(kk), pt);
            &&& 0 <= kk < m.len()
            &&& kk == first_site_wg(net, iface, 0)
            &&& is_site_wg(m[kk], iface)
            &&& m[kk].ty == "interface"@
            &&& updated_wg(m[kk].wg->0, p) == m[kk].wg->0
            &&& n1 == wa + seq![m[kk]] + without_type(m.skip(kk + 1), pt) + seq![peer_section_view(p)]
            &&& first_site_wg(n1, iface, 0) == wa.len()
            &&& n1[wa.len() as int] == m[kk]
        }),
{
    let iface = params_iface(p);
    let pt = peer_type(iface);
    let k = lemma_interface_step(net, p);
    let m = apply_site_interface(net, p);
    let a = m.take(k);
    let b = m.skip(k + 1);
    let s = m[k];
    assert(m =~= a + seq![s] + b);
    lemma_peer_type_differs(iface);
    lemma_without_type_concat(a + seq![s], b, pt);
    lemma_without_type_concat(a, seq![s], pt);
    lemma_without_type_single(s, pt);
    let wa = without_type(a, pt);
    let wb = without_type(b, pt);
    lemma_without_type_elements(a, pt);
    let n1 = provision_network(net, p);
    assert(n1 =~= wa + seq![s] + wb + seq![peer_section_view(p)]);
    assert forall|j: int| 0 <= j < wa.len() implies !is_site_wg(#[trigger] n1[j], iface) by {
        assert(n1[j] == wa[j]);
        let mm = choose|mm: int| 0 <= mm < a.len() && wa[j] == a[mm];
        assert(a[mm] == m[mm]);
    }
    assert(n1[wa.len() as int] == s);
    lemma_first_site_wg_at(n1, iface, 0, wa.len() as int);
    k
}

/// What provisioning leaves in `network`: exactly one section of the peer's
/// type, the last one, named after the tunnel and holding the peer's lines
/// (public key, description, pre-shared key, keepalive, route flag, allowed
/// subnet); and, as the first WireGuard interface of the tunnel's
/// name, an interface carrying the Core's transit `/32`, listen port and
/// private key. An interface that provisioning appends is a `wireguard`
/// interface that is not disabled and sets no MTU; an existing one keeps its
/// protocol, disabled flag and MTU.
pub proof fn lemma_provision_network_result(net: Seq<NetSectionView>, p: SiteTunnelParams)
    ensures
        ({
            let n1 = provision_network(net, p);
            let iface = params_iface(p);
            let k = first_site_wg(n1, iface, 0);
            &&& n1.len() > 0
            &&& n1.last() == peer_section_view(p)
            &&& n1.last().lines == Some(site_peer_lines(p))
            &&& forall|j: int| 0 <= j < n1.len() - 1 ==> (#[trigger] n1[j]).ty != peer_type(iface)
            &&& k < n1.len()
            &&& n1[k].wg->0.addresses == seq![transit_cidr(p.core_transit_addr)]
            &&& n1[k].wg->0.listen_port == Some(p.listen_port)
            &&& n1[k].wg->0.private_key == p.core_private_key@
        }),
        ({
            let n1 = provision_network(net, p);
            let iface = params_iface(p);
            let k = first_site_wg(n1, iface, 0);
            let i = first_site_wg(net, iface, 0);
            &&& i == net.len() ==> n1[k].wg->0.proto == "wireguard"@ && n1[k].wg->0.disabled is None
                && n1[k].wg->0.mtu is None
            &&& i < net.len() ==> n1[k].wg->0.proto == net[i].wg->0.proto && n1[k].wg->0.disabled
                == net[i].wg->0.disabled && n1[k].wg->0.mtu == net[i].wg->0.mtu
        }),
{
    let iface = params_iface(p);
    let pt = peer_type(iface);
    let kk = lemma_provision_layout(net, p);
    let m = apply_site_interface(net, p);
    let n1 = provision_network(net, p);
    let w = without_type(m, pt);
    lemma_without_type_elements(m, pt);
    assert(n1 == w.push(peer_section_view(p)));
    assert forall|j: int| 0 <= j < n1.len() - 1 implies (#[trigger] n1[j]).ty != pt by {
        assert(n1[j] == w[j]);
    }
}

proof fn lemma_reprovision_network(net: Seq<NetSectionView>, p: SiteTunnelParams)
    ensures
        provision_network(provision_network(net, p), p) == provision_network(net, p),
{
    let iface = params_iface(p);
    let pt = peer_type(iface);
    let kk = lemma_provision_layout(net, p);
    let m = apply_site_interface(net, p);
    let n1 = provision_network(net, p);
    let k = first_site_wg(n1, iface, 0);
    assert(apply_site_interface(n1, p) =~= n1);
    lemma_without_type_elements(m, pt);
    lemma_without_type_elements(without_type(m, pt), pt);
    assert(n1.drop_last() =~= without_type(m, pt));
    assert(without_type(n1, pt) == without_type(m, pt));
}

proof fn lemma_reprovision_metadata(sw: Seq<SiteSectionView>, p: SiteTunnelParams)
    ensures
        apply_site_metadata(apply_site_metadata(sw, p), p) == apply_site_metadata(sw, p),
{
    let iface = params_iface(p);
    let i0 = first_site_meta(sw, iface, 0);
    lemma_first_site_meta_bound(sw, iface, 0);
    let s1 = apply_site_metadata(sw, p);
    if i0 < sw.len() {
        assert forall|j: int| 0 <= j < i0 implies !is_site_meta(#[trigger] s1[j], iface) by {
            assert(s1[j] == sw[j]);
        }
        lemma_first_site_meta_at(s1, iface, 0, i0);
        assert(apply_site_metadata(s1, p) =~= s1);
    } else {
        assert forall|j: int| 0 <= j < sw.len() implies !is_site_meta(#[trigger] s1[j], iface) by {
            assert(s1[j] == sw[j]);
        }
        lemma_first_site_meta_at(s1, iface, 0, sw.len() as int);
        assert(apply_site_metadata(s1, p) =~= s1);
    }
}

/// Re-provisioning a tunnel is idempotent: provisioning the same tunnel a
/// second time leaves the `network` and `startwrt` sections (types, names,
/// interface and metadata contents, and the peer's lines) as the first time
/// left them; in particular, the peer is not duplicated.
pub proof fn lemma_reprovision_is_idempotent(
    net: Seq<NetSectionView>,
    sw: Seq<SiteSectionView>,
    p: SiteTunnelParams,
)
    ensures
        provision_network(provision_network(net, p), p) == provision_network(net, p),
        apply_site_metadata(apply_site_metadata(sw, p), p) == apply_site_metadata(sw, p),
{
    lemma_reprovision_network(net, p);
    lemma_reprovision_metadata(sw, p);
}

} // verus!
