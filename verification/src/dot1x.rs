//! Wired 802.1X network authentication: the data model, the conversion
//! between it and the persisted UCI records, and the derivation of the RADIUS
//! user database from profile passwords.
//!
//! A StartWRT router is either the **Core** (holds the RADIUS server, owns the
//! profiles, authenticates its own LAN ports) or a **Satellite** (its LAN
//! ports authenticate wired clients and forward to the Core over a trusted
//! 802.1Q trunk). Reading and writing the UCI files is the caller's part:
//! the functions here take and return the records as plain values.

use vstd::prelude::*;
use crate::json::{json_arr, json_obj, json_pretty, json_str, pretty, Json, JsonView};
use crate::text::{
    contains_seq, opt_view, lemma_seq_lt_asymmetric, lemma_seq_lt_total, lemma_seq_lt_transitive, seq_lt, str_contains,
    str_eq, str_lt,
};

verus! {

// ── Data model ──────────────────────────────────────────────────────────────

/// The role a StartWRT router plays in an 802.1X network.
#[derive(Debug, Clone, Copy, PartialEq, Eq, Structural)]
pub enum Dot1xRole {
    /// Holds the RADIUS server, owns the profiles, authenticator on its LAN ports.
    Core,
    /// Authenticator on its LAN ports; forwards auth upstream toward the Core.
    Satellite,
}

/// A profile's identity: its name, its network interface and its VLAN tag.
#[derive(Debug)]
pub struct ProfileId {
    pub fullname: String,
    pub interface: String,
    pub vlan_tag: u16,
}

pub struct ProfileView {
    pub fullname: Seq<char>,
    pub interface: Seq<char>,
    pub vlan_tag: u16,
}

impl View for ProfileId {
    type V = ProfileView;

    open spec fn view(&self) -> ProfileView {
        ProfileView { fullname: self.fullname@, interface: self.interface@, vlan_tag: self.vlan_tag }
    }
}

impl Clone for ProfileId {
    fn clone(&self) -> (r: Self)
        ensures
            r == *self,
    {
        ProfileId {
            fullname: self.fullname.clone(),
            interface: self.interface.clone(),
            vlan_tag: self.vlan_tag,
        }
    }
}

/// Per-LAN-port authentication mode, generic over the profile-id
/// representation `Id`.
#[derive(Debug)]
pub enum PortAuthMode<Id = ProfileId> {
    /// Fixed profile assignment: every device on the port lands in the port's
    /// profile.
    Static,
    /// Per-device 802.1X authentication; an unauthenticated device falls back
    /// to `guest`.
    Dot1xClient { guest: Id },
    /// A trusted, statically-configured 802.1Q trunk to a paired Satellite.
    SatelliteUplink,
}

impl<Id: View> View for PortAuthMode<Id> {
    type V = PortAuthMode<Id::V>;

    open spec fn view(&self) -> PortAuthMode<Id::V> {
        match self {
            PortAuthMode::Static => PortAuthMode::Static,
            PortAuthMode::Dot1xClient { guest } => PortAuthMode::Dot1xClient { guest: guest@ },
            PortAuthMode::SatelliteUplink => PortAuthMode::SatelliteUplink,
        }
    }
}

impl<Id> Default for PortAuthMode<Id> {
    fn default() -> (r: Self)
        ensures
            r is Static,
    {
        PortAuthMode::Static
    }
}

/// The default authentication mode of a port: `Static`.
pub fn default_auth_mode<Id>() -> (r: PortAuthMode<Id>)
    ensures
        r is Static,
{
    PortAuthMode::Static
}

/// The view of a port's mode.
pub type ModeView = PortAuthMode<ProfileView>;

// ── Port map ────────────────────────────────────────────────────────────────

/// Whether the keys of `s` are strictly ascending (hence distinct).
pub open spec fn keys_sorted<V>(s: Seq<(Seq<char>, V)>) -> bool {
    forall|i: int, j: int| 0 <= i < j < s.len() ==> seq_lt(#[trigger] s[i].0, #[trigger] s[j].0)
}

/// The value that `s` maps `k` to.
pub open spec fn entries_get<V>(s: Seq<(Seq<char>, V)>, k: Seq<char>) -> Option<V>
    decreases s.len(),
{
    if s.len() == 0 {
        None
    } else if s[0].0 == k {
        Some(s[0].1)
    } else {
        entries_get(s.drop_first(), k)
    }
}

/// `s` with `k` mapped to `v`: the entry of `k` replaced, or a new entry
/// inserted at its place in key order.
pub open spec fn entries_insert<V>(s: Seq<(Seq<char>, V)>, k: Seq<char>, v: V) -> Seq<(Seq<char>, V)>
    decreases s.len(),
{
    if s.len() == 0 {
        seq![(k, v)]
    } else if s[0].0 == k {
        seq![(k, v)] + s.drop_first()
    } else if seq_lt(k, s[0].0) {
        seq![(k, v)] + s
    } else {
        seq![s[0]] + entries_insert(s.drop_first(), k, v)
    }
}

/// A port → authentication-mode map, kept in ascending order of port name.
#[derive(Debug)]
pub struct PortModes {
    entries: Vec<(String, PortAuthMode)>,
}

impl View for PortModes {
    type V = Seq<(Seq<char>, ModeView)>;

    /// The entries, by their views, in ascending port order. (The type
    /// invariant keeps the entries in that order; the empty sequence stands
    /// for the case that it excludes, so that the view is sorted by
    /// definition.)
    closed spec fn view(&self) -> Seq<(Seq<char>, ModeView)> {
        if keys_sorted(pairs_view(self.entries@)) {
            pairs_view(self.entries@)
        } else {
            Seq::empty()
        }
    }
}

/// The ports of a map stand in strictly ascending order, so that each occurs
/// once.
pub proof fn lemma_ports_ascending(m: PortModes)
    ensures
        keys_sorted(m@),
{
}

proof fn lemma_entries_insert_shape<V>(s: Seq<(Seq<char>, V)>, k: Seq<char>, v: V, i: int)
    requires
        0 <= i <= s.len(),
        forall|j: int| 0 <= j < i ==> seq_lt(#[trigger] s[j].0, k),
        i == s.len() || !seq_lt(s[i].0, k),
    ensures
        i < s.len() && s[i].0 == k ==> entries_insert(s, k, v) == s.take(i) + seq![(k, v)] + s.skip(i + 1),
        !(i < s.len() && s[i].0 == k) ==> entries_insert(s, k, v) == s.take(i) + seq![(k, v)] + s.skip(i),
    decreases i,
{
    if i == 0 {
        if s.len() > 0 && s[0].0 != k {
            lemma_seq_lt_total(s[0].0, k);
            assert(s.skip(0) =~= s);
        }
        if s.len() > 0 && s[0].0 == k {
            assert(s.skip(1) =~= s.drop_first());
        }
        assert(s.take(0) =~= Seq::<(Seq<char>, V)>::empty());
    } else {
        let t = s.drop_first();
        assert forall|j: int| 0 <= j < i - 1 implies seq_lt(#[trigger] t[j].0, k) by {
            assert(t[j] == s[j + 1]);
        }
        lemma_entries_insert_shape(t, k, v, i - 1);
        lemma_seq_lt_asymmetric(s[0].0, k);
        assert(s.take(i) =~= seq![s[0]] + t.take(i - 1));
        assert(s.skip(i) =~= t.skip(i - 1));
        if i < s.len() {
            assert(s.skip(i + 1) =~= t.skip(i));
        }
        if i < s.len() && s[i].0 == k {
            assert(entries_insert(s, k, v) =~= s.take(i) + seq![(k, v)] + s.skip(i + 1));
        } else {
            assert(entries_insert(s, k, v) =~= s.take(i) + seq![(k, v)] + s.skip(i));
        }
    }
}

proof fn lemma_entries_get_skip<V>(s: Seq<(Seq<char>, V)>, k: Seq<char>, i: int)
    requires
        0 <= i <= s.len(),
        forall|j: int| 0 <= j < i ==> #[trigger] s[j].0 != k,
    ensures
        entries_get(s, k) == entries_get(s.skip(i), k),
    decreases i,
{
    if i == 0 {
        assert(s.skip(0) =~= s);
    } else {
        let t = s.drop_first();
        assert forall|j: int| 0 <= j < i - 1 implies #[trigger] t[j].0 != k by {
            assert(t[j] == s[j + 1]);
        }
        lemma_entries_get_skip(t, k, i - 1);
        assert(t.skip(i - 1) =~= s.skip(i));
    }
}

impl PortModes {
    #[verifier::type_invariant]
    closed spec fn sorted(&self) -> bool {
        keys_sorted(pairs_view(self.entries@))
    }

    /// An empty map.
    pub fn new() -> (r: Self)
        ensures
            r@.len() == 0,
    {
        let r = PortModes { entries: Vec::new() };
        assert(r@ =~= Seq::<(Seq<char>, ModeView)>::empty());
        r
    }

    /// The number of ports.
    pub fn len(&self) -> (r: usize)
        ensures
            r == self@.len(),
    {
        proof {
            use_type_invariant(self);
        }
        self.entries.len()
    }

    /// Whether no port has a mode.
    pub fn is_empty(&self) -> (r: bool)
        ensures
            r == (self@.len() == 0),
    {
        proof {
            use_type_invariant(self);
        }
        self.entries.len() == 0
    }

    /// The `i`-th entry in ascending port order.
    pub fn entry(&self, i: usize) -> (r: (&String, &PortAuthMode))
        requires
            i < self@.len(),
        ensures
            (r.0@, r.1@) == self@[i as int],
    {
        proof {
            use_type_invariant(self);
        }
        let e = &self.entries[i];
        (&e.0, &e.1)
    }

    /// The mode of `port`.
    pub fn get(&self, port: &str) -> (r: Option<&PortAuthMode>)
        ensures
            entries_get(self@, port@) == match r {
                Some(m) => Some(m@),
                None => None::<ModeView>,
            },
    {
        proof {
            use_type_invariant(self);
        }
        let mut i: usize = 0;
        while i < self.entries.len()
            invariant
                self@ == pairs_view(self.entries@),
                i <= self.entries@.len(),
                forall|j: int| 0 <= j < i ==> #[trigger] self@[j].0 != port@,
            decreases self.entries@.len() - i,
        {
            assert(self@[i as int] == (self.entries@[i as int].0@, self.entries@[i as int].1@));
            if str_eq(self.entries[i].0.as_str(), port) {
                proof {
                    lemma_entries_get_skip(self@, port@, i as int);
                }
                return Some(&self.entries[i].1);
            }
            i = i + 1;
        }
        proof {
            lemma_entries_get_skip(self@, port@, i as int);
        }
        None
    }

    /// Maps `port` to `mode`, replacing a previous mode of `port`.
    pub fn insert(&mut self, port: String, mode: PortAuthMode)
        ensures
            final(self)@ == entries_insert(old(self)@, port@, mode@),
    {
        proof {
            use_type_invariant(&*self);
        }
        let mut v: Vec<(String, PortAuthMode)> = Vec::new();
        std::mem::swap(&mut v, &mut self.entries);
        sorted_insert(&mut v, port, mode);
        self.entries = v;
    }
}

/// The keys and values of `s`, each by its view.
pub open spec fn pairs_view<V: View>(s: Seq<(String, V)>) -> Seq<(Seq<char>, V::V)> {
    s.map_values(|e: (String, V)| (e.0@, e.1@))
}

/// Maps `k` to `val` in a vector of entries kept in ascending key order.
fn sorted_insert<V: View>(v: &mut Vec<(String, V)>, k: String, val: V)
    requires
        keys_sorted(pairs_view(old(v)@)),
    ensures
        pairs_view(final(v)@) == entries_insert(pairs_view(old(v)@), k@, val@),
        keys_sorted(pairs_view(final(v)@)),
{
    let ghost s = pairs_view(v@);
    let mut i: usize = 0;
    while i < v.len() && str_lt(v[i].0.as_str(), k.as_str())
        invariant
            s == pairs_view(v@),
            i <= v@.len(),
            forall|j: int| 0 <= j < i ==> seq_lt(#[trigger] s[j].0, k@),
        decreases v@.len() - i,
    {
        assert(s[i as int] == (v@[i as int].0@, v@[i as int].1@));
        i = i + 1;
    }
    if i < v.len() {
        assert(s[i as int] == (v@[i as int].0@, v@[i as int].1@));
    }
    proof {
        lemma_entries_insert_shape(s, k@, val@, i as int);
    }
    let ghost t = entries_insert(s, k@, val@);
    if i < v.len() && str_eq(v[i].0.as_str(), k.as_str()) {
        proof {
            assert forall|a: int, b: int| 0 <= a < b < t.len() implies seq_lt(#[trigger] t[a].0, #[trigger] t[b].0) by {
                if a < i && b > i {
                    assert(t[b] == s[b]);
                } else if a == i {
                    assert(t[b] == s[b]);
                } else if b < i {
                } else {
                    assert(t[a] == s[a]);
                }
            }
        }
        v.remove(i);
        v.insert(i, (k, val));
    } else {
        proof {
            if i < s.len() {
                lemma_seq_lt_total(s[i as int].0, k@);
            }
            assert forall|a: int, b: int| 0 <= a < b < t.len() implies seq_lt(#[trigger] t[a].0, #[trigger] t[b].0) by {
                if b < i {
                    assert(t[a] == s[a] && t[b] == s[b]);
                } else if a < i && b == i {
                    assert(t[a] == s[a]);
                } else if a < i {
                    assert(t[a] == s[a] && t[b] == s[b - 1]);
                } else if a == i {
                    assert(t[b] == s[b - 1]);
                    if b - 1 > i {
                        lemma_seq_lt_transitive(k@, s[i as int].0, s[b - 1].0);
                    }
                } else {
                    assert(t[a] == s[a - 1] && t[b] == s[b - 1]);
                }
            }
        }
        v.insert(i, (k, val));
    }
    assert(pairs_view(v@) =~= t);
}

// ── Configuration ───────────────────────────────────────────────────────────

/// `/etc/radius/`: home of the generated RADIUS databases.
pub const RADIUS_DIR: &'static str = "/etc/radius";
/// The generated JSON user database.
pub const RADIUS_USERS_PATH: &'static str = "/etc/radius/users";
/// The `<CIDR> <secret>` client (authenticator) list.
pub const RADIUS_CLIENTS_PATH: &'static str = "/etc/radius/clients";

/// Satellite-only, read-only upstream identity and Core reachability.
#[derive(Debug)]
pub struct UpstreamInfo {
    /// The 802.1X identity this Satellite presents upstream.
    pub identity: String,
    /// Address at which this Satellite reaches the Core's management surface.
    pub core_mgmt_addr: String,
    /// Management VLAN id carrying Core↔Satellite control traffic.
    pub mgmt_vlan: u16,
}

pub struct UpstreamView {
    pub identity: Seq<char>,
    pub core_mgmt_addr: Seq<char>,
    pub mgmt_vlan: u16,
}

impl View for UpstreamInfo {
    type V = UpstreamView;

    open spec fn view(&self) -> UpstreamView {
        UpstreamView { identity: self.identity@, core_mgmt_addr: self.core_mgmt_addr@, mgmt_vlan: self.mgmt_vlan }
    }
}

/// The full 802.1X configuration of a router.
#[derive(Debug)]
pub struct Dot1xConfig {
    /// Whether wired 802.1X is enabled on this router at all.
    pub enabled: bool,
    /// Core or Satellite.
    pub role: Dot1xRole,
    /// Present only on a paired Satellite.
    pub upstream: Option<UpstreamInfo>,
    /// Per LAN port: authentication mode.
    pub ports: PortModes,
}

pub struct Dot1xConfigView {
    pub enabled: bool,
    pub role: Dot1xRole,
    pub upstream: Option<UpstreamView>,
    pub ports: Seq<(Seq<char>, ModeView)>,
}

impl View for Dot1xConfig {
    type V = Dot1xConfigView;

    open spec fn view(&self) -> Dot1xConfigView {
        Dot1xConfigView {
            enabled: self.enabled,
            role: self.role,
            upstream: match self.upstream {
                Some(u) => Some(u@),
                None => None,
            },
            ports: self.ports@,
        }
    }
}

/// Runtime authentication state.
#[derive(Debug)]
pub struct Dot1xStatus {
    pub enabled: bool,
    pub role: Dot1xRole,
    pub ports: Vec<PortStatus>,
}

/// Runtime state of one `Dot1xClient` port.
#[derive(Debug)]
pub struct PortStatus {
    pub port: String,
    /// Whether the port's authenticator object answered.
    pub present: bool,
    /// MACs currently authenticated on this port.
    pub clients: Vec<String>,
}

/// The `dot1x` section of `startwrt`: the global settings.
#[derive(Debug)]
pub struct Dot1xGlobal {
    pub disabled: bool,
    pub role: String,
    pub upstream_identity: Option<String>,
    pub core_mgmt_addr: Option<String>,
    pub mgmt_vlan: Option<u16>,
}

pub struct GlobalView {
    pub disabled: bool,
    pub role: Seq<char>,
    pub upstream_identity: Option<Seq<char>>,
    pub core_mgmt_addr: Option<Seq<char>>,
    pub mgmt_vlan: Option<u16>,
}

impl View for Dot1xGlobal {
    type V = GlobalView;

    open spec fn view(&self) -> GlobalView {
        GlobalView {
            disabled: self.disabled,
            role: self.role@,
            upstream_identity: opt_view(self.upstream_identity),
            core_mgmt_addr: opt_view(self.core_mgmt_addr),
            mgmt_vlan: self.mgmt_vlan,
        }
    }
}

/// A `dot1x_port` section of `startwrt`: one port's mode.
#[derive(Debug)]
pub struct Dot1xPort {
    pub port: String,
    pub mode: String,
    pub guest_vlan: Option<u16>,
}

pub struct PortView {
    pub port: Seq<char>,
    pub mode: Seq<char>,
    pub guest_vlan: Option<u16>,
}

impl View for Dot1xPort {
    type V = PortView;

    open spec fn view(&self) -> PortView {
        PortView { port: self.port@, mode: self.mode@, guest_vlan: self.guest_vlan }
    }
}

/// The `radius` section of the `radius` config: the on-device RADIUS server.
#[derive(Debug)]
pub struct RadiusConfig {
    pub disabled: bool,
    pub ipv6: Option<bool>,
    pub log_level: Option<String>,
    pub ca_cert: String,
    pub cert: String,
    pub key: String,
    pub users: String,
    pub clients: String,
    pub auth_port: Option<u16>,
    pub acct_port: Option<u16>,
    pub identity: Option<String>,
}

/// Where the router's certificates live.
#[derive(Debug)]
pub struct RadiusPaths {
    pub ca_cert: String,
    pub cert: String,
    pub key: String,
}

/// The profiles of the router, by which a guest VLAN is mapped back to a
/// profile and a guest profile is checked to exist.
#[derive(Debug)]
pub struct ProfileLookup {
    pub profiles: Vec<ProfileId>,
}

pub open spec fn profiles_view(l: ProfileLookup) -> Seq<ProfileView> {
    l.profiles@.map_values(|p: ProfileId| p@)
}

/// The first profile tagged `vlan`.
pub open spec fn lookup_vlan(profiles: Seq<ProfileView>, vlan: u16) -> Option<ProfileView>
    decreases profiles.len(),
{
    if profiles.len() == 0 {
        None
    } else if profiles[0].vlan_tag == vlan {
        Some(profiles[0])
    } else {
        lookup_vlan(profiles.drop_first(), vlan)
    }
}

/// Whether `id` names one of the profiles.
pub open spec fn resolves(profiles: Seq<ProfileView>, id: ProfileView) -> bool {
    profiles.contains(id)
}

proof fn lemma_lookup_vlan_skip(profiles: Seq<ProfileView>, vlan: u16, i: int)
    requires
        0 <= i <= profiles.len(),
        forall|j: int| 0 <= j < i ==> #[trigger] profiles[j].vlan_tag != vlan,
    ensures
        lookup_vlan(profiles, vlan) == lookup_vlan(profiles.skip(i), vlan),
    decreases i,
{
    if i == 0 {
        assert(profiles.skip(0) =~= profiles);
    } else {
        let t = profiles.drop_first();
        assert forall|j: int| 0 <= j < i - 1 implies #[trigger] t[j].vlan_tag != vlan by {
            assert(t[j] == profiles[j + 1]);
        }
        lemma_lookup_vlan_skip(t, vlan, i - 1);
        assert(t.skip(i - 1) =~= profiles.skip(i));
    }
}

fn profile_eq(a: &ProfileId, b: &ProfileId) -> (r: bool)
    ensures
        r == (a@ == b@),
{
    a.vlan_tag == b.vlan_tag && str_eq(a.fullname.as_str(), b.fullname.as_str()) && str_eq(
        a.interface.as_str(),
        b.interface.as_str(),
    )
}

impl ProfileLookup {
    /// The first profile tagged `vlan`.
    pub fn from_vlan(&self, vlan: u16) -> (r: Option<&ProfileId>)
        ensures
            lookup_vlan(profiles_view(*self), vlan) == match r {
                Some(p) => Some(p@),
                None => None::<ProfileView>,
            },
    {
        let ghost pv = profiles_view(*self);
        let mut i: usize = 0;
        while i < self.profiles.len()
            invariant
                pv == profiles_view(*self),
                i <= self.profiles@.len(),
                forall|j: int| 0 <= j < i ==> #[trigger] pv[j].vlan_tag != vlan,
            decreases self.profiles@.len() - i,
        {
            assert(pv[i as int] == self.profiles@[i as int]@);
            if self.profiles[i].vlan_tag == vlan {
                proof {
                    lemma_lookup_vlan_skip(pv, vlan, i as int);
                }
                return Some(&self.profiles[i]);
            }
            i = i + 1;
        }
        proof {
            lemma_lookup_vlan_skip(pv, vlan, i as int);
        }
        None
    }

    /// The profile that `id` names, if it names one.
    pub fn resolve(&self, id: &ProfileId) -> (r: Option<&ProfileId>)
        ensures
            r is Some <==> resolves(profiles_view(*self), id@),
            r matches Some(p) ==> p@ == id@,
    {
        let ghost pv = profiles_view(*self);
        let mut i: usize = 0;
        while i < self.profiles.len()
            invariant
                pv == profiles_view(*self),
                i <= self.profiles@.len(),
                forall|j: int| 0 <= j < i ==> #[trigger] pv[j] != id@,
            decreases self.profiles@.len() - i,
        {
            assert(pv[i as int] == self.profiles@[i as int]@);
            if profile_eq(&self.profiles[i], id) {
                return Some(&self.profiles[i]);
            }
            i = i + 1;
        }
        None
    }
}

/// Errors of reading or writing the 802.1X configuration.
#[derive(Debug)]
pub enum Dot1xError {
    /// A `dot1xClient` port has no guest VLAN.
    GuestVlanMissing { port: String },
    /// A `dot1xClient` port's guest VLAN matches no profile.
    GuestVlanUnmatched { port: String, vlan: u16 },
    /// A `Dot1xClient` port's guest profile is not a profile of the router.
    UnknownGuestProfile { port: String },
}

/// Reads a persisted role: `satellite`, or else Core.
pub fn parse_role(s: &str) -> (r: Dot1xRole)
    ensures
        r == role_from_uci(s@),
{
    if str_eq(s, "satellite") {
        Dot1xRole::Satellite
    } else {
        Dot1xRole::Core
    }
}

pub open spec fn role_from_uci(s: Seq<char>) -> Dot1xRole {
    if s == "satellite"@ {
        Dot1xRole::Satellite
    } else {
        Dot1xRole::Core
    }
}

pub open spec fn role_uci_text(r: Dot1xRole) -> Seq<char> {
    match r {
        Dot1xRole::Core => "core"@,
        Dot1xRole::Satellite => "satellite"@,
    }
}

/// The persisted text of a role.
pub fn role_to_uci(r: Dot1xRole) -> (s: &'static str)
    ensures
        s@ == role_uci_text(r),
{
    match r {
        Dot1xRole::Core => "core",
        Dot1xRole::Satellite => "satellite",
    }
}

/// Reading back the text a role is persisted as gives the role.
pub proof fn lemma_role_round_trips(r: Dot1xRole)
    ensures
        role_from_uci(role_uci_text(r)) == r,
{
    reveal_strlit("core");
    reveal_strlit("satellite");
    assert("core"@.len() != "satellite"@.len());
}

/// Why a persisted port section cannot be read.
pub enum PortFault {
    MissingGuestVlan,
    UnmatchedGuestVlan(u16),
}

/// The mode a persisted port section reads as.
pub open spec fn port_mode_spec(p: PortView, profiles: Seq<ProfileView>) -> Result<ModeView, PortFault> {
    if p.mode == "dot1xClient"@ {
        match p.guest_vlan {
            None => Err(PortFault::MissingGuestVlan),
            Some(v) => match lookup_vlan(profiles, v) {
                None => Err(PortFault::UnmatchedGuestVlan(v)),
                Some(g) => Ok(PortAuthMode::Dot1xClient { guest: g }),
            },
        }
    } else if p.mode == "satelliteUplink"@ {
        Ok(PortAuthMode::SatelliteUplink)
    } else {
        Ok(PortAuthMode::Static)
    }
}

/// Whether `e` is the error that `fault` on the port `port` is reported as.
pub open spec fn fault_reported(e: Dot1xError, port: Seq<char>, fault: PortFault) -> bool {
    match fault {
        PortFault::MissingGuestVlan => e matches Dot1xError::GuestVlanMissing { port: q } && q@ == port,
        PortFault::UnmatchedGuestVlan(v) => e matches Dot1xError::GuestVlanUnmatched { port: q, vlan }
            && q@ == port && vlan == v,
    }
}

/// Resolves a persisted `dot1x_port` section into a mode, mapping the stored
/// guest VLAN back to a profile.
pub fn port_mode_from_uci(p: &Dot1xPort, lookup: &ProfileLookup) -> (r: Result<PortAuthMode, Dot1xError>)
    ensures
        match port_mode_spec(p@, profiles_view(*lookup)) {
            Ok(m) => r matches Ok(mode) && mode@ == m,
            Err(f) => r matches Err(e) && fault_reported(e, p.port@, f),
        },
{
    if str_eq(p.mode.as_str(), "dot1xClient") {
        match p.guest_vlan {
            None => Err(Dot1xError::GuestVlanMissing { port: p.port.clone() }),
            Some(vlan) => match lookup.from_vlan(vlan) {
                None => Err(Dot1xError::GuestVlanUnmatched { port: p.port.clone(), vlan }),
                Some(guest) => Ok(PortAuthMode::Dot1xClient { guest: guest.clone() }),
            },
        }
    } else if str_eq(p.mode.as_str(), "satelliteUplink") {
        Ok(PortAuthMode::SatelliteUplink)
    } else {
        Ok(PortAuthMode::Static)
    }
}

/// The port modes that the persisted port sections read as, or the first
/// section (by index) that cannot be read and why.
pub open spec fn ports_spec(sections: Seq<PortView>, profiles: Seq<ProfileView>) -> Result<Seq<(Seq<char>, ModeView)>, (int, PortFault)>
    decreases sections.len(),
{
    if sections.len() == 0 {
        Ok(Seq::empty())
    } else {
        match ports_spec(sections.drop_last(), profiles) {
            Err(e) => Err(e),
            Ok(m) => match port_mode_spec(sections.last(), profiles) {
                Err(f) => Err(((sections.len() - 1) as int, f)),
                Ok(mode) => Ok(entries_insert(m, sections.last().port, mode)),
            },
        }
    }
}

/// The ports of a configuration read are the modes of its `dot1x_port`
/// sections, whatever the global section holds or whether it exists.
pub proof fn lemma_read_ports_ignore_global(
    g1: Option<GlobalView>,
    g2: Option<GlobalView>,
    ports: Seq<(Seq<char>, ModeView)>,
)
    ensures
        config_spec(g1, ports).ports == ports,
        config_spec(g1, ports).ports == config_spec(g2, ports).ports,
{
}

/// The upstream information that a persisted global section reads as.
pub open spec fn upstream_spec(g: Option<GlobalView>) -> Option<UpstreamView> {
    match g {
        Some(g) => if role_from_uci(g.role) == Dot1xRole::Satellite && g.upstream_identity is Some {
            Some(UpstreamView {
                identity: g.upstream_identity->0,
                core_mgmt_addr: match g.core_mgmt_addr {
                    Some(a) => a,
                    None => Seq::empty(),
                },
                mgmt_vlan: match g.mgmt_vlan {
                    Some(v) => v,
                    None => 0,
                },
            })
        } else {
            None
        },
        None => None,
    }
}

/// The configuration that a persisted global section (absent on an
/// unprovisioned router) and persisted port sections read as.
pub open spec fn config_spec(g: Option<GlobalView>, ports: Seq<(Seq<char>, ModeView)>) -> Dot1xConfigView {
    Dot1xConfigView {
        enabled: match g {
            Some(g) => !g.disabled,
            None => false,
        },
        role: match g {
            Some(g) => role_from_uci(g.role),
            None => Dot1xRole::Core,
        },
        upstream: upstream_spec(g),
        ports,
    }
}

pub open spec fn global_view(g: Option<Dot1xGlobal>) -> Option<GlobalView> {
    match g {
        Some(g) => Some(g@),
        None => None,
    }
}

pub open spec fn sections_view(s: Seq<Dot1xPort>) -> Seq<PortView> {
    s.map_values(|p: Dot1xPort| p@)
}

/// Reads the 802.1X configuration from its persisted records: the `dot1x`
/// global section (`None` when absent: 802.1X off, Core) and the
/// `dot1x_port` sections in file order (a later section of a port overrides
/// an earlier one).
pub fn get_config(global: Option<Dot1xGlobal>, ports: &Vec<Dot1xPort>, lookup: &ProfileLookup) -> (r: Result<Dot1xConfig, Dot1xError>)
    ensures
        match ports_spec(sections_view(ports@), profiles_view(*lookup)) {
            Ok(m) => r matches Ok(cfg) && cfg@ == config_spec(global_view(global), m) && keys_sorted(cfg.ports@)
                && cfg.ports@ == m,
            Err((i, f)) => r matches Err(e) && fault_reported(e, ports@[i].port@, f),
        },
{
    let ghost gv = global_view(global);
    let ghost sv = sections_view(ports@);
    let ghost pv = profiles_view(*lookup);
    let (enabled, role) = match &global {
        Some(g) => (!g.disabled, parse_role(g.role.as_str())),
        None => (false, Dot1xRole::Core),
    };
    let upstream = match global {
        Some(g) => if role == Dot1xRole::Satellite {
            match g.upstream_identity {
                Some(identity) => Some(UpstreamInfo {
                    identity,
                    core_mgmt_addr: match g.core_mgmt_addr {
                        Some(a) => a,
                        None => String::new(),
                    },
                    mgmt_vlan: match g.mgmt_vlan {
                        Some(v) => v,
                        None => 0,
                    },
                }),
                None => None,
            }
        } else {
            None
        },
        None => None,
    };
    let mut modes = PortModes::new();
    assert(sv.take(0) =~= Seq::<PortView>::empty());
    assert(modes@ =~= Seq::<(Seq<char>, ModeView)>::empty());
    let mut i: usize = 0;
    while i < ports.len()
        invariant
            sv == sections_view(ports@),
            pv == profiles_view(*lookup),
            i <= ports@.len(),
            ports_spec(sv.take(i as int), pv) == Ok::<Seq<(Seq<char>, ModeView)>, (int, PortFault)>(modes@),
        decreases ports@.len() - i,
    {
        assert(sv.take(i + 1).drop_last() =~= sv.take(i as int));
        assert(sv.take(i + 1).last() == ports@[i as int]@);
        let mode = match port_mode_from_uci(&ports[i], lookup) {
            Ok(m) => m,
            Err(e) => {
                proof {
                    lemma_ports_spec_prefix_err(sv, pv, (i + 1) as int);
                }
                return Err(e);
            },
        };
        modes.insert(ports[i].port.clone(), mode);
        i = i + 1;
    }
    assert(sv.take(ports@.len() as int) =~= sv);
    proof {
        lemma_ports_ascending(modes);
    }
    Ok(Dot1xConfig { enabled, role, upstream, ports: modes })
}

/// An error in a prefix of the sections is the error of all of them.
proof fn lemma_ports_spec_prefix_err(sv: Seq<PortView>, pv: Seq<ProfileView>, n: int)
    requires
        0 <= n <= sv.len(),
        ports_spec(sv.take(n), pv) is Err,
    ensures
        ports_spec(sv, pv) == ports_spec(sv.take(n), pv),
    decreases sv.len() - n,
{
    if n < sv.len() {
        assert(sv.take(n + 1).drop_last() =~= sv.take(n));
        lemma_ports_spec_prefix_err(sv, pv, n + 1);
    } else {
        assert(sv.take(n) =~= sv);
    }
}

// ── Writing the configuration ───────────────────────────────────────────────

pub struct RadiusView {
    pub disabled: bool,
    pub ipv6: Option<bool>,
    pub log_level: Option<Seq<char>>,
    pub ca_cert: Seq<char>,
    pub cert: Seq<char>,
    pub key: Seq<char>,
    pub users: Seq<char>,
    pub clients: Seq<char>,
    pub auth_port: Option<u16>,
    pub acct_port: Option<u16>,
    pub identity: Option<Seq<char>>,
}

impl View for RadiusConfig {
    type V = RadiusView;

    open spec fn view(&self) -> RadiusView {
        RadiusView {
            disabled: self.disabled,
            ipv6: self.ipv6,
            log_level: opt_view(self.log_level),
            ca_cert: self.ca_cert@,
            cert: self.cert@,
            key: self.key@,
            users: self.users@,
            clients: self.clients@,
            auth_port: self.auth_port,
            acct_port: self.acct_port,
            identity: opt_view(self.identity),
        }
    }
}

/// Whether a router with this configuration serves RADIUS: an enabled Core.
pub open spec fn serves_radius_spec(enabled: bool, role: Dot1xRole) -> bool {
    enabled && role == Dot1xRole::Core
}

/// Whether this router serves RADIUS (and so keeps a RADIUS user database).
pub fn serves_radius(cfg: &Dot1xConfig) -> (r: bool)
    ensures
        r == serves_radius_spec(cfg.enabled, cfg.role),
{
    cfg.enabled && cfg.role == Dot1xRole::Core
}

/// The RADIUS server section as written for a router that serves RADIUS
/// (`want`) or not: an existing section keeps every field but the enable
/// bit; an absent one is synthesised, pointed at the router's certificates
/// and the generated databases.
pub open spec fn radius_spec(existing: Option<RadiusView>, want: bool, paths: RadiusPaths) -> RadiusView {
    match existing {
        Some(r) => RadiusView { disabled: !want, ..r },
        None => RadiusView {
            disabled: !want,
            ipv6: None,
            log_level: None,
            ca_cert: paths.ca_cert@,
            cert: paths.cert@,
            key: paths.key@,
            users: RADIUS_USERS_PATH@,
            clients: RADIUS_CLIENTS_PATH@,
            auth_port: None,
            acct_port: None,
            identity: None,
        },
    }
}

/// A RADIUS section synthesised where none exists takes its CA certificate,
/// server certificate and server key from the given paths (each from its
/// own path), and the user and client databases from their fixed paths; it
/// is enabled exactly when the router serves RADIUS. A pre-staged section
/// keeps every field but the enable bit.
pub proof fn lemma_radius_section_paths(existing: Option<RadiusView>, want: bool, paths: RadiusPaths)
    ensures
        radius_spec(existing, want, paths).disabled == !want,
        existing is None ==> radius_spec(existing, want, paths).ca_cert == paths.ca_cert@
            && radius_spec(existing, want, paths).cert == paths.cert@
            && radius_spec(existing, want, paths).key == paths.key@
            && radius_spec(existing, want, paths).users == RADIUS_USERS_PATH@
            && radius_spec(existing, want, paths).clients == RADIUS_CLIENTS_PATH@,
        existing matches Some(e) ==> radius_spec(existing, want, paths).ca_cert == e.ca_cert
            && radius_spec(existing, want, paths).cert == e.cert && radius_spec(existing, want, paths).key
            == e.key && radius_spec(existing, want, paths).users == e.users && radius_spec(
            existing,
            want,
            paths,
        ).clients == e.clients,
{
}

pub open spec fn radius_view(r: Option<RadiusConfig>) -> Option<RadiusView> {
    match r {
        Some(r) => Some(r@),
        None => None,
    }
}

/// Turns the on-device RADIUS server on (enabled Core) or off, keeping a
/// pre-staged section's fields and synthesising a full one if none is
/// present.
pub fn apply_radius(existing: Option<RadiusConfig>, req: &Dot1xConfig, paths: RadiusPaths) -> (r: RadiusConfig)
    ensures
        r@ == radius_spec(radius_view(existing), serves_radius_spec(req.enabled, req.role), paths),
        r.disabled == !serves_radius_spec(req.enabled, req.role),
        existing is None ==> r.ca_cert@ == paths.ca_cert@ && r.cert@ == paths.cert@ && r.key@ == paths.key@
            && r.users@ == RADIUS_USERS_PATH@ && r.clients@ == RADIUS_CLIENTS_PATH@,
        existing matches Some(e) ==> r.ca_cert@ == e.ca_cert@ && r.cert@ == e.cert@ && r.key@ == e.key@
            && r.users@ == e.users@ && r.clients@ == e.clients@,
{
    let want = serves_radius(req);
    match existing {
        Some(mut r) => {
            r.disabled = !want;
            r
        },
        None => RadiusConfig {
            disabled: !want,
            ipv6: None,
            log_level: None,
            ca_cert: paths.ca_cert,
            cert: paths.cert,
            key: paths.key,
            users: RADIUS_USERS_PATH.to_owned(),
            clients: RADIUS_CLIENTS_PATH.to_owned(),
            auth_port: None,
            acct_port: None,
            identity: None,
        },
    }
}

/// The global section written for `req` (the upstream fields only on a
/// Satellite that has them).
pub open spec fn global_spec(req: Dot1xConfigView) -> GlobalView {
    let up = req.role == Dot1xRole::Satellite && req.upstream is Some;
    GlobalView {
        disabled: !req.enabled,
        role: role_uci_text(req.role),
        upstream_identity: if up { Some(req.upstream->0.identity) } else { None },
        core_mgmt_addr: if up { Some(req.upstream->0.core_mgmt_addr) } else { None },
        mgmt_vlan: if up { Some(req.upstream->0.mgmt_vlan) } else { None },
    }
}

/// The port section written for one port's mode.
pub open spec fn port_section_spec(e: (Seq<char>, ModeView)) -> PortView {
    match e.1 {
        PortAuthMode::Static => PortView { port: e.0, mode: "static"@, guest_vlan: None },
        PortAuthMode::Dot1xClient { guest } => PortView {
            port: e.0,
            mode: "dot1xClient"@,
            guest_vlan: Some(guest.vlan_tag),
        },
        PortAuthMode::SatelliteUplink => PortView { port: e.0, mode: "satelliteUplink"@, guest_vlan: None },
    }
}

/// Whether a port's mode names a guest profile that the router lacks.
pub open spec fn unresolved(e: (Seq<char>, ModeView), profiles: Seq<ProfileView>) -> bool {
    e.1 matches PortAuthMode::Dot1xClient { guest } && !resolves(profiles, guest)
}

/// The first port at or after `i` whose guest profile the router lacks
/// (`ports.len()` when there is none).
pub open spec fn first_unresolved(ports: Seq<(Seq<char>, ModeView)>, profiles: Seq<ProfileView>, i: int) -> int
    decreases ports.len() - i,
{
    if i >= ports.len() || i < 0 {
        ports.len() as int
    } else if unresolved(ports[i], profiles) {
        i
    } else {
        first_unresolved(ports, profiles, i + 1)
    }
}

/// The records that writing a configuration produces: the `dot1x` global
/// section, one `dot1x_port` section per port (in port order), and the
/// `radius` server section. They replace every prior `dot1x`/`dot1x_port`
/// section and the prior `radius` section.
#[derive(Debug)]
pub struct Dot1xWrite {
    pub global: Dot1xGlobal,
    pub ports: Vec<Dot1xPort>,
    pub radius: RadiusConfig,
}

/// Whether a `startwrt` section of type `ty` is replaced when the 802.1X
/// configuration is written.
pub fn is_dot1x_section(ty: &str) -> (r: bool)
    ensures
        r == (ty@ == "dot1x"@ || ty@ == "dot1x_port"@),
{
    str_eq(ty, "dot1x") || str_eq(ty, "dot1x_port")
}

fn port_section(port: &String, mode: &PortAuthMode) -> (r: Dot1xPort)
    ensures
        r@ == port_section_spec((port@, mode@)),
{
    match mode {
        PortAuthMode::Static => Dot1xPort { port: port.clone(), mode: "static".to_owned(), guest_vlan: None },
        PortAuthMode::Dot1xClient { guest } => Dot1xPort {
            port: port.clone(),
            mode: "dot1xClient".to_owned(),
            guest_vlan: Some(guest.vlan_tag),
        },
        PortAuthMode::SatelliteUplink => Dot1xPort {
            port: port.clone(),
            mode: "satelliteUplink".to_owned(),
            guest_vlan: None,
        },
    }
}

proof fn lemma_first_unresolved_bound(ports: Seq<(Seq<char>, ModeView)>, profiles: Seq<ProfileView>, i: int)
    requires
        0 <= i <= ports.len(),
    ensures
        i <= first_unresolved(ports, profiles, i) <= ports.len(),
        first_unresolved(ports, profiles, i) < ports.len() ==> unresolved(ports[first_unresolved(ports, profiles, i)], profiles),
        forall|k: int| i <= k < first_unresolved(ports, profiles, i) ==> !unresolved(#[trigger] ports[k], profiles),
    decreases ports.len() - i,
{
    if i < ports.len() && !unresolved(ports[i], profiles) {
        lemma_first_unresolved_bound(ports, profiles, i + 1);
    }
}

/// The records for `req`. Every `Dot1xClient` port must name a profile of
/// the router; the first port (in port order) that does not is reported and
/// nothing is written.
pub fn write_config(req: &Dot1xConfig, lookup: &ProfileLookup, existing_radius: Option<RadiusConfig>, paths: RadiusPaths) -> (r: Result<Dot1xWrite, Dot1xError>)
    ensures
        ({
            let k = first_unresolved(req.ports@, profiles_view(*lookup), 0);
            &&& k < req.ports@.len() ==> (r matches Err(Dot1xError::UnknownGuestProfile { port })
                && port@ == req.ports@[k].0)
            &&& k >= req.ports@.len() ==> (r matches Ok(w) && w.global@ == global_spec(req@)
                && sections_view(w.ports@) == req.ports@.map_values(
                |e: (Seq<char>, ModeView)| port_section_spec(e),
            ) && (forall|a: int, b: int|
                0 <= a < b < w.ports@.len() ==> seq_lt(#[trigger] w.ports@[a].port@, #[trigger] w.ports@[b].port@))
                && w.radius@ == radius_spec(
                radius_view(existing_radius),
                serves_radius_spec(req.enabled, req.role),
                paths,
            ))
        }),
{
    let ghost pv = profiles_view(*lookup);
    let ghost want = req.ports@.map_values(|e: (Seq<char>, ModeView)| port_section_spec(e));
    proof {
        lemma_first_unresolved_bound(req.ports@, pv, 0);
    }
    let up = req.role == Dot1xRole::Satellite && req.upstream.is_some();
    let global = match &req.upstream {
        Some(u) => if req.role == Dot1xRole::Satellite {
            Dot1xGlobal {
                disabled: !req.enabled,
                role: role_to_uci(req.role).to_owned(),
                upstream_identity: Some(u.identity.clone()),
                core_mgmt_addr: Some(u.core_mgmt_addr.clone()),
                mgmt_vlan: Some(u.mgmt_vlan),
            }
        } else {
            Dot1xGlobal {
                disabled: !req.enabled,
                role: role_to_uci(req.role).to_owned(),
                upstream_identity: None,
                core_mgmt_addr: None,
                mgmt_vlan: None,
            }
        },
        None => Dot1xGlobal {
            disabled: !req.enabled,
            role: role_to_uci(req.role).to_owned(),
            upstream_identity: None,
            core_mgmt_addr: None,
            mgmt_vlan: None,
        },
    };
    assert(global@ == global_spec(req@));
    let mut ports: Vec<Dot1xPort> = Vec::new();
    let mut i: usize = 0;
    while i < req.ports.len()
        invariant
            pv == profiles_view(*lookup),
            want == req.ports@.map_values(|e: (Seq<char>, ModeView)| port_section_spec(e)),
            i <= req.ports@.len(),
            first_unresolved(req.ports@, pv, 0) == first_unresolved(req.ports@, pv, i as int),
            sections_view(ports@) == want.take(i as int),
        decreases req.ports@.len() - i,
    {
        let (port, mode) = req.ports.entry(i);
        if let PortAuthMode::Dot1xClient { guest } = mode {
            if lookup.resolve(guest).is_none() {
                return Err(Dot1xError::UnknownGuestProfile { port: port.clone() });
            }
        }
        let sec = port_section(port, mode);
        assert((port@, mode@) == req.ports@[i as int]);
        assert(sec@ == port_section_spec(req.ports@[i as int]));
        let ghost before = ports@;
        ports.push(sec);
        assert(ports@ == before.push(sec));
        assert(sections_view(ports@) =~= sections_view(before).push(sec@));
        assert(want[i as int] == port_section_spec(req.ports@[i as int]));
        assert(sections_view(ports@) =~= want.take(i + 1));
        i = i + 1;
    }
    assert(want.take(req.ports@.len() as int) =~= want);
    proof {
        lemma_ports_ascending(req.ports);
        assert forall|a: int, b: int| 0 <= a < b < ports@.len() implies seq_lt(
            #[trigger] ports@[a].port@,
            #[trigger] ports@[b].port@,
        ) by {
            assert(sections_view(ports@)[a] == ports@[a]@);
            assert(sections_view(ports@)[b] == ports@[b]@);
        }
    }
    let radius = apply_radius(existing_radius, req, paths);
    Ok(Dot1xWrite { global, ports, radius })
}

// ── Round trip ──────────────────────────────────────────────────────────────

/// No two profiles share a VLAN tag.
pub open spec fn vlan_tags_distinct(profiles: Seq<ProfileView>) -> bool {
    forall|i: int, j: int|
        0 <= i < j < profiles.len() ==> #[trigger] profiles[i].vlan_tag != #[trigger] profiles[j].vlan_tag
}

proof fn lemma_lookup_finds_member(profiles: Seq<ProfileView>, g: ProfileView)
    requires
        vlan_tags_distinct(profiles),
        profiles.contains(g),
    ensures
        lookup_vlan(profiles, g.vlan_tag) == Some(g),
    decreases profiles.len(),
{
    let k = choose|k: int| 0 <= k < profiles.len() && profiles[k] == g;
    if profiles[0] != g {
        let t = profiles.drop_first();
        assert(t[k - 1] == g);
        assert(profiles[0].vlan_tag != profiles[k].vlan_tag);
        assert forall|i: int, j: int| 0 <= i < j < t.len() implies #[trigger] t[i].vlan_tag != #[trigger] t[j].vlan_tag by {
            assert(t[i] == profiles[i + 1] && t[j] == profiles[j + 1]);
        }
        lemma_lookup_finds_member(t, g);
    }
}

/// A profile of the router is found by its VLAN tag: the lookup gives a
/// profile of the router with that tag.
proof fn lemma_lookup_finds_tag(profiles: Seq<ProfileView>, g: ProfileView)
    requires
        profiles.contains(g),
    ensures
        lookup_vlan(profiles, g.vlan_tag) matches Some(p) && p.vlan_tag == g.vlan_tag && profiles.contains(p),
    decreases profiles.len(),
{
    let k = choose|k: int| 0 <= k < profiles.len() && profiles[k] == g;
    if profiles[0].vlan_tag != g.vlan_tag {
        let t = profiles.drop_first();
        assert(t[k - 1] == g);
        lemma_lookup_finds_tag(t, g);
        let p = lookup_vlan(t, g.vlan_tag)->0;
        let j = choose|j: int| 0 <= j < t.len() && t[j] == p;
        assert(profiles[j + 1] == p);
    } else {
        assert(profiles[0] == profiles[0]);
    }
}

/// The mode that a written port mode reads back as: a guest profile is read
/// back by its VLAN tag, as the router's first profile with that tag.
pub open spec fn readback_mode(m: ModeView, profiles: Seq<ProfileView>) -> ModeView {
    match m {
        PortAuthMode::Dot1xClient { guest } => match lookup_vlan(profiles, guest.vlan_tag) {
            Some(p) => PortAuthMode::Dot1xClient { guest: p },
            None => m,
        },
        _ => m,
    }
}

/// The port map that a written port map reads back as.
pub open spec fn readback(ports: Seq<(Seq<char>, ModeView)>, profiles: Seq<ProfileView>) -> Seq<(Seq<char>, ModeView)> {
    ports.map_values(|e: (Seq<char>, ModeView)| (e.0, readback_mode(e.1, profiles)))
}

/// Two modes of the same kind, with the same guest VLAN tag where they have
/// a guest.
pub open spec fn same_mode(a: ModeView, b: ModeView) -> bool {
    match (a, b) {
        (PortAuthMode::Static, PortAuthMode::Static) => true,
        (PortAuthMode::SatelliteUplink, PortAuthMode::SatelliteUplink) => true,
        (PortAuthMode::Dot1xClient { guest: g }, PortAuthMode::Dot1xClient { guest: h }) => g.vlan_tag
            == h.vlan_tag,
        _ => false,
    }
}

/// Writing a configuration and reading it back gives the configuration
/// again, when every guest profile is a profile of the router: the same
/// ports in the same order, each with a mode of the same kind, a guest
/// profile read back as a profile of the router with the same VLAN tag (the
/// profile itself when no two profiles share a tag); only a Core's upstream
/// information, which is not persisted, is lost.
pub proof fn lemma_write_then_read_round_trips(req: Dot1xConfig, profiles: Seq<ProfileView>)
    requires
        first_unresolved(req.ports@, profiles, 0) == req.ports@.len(),
    ensures
        ports_spec(req.ports@.map_values(|e: (Seq<char>, ModeView)| port_section_spec(e)), profiles)
            == Ok::<Seq<(Seq<char>, ModeView)>, (int, PortFault)>(readback(req.ports@, profiles)),
        config_spec(Some(global_spec(req@)), readback(req.ports@, profiles)) == (Dot1xConfigView {
            enabled: req.enabled,
            role: req.role,
            upstream: if req.role == Dot1xRole::Satellite {
                req@.upstream
            } else {
                None
            },
            ports: readback(req.ports@, profiles),
        }),
        readback(req.ports@, profiles).len() == req.ports@.len(),
        forall|i: int|
            0 <= i < req.ports@.len() ==> (#[trigger] readback(req.ports@, profiles)[i]).0 == req.ports@[i].0
                && same_mode(readback(req.ports@, profiles)[i].1, req.ports@[i].1) && (
            readback(req.ports@, profiles)[i].1 matches PortAuthMode::Dot1xClient { guest } ==> resolves(
                profiles,
                guest,
            )),
        vlan_tags_distinct(profiles) ==> readback(req.ports@, profiles) == req.ports@,
{
    lemma_ports_ascending(req.ports);
    lemma_role_round_trips(req.role);
    lemma_first_unresolved_bound(req.ports@, profiles, 0);
    let e = req.ports@;
    let rb = readback(e, profiles);
    let w = e.map_values(|x: (Seq<char>, ModeView)| port_section_spec(x));
    assert forall|i: int| 0 <= i < e.len() implies (#[trigger] rb[i]).0 == e[i].0 && same_mode(rb[i].1, e[i].1)
        && (rb[i].1 matches PortAuthMode::Dot1xClient { guest } ==> resolves(profiles, guest)) by {
        assert(!unresolved(e[i], profiles));
        if let PortAuthMode::Dot1xClient { guest } = e[i].1 {
            lemma_lookup_finds_tag(profiles, guest);
        }
    }
    lemma_written_ports_prefix(e, profiles, e.len() as int);
    assert(w.take(e.len() as int) =~= w);
    assert(rb.take(e.len() as int) =~= rb);
    if vlan_tags_distinct(profiles) {
        assert forall|i: int| 0 <= i < e.len() implies #[trigger] rb[i] == e[i] by {
            assert(!unresolved(e[i], profiles));
            if let PortAuthMode::Dot1xClient { guest } = e[i].1 {
                lemma_lookup_finds_member(profiles, guest);
            }
        }
        assert(rb =~= e);
    }
}

proof fn lemma_written_ports_prefix(e: Seq<(Seq<char>, ModeView)>, profiles: Seq<ProfileView>, n: int)
    requires
        0 <= n <= e.len(),
        keys_sorted(e),
        forall|k: int| 0 <= k < e.len() ==> !unresolved(#[trigger] e[k], profiles),
    ensures
        ports_spec(e.map_values(|x: (Seq<char>, ModeView)| port_section_spec(x)).take(n), profiles)
            == Ok::<Seq<(Seq<char>, ModeView)>, (int, PortFault)>(readback(e, profiles).take(n)),
    decreases n,
{
    reveal_strlit("static");
    reveal_strlit("dot1xClient");
    reveal_strlit("satelliteUplink");
    let w = e.map_values(|x: (Seq<char>, ModeView)| port_section_spec(x));
    let rb = readback(e, profiles);
    if n == 0 {
        assert(w.take(0) =~= Seq::<PortView>::empty());
        assert(rb.take(0) =~= Seq::<(Seq<char>, ModeView)>::empty());
    } else {
        let m = n - 1;
        lemma_written_ports_prefix(e, profiles, m);
        assert(w.take(n).drop_last() =~= w.take(m));
        assert(w.take(n).last() == port_section_spec(e[m]));
        assert(!unresolved(e[m], profiles));
        assert(rb[m] == (e[m].0, readback_mode(e[m].1, profiles)));
        match e[m].1 {
            PortAuthMode::Dot1xClient { guest } => {
                assert(resolves(profiles, guest));
                lemma_lookup_finds_tag(profiles, guest);
                assert(port_section_spec(e[m]).mode == "dot1xClient"@);
                assert(port_section_spec(e[m]).guest_vlan == Some(guest.vlan_tag));
            },
            PortAuthMode::Static => {
                assert(port_section_spec(e[m]).mode == "static"@);
                assert("static"@ != "dot1xClient"@);
                assert("static"@ != "satelliteUplink"@);
            },
            PortAuthMode::SatelliteUplink => {
                assert(port_section_spec(e[m]).mode == "satelliteUplink"@);
                assert("satelliteUplink"@ != "dot1xClient"@);
            },
        }
        assert(port_mode_spec(port_section_spec(e[m]), profiles) == Ok::<ModeView, PortFault>(rb[m].1));
        let s = rb.take(m);
        assert forall|j: int| 0 <= j < s.len() implies seq_lt(#[trigger] s[j].0, rb[m].0) by {
            assert(s[j] == rb[j]);
            assert(rb[j].0 == e[j].0);
        }
        lemma_entries_insert_shape(s, rb[m].0, rb[m].1, s.len() as int);
        assert(s.take(s.len() as int) + seq![(rb[m].0, rb[m].1)] + s.skip(s.len() as int) =~= rb.take(n));
    }
}

// ── Map laws ────────────────────────────────────────────────────────────────

/// Reading a key after mapping it gives the value it was mapped to; every
/// other key reads as before; and the entries stay in ascending key order.
pub proof fn lemma_insert_then_get<V>(s: Seq<(Seq<char>, V)>, k: Seq<char>, v: V, other: Seq<char>)
    requires
        keys_sorted(s),
    ensures
        entries_get(entries_insert(s, k, v), k) == Some(v),
        other != k ==> entries_get(entries_insert(s, k, v), other) == entries_get(s, other),
        keys_sorted(entries_insert(s, k, v)),
    decreases s.len(),
{
    if s.len() > 0 && s[0].0 != k && !seq_lt(k, s[0].0) {
        let t = s.drop_first();
        assert forall|i: int, j: int| 0 <= i < j < t.len() implies seq_lt(#[trigger] t[i].0, #[trigger] t[j].0) by {
            assert(t[i] == s[i + 1] && t[j] == s[j + 1]);
        }
        lemma_insert_then_get(t, k, v, other);
        let r = entries_insert(s, k, v);
        assert(r == seq![s[0]] + entries_insert(t, k, v));
        assert(r.drop_first() =~= entries_insert(t, k, v));
        lemma_seq_lt_total(s[0].0, k);
        let ti = entries_insert(t, k, v);
        assert(other != k ==> entries_get(r, other) == entries_get(s, other));
        assert forall|i: int, j: int| 0 <= i < j < r.len() implies seq_lt(#[trigger] r[i].0, #[trigger] r[j].0) by {
            if i == 0 {
                // r[j] is an entry of t, or the new one.
                lemma_entries_insert_members(t, k, v);
                assert(r[j] == ti[j - 1]);
                if ti[j - 1].0 != k {
                    let m = choose|m: int| 0 <= m < t.len() && ti[j - 1] == t[m];
                    assert(t[m] == s[m + 1]);
                }
            } else {
                assert(r[i] == ti[i - 1] && r[j] == ti[j - 1]);
            }
        }
    } else if s.len() > 0 && s[0].0 == k {
        let r = entries_insert(s, k, v);
        assert(r.drop_first() =~= s.drop_first());
        assert(other != k ==> entries_get(r, other) == entries_get(s, other));
        assert forall|i: int, j: int| 0 <= i < j < r.len() implies seq_lt(#[trigger] r[i].0, #[trigger] r[j].0) by {
            assert(r[j] == s[j]);
            if i > 0 {
                assert(r[i] == s[i]);
            }
        }
    } else if s.len() > 0 {
        let r = entries_insert(s, k, v);
        assert(r.drop_first() =~= s);
        lemma_seq_lt_asymmetric(k, s[0].0);
        assert forall|i: int, j: int| 0 <= i < j < r.len() implies seq_lt(#[trigger] r[i].0, #[trigger] r[j].0) by {
            assert(r[j] == s[j - 1]);
            if i > 0 {
                assert(r[i] == s[i - 1]);
            } else if j - 1 > 0 {
                lemma_seq_lt_transitive(k, s[0].0, s[j - 1].0);
            }
        }
        assert(entries_get(r, other) == entries_get(s, other) || other == k);
    } else {
        let r = entries_insert(s, k, v);
        assert(r.drop_first() =~= Seq::<(Seq<char>, V)>::empty());
        assert(entries_get(r.drop_first(), other) is None);
    }
}

proof fn lemma_entries_insert_members<V>(s: Seq<(Seq<char>, V)>, k: Seq<char>, v: V)
    ensures
        forall|i: int|
            0 <= i < entries_insert(s, k, v).len() ==> (#[trigger] entries_insert(s, k, v)[i]) == (k, v)
                || exists|m: int| 0 <= m < s.len() && entries_insert(s, k, v)[i] == s[m],
    decreases s.len(),
{
    let r = entries_insert(s, k, v);
    if s.len() > 0 && s[0].0 != k && !seq_lt(k, s[0].0) {
        let t = s.drop_first();
        lemma_entries_insert_members(t, k, v);
        let ti = entries_insert(t, k, v);
        assert forall|i: int| 0 <= i < r.len() implies (#[trigger] r[i]) == (k, v) || exists|m: int|
            0 <= m < s.len() && r[i] == s[m] by {
            if i == 0 {
                assert(r[0] == s[0]);
            } else {
                assert(r[i] == ti[i - 1]);
                if ti[i - 1] != (k, v) {
                    let m = choose|m: int| 0 <= m < t.len() && ti[i - 1] == t[m];
                    assert(t[m] == s[m + 1]);
                }
            }
        }
    } else if s.len() > 0 && s[0].0 == k {
        assert forall|i: int| 0 <= i < r.len() implies (#[trigger] r[i]) == (k, v) || exists|m: int|
            0 <= m < s.len() && r[i] == s[m] by {
            if i > 0 {
                assert(r[i] == s[i]);
            }
        }
    } else if s.len() > 0 {
        assert forall|i: int| 0 <= i < r.len() implies (#[trigger] r[i]) == (k, v) || exists|m: int|
            0 <= m < s.len() && r[i] == s[m] by {
            if i > 0 {
                assert(r[i] == s[i - 1]);
            }
        }
    }
}

// ── RADIUS user database ────────────────────────────────────────────────────

/// A Wi-Fi password (`wifi-station` section of `wireless`): the key, the
/// VLAN it puts a device on (none for an admin password), its label.
#[derive(Debug)]
pub struct WifiStation {
    pub key: String,
    pub vid: Option<u16>,
    pub label: Option<String>,
}

pub struct StationView {
    pub key: Seq<char>,
    pub vid: Option<u16>,
    pub label: Option<Seq<char>>,
}

impl View for WifiStation {
    type V = StationView;

    open spec fn view(&self) -> StationView {
        StationView { key: self.key@, vid: self.vid, label: opt_view(self.label) }
    }
}

/// One RADIUS user's credential: its password and the VLAN it is put on.
#[derive(Debug)]
pub struct RadiusCredential {
    pub password: String,
    pub vlan_id: u16,
}

impl View for RadiusCredential {
    type V = (Seq<char>, u16);

    open spec fn view(&self) -> (Seq<char>, u16) {
        (self.password@, self.vlan_id)
    }
}

/// The RADIUS user a password becomes, if any: only a password bound to a
/// profile's VLAN does; its username is its label, or the profile's full
/// name when the label is absent or empty.
pub open spec fn station_user(st: StationView, profiles: Seq<ProfileView>) -> Option<(Seq<char>, (Seq<char>, u16))> {
    match st.vid {
        None => None,
        Some(v) => match lookup_vlan(profiles, v) {
            None => None,
            Some(p) => Some((
                if st.label is Some && st.label->0.len() > 0 {
                    st.label->0
                } else {
                    p.fullname
                },
                (st.key, p.vlan_tag),
            )),
        },
    }
}

/// The RADIUS users of a sequence of passwords, by username in ascending
/// order; of two passwords with one username the later one wins.
pub open spec fn users_spec(stations: Seq<StationView>, profiles: Seq<ProfileView>) -> Seq<(Seq<char>, (Seq<char>, u16))>
    decreases stations.len(),
{
    if stations.len() == 0 {
        Seq::empty()
    } else {
        let m = users_spec(stations.drop_last(), profiles);
        match station_user(stations.last(), profiles) {
            None => m,
            Some(u) => entries_insert(m, u.0, u.1),
        }
    }
}

/// The RADIUS user database of a sequence of passwords is in ascending
/// order of username, so each username occurs once.
proof fn lemma_users_sorted(stations: Seq<StationView>, profiles: Seq<ProfileView>)
    ensures
        keys_sorted(users_spec(stations, profiles)),
    decreases stations.len(),
{
    if stations.len() > 0 {
        lemma_users_sorted(stations.drop_last(), profiles);
        let m = users_spec(stations.drop_last(), profiles);
        if let Some(u) = station_user(stations.last(), profiles) {
            lemma_insert_then_get(m, u.0, u.1, u.0);
        }
    }
}

/// Whether the RADIUS user `u` (name, then password and VLAN) comes from the
/// password `st`: its VLAN is a profile's, the name is its label when that
/// is non-empty and the profile's full name otherwise, and the user has its
/// key and the profile's VLAN.
pub open spec fn user_from_password(
    st: StationView,
    profiles: Seq<ProfileView>,
    u: (Seq<char>, (Seq<char>, u16)),
) -> bool {
    &&& st.vid is Some
    &&& lookup_vlan(profiles, st.vid->0) is Some
    &&& u.0 == (if st.label is Some && st.label->0.len() > 0 {
        st.label->0
    } else {
        lookup_vlan(profiles, st.vid->0)->0.fullname
    })
    &&& u.1 == (st.key, lookup_vlan(profiles, st.vid->0)->0.vlan_tag)
}

/// Every password whose VLAN matches a profile becomes a RADIUS user: the
/// user named by its label when the label is non-empty, and by the
/// profile's full name when the label is absent or empty.
pub proof fn lemma_bound_password_is_a_user(stations: Seq<StationView>, profiles: Seq<ProfileView>, i: int)
    requires
        0 <= i < stations.len(),
        stations[i].vid is Some,
        lookup_vlan(profiles, stations[i].vid->0) is Some,
    ensures
        entries_get(
            users_spec(stations, profiles),
            if stations[i].label is Some && stations[i].label->0.len() > 0 {
                stations[i].label->0
            } else {
                lookup_vlan(profiles, stations[i].vid->0)->0.fullname
            },
        ) is Some,
    decreases stations.len(),
{
    let n = stations.len() - 1;
    let d = stations.drop_last();
    let m = users_spec(d, profiles);
    lemma_users_sorted(d, profiles);
    let name = if stations[i].label is Some && stations[i].label->0.len() > 0 {
        stations[i].label->0
    } else {
        lookup_vlan(profiles, stations[i].vid->0)->0.fullname
    };
    if i == n {
        let u = station_user(stations.last(), profiles)->0;
        assert(station_user(stations.last(), profiles) is Some);
        assert(u.0 == name);
        lemma_insert_then_get(m, u.0, u.1, name);
    } else {
        assert(d[i] == stations[i]);
        lemma_bound_password_is_a_user(d, profiles, i);
        if let Some(u) = station_user(stations.last(), profiles) {
            lemma_insert_then_get(m, u.0, u.1, name);
        }
    }
}

/// Every RADIUS user comes from a password (see `user_from_password`), and
/// no two users share a name.
pub proof fn lemma_every_user_comes_from_a_password(stations: Seq<StationView>, profiles: Seq<ProfileView>)
    ensures
        forall|k: int|
            0 <= k < users_spec(stations, profiles).len() ==> exists|i: int|
                0 <= i < stations.len() && user_from_password(
                    stations[i],
                    profiles,
                    #[trigger] users_spec(stations, profiles)[k],
                ),
        keys_sorted(users_spec(stations, profiles)),
    decreases stations.len(),
{
    lemma_users_sorted(stations, profiles);
    if stations.len() > 0 {
        let n = stations.len() - 1;
        let d = stations.drop_last();
        let m = users_spec(d, profiles);
        lemma_every_user_comes_from_a_password(d, profiles);
        let r = users_spec(stations, profiles);
        match station_user(stations.last(), profiles) {
            None => {
                assert forall|k: int| 0 <= k < r.len() implies exists|i: int|
                    0 <= i < stations.len() && user_from_password(stations[i], profiles, #[trigger] r[k]) by {
                    let i = choose|i: int| 0 <= i < d.len() && user_from_password(d[i], profiles, m[k]);
                    assert(d[i] == stations[i]);
                }
            },
            Some(u) => {
                lemma_entries_insert_members(m, u.0, u.1);
                assert(user_from_password(stations[n], profiles, u));
                assert forall|k: int| 0 <= k < r.len() implies exists|i: int|
                    0 <= i < stations.len() && user_from_password(stations[i], profiles, #[trigger] r[k]) by {
                    if r[k] != u {
                        let j = choose|j: int| 0 <= j < m.len() && r[k] == m[j];
                        let i = choose|i: int| 0 <= i < d.len() && user_from_password(d[i], profiles, m[j]);
                        assert(d[i] == stations[i]);
                    }
                }
            },
        }
    }
}

pub open spec fn stations_view(s: Seq<WifiStation>) -> Seq<StationView> {
    s.map_values(|x: WifiStation| x@)
}

/// The RADIUS user database derived from the Wi-Fi passwords: each
/// profile-bound password becomes one user (username → password, VLAN);
/// admin passwords (no VLAN) and passwords whose VLAN matches no profile are
/// left out.
pub fn radius_users(stations: &Vec<WifiStation>, lookup: &ProfileLookup) -> (r: Vec<(String, RadiusCredential)>)
    ensures
        pairs_view(r@) == users_spec(stations_view(stations@), profiles_view(*lookup)),
        keys_sorted(pairs_view(r@)),
{
    let ghost sv = stations_view(stations@);
    let ghost pv = profiles_view(*lookup);
    let mut users: Vec<(String, RadiusCredential)> = Vec::new();
    assert(pairs_view(users@) =~= Seq::<(Seq<char>, (Seq<char>, u16))>::empty());
    assert(sv.take(0) =~= Seq::<StationView>::empty());
    let mut i: usize = 0;
    while i < stations.len()
        invariant
            sv == stations_view(stations@),
            pv == profiles_view(*lookup),
            i <= stations@.len(),
            pairs_view(users@) == users_spec(sv.take(i as int), pv),
            keys_sorted(pairs_view(users@)),
        decreases stations@.len() - i,
    {
        assert(sv.take(i + 1).drop_last() =~= sv.take(i as int));
        assert(sv.take(i + 1).last() == stations@[i as int]@);
        let st = &stations[i];
        if let Some(vid) = st.vid {
            if let Some(profile) = lookup.from_vlan(vid) {
                let username = match &st.label {
                    Some(l) => if l.as_str().unicode_len() > 0 {
                        l.clone()
                    } else {
                        profile.fullname.clone()
                    },
                    None => profile.fullname.clone(),
                };
                sorted_insert(
                    &mut users,
                    username,
                    RadiusCredential { password: st.key.clone(), vlan_id: profile.vlan_tag },
                );
            }
        }
        i = i + 1;
    }
    assert(sv.take(stations@.len() as int) =~= sv);
    users
}

/// The JSON member of one RADIUS user: its name, mapped to its password, the
/// one inner method `MSCHAPV2` and its VLAN id.
pub open spec fn user_entry(u: (Seq<char>, (Seq<char>, u16))) -> (Seq<char>, JsonView) {
    (
        u.0,
        JsonView::Obj(
            seq![
                ("methods"@, JsonView::Arr(seq![JsonView::Str("MSCHAPV2"@)])),
                ("password"@, JsonView::Str(u.1.0)),
                ("vlan-id"@, JsonView::Num(u.1.1 as u64)),
            ],
        ),
    )
}

/// The `phase1` object of the RADIUS user database: any outer identity
/// (`*`), tunnelled with `PEAP`.
pub open spec fn phase1_doc() -> JsonView {
    JsonView::Obj(
        seq![
            (
                "wildcard"@,
                JsonView::Arr(
                    seq![
                        JsonView::Obj(
                            seq![
                                ("methods"@, JsonView::Arr(seq![JsonView::Str("PEAP"@)])),
                                ("name"@, JsonView::Str("*"@)),
                            ],
                        ),
                    ],
                ),
            ),
        ],
    )
}

/// The RADIUS user database as a JSON document: `phase1`, and
/// `phase2.users` holding one member per user, in the order of `users`.
/// Members of each object stand in ascending key order.
pub open spec fn users_doc(users: Seq<(Seq<char>, (Seq<char>, u16))>) -> JsonView {
    JsonView::Obj(
        seq![
            ("phase1"@, phase1_doc()),
            ("phase2"@, JsonView::Obj(seq![("users"@, JsonView::Obj(users.map_values(|u| user_entry(u))))])),
        ],
    )
}

/// A JSON array of one string.
fn str_list(s: &str) -> (r: Json)
    ensures
        r@ == JsonView::Arr(seq![JsonView::Str(s@)]),
{
    let mut items: Vec<Json> = Vec::new();
    items.push(json_str(s));
    let r = json_arr(items);
    proof {
        if let JsonView::Arr(a) = r@ {
            assert(a =~= seq![JsonView::Str(s@)]);
        }
    }
    r
}

/// The JSON member of one RADIUS user.
fn user_json(name: &String, cred: &RadiusCredential) -> (r: (String, Json))
    ensures
        (r.0@, r.1@) == user_entry((name@, cred@)),
{
    let mut fields: Vec<(String, Json)> = Vec::new();
    fields.push(("methods".to_owned(), str_list("MSCHAPV2")));
    fields.push(("password".to_owned(), json_str(cred.password.as_str())));
    fields.push(("vlan-id".to_owned(), Json::Num(cred.vlan_id as u64)));
    let obj = json_obj(fields);
    let ghost want = user_entry((name@, cred@));
    proof {
        if let JsonView::Obj(a) = obj@ {
            if let JsonView::Obj(b) = want.1 {
                assert(a =~~= b);
            }
        }
    }
    (name.clone(), obj)
}

/// The `phase1` object: any outer identity, tunnelled with `PEAP`.
fn phase1_json() -> (r: Json)
    ensures
        r@ == phase1_doc(),
{
    let ghost peap = JsonView::Obj(
        seq![("methods"@, JsonView::Arr(seq![JsonView::Str("PEAP"@)])), ("name"@, JsonView::Str("*"@))],
    );
    let mut wildcard: Vec<(String, Json)> = Vec::new();
    wildcard.push(("methods".to_owned(), str_list("PEAP")));
    wildcard.push(("name".to_owned(), json_str("*")));
    let w = json_obj(wildcard);
    proof {
        if let JsonView::Obj(a) = w@ {
            if let JsonView::Obj(b) = peap {
                assert(a =~~= b);
            }
        }
        assert(w@ == peap);
    }
    let mut items: Vec<Json> = Vec::new();
    items.push(w);
    let arr = json_arr(items);
    proof {
        if let JsonView::Arr(a) = arr@ {
            assert(a =~~= seq![peap]);
        }
        assert(arr@ == JsonView::Arr(seq![peap]));
    }
    let mut fields: Vec<(String, Json)> = Vec::new();
    fields.push(("wildcard".to_owned(), arr));
    let r = json_obj(fields);
    proof {
        if let JsonView::Obj(a) = r@ {
            assert(a =~~= seq![("wildcard"@, JsonView::Arr(seq![peap]))]);
        }
        assert(r@ == JsonView::Obj(seq![("wildcard"@, JsonView::Arr(seq![peap]))]));
    }
    r
}

/// The RADIUS user database document of the given users.
fn users_json(users: &Vec<(String, RadiusCredential)>) -> (r: Json)
    ensures
        r@ == users_doc(pairs_view(users@)),
{
    let ghost u = pairs_view(users@);
    let mut members: Vec<(String, Json)> = Vec::new();
    assert(members@.map_values(|f: (String, Json)| (f.0@, f.1@)) =~= u.take(0).map_values(|x| user_entry(x)));
    let mut i: usize = 0;
    while i < users.len()
        invariant
            u == pairs_view(users@),
            i <= users@.len(),
            members@.map_values(|f: (String, Json)| (f.0@, f.1@)) == u.take(i as int).map_values(
                |x| user_entry(x),
            ),
        decreases users@.len() - i,
    {
        let ghost before = members@;
        assert(u[i as int] == (users@[i as int].0@, users@[i as int].1@));
        let m = user_json(&users[i].0, &users[i].1);
        let ghost mv = (m.0@, m.1@);
        members.push(m);
        assert(u.take(i + 1) =~= u.take(i as int).push(u[i as int]));
        assert(members@.map_values(|f: (String, Json)| (f.0@, f.1@)) =~= before.map_values(
            |f: (String, Json)| (f.0@, f.1@),
        ).push(mv));
        assert(u.take(i + 1).map_values(|x| user_entry(x)) =~= u.take(i as int).map_values(
            |x| user_entry(x),
        ).push(user_entry(u[i as int])));
        i = i + 1;
    }
    assert(u.take(users@.len() as int) =~= u);
    let ghost uv = JsonView::Obj(u.map_values(|x| user_entry(x)));
    let users_obj = json_obj(members);
    assert(users_obj@ == uv);
    let mut phase2: Vec<(String, Json)> = Vec::new();
    phase2.push(("users".to_owned(), users_obj));
    let p2 = json_obj(phase2);
    proof {
        if let JsonView::Obj(a) = p2@ {
            assert(a =~~= seq![("users"@, uv)]);
        }
        assert(p2@ == JsonView::Obj(seq![("users"@, uv)]));
    }
    let p1 = phase1_json();
    let ghost p1v = p1@;
    let mut doc: Vec<(String, Json)> = Vec::new();
    doc.push(("phase1".to_owned(), p1));
    doc.push(("phase2".to_owned(), p2));
    let r = json_obj(doc);
    proof {
        if let JsonView::Obj(a) = r@ {
            assert(a =~~= seq![("phase1"@, p1v), ("phase2"@, JsonView::Obj(seq![("users"@, uv)]))]);
        }
        if let JsonView::Obj(e) = users_doc(u) {
            assert(e =~~= seq![("phase1"@, p1v), ("phase2"@, JsonView::Obj(seq![("users"@, uv)]))]);
        }
    }
    r
}

/// The text of the RADIUS user database (`/etc/radius/users`) derived from
/// the Wi-Fi passwords: the pretty-printed JSON document of `radius_users`.
pub fn build_radius_users_json(stations: &Vec<WifiStation>, lookup: &ProfileLookup) -> (r: String)
    ensures
        r@ == json_pretty(users_doc(users_spec(stations_view(stations@), profiles_view(*lookup)))),
{
    let users = radius_users(stations, lookup);
    let doc = users_json(&users);
    pretty(&doc)
}

// ── Status ──────────────────────────────────────────────────────────────────

/// The ports in `ports` whose mode is `Dot1xClient`, in order.
pub open spec fn client_ports(ports: Seq<(Seq<char>, ModeView)>) -> Seq<Seq<char>>
    decreases ports.len(),
{
    if ports.len() == 0 {
        Seq::empty()
    } else {
        let rest = client_ports(ports.drop_last());
        if ports.last().1 is Dot1xClient {
            rest.push(ports.last().0)
        } else {
            rest
        }
    }
}

/// `client_ports` lists exactly the `Dot1xClient` ports: each port it lists
/// is a port of the map whose mode is `Dot1xClient`, and each port of the
/// map whose mode is `Dot1xClient` is listed.
pub proof fn lemma_client_ports_exact(ports: Seq<(Seq<char>, ModeView)>)
    ensures
        forall|k: int| 0 <= k < client_ports(ports).len() ==> exists|m: int|
            0 <= m < ports.len() && #[trigger] client_ports(ports)[k] == ports[m].0 && ports[m].1 is Dot1xClient,
        forall|m: int| 0 <= m < ports.len() && (#[trigger] ports[m]).1 is Dot1xClient ==> exists|k: int|
            0 <= k < client_ports(ports).len() && client_ports(ports)[k] == ports[m].0,
    decreases ports.len(),
{
    if ports.len() > 0 {
        let p = ports.drop_last();
        lemma_client_ports_exact(p);
        let rest = client_ports(p);
        let cp = client_ports(ports);
        let n = ports.len() - 1;
        if ports[n].1 is Dot1xClient {
            assert(cp == rest.push(ports[n].0));
        } else {
            assert(cp == rest);
        }
        assert forall|k: int| 0 <= k < cp.len() implies exists|m: int|
            0 <= m < ports.len() && #[trigger] cp[k] == ports[m].0 && ports[m].1 is Dot1xClient by {
            if k < rest.len() {
                let m = choose|m: int| 0 <= m < p.len() && rest[k] == p[m].0 && p[m].1 is Dot1xClient;
                assert(p[m] == ports[m]);
                assert(cp[k] == rest[k]);
            } else {
                assert(cp[k] == ports[n].0);
            }
        }
        assert forall|m: int| 0 <= m < ports.len() && (#[trigger] ports[m]).1 is Dot1xClient implies exists|k: int|
            0 <= k < cp.len() && cp[k] == ports[m].0 by {
            if m < n {
                assert(p[m] == ports[m]);
                let k = choose|k: int| 0 <= k < rest.len() && rest[k] == p[m].0;
                assert(cp[k] == rest[k]);
            } else {
                assert(cp[rest.len() as int] == ports[n].0);
            }
        }
    }
}

/// Whether `port` is a port of the map whose mode is `Dot1xClient`.
pub open spec fn is_client_port(ports: Seq<(Seq<char>, ModeView)>, port: Seq<char>) -> bool {
    exists|m: int| 0 <= m < ports.len() && ports[m].0 == port && ports[m].1 is Dot1xClient
}

proof fn lemma_listed_ports_exact(names: Seq<String>, ports: Seq<(Seq<char>, ModeView)>)
    requires
        names.map_values(|s: String| s@) == client_ports(ports),
    ensures
        forall|k: int| 0 <= k < names.len() ==> is_client_port(ports, #[trigger] names[k]@),
        forall|m: int| 0 <= m < ports.len() && (#[trigger] ports[m]).1 is Dot1xClient ==> exists|k: int|
            0 <= k < names.len() && names[k]@ == ports[m].0,
{
    lemma_client_ports_exact(ports);
    let cp = client_ports(ports);
    assert forall|k: int| 0 <= k < names.len() implies is_client_port(ports, #[trigger] names[k]@) by {
        assert(names.map_values(|s: String| s@)[k] == names[k]@);
        assert(cp[k] == names[k]@);
        let m = choose|m: int| 0 <= m < ports.len() && cp[k] == ports[m].0 && ports[m].1 is Dot1xClient;
        assert(ports[m].0 == names[k]@);
    }
    assert forall|m: int| 0 <= m < ports.len() && (#[trigger] ports[m]).1 is Dot1xClient implies exists|k: int|
        0 <= k < names.len() && names[k]@ == ports[m].0 by {
        let k = choose|k: int| 0 <= k < cp.len() && cp[k] == ports[m].0;
        assert(names.map_values(|s: String| s@)[k] == names[k]@);
    }
}

/// Each port that `client_ports` lists is a port of the map, and from a map
/// in ascending port order it lists the ports in ascending order.
proof fn lemma_client_ports_ascending(ports: Seq<(Seq<char>, ModeView)>)
    requires
        keys_sorted(ports),
    ensures
        forall|k: int| 0 <= k < client_ports(ports).len() ==> exists|m: int|
            0 <= m < ports.len() && #[trigger] client_ports(ports)[k] == ports[m].0,
        forall|a: int, b: int|
            0 <= a < b < client_ports(ports).len() ==> seq_lt(
                #[trigger] client_ports(ports)[a],
                #[trigger] client_ports(ports)[b],
            ),
    decreases ports.len(),
{
    if ports.len() > 0 {
        let p = ports.drop_last();
        assert forall|i: int, j: int| 0 <= i < j < p.len() implies seq_lt(#[trigger] p[i].0, #[trigger] p[j].0) by {
            assert(p[i] == ports[i] && p[j] == ports[j]);
        }
        lemma_client_ports_ascending(p);
        let rest = client_ports(p);
        let cp = client_ports(ports);
        assert forall|k: int| 0 <= k < rest.len() implies seq_lt(#[trigger] rest[k], ports.last().0) by {
            let m = choose|m: int| 0 <= m < p.len() && rest[k] == p[m].0;
            assert(p[m] == ports[m]);
        }
        if ports.last().1 is Dot1xClient {
            assert(cp == rest.push(ports.last().0));
            assert forall|k: int| 0 <= k < cp.len() implies exists|m: int|
                0 <= m < ports.len() && #[trigger] cp[k] == ports[m].0 by {
                if k < rest.len() {
                    let m = choose|m: int| 0 <= m < p.len() && rest[k] == p[m].0;
                    assert(p[m] == ports[m]);
                    assert(cp[k] == rest[k]);
                } else {
                    assert(cp[k] == ports[ports.len() - 1].0);
                }
            }
            assert forall|a: int, b: int| 0 <= a < b < cp.len() implies seq_lt(#[trigger] cp[a], #[trigger] cp[b]) by {
                assert(cp[a] == rest[a]);
                if b < rest.len() {
                    assert(cp[b] == rest[b]);
                }
            }
        } else {
            assert forall|k: int| 0 <= k < cp.len() implies exists|m: int|
                0 <= m < ports.len() && #[trigger] cp[k] == ports[m].0 by {
                let m = choose|m: int| 0 <= m < p.len() && rest[k] == p[m].0;
                assert(p[m] == ports[m]);
            }
        }
    }
}

/// The ports of `cfg` that authenticate devices (mode `Dot1xClient`), in
/// ascending port order.
pub fn dot1x_client_ports(cfg: &Dot1xConfig) -> (r: Vec<String>)
    ensures
        r@.map_values(|s: String| s@) == client_ports(cfg.ports@),
        forall|k: int| 0 <= k < r@.len() ==> is_client_port(cfg.ports@, #[trigger] r@[k]@),
        forall|m: int| 0 <= m < cfg.ports@.len() && (#[trigger] cfg.ports@[m]).1 is Dot1xClient ==> exists|k: int|
            0 <= k < r@.len() && r@[k]@ == cfg.ports@[m].0,
{
    let ghost pv = cfg.ports@;
    let mut out: Vec<String> = Vec::new();
    assert(pv.take(0) =~= Seq::<(Seq<char>, ModeView)>::empty());
    assert(out@.map_values(|s: String| s@) =~= Seq::<Seq<char>>::empty());
    let mut i: usize = 0;
    while i < cfg.ports.len()
        invariant
            pv == cfg.ports@,
            i <= pv.len(),
            out@.map_values(|s: String| s@) == client_ports(pv.take(i as int)),
        decreases pv.len() - i,
    {
        assert(pv.take(i + 1).drop_last() =~= pv.take(i as int));
        let (port, mode) = cfg.ports.entry(i);
        assert(pv.take(i + 1).last() == (port@, mode@));
        if let PortAuthMode::Dot1xClient { .. } = mode {
            let ghost before = out@;
            out.push(port.clone());
            assert(out@.map_values(|s: String| s@) =~= before.map_values(|s: String| s@).push(port@));
        }
        i = i + 1;
    }
    assert(pv.take(pv.len() as int) =~= pv);
    proof {
        lemma_listed_ports_exact(out@, pv);
    }
    out
}

/// The name of the hostapd authenticator object of a port: `hostapd.<port>`.
pub fn hostapd_object(port: &str) -> (r: String)
    ensures
        r@ == "hostapd."@ + port@,
{
    let mut s = "hostapd.".to_owned();
    s.append(port);
    s
}

/// Names what `serde_json` makes of a text: parsed as a JSON value, the
/// keys of the object stored under `key`; `None` when the text is not JSON
/// or holds no object there.
pub uninterp spec fn json_object_keys_at(text: Seq<char>, key: Seq<char>) -> Option<Seq<Seq<char>>>;

/// Parses `text` with `serde_json::from_str` into a `serde_json::Value`,
/// takes `Value::get(key)`, `Value::as_object`, and lists the keys of that
/// map (`Map::keys`). Claims: the result is `json_object_keys_at(text, key)`,
/// and the listed keys are distinct (they are the keys of one map). The order
/// of the keys is not stated: it is the map's, which a build feature of
/// `serde_json` decides.
#[verifier::external_body]
fn json_object_keys(text: &str, key: &str) -> (r: Option<Vec<String>>)
    ensures
        match r {
            Some(v) => json_object_keys_at(text@, key@) == Some(v@.map_values(|s: String| s@))
                && forall|i: int, j: int| 0 <= i < j < v@.len() ==> (#[trigger] v@[i])@ != (#[trigger] v@[j])@,
            None => json_object_keys_at(text@, key@) is None,
        },
{
    serde_json::from_str::<serde_json::Value>(text).ok().and_then(
        |v| v.get(key).and_then(|c| c.as_object()).map(|m| m.keys().cloned().collect()),
    )
}

/// No two of the strings are equal.
pub open spec fn strings_distinct(s: Seq<String>) -> bool {
    forall|i: int, j: int| 0 <= i < j < s.len() ==> (#[trigger] s[i])@ != (#[trigger] s[j])@
}

/// The client MACs of a hostapd `get_clients` answer
/// (`{ "clients": { "<MAC>": { ... }, ... } }`): the keys of its `clients`
/// object, or none when the answer is not of that shape.
pub fn parse_client_macs(ubus_out: &str) -> (r: Vec<String>)
    ensures
        match json_object_keys_at(ubus_out@, "clients"@) {
            Some(keys) => r@.map_values(|s: String| s@) == keys,
            None => r@.len() == 0,
        },
        strings_distinct(r@),
{
    match json_object_keys(ubus_out, "clients") {
        Some(keys) => keys,
        None => Vec::new(),
    }
}

/// The status of one `Dot1xClient` port from its authenticator's answer:
/// present iff the answer is not empty.
pub fn port_status(port: String, ubus_out: &str) -> (r: PortStatus)
    ensures
        r.port == port,
        r.present == (ubus_out@.len() > 0),
        match json_object_keys_at(ubus_out@, "clients"@) {
            Some(keys) => r.clients@.map_values(|s: String| s@) == keys,
            None => r.clients@.len() == 0,
        },
        strings_distinct(r.clients@),
{
    let present = !ubus_out.is_empty();
    PortStatus { port, present, clients: parse_client_macs(ubus_out) }
}

/// The runtime status of a router: its configuration's enable bit and role,
/// and one entry per `Dot1xClient` port (in port order) built from that
/// port's authenticator answer, given in the same order.
pub fn status(cfg: &Dot1xConfig, ubus_outputs: &Vec<String>) -> (r: Dot1xStatus)
    requires
        ubus_outputs@.len() == client_ports(cfg.ports@).len(),
    ensures
        r.enabled == cfg.enabled,
        r.role == cfg.role,
        r.ports@.len() == ubus_outputs@.len(),
        forall|a: int, b: int|
            0 <= a < b < r.ports@.len() ==> seq_lt(#[trigger] r.ports@[a].port@, #[trigger] r.ports@[b].port@),
        forall|i: int|
            0 <= i < r.ports@.len() ==> (#[trigger] r.ports@[i]).port@ == client_ports(cfg.ports@)[i]
                && r.ports@[i].present == (ubus_outputs@[i]@.len() > 0) && match json_object_keys_at(
                ubus_outputs@[i]@,
                "clients"@,
            ) {
                Some(keys) => r.ports@[i].clients@.map_values(|s: String| s@) == keys,
                None => r.ports@[i].clients@.len() == 0,
            } && strings_distinct(r.ports@[i].clients@),
{
    let names = dot1x_client_ports(cfg);
    let ghost nv = names@.map_values(|s: String| s@);
    let mut ports: Vec<PortStatus> = Vec::new();
    let mut i: usize = 0;
    while i < names.len()
        invariant
            nv == names@.map_values(|s: String| s@),
            nv == client_ports(cfg.ports@),
            ubus_outputs@.len() == names@.len(),
            i <= names@.len(),
            ports@.len() == i,
            forall|k: int|
                0 <= k < i ==> (#[trigger] ports@[k]).port@ == nv[k] && ports@[k].present == (
                ubus_outputs@[k]@.len() > 0) && match json_object_keys_at(ubus_outputs@[k]@, "clients"@) {
                    Some(keys) => ports@[k].clients@.map_values(|s: String| s@) == keys,
                    None => ports@[k].clients@.len() == 0,
                } && strings_distinct(ports@[k].clients@),
        decreases names@.len() - i,
    {
        let st = port_status(names[i].clone(), ubus_outputs[i].as_str());
        ports.push(st);
        i = i + 1;
    }
    proof {
        lemma_ports_ascending(cfg.ports);
        lemma_client_ports_ascending(cfg.ports@);
        assert forall|a: int, b: int| 0 <= a < b < ports@.len() implies seq_lt(
            #[trigger] ports@[a].port@,
            #[trigger] ports@[b].port@,
        ) by {
            assert(ports@[a].port@ == nv[a] && ports@[b].port@ == nv[b]);
        }
    }
    Dot1xStatus { enabled: cfg.enabled, role: cfg.role, ports }
}

/// Whether a system log line comes from the authenticator or the RADIUS
/// server: it mentions `hostapd`, `radius` or `RADIUS`.
pub fn is_auth_log_line(line: &str) -> (r: bool)
    ensures
        r == (contains_seq(line@, "hostapd"@) || contains_seq(line@, "radius"@) || contains_seq(
            line@,
            "RADIUS"@,
        )),
{
    str_contains(line, "hostapd") || str_contains(line, "radius") || str_contains(line, "RADIUS")
}

/// A service that applying the 802.1X configuration reloads.
#[derive(Debug, Clone, Copy, PartialEq, Eq, Structural)]
pub enum Service {
    /// The RADIUS server (`/etc/init.d/radius reload`).
    Radius,
    /// hostapd, so that per-port authenticator configs are re-applied.
    Wifi,
}

/// The services to reload after writing a configuration of this role: the
/// RADIUS server on a Core, then hostapd in every case.
pub fn services_to_reload(role: Dot1xRole) -> (r: Vec<Service>)
    ensures
        role == Dot1xRole::Core ==> r@ == seq![Service::Radius, Service::Wifi],
        role == Dot1xRole::Satellite ==> r@ == seq![Service::Wifi],
{
    let mut v = Vec::new();
    if role == Dot1xRole::Core {
        v.push(Service::Radius);
    }
    v.push(Service::Wifi);
    assert(role == Dot1xRole::Core ==> v@ =~= seq![Service::Radius, Service::Wifi]);
    assert(role == Dot1xRole::Satellite ==> v@ =~= seq![Service::Wifi]);
    v
}

} // verus!
