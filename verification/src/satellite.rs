//! Satellite-router support: the router role, the Core's registry of paired
//! satellites, the transit addressing plan and the listen-port allocator.
//!
//! A StartWRT router is either a **Core** (owns the profiles, holds the only
//! WAN) or a **Satellite** (extends coverage and reaches the Core over
//! per-profile WireGuard tunnels). Everything here is decided on plain values:
//! the role marker and the registry are loaded and persisted by the caller.

use vstd::prelude::*;
use crate::addr::Ipv4Address;
use crate::text::{str_eq, trim_ascii_lowercase, ascii_lower, trim};

verus! {

// ── Role ────────────────────────────────────────────────────────────────────

/// Which role this physical router plays. A router with no marker is a
/// standalone **Core**.
#[derive(Clone, Copy, Debug, PartialEq, Eq, Structural)]
pub enum RouterRole {
    Core,
    Satellite,
}

impl Default for RouterRole {
    fn default() -> (r: Self)
        ensures
            r == RouterRole::Core,
    {
        RouterRole::Core
    }
}

/// Persisted role marker.
#[derive(Debug)]
pub struct RoleMarker {
    pub role: RouterRole,
    /// On a Satellite, the Core's reachable endpoint on the inter-router link.
    pub core_endpoint: Option<String>,
}

impl Default for RoleMarker {
    fn default() -> (r: Self)
        ensures
            r.role == RouterRole::Core,
            r.core_endpoint is None,
    {
        RoleMarker { role: RouterRole::Core, core_endpoint: None }
    }
}

impl Clone for RoleMarker {
    fn clone(&self) -> (r: Self)
        ensures
            r == *self,
    {
        RoleMarker { role: self.role, core_endpoint: self.core_endpoint.clone() }
    }
}

/// Errors of the satellite operations.
#[derive(Debug)]
pub enum SatelliteError {
    /// The role text is neither `core` nor `satellite` (after trimming and
    /// lowercasing); carries the normalised text.
    InvalidRole { role: String },
    /// The operation is only available on a Core router.
    CoreOnly,
    /// The operation is only available on a Satellite router.
    SatelliteOnly,
    /// A satellite with this name is already paired.
    DuplicateName { name: String },
    /// A satellite with this public key is already paired.
    DuplicatePublicKey,
    /// No paired satellite has this name.
    NotFound { name: String },
}

/// The text a role is recognised by: trimmed of whitespace, ASCII-lowercased.
pub open spec fn role_key(s: Seq<char>) -> Seq<char> {
    ascii_lower(trim(s))
}

/// Parses a role name: `core` or `satellite`, ignoring surrounding whitespace
/// and ASCII case.
pub fn parse_role(s: &str) -> (r: Result<RouterRole, SatelliteError>)
    ensures
        role_key(s@) == "core"@ ==> r == Ok::<RouterRole, SatelliteError>(RouterRole::Core),
        role_key(s@) == "satellite"@ ==> r == Ok::<RouterRole, SatelliteError>(
            RouterRole::Satellite,
        ),
        role_key(s@) != "core"@ && role_key(s@) != "satellite"@ ==> (r matches Err(
            SatelliteError::InvalidRole { role },
        ) && role@ == role_key(s@)),
{
    let key = trim_ascii_lowercase(s);
    proof {
        reveal_strlit("core");
        reveal_strlit("satellite");
        assert("core"@.len() != "satellite"@.len());
    }
    if str_eq(key.as_str(), "core") {
        Ok(RouterRole::Core)
    } else if str_eq(key.as_str(), "satellite") {
        Ok(RouterRole::Satellite)
    } else {
        Err(SatelliteError::InvalidRole { role: key })
    }
}

/// Whether Core-only operations are allowed for a router of this role.
pub open spec fn core_allowed(role: RouterRole) -> bool {
    role != RouterRole::Satellite
}

/// Whether Satellite-only operations are allowed for a router of this role.
pub open spec fn satellite_allowed(role: RouterRole) -> bool {
    role == RouterRole::Satellite
}

/// Rejects Core-only operations when running as a Satellite.
pub fn ensure_core(marker: &RoleMarker) -> (r: Result<(), SatelliteError>)
    ensures
        r is Ok <==> core_allowed(marker.role),
        r is Err ==> r matches Err(SatelliteError::CoreOnly),
{
    if marker.role == RouterRole::Satellite {
        return Err(SatelliteError::CoreOnly);
    }
    Ok(())
}

/// Rejects Satellite-only operations when not running as a Satellite.
pub fn ensure_satellite(marker: &RoleMarker) -> (r: Result<(), SatelliteError>)
    ensures
        r is Ok <==> satellite_allowed(marker.role),
        r is Err ==> r matches Err(SatelliteError::SatelliteOnly),
{
    if marker.role != RouterRole::Satellite {
        return Err(SatelliteError::SatelliteOnly);
    }
    Ok(())
}

/// Exactly one of the two role gates admits any given role.
pub proof fn lemma_role_gates_are_complementary(role: RouterRole)
    ensures
        core_allowed(role) != satellite_allowed(role),
{
}

/// Parameters of `set-role`.
#[derive(Debug)]
pub struct SetRoleParams {
    /// "core" or "satellite".
    pub role: String,
    /// On a satellite, the Core's underlay endpoint.
    pub core_endpoint: Option<String>,
}

/// The role marker that `set-role` persists.
pub fn set_role(params: SetRoleParams) -> (r: Result<RoleMarker, SatelliteError>)
    ensures
        role_key(params.role@) == "core"@ ==> (r matches Ok(m) && m.role == RouterRole::Core
            && m.core_endpoint == params.core_endpoint),
        role_key(params.role@) == "satellite"@ ==> (r matches Ok(m) && m.role
            == RouterRole::Satellite && m.core_endpoint == params.core_endpoint),
        role_key(params.role@) != "core"@ && role_key(params.role@) != "satellite"@ ==> (r matches Err(
            SatelliteError::InvalidRole { role },
        ) && role@ == role_key(params.role@)),
{
    let role = parse_role(params.role.as_str())?;
    Ok(RoleMarker { role, core_endpoint: params.core_endpoint })
}

// ── Registry ────────────────────────────────────────────────────────────────

/// One satellite the Core has paired with.
#[derive(Debug)]
pub struct PairedSatellite {
    /// Admin-facing label (unique).
    pub name: String,
    /// The satellite's WireGuard public key (base64), pinned at pairing.
    pub public_key: String,
    /// The satellite's management address on the inter-router link.
    pub mgmt_address: String,
    /// The config generation this satellite last acknowledged (0 = never).
    pub generation_applied: u64,
    /// Unix seconds of last successful contact (0 = never).
    pub last_seen: i64,
}

impl Clone for PairedSatellite {
    fn clone(&self) -> (r: Self)
        ensures
            r == *self,
    {
        PairedSatellite {
            name: self.name.clone(),
            public_key: self.public_key.clone(),
            mgmt_address: self.mgmt_address.clone(),
            generation_applied: self.generation_applied,
            last_seen: self.last_seen,
        }
    }
}

/// Whether some paired satellite is named `name`.
pub open spec fn has_name(s: Seq<PairedSatellite>, name: Seq<char>) -> bool {
    exists|i: int| 0 <= i < s.len() && #[trigger] s[i].name@ == name
}

/// Whether some paired satellite has the public key `key`.
pub open spec fn has_key(s: Seq<PairedSatellite>, key: Seq<char>) -> bool {
    exists|i: int| 0 <= i < s.len() && #[trigger] s[i].public_key@ == key
}

/// The registry invariant: no two paired satellites share a name or a key.
pub open spec fn registry_valid(s: Seq<PairedSatellite>) -> bool {
    forall|i: int, j: int|
        0 <= i < s.len() && 0 <= j < s.len() && i != j ==> #[trigger] s[i].name@ != #[trigger] s[j].name@
            && s[i].public_key@ != s[j].public_key@
}

/// The registry without the satellites named `name`, in the same order.
pub open spec fn without_name(s: Seq<PairedSatellite>, name: Seq<char>) -> Seq<PairedSatellite>
    decreases s.len(),
{
    if s.len() == 0 {
        Seq::empty()
    } else {
        let rest = without_name(s.drop_last(), name);
        if s.last().name@ == name {
            rest
        } else {
            rest.push(s.last())
        }
    }
}

fn has_name_exec(list: &Vec<PairedSatellite>, name: &str) -> (r: bool)
    ensures
        r == has_name(list@, name@),
{
    let mut i: usize = 0;
    while i < list.len()
        invariant
            i <= list.len(),
            forall|k: int| 0 <= k < i ==> list@[k].name@ != name@,
        decreases list.len() - i,
    {
        if str_eq(list[i].name.as_str(), name) {
            return true;
        }
        i = i + 1;
    }
    false
}

fn has_key_exec(list: &Vec<PairedSatellite>, key: &str) -> (r: bool)
    ensures
        r == has_key(list@, key@),
{
    let mut i: usize = 0;
    while i < list.len()
        invariant
            i <= list.len(),
            forall|k: int| 0 <= k < i ==> list@[k].public_key@ != key@,
        decreases list.len() - i,
    {
        if str_eq(list[i].public_key.as_str(), key) {
            return true;
        }
        i = i + 1;
    }
    false
}

/// Adds `sat` to the registry unless its name or its public key is already
/// paired (the name is checked first).
pub fn add_satellite(list: &mut Vec<PairedSatellite>, sat: PairedSatellite) -> (r: Result<(), SatelliteError>)
    ensures
        has_name(old(list)@, sat.name@) ==> (r matches Err(SatelliteError::DuplicateName { name })
            && name@ == sat.name@),
        !has_name(old(list)@, sat.name@) && has_key(old(list)@, sat.public_key@) ==> (r matches Err(
            SatelliteError::DuplicatePublicKey,
        )),
        r is Err ==> final(list)@ == old(list)@,
        r is Ok <==> !has_name(old(list)@, sat.name@) && !has_key(old(list)@, sat.public_key@),
        r is Ok ==> final(list)@ == old(list)@.push(sat),
{
    if has_name_exec(list, sat.name.as_str()) {
        return Err(SatelliteError::DuplicateName { name: sat.name });
    }
    if has_key_exec(list, sat.public_key.as_str()) {
        return Err(SatelliteError::DuplicatePublicKey);
    }
    list.push(sat);
    Ok(())
}

proof fn lemma_without_name_len(s: Seq<PairedSatellite>, name: Seq<char>)
    ensures
        without_name(s, name).len() <= s.len(),
        without_name(s, name).len() == s.len() <==> !has_name(s, name),
        !has_name(s, name) ==> without_name(s, name) == s,
    decreases s.len(),
{
    if s.len() > 0 {
        let p = s.drop_last();
        lemma_without_name_len(p, name);
        if has_name(p, name) {
            let i = choose|i: int| 0 <= i < p.len() && #[trigger] p[i].name@ == name;
            assert(s[i].name@ == name);
        }
        if !has_name(s, name) {
            assert(!has_name(p, name)) by {
                if has_name(p, name) {
                    let i = choose|i: int| 0 <= i < p.len() && #[trigger] p[i].name@ == name;
                    assert(s[i].name@ == name);
                }
            }
            assert(s.last().name@ != name) by {
                if s.last().name@ == name {
                    assert(s[s.len() - 1].name@ == name);
                }
            }
            assert(p.push(s.last()) =~= s);
        } else {
            if s.last().name@ != name {
                let i = choose|i: int| 0 <= i < s.len() && #[trigger] s[i].name@ == name;
                assert(i != s.len() - 1);
                assert(p[i].name@ == name);
            }
        }
    }
}

/// Removes every satellite named `name`; tells whether any was removed.
pub fn remove_satellite(list: &mut Vec<PairedSatellite>, name: &str) -> (r: bool)
    ensures
        final(list)@ == without_name(old(list)@, name@),
        r == has_name(old(list)@, name@),
{
    let before = list.len();
    let mut kept: Vec<PairedSatellite> = Vec::new();
    let mut i: usize = 0;
    while i < list.len()
        invariant
            i <= list.len(),
            kept@ == without_name(list@.take(i as int), name@),
        decreases list.len() - i,
    {
        assert(list@.take(i + 1).drop_last() =~= list@.take(i as int));
        if !str_eq(list[i].name.as_str(), name) {
            kept.push(list[i].clone());
        }
        i = i + 1;
    }
    assert(list@.take(list.len() as int) =~= list@);
    proof {
        lemma_without_name_len(list@, name@);
    }
    *list = kept;
    list.len() != before
}

proof fn lemma_without_name_subseq(s: Seq<PairedSatellite>, name: Seq<char>)
    ensures
        forall|i: int|
            0 <= i < without_name(s, name).len() ==> exists|j: int|
                0 <= j < s.len() && #[trigger] without_name(s, name)[i] == s[j]
                    && s[j].name@ != name,
    decreases s.len(),
{
    if s.len() > 0 {
        let p = s.drop_last();
        lemma_without_name_subseq(p, name);
        let w = without_name(s, name);
        assert forall|i: int| 0 <= i < w.len() implies exists|j: int|
            0 <= j < s.len() && #[trigger] w[i] == s[j] && s[j].name@ != name by {
            if i < without_name(p, name).len() {
                let j = choose|j: int|
                    0 <= j < p.len() && #[trigger] without_name(p, name)[i] == p[j] && p[j].name@
                        != name;
                assert(w[i] == s[j]);
            } else {
                assert(w[i] == s[s.len() - 1]);
            }
        }
    }
}

/// Removing satellites keeps the registry free of duplicate names and keys.
pub proof fn lemma_remove_keeps_registry_valid(s: Seq<PairedSatellite>, name: Seq<char>)
    requires
        registry_valid(s),
    ensures
        registry_valid(without_name(s, name)),
        !has_name(without_name(s, name), name),
    decreases s.len(),
{
    if s.len() > 0 {
        let p = s.drop_last();
        assert(registry_valid(p)) by {
            assert forall|i: int, j: int|
                0 <= i < p.len() && 0 <= j < p.len() && i != j implies #[trigger] p[i].name@
                != #[trigger] p[j].name@ && p[i].public_key@ != p[j].public_key@ by {
                assert(p[i] == s[i] && p[j] == s[j]);
            }
        }
        lemma_remove_keeps_registry_valid(p, name);
        lemma_without_name_subseq(p, name);
        let wp = without_name(p, name);
        let w = without_name(s, name);
        if s.last().name@ != name {
            let l = s.len() - 1;
            assert forall|i: int, j: int|
                0 <= i < w.len() && 0 <= j < w.len() && i != j implies #[trigger] w[i].name@
                != #[trigger] w[j].name@ && w[i].public_key@ != w[j].public_key@ by {
                if i < wp.len() && j < wp.len() {
                    assert(w[i] == wp[i] && w[j] == wp[j]);
                } else if i < wp.len() {
                    let k = choose|k: int|
                        0 <= k < p.len() && #[trigger] wp[i] == p[k] && p[k].name@ != name;
                    assert(s[k] == p[k]);
                    assert(w[j] == s[l]);
                } else {
                    let k = choose|k: int|
                        0 <= k < p.len() && #[trigger] wp[j] == p[k] && p[k].name@ != name;
                    assert(s[k] == p[k]);
                    assert(w[i] == s[l]);
                }
            }
            assert(!has_name(w, name)) by {
                if has_name(w, name) {
                    let i = choose|i: int| 0 <= i < w.len() && #[trigger] w[i].name@ == name;
                    if i < wp.len() {
                        assert(w[i] == wp[i]);
                    }
                }
            }
        }
    }
}

/// Adding a satellite that passes the duplicate checks keeps the registry free
/// of duplicate names and keys.
pub proof fn lemma_add_keeps_registry_valid(s: Seq<PairedSatellite>, sat: PairedSatellite)
    requires
        registry_valid(s),
        !has_name(s, sat.name@),
        !has_key(s, sat.public_key@),
    ensures
        registry_valid(s.push(sat)),
{
    let t = s.push(sat);
    assert forall|i: int, j: int|
        0 <= i < t.len() && 0 <= j < t.len() && i != j implies #[trigger] t[i].name@
        != #[trigger] t[j].name@ && t[i].public_key@ != t[j].public_key@ by {
        if i < s.len() && j < s.len() {
            assert(t[i] == s[i] && t[j] == s[j]);
        } else if i < s.len() {
            assert(t[i] == s[i]);
        } else {
            assert(t[j] == s[j]);
        }
    }
}

/// Pairing a new satellite and then unpairing it by name gives back the
/// registry as it was.
pub proof fn lemma_add_then_remove_restores(s: Seq<PairedSatellite>, sat: PairedSatellite)
    requires
        !has_name(s, sat.name@),
    ensures
        without_name(s.push(sat), sat.name@) == s,
{
    lemma_without_name_len(s, sat.name@);
    assert(s.push(sat).drop_last() =~= s);
}

/// Unpairing by a name twice changes nothing the second time.
pub proof fn lemma_remove_is_idempotent(s: Seq<PairedSatellite>, name: Seq<char>)
    ensures
        without_name(without_name(s, name), name) == without_name(s, name),
        !has_name(without_name(s, name), name),
{
    lemma_without_name_subseq(s, name);
    let w = without_name(s, name);
    assert(!has_name(w, name)) by {
        if has_name(w, name) {
            let i = choose|i: int| 0 <= i < w.len() && #[trigger] w[i].name@ == name;
            let j = choose|j: int| 0 <= j < s.len() && #[trigger] w[i] == s[j] && s[j].name@ != name;
        }
    }
    lemma_without_name_len(w, name);
}

// ── Pairing operations ──────────────────────────────────────────────────────

/// The registry as `list` reports it: only a Core has one.
pub fn list(marker: &RoleMarker, registry: Vec<PairedSatellite>) -> (r: Result<Vec<PairedSatellite>, SatelliteError>)
    ensures
        core_allowed(marker.role) ==> r == Ok::<Vec<PairedSatellite>, SatelliteError>(registry),
        !core_allowed(marker.role) ==> r matches Err(SatelliteError::CoreOnly),
{
    ensure_core(marker)?;
    Ok(registry)
}

/// Parameters of `pair`.
#[derive(Debug)]
pub struct PairParams {
    pub name: String,
    /// The satellite's WireGuard public key (base64).
    pub public_key: String,
    /// The satellite's management address on the inter-router link.
    pub mgmt_address: String,
    /// Single-use enrollment token (not validated yet).
    pub enrollment_token: Option<String>,
}

/// What `pair` answers.
#[derive(Debug)]
pub struct PairResponse {
    pub name: String,
    pub status: String,
    pub note: String,
}

/// The status `pair` reports for a newly recorded satellite.
pub open spec fn registered_status() -> Seq<char> {
    "registered"@
}

/// The note `pair` attaches to its answer.
pub open spec fn registered_note() -> Seq<char> {
    "Recorded in the Core registry. Tunnel provisioning and config sync are not yet implemented (see docs/design/satellite-router.md)."@
}

/// Pairs a satellite on a Core: records it in `registry` (which the caller
/// then persists) unless its name or key is already paired.
pub fn pair(marker: &RoleMarker, registry: &mut Vec<PairedSatellite>, params: PairParams) -> (r: Result<PairResponse, SatelliteError>)
    ensures
        !core_allowed(marker.role) ==> r matches Err(SatelliteError::CoreOnly),
        core_allowed(marker.role) && has_name(old(registry)@, params.name@) ==> (r matches Err(
            SatelliteError::DuplicateName { name },
        ) && name@ == params.name@),
        core_allowed(marker.role) && !has_name(old(registry)@, params.name@) && has_key(
            old(registry)@,
            params.public_key@,
        ) ==> r matches Err(SatelliteError::DuplicatePublicKey),
        r is Err ==> final(registry)@ == old(registry)@,
        r is Ok <==> core_allowed(marker.role) && !has_name(old(registry)@, params.name@) && !has_key(
            old(registry)@,
            params.public_key@,
        ),
        r matches Ok(resp) ==> {
            &&& final(registry)@.len() == old(registry)@.len() + 1
            &&& final(registry)@.drop_last() == old(registry)@
            &&& final(registry)@.last().name@ == params.name@
            &&& final(registry)@.last().public_key@ == params.public_key@
            &&& final(registry)@.last().mgmt_address@ == params.mgmt_address@
            &&& final(registry)@.last().generation_applied == 0
            &&& final(registry)@.last().last_seen == 0
            &&& resp.name@ == params.name@
            &&& resp.status@ == registered_status()
            &&& resp.note@ == registered_note()
        },
{
    ensure_core(marker)?;
    let name = params.name.clone();
    let sat = PairedSatellite {
        name: params.name,
        public_key: params.public_key,
        mgmt_address: params.mgmt_address,
        generation_applied: 0,
        last_seen: 0,
    };
    add_satellite(registry, sat)?;
    assert(registry@.drop_last() =~= old(registry)@);
    Ok(PairResponse {
        name,
        status: "registered".to_owned(),
        note: "Recorded in the Core registry. Tunnel provisioning and config sync are not yet implemented (see docs/design/satellite-router.md).".to_owned(),
    })
}

/// Parameters of `unpair`.
#[derive(Debug)]
pub struct UnpairParams {
    pub name: String,
}

/// Unpairs the satellite named `name` on a Core; the caller persists
/// `registry` afterwards.
pub fn unpair(marker: &RoleMarker, registry: &mut Vec<PairedSatellite>, name: &str) -> (r: Result<(), SatelliteError>)
    ensures
        !core_allowed(marker.role) ==> (r matches Err(SatelliteError::CoreOnly) && final(registry)@
            == old(registry)@),
        core_allowed(marker.role) ==> final(registry)@ == without_name(old(registry)@, name@),
        core_allowed(marker.role) && !has_name(old(registry)@, name@) ==> (r matches Err(
            SatelliteError::NotFound { name: n },
        ) && n@ == name@),
        r is Ok <==> core_allowed(marker.role) && has_name(old(registry)@, name@),
{
    ensure_core(marker)?;
    if !remove_satellite(registry, name) {
        return Err(SatelliteError::NotFound { name: name.to_owned() });
    }
    Ok(())
}

/// What `status` reports.
#[derive(Debug)]
pub struct StatusResponse {
    pub role: RouterRole,
    pub core_endpoint: Option<String>,
    pub satellite_count: usize,
    pub satellites: Vec<PairedSatellite>,
}

/// The router's satellite status: its role, and on a Core its registry (a
/// Satellite reports an empty one).
pub fn status(marker: RoleMarker, registry: Vec<PairedSatellite>) -> (r: StatusResponse)
    ensures
        r.role == marker.role,
        r.core_endpoint == marker.core_endpoint,
        marker.role == RouterRole::Core ==> r.satellites == registry,
        marker.role != RouterRole::Core ==> r.satellites@.len() == 0,
        r.satellite_count == r.satellites@.len(),
{
    let satellites = if marker.role == RouterRole::Core {
        registry
    } else {
        Vec::new()
    };
    StatusResponse {
        role: marker.role,
        core_endpoint: marker.core_endpoint,
        satellite_count: satellites.len(),
        satellites,
    }
}

// ── Config-sync payload (Core → satellite) ──────────────────────────────────

/// A complete, Core-authored config snapshot. `generation` is monotonic.
#[derive(Clone, Debug, PartialEq, Eq)]
pub struct SyncSnapshot {
    pub generation: u64,
    pub ssid: String,
    pub admin_key: String,
    pub profiles: Vec<ProfileSpec>,
    pub passwords: Vec<PasswordSpec>,
    pub ports: Vec<PortSpec>,
}

/// One profile as the satellite needs to reconstruct it locally.
#[derive(Clone, Debug, PartialEq, Eq)]
pub struct ProfileSpec {
    pub interface: String,
    pub vlan_tag: u16,
    /// The satellite-local `/24` (CIDR) the Core allocated for this profile.
    pub subnet: String,
    pub wan_access: String,
    pub outbound: String,
}

/// One Wi-Fi password → profile mapping.
#[derive(Clone, Debug, PartialEq, Eq)]
pub struct PasswordSpec {
    pub label: String,
    pub key: String,
    pub vlan_tag: u16,
}

/// One Ethernet port → profile mapping on the satellite.
#[derive(Clone, Debug, PartialEq, Eq)]
pub struct PortSpec {
    pub port: String,
    pub vlan_tag: u16,
}

// ── Transit addressing and listen ports ─────────────────────────────────────

/// Reserved inter-router transit block: satellite `i` gets `10.42.<i>.0/24`.
pub const TRANSIT_BASE: [u8; 2] = [10, 42];

/// The (Core, satellite) transit addresses for satellite `index`:
/// `10.42.<index>.1` and `10.42.<index>.2`.
pub fn transit_addrs(index: u8) -> (r: (Ipv4Address, Ipv4Address))
    ensures
        r.0 == Ipv4Address(10, 42, index, 1),
        r.1 == Ipv4Address(10, 42, index, 2),
{
    (
        Ipv4Address(TRANSIT_BASE[0], TRANSIT_BASE[1], index, 1),
        Ipv4Address(TRANSIT_BASE[0], TRANSIT_BASE[1], index, 2),
    )
}

/// The transit addresses of distinct satellites are distinct, and the two
/// ends of one link differ.
pub proof fn lemma_transit_addrs_disjoint(i: u8, j: u8)
    ensures
        Ipv4Address(10, 42, i, 1) != Ipv4Address(10, 42, i, 2),
        i != j ==> Ipv4Address(10, 42, i, 1) != Ipv4Address(10, 42, j, 1),
        i != j ==> Ipv4Address(10, 42, i, 2) != Ipv4Address(10, 42, j, 2),
        Ipv4Address(10, 42, i, 1) != Ipv4Address(10, 42, j, 2),
{
}

/// The first `count` ports at or above `p` (up to 65535) that are not in
/// `used`, in ascending order.
pub open spec fn free_ports(used: Seq<u16>, p: int, count: nat) -> Seq<u16>
    decreases 65536 - p,
{
    if count == 0 || p > 65535 || p < 0 {
        Seq::empty()
    } else if used.contains(p as u16) {
        free_ports(used, p + 1, count)
    } else {
        seq![p as u16] + free_ports(used, p + 1, (count - 1) as nat)
    }
}

fn slice_contains(used: &[u16], p: u16) -> (r: bool)
    ensures
        r == used@.contains(p),
{
    let mut i: usize = 0;
    while i < used.len()
        invariant
            i <= used@.len(),
            forall|k: int| 0 <= k < i ==> used@[k] != p,
        decreases used@.len() - i,
    {
        if used[i] == p {
            assert(used@[i as int] == p);
            return true;
        }
        i = i + 1;
    }
    false
}

/// Allocates `count` free UDP listen ports for a satellite's per-profile
/// tunnels, starting at `base` and skipping any already in `used`; fewer
/// when the port space above `base` runs out.
pub fn allocate_listen_ports(used: &[u16], count: usize, base: u16) -> (r: Vec<u16>)
    ensures
        r@ == free_ports(used@, base as int, count as nat),
{
    let mut out: Vec<u16> = Vec::with_capacity(count);
    let mut p: u16 = base;
    loop
        invariant_except_break
            out@ + free_ports(used@, p as int, (count - out.len()) as nat) == free_ports(
                used@,
                base as int,
                count as nat,
            ),
        invariant
            out.len() <= count,
        ensures
            out@ == free_ports(used@, base as int, count as nat),
        decreases 65536 - p,
    {
        if out.len() >= count {
            assert(out@ + free_ports(used@, p as int, 0) =~= out@);
            break;
        }
        let ghost before = out@;
        let ghost k = (count - out.len()) as nat;
        if !slice_contains(used, p) {
            out.push(p);
            assert(free_ports(used@, p as int, k) == seq![p] + free_ports(used@, p + 1, (k - 1) as nat));
            assert(before + free_ports(used@, p as int, k) =~= out@ + free_ports(
                used@,
                p + 1,
                (count - out.len()) as nat,
            ));
        } else {
            assert(free_ports(used@, p as int, k) == free_ports(used@, p + 1, k));
        }
        match p.checked_add(1) {
            Some(next) => {
                p = next;
            },
            None => {
                assert(free_ports(used@, 65536, (count - out.len()) as nat) =~= Seq::<u16>::empty());
                assert(out@ + Seq::<u16>::empty() =~= out@);
                break;
            },
        }
    }
    out
}

/// What the allocator promises of every result: ascending (hence distinct)
/// ports at or above the base, none of them already used, at most `count` of
/// them, no free port skipped, and fewer than `count` only when every free
/// port at or above the base was taken.
pub proof fn lemma_free_ports_properties(used: Seq<u16>, p: int, count: nat)
    requires
        0 <= p <= 65536,
    ensures
        free_ports(used, p, count).len() <= count,
        forall|i: int, j: int|
            0 <= i < j < free_ports(used, p, count).len() ==> #[trigger] free_ports(used, p, count)[i]
                < #[trigger] free_ports(used, p, count)[j],
        forall|i: int|
            0 <= i < free_ports(used, p, count).len() ==> p <= #[trigger] free_ports(used, p, count)[i]
                && !used.contains(free_ports(used, p, count)[i]),
        forall|q: u16|
            p <= q && !used.contains(q) && (free_ports(used, p, count).len() < count || (free_ports(
                used,
                p,
                count,
            ).len() > 0 && q <= free_ports(used, p, count).last())) ==> #[trigger] free_ports(
                used,
                p,
                count,
            ).contains(q),
    decreases 65536 - p,
{
    let r = free_ports(used, p, count);
    if count == 0 || p > 65535 {
    } else {
        lemma_free_ports_properties(used, p + 1, count);
        lemma_free_ports_properties(used, p + 1, (count - 1) as nat);
        if used.contains(p as u16) {
            assert forall|q: u16|
                p <= q && !used.contains(q) && (r.len() < count || (r.len() > 0 && q <= r.last()))
                    implies #[trigger] r.contains(q) by {
                assert(q != p);
            }
        } else {
            let t = free_ports(used, p + 1, (count - 1) as nat);
            assert(r == seq![p as u16] + t);
            assert forall|i: int, j: int| 0 <= i < j < r.len() implies #[trigger] r[i] < #[trigger] r[j] by {
                if i == 0 {
                    assert(r[j] == t[j - 1]);
                } else {
                    assert(r[i] == t[i - 1] && r[j] == t[j - 1]);
                }
            }
            assert forall|i: int| 0 <= i < r.len() implies p <= #[trigger] r[i] && !used.contains(r[i]) by {
                if i > 0 {
                    assert(r[i] == t[i - 1]);
                }
            }
            assert forall|q: u16|
                p <= q && !used.contains(q) && (r.len() < count || (r.len() > 0 && q <= r.last()))
                    implies #[trigger] r.contains(q) by {
                if q == p {
                    assert(r[0] == q);
                } else {
                    if t.len() > 0 {
                        assert(r.last() == t.last());
                    }
                    assert(t.contains(q));
                    let k = choose|k: int| 0 <= k < t.len() && t[k] == q;
                    assert(r[k + 1] == q);
                }
            }
        }
    }
}

// ── Manual tunnel provisioning parameters ───────────────────────────────────

/// Parameters of `provision-core-tunnel`.
#[derive(Debug)]
pub struct ProvisionCoreParams {
    pub satellite: String,
    pub profile: String,
    pub core_transit_addr: String,
    /// CIDR to route to the satellite over the tunnel.
    pub satellite_allowed_ip: String,
    pub satellite_public_key: String,
    pub preshared_key: String,
    pub listen_port: u16,
    /// Firewall zone the handshake arrives on (the transit-link zone).
    pub transit_zone: String,
    pub core_private_key: String,
}

/// Parameters of `provision-satellite-tunnel`.
#[derive(Debug)]
pub struct ProvisionSatelliteParams {
    pub satellite: String,
    pub profile: String,
    pub sat_wg_addr: String,
    pub core_public_key: String,
    pub core_endpoint_host: String,
    pub core_endpoint_port: u16,
    pub preshared_key: String,
    pub sat_private_key: String,
    /// What to route through the tunnel; full egress via the Core when empty.
    pub allowed_ip: Vec<String>,
    /// A local interface whose firewall zone the tunnel joins.
    pub firewall_zone_member: String,
}

/// What a satellite routes through its tunnel: the given prefixes, or full
/// egress via the Core (`0.0.0.0/0`) when none are given.
pub fn tunnel_allowed_ips(allowed_ip: Vec<String>) -> (r: Vec<String>)
    ensures
        allowed_ip@.len() > 0 ==> r == allowed_ip,
        allowed_ip@.len() == 0 ==> r@.len() == 1 && r@[0]@ == "0.0.0.0/0"@,
{
    if allowed_ip.len() == 0 {
        let mut v = Vec::new();
        v.push("0.0.0.0/0".to_owned());
        v
    } else {
        allowed_ip
    }
}

} // verus!
