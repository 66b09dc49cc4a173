//! Base-station mobility management: registration of radios, their energy saving mode
//! and their group affiliations, decided from the fields of the uplink MM PDUs.
//!
//! Each handler returns the subscriber updates it emits (for call control and the network
//! bridge), in order, and the downlink PDUs it sends, in order; all updates precede the PDUs.
use vstd::prelude::*;
use crate::address::TetraAddress;

verus! {

/// Energy saving modes: stay alive, or one of the energy economy groups 1 to 7.
#[derive(Debug, Clone, Copy, PartialEq, Eq, Structural)]
pub enum EnergySavingMode {
    StayAlive,
    Eg1,
    Eg2,
    Eg3,
    Eg4,
    Eg5,
    Eg6,
    Eg7,
}

/// Location update types.
#[derive(Debug, Clone, Copy, PartialEq, Eq, Structural)]
pub enum LocationUpdateType {
    RoamingLocationUpdating,
    MigratingLocationUpdating,
    PeriodicLocationUpdating,
    ItsiAttach,
    ServiceRestorationRoamingLocationUpdating,
    ServiceRestorationMigratingLocationUpdating,
    DemandLocationUpdating,
    DisabledMsUpdating,
}

/// The status carried by a U-MM STATUS.
#[derive(Debug, Clone, Copy, PartialEq, Eq, Structural)]
pub enum StatusUplink {
    ChangeOfEnergySavingModeRequest,
    ChangeOfEnergySavingModeResponse,
    /// Any other status, by its value.
    Other { raw: u8 },
}

/// What a subscriber update announces.
#[derive(Debug, Clone, Copy, PartialEq, Eq, Structural)]
pub enum SubscriberAction {
    Register,
    Deregister,
    Affiliate,
    Deaffiliate,
}

/// A group identity in an uplink PDU.
#[derive(Debug, Clone, Copy, PartialEq, Eq, Structural)]
pub struct GroupUplink {
    pub gssi: Option<u32>,
    pub vgssi: Option<u32>,
    pub address_extension: Option<u64>,
    /// Present for a detachment, with its reason.
    pub detachment: Option<u8>,
    pub class_of_usage: Option<u8>,
}

/// The attachment of a group in a downlink PDU.
#[derive(Debug, Clone, Copy, PartialEq, Eq, Structural)]
pub struct GroupAttachment {
    pub lifetime: u8,
    pub class_of_usage: u8,
}

/// A group identity accepted in a downlink PDU: attached, or detached with the reason given.
#[derive(Debug, Clone, Copy, PartialEq, Eq, Structural)]
pub struct GroupDownlink {
    pub gssi: u32,
    pub attachment: Option<GroupAttachment>,
    pub detachment: Option<u8>,
}

/// The fields of a U-LOCATION UPDATE DEMAND that mobility management decides on.
pub struct LocationUpdateDemand {
    pub location_update_type: LocationUpdateType,
    pub request_to_append_la: bool,
    pub cipher_control: bool,
    pub ciphering_parameters: Option<u64>,
    pub address_extension: Option<u64>,
    pub energy_saving_mode: Option<EnergySavingMode>,
    pub class_of_ms: Option<u32>,
    /// The group identity location demand, when present, with its uplink group list if any.
    pub group_identity_location_demand: Option<Option<Vec<GroupUplink>>>,
}

/// The fields of a U-ATTACH/DETACH GROUP IDENTITY that mobility management decides on.
pub struct AttachDetachGroupIdentity {
    /// Detach all groups before attaching those listed.
    pub group_identity_attach_detach_mode: bool,
    pub group_identity_uplink: Option<Vec<GroupUplink>>,
}

/// A subscriber update.
pub struct SubscriberUpdate {
    pub issi: u32,
    pub groups: Vec<u32>,
    pub action: SubscriberAction,
}

/// A downlink MM PDU.
#[derive(Debug, Clone, Copy, PartialEq, Eq, Structural)]
pub enum MmPdu {
    /// D-LOCATION UPDATE REJECT, cause "migration not supported".
    LocationUpdateReject { issi: u32, handle: u32, location_update_type: LocationUpdateType, address_extension: Option<u64> },
    /// D-LOCATION UPDATE ACCEPT. `group_accept`: no group identity location accept (`None`),
    /// one without a group list (`Some(false)`), or one with the accepted groups of the
    /// response (`Some(true)`).
    LocationUpdateAccept {
        issi: u32,
        handle: u32,
        location_update_type: LocationUpdateType,
        energy_saving_mode: Option<EnergySavingMode>,
        group_accept: Option<bool>,
    },
    /// D-LOCATION UPDATE COMMAND asking for a group identity report.
    LocationUpdateCommand { issi: u32, handle: u32 },
    /// D-MM STATUS answering an energy saving mode change.
    MmStatusEnergySaving { issi: u32, handle: u32, energy_saving_mode: EnergySavingMode },
    /// The U-MM STATUS with status value `status` is not supported.
    FunctionNotSupported { handle: u32, address: TetraAddress, status: u8 },
    /// D-ATTACH/DETACH GROUP IDENTITY ACKNOWLEDGEMENT with the accepted groups of the response.
    AttachDetachAck { issi: u32, handle: u32 },
}

/// What a handler emits: subscriber updates, then downlink PDUs, and the accepted groups
/// that a PDU carries.
pub struct MmResponse {
    pub updates: Vec<SubscriberUpdate>,
    pub pdus: Vec<MmPdu>,
    pub accepted_groups: Vec<GroupDownlink>,
}

/// A registered radio.
#[derive(Debug, Clone, Copy, PartialEq, Eq, Structural)]
pub struct MmClient {
    pub issi: u32,
    pub energy_saving_mode: EnergySavingMode,
    pub class_of_ms: Option<u32>,
}

/// A radio's membership of a group.
#[derive(Debug, Clone, Copy, PartialEq, Eq, Structural)]
pub struct Affiliation {
    pub issi: u32,
    pub gssi: u32,
}

/// Base-station mobility management.
pub struct MmBs {
    /// Registered radios, in order of registration.
    pub clients: Vec<MmClient>,
    /// Group affiliations, in order of attachment.
    pub affiliations: Vec<Affiliation>,
}

/// The update as plain values.
pub open spec fn update_view(u: SubscriberUpdate) -> (u32, Seq<u32>, SubscriberAction) {
    (u.issi, u.groups@, u.action)
}

/// The updates as plain values.
pub open spec fn updates_view(us: Seq<SubscriberUpdate>) -> Seq<(u32, Seq<u32>, SubscriberAction)> {
    us.map_values(|u: SubscriberUpdate| update_view(u))
}

/// The energy saving mode of value `v`.
pub open spec fn esm_of(v: u64) -> Option<EnergySavingMode> {
    if v == 0 {
        Some(EnergySavingMode::StayAlive)
    } else if v == 1 {
        Some(EnergySavingMode::Eg1)
    } else if v == 2 {
        Some(EnergySavingMode::Eg2)
    } else if v == 3 {
        Some(EnergySavingMode::Eg3)
    } else if v == 4 {
        Some(EnergySavingMode::Eg4)
    } else if v == 5 {
        Some(EnergySavingMode::Eg5)
    } else if v == 6 {
        Some(EnergySavingMode::Eg6)
    } else if v == 7 {
        Some(EnergySavingMode::Eg7)
    } else {
        None
    }
}

/// The value that encodes mode `m`: 0 for stay alive, `n` for energy economy group `n`.
pub open spec fn esm_number(m: EnergySavingMode) -> u64 {
    match m {
        EnergySavingMode::StayAlive => 0,
        EnergySavingMode::Eg1 => 1,
        EnergySavingMode::Eg2 => 2,
        EnergySavingMode::Eg3 => 3,
        EnergySavingMode::Eg4 => 4,
        EnergySavingMode::Eg5 => 5,
        EnergySavingMode::Eg6 => 6,
        EnergySavingMode::Eg7 => 7,
    }
}

/// Decoding a mode value inverts its encoding: each value 0 to 7 names the mode it
/// encodes, larger values name none, and every mode is found again from its value.
pub proof fn lemma_esm_value_roundtrip(v: u64, m: EnergySavingMode)
    ensures
        v <= 7 ==> esm_of(v) is Some && esm_number(esm_of(v)->Some_0) == v,
        v > 7 ==> esm_of(v) is None,
        esm_of(esm_number(m)) == Some(m),
{
}


/// The mode a status-dependent information field asks for: its first 3 of `len` bits, stay
/// alive when absent, shorter, or no mode.
pub open spec fn requested_esm(info: Option<u64>, len: Option<usize>) -> EnergySavingMode {
    match info {
        Some(d) => {
            let n: int = match len {
                Some(l) => l as int,
                None => 0,
            };
            if n >= 3 {
                match esm_of(d >> ((n - 3) as u64)) {
                    Some(m) => m,
                    None => EnergySavingMode::StayAlive,
                }
            } else {
                EnergySavingMode::StayAlive
            }
        },
        None => EnergySavingMode::StayAlive,
    }
}

/// `i` is the first position of the client with `issi`.
pub open spec fn first_client(s: Seq<MmClient>, issi: u32, i: int) -> bool {
    &&& 0 <= i < s.len()
    &&& s[i].issi == issi
    &&& forall|j: int| 0 <= j < i ==> #[trigger] s[j].issi != issi
}

/// The first position of the client with `issi`.
pub open spec fn client_index(s: Seq<MmClient>, issi: u32) -> Option<int> {
    if exists|i: int| first_client(s, issi, i) {
        Some(choose|i: int| first_client(s, issi, i))
    } else {
        None
    }
}

/// `i` is the first position of affiliation `a`.
pub open spec fn first_affiliation(s: Seq<Affiliation>, a: Affiliation, i: int) -> bool {
    &&& 0 <= i < s.len()
    &&& s[i] == a
    &&& forall|j: int| 0 <= j < i ==> #[trigger] s[j] != a
}

/// The first position of affiliation `a`.
pub open spec fn affiliation_index(s: Seq<Affiliation>, a: Affiliation) -> Option<int> {
    if exists|i: int| first_affiliation(s, a, i) {
        Some(choose|i: int| first_affiliation(s, a, i))
    } else {
        None
    }
}

/// `s` with `o` added last when present.
pub open spec fn push_some<A>(s: Seq<A>, o: Option<A>) -> Seq<A> {
    match o {
        Some(x) => s.push(x),
        None => s,
    }
}

/// One listed group identity for radio `issi`, registered when `known`: the affiliations
/// after it, the accepted group identity, and the group newly attached or detached. Only
/// plain GSSIs are handled, and only for a registered radio.
pub open spec fn group_step(affs: Seq<Affiliation>, issi: u32, known: bool, g: GroupUplink) -> (
    Seq<Affiliation>,
    Option<GroupDownlink>,
    Option<u32>,
    Option<u32>,
) {
    if !known {
        (affs, None, None, None)
    } else {
    match g.gssi {
        Some(gssi) => if g.vgssi is Some || g.address_extension is Some {
            (affs, None, None, None)
        } else {
            let a = Affiliation { issi, gssi };
            if g.detachment is Some {
                let gd = GroupDownlink { gssi, attachment: None, detachment: g.detachment };
                match affiliation_index(affs, a) {
                    Some(i) => (affs.remove(i), Some(gd), None, Some(gssi)),
                    None => (affs, Some(gd), None, None),
                }
            } else {
                let cu: u8 = match g.class_of_usage {
                    Some(c) => c,
                    None => 0,
                };
                let gd = GroupDownlink {
                    gssi,
                    attachment: Some(GroupAttachment { lifetime: 1, class_of_usage: cu }),
                    detachment: None,
                };
                match affiliation_index(affs, a) {
                    Some(_) => (affs, Some(gd), None, None),
                    None => (affs.push(a), Some(gd), Some(gssi), None),
                }
            }
        },
        None => (affs, None, None, None),
    }
    }
}

/// The listed group identities `gs` of radio `issi`, registered when `known`, one after
/// another: affiliations after them, accepted group identities, groups newly attached, groups
/// newly detached.
pub open spec fn groups_fold(affs: Seq<Affiliation>, issi: u32, known: bool, gs: Seq<GroupUplink>) -> (
    Seq<Affiliation>,
    Seq<GroupDownlink>,
    Seq<u32>,
    Seq<u32>,
)
    decreases gs.len(),
{
    if gs.len() == 0 {
        (affs, Seq::empty(), Seq::empty(), Seq::empty())
    } else {
        let (a, acc, att, det) = groups_fold(affs, issi, known, gs.drop_last());
        let (a2, o, x, y) = group_step(a, issi, known, gs.last());
        (a2, push_some(acc, o), push_some(att, x), push_some(det, y))
    }
}

/// The updates announcing newly attached, then newly detached groups, each when there are any.
pub open spec fn group_updates(issi: u32, att: Seq<u32>, det: Seq<u32>) -> Seq<(u32, Seq<u32>, SubscriberAction)> {
    let first = if att.len() > 0 {
        seq![(issi, att, SubscriberAction::Affiliate)]
    } else {
        Seq::empty()
    };
    if det.len() > 0 {
        first.push((issi, det, SubscriberAction::Deaffiliate))
    } else {
        first
    }
}

/// The groups of radio `issi`, in order.
pub open spec fn groups_of(affs: Seq<Affiliation>, issi: u32) -> Seq<u32>
    decreases affs.len(),
{
    if affs.len() == 0 {
        Seq::empty()
    } else {
        let r = groups_of(affs.drop_last(), issi);
        if affs.last().issi == issi {
            r.push(affs.last().gssi)
        } else {
            r
        }
    }
}

/// The affiliations of other radios than `issi`.
pub open spec fn without_radio(affs: Seq<Affiliation>, issi: u32) -> Seq<Affiliation>
    decreases affs.len(),
{
    if affs.len() == 0 {
        Seq::empty()
    } else {
        let r = without_radio(affs.drop_last(), issi);
        if affs.last().issi == issi {
            r
        } else {
            r.push(affs.last())
        }
    }
}

/// A location update of this type asks to migrate, which is refused.
pub open spec fn is_migration(t: LocationUpdateType) -> bool {
    t == LocationUpdateType::MigratingLocationUpdating || t == LocationUpdateType::ServiceRestorationMigratingLocationUpdating
}

/// A location update demand asks only for what is supported.
pub open spec fn location_update_supported(d: LocationUpdateDemand) -> bool {
    &&& d.location_update_type != LocationUpdateType::MigratingLocationUpdating
    &&& d.location_update_type != LocationUpdateType::DisabledMsUpdating
    &&& !d.request_to_append_la
    &&& !d.cipher_control
    &&& d.ciphering_parameters is None
}

/// A newly registered radio: staying alive, class unknown.
pub open spec fn new_client(issi: u32) -> MmClient {
    MmClient { issi, energy_saving_mode: EnergySavingMode::StayAlive, class_of_ms: None }
}

/// The clients with radio `issi` registered (added last when unknown).
pub open spec fn with_client(s: Seq<MmClient>, issi: u32) -> Seq<MmClient> {
    if client_index(s, issi) is Some {
        s
    } else {
        s.push(new_client(issi))
    }
}

/// The clients with the energy saving mode of `issi` set, when it is known.
pub open spec fn with_esm(s: Seq<MmClient>, issi: u32, m: EnergySavingMode) -> Seq<MmClient> {
    match client_index(s, issi) {
        Some(i) => s.update(i, MmClient { energy_saving_mode: m, ..s[i] }),
        None => s,
    }
}

/// The clients with the energy saving mode and class of `issi` set, when it is known.
pub open spec fn with_details(s: Seq<MmClient>, issi: u32, m: EnergySavingMode, class: Option<u32>) -> Seq<MmClient> {
    match client_index(s, issi) {
        Some(i) => s.update(i, MmClient { issi: s[i].issi, energy_saving_mode: m, class_of_ms: class }),
        None => s,
    }
}

/// The energy saving mode granted in reply to a requested one: always stay alive.
pub open spec fn granted_esm(requested: Option<EnergySavingMode>) -> Option<EnergySavingMode> {
    match requested {
        Some(_) => Some(EnergySavingMode::StayAlive),
        None => None,
    }
}

/// The PDUs accepting a supported location update of radio `issi`: D-LOCATION UPDATE
/// ACCEPT, then, for a radio that was unknown and is not attaching, a D-LOCATION UPDATE
/// COMMAND asking for its groups.
pub open spec fn location_update_pdus(d: LocationUpdateDemand, issi: u32, handle: u32, is_new: bool) -> Seq<MmPdu> {
    let group_accept = match d.group_identity_location_demand {
        Some(Some(_)) => Some(true),
        Some(None) => Some(false),
        None => None,
    };
    let accept = MmPdu::LocationUpdateAccept {
        issi,
        handle,
        location_update_type: d.location_update_type,
        energy_saving_mode: granted_esm(d.energy_saving_mode),
        group_accept,
    };
    if is_new && d.location_update_type != LocationUpdateType::ItsiAttach {
        seq![accept, MmPdu::LocationUpdateCommand { issi, handle }]
    } else {
        seq![accept]
    }
}

/// The update registering `issi` when it was unknown.
pub open spec fn register_update(issi: u32, is_new: bool) -> Seq<(u32, Seq<u32>, SubscriberAction)> {
    if is_new {
        seq![(issi, Seq::<u32>::empty(), SubscriberAction::Register)]
    } else {
        Seq::empty()
    }
}

proof fn lemma_first_client_unique(s: Seq<MmClient>, issi: u32, i: int, k: int)
    requires
        first_client(s, issi, i),
        first_client(s, issi, k),
    ensures
        i == k,
{
    if i < k {
        assert(s[i].issi != issi);
    } else if k < i {
        assert(s[k].issi != issi);
    }
}

proof fn lemma_first_affiliation_unique(s: Seq<Affiliation>, a: Affiliation, i: int, k: int)
    requires
        first_affiliation(s, a, i),
        first_affiliation(s, a, k),
    ensures
        i == k,
{
    if i < k {
        assert(s[i] != a);
    } else if k < i {
        assert(s[k] != a);
    }
}

/// Detaching a group right after attaching it, for a registered radio that was not in the group,
/// gives the affiliations back; the attach reports the group newly attached and the
/// detach reports it newly detached.
pub proof fn lemma_detach_undoes_attach(affs: Seq<Affiliation>, issi: u32, gssi: u32, class_of_usage: Option<u8>, reason: u8)
    requires
        !affs.contains(Affiliation { issi, gssi }),
    ensures
        ({
            let g = GroupUplink { gssi: Some(gssi), vgssi: None, address_extension: None, detachment: None, class_of_usage };
            let att = group_step(affs, issi, true, g);
            let det = group_step(att.0, issi, true, GroupUplink { detachment: Some(reason), ..g });
            &&& att.2 == Some(gssi)
            &&& det.3 == Some(gssi)
            &&& det.0 == affs
        }),
{
    let a = Affiliation { issi, gssi };
    assert forall|i: int| !first_affiliation(affs, a, i) by {
        if first_affiliation(affs, a, i) {
            assert(affs.contains(a));
        }
    }
    let pushed = affs.push(a);
    let n = affs.len() as int;
    assert(first_affiliation(pushed, a, n)) by {
        assert forall|j: int| 0 <= j < n implies #[trigger] pushed[j] != a by {
            if pushed[j] == a {
                assert(affs[j] == a);
                assert(affs.contains(a));
            }
        }
    }
    let k = choose|k: int| first_affiliation(pushed, a, k);
    lemma_first_affiliation_unique(pushed, a, n, k);
    assert(pushed.remove(n) =~= affs);
}

fn find_client(clients: &Vec<MmClient>, issi: u32) -> (r: Option<usize>)
    ensures
        r matches Some(i) ==> client_index(clients@, issi) == Some(i as int),
        r is None ==> client_index(clients@, issi) is None,
        r is None ==> forall|j: int| 0 <= j < clients@.len() ==> #[trigger] clients@[j].issi != issi,
{
    let mut i: usize = 0;
    while i < clients.len()
        invariant
            i <= clients.len(),
            forall|j: int| 0 <= j < i ==> #[trigger] clients@[j].issi != issi,
        decreases clients.len() - i,
    {
        if clients[i].issi == issi {
            proof {
                assert(first_client(clients@, issi, i as int));
                let k = choose|k: int| first_client(clients@, issi, k);
                lemma_first_client_unique(clients@, issi, i as int, k);
            }
            return Some(i);
        }
        i = i + 1;
    }
    proof {
        assert forall|k: int| !first_client(clients@, issi, k) by {
            if first_client(clients@, issi, k) {
                assert(clients@[k].issi != issi);
            }
        }
    }
    None
}

fn find_affiliation(affs: &Vec<Affiliation>, a: Affiliation) -> (r: Option<usize>)
    ensures
        r matches Some(i) ==> affiliation_index(affs@, a) == Some(i as int),
        r is None ==> affiliation_index(affs@, a) is None,
{
    let mut i: usize = 0;
    while i < affs.len()
        invariant
            i <= affs.len(),
            forall|j: int| 0 <= j < i ==> #[trigger] affs@[j] != a,
        decreases affs.len() - i,
    {
        let x = affs[i];
        if x.issi == a.issi && x.gssi == a.gssi {
            proof {
                assert(first_affiliation(affs@, a, i as int));
                let k = choose|k: int| first_affiliation(affs@, a, k);
                lemma_first_affiliation_unique(affs@, a, i as int, k);
            }
            return Some(i);
        }
        i = i + 1;
    }
    proof {
        assert forall|k: int| !first_affiliation(affs@, a, k) by {
            if first_affiliation(affs@, a, k) {
                assert(affs@[k] != a);
            }
        }
    }
    None
}

/// The mode value `v` names.
pub fn esm_from_value(v: u64) -> (r: Option<EnergySavingMode>)
    ensures
        r == esm_of(v),
        v <= 7 ==> (r matches Some(m) && esm_number(m) == v),
        v > 7 ==> r is None,
{
    if v == 0 {
        Some(EnergySavingMode::StayAlive)
    } else if v == 1 {
        Some(EnergySavingMode::Eg1)
    } else if v == 2 {
        Some(EnergySavingMode::Eg2)
    } else if v == 3 {
        Some(EnergySavingMode::Eg3)
    } else if v == 4 {
        Some(EnergySavingMode::Eg4)
    } else if v == 5 {
        Some(EnergySavingMode::Eg5)
    } else if v == 6 {
        Some(EnergySavingMode::Eg6)
    } else if v == 7 {
        Some(EnergySavingMode::Eg7)
    } else {
        None
    }
}

/// The mode a status-dependent information field of `len` bits asks for.
pub fn decode_requested_esm(info: Option<u64>, len: Option<usize>) -> (r: EnergySavingMode)
    requires
        info is Some ==> match len {
            Some(l) => l < 67,
            None => true,
        },
    ensures
        r == requested_esm(info, len),
        info matches Some(d) ==> (len matches Some(l) ==> (l >= 3 && (d >> ((l - 3) as u64)) <= 7 ==> esm_number(r) == d
            >> ((l - 3) as u64))),
{
    match info {
        Some(d) => {
            let n: usize = match len {
                Some(l) => l,
                None => 0,
            };
            if n >= 3 {
                let shift: u64 = (n - 3) as u64;
                match esm_from_value(d >> shift) {
                    Some(m) => m,
                    None => EnergySavingMode::StayAlive,
                }
            } else {
                EnergySavingMode::StayAlive
            }
        },
        None => EnergySavingMode::StayAlive,
    }
}

impl MmBs {
    /// No radios, no affiliations.
    pub fn new() -> (r: Self)
        ensures
            r.clients@ == Seq::<MmClient>::empty(),
            r.affiliations@ == Seq::<Affiliation>::empty(),
    {
        MmBs { clients: Vec::new(), affiliations: Vec::new() }
    }

    /// Whether a location update demand asks only for what is supported.
    pub fn feature_check_u_location_update_demand(d: &LocationUpdateDemand) -> (r: bool)
        ensures
            r == location_update_supported(*d),
    {
        d.location_update_type != LocationUpdateType::MigratingLocationUpdating
            && d.location_update_type != LocationUpdateType::DisabledMsUpdating && !d.request_to_append_la
            && !d.cipher_control && d.ciphering_parameters.is_none()
    }

    /// Register radio `issi` if it is unknown; returns whether it was.
    fn register_if_new(&mut self, issi: u32) -> (r: bool)
        ensures
            r == (client_index(old(self).clients@, issi) is None),
            final(self).clients@ == with_client(old(self).clients@, issi),
            final(self).affiliations@ == old(self).affiliations@,
            client_index(final(self).clients@, issi) is Some,
    {
        match find_client(&self.clients, issi) {
            Some(_) => false,
            None => {
                let ghost s = self.clients@;
                self.clients.push(MmClient { issi, energy_saving_mode: EnergySavingMode::StayAlive, class_of_ms: None });
                proof {
                    assert(first_client(self.clients@, issi, s.len() as int)) by {
                        assert forall|j: int| 0 <= j < s.len() implies #[trigger] self.clients@[j].issi != issi by {
                            assert(self.clients@[j] == s[j]);
                        }
                    }
                }
                true
            },
        }
    }

    /// Set the energy saving mode of radio `issi`, when it is known.
    fn set_esm(&mut self, issi: u32, m: EnergySavingMode)
        ensures
            final(self).clients@ == with_esm(old(self).clients@, issi, m),
            final(self).affiliations@ == old(self).affiliations@,
    {
        if let Some(i) = find_client(&self.clients, issi) {
            let c = self.clients[i];
            self.clients.set(i, MmClient { issi: c.issi, energy_saving_mode: m, class_of_ms: c.class_of_ms });
        }
    }

    /// Attach radio `issi` to, or detach it from, each listed group in turn. Returns the
    /// accepted group identities and pushes an update for the groups newly attached, then one
    /// for those newly detached, when there are any.
    fn try_attach_detach_groups(&mut self, updates: &mut Vec<SubscriberUpdate>, issi: u32, gs: &Vec<GroupUplink>) -> (r: Vec<
        GroupDownlink,
    >)
        ensures
            ({
                let known = client_index(old(self).clients@, issi) is Some;
                let (a, acc, att, det) = groups_fold(old(self).affiliations@, issi, known, gs@);
                &&& final(self).affiliations@ == a
                &&& r@ == acc
                &&& updates_view(final(updates)@) == updates_view(old(updates)@) + group_updates(issi, att, det)
            }),
            final(self).clients@ == old(self).clients@,
    {
        let mut accepted: Vec<GroupDownlink> = Vec::new();
        let mut att: Vec<u32> = Vec::new();
        let mut det: Vec<u32> = Vec::new();
        let known = find_client(&self.clients, issi).is_some();
        let mut i: usize = 0;
        while i < gs.len()
            invariant
                i <= gs.len(),
                known == (client_index(old(self).clients@, issi) is Some),
                (self.affiliations@, accepted@, att@, det@) == groups_fold(old(self).affiliations@, issi, known, gs@.take(i as int)),
                self.clients@ == old(self).clients@,
            decreases gs.len() - i,
        {
            proof {
                assert(gs@.take(i + 1).drop_last() =~= gs@.take(i as int));
                assert(gs@.take(i + 1).last() == gs@[i as int]);
            }
            let g = gs[i];
            if !known {
                i = i + 1;
                continue;
            }
            if let Some(gssi) = g.gssi {
                if g.vgssi.is_none() && g.address_extension.is_none() {
                    let a = Affiliation { issi, gssi };
                    if g.detachment.is_some() {
                        match find_affiliation(&self.affiliations, a) {
                            Some(k) => {
                                self.affiliations.remove(k);
                                det.push(gssi);
                            },
                            None => {},
                        }
                        accepted.push(GroupDownlink { gssi, attachment: None, detachment: g.detachment });
                    } else {
                        match find_affiliation(&self.affiliations, a) {
                            Some(_) => {},
                            None => {
                                self.affiliations.push(a);
                                att.push(gssi);
                            },
                        }
                        let cu: u8 = match g.class_of_usage {
                            Some(c) => c,
                            None => 0,
                        };
                        accepted.push(
                            GroupDownlink {
                                gssi,
                                attachment: Some(GroupAttachment { lifetime: 1, class_of_usage: cu }),
                                detachment: None,
                            },
                        );
                    }
                }
            }
            i = i + 1;
        }
        proof {
            assert(gs@.take(gs@.len() as int) =~= gs@);
        }
        let ghost before = updates@;
        if att.len() > 0 {
            updates.push(SubscriberUpdate { issi, groups: att, action: SubscriberAction::Affiliate });
        }
        let ghost mid = updates@;
        if det.len() > 0 {
            updates.push(SubscriberUpdate { issi, groups: det, action: SubscriberAction::Deaffiliate });
        }
        proof {
            let (a, acc, att_s, det_s) = groups_fold(old(self).affiliations@, issi, known, gs@);
            let first = if att_s.len() > 0 { seq![(issi, att_s, SubscriberAction::Affiliate)] } else { Seq::empty() };
            assert(updates_view(mid) =~= updates_view(before) + first);
            assert(updates_view(updates@) =~= updates_view(before) + group_updates(issi, att_s, det_s));
        }
        accepted
    }
    /// Set the energy saving mode and class of radio `issi`, when it is known.
    fn set_details(&mut self, issi: u32, m: EnergySavingMode, class: Option<u32>)
        ensures
            final(self).clients@ == with_details(old(self).clients@, issi, m, class),
            final(self).affiliations@ == old(self).affiliations@,
            client_index(final(self).clients@, issi) == client_index(old(self).clients@, issi),
    {
        if let Some(i) = find_client(&self.clients, issi) {
            let c = self.clients[i];
            let ghost s = self.clients@;
            self.clients.set(i, MmClient { issi: c.issi, energy_saving_mode: m, class_of_ms: class });
            proof {
                assert(first_client(s, issi, i as int));
                assert(first_client(self.clients@, issi, i as int)) by {
                    assert forall|j: int| 0 <= j < i implies #[trigger] self.clients@[j].issi != issi by {
                        assert(self.clients@[j] == s[j]);
                    }
                }
                let k = choose|k: int| first_client(self.clients@, issi, k);
                lemma_first_client_unique(self.clients@, issi, i as int, k);
            }
        }
    }

    /// Detach radio `issi` from all its groups, returning them in order.
    fn detach_all_groups(&mut self, issi: u32) -> (r: Vec<u32>)
        ensures
            r@ == groups_of(old(self).affiliations@, issi),
            final(self).affiliations@ == without_radio(old(self).affiliations@, issi),
            final(self).clients@ == old(self).clients@,
    {
        let mut kept: Vec<Affiliation> = Vec::new();
        let mut prior: Vec<u32> = Vec::new();
        let mut i: usize = 0;
        while i < self.affiliations.len()
            invariant
                i <= self.affiliations.len(),
                self.affiliations@ == old(self).affiliations@,
                self.clients@ == old(self).clients@,
                kept@ == without_radio(self.affiliations@.take(i as int), issi),
                prior@ == groups_of(self.affiliations@.take(i as int), issi),
            decreases self.affiliations.len() - i,
        {
            proof {
                assert(self.affiliations@.take(i + 1).drop_last() =~= self.affiliations@.take(i as int));
                assert(self.affiliations@.take(i + 1).last() == self.affiliations@[i as int]);
            }
            let a = self.affiliations[i];
            if a.issi == issi {
                prior.push(a.gssi);
            } else {
                kept.push(a);
            }
            i = i + 1;
        }
        proof {
            assert(self.affiliations@.take(self.affiliations@.len() as int) =~= self.affiliations@);
        }
        self.affiliations = kept;
        prior
    }

    /// A U-LOCATION UPDATE DEMAND from radio `issi` (MLE handle `handle`). A migration is
    /// refused with D-LOCATION UPDATE REJECT; an unsupported demand is dropped. Otherwise an
    /// unknown radio is registered, the radio is set to stay alive with the class it sent,
    /// the groups it lists are attached or detached, and the demand is accepted.
    pub fn rx_u_location_update_demand(&mut self, d: &LocationUpdateDemand, issi: u32, handle: u32) -> (r: MmResponse)
        ensures
            forall|k: int|
                0 <= k < r.pdus@.len() ==> (#[trigger] r.pdus@[k] matches MmPdu::LocationUpdateAccept { energy_saving_mode: e, .. }
                    ==> (e is Some <==> d.energy_saving_mode is Some) && (e is None || e == Some(EnergySavingMode::StayAlive))),
            forall|k: int| 0 <= k < final(self).clients@.len() && final(self).clients@[k].issi == issi && !is_migration(d.location_update_type)
                && location_update_supported(*d) && client_index(final(self).clients@, issi) == Some(k) ==> #[trigger] final(self).clients@[k].energy_saving_mode
                == EnergySavingMode::StayAlive,
            is_migration(d.location_update_type) ==> {
                &&& r.pdus@ == seq![
                    MmPdu::LocationUpdateReject {
                        issi,
                        handle,
                        location_update_type: d.location_update_type,
                        address_extension: d.address_extension,
                    },
                ]
                &&& r.updates@.len() == 0
                &&& r.accepted_groups@.len() == 0
                &&& final(self).clients@ == old(self).clients@
                &&& final(self).affiliations@ == old(self).affiliations@
            },
            !is_migration(d.location_update_type) && !location_update_supported(*d) ==> {
                &&& r.pdus@.len() == 0
                &&& r.updates@.len() == 0
                &&& r.accepted_groups@.len() == 0
                &&& final(self).clients@ == old(self).clients@
                &&& final(self).affiliations@ == old(self).affiliations@
            },
            !is_migration(d.location_update_type) && location_update_supported(*d) ==> {
                let is_new = client_index(old(self).clients@, issi) is None;
                &&& final(self).clients@ == with_details(
                    with_client(old(self).clients@, issi),
                    issi,
                    EnergySavingMode::StayAlive,
                    d.class_of_ms,
                )
                &&& r.pdus@ == location_update_pdus(*d, issi, handle, is_new)
                &&& match d.group_identity_location_demand {
                    Some(Some(gs)) => {
                        let (a, acc, att, det) = groups_fold(old(self).affiliations@, issi, true, gs@);
                        &&& final(self).affiliations@ == a
                        &&& r.accepted_groups@ == acc
                        &&& updates_view(r.updates@) == register_update(issi, is_new) + group_updates(issi, att, det)
                    },
                    _ => {
                        &&& final(self).affiliations@ == old(self).affiliations@
                        &&& r.accepted_groups@.len() == 0
                        &&& updates_view(r.updates@) == register_update(issi, is_new)
                    },
                }
            },
    {
        let mut updates: Vec<SubscriberUpdate> = Vec::new();
        let mut pdus: Vec<MmPdu> = Vec::new();
        let mut accepted: Vec<GroupDownlink> = Vec::new();
        let lut = d.location_update_type;
        if lut == LocationUpdateType::MigratingLocationUpdating || lut == LocationUpdateType::ServiceRestorationMigratingLocationUpdating {
            pdus.push(
                MmPdu::LocationUpdateReject {
                    issi,
                    handle,
                    location_update_type: lut,
                    address_extension: d.address_extension,
                },
            );
            proof {
                assert(pdus@ =~= seq![
                    MmPdu::LocationUpdateReject { issi, handle, location_update_type: lut, address_extension: d.address_extension },
                ]);
            }
            return MmResponse { updates, pdus, accepted_groups: accepted };
        }
        if !Self::feature_check_u_location_update_demand(d) {
            return MmResponse { updates, pdus, accepted_groups: accepted };
        }
        let esm = match d.energy_saving_mode {
            Some(_) => Some(EnergySavingMode::StayAlive),
            None => None,
        };
        let is_new = self.register_if_new(issi);
        if is_new {
            updates.push(SubscriberUpdate { issi, groups: Vec::new(), action: SubscriberAction::Register });
        }
        proof {
            assert(updates_view(updates@) =~= register_update(issi, is_new));
        }
        self.set_details(issi, EnergySavingMode::StayAlive, d.class_of_ms);
        let group_accept = match &d.group_identity_location_demand {
            Some(Some(gs)) => {
                accepted = self.try_attach_detach_groups(&mut updates, issi, gs);
                Some(true)
            },
            Some(None) => Some(false),
            None => None,
        };
        pdus.push(
            MmPdu::LocationUpdateAccept {
                issi,
                handle,
                location_update_type: lut,
                energy_saving_mode: esm,
                group_accept,
            },
        );
        if is_new && lut != LocationUpdateType::ItsiAttach {
            pdus.push(MmPdu::LocationUpdateCommand { issi, handle });
        }
        proof {
            assert(pdus@ =~= location_update_pdus(*d, issi, handle, is_new));
        }
        MmResponse { updates, pdus, accepted_groups: accepted }
    }

    /// A U-MM STATUS from radio `issi` at `address` (MLE handle `handle`), with its
    /// status-dependent information `info` of `info_len` bits. A request to change the
    /// energy saving mode is answered with stay alive, which is stored; a response stores the
    /// mode it carries; any other status is answered as not supported.
    pub fn rx_u_mm_status(
        &mut self,
        status: StatusUplink,
        info: Option<u64>,
        info_len: Option<usize>,
        issi: u32,
        handle: u32,
        address: TetraAddress,
    ) -> (r: MmResponse)
        requires
            info is Some ==> match info_len {
                Some(l) => l < 67,
                None => true,
            },
        ensures
            r.updates@.len() == 0,
            r.accepted_groups@.len() == 0,
            final(self).affiliations@ == old(self).affiliations@,
            match status {
                StatusUplink::ChangeOfEnergySavingModeRequest => {
                    &&& final(self).clients@ == with_esm(old(self).clients@, issi, EnergySavingMode::StayAlive)
                    &&& r.pdus@ == seq![
                        MmPdu::MmStatusEnergySaving { issi, handle, energy_saving_mode: EnergySavingMode::StayAlive },
                    ]
                },
                StatusUplink::ChangeOfEnergySavingModeResponse => {
                    &&& final(self).clients@ == with_esm(old(self).clients@, issi, requested_esm(info, info_len))
                    &&& r.pdus@.len() == 0
                },
                StatusUplink::Other { raw } => {
                    &&& final(self).clients@ == old(self).clients@
                    &&& r.pdus@ == seq![MmPdu::FunctionNotSupported { handle, address, status: raw }]
                },
            },
    {
        let updates: Vec<SubscriberUpdate> = Vec::new();
        let mut pdus: Vec<MmPdu> = Vec::new();
        let accepted: Vec<GroupDownlink> = Vec::new();
        match status {
            StatusUplink::ChangeOfEnergySavingModeRequest => {
                let _requested = decode_requested_esm(info, info_len);
                self.set_esm(issi, EnergySavingMode::StayAlive);
                pdus.push(MmPdu::MmStatusEnergySaving { issi, handle, energy_saving_mode: EnergySavingMode::StayAlive });
            },
            StatusUplink::ChangeOfEnergySavingModeResponse => {
                let m = decode_requested_esm(info, info_len);
                self.set_esm(issi, m);
            },
            StatusUplink::Other { raw } => {
                pdus.push(MmPdu::FunctionNotSupported { handle, address, status: raw });
            },
        }
        proof {
            match status {
                StatusUplink::ChangeOfEnergySavingModeRequest => {
                    assert(pdus@ =~= seq![
                        MmPdu::MmStatusEnergySaving { issi, handle, energy_saving_mode: EnergySavingMode::StayAlive },
                    ]);
                },
                StatusUplink::Other { raw } => {
                    assert(pdus@ =~= seq![MmPdu::FunctionNotSupported { handle, address, status: raw }]);
                },
                _ => {},
            }
        }
        MmResponse { updates, pdus, accepted_groups: accepted }
    }

    /// A U-ATTACH/DETACH GROUP IDENTITY from radio `issi` (MLE handle `handle`). Without a
    /// group list it is dropped. In attach/detach mode an unknown radio is registered and a
    /// known one is first detached from all its groups; then the listed groups are attached
    /// or detached, and the acknowledgement carries the accepted ones.
    pub fn rx_u_attach_detach_group_identity(&mut self, p: &AttachDetachGroupIdentity, issi: u32, handle: u32) -> (r: MmResponse)
        ensures
            p.group_identity_uplink is None ==> {
                &&& r.pdus@.len() == 0
                &&& r.updates@.len() == 0
                &&& r.accepted_groups@.len() == 0
                &&& final(self).clients@ == old(self).clients@
                &&& final(self).affiliations@ == old(self).affiliations@
            },
            p.group_identity_uplink matches Some(gs) ==> {
                let is_new = client_index(old(self).clients@, issi) is None;
                let mode = p.group_identity_attach_detach_mode;
                let prior = groups_of(old(self).affiliations@, issi);
                let affs1 = if mode && !is_new { without_radio(old(self).affiliations@, issi) } else { old(self).affiliations@ };
                let first: Seq<(u32, Seq<u32>, SubscriberAction)> = if mode && is_new {
                    register_update(issi, true)
                } else if mode && prior.len() > 0 {
                    seq![(issi, prior, SubscriberAction::Deaffiliate)]
                } else {
                    Seq::empty()
                };
                let (a, acc, att, det) = groups_fold(affs1, issi, mode || !is_new, gs@);
                &&& final(self).clients@ == if mode { with_client(old(self).clients@, issi) } else { old(self).clients@ }
                &&& final(self).affiliations@ == a
                &&& r.accepted_groups@ == acc
                &&& updates_view(r.updates@) == first + group_updates(issi, att, det)
                &&& r.pdus@ == seq![MmPdu::AttachDetachAck { issi, handle }]
            },
    {
        let mut updates: Vec<SubscriberUpdate> = Vec::new();
        let mut pdus: Vec<MmPdu> = Vec::new();
        let gs = match &p.group_identity_uplink {
            Some(gs) => gs,
            None => {
                return MmResponse { updates, pdus, accepted_groups: Vec::new() };
            },
        };
        let ghost is_new = client_index(old(self).clients@, issi) is None;
        if p.group_identity_attach_detach_mode {
            match find_client(&self.clients, issi) {
                None => {
                    self.register_if_new(issi);
                    updates.push(SubscriberUpdate { issi, groups: Vec::new(), action: SubscriberAction::Register });
                },
                Some(_) => {
                    let prior = self.detach_all_groups(issi);
                    if prior.len() > 0 {
                        updates.push(SubscriberUpdate { issi, groups: prior, action: SubscriberAction::Deaffiliate });
                    }
                },
            }
        }
        proof {
            let mode = p.group_identity_attach_detach_mode;
            let prior = groups_of(old(self).affiliations@, issi);
            let first: Seq<(u32, Seq<u32>, SubscriberAction)> = if mode && is_new {
                register_update(issi, true)
            } else if mode && prior.len() > 0 {
                seq![(issi, prior, SubscriberAction::Deaffiliate)]
            } else {
                Seq::empty()
            };
            assert(updates_view(updates@) =~= first);
        }
        let accepted = self.try_attach_detach_groups(&mut updates, issi, gs);
        pdus.push(MmPdu::AttachDetachAck { issi, handle });
        proof {
            assert(pdus@ =~= seq![MmPdu::AttachDetachAck { issi, handle }]);
        }
        MmResponse { updates, pdus, accepted_groups: accepted }
    }
    /// A U-ITSI DETACH from radio `issi`: a registered radio is removed, detached from its
    /// groups (announced when it had any) and deregistered. An unknown radio changes nothing.
    pub fn rx_u_itsi_detach(&mut self, issi: u32) -> (r: MmResponse)
        ensures
            r.pdus@.len() == 0,
            r.accepted_groups@.len() == 0,
            client_index(old(self).clients@, issi) is None ==> {
                &&& r.updates@.len() == 0
                &&& final(self).clients@ == old(self).clients@
                &&& final(self).affiliations@ == old(self).affiliations@
            },
            client_index(old(self).clients@, issi) matches Some(i) ==> {
                let prior = groups_of(old(self).affiliations@, issi);
                let first: Seq<(u32, Seq<u32>, SubscriberAction)> = if prior.len() > 0 {
                    seq![(issi, prior, SubscriberAction::Deaffiliate)]
                } else {
                    Seq::empty()
                };
                &&& final(self).clients@ == old(self).clients@.remove(i)
                &&& final(self).affiliations@ == without_radio(old(self).affiliations@, issi)
                &&& updates_view(r.updates@) == first.push((issi, Seq::<u32>::empty(), SubscriberAction::Deregister))
            },
    {
        let mut updates: Vec<SubscriberUpdate> = Vec::new();
        let pdus: Vec<MmPdu> = Vec::new();
        let accepted: Vec<GroupDownlink> = Vec::new();
        let i = match find_client(&self.clients, issi) {
            Some(i) => i,
            None => {
                return MmResponse { updates, pdus, accepted_groups: accepted };
            },
        };
        self.clients.remove(i);
        let prior = self.detach_all_groups(issi);
        if prior.len() > 0 {
            updates.push(SubscriberUpdate { issi, groups: prior, action: SubscriberAction::Deaffiliate });
        }
        let ghost mid = updates@;
        updates.push(SubscriberUpdate { issi, groups: Vec::new(), action: SubscriberAction::Deregister });
        proof {
            let prior_s = groups_of(old(self).affiliations@, issi);
            let first: Seq<(u32, Seq<u32>, SubscriberAction)> = if prior_s.len() > 0 {
                seq![(issi, prior_s, SubscriberAction::Deaffiliate)]
            } else {
                Seq::empty()
            };
            assert(updates_view(mid) =~= first);
            assert(updates_view(updates@) =~= first.push((issi, Seq::<u32>::empty(), SubscriberAction::Deregister)));
        }
        MmResponse { updates, pdus, accepted_groups: accepted }
    }
}

} // verus!
