//! What is known of each host, and which one has the input.

use vstd::prelude::*;

use crate::ids::{is_host_slot, HostId};
use crate::input::KeyboardLedState;
use crate::lists::{first_where, lemma_first_at, lemma_first_none, lemma_first_where};
use crate::reports::ReportKind;
use crate::storage::{
    same_bond, FixedName, StorageError, StorageState, StorageView, StoredBond, StoredHostProfile,
    STORED_HOSTS_MAX,
};

verus! {

/// The hosts, and which one has the input.
#[derive(Clone, Debug, PartialEq, Eq)]
pub struct BleHostStateMachine<const HOSTS: usize> {
    active_target: Option<HostId>,
    hosts: [Option<HostRuntimeState>; HOSTS],
}

/// What is known of a host.
#[derive(Clone, Copy, Debug, PartialEq, Eq)]
pub struct HostRuntimeState {
    pub host_id: HostId,
    pub connected: bool,
    pub encrypted: bool,
    pub bonded: bool,
    pub stored_report_ready: ReportReady,
    pub session_report_ready: ReportReady,
    pub keyboard_leds: Option<KeyboardLedState>,
    pub name: FixedName,
    pub discovered_name: FixedName,
    pub bond: Option<StoredBond>,
}

/// Which reports a host has subscribed to.
#[derive(Clone, Copy, Debug, PartialEq, Eq, Structural)]
pub struct ReportReady {
    pub keyboard: bool,
    pub mouse: bool,
    pub consumer: bool,
    pub keyboard_output: bool,
}

/// Why a host was refused.
#[derive(Clone, Copy, Debug, PartialEq, Eq, Structural)]
pub enum HostStateError {
    InvalidHostId,
    HostCapacity,
}

impl ReportReady {
    /// No report.
    pub open spec fn nothing() -> ReportReady {
        ReportReady { keyboard: false, mouse: false, consumer: false, keyboard_output: false }
    }

    /// Whether a report is among them.
    pub open spec fn has(self, kind: ReportKind) -> bool {
        match kind {
            ReportKind::Keyboard => self.keyboard,
            ReportKind::Mouse => self.mouse,
            ReportKind::Consumer => self.consumer,
            ReportKind::KeyboardOutput => self.keyboard_output,
        }
    }

    /// With one report put in or left out.
    pub open spec fn with(self, kind: ReportKind, enabled: bool) -> ReportReady {
        match kind {
            ReportKind::Keyboard => ReportReady { keyboard: enabled, ..self },
            ReportKind::Mouse => ReportReady { mouse: enabled, ..self },
            ReportKind::Consumer => ReportReady { consumer: enabled, ..self },
            ReportKind::KeyboardOutput => ReportReady { keyboard_output: enabled, ..self },
        }
    }

    /// Whether a report is among them.
    pub fn get(self, kind: ReportKind) -> (r: bool)
        ensures
            r == self.has(kind),
    {
        match kind {
            ReportKind::Keyboard => self.keyboard,
            ReportKind::Mouse => self.mouse,
            ReportKind::Consumer => self.consumer,
            ReportKind::KeyboardOutput => self.keyboard_output,
        }
    }

    /// Puts one report in or leaves it out.
    pub fn set(&mut self, kind: ReportKind, enabled: bool)
        ensures
            *final(self) == old(self).with(kind, enabled),
    {
        match kind {
            ReportKind::Keyboard => {
                self.keyboard = enabled;
            },
            ReportKind::Mouse => {
                self.mouse = enabled;
            },
            ReportKind::Consumer => {
                self.consumer = enabled;
            },
            ReportKind::KeyboardOutput => {
                self.keyboard_output = enabled;
            },
        }
    }
}

impl Default for ReportReady {
    fn default() -> (r: Self)
        ensures
            r == ReportReady::nothing(),
    {
        Self { keyboard: false, mouse: false, consumer: false, keyboard_output: false }
    }
}

impl HostRuntimeState {
    /// A host of which nothing is known.
    pub open spec fn unknown(host_id: HostId) -> HostRuntimeState {
        HostRuntimeState {
            host_id,
            connected: false,
            encrypted: false,
            bonded: false,
            stored_report_ready: ReportReady::nothing(),
            session_report_ready: ReportReady::nothing(),
            keyboard_leds: None,
            name: FixedName::nameless(),
            discovered_name: FixedName::nameless(),
            bond: None,
        }
    }

    /// Whether a report can be sent to the host: it is connected, the link is
    /// encrypted, and it has subscribed in this session.
    pub open spec fn takes(self, kind: ReportKind) -> bool {
        self.connected && self.encrypted && self.session_report_ready.has(kind)
    }

    /// Whether there is a bond with the host.
    pub open spec fn is_bound(self) -> bool {
        self.bonded || self.bond is Some
    }

    /// Whether a report can be sent to the host.
    pub fn can_send(self, kind: ReportKind) -> (r: bool)
        ensures
            r == self.takes(kind),
    {
        self.connected && self.encrypted && self.session_report_ready.get(kind)
    }

    fn has_bond(self) -> (r: bool)
        ensures
            r == self.is_bound(),
    {
        self.bonded || self.bond.is_some()
    }

    fn fresh(host_id: HostId) -> (r: Self)
        ensures
            r == HostRuntimeState::unknown(host_id),
    {
        Self {
            host_id,
            connected: false,
            encrypted: false,
            bonded: false,
            stored_report_ready: ReportReady::default(),
            session_report_ready: ReportReady::default(),
            keyboard_leds: None,
            name: FixedName::empty(),
            discovered_name: FixedName::empty(),
            bond: None,
        }
    }
}

impl Default for HostRuntimeState {
    fn default() -> (r: Self)
        ensures
            r == HostRuntimeState::unknown(HostId(0)),
    {
        Self::fresh(HostId(0))
    }
}

/// The hosts, place by place, and which one has the input.
pub struct HostsView {
    pub active: Option<HostId>,
    pub hosts: Seq<Option<HostRuntimeState>>,
}

impl<const HOSTS: usize> View for BleHostStateMachine<HOSTS> {
    type V = HostsView;

    closed spec fn view(&self) -> HostsView {
        HostsView { active: self.active_target, hosts: self.hosts@ }
    }
}

/// Whether a place is that of a host.
pub open spec fn is_host(host_id: HostId) -> spec_fn(Option<HostRuntimeState>) -> bool {
    |place: Option<HostRuntimeState>| place is Some && place->0.host_id == host_id
}

/// Whether a place is free.
pub open spec fn is_vacant() -> spec_fn(Option<HostRuntimeState>) -> bool {
    |place: Option<HostRuntimeState>| place is None
}

/// The connected hosts, in order.
pub open spec fn connected_hosts(hosts: Seq<Option<HostRuntimeState>>) -> Seq<HostId>
    decreases hosts.len(),
{
    if hosts.len() == 0 {
        seq![]
    } else if hosts.last() is Some && hosts.last()->0.connected {
        connected_hosts(hosts.drop_last()).push(hosts.last()->0.host_id)
    } else {
        connected_hosts(hosts.drop_last())
    }
}

/// What is kept of a host while the power is off.
pub open spec fn profile_of(host: HostRuntimeState) -> StoredHostProfile {
    StoredHostProfile {
        host_id: host.host_id,
        bonded: host.bonded,
        keyboard_cccd_enabled: host.stored_report_ready.keyboard,
        mouse_cccd_enabled: host.stored_report_ready.mouse,
        consumer_cccd_enabled: host.stored_report_ready.consumer,
        keyboard_output_cccd_enabled: host.stored_report_ready.keyboard_output,
        name: host.name,
        bond: host.bond,
    }
}

/// What is known of a host of which that was kept.
pub open spec fn host_of(profile: StoredHostProfile) -> HostRuntimeState {
    HostRuntimeState {
        host_id: profile.host_id,
        connected: false,
        encrypted: false,
        bonded: profile.bonded,
        stored_report_ready: ReportReady {
            keyboard: profile.keyboard_cccd_enabled,
            mouse: profile.mouse_cccd_enabled,
            consumer: profile.consumer_cccd_enabled,
            keyboard_output: profile.keyboard_output_cccd_enabled,
        },
        session_report_ready: ReportReady::nothing(),
        keyboard_leds: None,
        name: profile.name,
        discovered_name: FixedName::nameless(),
        bond: profile.bond,
    }
}

/// What is kept of all hosts.
pub open spec fn profiles_of(hosts: Seq<Option<HostRuntimeState>>) -> Seq<StoredHostProfile>
    decreases hosts.len(),
{
    if hosts.len() == 0 {
        seq![]
    } else if hosts.last() is Some {
        profiles_of(hosts.drop_last()).push(profile_of(hosts.last()->0))
    } else {
        profiles_of(hosts.drop_last())
    }
}

impl HostsView {
    /// No host yet.
    pub open spec fn vacant(n: nat) -> HostsView {
        HostsView { active: None, hosts: Seq::new(n, |i: int| None) }
    }

    /// All hosts have numbers of slots, and no two the same.
    pub open spec fn wf(self) -> bool {
        &&& forall|i: int|
            0 <= i < self.hosts.len() && self.hosts[i] is Some ==> is_host_slot(
                (#[trigger] self.hosts[i])->0.host_id.0,
            )
        &&& forall|i: int, j: int|
            0 <= i < j < self.hosts.len() && self.hosts[i] is Some && self.hosts[j] is Some ==> (
            #[trigger] self.hosts[i])->0.host_id != (#[trigger] self.hosts[j])->0.host_id
    }

    /// Where a host stands.
    pub open spec fn index_of(self, host_id: HostId) -> Option<int> {
        first_where(self.hosts, is_host(host_id))
    }

    /// What is known of a host.
    pub open spec fn host(self, host_id: HostId) -> Option<HostRuntimeState> {
        match self.index_of(host_id) {
            Some(i) => self.hosts[i],
            None => None,
        }
    }

    /// What is known of a host, which may be nothing.
    pub open spec fn known(self, host_id: HostId) -> HostRuntimeState {
        match self.host(host_id) {
            Some(host) => host,
            None => HostRuntimeState::unknown(host_id),
        }
    }

    /// The place for a host: its own, or else a free one.
    pub open spec fn place_for(self, host_id: HostId) -> Option<int> {
        match self.index_of(host_id) {
            Some(i) => Some(i),
            None => first_where(self.hosts, is_vacant()),
        }
    }

    /// Why a host is refused, where it is.
    pub open spec fn refusal(self, host_id: HostId) -> Option<HostStateError> {
        if !is_host_slot(host_id.0) {
            Some(HostStateError::InvalidHostId)
        } else if self.place_for(host_id) is None {
            Some(HostStateError::HostCapacity)
        } else {
            None
        }
    }

    /// With something else known of the host `host_id`.
    pub open spec fn with(self, host_id: HostId, host: HostRuntimeState) -> HostsView {
        HostsView {
            hosts: self.hosts.update(self.place_for(host_id)->0, Some(host)),
            ..self
        }
    }

    /// With the input for a host.
    pub open spec fn activated(self, host_id: HostId) -> HostsView {
        HostsView { active: Some(host_id), ..self.with(host_id, self.known(host_id)) }
    }

    /// After a host connected.
    pub open spec fn connected(self, host_id: HostId) -> HostsView {
        self.with(
            host_id,
            HostRuntimeState {
                connected: true,
                encrypted: false,
                session_report_ready: ReportReady::nothing(),
                ..self.known(host_id)
            },
        )
    }

    /// After a host disconnected.
    pub open spec fn disconnected(self, host_id: HostId) -> HostsView {
        if self.index_of(host_id) is Some {
            self.with(
                host_id,
                HostRuntimeState {
                    connected: false,
                    encrypted: false,
                    session_report_ready: ReportReady::nothing(),
                    ..self.known(host_id)
                },
            )
        } else {
            self
        }
    }

    /// What is known of a host after its link's security changed. A bond that
    /// is known is kept. Once the link to a bonded host is encrypted, what it
    /// had subscribed to holds again.
    pub open spec fn secured_host(
        self,
        host_id: HostId,
        encrypted: bool,
        bonded: bool,
        bond: Option<StoredBond>,
    ) -> HostRuntimeState {
        let host = self.known(host_id);
        let bonded = bonded || host.bond is Some;
        HostRuntimeState {
            encrypted,
            bonded,
            bond: if bond is Some {
                bond
            } else {
                host.bond
            },
            session_report_ready: if host.connected && encrypted && bonded {
                host.stored_report_ready
            } else if !encrypted {
                ReportReady::nothing()
            } else {
                host.session_report_ready
            },
            ..host
        }
    }

    /// Whether a change of a link's security has to be kept.
    pub open spec fn security_persists(
        self,
        host_id: HostId,
        bonded: bool,
        bond: Option<StoredBond>,
    ) -> bool {
        let host = self.known(host_id);
        ||| host.bonded != (bonded || host.bond is Some)
        ||| (bond is Some && host.bond != bond)
    }

    /// What is known of a host after it subscribed or unsubscribed.
    pub open spec fn subscribed_host(
        self,
        host_id: HostId,
        kind: ReportKind,
        enabled: bool,
    ) -> HostRuntimeState {
        let host = self.known(host_id);
        HostRuntimeState {
            stored_report_ready: host.stored_report_ready.with(kind, enabled),
            session_report_ready: host.session_report_ready.with(kind, enabled),
            ..host
        }
    }

    /// Without a host.
    pub open spec fn cleared(self, host_id: HostId) -> HostsView {
        match self.index_of(host_id) {
            Some(i) => HostsView {
                active: if self.active == Some(host_id) {
                    None
                } else {
                    self.active
                },
                hosts: self.hosts.update(i, None),
            },
            None => self,
        }
    }

    /// Whether a report can be sent to a host.
    pub open spec fn sends(self, host_id: HostId, kind: ReportKind) -> bool {
        self.host(host_id) is Some && self.host(host_id)->0.takes(kind)
    }

    /// The connected host behind `current`, or the first one.
    pub open spec fn next_after(self, current: Option<HostId>) -> Option<HostId> {
        let all = connected_hosts(self.hosts);
        if all.len() == 0 {
            None
        } else if current is Some && all.contains(current->0) && all.index_of_first(current->0)->0
            + 1 < all.len() {
            Some(all[all.index_of_first(current->0)->0 + 1])
        } else {
            Some(all[0])
        }
    }

    /// Whether there is a bond with a host.
    pub open spec fn bound(self, host_id: HostId) -> bool {
        self.host(host_id) is Some && self.host(host_id)->0.is_bound()
    }

    /// The first host from number `n` on without a bond.
    pub open spec fn unbound_from(self, n: int) -> Option<HostId>
        decreases self.hosts.len() + 1 - n,
    {
        if n > self.hosts.len() || n > 255 {
            None
        } else if self.bound(HostId(n as u8)) {
            self.unbound_from(n + 1)
        } else {
            Some(HostId(n as u8))
        }
    }

    /// The host that may pair next: the one that has the input, where it is
    /// known and has no bond, or else the first without a bond.
    pub open spec fn candidate(self) -> Option<HostId> {
        if self.active is Some && self.host(self.active->0) is Some && !self.bound(
            self.active->0,
        ) {
            self.active
        } else {
            self.unbound_from(1)
        }
    }

    /// With one host that was kept.
    pub open spec fn with_kept(self, profile: StoredHostProfile) -> HostsView {
        self.with(profile.host_id, host_of(profile))
    }

    /// With hosts that were kept, as far as none is refused, and why one was.
    pub open spec fn with_all_kept(self, profiles: Seq<StoredHostProfile>) -> (
        HostsView,
        Option<HostStateError>,
    )
        decreases profiles.len(),
    {
        if profiles.len() == 0 {
            (self, None)
        } else {
            let before = self.with_all_kept(profiles.drop_last());
            if before.1 is Some {
                before
            } else {
                let refusal = before.0.refusal(profiles.last().host_id);
                if refusal is Some {
                    (before.0, refusal)
                } else {
                    (before.0.with_kept(profiles.last()), None)
                }
            }
        }
    }

    /// After what was kept came back, and why not all of it did.
    pub open spec fn restored(self, storage: StorageView) -> (HostsView, Option<HostStateError>) {
        HostsView {
            active: storage.last_active_host,
            hosts: Seq::new(self.hosts.len(), |i: int| None),
        }.with_all_kept(storage.hosts)
    }
}

/// To know something else of a host that is not refused keeps `wf`.
proof fn lemma_with_wf(v: HostsView, host_id: HostId, host: HostRuntimeState)
    requires
        v.wf(),
        v.refusal(host_id) is None,
        host.host_id == host_id,
    ensures
        v.with(host_id, host).wf(),
        v.with(host_id, host).hosts.len() == v.hosts.len(),
{
    lemma_first_where(v.hosts, is_host(host_id));
    lemma_first_where(v.hosts, is_vacant());
    let place = v.place_for(host_id)->0;
    let after = v.with(host_id, host);
    assert forall|j: int| 0 <= j < v.hosts.len() && j != place && v.hosts[j] is Some implies (
    #[trigger] v.hosts[j])->0.host_id != host_id by {
        if v.index_of(host_id) is Some {
            assert(is_host(host_id)(v.hosts[place]));
            if j < place {
                assert(v.hosts[j]->0.host_id != v.hosts[place]->0.host_id);
            } else {
                assert(v.hosts[place]->0.host_id != v.hosts[j]->0.host_id);
            }
        } else {
            assert(!is_host(host_id)(v.hosts[j]));
        }
    }
    assert forall|i: int, j: int|
        0 <= i < j < after.hosts.len() && after.hosts[i] is Some && after.hosts[j] is Some implies (
    #[trigger] after.hosts[i])->0.host_id != (#[trigger] after.hosts[j])->0.host_id by {
        if i != place && j != place {
            assert(v.hosts[i]->0.host_id != v.hosts[j]->0.host_id);
        } else if i == place {
            assert(v.hosts[j]->0.host_id != host_id);
        } else {
            assert(v.hosts[i]->0.host_id != host_id);
        }
    }
    assert forall|i: int| 0 <= i < after.hosts.len() && after.hosts[i] is Some implies is_host_slot(
        (#[trigger] after.hosts[i])->0.host_id.0,
    ) by {
        if i != place {
            assert(is_host_slot(v.hosts[i]->0.host_id.0));
        }
    }
}

/// What is known of a host has its number.
proof fn lemma_known(v: HostsView, host_id: HostId)
    ensures
        v.known(host_id).host_id == host_id,
{
    lemma_first_where(v.hosts, is_host(host_id));
}

/// A host that has a place is not refused.
pub(crate) proof fn lemma_known_not_refused(v: HostsView, host_id: HostId)
    requires
        v.wf(),
        v.index_of(host_id) is Some,
    ensures
        v.refusal(host_id) is None,
{
    lemma_first_where(v.hosts, is_host(host_id));
    let i = v.index_of(host_id)->0;
    assert(is_host(host_id)(v.hosts[i]));
    assert(is_host_slot(v.hosts[i]->0.host_id.0));
}

proof fn lemma_edited_wf(v: HostsView, host_id: HostId)
    requires
        v.wf(),
        v.refusal(host_id) is None,
        v.index_of(host_id) is Some,
    ensures
        forall|host: HostRuntimeState|
            host.host_id == host_id ==> (#[trigger] v.with(host_id, host)).wf(),
{
    assert forall|host: HostRuntimeState| host.host_id == host_id implies (#[trigger] v.with(
        host_id,
        host,
    )).wf() by {
        lemma_with_wf(v, host_id, host);
    }
}

/// To forget a host keeps `wf`.
proof fn lemma_cleared_wf(v: HostsView, host_id: HostId)
    requires
        v.wf(),
    ensures
        v.cleared(host_id).wf(),
{
    let after = v.cleared(host_id);
    lemma_first_where(v.hosts, is_host(host_id));
    assert forall|i: int| 0 <= i < after.hosts.len() && after.hosts[i] is Some implies after.hosts[i]
        == #[trigger] v.hosts[i] by {}
    assert forall|i: int| 0 <= i < after.hosts.len() && after.hosts[i] is Some implies is_host_slot(
        (#[trigger] after.hosts[i])->0.host_id.0,
    ) by {
        assert(is_host_slot(v.hosts[i]->0.host_id.0));
    }
    assert forall|i: int, j: int|
        0 <= i < j < after.hosts.len() && after.hosts[i] is Some && after.hosts[j] is Some implies (
    #[trigger] after.hosts[i])->0.host_id != (#[trigger] after.hosts[j])->0.host_id by {
        assert(v.hosts[i]->0.host_id != v.hosts[j]->0.host_id);
    }
}

proof fn lemma_refused_stays(v: HostsView, profiles: Seq<StoredHostProfile>, n: int)
    requires
        0 <= n <= profiles.len(),
        v.with_all_kept(profiles.take(n)).1 is Some,
    ensures
        v.with_all_kept(profiles) == v.with_all_kept(profiles.take(n)),
    decreases profiles.len() - n,
{
    if n < profiles.len() {
        assert(profiles.take(n + 1).drop_last() =~= profiles.take(n));
        lemma_refused_stays(v, profiles, n + 1);
    } else {
        assert(profiles.take(n) =~= profiles);
    }
}

proof fn lemma_profiles_grow(hosts: Seq<Option<HostRuntimeState>>, n: int)
    requires
        0 <= n <= hosts.len(),
    ensures
        profiles_of(hosts.take(n)).len() <= profiles_of(hosts).len(),
    decreases hosts.len() - n,
{
    if n < hosts.len() {
        lemma_profiles_grow(hosts, n + 1);
        assert(hosts.take(n + 1).drop_last() =~= hosts.take(n));
    } else {
        assert(hosts.take(n) =~= hosts);
    }
}

impl<const HOSTS: usize> BleHostStateMachine<HOSTS> {
    /// There are as many places as the type says.
    pub proof fn lemma_places(&self)
        ensures
            self@.hosts.len() == HOSTS,
    {
    }

    /// No host yet.
    pub fn new() -> (r: Self)
        ensures
            r@.wf(),
            r@ == HostsView::vacant(HOSTS as nat),
    {
        let r = Self { active_target: None, hosts: [None;HOSTS] };
        assert(r@.hosts =~= HostsView::vacant(HOSTS as nat).hosts);
        r
    }

    /// Another machine in the same state.
    pub fn copied(&self) -> (r: Self)
        ensures
            r@ == self@,
    {
        Self { active_target: self.active_target, hosts: self.hosts }
    }

    /// The host that has the input.
    pub fn active_target(&self) -> (r: Option<HostId>)
        ensures
            r == self@.active,
    {
        self.active_target
    }

    /// The hosts, place by place.
    pub fn hosts(&self) -> (r: &[Option<HostRuntimeState>; HOSTS])
        ensures
            r@ == self@.hosts,
    {
        &self.hosts
    }

    /// Gives a host the input, and says whether that changes anything.
    pub fn set_active_target(&mut self, host_id: HostId) -> (r: Result<bool, HostStateError>)
        ensures
            old(self)@.wf() ==> final(self)@.wf(),
            match old(self)@.refusal(host_id) {
                Some(error) => r == Err::<bool, HostStateError>(error) && final(self)@
                    == old(self)@,
                None => r == Ok::<bool, HostStateError>(old(self)@.active != Some(host_id))
                    && final(self)@ == old(self)@.activated(host_id),
            },
    {
        match self.upsert_host(host_id) {
            Err(error) => Err(error),
            Ok(_) => {
                let changed = self.active_target != Some(host_id);
                self.active_target = Some(host_id);
                Ok(changed)
            },
        }
    }

    /// Takes the input from whichever host has it.
    pub fn clear_active_target(&mut self)
        ensures
            old(self)@.wf() ==> final(self)@.wf(),
            final(self)@ == (HostsView { active: None, ..old(self)@ }),
    {
        self.active_target = None;
    }

    /// A host connected.
    pub fn on_connected(&mut self, host_id: HostId) -> (r: Result<(), HostStateError>)
        ensures
            old(self)@.wf() ==> final(self)@.wf(),
            match old(self)@.refusal(host_id) {
                Some(error) => r == Err::<(), HostStateError>(error) && final(self)@ == old(self)@,
                None => r is Ok && final(self)@ == old(self)@.connected(host_id),
            },
    {
        let ghost before = self@;
        match self.upsert_host(host_id) {
            Err(error) => Err(error),
            Ok(index) => {
                let mut host = self.host_at(index);
                host.connected = true;
                host.encrypted = false;
                host.session_report_ready = ReportReady::default();
                self.hosts[index] = Some(host);
                assert(self@.hosts =~= before.connected(host_id).hosts);
                proof {
                    lemma_known(before, host_id);
                    if before.wf() {
                        lemma_with_wf(before, host_id, host);
                    }
                }
                Ok(())
            },
        }
    }

    /// A host disconnected.
    pub fn on_disconnected(&mut self, host_id: HostId)
        ensures
            old(self)@.wf() ==> final(self)@.wf(),
            final(self)@ == old(self)@.disconnected(host_id),
    {
        let ghost before = self@;
        if let Some(index) = self.host_index(host_id) {
            let mut host = self.host_at(index);
            host.connected = false;
            host.encrypted = false;
            host.session_report_ready = ReportReady::default();
            self.hosts[index] = Some(host);
            proof {
                lemma_known(before, host_id);
                if before.wf() {
                    lemma_known_not_refused(before, host_id);
                    lemma_with_wf(before, host_id, host);
                }
            }
        }
    }

    /// The security of a host's link changed. Says whether that has to be
    /// kept.
    pub fn on_security_changed(
        &mut self,
        host_id: HostId,
        encrypted: bool,
        bonded: bool,
        bond: Option<StoredBond>,
    ) -> (r: Result<bool, HostStateError>)
        ensures
            old(self)@.wf() ==> final(self)@.wf(),
            match old(self)@.refusal(host_id) {
                Some(error) => r == Err::<bool, HostStateError>(error) && final(self)@
                    == old(self)@,
                None => r == Ok::<bool, HostStateError>(
                    old(self)@.security_persists(host_id, bonded, bond),
                ) && final(self)@ == old(self)@.with(
                    host_id,
                    old(self)@.secured_host(host_id, encrypted, bonded, bond),
                ),
            },
    {
        let ghost before = self@;
        match self.upsert_host(host_id) {
            Err(error) => Err(error),
            Ok(index) => {
                let mut host = self.host_at(index);
                let stored_bonded = bonded || host.bond.is_some();
                let persist = host.bonded != stored_bonded || (bond.is_some() && !same_bond(
                    &host.bond,
                    &bond,
                ));
                host.encrypted = encrypted;
                host.bonded = stored_bonded;
                if bond.is_some() {
                    host.bond = bond;
                }
                if host.connected && host.encrypted && host.bonded {
                    host.session_report_ready = host.stored_report_ready;
                } else if !host.encrypted {
                    host.session_report_ready = ReportReady::default();
                }
                self.hosts[index] = Some(host);
                assert(self@.hosts =~= before.with(
                    host_id,
                    before.secured_host(host_id, encrypted, bonded, bond),
                ).hosts);
                proof {
                    lemma_known(before, host_id);
                    if before.wf() {
                        lemma_with_wf(before, host_id, host);
                    }
                }
                Ok(persist)
            },
        }
    }

    /// A host subscribed to a report or unsubscribed. Says whether that has to
    /// be kept.
    pub fn on_cccd_changed(&mut self, host_id: HostId, report: ReportKind, enabled: bool) -> (r:
        Result<bool, HostStateError>)
        ensures
            old(self)@.wf() ==> final(self)@.wf(),
            match old(self)@.refusal(host_id) {
                Some(error) => r == Err::<bool, HostStateError>(error) && final(self)@
                    == old(self)@,
                None => r == Ok::<bool, HostStateError>(
                    old(self)@.known(host_id).stored_report_ready.has(report) != enabled,
                ) && final(self)@ == old(self)@.with(
                    host_id,
                    old(self)@.subscribed_host(host_id, report, enabled),
                ),
            },
    {
        let ghost before = self@;
        match self.upsert_host(host_id) {
            Err(error) => Err(error),
            Ok(index) => {
                let mut host = self.host_at(index);
                let persist = host.stored_report_ready.get(report) != enabled;
                host.stored_report_ready.set(report, enabled);
                host.session_report_ready.set(report, enabled);
                self.hosts[index] = Some(host);
                assert(self@.hosts =~= before.with(
                    host_id,
                    before.subscribed_host(host_id, report, enabled),
                ).hosts);
                proof {
                    lemma_known(before, host_id);
                    if before.wf() {
                        lemma_with_wf(before, host_id, host);
                    }
                }
                Ok(persist)
            },
        }
    }

    /// A host set its lock lights.
    pub fn on_keyboard_led_changed(&mut self, host_id: HostId, leds: KeyboardLedState) -> (r:
        Result<(), HostStateError>)
        ensures
            old(self)@.wf() ==> final(self)@.wf(),
            match old(self)@.refusal(host_id) {
                Some(error) => r == Err::<(), HostStateError>(error) && final(self)@ == old(self)@,
                None => r is Ok && final(self)@ == old(self)@.with(
                    host_id,
                    HostRuntimeState { keyboard_leds: Some(leds), ..old(self)@.known(host_id) },
                ),
            },
    {
        let ghost before = self@;
        match self.upsert_host(host_id) {
            Err(error) => Err(error),
            Ok(index) => {
                let mut host = self.host_at(index);
                host.keyboard_leds = Some(leds);
                self.hosts[index] = Some(host);
                assert(self@.hosts =~= before.with(
                    host_id,
                    HostRuntimeState { keyboard_leds: Some(leds), ..before.known(host_id) },
                ).hosts);
                proof {
                    lemma_known(before, host_id);
                    if before.wf() {
                        lemma_with_wf(before, host_id, host);
                    }
                }
                Ok(())
            },
        }
    }

    /// Forgets a host. Says whether it was known.
    pub fn clear_host(&mut self, host_id: HostId) -> (r: bool)
        ensures
            old(self)@.wf() ==> final(self)@.wf(),
            r == (old(self)@.index_of(host_id) is Some),
            final(self)@ == old(self)@.cleared(host_id),
    {
        proof {
            if self@.wf() {
                lemma_cleared_wf(self@, host_id);
            }
        }
        match self.host_index(host_id) {
            None => false,
            Some(index) => {
                self.hosts[index] = None;
                if self.active_target == Some(host_id) {
                    self.active_target = None;
                }
                true
            },
        }
    }

    /// Takes back what was kept of hosts. Hosts before one that is refused
    /// stay.
    pub fn restore(&mut self, storage: &StorageState) -> (r: Result<(), HostStateError>)
        ensures
            old(self)@.wf() ==> final(self)@.wf(),
            final(self)@ == old(self)@.restored(storage@).0,
            match old(self)@.restored(storage@).1 {
                Some(error) => r == Err::<(), HostStateError>(error),
                None => r is Ok,
            },
    {
        self.active_target = storage.last_active_host;
        self.hosts = [None;HOSTS];
        let ghost start = self@;
        assert(start.hosts =~= Seq::new(old(self)@.hosts.len(), |i: int| None));
        let profiles = storage.hosts();
        let mut i: usize = 0;
        assert(profiles@.take(0) =~= Seq::<StoredHostProfile>::empty());
        while i < profiles.len()
            invariant
                i <= profiles@.len(),
                profiles@ == storage@.hosts,
                start.with_all_kept(profiles@) == old(self)@.restored(storage@),
                start.with_all_kept(profiles@.take(i as int)) == (
                    self@,
                    None::<HostStateError>,
                ),
                self@.wf(),
            decreases profiles@.len() - i,
        {
            let stored = profiles[i];
            let ghost before = self@;
            assert(profiles@.take(i + 1).drop_last() =~= profiles@.take(i as int));
            match self.upsert_host(stored.host_id) {
                Err(error) => {
                    proof {
                        lemma_refused_stays(start, profiles@, i + 1);
                    }
                    return Err(error);
                },
                Ok(index) => {
                    self.hosts[index] =
                    Some(
                        HostRuntimeState {
                            host_id: stored.host_id,
                            connected: false,
                            encrypted: false,
                            bonded: stored.bonded,
                            stored_report_ready: ReportReady {
                                keyboard: stored.keyboard_cccd_enabled,
                                mouse: stored.mouse_cccd_enabled,
                                consumer: stored.consumer_cccd_enabled,
                                keyboard_output: stored.keyboard_output_cccd_enabled,
                            },
                            session_report_ready: ReportReady::default(),
                            keyboard_leds: None,
                            name: stored.name,
                            discovered_name: FixedName::empty(),
                            bond: stored.bond,
                        },
                    );
                    assert(self@.hosts =~= before.with_kept(stored).hosts);
                    proof {
                        lemma_with_wf(before, stored.host_id, host_of(stored));
                    }
                },
            }
            i += 1;
        }
        assert(profiles@.take(i as int) =~= profiles@);
        Ok(())
    }

    /// What is to be kept of the hosts, if that is not too much.
    pub fn storage_state(&self, generation: u32) -> (r: Result<StorageState, StorageError>)
        ensures
            profiles_of(self@.hosts).len() <= STORED_HOSTS_MAX ==> r is Ok && r->Ok_0@ == (
            StorageView {
                generation,
                last_active_host: self@.active,
                hosts: profiles_of(self@.hosts),
            }),
            profiles_of(self@.hosts).len() > STORED_HOSTS_MAX ==> r == Err::<
                StorageState,
                StorageError,
            >(StorageError::HostCapacity),
    {
        let ghost hosts = self@.hosts;
        let mut state = StorageState::new(generation);
        state.last_active_host = self.active_target;
        let mut i: usize = 0;
        assert(hosts.take(0) =~= Seq::<Option<HostRuntimeState>>::empty());
        while i < HOSTS
            invariant
                i <= HOSTS,
                hosts == self@.hosts,
                hosts.len() == HOSTS,
                state@ == (StorageView {
                    generation,
                    last_active_host: self@.active,
                    hosts: profiles_of(hosts.take(i as int)),
                }),
                state@.hosts.len() <= STORED_HOSTS_MAX,
            decreases HOSTS - i,
        {
            assert(hosts.take(i + 1).drop_last() =~= hosts.take(i as int));
            if let Some(host) = self.hosts[i] {
                match state.push_host(
                    StoredHostProfile {
                        host_id: host.host_id,
                        bonded: host.bonded,
                        keyboard_cccd_enabled: host.stored_report_ready.keyboard,
                        mouse_cccd_enabled: host.stored_report_ready.mouse,
                        consumer_cccd_enabled: host.stored_report_ready.consumer,
                        keyboard_output_cccd_enabled: host.stored_report_ready.keyboard_output,
                        name: host.name,
                        bond: host.bond,
                    },
                ) {
                    Ok(_) => {},
                    Err(error) => {
                        proof {
                            lemma_profiles_grow(hosts, i + 1);
                        }
                        return Err(error);
                    },
                }
            }
            i += 1;
        }
        assert(hosts.take(i as int) =~= hosts);
        Ok(state)
    }

    /// Whether a report can be sent to a host.
    pub fn can_send(&self, host_id: HostId, kind: ReportKind) -> (r: bool)
        ensures
            r == self@.sends(host_id, kind),
    {
        match self.host_index(host_id) {
            Some(index) => self.host_at(index).can_send(kind),
            None => false,
        }
    }

    /// What is known of a host.
    pub fn host(&self, host_id: HostId) -> (r: Option<&HostRuntimeState>)
        ensures
            r is Some <==> self@.host(host_id) is Some,
            r is Some ==> *r->0 == self@.host(host_id)->0,
    {
        match self.host_index(host_id) {
            Some(index) => self.hosts[index].as_ref(),
            None => None,
        }
    }

    /// What is known of a host, to be changed.
    pub fn host_mut(&mut self, host_id: HostId) -> (r: Option<&mut HostRuntimeState>)
        ensures
            match old(self)@.index_of(host_id) {
                None => r is None && final(self)@ == old(self)@,
                Some(i) => {
                    &&& r is Some
                    &&& r->0.host_id == host_id
                    &&& old(self)@.wf() && final(r->0).host_id == host_id ==> final(self)@.wf()
                    &&& Some(*r->0) == old(self)@.hosts[i]
                    &&& final(self)@ == old(self)@.with(host_id, *final(r->0))
                },
            },
    {
        proof {
            lemma_first_where(self@.hosts, is_host(host_id));
            if self@.index_of(host_id) is Some && self@.wf() {
                lemma_known_not_refused(self@, host_id);
                lemma_edited_wf(self@, host_id);
            }
        }
        match self.host_index(host_id) {
            Some(index) => self.hosts[index].as_mut(),
            None => None,
        }
    }

    /// Names a host. Says whether that is another name.
    pub fn set_name(&mut self, host_id: HostId, name: FixedName) -> (r: Result<
        bool,
        HostStateError,
    >)
        ensures
            old(self)@.wf() ==> final(self)@.wf(),
            match old(self)@.refusal(host_id) {
                Some(error) => r == Err::<bool, HostStateError>(error) && final(self)@
                    == old(self)@,
                None => r == Ok::<bool, HostStateError>(old(self)@.known(host_id).name != name)
                    && final(self)@ == old(self)@.with(
                    host_id,
                    HostRuntimeState { name, ..old(self)@.known(host_id) },
                ),
            },
    {
        let ghost before = self@;
        match self.upsert_host(host_id) {
            Err(error) => Err(error),
            Ok(index) => {
                let mut host = self.host_at(index);
                let changed = !host.name.same_as(&name);
                host.name = name;
                self.hosts[index] = Some(host);
                assert(self@.hosts =~= before.with(
                    host_id,
                    HostRuntimeState { name, ..before.known(host_id) },
                ).hosts);
                proof {
                    lemma_known(before, host_id);
                    if before.wf() {
                        lemma_with_wf(before, host_id, host);
                    }
                }
                Ok(changed)
            },
        }
    }

    /// Notes the name that a host gives itself. Says whether that is another
    /// name.
    pub fn set_discovered_name(&mut self, host_id: HostId, name: FixedName) -> (r: Result<
        bool,
        HostStateError,
    >)
        ensures
            old(self)@.wf() ==> final(self)@.wf(),
            match old(self)@.refusal(host_id) {
                Some(error) => r == Err::<bool, HostStateError>(error) && final(self)@
                    == old(self)@,
                None => r == Ok::<bool, HostStateError>(
                    old(self)@.known(host_id).discovered_name != name,
                ) && final(self)@ == old(self)@.with(
                    host_id,
                    HostRuntimeState { discovered_name: name, ..old(self)@.known(host_id) },
                ),
            },
    {
        let ghost before = self@;
        match self.upsert_host(host_id) {
            Err(error) => Err(error),
            Ok(index) => {
                let mut host = self.host_at(index);
                let changed = !host.discovered_name.same_as(&name);
                host.discovered_name = name;
                self.hosts[index] = Some(host);
                assert(self@.hosts =~= before.with(
                    host_id,
                    HostRuntimeState { discovered_name: name, ..before.known(host_id) },
                ).hosts);
                proof {
                    lemma_known(before, host_id);
                    if before.wf() {
                        lemma_with_wf(before, host_id, host);
                    }
                }
                Ok(changed)
            },
        }
    }

    /// The connected host behind the one that has the input, or the first one.
    pub fn next_connected_target(&self) -> (r: Option<HostId>)
        ensures
            r == self@.next_after(self@.active),
    {
        self.next_connected_target_after(self.active_target)
    }

    /// The connected host behind `current`, or the first one.
    pub fn next_connected_target_after(&self, current: Option<HostId>) -> (r: Option<HostId>)
        ensures
            r == self@.next_after(current),
    {
        let ghost hosts = self@.hosts;
        let ghost all = connected_hosts(hosts);
        let mut first_connected: Option<HostId> = None;
        let mut return_next = current.is_none();
        let mut i: usize = 0;
        assert(hosts.take(0) =~= Seq::<Option<HostRuntimeState>>::empty());
        assert(hosts.take(hosts.len() as int) =~= hosts);
        while i < HOSTS
            invariant
                i <= HOSTS,
                hosts == self@.hosts,
                hosts.len() == HOSTS,
                all == connected_hosts(hosts),
                ({
                    let seen = connected_hosts(hosts.take(i as int));
                    &&& first_connected is None <==> seen.len() == 0
                    &&& seen.len() > 0 ==> first_connected == Some(seen[0])
                    &&& current is None ==> return_next && seen.len() == 0
                    &&& current is Some && return_next ==> seen.len() > 0 && seen.last()
                        == current->0 && !seen.drop_last().contains(current->0)
                    &&& current is Some && !return_next ==> !seen.contains(current->0)
                }),
            decreases HOSTS - i,
        {
            let ghost seen = connected_hosts(hosts.take(i as int));
            proof {
                assert(hosts.take(i + 1).drop_last() =~= hosts.take(i as int));
                lemma_connected_prefix(hosts, i + 1);
            }
            if let Some(host) = self.hosts[i] {
                if host.connected {
                    if first_connected.is_none() {
                        first_connected = Some(host.host_id);
                    }
                    let ghost now = seen.push(host.host_id);
                    assert(now == connected_hosts(hosts.take(i + 1)));
                    assert(now.drop_last() =~= seen);
                    if return_next {
                        proof {
                            let k = seen.len() as int;
                            assert(now[k] == host.host_id);
                            assert(all[k] == now[k]);
                            if current is Some {
                                let c = current->0;
                                assert(all[k - 1] == seen[k - 1]);
                                assert forall|j: int| 0 <= j < k - 1 implies all[j] != c by {
                                    assert(all[j] == now[j]);
                                    if all[j] == c {
                                        assert(seen.drop_last()[j] == c);
                                    }
                                }
                                all.index_of_first_ensures(c);
                            } else {
                                assert(k == 0);
                            }
                        }
                        return Some(host.host_id);
                    }
                    if let Some(wanted) = current {
                        if host.host_id == wanted {
                            return_next = true;
                        } else {
                            assert(!now.contains(wanted)) by {
                                if now.contains(wanted) {
                                    let j = now.index_of(wanted);
                                    assert(seen[j] == wanted);
                                }
                            }
                        }
                    }
                }
            }
            i += 1;
        }
        proof {
            if current is Some && return_next {
                let c = current->0;
                all.index_of_first_ensures(c);
                let k = all.index_of_first(c)->0;
                if k + 1 < all.len() {
                    assert(all.drop_last()[k] == c);
                }
            }
        }
        first_connected
    }

    /// The host that may pair next.
    pub fn pairing_candidate(&self) -> (r: Option<HostId>)
        ensures
            r == self@.candidate(),
    {
        if let Some(active) = self.active_target {
            if let Some(index) = self.host_index(active) {
                if !self.host_at(index).has_bond() {
                    return Some(active);
                }
            }
        }
        let mut number: usize = 1;
        while number <= HOSTS && number <= 255
            invariant
                1 <= number <= 256,
                self@.hosts.len() == HOSTS,
                self@.candidate() == self@.unbound_from(1),
                self@.unbound_from(1) == self@.unbound_from(number as int),
            decreases 256 - number,
        {
            let host_id = HostId(number as u8);
            let bound = match self.host_index(host_id) {
                Some(index) => self.host_at(index).has_bond(),
                None => false,
            };
            if !bound {
                return Some(host_id);
            }
            number += 1;
        }
        None
    }

    fn host_at(&self, index: usize) -> (r: HostRuntimeState)
        requires
            index < HOSTS,
            self@.hosts[index as int] is Some,
        ensures
            Some(r) == self@.hosts[index as int],
    {
        match self.hosts[index] {
            Some(host) => host,
            None => HostRuntimeState::default(),
        }
    }

    fn upsert_host(&mut self, host_id: HostId) -> (r: Result<usize, HostStateError>)
        ensures
            old(self)@.wf() ==> final(self)@.wf(),
            match old(self)@.refusal(host_id) {
                Some(error) => r == Err::<usize, HostStateError>(error) && final(self)@
                    == old(self)@,
                None => {
                    &&& r is Ok
                    &&& r->Ok_0 < HOSTS
                    &&& old(self)@.place_for(host_id) == Some(r->Ok_0 as int)
                    &&& final(self)@ == old(self)@.with(host_id, old(self)@.known(host_id))
                    &&& final(self)@.hosts[r->Ok_0 as int] == Some(old(self)@.known(host_id))
                },
            },
    {
        proof {
            lemma_known(self@, host_id);
            if self@.wf() && self@.refusal(host_id) is None {
                lemma_with_wf(self@, host_id, self@.known(host_id));
            }
        }
        if host_id.validated().is_err() {
            return Err(HostStateError::InvalidHostId);
        }
        if let Some(index) = self.host_index(host_id) {
            assert(self@.hosts =~= self@.with(host_id, self@.known(host_id)).hosts);
            return Ok(index);
        }
        let ghost hosts = self@.hosts;
        let ghost free = is_vacant();
        let mut index: usize = 0;
        while index < HOSTS && self.hosts[index].is_some()
            invariant
                index <= HOSTS,
                hosts == self@.hosts,
                free == is_vacant(),
                forall|j: int| 0 <= j < index ==> !free(#[trigger] hosts[j]),
            decreases HOSTS - index,
        {
            index += 1;
        }
        if index == HOSTS {
            proof {
                lemma_first_none(hosts, free);
            }
            return Err(HostStateError::HostCapacity);
        }
        proof {
            lemma_first_at(hosts, free, index as int);
        }
        self.hosts[index] = Some(HostRuntimeState::fresh(host_id));
        Ok(index)
    }

    fn host_index(&self, host_id: HostId) -> (r: Option<usize>)
        ensures
            r is None ==> self@.index_of(host_id) is None,
            r is Some ==> self@.index_of(host_id) == Some(r->0 as int) && r->0 < HOSTS
                && self@.hosts[r->0 as int] is Some,
    {
        let ghost hosts = self@.hosts;
        let ghost p = is_host(host_id);
        let mut i: usize = 0;
        while i < HOSTS
            invariant
                i <= HOSTS,
                hosts == self@.hosts,
                p == is_host(host_id),
                forall|j: int| 0 <= j < i ==> !p(#[trigger] hosts[j]),
            decreases HOSTS - i,
        {
            if let Some(host) = self.hosts[i] {
                if host.host_id == host_id {
                    proof {
                        lemma_first_at(hosts, p, i as int);
                    }
                    return Some(i);
                }
            }
            i += 1;
        }
        proof {
            lemma_first_none(hosts, p);
        }
        None
    }
}

proof fn lemma_connected_prefix(hosts: Seq<Option<HostRuntimeState>>, n: int)
    requires
        0 <= n <= hosts.len(),
    ensures
        connected_hosts(hosts.take(n)).len() <= connected_hosts(hosts).len(),
        forall|j: int|
            0 <= j < connected_hosts(hosts.take(n)).len() ==> connected_hosts(hosts)[j]
                == #[trigger] connected_hosts(hosts.take(n))[j],
    decreases hosts.len() - n,
{
    if n < hosts.len() {
        lemma_connected_prefix(hosts, n + 1);
        assert(hosts.take(n + 1).drop_last() =~= hosts.take(n));
        let a = connected_hosts(hosts.take(n));
        let b = connected_hosts(hosts.take(n + 1));
        assert forall|j: int| 0 <= j < a.len() implies connected_hosts(hosts)[j]
            == #[trigger] a[j] by {
            assert(b[j] == a[j]);
        }
    } else {
        assert(hosts.take(n) =~= hosts);
    }
}

impl<const HOSTS: usize> Default for BleHostStateMachine<HOSTS> {
    fn default() -> (r: Self)
        ensures
            r@ == HostsView::vacant(HOSTS as nat),
    {
        Self::new()
    }
}

/// The host that may pair next has no bond that would be replaced.
pub proof fn law_candidate_has_no_bond(v: HostsView)
    ensures
        v.candidate() is Some ==> !v.bound(v.candidate()->0),
{
    lemma_unbound(v, 1);
}

proof fn lemma_unbound(v: HostsView, n: int)
    ensures
        v.unbound_from(n) is Some ==> !v.bound(v.unbound_from(n)->0),
    decreases v.hosts.len() + 1 - n,
{
    if !(n > v.hosts.len() || n > 255) {
        lemma_unbound(v, n + 1);
    }
}

/// A host whose link was lost can be sent nothing, and nothing that was kept of
/// it is lost.
pub proof fn law_disconnect_keeps_what_is_stored(v: HostsView, host_id: HostId, kind: ReportKind)
    requires
        v.index_of(host_id) is Some,
    ensures
        !v.disconnected(host_id).sends(host_id, kind),
        v.disconnected(host_id).host(host_id) is Some,
        profile_of(v.disconnected(host_id).host(host_id)->0) == profile_of(v.host(host_id)->0),
{
    let after = v.disconnected(host_id);
    lemma_first_where(v.hosts, is_host(host_id));
    let i = v.index_of(host_id)->0;
    assert forall|j: int| 0 <= j < i implies !is_host(host_id)(#[trigger] after.hosts[j]) by {
        assert(!is_host(host_id)(v.hosts[j]));
    }
    lemma_first_at(after.hosts, is_host(host_id), i);
}

/// Whether no two hosts share a number, and all numbers are those of slots.
pub open spec fn distinct(profiles: Seq<StoredHostProfile>) -> bool {
    &&& forall|i: int| 0 <= i < profiles.len() ==> is_host_slot((#[trigger] profiles[i]).host_id.0)
    &&& forall|i: int, j: int|
        0 <= i < j < profiles.len() ==> (#[trigger] profiles[i]).host_id != (
        #[trigger] profiles[j]).host_id
}

/// What was kept comes back: the hosts are those that were stored, in the same
/// order, none of them connected, and the input goes to the same host. To store
/// that again stores the same.
pub proof fn law_restore_gives_back_what_was_stored(v: HostsView, storage: StorageView)
    requires
        distinct(storage.hosts),
        storage.hosts.len() <= v.hosts.len(),
    ensures
        v.restored(storage).1 is None,
        v.restored(storage).0.active == storage.last_active_host,
        profiles_of(v.restored(storage).0.hosts) == storage.hosts,
        forall|host_id: HostId, kind: ReportKind| !v.restored(storage).0.sends(host_id, kind),
{
    let start = HostsView {
        active: storage.last_active_host,
        hosts: Seq::new(v.hosts.len(), |i: int| None),
    };
    lemma_restored(start, storage.hosts);
    let after = v.restored(storage).0;
    lemma_profiles_of_kept(after.hosts, storage.hosts);
    assert forall|host_id: HostId, kind: ReportKind| !after.sends(host_id, kind) by {
        lemma_first_where(after.hosts, is_host(host_id));
        if after.index_of(host_id) is Some {
            let i = after.index_of(host_id)->0;
            assert(i < storage.hosts.len());
            assert(after.hosts[i] == Some(host_of(storage.hosts[i])));
        }
    }
}

pub(crate) proof fn lemma_restored(start: HostsView, profiles: Seq<StoredHostProfile>)
    requires
        distinct(profiles),
        profiles.len() <= start.hosts.len(),
        forall|i: int| 0 <= i < start.hosts.len() ==> #[trigger] start.hosts[i] is None,
    ensures
        ({
            let after = start.with_all_kept(profiles);
            &&& after.1 is None
            &&& after.0.active == start.active
            &&& after.0.hosts.len() == start.hosts.len()
            &&& forall|i: int|
                0 <= i < profiles.len() ==> #[trigger] after.0.hosts[i] == Some(
                    host_of(profiles[i]),
                )
            &&& forall|i: int|
                profiles.len() <= i < start.hosts.len() ==> #[trigger] after.0.hosts[i] is None
        }),
    decreases profiles.len(),
{
    if profiles.len() > 0 {
        let rest = profiles.drop_last();
        assert forall|i: int| 0 <= i < rest.len() implies is_host_slot(
            (#[trigger] rest[i]).host_id.0,
        ) by {
            assert(rest[i] == profiles[i]);
        }
        assert forall|i: int, j: int| 0 <= i < j < rest.len() implies (
        #[trigger] rest[i]).host_id != (#[trigger] rest[j]).host_id by {
            assert(rest[i] == profiles[i]);
            assert(rest[j] == profiles[j]);
        }
        lemma_restored(start, rest);
        let before = start.with_all_kept(rest).0;
        let n = rest.len() as int;
        let id = profiles.last().host_id;
        assert(is_host_slot(profiles[n].host_id.0));
        assert forall|j: int| 0 <= j < before.hosts.len() implies !is_host(id)(
            #[trigger] before.hosts[j],
        ) by {
            if j < n {
                assert(before.hosts[j] == Some(host_of(rest[j])));
                assert(rest[j] == profiles[j]);
                assert(profiles[j].host_id != profiles[n].host_id);
            }
        }
        lemma_first_none(before.hosts, is_host(id));
        assert forall|j: int| 0 <= j < n implies !is_vacant()(#[trigger] before.hosts[j]) by {}
        assert(is_vacant()(before.hosts[n]));
        lemma_first_at(before.hosts, is_vacant(), n);
        let after = start.with_all_kept(profiles).0;
        assert(after == before.with_kept(profiles.last()));
        assert forall|i: int| 0 <= i < profiles.len() implies #[trigger] after.hosts[i] == Some(
            host_of(profiles[i]),
        ) by {
            if i < n {
                assert(before.hosts[i] == Some(host_of(rest[i])));
            }
        }
    }
}

proof fn lemma_profiles_of_kept(
    hosts: Seq<Option<HostRuntimeState>>,
    profiles: Seq<StoredHostProfile>,
)
    requires
        profiles.len() <= hosts.len(),
        forall|i: int|
            0 <= i < profiles.len() ==> #[trigger] hosts[i] == Some(host_of(profiles[i])),
        forall|i: int| profiles.len() <= i < hosts.len() ==> #[trigger] hosts[i] is None,
    ensures
        profiles_of(hosts) == profiles,
    decreases hosts.len(),
{
    if hosts.len() > 0 {
        let n = hosts.len() - 1;
        let rest = hosts.drop_last();
        assert forall|i: int| 0 <= i < n implies rest[i] == #[trigger] hosts[i] by {}
        if profiles.len() == hosts.len() {
            let fewer = profiles.drop_last();
            assert forall|i: int| 0 <= i < fewer.len() implies #[trigger] rest[i] == Some(
                host_of(fewer[i]),
            ) by {
                assert(hosts[i] == Some(host_of(profiles[i])));
            }
            lemma_profiles_of_kept(rest, fewer);
            assert(hosts[n] == Some(host_of(profiles[n])));
            assert(profile_of(host_of(profiles[n])) == profiles[n]);
            assert(fewer.push(profiles[n]) =~= profiles);
        } else {
            assert forall|i: int| 0 <= i < profiles.len() implies #[trigger] rest[i] == Some(
                host_of(profiles[i]),
            ) by {
                assert(hosts[i] == Some(host_of(profiles[i])));
            }
            assert(hosts[n] is None);
            lemma_profiles_of_kept(rest, profiles);
        }
    } else {
        assert(profiles_of(hosts) =~= profiles);
    }
}

proof fn lemma_profile_from(hosts: Seq<Option<HostRuntimeState>>, k: int) -> (i: int)
    requires
        0 <= k < profiles_of(hosts).len(),
    ensures
        k <= i < hosts.len(),
        hosts[i] is Some,
        profiles_of(hosts)[k] == profile_of(hosts[i]->0),
    decreases hosts.len(),
{
    let rest = hosts.drop_last();
    lemma_profiles_fit(hosts);
    if k < profiles_of(rest).len() {
        let i = lemma_profile_from(rest, k);
        assert(rest[i] == hosts[i]);
        i
    } else {
        hosts.len() - 1
    }
}

pub(crate) proof fn lemma_profiles_fit(hosts: Seq<Option<HostRuntimeState>>)
    ensures
        profiles_of(hosts).len() <= hosts.len(),
    decreases hosts.len(),
{
    if hosts.len() > 0 {
        lemma_profiles_fit(hosts.drop_last());
    }
}

pub(crate) proof fn lemma_profiles_distinct(v: HostsView)
    requires
        v.wf(),
    ensures
        distinct(profiles_of(v.hosts)),
    decreases v.hosts.len(),
{
    if v.hosts.len() > 0 {
        let n = v.hosts.len() - 1;
        let rest = HostsView { hosts: v.hosts.drop_last(), ..v };
        assert forall|i: int| 0 <= i < n implies rest.hosts[i] == #[trigger] v.hosts[i] by {}
        assert(rest.wf()) by {
            assert forall|i: int| 0 <= i < n && rest.hosts[i] is Some implies is_host_slot(
                (#[trigger] rest.hosts[i])->0.host_id.0,
            ) by {
                assert(is_host_slot(v.hosts[i]->0.host_id.0));
            }
            assert forall|i: int, j: int|
                0 <= i < j < n && rest.hosts[i] is Some && rest.hosts[j] is Some implies (
            #[trigger] rest.hosts[i])->0.host_id != (#[trigger] rest.hosts[j])->0.host_id by {
                assert(v.hosts[i]->0.host_id != v.hosts[j]->0.host_id);
            }
        }
        lemma_profiles_distinct(rest);
        let all = profiles_of(v.hosts);
        let fewer = profiles_of(rest.hosts);
        if v.hosts[n] is Some {
            assert(is_host_slot(v.hosts[n]->0.host_id.0));
            assert forall|i: int| 0 <= i < all.len() implies is_host_slot(
                (#[trigger] all[i]).host_id.0,
            ) by {
                if i < fewer.len() {
                    assert(all[i] == fewer[i]);
                }
            }
            assert forall|i: int, j: int| 0 <= i < j < all.len() implies (
            #[trigger] all[i]).host_id != (#[trigger] all[j]).host_id by {
                assert(all[i] == fewer[i]);
                if j < fewer.len() {
                    assert(all[j] == fewer[j]);
                } else {
                    let k = lemma_profile_from(rest.hosts, i);
                    assert(rest.hosts[k] == v.hosts[k]);
                    assert(v.hosts[k]->0.host_id != v.hosts[n]->0.host_id);
                }
            }
        }
    }
}

/// Different slots are no more than there are.
proof fn lemma_distinct_are_few(profiles: Seq<StoredHostProfile>)
    requires
        distinct(profiles),
    ensures
        profiles.len() <= STORED_HOSTS_MAX,
{
    let numbers = Seq::new(profiles.len(), |i: int| profiles[i].host_id.0 as int);
    assert(numbers.no_duplicates()) by {
        assert forall|i: int, j: int| 0 <= i < numbers.len() && 0 <= j < numbers.len() && i
            != j implies numbers[i] != numbers[j] by {
            if i < j {
                assert(profiles[i].host_id != profiles[j].host_id);
            } else {
                assert(profiles[j].host_id != profiles[i].host_id);
            }
        }
    }
    numbers.unique_seq_to_set();
    let slots = vstd::set_lib::set_int_range(1, 5);
    vstd::set_lib::lemma_int_range(1, 5);
    assert(numbers.to_set().subset_of(slots)) by {
        assert forall|n: int| numbers.to_set().contains(n) implies slots.contains(n) by {
            let i = numbers.index_of(n);
            assert(is_host_slot(profiles[i].host_id.0));
        }
    }
    vstd::set_lib::lemma_len_subset(numbers.to_set(), slots);
}

/// What a machine stores is never too much, and any machine with as many places
/// takes all of it back: its hosts are then those that were stored, the input
/// goes to the same host, to store that again stores the same, and no report can
/// be sent to any host.
pub proof fn law_stored_is_restored(v: HostsView, w: HostsView, generation: u32)
    requires
        v.wf(),
        w.hosts.len() == v.hosts.len(),
    ensures
        profiles_of(v.hosts).len() <= STORED_HOSTS_MAX,
        ({
            let stored = StorageView {
                generation,
                last_active_host: v.active,
                hosts: profiles_of(v.hosts),
            };
            let after = w.restored(stored);
            &&& after.1 is None
            &&& after.0.active == v.active
            &&& profiles_of(after.0.hosts) == profiles_of(v.hosts)
            &&& forall|host_id: HostId, kind: ReportKind| !after.0.sends(host_id, kind)
        }),
{
    let stored = StorageView {
        generation,
        last_active_host: v.active,
        hosts: profiles_of(v.hosts),
    };
    lemma_profiles_distinct(v);
    lemma_distinct_are_few(profiles_of(v.hosts));
    lemma_profiles_fit(v.hosts);
    law_restore_gives_back_what_was_stored(w, stored);
}

} // verus!
