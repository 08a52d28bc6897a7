//! What holds of the hosts, whatever happens to them.

use vstd::prelude::*;

use super::host_state::{
    connected_hosts, host_of, is_host, is_vacant, lemma_known_not_refused, lemma_profiles_distinct,
    lemma_profiles_fit, lemma_restored, profile_of, profiles_of, HostRuntimeState, HostsView,
    ReportReady,
};
use crate::ids::HostId;
use crate::lists::{lemma_first_at, lemma_first_none, lemma_first_where};
use crate::reports::ReportKind;
use crate::storage::{StorageView, StoredBond};

verus! {

/// Whether a connected host stands at a place.
pub open spec fn connected_at(v: HostsView, i: int) -> bool {
    0 <= i < v.hosts.len() && v.hosts[i] is Some && v.hosts[i]->0.connected
}

/// How many hosts are connected.
pub open spec fn count_connected(hosts: Seq<Option<HostRuntimeState>>) -> nat
    decreases hosts.len(),
{
    if hosts.len() == 0 {
        0
    } else {
        count_connected(hosts.drop_last()) + (if hosts.last() is Some
            && hosts.last()->0.connected {
            1nat
        } else {
            0
        })
    }
}

/// What is known of a host is what stands at the one place that has its number,
/// and nothing where no place has it.
pub proof fn law_host_is_found(v: HostsView, host_id: HostId)
    requires
        v.wf(),
    ensures
        forall|i: int|
            0 <= i < v.hosts.len() && v.hosts[i] is Some && (
            #[trigger] v.hosts[i])->0.host_id == host_id ==> v.host(host_id) == v.hosts[i],
        (forall|i: int|
            0 <= i < v.hosts.len() && v.hosts[i] is Some ==> (
            #[trigger] v.hosts[i])->0.host_id != host_id) ==> v.host(host_id) is None,
        v.host(host_id) is Some ==> v.host(host_id)->0.host_id == host_id && exists|i: int|
            0 <= i < v.hosts.len() && #[trigger] v.hosts[i] == v.host(host_id),
{
    let p = is_host(host_id);
    lemma_first_where(v.hosts, p);
    assert forall|i: int|
        0 <= i < v.hosts.len() && v.hosts[i] is Some && (
        #[trigger] v.hosts[i])->0.host_id == host_id implies v.host(host_id) == v.hosts[i] by {
        assert forall|j: int| 0 <= j < i implies !p(#[trigger] v.hosts[j]) by {
            if v.hosts[j] is Some {
                assert(v.hosts[j]->0.host_id != v.hosts[i]->0.host_id);
            }
        }
        lemma_first_at(v.hosts, p, i);
    }
    if v.index_of(host_id) is Some {
        let i = v.index_of(host_id)->0;
        assert(p(v.hosts[i]));
    }
}

/// To know something else of a host that is not refused changes what is known of
/// that host and of no other.
pub proof fn law_one_host_changes(v: HostsView, host_id: HostId, host: HostRuntimeState)
    requires
        v.refusal(host_id) is None,
        host.host_id == host_id,
    ensures
        v.with(host_id, host).host(host_id) == Some(host),
        v.with(host_id, host).active == v.active,
        forall|other: HostId|
            other != host_id ==> #[trigger] v.with(host_id, host).host(other) == v.host(other),
{
    let after = v.with(host_id, host);
    lemma_first_where(v.hosts, is_host(host_id));
    lemma_first_where(v.hosts, is_vacant());
    let place = v.place_for(host_id)->0;
    assert forall|j: int| 0 <= j < place implies !is_host(host_id)(#[trigger] after.hosts[j]) by {
        assert(!is_host(host_id)(v.hosts[j]));
    }
    lemma_first_at(after.hosts, is_host(host_id), place);
    assert forall|other: HostId| other != host_id implies #[trigger] after.host(other) == v.host(
        other,
    ) by {
        lemma_elsewhere(v, after, place, other);
    }
}

/// Where two lists of hosts differ in one place, and a host stands there in
/// neither, the same is known of it.
proof fn lemma_elsewhere(v: HostsView, w: HostsView, place: int, other: HostId)
    requires
        0 <= place < v.hosts.len(),
        w.hosts.len() == v.hosts.len(),
        forall|j: int| 0 <= j < v.hosts.len() && j != place ==> #[trigger] w.hosts[j] == v.hosts[j],
        !is_host(other)(v.hosts[place]),
        !is_host(other)(w.hosts[place]),
    ensures
        w.host(other) == v.host(other),
        w.index_of(other) == v.index_of(other),
{
    let p = is_host(other);
    lemma_first_where(v.hosts, p);
    match v.index_of(other) {
        Some(i) => {
            assert(p(v.hosts[i]));
            assert(w.hosts[i] == v.hosts[i]);
            assert forall|j: int| 0 <= j < i implies !p(#[trigger] w.hosts[j]) by {
                assert(!p(v.hosts[j]));
            }
            lemma_first_at(w.hosts, p, i);
        },
        None => {
            assert forall|j: int| 0 <= j < w.hosts.len() implies !p(#[trigger] w.hosts[j]) by {
                assert(!p(v.hosts[j]));
            }
            lemma_first_none(w.hosts, p);
        },
    }
}

/// A host is refused exactly where its number is not that of a slot, one to four,
/// or where it is not known and no place is free.
pub proof fn law_refusals(v: HostsView, host_id: HostId)
    ensures
        v.refusal(host_id) is None <==> 1 <= host_id.0 <= 4 && ((exists|i: int|
            0 <= i < v.hosts.len() && (#[trigger] v.hosts[i]) is Some && v.hosts[i]->0.host_id
                == host_id) || (exists|i: int|
            0 <= i < v.hosts.len() && (#[trigger] v.hosts[i]) is None)),
{
    lemma_first_where(v.hosts, is_host(host_id));
    lemma_first_where(v.hosts, is_vacant());
    if v.index_of(host_id) is Some {
        assert(is_host(host_id)(v.hosts[v.index_of(host_id)->0]));
    } else {
        assert forall|i: int| 0 <= i < v.hosts.len() && (
        #[trigger] v.hosts[i]) is Some implies v.hosts[i]->0.host_id != host_id by {
            assert(!is_host(host_id)(v.hosts[i]));
        }
        match v.place_for(host_id) {
            Some(i) => {
                assert(is_vacant()(v.hosts[i]));
            },
            None => {
                assert forall|i: int| 0 <= i < v.hosts.len() implies (
                #[trigger] v.hosts[i]) is Some by {
                    assert(!is_vacant()(v.hosts[i]));
                }
            },
        }
    }
}

/// A report can be sent to a host exactly where the host is known and connected,
/// its link is encrypted, and it has subscribed to that report in this session.
pub proof fn law_when_a_report_can_be_sent(v: HostsView, host_id: HostId)
    ensures
        v.host(host_id) is None ==> forall|kind: ReportKind| !v.sends(host_id, kind),
        v.host(host_id) is Some ==> ({
            let host = v.host(host_id)->0;
            let up = host.connected && host.encrypted;
            &&& v.sends(host_id, ReportKind::Keyboard) <==> up && host.session_report_ready.keyboard
            &&& v.sends(host_id, ReportKind::Mouse) <==> up && host.session_report_ready.mouse
            &&& v.sends(host_id, ReportKind::Consumer) <==> up && host.session_report_ready.consumer
            &&& v.sends(host_id, ReportKind::KeyboardOutput) <==> up
                && host.session_report_ready.keyboard_output
        }),
{
}

/// What is known of a host that was not known before.
pub(crate) proof fn lemma_known_id(v: HostsView, host_id: HostId)
    ensures
        v.known(host_id).host_id == host_id,
        v.host(host_id) is Some ==> v.known(host_id) == v.host(host_id)->0,
{
    lemma_first_where(v.hosts, is_host(host_id));
    if v.index_of(host_id) is Some {
        assert(is_host(host_id)(v.hosts[v.index_of(host_id)->0]));
    }
}

/// Of a host that is not known nothing holds: it is not connected, has no bond
/// and no name, and has subscribed to nothing.
pub proof fn law_unknown_host(v: HostsView, host_id: HostId)
    requires
        v.host(host_id) is None,
    ensures
        v.known(host_id).host_id == host_id,
        !v.known(host_id).connected,
        !v.known(host_id).encrypted,
        !v.known(host_id).bonded,
        v.known(host_id).bond is None,
        v.known(host_id).keyboard_leds is None,
        !v.known(host_id).stored_report_ready.keyboard,
        !v.known(host_id).stored_report_ready.mouse,
        !v.known(host_id).stored_report_ready.consumer,
        !v.known(host_id).stored_report_ready.keyboard_output,
        !v.known(host_id).session_report_ready.keyboard,
        !v.known(host_id).session_report_ready.mouse,
        !v.known(host_id).session_report_ready.consumer,
        !v.known(host_id).session_report_ready.keyboard_output,
{
}

/// A host that connects is connected, over a link that is not encrypted yet, so
/// that nothing can be sent to it. What was kept of it stays, and nothing changes
/// for the other hosts.
pub proof fn law_connecting(v: HostsView, host_id: HostId)
    requires
        v.refusal(host_id) is None,
    ensures
        ({
            let after = v.connected(host_id);
            let host = after.host(host_id)->0;
            let before = v.known(host_id);
            &&& after.host(host_id) is Some
            &&& host.connected
            &&& !host.encrypted
            &&& host.host_id == host_id
            &&& host.bonded == before.bonded
            &&& host.bond == before.bond
            &&& host.name == before.name
            &&& host.discovered_name == before.discovered_name
            &&& host.keyboard_leds == before.keyboard_leds
            &&& host.stored_report_ready == before.stored_report_ready
            &&& !host.session_report_ready.keyboard
            &&& !host.session_report_ready.mouse
            &&& !host.session_report_ready.consumer
            &&& !host.session_report_ready.keyboard_output
            &&& after.active == v.active
            &&& forall|kind: ReportKind| !after.sends(host_id, kind)
            &&& forall|other: HostId|
                other != host_id ==> #[trigger] after.host(other) == v.host(other)
        }),
{
    lemma_known_id(v, host_id);
    let host = HostRuntimeState {
        connected: true,
        encrypted: false,
        session_report_ready: ReportReady::nothing(),
        ..v.known(host_id)
    };
    law_one_host_changes(v, host_id, host);
}

/// A host that disconnects is known still, with all that was kept of it, but it
/// is not connected and nothing can be sent to it. Nothing changes for the other
/// hosts, nor which host has the input.
pub proof fn law_disconnecting(v: HostsView, host_id: HostId)
    requires
        v.wf(),
    ensures
        ({
            let after = v.disconnected(host_id);
            &&& after.active == v.active
            &&& forall|kind: ReportKind| !after.sends(host_id, kind)
            &&& forall|other: HostId|
                other != host_id ==> #[trigger] after.host(other) == v.host(other)
            &&& v.host(host_id) is None ==> after.host(host_id) is None
            &&& v.host(host_id) is Some ==> {
                let host = after.host(host_id)->0;
                let before = v.host(host_id)->0;
                &&& after.host(host_id) is Some
                &&& !host.connected
                &&& !host.encrypted
                &&& host.bonded == before.bonded
                &&& host.bond == before.bond
                &&& host.name == before.name
                &&& host.keyboard_leds == before.keyboard_leds
                &&& host.stored_report_ready == before.stored_report_ready
            }
        }),
{
    lemma_known_id(v, host_id);
    lemma_first_where(v.hosts, is_host(host_id));
    if v.index_of(host_id) is Some {
        lemma_known_not_refused(v, host_id);
        let host = HostRuntimeState {
            connected: false,
            encrypted: false,
            session_report_ready: ReportReady::nothing(),
            ..v.known(host_id)
        };
        law_one_host_changes(v, host_id, host);
    }
}

/// After the security of a host's link changed the link is encrypted or not as
/// was said. A bond that is given is kept, and without one the bond that was
/// there. Over a link that is not encrypted nothing can be sent, and once the
/// link to a connected and bonded host is encrypted, exactly what the host had
/// subscribed to before can be sent again. What else was kept stays.
pub proof fn law_securing(
    v: HostsView,
    host_id: HostId,
    encrypted: bool,
    bonded: bool,
    bond: Option<StoredBond>,
)
    ensures
        ({
            let before = v.known(host_id);
            let host = v.secured_host(host_id, encrypted, bonded, bond);
            &&& host.host_id == host_id
            &&& host.connected == before.connected
            &&& host.encrypted == encrypted
            &&& host.name == before.name
            &&& host.discovered_name == before.discovered_name
            &&& host.keyboard_leds == before.keyboard_leds
            &&& host.stored_report_ready == before.stored_report_ready
            &&& bond is Some ==> host.bond == bond
            &&& bond is None ==> host.bond == before.bond
            &&& host.bonded <==> bonded || before.bond is Some
            &&& !encrypted ==> !host.session_report_ready.keyboard
                && !host.session_report_ready.mouse && !host.session_report_ready.consumer
                && !host.session_report_ready.keyboard_output
            &&& encrypted && before.connected && (bonded || before.bond is Some)
                ==> host.session_report_ready == before.stored_report_ready
            &&& encrypted && !(before.connected && (bonded || before.bond is Some))
                ==> host.session_report_ready == before.session_report_ready
        }),
{
    lemma_known_id(v, host_id);
}

/// A change of a link's security has to be kept exactly where something that is
/// kept of the host changed.
pub proof fn law_security_is_kept_when_it_matters(
    v: HostsView,
    host_id: HostId,
    encrypted: bool,
    bonded: bool,
    bond: Option<StoredBond>,
)
    ensures
        v.security_persists(host_id, bonded, bond) <==> profile_of(v.known(host_id)) != profile_of(
            v.secured_host(host_id, encrypted, bonded, bond),
        ),
{
    lemma_known_id(v, host_id);
}

/// A host that subscribes to a report has subscribed to it, now and after it
/// comes back, and one that unsubscribes has not. Its other reports, and what
/// else is known of it, stay.
pub proof fn law_subscribing(v: HostsView, host_id: HostId, kind: ReportKind, enabled: bool)
    ensures
        ({
            let before = v.known(host_id);
            let host = v.subscribed_host(host_id, kind, enabled);
            let pick = |new: bool, k: ReportKind, old_value: bool|
                if kind == k {
                    enabled == new
                } else {
                    old_value == new
                };
            &&& host.host_id == host_id
            &&& host.connected == before.connected
            &&& host.encrypted == before.encrypted
            &&& host.bonded == before.bonded
            &&& host.bond == before.bond
            &&& host.name == before.name
            &&& host.discovered_name == before.discovered_name
            &&& host.keyboard_leds == before.keyboard_leds
            &&& pick(
                host.session_report_ready.keyboard,
                ReportKind::Keyboard,
                before.session_report_ready.keyboard,
            )
            &&& pick(
                host.session_report_ready.mouse,
                ReportKind::Mouse,
                before.session_report_ready.mouse,
            )
            &&& pick(
                host.session_report_ready.consumer,
                ReportKind::Consumer,
                before.session_report_ready.consumer,
            )
            &&& pick(
                host.session_report_ready.keyboard_output,
                ReportKind::KeyboardOutput,
                before.session_report_ready.keyboard_output,
            )
            &&& pick(
                host.stored_report_ready.keyboard,
                ReportKind::Keyboard,
                before.stored_report_ready.keyboard,
            )
            &&& pick(
                host.stored_report_ready.mouse,
                ReportKind::Mouse,
                before.stored_report_ready.mouse,
            )
            &&& pick(
                host.stored_report_ready.consumer,
                ReportKind::Consumer,
                before.stored_report_ready.consumer,
            )
            &&& pick(
                host.stored_report_ready.keyboard_output,
                ReportKind::KeyboardOutput,
                before.stored_report_ready.keyboard_output,
            )
        }),
{
    lemma_known_id(v, host_id);
}

/// A host that is forgotten is not known any longer and does not have the input.
/// The other hosts are known as before, and where another one has the input it
/// keeps it.
pub proof fn law_forgetting(v: HostsView, host_id: HostId)
    requires
        v.wf(),
        v.host(host_id) is Some,
    ensures
        v.cleared(host_id).host(host_id) is None,
        v.cleared(host_id).active != Some(host_id),
        v.active != Some(host_id) ==> v.cleared(host_id).active == v.active,
        v.active == Some(host_id) ==> v.cleared(host_id).active is None,
        forall|i: int|
            0 <= i < v.hosts.len() && (
            #[trigger] v.cleared(host_id).hosts[i]) is Some ==> v.cleared(
                host_id,
            ).hosts[i]->0.host_id != host_id,
        forall|other: HostId|
            other != host_id ==> #[trigger] v.cleared(host_id).host(other) == v.host(other),
{
    let after = v.cleared(host_id);
    let p = is_host(host_id);
    lemma_first_where(v.hosts, p);
    let i = v.index_of(host_id)->0;
    assert(p(v.hosts[i]));
    assert forall|j: int| 0 <= j < after.hosts.len() implies !p(#[trigger] after.hosts[j]) by {
        if j != i && v.hosts[j] is Some {
            if j < i {
                assert(v.hosts[j]->0.host_id != v.hosts[i]->0.host_id);
            } else {
                assert(v.hosts[i]->0.host_id != v.hosts[j]->0.host_id);
            }
        }
    }
    lemma_first_none(after.hosts, p);
    assert forall|j: int| 0 <= j < v.hosts.len() && (
    #[trigger] after.hosts[j]) is Some implies after.hosts[j]->0.host_id != host_id by {
        assert(!p(after.hosts[j]));
    }
    assert forall|other: HostId| other != host_id implies #[trigger] after.host(other) == v.host(
        other,
    ) by {
        lemma_elsewhere(v, after, i, other);
    }
}

/// The host that is given the input has it, and nothing that is known of any host
/// changes by that.
pub proof fn law_activating(v: HostsView, host_id: HostId)
    requires
        v.refusal(host_id) is None,
    ensures
        v.activated(host_id).active == Some(host_id),
        v.activated(host_id).host(host_id) == Some(v.known(host_id)),
        forall|other: HostId|
            other != host_id ==> #[trigger] v.activated(host_id).host(other) == v.host(other),
{
    lemma_known_id(v, host_id);
    let w = v.with(host_id, v.known(host_id));
    law_one_host_changes(v, host_id, v.known(host_id));
    let after = v.activated(host_id);
    assert(after.hosts == w.hosts);
    assert forall|other: HostId| #[trigger] after.host(other) == w.host(other) by {}
    assert(after.host(host_id) == w.host(host_id));
    assert forall|other: HostId| other != host_id implies #[trigger] after.host(other) == v.host(
        other,
    ) by {
        assert(w.host(other) == v.host(other));
    }
}

/// Whether a host is known to have a bond.
pub open spec fn has_bond(v: HostsView, host_id: HostId) -> bool {
    v.host(host_id) is Some && (v.host(host_id)->0.bonded || v.host(host_id)->0.bond is Some)
}

proof fn lemma_unbound_is_first(v: HostsView, n: int)
    requires
        1 <= n,
    ensures
        match v.unbound_from(n) {
            Some(host_id) => n <= host_id.0 <= v.hosts.len() && !has_bond(v, host_id) && forall|
                m: u8,
            | n <= m < host_id.0 ==> #[trigger] has_bond(v, HostId(m)),
            None => forall|m: u8|
                n <= m <= v.hosts.len() ==> #[trigger] has_bond(v, HostId(m)),
        },
    decreases v.hosts.len() + 1 - n,
{
    if !(n > v.hosts.len() || n > 255) {
        lemma_unbound_is_first(v, n + 1);
        if v.bound(HostId(n as u8)) {
            assert(has_bond(v, HostId(n as u8)));
            assert forall|m: u8| n <= m && m < n + 1 implies #[trigger] has_bond(v, HostId(m)) by {
                assert(m == n as u8);
            }
        }
    }
}

/// The host that may pair next is the one that has the input where that is known
/// and has no bond, or else the one with the lowest number of all without a bond.
/// There is none only where every host has a bond.
pub proof fn law_candidate_for_pairing(v: HostsView)
    ensures
        ({
            let own = v.active is Some && v.host(v.active->0) is Some && !has_bond(v, v.active->0);
            &&& own ==> v.candidate() == v.active
            &&& !own && v.candidate() is Some ==> {
                &&& 1 <= (v.candidate()->0).0 <= v.hosts.len()
                &&& !has_bond(v, v.candidate()->0)
                &&& forall|m: u8|
                    1 <= m < (v.candidate()->0).0 ==> #[trigger] has_bond(v, HostId(m))
            }
            &&& v.candidate() is None ==> forall|m: u8|
                1 <= m <= v.hosts.len() ==> #[trigger] has_bond(v, HostId(m))
        }),
{
    lemma_unbound_is_first(v, 1);
}

proof fn lemma_rank(hosts: Seq<Option<HostRuntimeState>>, i: int)
    requires
        0 <= i < hosts.len(),
        hosts[i] is Some,
        hosts[i]->0.connected,
    ensures
        count_connected(hosts.take(i)) < connected_hosts(hosts).len(),
        connected_hosts(hosts)[count_connected(hosts.take(i)) as int] == hosts[i]->0.host_id,
    decreases hosts.len(),
{
    lemma_count(hosts);
    let rest = hosts.drop_last();
    if i == hosts.len() - 1 {
        assert(hosts.take(i) =~= rest);
        lemma_count(rest);
    } else {
        assert(rest[i] == hosts[i]);
        lemma_rank(rest, i);
        assert(rest.take(i) =~= hosts.take(i));
    }
}

proof fn lemma_count(hosts: Seq<Option<HostRuntimeState>>)
    ensures
        connected_hosts(hosts).len() == count_connected(hosts),
    decreases hosts.len(),
{
    if hosts.len() > 0 {
        lemma_count(hosts.drop_last());
    }
}

proof fn lemma_place_of(hosts: Seq<Option<HostRuntimeState>>, k: int) -> (i: int)
    requires
        0 <= k < connected_hosts(hosts).len(),
    ensures
        0 <= i < hosts.len(),
        hosts[i] is Some,
        hosts[i]->0.connected,
        count_connected(hosts.take(i)) == k,
        connected_hosts(hosts)[k] == hosts[i]->0.host_id,
    decreases hosts.len(),
{
    let rest = hosts.drop_last();
    lemma_count(rest);
    if k < connected_hosts(rest).len() {
        let i = lemma_place_of(rest, k);
        assert(rest[i] == hosts[i]);
        assert(rest.take(i) =~= hosts.take(i));
        i
    } else {
        assert(hosts.take(hosts.len() - 1) =~= rest);
        hosts.len() - 1
    }
}

proof fn lemma_count_between(hosts: Seq<Option<HostRuntimeState>>, i: int, j: int)
    requires
        0 <= i <= j <= hosts.len(),
    ensures
        count_connected(hosts.take(i)) <= count_connected(hosts.take(j)),
        (forall|k: int|
            i <= k < j ==> !(#[trigger] hosts[k] is Some && hosts[k]->0.connected))
            ==> count_connected(hosts.take(i)) == count_connected(hosts.take(j)),
        i < j && hosts[i] is Some && hosts[i]->0.connected ==> count_connected(hosts.take(i))
            < count_connected(hosts.take(j)),
    decreases j - i,
{
    if i < j {
        lemma_count_between(hosts, i, j - 1);
        assert(hosts.take(j).drop_last() =~= hosts.take(j - 1));
        assert(hosts.take(j).last() == hosts[j - 1]);
    }
}

proof fn lemma_connected_are_distinct(v: HostsView)
    requires
        v.wf(),
    ensures
        connected_hosts(v.hosts).no_duplicates(),
{
    let all = connected_hosts(v.hosts);
    assert forall|a: int, b: int| 0 <= a < all.len() && 0 <= b < all.len() && a != b implies all[a]
        != all[b] by {
        let i = lemma_place_of(v.hosts, a);
        let j = lemma_place_of(v.hosts, b);
        if i < j {
            assert(v.hosts[i]->0.host_id != v.hosts[j]->0.host_id);
        } else if j < i {
            assert(v.hosts[j]->0.host_id != v.hosts[i]->0.host_id);
        }
    }
}

proof fn lemma_next_of_rank(v: HostsView, k: int)
    requires
        v.wf(),
        0 <= k < connected_hosts(v.hosts).len(),
    ensures
        ({
            let all = connected_hosts(v.hosts);
            v.next_after(Some(all[k])) == if k + 1 < all.len() {
                Some(all[k + 1])
            } else {
                Some(all[0])
            }
        }),
{
    let all = connected_hosts(v.hosts);
    lemma_connected_are_distinct(v);
    all.index_of_first_ensures(all[k]);
    assert(all.contains(all[k]));
}

/// The next host behind a connected one is the connected host at the next higher
/// place, where there is one.
pub proof fn law_next_is_the_connected_host_behind(v: HostsView, i: int, j: int)
    requires
        v.wf(),
        i < j,
        connected_at(v, i),
        connected_at(v, j),
        forall|k: int| i < k < j ==> !#[trigger] connected_at(v, k),
    ensures
        v.next_after(Some(v.hosts[i]->0.host_id)) == Some(v.hosts[j]->0.host_id),
{
    lemma_rank(v.hosts, i);
    lemma_rank(v.hosts, j);
    let k = count_connected(v.hosts.take(i)) as int;
    assert(v.hosts.take(i + 1).drop_last() =~= v.hosts.take(i));
    assert forall|m: int| i + 1 <= m < j implies !(#[trigger] v.hosts[m] is Some
        && v.hosts[m]->0.connected) by {
        assert(!connected_at(v, m));
    }
    lemma_count_between(v.hosts, i + 1, j);
    lemma_next_of_rank(v, k);
}

/// Behind the last connected host, and where there is no host to start from or
/// it is not connected, comes the connected host at the lowest place. There is no
/// next host only where no host is connected.
pub proof fn law_next_starts_over(v: HostsView, current: Option<HostId>)
    requires
        v.wf(),
    ensures
        (forall|i: int| !#[trigger] connected_at(v, i)) ==> v.next_after(current) is None,
        forall|j: int|
            #![trigger connected_at(v, j)]
            connected_at(v, j) && (forall|k: int| 0 <= k < j ==> !#[trigger] connected_at(v, k))
                && (current is None || forall|i: int|
                #[trigger] connected_at(v, i) && v.hosts[i]->0.host_id == current->0 ==> forall|
                    k: int,
                | i < k ==> !#[trigger] connected_at(v, k)) ==> v.next_after(current) == Some(
                v.hosts[j]->0.host_id,
            ),
{
    let all = connected_hosts(v.hosts);
    lemma_connected_are_distinct(v);
    if all.len() > 0 {
        let i = lemma_place_of(v.hosts, 0);
        assert(connected_at(v, i));
    }
    assert forall|j: int|
        #![trigger connected_at(v, j)]
        connected_at(v, j) && (forall|k: int| 0 <= k < j ==> !#[trigger] connected_at(v, k)) && (
        current is None || forall|i: int|
            #[trigger] connected_at(v, i) && v.hosts[i]->0.host_id == current->0 ==> forall|k: int|
                i < k ==> !#[trigger] connected_at(v, k)) implies v.next_after(current) == Some(
        v.hosts[j]->0.host_id,
    ) by {
        lemma_rank(v.hosts, j);
        assert forall|m: int| 0 <= m < j implies !(#[trigger] v.hosts[m] is Some
            && v.hosts[m]->0.connected) by {
            assert(!connected_at(v, m));
        }
        lemma_count_between(v.hosts, 0, j);
        assert(v.hosts.take(0) =~= Seq::<Option<HostRuntimeState>>::empty());
        assert(all[0] == v.hosts[j]->0.host_id);
        if current is Some && all.contains(current->0) {
            let r = all.index_of(current->0);
            lemma_next_of_rank(v, r);
            if r + 1 < all.len() {
                let i = lemma_place_of(v.hosts, r);
                let b = lemma_place_of(v.hosts, r + 1);
                assert(connected_at(v, i));
                assert(connected_at(v, b));
                if b <= i {
                    lemma_count_between(v.hosts, b, i);
                }
            }
        }
    }
}

/// The host that is reached from a host by stepping to the next one `n` times.
pub open spec fn stepped(v: HostsView, host_id: HostId, n: nat) -> Option<HostId>
    decreases n,
{
    if n == 0 {
        Some(host_id)
    } else {
        match stepped(v, host_id, (n - 1) as nat) {
            Some(current) => v.next_after(Some(current)),
            None => None,
        }
    }
}

proof fn lemma_stepped(v: HostsView, k: int, n: nat)
    requires
        v.wf(),
        0 <= k < connected_hosts(v.hosts).len(),
        n <= connected_hosts(v.hosts).len(),
    ensures
        ({
            let all = connected_hosts(v.hosts);
            stepped(v, all[k], n) == Some(
                if k + n < all.len() {
                    all[k + n]
                } else {
                    all[k + n - all.len()]
                },
            )
        }),
    decreases n,
{
    let all = connected_hosts(v.hosts);
    if n > 0 {
        let m = (n - 1) as nat;
        lemma_stepped(v, k, m);
        if k + m < all.len() {
            lemma_next_of_rank(v, k + m);
        } else {
            lemma_next_of_rank(v, k + m - all.len());
        }
    }
}

/// Stepping from any connected host goes round: as many steps as hosts are
/// connected lead back to it, and on the way every connected host is reached, each
/// exactly once, and no host that is not connected.
pub proof fn law_stepping_goes_round(v: HostsView, i: int)
    requires
        v.wf(),
        connected_at(v, i),
    ensures
        ({
            let start = v.hosts[i]->0.host_id;
            let count = count_connected(v.hosts);
            &&& stepped(v, start, count) == Some(start)
            &&& forall|a: nat, b: nat|
                a < b < count ==> #[trigger] stepped(v, start, a) != #[trigger] stepped(
                    v,
                    start,
                    b,
                )
            &&& forall|j: int| #[trigger]
                connected_at(v, j) ==> exists|n: nat|
                    n < count && #[trigger] stepped(v, start, n) == Some(v.hosts[j]->0.host_id)
            &&& forall|n: nat|
                n < count ==> (#[trigger] stepped(v, start, n)) is Some && exists|j: int| #[trigger]
                    connected_at(v, j) && v.hosts[j]->0.host_id == stepped(v, start, n)->0
        }),
{
    let start = v.hosts[i]->0.host_id;
    let all = connected_hosts(v.hosts);
    let count = count_connected(v.hosts);
    lemma_count(v.hosts);
    lemma_connected_are_distinct(v);
    lemma_rank(v.hosts, i);
    let k = count_connected(v.hosts.take(i)) as int;
    lemma_stepped(v, k, count);
    assert forall|a: nat, b: nat| a < b < count implies #[trigger] stepped(v, start, a)
        != #[trigger] stepped(v, start, b) by {
        lemma_stepped(v, k, a);
        lemma_stepped(v, k, b);
    }
    assert forall|j: int| #[trigger] connected_at(v, j) implies exists|n: nat|
        n < count && #[trigger] stepped(v, start, n) == Some(v.hosts[j]->0.host_id) by {
        lemma_rank(v.hosts, j);
        let r = count_connected(v.hosts.take(j)) as int;
        let n = if r >= k {
            (r - k) as nat
        } else {
            (r - k + all.len()) as nat
        };
        lemma_stepped(v, k, n);
        assert(stepped(v, start, n) == Some(v.hosts[j]->0.host_id));
    }
    assert forall|n: nat| n < count implies (#[trigger] stepped(v, start, n)) is Some && exists|
        j: int,
    | #[trigger] connected_at(v, j) && v.hosts[j]->0.host_id == stepped(v, start, n)->0 by {
        lemma_stepped(v, k, n);
        let r = if k + n < all.len() {
            k + n
        } else {
            k + n - all.len()
        };
        let j = lemma_place_of(v.hosts, r);
        assert(connected_at(v, j));
    }
}

/// What is kept of a host is its number, its bond, its name and what it has
/// subscribed to.
pub proof fn law_what_is_kept_of_a_host(host: HostRuntimeState)
    ensures
        profile_of(host).host_id == host.host_id,
        profile_of(host).bonded == host.bonded,
        profile_of(host).bond == host.bond,
        profile_of(host).name == host.name,
        profile_of(host).keyboard_cccd_enabled == host.stored_report_ready.keyboard,
        profile_of(host).mouse_cccd_enabled == host.stored_report_ready.mouse,
        profile_of(host).consumer_cccd_enabled == host.stored_report_ready.consumer,
        profile_of(host).keyboard_output_cccd_enabled
            == host.stored_report_ready.keyboard_output,
{
}

proof fn lemma_stored(hosts: Seq<Option<HostRuntimeState>>, i: int) -> (k: int)
    requires
        0 <= i < hosts.len(),
        hosts[i] is Some,
    ensures
        0 <= k < profiles_of(hosts).len(),
        profiles_of(hosts)[k] == profile_of(hosts[i]->0),
    decreases hosts.len(),
{
    let rest = hosts.drop_last();
    if i == hosts.len() - 1 {
        profiles_of(hosts).len() - 1
    } else {
        assert(rest[i] == hosts[i]);
        lemma_stored(rest, i)
    }
}

/// After what was stored came back every host that was known is known again, with
/// its bond, its name and what it had subscribed to, and is not connected.
pub proof fn law_every_host_comes_back(v: HostsView, w: HostsView, generation: u32, i: int)
    requires
        v.wf(),
        w.hosts.len() == v.hosts.len(),
        0 <= i < v.hosts.len(),
        v.hosts[i] is Some,
    ensures
        ({
            let stored = StorageView {
                generation,
                last_active_host: v.active,
                hosts: profiles_of(v.hosts),
            };
            let before = v.hosts[i]->0;
            let after = w.restored(stored).0;
            let host = after.host(before.host_id)->0;
            &&& after.active == v.active
            &&& after.host(before.host_id) is Some
            &&& host.host_id == before.host_id
            &&& host.bonded == before.bonded
            &&& host.bond == before.bond
            &&& host.name == before.name
            &&& host.stored_report_ready == before.stored_report_ready
            &&& !host.connected
            &&& !host.encrypted
        }),
{
    let profiles = profiles_of(v.hosts);
    let before = v.hosts[i]->0;
    lemma_profiles_distinct(v);
    lemma_profiles_fit(v.hosts);
    let start = HostsView { active: v.active, hosts: Seq::new(w.hosts.len(), |i: int| None) };
    lemma_restored(start, profiles);
    let after = start.with_all_kept(profiles).0;
    let k = lemma_stored(v.hosts, i);
    assert(after.hosts[k] == Some(host_of(profiles[k])));
    let p = is_host(before.host_id);
    assert forall|j: int| 0 <= j < k implies !p(#[trigger] after.hosts[j]) by {
        assert(after.hosts[j] == Some(host_of(profiles[j])));
        assert(profiles[j].host_id != profiles[k].host_id);
    }
    lemma_first_at(after.hosts, p, k);
}

} // verus!
