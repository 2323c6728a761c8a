//! What holds of the state whatever updates arrive: the indices agree
//! with each other before and after every step of the reducer.

use crate::rbac::AuthorizationView;
use crate::service::{promote, EndpointView, Endpoints, ServiceStoreView, ServiceView, Staged};
use crate::convert::{service_of, workload_of};
use crate::discovery::{
    XdsAddress, XdsAuthorization, XdsPort, XdsService, XdsType, XdsUpdate, XdsWorkload,
};
use crate::local::{
    local_derived, local_endpoints_of, services_view, LocalConfig, LocalWorkload,
};
use crate::store::policies_view;
use crate::state::ProxyStateView;
use crate::xds::{
    address_step, address_steps, authorization_step, authorization_steps, carried,
    endpoints_behind, endpoints_of, handled, kept, lemma_handled_step, service_key, vip_of,
    workload_step, workload_steps,
};
use crate::store::WorkloadStoreView;
use crate::workload::{HealthStatus, NamespacedHostnameView, NetworkAddressView, WorkloadView};
use vstd::prelude::*;

verus! {

impl WorkloadStoreView {
    /// Every workload is known under its own UID, and every address
    /// leads to a workload that has the address and is known under its UID.
    pub open spec fn keyed(self) -> bool {
        &&& forall|uid: Seq<char>| #[trigger]
            self.by_uid.contains_key(uid) ==> self.by_uid[uid].uid == uid
        &&& forall|a: NetworkAddressView| #[trigger]
            self.by_addr.contains_key(a) ==> {
                &&& self.by_addr[a].has_address(a)
                &&& self.by_uid.contains_key(self.by_addr[a].uid)
                &&& self.by_uid[self.by_addr[a].uid] == self.by_addr[a]
            }
    }

    /// Every address of every workload leads to that workload.
    pub open spec fn indexed(self) -> bool {
        forall|uid: Seq<char>, a: NetworkAddressView|
            self.by_uid.contains_key(uid) && (#[trigger] self.by_uid[uid].has_address(a))
                ==> self.by_addr.contains_key(a) && self.by_addr[a] == self.by_uid[uid]
    }

    /// Every policy is stored under its own key, and the key of every
    /// policy with a scope is filed under that scope.
    pub open spec fn filed_by_scope(self) -> bool {
        forall|k: Seq<char>| #[trigger]
            self.policies.contains_key(k) ==> {
                &&& self.policies[k].key() == k
                &&& self.policies[k].scope_key() is Some ==> self.filed(
                    self.policies[k].scope_key().unwrap(),
                ).contains(k)
            }
    }

    /// Every key that is filed under a scope is the key of a stored
    /// policy of that scope. So a policy that workloads select by name is
    /// filed nowhere.
    pub open spec fn filed_exactly(self) -> bool {
        forall|scope: Seq<char>, k: Seq<char>|
            self.policies_by_namespace.contains_key(scope) && (
            #[trigger] self.policies_by_namespace[scope].contains(k))
                ==> self.policies.contains_key(k) && self.policies[k].scope_key() == Some(scope)
    }

    /// Whether no workload but the one known under `w.uid` owns an
    /// address of `w`.
    pub open spec fn free_for(self, w: WorkloadView) -> bool {
        forall|a: NetworkAddressView|
            (#[trigger] w.has_address(a)) && self.by_addr.contains_key(a) ==> self.by_addr[a].uid
                == w.uid
    }
}

/// What `has_address` means for the addresses bound or unbound by position.
pub proof fn lemma_has_address(w: WorkloadView, a: NetworkAddressView)
    ensures
        w.has_address(a) <==> (a.network == w.network && w.workload_ips.take(
            w.workload_ips.len() as int,
        ).contains(a.address)),
{
    assert(w.workload_ips.take(w.workload_ips.len() as int) =~= w.workload_ips);
}

/// Removing a workload keeps the indices in agreement.
pub proof fn law_remove_workload_keeps(s: WorkloadStoreView, uid: Seq<char>)
    requires
        s.keyed(),
    ensures
        s.without_workload(uid).keyed(),
        s.indexed() ==> s.without_workload(uid).indexed(),
        s.filed_by_scope() ==> s.without_workload(uid).filed_by_scope(),
        s.filed_exactly() ==> s.without_workload(uid).filed_exactly(),
        forall|a: NetworkAddressView|
            s.by_uid.contains_key(uid) && (#[trigger] s.by_uid[uid].has_address(a))
                ==> !s.without_workload(uid).by_addr.contains_key(a),
        !s.without_workload(uid).by_uid.contains_key(uid),
{
    let t = s.without_workload(uid);
    if s.by_uid.contains_key(uid) {
        let prev = s.by_uid[uid];
        assert forall|a: NetworkAddressView| #[trigger] t.by_addr.contains_key(a) implies {
            &&& t.by_addr[a].has_address(a)
            &&& t.by_uid.contains_key(t.by_addr[a].uid)
            &&& t.by_uid[t.by_addr[a].uid] == t.by_addr[a]
        } by {
            lemma_has_address(prev, a);
            assert(s.by_addr.contains_key(a));
            if s.by_addr[a].uid == uid {
                assert(s.by_addr[a] == prev);
            }
        }
        assert forall|a: NetworkAddressView| (#[trigger] prev.has_address(a)) implies !t.by_addr.contains_key(
            a,
        ) by {
            lemma_has_address(prev, a);
        }
        if s.indexed() {
            assert forall|u: Seq<char>, a: NetworkAddressView|
                t.by_uid.contains_key(u) && (#[trigger] t.by_uid[u].has_address(
                    a,
                )) implies t.by_addr.contains_key(a) && t.by_addr[a] == t.by_uid[u] by {
                lemma_has_address(prev, a);
                assert(s.by_uid.contains_key(u) && s.by_uid[u].has_address(a));
                if prev.has_address(a) {
                    assert(s.by_addr[a] == prev);
                    assert(s.by_uid[u].uid == u);
                }
            }
        }
    }
}

/// Storing a workload keeps the indices in agreement, where its
/// addresses are free for it.
pub proof fn law_insert_workload_keeps(s: WorkloadStoreView, w: WorkloadView)
    requires
        s.keyed(),
    ensures
        s.with_workload(w).keyed(),
        s.indexed() && s.free_for(w) ==> s.with_workload(w).indexed(),
        s.filed_by_scope() ==> s.with_workload(w).filed_by_scope(),
        s.filed_exactly() ==> s.with_workload(w).filed_exactly(),
        s.with_workload(w).by_uid.contains_key(w.uid),
        s.with_workload(w).by_uid[w.uid] == w,
        forall|a: NetworkAddressView| #[trigger]
            w.has_address(a) ==> s.with_workload(w).by_addr.contains_key(a) && s.with_workload(
                w,
            ).by_addr[a] == w,
{
    let c = s.without_workload(w.uid);
    let t = s.with_workload(w);
    law_remove_workload_keeps(s, w.uid);
    assert forall|a: NetworkAddressView| #[trigger] t.by_addr.contains_key(a) implies {
        &&& t.by_addr[a].has_address(a)
        &&& t.by_uid.contains_key(t.by_addr[a].uid)
        &&& t.by_uid[t.by_addr[a].uid] == t.by_addr[a]
    } by {
        lemma_has_address(w, a);
        if !w.has_address(a) {
            assert(c.by_addr.contains_key(a));
            assert(c.by_uid.contains_key(c.by_addr[a].uid));
        }
    }
    assert forall|a: NetworkAddressView| #[trigger] w.has_address(a) implies t.by_addr.contains_key(
        a,
    ) && t.by_addr[a] == w by {
        lemma_has_address(w, a);
    }
    if s.indexed() && s.free_for(w) {
        assert forall|u: Seq<char>, a: NetworkAddressView|
            t.by_uid.contains_key(u) && (#[trigger] t.by_uid[u].has_address(
                a,
            )) implies t.by_addr.contains_key(a) && t.by_addr[a] == t.by_uid[u] by {
            lemma_has_address(w, a);
            if u != w.uid {
                assert(c.by_uid.contains_key(u) && c.by_uid[u].has_address(a));
                assert(c.by_addr.contains_key(a) && c.by_addr[a] == c.by_uid[u]);
                if w.has_address(a) {
                    assert(s.by_addr.contains_key(a));
                    assert(s.by_addr[a].uid == w.uid);
                    assert(c.by_uid[u].uid == u);
                }
            }
        }
    }
}

/// Storing a workload that is new to the store and removing it again
/// leaves the store as it was: nothing is known under the UID of the
/// workload or under any of its addresses before, and so after.
pub proof fn law_insert_then_remove(s: WorkloadStoreView, w: WorkloadView)
    requires
        !s.by_uid.contains_key(w.uid),
        forall|a: NetworkAddressView| #[trigger] w.has_address(a) ==> !s.by_addr.contains_key(a),
    ensures
        s.with_workload(w).without_workload(w.uid) == s,
{
    let t = s.with_workload(w);
    let r = t.without_workload(w.uid);
    assert(s.without_workload(w.uid) == s);
    assert(t.by_uid[w.uid] == w);
    assert(r.by_uid =~= s.by_uid);
    assert forall|a: NetworkAddressView|
        r.by_addr.contains_key(a) <==> s.by_addr.contains_key(a) by {
        lemma_has_address(w, a);
    }
    assert(r.by_addr =~= s.by_addr);
}

/// Binding and filing a policy whose key is new to the store keeps the
/// policies filed by scope.
proof fn lemma_filing_keeps(s: WorkloadStoreView, p: AuthorizationView)
    requires
        s.filed_by_scope(),
    ensures
        s.filing(p).filed_by_scope(),
        s.filing(p).by_addr == s.by_addr,
        s.filing(p).by_uid == s.by_uid,
        s.filed_exactly() && !s.policies.contains_key(p.key()) ==> s.filing(p).filed_exactly(),
{
    let t = s.filing(p);
    if s.filed_exactly() && !s.policies.contains_key(p.key()) {
        assert forall|scope: Seq<char>, k: Seq<char>|
            t.policies_by_namespace.contains_key(scope) && (
            #[trigger] t.policies_by_namespace[scope].contains(k)) implies t.policies.contains_key(
            k,
        ) && t.policies[k].scope_key() == Some(scope) by {
            if k != p.key() {
                if p.scope_key() == Some(scope) {
                    assert(s.filed(scope).contains(k));
                }
                assert(s.policies_by_namespace.contains_key(scope)
                    && s.policies_by_namespace[scope].contains(k));
            } else if p.scope_key() != Some(scope) {
                assert(s.policies_by_namespace.contains_key(scope)
                    && s.policies_by_namespace[scope].contains(k));
            }
        }
    }
    assert forall|k: Seq<char>| #[trigger] t.policies.contains_key(k) implies {
        &&& t.policies[k].key() == k
        &&& t.policies[k].scope_key() is Some ==> t.filed(t.policies[k].scope_key().unwrap()).contains(
            k,
        )
    } by {
        if k != p.key() {
            assert(s.policies.contains_key(k));
        }
    }
}

/// Storing a policy keeps the policies filed by scope, whatever was known
/// under its key before. Afterwards the policy is found under its key, and
/// its key is filed under its scope and under no other: a policy that
/// workloads select by name is filed nowhere.
pub proof fn law_insert_policy_keeps(s: WorkloadStoreView, p: AuthorizationView)
    requires
        s.filed_by_scope(),
    ensures
        s.with_policy(p).filed_by_scope(),
        s.keyed() ==> s.with_policy(p).keyed(),
        s.indexed() ==> s.with_policy(p).indexed(),
        s.filed_exactly() ==> s.with_policy(p).filed_exactly(),
        s.with_policy(p).policies.contains_key(p.key()),
        s.with_policy(p).policies[p.key()] == p,
        p.scope_key() matches Some(scope) ==> s.with_policy(p).filed(scope).contains(p.key()),
        s.filed_exactly() ==> forall|scope: Seq<char>|
            p.scope_key() != Some(scope) ==> !(#[trigger] s.with_policy(p).filed(scope)).contains(
                p.key(),
            ),
{
    let c = s.without_policy(p.key());
    law_remove_policy_keeps(s, p.key());
    lemma_filing_keeps(c, p);
    let t = s.with_policy(p);
    if s.filed_exactly() {
        assert forall|scope: Seq<char>| p.scope_key() != Some(scope) implies !(#[trigger] t.filed(
            scope,
        )).contains(p.key()) by {
            if t.filed(scope).contains(p.key()) {
                assert(t.policies_by_namespace.contains_key(scope)
                    && t.policies_by_namespace[scope].contains(p.key()));
            }
        }
    }
}

/// Removing a policy keeps the policies filed by scope.
pub proof fn law_remove_policy_keeps(s: WorkloadStoreView, key: Seq<char>)
    requires
        s.filed_by_scope(),
    ensures
        s.without_policy(key).filed_by_scope(),
        s.keyed() ==> s.without_policy(key).keyed(),
        s.indexed() ==> s.without_policy(key).indexed(),
        s.filed_exactly() ==> s.without_policy(key).filed_exactly(),
        !s.without_policy(key).policies.contains_key(key),
        s.without_policy(key).by_addr == s.by_addr,
        s.without_policy(key).by_uid == s.by_uid,
{
    let t = s.without_policy(key);
    if s.filed_exactly() {
        assert forall|scope: Seq<char>, k: Seq<char>|
            t.policies_by_namespace.contains_key(scope) && (
            #[trigger] t.policies_by_namespace[scope].contains(k)) implies t.policies.contains_key(
            k,
        ) && t.policies[k].scope_key() == Some(scope) by {
            assert(s.policies_by_namespace.contains_key(scope)
                && s.policies_by_namespace[scope].contains(k));
        }
    }
    assert forall|k: Seq<char>| #[trigger] t.policies.contains_key(k) implies {
        &&& t.policies[k].key() == k
        &&& t.policies[k].scope_key() is Some ==> t.filed(t.policies[k].scope_key().unwrap()).contains(
            k,
        )
    } by {
        assert(s.policies.contains_key(k));
        assert(k != key);
        if t.policies[k].scope_key() is Some {
            let scope = t.policies[k].scope_key().unwrap();
            assert(s.filed(scope).contains(k));
            if s.policies[key].scope_key() == Some(scope) {
                let rest = s.policies_by_namespace[scope].remove(key);
                assert(rest.contains(k));
                assert(rest != Set::<Seq<char>>::empty());
            }
        }
    }
}

impl ServiceStoreView {
    /// Every service is stored under its own key, and every bound
    /// address leads to a stored service that names the address.
    pub open spec fn linked(self) -> bool {
        &&& forall|h: NamespacedHostnameView| #[trigger]
            self.by_host.contains_key(h) ==> self.by_host[h].host() == h
        &&& forall|v: NetworkAddressView| #[trigger]
            self.by_vip.contains_key(v) ==> self.by_host.contains_key(self.by_vip[v])
                && self.by_host[self.by_vip[v]].vips.contains(v)
    }

    /// No two services share an address: every address of every
    /// service leads to that service.
    pub open spec fn unshared(self) -> bool {
        forall|h: NamespacedHostnameView, v: NetworkAddressView|
            self.by_host.contains_key(h) && (#[trigger] self.by_host[h].vips.contains(v))
                ==> self.by_vip.contains_key(v) && self.by_vip[v] == h
    }

    /// Nothing waits under an address that leads to a service; no
    /// waiting list is empty; and every waiting endpoint is filed under
    /// its own service address and workload address.
    pub open spec fn settled(self) -> bool {
        forall|v: NetworkAddressView| #[trigger]
            self.staged.contains_key(v) ==> {
                &&& self.service_at(v) is None
                &&& self.staged[v] != Map::<NetworkAddressView, EndpointView>::empty()
                &&& forall|a: NetworkAddressView| #[trigger]
                    self.staged[v].contains_key(a) ==> self.staged[v][a].address == a
                        && self.staged[v][a].vip == v
            }
    }

    /// Every endpoint of a service is filed under its own workload address.
    pub open spec fn filed_by_address(self) -> bool {
        forall|h: NamespacedHostnameView, a: NetworkAddressView|
            self.by_host.contains_key(h) && (#[trigger] self.by_host[h].endpoints.contains_key(a))
                ==> self.by_host[h].endpoints[a].address == a
    }

    /// Whether an endpoint of the workload address `a` serves in `h`.
    pub open spec fn serves(self, h: NamespacedHostnameView, a: NetworkAddressView) -> bool {
        self.by_host.contains_key(h) && self.by_host[h].endpoints.contains_key(a)
    }

    /// Whether an endpoint of the workload address `a` waits under `v`.
    pub open spec fn waits(self, v: NetworkAddressView, a: NetworkAddressView) -> bool {
        self.staged.contains_key(v) && self.staged[v].contains_key(a)
    }

    /// Whether an endpoint of the workload address `a` is held anywhere:
    /// in a service or in the staging area.
    pub open spec fn has_endpoint(self, a: NetworkAddressView) -> bool {
        (exists|h: NamespacedHostnameView| self.serves(h, a)) || (exists|v: NetworkAddressView|
            self.waits(v, a))
    }

    /// Every endpoint of a service is an endpoint of one of the
    /// addresses of the service.
    pub open spec fn named(self) -> bool {
        forall|h: NamespacedHostnameView, a: NetworkAddressView|
            self.by_host.contains_key(h) && (#[trigger] self.by_host[h].endpoints.contains_key(a))
                ==> self.by_host[h].vips.contains(self.by_host[h].endpoints[a].vip)
    }

    /// The invariants of the service store, all of them but `unshared`.
    pub open spec fn sound(self) -> bool {
        self.linked() && self.settled() && self.filed_by_address() && self.named()
    }

    /// Whether no other service owns an address among `vips`.
    pub open spec fn free_for(self, host: NamespacedHostnameView, vips: Seq<
        NetworkAddressView,
    >) -> bool {
        forall|v: NetworkAddressView|
            (#[trigger] vips.contains(v)) && self.by_vip.contains_key(v) ==> self.by_vip[v] == host
    }
}

/// Whether each endpoint of the map is filed under its own workload address.
pub open spec fn self_filed(e: Endpoints) -> bool {
    forall|a: NetworkAddressView| #[trigger] e.contains_key(a) ==> e[a].address == a
}

/// Whether each endpoint of the map is an endpoint of one of `vips`.
pub open spec fn all_named(e: Endpoints, vips: Seq<NetworkAddressView>) -> bool {
    forall|a: NetworkAddressView| #[trigger] e.contains_key(a) ==> vips.contains(e[a].vip)
}

/// An endpoint that arrives joins a service or waits; the store stays
/// sound, and it holds no endpoints but those it held and the new one.
pub proof fn law_insert_endpoint_keeps(s: ServiceStoreView, ep: EndpointView)
    requires
        s.sound(),
    ensures
        s.with_endpoint(ep).sound(),
        s.unshared() ==> s.with_endpoint(ep).unshared(),
        s.with_endpoint(ep).has_endpoint(ep.address),
        forall|a: NetworkAddressView| #[trigger]
            s.with_endpoint(ep).has_endpoint(a) ==> s.has_endpoint(a) || a == ep.address,
        s.with_endpoint(ep).by_vip == s.by_vip,
{
    let t = s.with_endpoint(ep);
    if s.service_at(ep.vip) is Some {
        let host = s.by_vip[ep.vip];
        assert(t.serves(host, ep.address));
        assert forall|v: NetworkAddressView| #[trigger] t.by_vip.contains_key(v) implies t.by_host.contains_key(
            t.by_vip[v],
        ) && t.by_host[t.by_vip[v]].vips.contains(v) by {
            assert(s.by_vip.contains_key(v));
        }
        assert forall|v: NetworkAddressView| #[trigger] t.staged.contains_key(v) implies {
            &&& t.service_at(v) is None
            &&& t.staged[v] != Map::<NetworkAddressView, EndpointView>::empty()
            &&& forall|a: NetworkAddressView| #[trigger]
                t.staged[v].contains_key(a) ==> t.staged[v][a].address == a && t.staged[v][a].vip
                    == v
        } by {
            assert(s.staged.contains_key(v));
            assert(s.service_at(v) is None);
            if s.by_vip.contains_key(v) {
                assert(s.by_host.contains_key(s.by_vip[v]));
            }
        }
        assert forall|a: NetworkAddressView| #[trigger] t.has_endpoint(a) implies s.has_endpoint(a)
            || a == ep.address by {
            if exists|h: NamespacedHostnameView| t.serves(h, a) {
                let h = choose|h: NamespacedHostnameView| t.serves(h, a);
                if a != ep.address {
                    assert(s.serves(h, a));
                }
            } else {
                let v = choose|v: NetworkAddressView| t.waits(v, a);
                assert(s.waits(v, a));
            }
        }
        assert forall|h: NamespacedHostnameView, a: NetworkAddressView|
            t.by_host.contains_key(h) && (#[trigger] t.by_host[h].endpoints.contains_key(
                a,
            )) implies t.by_host[h].vips.contains(t.by_host[h].endpoints[a].vip) by {
            if h == host && a == ep.address {
                assert(s.by_vip.contains_key(ep.vip));
            } else {
                assert(s.by_host.contains_key(h) && s.by_host[h].endpoints.contains_key(a));
            }
        }
        if s.unshared() {
            assert forall|h: NamespacedHostnameView, v: NetworkAddressView|
                t.by_host.contains_key(h) && (#[trigger] t.by_host[h].vips.contains(
                    v,
                )) implies t.by_vip.contains_key(v) && t.by_vip[v] == h by {
                assert(s.by_host.contains_key(h) && s.by_host[h].vips.contains(v));
            }
        }
    } else {
        let waiting = if s.staged.contains_key(ep.vip) {
            s.staged[ep.vip]
        } else {
            Map::empty()
        };
        let now = waiting.insert(ep.address, ep);
        assert(now.contains_key(ep.address));
        assert(t.waits(ep.vip, ep.address));
        assert forall|v: NetworkAddressView| #[trigger] t.staged.contains_key(v) implies {
            &&& t.service_at(v) is None
            &&& t.staged[v] != Map::<NetworkAddressView, EndpointView>::empty()
            &&& forall|a: NetworkAddressView| #[trigger]
                t.staged[v].contains_key(a) ==> t.staged[v][a].address == a && t.staged[v][a].vip
                    == v
        } by {
            if v == ep.vip {
                assert(t.staged[v] == now);
                assert forall|a: NetworkAddressView| #[trigger]
                    now.contains_key(a) implies now[a].address == a && now[a].vip == v by {
                    if a != ep.address {
                        assert(s.staged.contains_key(v));
                        assert(s.staged[v].contains_key(a));
                    }
                }
            } else {
                assert(s.staged.contains_key(v));
            }
        }
        assert forall|a: NetworkAddressView| #[trigger] t.has_endpoint(a) implies s.has_endpoint(a)
            || a == ep.address by {
            if exists|h: NamespacedHostnameView| t.serves(h, a) {
                let h = choose|h: NamespacedHostnameView| t.serves(h, a);
                assert(s.serves(h, a));
            } else {
                let v = choose|v: NetworkAddressView| t.waits(v, a);
                if a != ep.address {
                    assert(s.waits(v, a));
                }
            }
        }
    }
}

/// The endpoints of a workload address leave; the store stays sound, and
/// it holds no endpoints but those it held, and none of that address.
pub proof fn law_remove_endpoint_keeps(s: ServiceStoreView, addr: NetworkAddressView)
    requires
        s.sound(),
    ensures
        s.without_endpoint(addr).sound(),
        s.unshared() ==> s.without_endpoint(addr).unshared(),
        !s.without_endpoint(addr).has_endpoint(addr),
        forall|a: NetworkAddressView| #[trigger]
            s.without_endpoint(addr).has_endpoint(a) ==> s.has_endpoint(a) && a != addr,
        s.without_endpoint(addr).by_vip == s.by_vip,
{
    let t = s.without_endpoint(addr);
    assert forall|h: NamespacedHostnameView| #[trigger] t.by_host.contains_key(h) implies t.by_host[h].host()
        == h by {
        assert(s.by_host.contains_key(h));
    }
    assert forall|v: NetworkAddressView| #[trigger] t.by_vip.contains_key(v) implies t.by_host.contains_key(
        t.by_vip[v],
    ) && t.by_host[t.by_vip[v]].vips.contains(v) by {
        assert(s.by_vip.contains_key(v));
        assert(s.by_host.contains_key(s.by_vip[v]));
    }
    assert forall|v: NetworkAddressView| #[trigger] t.staged.contains_key(v) implies {
        &&& t.service_at(v) is None
        &&& t.staged[v] != Map::<NetworkAddressView, EndpointView>::empty()
        &&& forall|a: NetworkAddressView| #[trigger]
            t.staged[v].contains_key(a) ==> t.staged[v][a].address == a && t.staged[v][a].vip == v
    } by {
        assert(s.staged.contains_key(v));
        assert(s.service_at(v) is None);
        if s.by_vip.contains_key(v) {
            assert(s.by_host.contains_key(s.by_vip[v]));
        }
        assert forall|a: NetworkAddressView| #[trigger]
            t.staged[v].contains_key(a) implies t.staged[v][a].address == a && t.staged[v][a].vip
            == v by {
            assert(s.staged[v].contains_key(a));
        }
    }
    assert forall|h: NamespacedHostnameView, a: NetworkAddressView|
        t.by_host.contains_key(h) && (#[trigger] t.by_host[h].endpoints.contains_key(
            a,
        )) implies t.by_host[h].endpoints[a].address == a by {
        assert(s.by_host.contains_key(h) && s.by_host[h].endpoints.contains_key(a));
    }
    assert forall|h: NamespacedHostnameView, a: NetworkAddressView|
        t.by_host.contains_key(h) && (#[trigger] t.by_host[h].endpoints.contains_key(
            a,
        )) implies t.by_host[h].vips.contains(t.by_host[h].endpoints[a].vip) by {
        assert(s.by_host.contains_key(h) && s.by_host[h].endpoints.contains_key(a));
    }
    assert forall|a: NetworkAddressView| #[trigger] t.has_endpoint(a) implies s.has_endpoint(a) && a
        != addr by {
        if exists|h: NamespacedHostnameView| t.serves(h, a) {
            let h = choose|h: NamespacedHostnameView| t.serves(h, a);
            assert(s.serves(h, a));
        } else {
            let v = choose|v: NetworkAddressView| t.waits(v, a);
            assert(s.waits(v, a));
        }
    }
    if s.unshared() {
        assert forall|h: NamespacedHostnameView, v: NetworkAddressView|
            t.by_host.contains_key(h) && (#[trigger] t.by_host[h].vips.contains(
                v,
            )) implies t.by_vip.contains_key(v) && t.by_vip[v] == h by {
            assert(s.by_host.contains_key(h) && s.by_host[h].vips.contains(v));
        }
    }
}

/// What promotion does: the staging area loses exactly the lists of the
/// given addresses, and the service gains nothing but what waited there.
pub proof fn lemma_promote(endpoints: Endpoints, staged: Staged, vips: Seq<NetworkAddressView>)
    ensures
        forall|v: NetworkAddressView| #[trigger]
            promote(endpoints, staged, vips).1.contains_key(v) <==> (staged.contains_key(v)
                && !vips.contains(v)),
        forall|v: NetworkAddressView| #[trigger]
            promote(endpoints, staged, vips).1.contains_key(v) ==> promote(
                endpoints,
                staged,
                vips,
            ).1[v] == staged[v],
        forall|a: NetworkAddressView| #[trigger]
            promote(endpoints, staged, vips).0.contains_key(a) ==> endpoints.contains_key(a) || (
            exists|v: NetworkAddressView| staged.contains_key(v) && #[trigger] staged[v].contains_key(a)),
        forall|a: NetworkAddressView| #[trigger]
            promote(endpoints, staged, vips).0.contains_key(a) ==> (endpoints.contains_key(a)
                && promote(endpoints, staged, vips).0[a] == endpoints[a]) || (exists|
                v: NetworkAddressView,
            |
                staged.contains_key(v) && #[trigger] staged[v].contains_key(a) && promote(
                    endpoints,
                    staged,
                    vips,
                ).0[a] == staged[v][a]),
    decreases vips.len(),
{
    if vips.len() > 0 {
        let front = vips.drop_last();
        let last = vips.last();
        lemma_promote(endpoints, staged, front);
        let (e, s) = promote(endpoints, staged, front);
        let (e2, s2) = promote(endpoints, staged, vips);
        assert forall|v: NetworkAddressView| #[trigger] vips.contains(v) <==> (front.contains(v) || v
            == last) by {
            if vips.contains(v) {
                let j = choose|j: int| 0 <= j < vips.len() && vips[j] == v;
                if j < front.len() {
                    assert(front[j] == v);
                }
            }
            if front.contains(v) {
                let j = choose|j: int| 0 <= j < front.len() && front[j] == v;
                assert(vips[j] == v);
            }
            if v == last {
                assert(vips[vips.len() - 1] == v);
            }
        }
        assert forall|a: NetworkAddressView| #[trigger] e2.contains_key(a) implies (
        endpoints.contains_key(a) && e2[a] == endpoints[a]) || (exists|v: NetworkAddressView|
            staged.contains_key(v) && #[trigger] staged[v].contains_key(a) && e2[a]
                == staged[v][a]) by {
            if s.contains_key(last) && s[last].contains_key(a) {
                assert(staged.contains_key(last) && staged[last].contains_key(a) && e2[a]
                    == staged[last][a]);
            } else {
                assert(e.contains_key(a) && e2[a] == e[a]);
            }
        }
    }
}

/// An endpoint that a service gained by promotion is its own, or waited
/// under one of its addresses.
pub proof fn lemma_promoted_from(
    endpoints: Endpoints,
    staged: Staged,
    vips: Seq<NetworkAddressView>,
    a: NetworkAddressView,
)
    requires
        promote(endpoints, staged, vips).0.contains_key(a),
    ensures
        (endpoints.contains_key(a) && promote(endpoints, staged, vips).0[a] == endpoints[a]) || (
        exists|v: NetworkAddressView|
            vips.contains(v) && staged.contains_key(v) && #[trigger] staged[v].contains_key(a)
                && promote(endpoints, staged, vips).0[a] == staged[v][a]),
    decreases vips.len(),
{
    if vips.len() > 0 {
        let front = vips.drop_last();
        let last = vips.last();
        lemma_promote(endpoints, staged, front);
        let (e, s) = promote(endpoints, staged, front);
        let (e2, s2) = promote(endpoints, staged, vips);
        assert(vips[vips.len() - 1] == last);
        if s.contains_key(last) && s[last].contains_key(a) {
            assert(vips.contains(last) && staged.contains_key(last) && staged[last].contains_key(a)
                && e2[a] == staged[last][a]);
        } else {
            assert(e.contains_key(a) && e2[a] == e[a]);
            lemma_promoted_from(endpoints, staged, front, a);
            if !(endpoints.contains_key(a) && e[a] == endpoints[a]) {
                let v = choose|v: NetworkAddressView|
                    front.contains(v) && staged.contains_key(v) && #[trigger] staged[v].contains_key(
                        a,
                    ) && e[a] == staged[v][a];
                let j = choose|j: int| 0 <= j < front.len() && front[j] == v;
                assert(vips[j] == v);
            }
        }
    }
}

/// Promotion loses nothing: what the service had, and what waited under
/// one of its addresses, it has afterwards.
pub proof fn lemma_promote_gains(
    endpoints: Endpoints,
    staged: Staged,
    vips: Seq<NetworkAddressView>,
    a: NetworkAddressView,
)
    requires
        endpoints.contains_key(a) || (exists|v: NetworkAddressView|
            vips.contains(v) && staged.contains_key(v) && #[trigger] staged[v].contains_key(a)),
    ensures
        promote(endpoints, staged, vips).0.contains_key(a),
    decreases vips.len(),
{
    if vips.len() > 0 {
        let front = vips.drop_last();
        let last = vips.last();
        lemma_promote(endpoints, staged, front);
        let (e, s) = promote(endpoints, staged, front);
        if endpoints.contains_key(a) {
            lemma_promote_gains(endpoints, staged, front, a);
        } else {
            let v = choose|v: NetworkAddressView|
                vips.contains(v) && staged.contains_key(v) && #[trigger] staged[v].contains_key(a);
            let j = choose|j: int| 0 <= j < vips.len() && vips[j] == v;
            if j < front.len() {
                assert(front[j] == v);
                assert(front.contains(v));
                lemma_promote_gains(endpoints, staged, front, a);
            } else {
                assert(v == last);
                if front.contains(last) {
                    lemma_promote_gains(endpoints, staged, front, a);
                } else {
                    assert(s.contains_key(last) && s[last] == staged[last]);
                }
            }
        }
    }
}

/// A service that arrives is stored, and the endpoints that waited for
/// it join it at that moment and wait no longer; the store stays sound
/// where the endpoints that the service brings are filed under their own
/// addresses and are endpoints of its addresses.
pub proof fn law_insert_service_keeps(s: ServiceStoreView, svc: ServiceView)
    requires
        s.sound(),
        self_filed(svc.endpoints),
        all_named(svc.endpoints, svc.vips),
    ensures
        s.with_service(svc).sound(),
        s.unshared() && s.free_for(svc.host(), svc.vips) ==> s.with_service(svc).unshared(),
        forall|a: NetworkAddressView| #[trigger]
            s.with_service(svc).has_endpoint(a) ==> s.has_endpoint(a) || svc.endpoints.contains_key(
                a,
            ),
        s.with_service(svc).by_host.contains_key(svc.host()),
        forall|v: NetworkAddressView| #[trigger]
            svc.vips.contains(v) ==> s.with_service(svc).service_at(v) is Some
                && !s.with_service(svc).staged.contains_key(v),
        forall|v: NetworkAddressView, a: NetworkAddressView|
            svc.vips.contains(v) && #[trigger] s.waits(v, a) ==> s.with_service(svc).serves(
                svc.host(),
                a,
            ),
{
    let t = s.with_service(svc);
    let host = svc.host();
    assert forall|v: NetworkAddressView, a: NetworkAddressView|
        svc.vips.contains(v) && #[trigger] s.waits(v, a) implies t.serves(host, a) by {
        lemma_promote_gains(svc.endpoints, s.staged, svc.vips, a);
    }
    let (endpoints, staged) = promote(svc.endpoints, s.staged, svc.vips);
    lemma_promote(svc.endpoints, s.staged, svc.vips);
    let cleared = if s.by_host.contains_key(host) {
        s.by_vip.remove_keys(s.by_host[host].vips.to_set())
    } else {
        s.by_vip
    };
    assert(t.by_host[host] == svc.with_endpoints(endpoints));
    assert forall|h: NamespacedHostnameView| #[trigger] t.by_host.contains_key(h) implies t.by_host[h].host()
        == h by {
        if h != host {
            assert(s.by_host.contains_key(h));
        }
    }
    assert forall|v: NetworkAddressView| #[trigger] t.by_vip.contains_key(v) implies t.by_host.contains_key(
        t.by_vip[v],
    ) && t.by_host[t.by_vip[v]].vips.contains(v) by {
        if !svc.vips.contains(v) {
            assert(cleared.contains_key(v));
            assert(s.by_vip.contains_key(v));
            let h = s.by_vip[v];
            assert(s.by_host.contains_key(h) && s.by_host[h].vips.contains(v));
            if h == host {
                assert(s.by_host[host].vips.to_set().contains(v));
            }
        }
    }
    assert forall|v: NetworkAddressView| #[trigger] t.staged.contains_key(v) implies {
        &&& t.service_at(v) is None
        &&& t.staged[v] != Map::<NetworkAddressView, EndpointView>::empty()
        &&& forall|a: NetworkAddressView| #[trigger]
            t.staged[v].contains_key(a) ==> t.staged[v][a].address == a && t.staged[v][a].vip == v
    } by {
        assert(s.staged.contains_key(v) && !svc.vips.contains(v));
        assert(t.staged[v] == s.staged[v]);
        assert(s.service_at(v) is None);
        if t.by_vip.contains_key(v) {
            assert(s.by_vip.contains_key(v));
            assert(s.by_host.contains_key(s.by_vip[v]));
        }
    }
    assert forall|h: NamespacedHostnameView, a: NetworkAddressView|
        t.by_host.contains_key(h) && (#[trigger] t.by_host[h].endpoints.contains_key(
            a,
        )) implies t.by_host[h].endpoints[a].address == a by {
        if h == host {
            assert(endpoints.contains_key(a));
            if svc.endpoints.contains_key(a) && endpoints[a] == svc.endpoints[a] {
            } else {
                let v = choose|v: NetworkAddressView|
                    s.staged.contains_key(v) && #[trigger] s.staged[v].contains_key(a)
                        && endpoints[a] == s.staged[v][a];
                assert(s.staged[v][a].address == a);
            }
        } else {
            assert(s.by_host.contains_key(h) && s.by_host[h].endpoints.contains_key(a));
        }
    }
    assert forall|h: NamespacedHostnameView, a: NetworkAddressView|
        t.by_host.contains_key(h) && (#[trigger] t.by_host[h].endpoints.contains_key(
            a,
        )) implies t.by_host[h].vips.contains(t.by_host[h].endpoints[a].vip) by {
        if h == host {
            assert(endpoints.contains_key(a));
            if svc.endpoints.contains_key(a) && endpoints[a] == svc.endpoints[a] {
            } else {
                let v = choose|v: NetworkAddressView|
                    s.staged.contains_key(v) && #[trigger] s.staged[v].contains_key(a)
                        && endpoints[a] == s.staged[v][a];
                assert(s.staged[v][a].vip == v);
                lemma_promoted_from(svc.endpoints, s.staged, svc.vips, a);
            }
        } else {
            assert(s.by_host.contains_key(h) && s.by_host[h].endpoints.contains_key(a));
        }
    }
    assert forall|a: NetworkAddressView| #[trigger] t.has_endpoint(a) implies s.has_endpoint(a)
        || svc.endpoints.contains_key(a) by {
        if exists|h: NamespacedHostnameView| t.serves(h, a) {
            let h = choose|h: NamespacedHostnameView| t.serves(h, a);
            if h == host {
                assert(endpoints.contains_key(a));
                if !svc.endpoints.contains_key(a) {
                    let v = choose|v: NetworkAddressView|
                        s.staged.contains_key(v) && #[trigger] s.staged[v].contains_key(a);
                    assert(s.waits(v, a));
                }
            } else {
                assert(s.serves(h, a));
            }
        } else {
            let v = choose|v: NetworkAddressView| t.waits(v, a);
            assert(s.waits(v, a));
        }
    }
    if s.unshared() && s.free_for(host, svc.vips) {
        assert forall|h: NamespacedHostnameView, v: NetworkAddressView|
            t.by_host.contains_key(h) && (#[trigger] t.by_host[h].vips.contains(
                v,
            )) implies t.by_vip.contains_key(v) && t.by_vip[v] == h by {
            if h != host {
                assert(s.by_host.contains_key(h) && s.by_host[h].vips.contains(v));
                assert(s.by_vip.contains_key(v) && s.by_vip[v] == h);
                if svc.vips.contains(v) {
                    assert(s.by_vip[v] == host);
                }
                if s.by_host.contains_key(host) && s.by_host[host].vips.contains(v) {
                    assert(s.by_vip[v] == host);
                }
                assert(cleared.contains_key(v));
            }
        }
    }
}

/// A service that leaves takes its addresses with it; the store stays
/// sound, and it holds no endpoints but those it held.
pub proof fn law_remove_service_keeps(s: ServiceStoreView, host: NamespacedHostnameView)
    requires
        s.sound(),
    ensures
        s.without_service(host).sound(),
        s.unshared() ==> s.without_service(host).unshared(),
        forall|a: NetworkAddressView| #[trigger]
            s.without_service(host).has_endpoint(a) ==> s.has_endpoint(a),
        !s.without_service(host).by_host.contains_key(host),
{
    let t = s.without_service(host);
    if s.by_host.contains_key(host) {
        assert forall|v: NetworkAddressView| #[trigger] t.by_vip.contains_key(v) implies t.by_host.contains_key(
            t.by_vip[v],
        ) && t.by_host[t.by_vip[v]].vips.contains(v) by {
            assert(s.by_vip.contains_key(v));
            let h = s.by_vip[v];
            assert(s.by_host.contains_key(h) && s.by_host[h].vips.contains(v));
            if h == host {
                assert(s.by_host[host].vips.to_set().contains(v));
            }
        }
        assert forall|v: NetworkAddressView| #[trigger] t.staged.contains_key(v) implies {
            &&& t.service_at(v) is None
            &&& t.staged[v] != Map::<NetworkAddressView, EndpointView>::empty()
            &&& forall|a: NetworkAddressView| #[trigger]
                t.staged[v].contains_key(a) ==> t.staged[v][a].address == a && t.staged[v][a].vip
                    == v
        } by {
            assert(s.staged.contains_key(v));
            assert(s.service_at(v) is None);
            if t.by_vip.contains_key(v) {
                assert(s.by_vip.contains_key(v));
                assert(s.by_host.contains_key(s.by_vip[v]));
            }
        }
        assert forall|h: NamespacedHostnameView, a: NetworkAddressView|
            t.by_host.contains_key(h) && (#[trigger] t.by_host[h].endpoints.contains_key(
                a,
            )) implies t.by_host[h].endpoints[a].address == a by {
            assert(s.by_host.contains_key(h) && s.by_host[h].endpoints.contains_key(a));
        }
        assert forall|h: NamespacedHostnameView, a: NetworkAddressView|
            t.by_host.contains_key(h) && (#[trigger] t.by_host[h].endpoints.contains_key(
                a,
            )) implies t.by_host[h].vips.contains(t.by_host[h].endpoints[a].vip) by {
            assert(s.by_host.contains_key(h) && s.by_host[h].endpoints.contains_key(a));
        }
        assert forall|a: NetworkAddressView| #[trigger] t.has_endpoint(a) implies s.has_endpoint(
            a,
        ) by {
            if exists|h: NamespacedHostnameView| t.serves(h, a) {
                let h = choose|h: NamespacedHostnameView| t.serves(h, a);
                assert(s.serves(h, a));
            } else {
                let v = choose|v: NetworkAddressView| t.waits(v, a);
                assert(s.waits(v, a));
            }
        }
        if s.unshared() {
            assert forall|h: NamespacedHostnameView, v: NetworkAddressView|
                t.by_host.contains_key(h) && (#[trigger] t.by_host[h].vips.contains(
                    v,
                )) implies t.by_vip.contains_key(v) && t.by_vip[v] == h by {
                assert(s.by_host.contains_key(h) && s.by_host[h].vips.contains(v));
                assert(s.by_vip.contains_key(v) && s.by_vip[v] == h);
                if s.by_host[host].vips.contains(v) {
                    assert(s.by_vip[v] == host);
                }
            }
        }
    }
}

impl ProxyStateView {
    /// Every endpoint, serving or waiting, is backed by a healthy
    /// workload: the workload address of the endpoint leads to one.
    pub open spec fn backed(self) -> bool {
        forall|a: NetworkAddressView| #[trigger]
            self.services.has_endpoint(a) ==> self.workloads.by_addr.contains_key(a)
                && self.workloads.by_addr[a].status == HealthStatus::Healthy
    }

    /// The indices of the state agree with each other: workloads are
    /// found under their UID and under each of their addresses; services
    /// under their key and under each of their addresses; no waiting
    /// endpoint belongs to a known service; only healthy workloads have
    /// endpoints; policies are filed by scope.
    pub open spec fn consistent(self) -> bool {
        &&& self.workloads.keyed()
        &&& self.workloads.indexed()
        &&& self.workloads.filed_by_scope()
        &&& self.workloads.filed_exactly()
        &&& self.services.sound()
        &&& self.services.unshared()
        &&& self.backed()
    }
}

/// An address of a workload is one of its addresses by position.
pub proof fn lemma_address_position(w: WorkloadView, a: NetworkAddressView)
    ensures
        w.has_address(a) <==> exists|i: int|
            0 <= i < w.workload_ips.len() && #[trigger] w.address(i) == a,
{
    if w.has_address(a) {
        let i = choose|i: int| 0 <= i < w.workload_ips.len() && w.workload_ips[i] == a.address;
        assert(w.address(i) == a);
    }
    if exists|i: int| 0 <= i < w.workload_ips.len() && #[trigger] w.address(i) == a {
        let i = choose|i: int| 0 <= i < w.workload_ips.len() && #[trigger] w.address(i) == a;
        assert(w.workload_ips[i] == a.address);
    }
}

/// The endpoints of the first addresses of a workload leave: the
/// workloads stay, the services stay sound, and no endpoint of one of
/// those addresses is left.
pub proof fn lemma_without_endpoints(st: ProxyStateView, w: WorkloadView, n: int)
    requires
        st.services.sound(),
        0 <= n <= w.workload_ips.len(),
    ensures
        st.without_endpoints(w, n).workloads == st.workloads,
        st.without_endpoints(w, n).services.sound(),
        st.services.unshared() ==> st.without_endpoints(w, n).services.unshared(),
        st.without_endpoints(w, n).services.by_vip == st.services.by_vip,
        forall|a: NetworkAddressView| #[trigger]
            st.without_endpoints(w, n).services.has_endpoint(a) ==> st.services.has_endpoint(a),
        forall|i: int|
            0 <= i < n ==> !st.without_endpoints(w, n).services.has_endpoint(
                #[trigger] w.address(i),
            ),
    decreases n,
{
    if n > 0 {
        lemma_without_endpoints(st, w, n - 1);
        let s = st.without_endpoints(w, n - 1);
        law_remove_endpoint_keeps(s.services, w.address(n - 1));
    }
}

/// Endpoints arrive: the workloads stay, the services stay sound, and
/// every endpoint held afterwards was held before or is one of those that
/// arrived.
pub proof fn lemma_with_endpoints(st: ProxyStateView, eps: Seq<EndpointView>)
    requires
        st.services.sound(),
    ensures
        st.with_endpoints(eps).workloads == st.workloads,
        st.with_endpoints(eps).services.sound(),
        st.services.unshared() ==> st.with_endpoints(eps).services.unshared(),
        st.with_endpoints(eps).services.by_vip == st.services.by_vip,
        forall|a: NetworkAddressView| #[trigger]
            st.with_endpoints(eps).services.has_endpoint(a) ==> st.services.has_endpoint(a) || (
            exists|i: int| 0 <= i < eps.len() && (#[trigger] eps[i]).address == a),
    decreases eps.len(),
{
    if eps.len() > 0 {
        let first = ProxyStateView { services: st.services.with_endpoint(eps.last()), ..st };
        law_insert_endpoint_keeps(st.services, eps.last());
        lemma_with_endpoints(first, eps.drop_last());
        let t = st.with_endpoints(eps);
        assert forall|a: NetworkAddressView| #[trigger]
            t.services.has_endpoint(a) implies st.services.has_endpoint(a) || (exists|i: int|
            0 <= i < eps.len() && (#[trigger] eps[i]).address == a) by {
            if first.services.has_endpoint(a) {
                if !st.services.has_endpoint(a) {
                    assert(eps[eps.len() - 1].address == a);
                }
            } else {
                let i = choose|i: int|
                    0 <= i < eps.drop_last().len() && (#[trigger] eps.drop_last()[i]).address == a;
                assert(eps[i].address == a);
            }
        }
    }
}

/// The endpoints derived for a workload are endpoints of its addresses.
pub proof fn lemma_endpoints_of(
    w: WorkloadView,
    keys: Seq<Seq<char>>,
    ports: Map<Seq<char>, Seq<XdsPort>>,
)
    ensures
        endpoints_of(w, keys, ports) matches Ok(eps) ==> forall|i: int|
            0 <= i < eps.len() ==> w.has_address((#[trigger] eps[i]).address),
    decreases keys.len(),
{
    if keys.len() > 0 {
        lemma_endpoints_of(w, keys.drop_last(), ports);
        match endpoints_of(w, keys, ports) {
            Ok(eps) => {
                let front = endpoints_of(w, keys.drop_last(), ports)->Ok_0;
                let vip = vip_of(keys.last(), w.network)->Ok_0;
                let more = endpoints_behind(
                    w,
                    vip,
                    crate::discovery::port_map(ports[keys.last()]),
                    w.workload_ips.len() as int,
                );
                assert(eps == front + more);
                assert forall|i: int| 0 <= i < eps.len() implies w.has_address(
                    (#[trigger] eps[i]).address,
                ) by {
                    if i >= front.len() {
                        let j = i - front.len();
                        assert(eps[i] == more[j]);
                        assert(more[j].address == w.address(j));
                        lemma_address_position(w, w.address(j));
                    } else {
                        assert(eps[i] == front[i]);
                    }
                }
            },
            Err(_) => {},
        }
    }
}

/// The endpoints that a new service carries over are endpoints that the
/// store held, or its own; each is filed under its own address and is an
/// endpoint of an address of the new service.
pub proof fn lemma_carried(
    s: ServiceStoreView,
    endpoints: Endpoints,
    vips: Seq<NetworkAddressView>,
    all: Seq<NetworkAddressView>,
)
    requires
        s.filed_by_address(),
        self_filed(endpoints),
        all_named(endpoints, all),
    ensures
        self_filed(carried(s, endpoints, vips, all)),
        all_named(carried(s, endpoints, vips, all), all),
        forall|a: NetworkAddressView| #[trigger]
            carried(s, endpoints, vips, all).contains_key(a) ==> endpoints.contains_key(a)
                || s.has_endpoint(a),
    decreases vips.len(),
{
    if vips.len() > 0 {
        lemma_carried(s, endpoints, vips.drop_last(), all);
        let e = carried(s, endpoints, vips.drop_last(), all);
        let c = carried(s, endpoints, vips, all);
        match s.service_at(vips.last()) {
            Some(prev) => {
                let h = s.by_vip[vips.last()];
                let k = kept(prev.endpoints, all);
                assert forall|a: NetworkAddressView| #[trigger] c.contains_key(a) implies c[a].address
                    == a && all.contains(c[a].vip) && (endpoints.contains_key(a)
                    || s.has_endpoint(a)) by {
                    if k.contains_key(a) {
                        assert(s.by_host.contains_key(h) && s.by_host[h].endpoints.contains_key(a));
                        assert(s.serves(h, a));
                    } else {
                        assert(e.contains_key(a));
                    }
                }
            },
            None => {},
        }
    }
}

/// The empty state is consistent.
pub proof fn law_empty_consistent()
    ensures
        ProxyStateView::empty().consistent(),
{
    let st = ProxyStateView::empty();
    assert forall|a: NetworkAddressView| !(#[trigger] st.services.has_endpoint(a)) by {
        if exists|h: NamespacedHostnameView| st.services.serves(h, a) {
            let h = choose|h: NamespacedHostnameView| st.services.serves(h, a);
        } else if exists|v: NetworkAddressView| st.services.waits(v, a) {
            let v = choose|v: NetworkAddressView| st.services.waits(v, a);
        }
    }
}

/// A removal keeps the state consistent, whatever key it names.
pub proof fn law_remove_keeps(st: ProxyStateView, name: Seq<char>)
    requires
        st.consistent(),
    ensures
        st.removed(name).consistent(),
        !st.removed(name).workloads.by_uid.contains_key(name),
        forall|a: NetworkAddressView|
            st.workloads.by_uid.contains_key(name) && (
            #[trigger] st.workloads.by_uid[name].has_address(a)) ==> !st.removed(
                name,
            ).workloads.by_addr.contains_key(a),
        forall|a: NetworkAddressView| #[trigger]
            st.removed(name).workloads.by_addr.contains_key(a) ==> st.workloads.by_addr.contains_key(
                a,
            ) && st.removed(name).workloads.by_addr[a] == st.workloads.by_addr[a],
        st.removed(name).services.by_vip.submap_of(st.services.by_vip),
{
    let t = st.removed(name);
    if st.workloads.by_uid.contains_key(name) {
        let prev = st.workloads.by_uid[name];
        let mid = ProxyStateView { workloads: st.workloads.without_workload(name), ..st };
        law_remove_workload_keeps(st.workloads, name);
        lemma_without_endpoints(mid, prev, prev.workload_ips.len() as int);
        assert forall|a: NetworkAddressView| #[trigger]
            t.services.has_endpoint(a) implies t.workloads.by_addr.contains_key(a)
            && t.workloads.by_addr[a].status == HealthStatus::Healthy by {
            assert(st.services.has_endpoint(a));
            lemma_address_position(prev, a);
            lemma_has_address(prev, a);
        }
        assert forall|a: NetworkAddressView| #[trigger]
            t.workloads.by_addr.contains_key(a) implies st.workloads.by_addr.contains_key(a)
            && t.workloads.by_addr[a] == st.workloads.by_addr[a] by {
            lemma_has_address(prev, a);
        }
    } else {
        match service_key(name) {
            Some(host) => {
                law_remove_service_keeps(st.services, host);
            },
            None => {},
        }
    }
}

/// The upsert of a workload keeps the state consistent, where no other
/// workload owns one of its addresses. This holds whether the upsert is
/// accepted or refused.
pub proof fn law_upsert_workload_keeps(st: ProxyStateView, x: XdsWorkload)
    requires
        st.consistent(),
        workload_of(x) matches Ok(w) ==> st.workloads.free_for(w),
    ensures
        st.upserted_workload(x).0.consistent(),
{
    match workload_of(x) {
        Err(_) => {},
        Ok(w) => {
            let cleared = st.removed(x.uid@);
            law_remove_keeps(st, x.uid@);
            let eps = if w.status == HealthStatus::Healthy {
                endpoints_of(w, x.virtual_ips.keys(), x.virtual_ips@)
            } else {
                Ok(Seq::empty())
            };
            match eps {
                Err(_) => {},
                Ok(eps) => {
                    lemma_endpoints_of(w, x.virtual_ips.keys(), x.virtual_ips@);
                    lemma_stored_workload_keeps(st, cleared, w, eps);
                },
            }
        },
    }
}

proof fn lemma_stored_workload_keeps(
    st: ProxyStateView,
    cleared: ProxyStateView,
    w: WorkloadView,
    eps: Seq<EndpointView>,
)
    requires
        st.consistent(),
        st.workloads.free_for(w),
        cleared == st.removed(w.uid) || cleared == st.forgotten(w.uid),
        forall|i: int| 0 <= i < eps.len() ==> w.has_address((#[trigger] eps[i]).address),
        w.status != HealthStatus::Healthy ==> eps.len() == 0,
    ensures
        cleared.with_workload(w, eps).consistent(),
        forall|a: NetworkAddressView| #[trigger]
            w.has_address(a) ==> cleared.with_workload(w, eps).workloads.by_addr.contains_key(a)
                && cleared.with_workload(w, eps).workloads.by_addr[a] == w,
        w.status != HealthStatus::Healthy ==> forall|a: NetworkAddressView| #[trigger]
            w.has_address(a) ==> !cleared.with_workload(w, eps).services.has_endpoint(a),
{
    law_remove_keeps(st, w.uid);
    let stored = ProxyStateView { workloads: cleared.workloads.with_workload(w), ..cleared };
    let t = cleared.with_workload(w, eps);
    assert(cleared.workloads.free_for(w)) by {
        assert forall|a: NetworkAddressView|
            (#[trigger] w.has_address(a)) && cleared.workloads.by_addr.contains_key(
                a,
            ) implies cleared.workloads.by_addr[a].uid == w.uid by {
            assert(st.workloads.by_addr.contains_key(a));
        }
    }
    assert forall|a: NetworkAddressView| #[trigger] w.has_address(a) implies !cleared.workloads.by_addr.contains_key(
        a,
    ) by {
        if cleared.workloads.by_addr.contains_key(a) {
            let o = cleared.workloads.by_addr[a];
            assert(o.uid == w.uid);
            assert(cleared.workloads.by_uid.contains_key(o.uid));
        }
    }
    law_insert_workload_keeps(cleared.workloads, w);
    lemma_with_endpoints(stored, eps);
    assert forall|a: NetworkAddressView| #[trigger] stored.workloads.by_addr.contains_key(a)
        && !w.has_address(a) implies cleared.workloads.by_addr.contains_key(a)
        && stored.workloads.by_addr[a] == cleared.workloads.by_addr[a] by {
        lemma_has_address(w, a);
        assert(cleared.workloads.without_workload(w.uid) == cleared.workloads);
    }
    assert forall|a: NetworkAddressView| #[trigger]
        t.services.has_endpoint(a) implies t.workloads.by_addr.contains_key(a)
        && t.workloads.by_addr[a].status == HealthStatus::Healthy by {
        if cleared.services.has_endpoint(a) {
            assert(cleared.workloads.by_addr.contains_key(a));
            assert(!w.has_address(a));
            lemma_has_address(w, a);
            assert(cleared.workloads.without_workload(w.uid) == cleared.workloads);
            assert(stored.workloads.by_addr.contains_key(a));
        } else {
            let i = choose|i: int| 0 <= i < eps.len() && (#[trigger] eps[i]).address == a;
            assert(w.has_address(eps[i].address));
        }
    }
    if w.status != HealthStatus::Healthy {
        assert forall|a: NetworkAddressView| #[trigger] w.has_address(a) implies !t.services.has_endpoint(
            a,
        ) by {
            if t.services.has_endpoint(a) {
                assert(cleared.services.has_endpoint(a));
            }
        }
    }
}

/// The upsert of a service keeps the state consistent, where no other
/// service owns one of its addresses. This holds whether the upsert is
/// accepted or refused.
pub proof fn law_upsert_service_keeps(st: ProxyStateView, x: XdsService)
    requires
        st.consistent(),
        service_of(x) matches Ok(svc) ==> st.services.free_for(svc.host(), svc.vips),
    ensures
        st.upserted_service(x).0.consistent(),
{
    match service_of(x) {
        Err(_) => {},
        Ok(svc) => {
            let e = carried(st.services, svc.endpoints, svc.vips, svc.vips);
            assert(svc.endpoints =~= Map::<NetworkAddressView, EndpointView>::empty());
            lemma_carried(st.services, svc.endpoints, svc.vips, svc.vips);
            law_insert_service_keeps(st.services, svc.with_endpoints(e));
        },
    }
}

/// An unhealthy workload serves nowhere, yet its addresses lead to it:
/// in a consistent state no endpoint, serving or waiting, has the address
/// of an unhealthy workload.
pub proof fn law_unhealthy_serves_nowhere(st: ProxyStateView, a: NetworkAddressView)
    requires
        st.consistent(),
        st.workload_at(a) matches Some(w) && w.status == HealthStatus::Unhealthy,
    ensures
        !st.services.has_endpoint(a),
        forall|h: NamespacedHostnameView|
            st.services.by_host.contains_key(h) ==> !(
            #[trigger] st.services.by_host[h]).endpoints.contains_key(a),
{
    assert forall|h: NamespacedHostnameView| st.services.by_host.contains_key(h) implies !(
    #[trigger] st.services.by_host[h]).endpoints.contains_key(a) by {
        if st.services.by_host[h].endpoints.contains_key(a) {
            assert(st.services.serves(h, a));
            assert(st.services.has_endpoint(a));
        }
    }
}

/// In a consistent state the endpoints of a service are those of healthy
/// workloads only: whichever endpoint of the service that owns `v` is
/// drawn, a workload owns its address and is healthy, and the upstream
/// through that endpoint is this workload.
pub proof fn law_upstream_is_healthy(
    st: ProxyStateView,
    v: NetworkAddressView,
    port: u16,
    hbone_port: u16,
    e: NetworkAddressView,
)
    requires
        st.consistent(),
        st.services.service_at(v) matches Some(svc) && svc.ports.contains_key(port)
            && svc.endpoints.contains_key(e),
    ensures
        st.workload_at(e) matches Some(w) && w.status == HealthStatus::Healthy,
        st.through(st.services.service_at(v)->Some_0, port, hbone_port, e) matches Some(u)
            && u.workload.uid == st.workload_at(e)->Some_0.uid && u.workload.status
            == HealthStatus::Healthy,
{
    let h = st.services.by_vip[v];
    assert(st.services.serves(h, e));
    assert(st.services.has_endpoint(e));
}

/// An unhealthy workload that is taken in is found under each of its
/// addresses and has no endpoint, where no other workload owns one of its
/// addresses.
pub proof fn law_unhealthy_upsert(st: ProxyStateView, x: XdsWorkload)
    requires
        st.consistent(),
        workload_of(x) matches Ok(w) && w.status == HealthStatus::Unhealthy
            && st.workloads.free_for(w),
    ensures
        st.upserted_workload(x).1 is Ok,
        forall|a: NetworkAddressView| #[trigger]
            workload_of(x)->Ok_0.has_address(a) ==> st.upserted_workload(x).0.workload_at(a)
                == Some(workload_of(x)->Ok_0) && !st.upserted_workload(
                x,
            ).0.services.has_endpoint(a),
{
    let w = workload_of(x)->Ok_0;
    lemma_stored_workload_keeps(st, st.removed(x.uid@), w, Seq::empty());
}

/// An update that is refused changes nothing: after the refused upsert
/// of a workload, a service, an address or a policy the state is the
/// state before it, so that what was known under the key of the update,
/// and every endpoint, is still in place.
pub proof fn law_refused_upsert_changes_nothing(
    st: ProxyStateView,
    w: XdsWorkload,
    s: XdsService,
    a: XdsAddress,
    p: XdsAuthorization,
)
    ensures
        st.upserted_workload(w).1 is Err ==> st.upserted_workload(w).0 == st,
        st.upserted_service(s).1 is Err ==> st.upserted_service(s).0 == st,
        st.upserted_address(a).1 is Err ==> st.upserted_address(a).0 == st,
        st.upserted_authorization(p).1 is Err ==> st.upserted_authorization(p).0 == st,
{
}

/// The endpoints of a workload of a local configuration are endpoints of
/// its addresses.
proof fn lemma_local_endpoints_of(
    w: WorkloadView,
    keys: Seq<Seq<char>>,
    ports: Map<Seq<char>, Map<u16, u16>>,
)
    ensures
        local_endpoints_of(w, keys, ports) matches Ok(eps) ==> forall|i: int|
            0 <= i < eps.len() ==> w.has_address((#[trigger] eps[i]).address),
    decreases keys.len(),
{
    if keys.len() > 0 {
        lemma_local_endpoints_of(w, keys.drop_last(), ports);
        match local_endpoints_of(w, keys, ports) {
            Ok(eps) => {
                let front = local_endpoints_of(w, keys.drop_last(), ports)->Ok_0;
                let vip = vip_of(keys.last(), w.network)->Ok_0;
                let more = endpoints_behind(
                    w,
                    vip,
                    ports[keys.last()],
                    w.workload_ips.len() as int,
                );
                assert(eps == front + more);
                assert forall|i: int| 0 <= i < eps.len() implies w.has_address(
                    (#[trigger] eps[i]).address,
                ) by {
                    if i >= front.len() {
                        let j = i - front.len();
                        assert(eps[i] == more[j]);
                        assert(more[j].address == w.address(j));
                        lemma_address_position(w, w.address(j));
                    } else {
                        assert(eps[i] == front[i]);
                    }
                }
            },
            Err(_) => {},
        }
    }
}

/// A workload of a local configuration that is taken in keeps the state
/// consistent, where no other workload owns one of its addresses, whether
/// it is accepted or refused. Once accepted it is found under each of its
/// addresses, and an unhealthy one has no endpoint.
pub proof fn law_local_workload_keeps(st: ProxyStateView, lw: LocalWorkload)
    requires
        st.consistent(),
        st.workloads.free_for(lw.workload@),
    ensures
        st.with_local_workload(lw).0.consistent(),
        st.with_local_workload(lw).1 is Err ==> st.with_local_workload(lw).0 == st,
        st.with_local_workload(lw).1 is Ok ==> forall|a: NetworkAddressView| #[trigger]
            lw.workload@.has_address(a) ==> st.with_local_workload(lw).0.workload_at(a) == Some(
                lw.workload@,
            ),
        lw.workload@.status == HealthStatus::Unhealthy ==> st.with_local_workload(lw).1 is Ok
            && forall|a: NetworkAddressView| #[trigger]
            lw.workload@.has_address(a) ==> !st.with_local_workload(lw).0.services.has_endpoint(a),
{
    let w = lw.workload@;
    match local_derived(lw) {
        Err(_) => {},
        Ok(eps) => {
            if w.status == HealthStatus::Healthy {
                lemma_local_endpoints_of(w, lw.vips.keys(), lw.vips@);
            }
            lemma_stored_workload_keeps(st, st.forgotten(w.uid), w, eps);
        },
    }
}

/// A service of a local configuration that is stored keeps the state
/// consistent, where it fits the state.
pub proof fn law_local_service_keeps(st: ProxyStateView, svc: ServiceView)
    requires
        st.consistent(),
        fits(st, svc),
    ensures
        (ProxyStateView { services: st.services.with_service(svc), ..st }).consistent(),
{
    law_insert_service_keeps(st.services, svc);
}

/// Whether the service can be stored as it is: no other service owns one
/// of its addresses, and each endpoint that it brings is filed under its
/// own address, is an endpoint of one of its addresses, and is that of a
/// healthy workload of the state.
pub open spec fn fits(st: ProxyStateView, svc: ServiceView) -> bool {
    &&& st.services.free_for(svc.host(), svc.vips)
    &&& self_filed(svc.endpoints)
    &&& all_named(svc.endpoints, svc.vips)
    &&& forall|a: NetworkAddressView| #[trigger]
        svc.endpoints.contains_key(a) ==> st.workloads.by_addr.contains_key(a)
            && st.workloads.by_addr[a].status == HealthStatus::Healthy
}

/// The workloads of a local configuration keep the state consistent,
/// where each arrives in a state in which no other workload owns one of
/// its addresses.
pub proof fn law_local_workloads_keep(st: ProxyStateView, ws: Seq<LocalWorkload>)
    requires
        st.consistent(),
        forall|i: int|
            0 <= i < ws.len() ==> st.with_local_workloads(ws.take(i)).0.workloads.free_for(
                (#[trigger] ws[i]).workload@,
            ),
    ensures
        st.with_local_workloads(ws).0.consistent(),
    decreases ws.len(),
{
    if ws.len() > 0 {
        let front = ws.drop_last();
        assert forall|i: int| 0 <= i < front.len() implies st.with_local_workloads(
            front.take(i),
        ).0.workloads.free_for((#[trigger] front[i]).workload@) by {
            assert(front.take(i) =~= ws.take(i));
            assert(front[i] == ws[i]);
        }
        law_local_workloads_keep(st, front);
        assert(ws.take(ws.len() - 1) =~= front);
        assert(ws[ws.len() - 1] == ws.last());
        let (t, r) = st.with_local_workloads(front);
        if r is Ok {
            law_local_workload_keeps(t, ws.last());
        }
    }
}

/// The policies of a local configuration keep the state consistent.
pub proof fn law_local_policies_keep(st: ProxyStateView, ps: Seq<AuthorizationView>)
    requires
        st.consistent(),
    ensures
        st.with_policies(ps).consistent(),
        st.with_policies(ps).services == st.services,
        st.with_policies(ps).workloads.by_addr == st.workloads.by_addr,
    decreases ps.len(),
{
    if ps.len() > 0 {
        law_local_policies_keep(st, ps.drop_last());
        let t = st.with_policies(ps.drop_last());
        law_policy_keeps(t, ps.last(), ps.last().key());
        law_insert_policy_keeps(t.workloads, ps.last());
    }
}

/// The services of a local configuration keep the state consistent,
/// where each fits the state in which it is stored.
pub proof fn law_local_services_keep(st: ProxyStateView, ss: Seq<ServiceView>)
    requires
        st.consistent(),
        forall|k: int| 0 <= k < ss.len() ==> fits(st.with_services(ss.take(k)), #[trigger] ss[k]),
    ensures
        st.with_services(ss).consistent(),
    decreases ss.len(),
{
    if ss.len() > 0 {
        let front = ss.drop_last();
        assert forall|k: int| 0 <= k < front.len() implies fits(
            st.with_services(front.take(k)),
            #[trigger] front[k],
        ) by {
            assert(front.take(k) =~= ss.take(k));
            assert(front[k] == ss[k]);
        }
        law_local_services_keep(st, front);
        assert(ss.take(ss.len() - 1) =~= front);
        assert(ss[ss.len() - 1] == ss.last());
        law_local_service_keeps(st.with_services(front), ss.last());
    }
}

/// A local configuration that is taken in keeps the state consistent,
/// whether it is taken in whole or fails at a workload, where each
/// workload arrives in a state in which no other workload owns one of its
/// addresses, and each service fits the state in which it is stored.
pub proof fn law_local_config_keeps(st: ProxyStateView, cfg: LocalConfig)
    requires
        st.consistent(),
        forall|i: int|
            0 <= i < cfg.workloads@.len() ==> st.with_local_workloads(
                cfg.workloads@.take(i),
            ).0.workloads.free_for((#[trigger] cfg.workloads@[i]).workload@),
        st.with_local_workloads(cfg.workloads@).1 is Ok ==> forall|k: int|
            0 <= k < cfg.services@.len() ==> fits(
                st.with_local_workloads(cfg.workloads@).0.with_policies(
                    policies_view(cfg.policies@),
                ).with_services(services_view(cfg.services@).take(k)),
                #[trigger] services_view(cfg.services@)[k],
            ),
    ensures
        st.with_local_config(cfg).0.consistent(),
{
    law_local_workloads_keep(st, cfg.workloads@);
    let (loaded, r) = st.with_local_workloads(cfg.workloads@);
    if r is Ok {
        law_local_policies_keep(loaded, policies_view(cfg.policies@));
        law_local_services_keep(
            loaded.with_policies(policies_view(cfg.policies@)),
            services_view(cfg.services@),
        );
    }
}

/// The service store without any endpoint whose workload address is in
/// `gone`; a waiting list that becomes empty is dropped.
pub open spec fn stripped(s: ServiceStoreView, gone: Set<NetworkAddressView>) -> ServiceStoreView {
    ServiceStoreView {
        staged: Map::new(
            |v: NetworkAddressView|
                s.staged.contains_key(v) && s.staged[v].remove_keys(gone) != Map::<
                    NetworkAddressView,
                    EndpointView,
                >::empty(),
            |v: NetworkAddressView| s.staged[v].remove_keys(gone),
        ),
        by_host: s.by_host.map_values(
            |svc: ServiceView| svc.with_endpoints(svc.endpoints.remove_keys(gone)),
        ),
        ..s
    }
}

/// The first `n` addresses of a workload, as a set.
pub open spec fn first_addresses(w: WorkloadView, n: int) -> Set<NetworkAddressView> {
    Set::new(|a: NetworkAddressView| exists|i: int| 0 <= i < n && #[trigger] w.address(i) == a)
}

/// Stripping one more address is removing its endpoints.
proof fn lemma_strip_one(
    s: ServiceStoreView,
    gone: Set<NetworkAddressView>,
    addr: NetworkAddressView,
)
    ensures
        stripped(s, gone).without_endpoint(addr) == stripped(s, gone.insert(addr)),
{
    let a = stripped(s, gone).without_endpoint(addr);
    let b = stripped(s, gone.insert(addr));
    assert forall|h: NamespacedHostnameView| #[trigger] a.by_host.contains_key(h) implies a.by_host[h]
        == b.by_host[h] by {
        let e = s.by_host[h].endpoints;
        assert(e.remove_keys(gone).remove(addr) =~= e.remove_keys(gone.insert(addr)));
    }
    assert(a.by_host =~= b.by_host);
    assert forall|v: NetworkAddressView| s.staged.contains_key(v) implies s.staged[v].remove_keys(
        gone,
    ).remove(addr) == #[trigger] s.staged[v].remove_keys(gone.insert(addr)) by {
        assert(s.staged[v].remove_keys(gone).remove(addr) =~= s.staged[v].remove_keys(
            gone.insert(addr),
        ));
    }
    assert forall|v: NetworkAddressView| a.staged.contains_key(v) <==> b.staged.contains_key(v) by {
        if s.staged.contains_key(v) {
            let m = s.staged[v].remove_keys(gone);
            assert(m.remove(addr) == s.staged[v].remove_keys(gone.insert(addr)));
            if m == Map::<NetworkAddressView, EndpointView>::empty() {
                assert(m.remove(addr) =~= Map::<NetworkAddressView, EndpointView>::empty());
            }
        }
    }
    assert forall|v: NetworkAddressView| #[trigger] a.staged.contains_key(v) implies a.staged[v]
        == b.staged[v] by {
        assert(s.staged.contains_key(v));
    }
    assert(a.staged =~= b.staged);
}

/// Removing the endpoints of the first addresses of a workload strips them.
proof fn lemma_without_endpoints_strips(st: ProxyStateView, w: WorkloadView, n: int)
    requires
        0 <= n <= w.workload_ips.len(),
        st.services == stripped(st.services, Set::empty()),
    ensures
        st.without_endpoints(w, n).services == stripped(st.services, first_addresses(w, n)),
        st.without_endpoints(w, n).workloads == st.workloads,
    decreases n,
{
    if n > 0 {
        lemma_without_endpoints_strips(st, w, n - 1);
        lemma_strip_one(st.services, first_addresses(w, n - 1), w.address(n - 1));
        assert(first_addresses(w, n - 1).insert(w.address(n - 1)) =~= first_addresses(w, n)) by {
            assert forall|a: NetworkAddressView|
                first_addresses(w, n).contains(a) implies first_addresses(w, n - 1).insert(
                w.address(n - 1),
            ).contains(a) by {
                let i = choose|i: int| 0 <= i < n && #[trigger] w.address(i) == a;
                if i < n - 1 {
                    assert(first_addresses(w, n - 1).contains(a));
                }
            }
            assert forall|a: NetworkAddressView|
                first_addresses(w, n - 1).insert(w.address(n - 1)).contains(
                    a,
                ) implies first_addresses(w, n).contains(a) by {
                if a == w.address(n - 1) {
                } else {
                    let i = choose|i: int| 0 <= i < n - 1 && #[trigger] w.address(i) == a;
                    assert(0 <= i < n && w.address(i) == a);
                }
            }
        }
    } else {
        assert(first_addresses(w, 0) =~= Set::<NetworkAddressView>::empty());
    }
}

/// An endpoint that arrives and is stripped again leaves no trace.
proof fn lemma_strip_arrival(s: ServiceStoreView, ep: EndpointView, gone: Set<NetworkAddressView>)
    requires
        gone.contains(ep.address),
    ensures
        stripped(s.with_endpoint(ep), gone) == stripped(s, gone),
{
    let t = s.with_endpoint(ep);
    let a = stripped(t, gone);
    let b = stripped(s, gone);
    if s.service_at(ep.vip) is Some {
        let host = s.by_vip[ep.vip];
        assert forall|h: NamespacedHostnameView| #[trigger] a.by_host.contains_key(h) implies a.by_host[h]
            == b.by_host[h] by {
            if h == host {
                let e = s.by_host[h].endpoints;
                assert(e.insert(ep.address, ep).remove_keys(gone) =~= e.remove_keys(gone));
            }
        }
        assert(a.by_host =~= b.by_host);
        assert(a.staged =~= b.staged);
    } else {
        let waiting = if s.staged.contains_key(ep.vip) {
            s.staged[ep.vip]
        } else {
            Map::empty()
        };
        assert(waiting.insert(ep.address, ep).remove_keys(gone) =~= waiting.remove_keys(gone));
        if !s.staged.contains_key(ep.vip) {
            assert(waiting.remove_keys(gone) =~= Map::<NetworkAddressView, EndpointView>::empty());
        }
        assert forall|v: NetworkAddressView| a.staged.contains_key(v) <==> b.staged.contains_key(
            v,
        ) by {}
        assert(a.staged =~= b.staged);
        assert(a.by_host =~= b.by_host);
    }
}

/// Endpoints that arrive and are stripped again leave no trace.
proof fn lemma_strip_arrivals(
    st: ProxyStateView,
    eps: Seq<EndpointView>,
    gone: Set<NetworkAddressView>,
)
    requires
        forall|i: int| 0 <= i < eps.len() ==> gone.contains((#[trigger] eps[i]).address),
    ensures
        stripped(st.with_endpoints(eps).services, gone) == stripped(st.services, gone),
        st.with_endpoints(eps).workloads == st.workloads,
    decreases eps.len(),
{
    if eps.len() > 0 {
        let first = ProxyStateView { services: st.services.with_endpoint(eps.last()), ..st };
        lemma_strip_arrival(st.services, eps.last(), gone);
        assert forall|i: int| 0 <= i < eps.drop_last().len() implies gone.contains(
            (#[trigger] eps.drop_last()[i]).address,
        ) by {
            assert(eps.drop_last()[i] == eps[i]);
        }
        lemma_strip_arrivals(first, eps.drop_last(), gone);
    }
}

/// Stripping addresses that have no endpoints changes nothing.
proof fn lemma_strip_nothing(s: ServiceStoreView, gone: Set<NetworkAddressView>)
    requires
        s.settled(),
        forall|a: NetworkAddressView| gone.contains(a) ==> !s.has_endpoint(a),
    ensures
        stripped(s, gone) == s,
{
    let t = stripped(s, gone);
    assert forall|h: NamespacedHostnameView| #[trigger] s.by_host.contains_key(h) implies t.by_host[h]
        == s.by_host[h] by {
        let e = s.by_host[h].endpoints;
        assert forall|a: NetworkAddressView| e.contains_key(a) implies !gone.contains(a) by {
            assert(s.serves(h, a));
        }
        assert(e.remove_keys(gone) =~= e);
    }
    assert(t.by_host =~= s.by_host);
    assert forall|v: NetworkAddressView| #[trigger] s.staged.contains_key(v) implies s.staged[v].remove_keys(
        gone,
    ) == s.staged[v] by {
        let e = s.staged[v];
        assert forall|a: NetworkAddressView| e.contains_key(a) implies !gone.contains(a) by {
            assert(s.waits(v, a));
        }
        assert(e.remove_keys(gone) =~= e);
    }
    assert(t.staged =~= s.staged);
}

/// A workload that is new to the state, taken in and removed again,
/// leaves the state as it was: nothing was known under its UID or under
/// any of its addresses, its UID is not the key of a service, and so it
/// is afterwards.
pub proof fn law_upsert_then_remove(st: ProxyStateView, x: XdsWorkload)
    requires
        st.consistent(),
        st.upserted_workload(x).1 is Ok,
        !st.workloads.by_uid.contains_key(x.uid@),
        service_key(x.uid@) matches Some(host) ==> !st.services.by_host.contains_key(host),
        forall|a: NetworkAddressView| #[trigger]
            (workload_of(x)->Ok_0).has_address(a) ==> !st.workloads.by_addr.contains_key(a),
    ensures
        st.upserted_workload(x).0.removed(x.uid@) == st,
{
    let w = workload_of(x)->Ok_0;
    let uid = x.uid@;
    assert(st.removed(uid) == st);
    let eps = if w.status == HealthStatus::Healthy {
        endpoints_of(w, x.virtual_ips.keys(), x.virtual_ips@)->Ok_0
    } else {
        Seq::empty()
    };
    let stored = ProxyStateView { workloads: st.workloads.with_workload(w), ..st };
    let t = st.upserted_workload(x).0;
    assert(t == stored.with_endpoints(eps));
    let n = w.workload_ips.len() as int;
    let gone = first_addresses(w, n);
    assert forall|a: NetworkAddressView| gone.contains(a) <==> w.has_address(a) by {
        lemma_address_position(w, a);
    }
    if w.status == HealthStatus::Healthy {
        lemma_endpoints_of(w, x.virtual_ips.keys(), x.virtual_ips@);
    }
    lemma_strip_arrivals(stored, eps, gone);
    law_insert_workload_keeps(st.workloads, w);
    law_insert_then_remove(st.workloads, w);
    assert forall|a: NetworkAddressView| gone.contains(a) implies !st.services.has_endpoint(a) by {
        if st.services.has_endpoint(a) {
            assert(st.workloads.by_addr.contains_key(a));
        }
    }
    lemma_strip_nothing(st.services, gone);
    let mid = ProxyStateView { workloads: t.workloads.without_workload(uid), ..t };
    lemma_with_endpoints(stored, eps);
    lemma_strip_nothing_at_all(t.services);
    lemma_without_endpoints_strips(mid, w, n);
    assert(t.workloads.by_uid[uid] == w);
}

/// Stripping no address changes nothing, in a settled store.
proof fn lemma_strip_nothing_at_all(s: ServiceStoreView)
    requires
        s.settled(),
    ensures
        stripped(s, Set::empty()) == s,
{
    lemma_strip_nothing(s, Set::empty());
}

/// Storing and removing policies keeps the state consistent.
pub proof fn law_policy_keeps(st: ProxyStateView, p: AuthorizationView, key: Seq<char>)
    requires
        st.consistent(),
    ensures
        st.with_policy(p).consistent(),
        st.without_policy(key).consistent(),
{
    law_insert_policy_keeps(st.workloads, p);
    law_remove_policy_keeps(st.workloads, key);
    assert(st.with_policy(p).services == st.services);
    assert(st.without_policy(key).services == st.services);
    assert(st.with_policy(p).workloads.by_addr == st.workloads.by_addr);
    assert(st.without_policy(key).workloads.by_addr == st.workloads.by_addr);
}

/// The upsert of a policy keeps the state consistent, whether it is
/// accepted or refused.
pub proof fn law_upsert_authorization_keeps(st: ProxyStateView, x: XdsAuthorization)
    requires
        st.consistent(),
    ensures
        st.upserted_authorization(x).0.consistent(),
{
    match crate::policy::authorization_of(x) {
        Ok(p) => {
            law_policy_keeps(st, p, Seq::empty());
        },
        Err(_) => {},
    }
}

/// The upsert of an address keeps the state consistent, where no other
/// workload or service owns one of the addresses that it brings.
pub proof fn law_upsert_address_keeps(st: ProxyStateView, a: XdsAddress)
    requires
        st.consistent(),
        a.address_type matches Some(XdsType::Workload(x)) ==> (workload_of(x) matches Ok(w)
            ==> st.workloads.free_for(w)),
        a.address_type matches Some(XdsType::Service(x)) ==> (service_of(x) matches Ok(svc)
            ==> st.services.free_for(svc.host(), svc.vips)),
    ensures
        st.upserted_address(a).0.consistent(),
{
    match a.address_type {
        Some(XdsType::Workload(x)) => {
            law_upsert_workload_keeps(st, x);
        },
        Some(XdsType::Service(x)) => {
            law_upsert_service_keeps(st, x);
        },
        None => {},
    }
}

/// Whether the workload update brings no address that another owns in `st`.
pub open spec fn workload_update_fits(st: ProxyStateView, u: XdsUpdate<XdsWorkload>) -> bool {
    match u {
        XdsUpdate::Update(x) => workload_of(x.resource) matches Ok(w) ==> st.workloads.free_for(w),
        XdsUpdate::Remove(_) => true,
    }
}

/// A batch of workload updates keeps the state consistent after each of
/// its updates, refused or not, where each update brings no address
/// that another owns in the state that it arrives in.
pub proof fn law_workload_batch_keeps(st: ProxyStateView, updates: Seq<XdsUpdate<XdsWorkload>>, n: int)
    requires
        st.consistent(),
        0 <= n <= updates.len(),
        forall|i: int|
            0 <= i < updates.len() ==> workload_update_fits(
                handled(st, updates.take(i), workload_steps()).0,
                #[trigger] updates[i],
            ),
    ensures
        handled(st, updates.take(n), workload_steps()).0.consistent(),
    decreases n,
{
    if n == 0 {
        assert(updates.take(0).len() == 0);
    } else {
        law_workload_batch_keeps(st, updates, n - 1);
        lemma_handled_step(st, updates, workload_steps(), n - 1);
        let before = handled(st, updates.take(n - 1), workload_steps()).0;
        assert(workload_steps()(before, updates[n - 1]) == workload_step(before, updates[n - 1]));
        assert(workload_update_fits(before, updates[n - 1]));
        match updates[n - 1] {
            XdsUpdate::Update(x) => {
                law_upsert_workload_keeps(before, x.resource);
            },
            XdsUpdate::Remove(name) => {
                law_remove_keeps(before, name@);
            },
        }
    }
}

/// Whether the address update brings no address that another owns in `st`.
pub open spec fn address_update_fits(st: ProxyStateView, u: XdsUpdate<XdsAddress>) -> bool {
    match u {
        XdsUpdate::Update(x) => match x.resource.address_type {
            Some(XdsType::Workload(w)) => workload_of(w) matches Ok(w) ==> st.workloads.free_for(w),
            Some(XdsType::Service(v)) => service_of(v) matches Ok(svc) ==> st.services.free_for(
                svc.host(),
                svc.vips,
            ),
            None => true,
        },
        XdsUpdate::Remove(_) => true,
    }
}

/// A batch of address updates keeps the state consistent after each of
/// its updates, refused or not, where each update brings no address
/// that another owns in the state that it arrives in.
pub proof fn law_address_batch_keeps(st: ProxyStateView, updates: Seq<XdsUpdate<XdsAddress>>, n: int)
    requires
        st.consistent(),
        0 <= n <= updates.len(),
        forall|i: int|
            0 <= i < updates.len() ==> address_update_fits(
                handled(st, updates.take(i), address_steps()).0,
                #[trigger] updates[i],
            ),
    ensures
        handled(st, updates.take(n), address_steps()).0.consistent(),
    decreases n,
{
    if n == 0 {
        assert(updates.take(0).len() == 0);
    } else {
        law_address_batch_keeps(st, updates, n - 1);
        lemma_handled_step(st, updates, address_steps(), n - 1);
        let before = handled(st, updates.take(n - 1), address_steps()).0;
        assert(address_steps()(before, updates[n - 1]) == address_step(before, updates[n - 1]));
        assert(address_update_fits(before, updates[n - 1]));
        match updates[n - 1] {
            XdsUpdate::Update(x) => {
                law_upsert_address_keeps(before, x.resource);
            },
            XdsUpdate::Remove(name) => {
                law_remove_keeps(before, name@);
            },
        }
    }
}

/// A batch of policy updates keeps the state consistent after each of
/// its updates, refused or not.
pub proof fn law_authorization_batch_keeps(
    st: ProxyStateView,
    updates: Seq<XdsUpdate<XdsAuthorization>>,
    n: int,
)
    requires
        st.consistent(),
        0 <= n <= updates.len(),
    ensures
        handled(st, updates.take(n), authorization_steps()).0.consistent(),
    decreases n,
{
    if n == 0 {
        assert(updates.take(0).len() == 0);
    } else {
        law_authorization_batch_keeps(st, updates, n - 1);
        lemma_handled_step(st, updates, authorization_steps(), n - 1);
        let before = handled(st, updates.take(n - 1), authorization_steps()).0;
        assert(authorization_steps()(before, updates[n - 1]) == authorization_step(
            before,
            updates[n - 1],
        ));
        match updates[n - 1] {
            XdsUpdate::Update(x) => {
                law_upsert_authorization_keeps(before, x.resource);
            },
            XdsUpdate::Remove(name) => {
                law_policy_keeps(before, arbitrary(), name@);
            },
        }
    }
}

} // verus!
