//! A state set up from a local configuration instead of discovery: a list
//! of workloads with their virtual addresses, of policies and of services.

use crate::discovery::{port_map, PortList, XdsPort};
use crate::rbac::{Authorization, AuthorizationView};
use crate::service::{Endpoint, EndpointView, Service, ServiceView};
use crate::state::{ProxyState, ProxyStateView};
use crate::store::policies_view;
use crate::table::{lists, Record, Table};
use crate::workload::{HealthStatus, Workload, WorkloadError, WorkloadErrorView, WorkloadView};
use crate::xds::{
    endpoints_behind, endpoints_of, endpoints_view, service_endpoints, unit_result, vip_of,
    CertFetcher, CertFetcherView,
};
use vstd::prelude::*;

verus! {

/// A workload of a local configuration: the workload, and for each of
/// its virtual addresses the ports it serves behind it.
#[derive(Debug, Clone, PartialEq, Eq)]
pub struct LocalWorkload {
    pub workload: Workload,
    pub vips: Table<String, Table<u16, u16>>,
}

/// A local configuration.
#[derive(Debug, Clone, PartialEq, Eq)]
pub struct LocalConfig {
    pub workloads: Vec<LocalWorkload>,
    pub policies: Vec<Authorization>,
    pub services: Vec<Service>,
}

impl Default for LocalConfig {
    /// The configuration that holds nothing.
    fn default() -> (r: Self)
        ensures
            r.workloads@.len() == 0,
            r.policies@.len() == 0,
            r.services@.len() == 0,
    {
        LocalConfig { workloads: Vec::new(), policies: Vec::new(), services: Vec::new() }
    }
}

/// The endpoints of `w` for its virtual addresses `keys`, in their
/// order, with the ports of each; the error of the first key that names
/// no address.
pub open spec fn local_endpoints_of(
    w: WorkloadView,
    keys: Seq<Seq<char>>,
    ports: Map<Seq<char>, Map<u16, u16>>,
) -> Result<Seq<EndpointView>, WorkloadErrorView>
    decreases keys.len(),
{
    if keys.len() == 0 {
        Ok(Seq::empty())
    } else {
        match local_endpoints_of(w, keys.drop_last(), ports) {
            Err(e) => Err(e),
            Ok(front) => match vip_of(keys.last(), w.network) {
                Err(e) => Err(e),
                Ok(vip) => Ok(
                    front + endpoints_behind(
                        w,
                        vip,
                        ports[keys.last()],
                        w.workload_ips.len() as int,
                    ),
                ),
            },
        }
    }
}

/// The endpoints that a workload of a local configuration gives: those
/// of its virtual addresses where it is healthy, none where it is not.
pub open spec fn local_derived(lw: LocalWorkload) -> Result<Seq<EndpointView>, WorkloadErrorView> {
    if lw.workload@.status == HealthStatus::Healthy {
        local_endpoints_of(lw.workload@, lw.vips.keys(), lw.vips@)
    } else {
        Ok(Seq::empty())
    }
}

impl CertFetcherView {
    /// The fetcher after a workload of a local configuration was taken
    /// in: it is told of the workload where that is accepted.
    pub open spec fn after_local_workload(self, lw: LocalWorkload) -> Self {
        if local_derived(lw) is Ok {
            self.told(lw.workload@)
        } else {
            self
        }
    }

    /// The fetcher after the workloads of a local configuration were
    /// taken in, in order, up to the first that is refused.
    pub open spec fn after_local_workloads(self, ws: Seq<LocalWorkload>) -> Self
        decreases ws.len(),
    {
        if ws.len() == 0 {
            self
        } else if some_refused(ws.drop_last()) {
            self.after_local_workloads(ws.drop_last())
        } else {
            self.after_local_workloads(ws.drop_last()).after_local_workload(ws.last())
        }
    }
}

/// Whether one of the workloads is refused.
pub open spec fn some_refused(ws: Seq<LocalWorkload>) -> bool
    decreases ws.len(),
{
    ws.len() > 0 && (some_refused(ws.drop_last()) || local_derived(ws.last()) is Err)
}

/// Port lists that stand for the same port maps give the same endpoints.
proof fn lemma_local_endpoints(
    w: WorkloadView,
    keys: Seq<Seq<char>>,
    lists: Map<Seq<char>, Seq<XdsPort>>,
    ports: Map<Seq<char>, Map<u16, u16>>,
)
    requires
        forall|i: int| 0 <= i < keys.len() ==> port_map(lists[#[trigger] keys[i]]) == ports[keys[i]],
    ensures
        endpoints_of(w, keys, lists) == local_endpoints_of(w, keys, ports),
    decreases keys.len(),
{
    if keys.len() > 0 {
        let front = keys.drop_last();
        assert forall|i: int| 0 <= i < front.len() implies port_map(lists[#[trigger] front[i]])
            == ports[front[i]] by {
            assert(front[i] == keys[i]);
        }
        lemma_local_endpoints(w, front, lists, ports);
        assert(keys.last() == keys[keys.len() - 1]);
    }
}

impl ProxyStateView {
    /// The state after a workload of a local configuration was taken in,
    /// and whether it was accepted. Where one of its virtual addresses
    /// cannot be read, the workload is refused whole and nothing changes.
    /// Else the workload known under its UID leaves with its endpoints,
    /// the workload is stored, and its endpoints arrive; an unhealthy
    /// workload has none.
    pub open spec fn with_local_workload(self, lw: LocalWorkload) -> (
        Self,
        Result<(), WorkloadErrorView>,
    ) {
        match local_derived(lw) {
            Err(e) => (self, Err(e)),
            Ok(eps) => (self.forgotten(lw.workload@.uid).with_workload(lw.workload@, eps), Ok(())),
        }
    }

    /// The state after the workloads of a local configuration were taken
    /// in, in order, up to the first that fails.
    pub open spec fn with_local_workloads(self, ws: Seq<LocalWorkload>) -> (
        Self,
        Result<(), WorkloadErrorView>,
    )
        decreases ws.len(),
    {
        if ws.len() == 0 {
            (self, Ok(()))
        } else {
            let (s, r) = self.with_local_workloads(ws.drop_last());
            match r {
                Err(e) => (s, Err(e)),
                Ok(_) => s.with_local_workload(ws.last()),
            }
        }
    }

    /// The state after the policies were stored, in order.
    pub open spec fn with_policies(self, ps: Seq<AuthorizationView>) -> Self
        decreases ps.len(),
    {
        if ps.len() == 0 {
            self
        } else {
            self.with_policies(ps.drop_last()).with_policy(ps.last())
        }
    }

    /// The state after the services were stored as they are, in order.
    pub open spec fn with_services(self, ss: Seq<ServiceView>) -> Self
        decreases ss.len(),
    {
        if ss.len() == 0 {
            self
        } else {
            let s = self.with_services(ss.drop_last());
            ProxyStateView { services: s.services.with_service(ss.last()), ..s }
        }
    }

    /// The state after a local configuration was taken in: its
    /// workloads, then its policies, then its services. Where a workload
    /// fails, nothing after it is taken in.
    pub open spec fn with_local_config(self, cfg: LocalConfig) -> (
        Self,
        Result<(), WorkloadErrorView>,
    ) {
        let (s, r) = self.with_local_workloads(cfg.workloads@);
        match r {
            Err(e) => (s, Err(e)),
            Ok(_) => (
                s.with_policies(policies_view(cfg.policies@)).with_services(
                    services_view(cfg.services@),
                ),
                Ok(()),
            ),
        }
    }
}

/// The views of a list of services.
pub open spec fn services_view(v: Seq<Service>) -> Seq<ServiceView> {
    Seq::new(v.len(), |i: int| v[i]@)
}

/// The port maps of the virtual addresses as port lists, in the same order.
fn port_lists(vips: &Table<String, Table<u16, u16>>) -> (r: Table<String, PortList>)
    ensures
        r.keys() == vips.keys(),
        lists(r.keys(), r@),
        forall|i: int|
            0 <= i < vips.keys().len() ==> port_map(r@[#[trigger] vips.keys()[i]])
                == vips@[vips.keys()[i]],
{
    let n = vips.len();
    let mut out: Table<String, PortList> = Table::new();
    let mut i: usize = 0;
    proof {
        assert(vips.keys().take(0) =~= Seq::<Seq<char>>::empty());
    }
    while i < n
        invariant
            i <= n,
            n == vips.keys().len(),
            lists(vips.keys(), vips@),
            out.keys() == vips.keys().take(i as int),
            forall|k: Seq<char>| out@.contains_key(k) <==> out.keys().contains(k),
            forall|j: int|
                0 <= j < i ==> out@.contains_key(#[trigger] vips.keys()[j]) && port_map(
                    out@[vips.keys()[j]],
                ) == vips@[vips.keys()[j]],
        decreases n - i,
    {
        let key = vips.key_at(i).duplicate();
        let list = PortList::from_ports(vips.value_at(i));
        proof {
            crate::table::lemma_take_step(vips.keys(), i as int);
            assert(!out.keys().contains(key@)) by {
                if out.keys().contains(key@) {
                    let j = choose|j: int| 0 <= j < out.keys().len() && out.keys()[j] == key@;
                    assert(vips.keys()[j] == vips.keys()[i as int]);
                }
            }
        }
        let ghost before = out@;
        out.insert(key, list);
        proof {
            assert forall|j: int| 0 <= j < i + 1 implies out@.contains_key(
                #[trigger] vips.keys()[j],
            ) && port_map(out@[vips.keys()[j]]) == vips@[vips.keys()[j]] by {
                if j < i {
                    assert(vips.keys()[j] != vips.keys()[i as int]);
                    assert(before.contains_key(vips.keys()[j]));
                }
            }
            assert forall|k: Seq<char>| out@.contains_key(k) <==> out.keys().contains(k) by {
                if k != vips.keys()[i as int] {
                    assert(out@.contains_key(k) <==> before.contains_key(k));
                }
            }
        }
        i += 1;
    }
    proof {
        crate::table::lemma_take_ends(vips.keys());
        use_type_invariant(&out);
        out.lemma_lists();
    }
    out
}

/// Sets up a state from a local configuration, and tells its fetcher of
/// the workloads that it takes in.
pub struct LocalClient {
    pub state: ProxyState,
    pub cert_fetcher: CertFetcher,
}

impl LocalClient {
    /// Takes in one workload of the configuration.
    fn insert_local(&mut self, wl: &LocalWorkload) -> (r: Result<(), WorkloadError>)
        ensures
            final(self).state@ == old(self).state@.with_local_workload(*wl).0,
            unit_result(r) == old(self).state@.with_local_workload(*wl).1,
            final(self).cert_fetcher@ == old(self).cert_fetcher@.after_local_workload(*wl),
    {
        let endpoints = match wl.workload.status {
            HealthStatus::Healthy => {
                let vips = port_lists(&wl.vips);
                proof {
                    lemma_local_endpoints(wl.workload@, wl.vips.keys(), vips@, wl.vips@);
                }
                match service_endpoints(&wl.workload, &vips) {
                    Ok(eps) => eps,
                    Err(e) => {
                        return Err(e);
                    },
                }
            },
            HealthStatus::Unhealthy => {
                let eps: Vec<Endpoint> = Vec::new();
                assert(endpoints_view(eps@) =~= Seq::<EndpointView>::empty());
                eps
            },
        };
        let _ = self.state.forget_workload(wl.workload.uid.as_str());
        self.cert_fetcher.prefetch_cert(&wl.workload);
        self.state.store_workload(wl.workload.duplicate(), endpoints);
        Ok(())
    }

    /// Takes in a local configuration: its workloads, then its policies,
    /// then its services.
    pub fn run(&mut self, r: LocalConfig) -> (res: Result<(), WorkloadError>)
        ensures
            final(self).state@ == old(self).state@.with_local_config(r).0,
            unit_result(res) == old(self).state@.with_local_config(r).1,
            final(self).cert_fetcher@ == old(self).cert_fetcher@.after_local_workloads(
                r.workloads@,
            ),
    {
        let ghost start = self.state@;
        let ghost told = self.cert_fetcher@;
        let n = r.workloads.len();
        let mut i: usize = 0;
        proof {
            assert(r.workloads@.take(0) =~= Seq::<LocalWorkload>::empty());
        }
        while i < n
            invariant
                i <= n,
                n == r.workloads@.len(),
                start == old(self).state@,
                told == old(self).cert_fetcher@,
                start.with_local_workloads(r.workloads@.take(i as int)) == (
                    self.state@,
                    Ok::<(), WorkloadErrorView>(()),
                ),
                !some_refused(r.workloads@.take(i as int)),
                self.cert_fetcher@ == told.after_local_workloads(r.workloads@.take(i as int)),
            decreases n - i,
        {
            proof {
                assert(r.workloads@.take(i + 1).drop_last() =~= r.workloads@.take(i as int));
                assert(r.workloads@.take(i + 1).last() == r.workloads@[i as int]);
            }
            match self.insert_local(&r.workloads[i]) {
                Ok(_) => {},
                Err(e) => {
                    proof {
                        lemma_local_fail(start, told, r.workloads@, i + 1);
                    }
                    return Err(e);
                },
            }
            i += 1;
        }
        proof {
            assert(r.workloads@.take(n as int) =~= r.workloads@);
        }
        let ghost loaded = self.state@;
        let ghost pv = policies_view(r.policies@);
        let np = r.policies.len();
        let mut j: usize = 0;
        proof {
            assert(pv.take(0) =~= Seq::<AuthorizationView>::empty());
        }
        while j < np
            invariant
                j <= np,
                np == r.policies@.len(),
                pv == policies_view(r.policies@),
                self.cert_fetcher@ == told.after_local_workloads(r.workloads@),
                self.state@ == loaded.with_policies(pv.take(j as int)),
            decreases np - j,
        {
            proof {
                assert(pv.take(j + 1).drop_last() =~= pv.take(j as int));
                assert(pv.take(j + 1).last() == r.policies@[j as int]@);
            }
            self.state.workloads.insert_authorization(r.policies[j].duplicate());
            j += 1;
        }
        proof {
            assert(pv.take(np as int) =~= pv);
        }
        let ghost ruled = self.state@;
        let ghost sv = services_view(r.services@);
        let ns = r.services.len();
        let mut k: usize = 0;
        proof {
            assert(sv.take(0) =~= Seq::<ServiceView>::empty());
        }
        while k < ns
            invariant
                k <= ns,
                ns == r.services@.len(),
                sv == services_view(r.services@),
                self.cert_fetcher@ == told.after_local_workloads(r.workloads@),
                self.state@ == ruled.with_services(sv.take(k as int)),
            decreases ns - k,
        {
            proof {
                assert(sv.take(k + 1).drop_last() =~= sv.take(k as int));
                assert(sv.take(k + 1).last() == r.services@[k as int]@);
            }
            self.state.services.insert(r.services[k].duplicate());
            k += 1;
        }
        proof {
            assert(sv.take(ns as int) =~= sv);
        }
        Ok(())
    }
}

/// A failure among the first `i` workloads is the failure of the whole
/// list, and nothing after it is taken in.
proof fn lemma_local_fail(st: ProxyStateView, f: CertFetcherView, ws: Seq<LocalWorkload>, i: int)
    requires
        0 <= i <= ws.len(),
        st.with_local_workloads(ws.take(i)).1 is Err,
        some_refused(ws.take(i)),
    ensures
        st.with_local_workloads(ws) == st.with_local_workloads(ws.take(i)),
        f.after_local_workloads(ws) == f.after_local_workloads(ws.take(i)),
        some_refused(ws),
    decreases ws.len() - i,
{
    if i < ws.len() {
        assert(ws.take(i + 1).drop_last() =~= ws.take(i));
        lemma_local_fail(st, f, ws, i + 1);
    } else {
        assert(ws.take(i) =~= ws);
    }
}

} // verus!
