//! The registry of workloads and policies.
//!
//! Workloads are found by network address and by UID; policies by their
//! `namespace/name` key, and through the lists that file them by scope.

use crate::rbac::{Authorization, AuthorizationView, RbacScope};
use crate::table::{lemma_take_ends, lemma_take_step, Record, Table};
use crate::workload::{
    network_addr, strings_view, NetworkAddress, NetworkAddressView, Workload, WorkloadError,
    WorkloadView,
};
use vstd::prelude::*;

verus! {

/// A set of names, as a table that binds each to nothing.
pub type NameSet = Table<String, ()>;

/// What the lists of policy keys by scope stand for.
pub open spec fn scope_lists(m: Map<Seq<char>, Map<Seq<char>, ()>>) -> Map<
    Seq<char>,
    Set<Seq<char>>,
> {
    m.map_values(|names: Map<Seq<char>, ()>| names.dom())
}

/// All information about the workloads of the mesh and the policies on them.
#[derive(Debug)]
pub struct WorkloadStore {
    /// From each address of a workload to the workload.
    workloads: Table<NetworkAddress, Workload>,
    /// From the UID of a workload to the workload.
    workloads_by_uid: Table<String, Workload>,
    /// From `namespace/name` to the policy.
    policies: Table<String, Authorization>,
    /// From a namespace, or the empty string for the whole mesh, to the
    /// keys of the policies of that scope.
    policies_by_namespace: Table<String, NameSet>,
}

/// What a `WorkloadStore` stands for.
pub struct WorkloadStoreView {
    pub by_addr: Map<NetworkAddressView, WorkloadView>,
    pub by_uid: Map<Seq<char>, WorkloadView>,
    pub policies: Map<Seq<char>, AuthorizationView>,
    pub policies_by_namespace: Map<Seq<char>, Set<Seq<char>>>,
}

impl View for WorkloadStore {
    type V = WorkloadStoreView;

    closed spec fn view(&self) -> WorkloadStoreView {
        WorkloadStoreView {
            by_addr: self.workloads@,
            by_uid: self.workloads_by_uid@,
            policies: self.policies@,
            policies_by_namespace: scope_lists(self.policies_by_namespace@),
        }
    }
}

/// The addresses of `w` among its first `n`, bound to `w` over `m`.
pub open spec fn bound_to(
    m: Map<NetworkAddressView, WorkloadView>,
    w: WorkloadView,
    n: int,
) -> Map<NetworkAddressView, WorkloadView> {
    Map::new(
        |a: NetworkAddressView|
            m.contains_key(a) || (a.network == w.network && w.workload_ips.take(n).contains(
                a.address,
            )),
        |a: NetworkAddressView|
            if a.network == w.network && w.workload_ips.take(n).contains(a.address) {
                w
            } else {
                m[a]
            },
    )
}

/// `m` without the addresses of `w` among its first `n`.
pub open spec fn unbound_from(
    m: Map<NetworkAddressView, WorkloadView>,
    w: WorkloadView,
    n: int,
) -> Map<NetworkAddressView, WorkloadView> {
    m.remove_keys(
        Set::new(
            |a: NetworkAddressView|
                a.network == w.network && w.workload_ips.take(n).contains(a.address),
        ),
    )
}

impl WorkloadStoreView {
    /// The store that holds nothing.
    pub open spec fn empty() -> Self {
        WorkloadStoreView {
            by_addr: Map::empty(),
            by_uid: Map::empty(),
            policies: Map::empty(),
            policies_by_namespace: Map::empty(),
        }
    }

    /// The store without the workload known under `uid`: it leaves the
    /// UID index, and each of its addresses leaves the address index.
    pub open spec fn without_workload(self, uid: Seq<char>) -> Self {
        if self.by_uid.contains_key(uid) {
            let prev = self.by_uid[uid];
            WorkloadStoreView {
                by_uid: self.by_uid.remove(uid),
                by_addr: unbound_from(self.by_addr, prev, prev.workload_ips.len() as int),
                ..self
            }
        } else {
            self
        }
    }

    /// The store after `w` arrived: what was known under its UID is
    /// removed first, then `w` is bound to its UID and to each of its addresses.
    pub open spec fn with_workload(self, w: WorkloadView) -> Self {
        let s = self.without_workload(w.uid);
        WorkloadStoreView {
            by_uid: s.by_uid.insert(w.uid, w),
            by_addr: bound_to(s.by_addr, w, w.workload_ips.len() as int),
            ..s
        }
    }

    /// The keys filed under `scope`; none where nothing is filed there.
    pub open spec fn filed(self, scope: Seq<char>) -> Set<Seq<char>> {
        if self.policies_by_namespace.contains_key(scope) {
            self.policies_by_namespace[scope]
        } else {
            Set::empty()
        }
    }

    /// The store after policy `p` arrived, in place of the policy known
    /// under its key: that policy leaves first, and with it its filing;
    /// then `p` is bound to its key, and the key is filed under the scope
    /// of `p`, if it has one.
    pub open spec fn with_policy(self, p: AuthorizationView) -> Self {
        self.without_policy(p.key()).filing(p)
    }

    /// The store with `p` bound to its key and the key filed under the
    /// scope of `p`, if it has one.
    pub open spec fn filing(self, p: AuthorizationView) -> Self {
        WorkloadStoreView {
            policies: self.policies.insert(p.key(), p),
            policies_by_namespace: match p.scope_key() {
                Some(scope) => self.policies_by_namespace.insert(
                    scope,
                    self.filed(scope).insert(p.key()),
                ),
                None => self.policies_by_namespace,
            },
            ..self
        }
    }

    /// The store without the policy known under `key`: it leaves the
    /// policies, and its key leaves the list of its scope; a list that
    /// becomes empty is dropped.
    pub open spec fn without_policy(self, key: Seq<char>) -> Self {
        if self.policies.contains_key(key) {
            let prev = self.policies[key];
            WorkloadStoreView {
                policies: self.policies.remove(key),
                policies_by_namespace: match prev.scope_key() {
                    Some(scope) => if self.policies_by_namespace.contains_key(scope) {
                        let rest = self.policies_by_namespace[scope].remove(key);
                        if rest == Set::<Seq<char>>::empty() {
                            self.policies_by_namespace.remove(scope)
                        } else {
                            self.policies_by_namespace.insert(scope, rest)
                        }
                    } else {
                        self.policies_by_namespace
                    },
                    None => self.policies_by_namespace,
                },
                ..self
            }
        } else {
            self
        }
    }

    /// Whether `p` is a stored policy whose key is among `names`.
    pub open spec fn named_by(self, names: Seq<Seq<char>>, p: AuthorizationView) -> bool {
        exists|k: Seq<char>|
            names.contains(k) && self.policies.contains_key(k) && self.policies[k] == p
    }

    /// Whether `p` is a stored policy that applies to `w`.
    pub open spec fn applies(self, w: WorkloadView, p: AuthorizationView) -> bool {
        exists|k: Seq<char>| self.selects(k, w) && self.policies[k] == p
    }

    /// Whether the policy under `key` is one that applies to `w`: it is
    /// filed for the whole mesh or for the namespace of `w`, or `w` names it.
    pub open spec fn selects(self, key: Seq<char>, w: WorkloadView) -> bool {
        &&& self.policies.contains_key(key)
        &&& (self.filed(Seq::empty()).contains(key) || self.filed(w.namespace).contains(key)
            || w.authorization_policies.contains(key))
    }
}

/// The views of a list of policies.
pub open spec fn policies_view(v: Seq<Authorization>) -> Seq<AuthorizationView> {
    Seq::new(v.len(), |i: int| v[i]@)
}

/// What a list holds after one more item was pushed.
pub proof fn lemma_push_contains<A>(s: Seq<A>, x: A, p: A)
    ensures
        s.push(x).contains(p) <==> (s.contains(p) || p == x),
{
    let t = s.push(x);
    if t.contains(p) {
        let j = choose|j: int| 0 <= j < t.len() && t[j] == p;
        if j < s.len() {
            assert(s[j] == p);
        }
    }
    if s.contains(p) {
        let j = choose|j: int| 0 <= j < s.len() && s[j] == p;
        assert(t[j] == p);
    }
    if p == x {
        assert(t[s.len() as int] == p);
    }
}

proof fn lemma_scope_lists_insert(
    m: Map<Seq<char>, Map<Seq<char>, ()>>,
    k: Seq<char>,
    names: Map<Seq<char>, ()>,
)
    ensures
        scope_lists(m.insert(k, names)) == scope_lists(m).insert(k, names.dom()),
{
    assert(scope_lists(m.insert(k, names)) =~= scope_lists(m).insert(k, names.dom()));
}

proof fn lemma_scope_lists_remove(m: Map<Seq<char>, Map<Seq<char>, ()>>, k: Seq<char>)
    ensures
        scope_lists(m.remove(k)) == scope_lists(m).remove(k),
{
    assert(scope_lists(m.remove(k)) =~= scope_lists(m).remove(k));
}

impl WorkloadStore {
    /// The store that holds nothing.
    pub fn new() -> (s: Self)
        ensures
            s@ == WorkloadStoreView::empty(),
    {
        let s = WorkloadStore {
            workloads: Table::new(),
            workloads_by_uid: Table::new(),
            policies: Table::new(),
            policies_by_namespace: Table::new(),
        };
        assert(scope_lists(s.policies_by_namespace@) =~= Map::<
            Seq<char>,
            Set<Seq<char>>,
        >::empty());
        s
    }

    /// Stores the policy under its key and files the key under the
    /// policy's scope, in place of the policy known under that key and of
    /// its filing.
    pub fn insert_authorization(&mut self, rbac: Authorization)
        ensures
            final(self)@ == old(self)@.with_policy(rbac@),
    {
        self.remove_rbac(rbac.to_key());
        self.file(rbac);
    }

    /// Binds the policy to its key and files the key under the policy's scope.
    fn file(&mut self, rbac: Authorization)
        ensures
            final(self)@ == old(self)@.filing(rbac@),
    {
        let key = rbac.to_key();
        let scope: Option<String> = match rbac.scope {
            RbacScope::Global => Some(String::new()),
            RbacScope::Namespace => Some(rbac.namespace.clone()),
            RbacScope::WorkloadSelector => None,
        };
        match scope {
            Some(scope) => {
                let mut names: NameSet = match self.policies_by_namespace.get(&scope) {
                    Some(names) => names.duplicate(),
                    None => Table::new(),
                };
                assert(names@.dom() =~= old(self)@.filed(scope@));
                names.insert(key.clone(), ());
                assert(names@.dom() =~= old(self)@.filed(scope@).insert(key@));
                proof {
                    lemma_scope_lists_insert(self.policies_by_namespace@, scope@, names@);
                }
                self.policies_by_namespace.insert(scope, names);
            },
            None => {},
        }
        self.policies.insert(key, rbac);
    }

    /// Forgets the policy stored under `name` and takes its key out of the
    /// list of its scope.
    pub fn remove_rbac(&mut self, name: String)
        ensures
            final(self)@ == old(self)@.without_policy(name@),
    {
        let rbac = match self.policies.remove(&name) {
            Some(rbac) => rbac,
            None => {
                assert(self.policies@ =~= old(self).policies@);
                return ;
            },
        };
        let scope: Option<String> = match rbac.scope {
            RbacScope::Global => Some(String::new()),
            RbacScope::Namespace => Some(rbac.namespace.clone()),
            RbacScope::WorkloadSelector => None,
        };
        match scope {
            Some(scope) => {
                let found: Option<NameSet> = match self.policies_by_namespace.get(&scope) {
                    Some(names) => Some(names.duplicate()),
                    None => None,
                };
                match found {
                    Some(names) => {
                        let mut names = names;
                        names.remove(&name);
                        assert(names@.dom() =~= old(self)@.policies_by_namespace[scope@].remove(
                            name@,
                        ));
                        if names.is_empty() {
                            assert(names@.dom() =~= Set::<Seq<char>>::empty());
                            proof {
                                lemma_scope_lists_remove(self.policies_by_namespace@, scope@);
                            }
                            self.policies_by_namespace.remove(&scope);
                        } else {
                            proof {
                                lemma_scope_lists_insert(
                                    self.policies_by_namespace@,
                                    scope@,
                                    names@,
                                );
                                if names@.dom() == Set::<Seq<char>>::empty() {
                                    assert(names@ =~= Map::<Seq<char>, ()>::empty());
                                }
                            }
                            self.policies_by_namespace.insert(scope, names);
                        }
                    },
                    None => {},
                }
            },
            None => {},
        }
    }

    /// Stores the workload under its UID and under each of its addresses,
    /// in place of what was known under that UID. Never fails.
    pub fn insert_workload(&mut self, w: Workload) -> (r: Result<(), WorkloadError>)
        ensures
            r is Ok,
            final(self)@ == old(self)@.with_workload(w@),
    {
        self.remove_workload(w.uid.as_str());
        let ghost mid = self@;
        let n = w.workload_ips.len();
        let mut i: usize = 0;
        proof {
            lemma_take_ends(w@.workload_ips);
            assert(self.workloads@ =~= bound_to(mid.by_addr, w@, 0));
        }
        while i < n
            invariant
                i <= n,
                n == w@.workload_ips.len(),
                self.workloads@ == bound_to(mid.by_addr, w@, i as int),
                self.workloads_by_uid@ == mid.by_uid,
                self.policies@ == mid.policies,
                scope_lists(self.policies_by_namespace@) == mid.policies_by_namespace,
            decreases n - i,
        {
            let addr = network_addr(w.network.as_str(), w.workload_ips[i]);
            self.workloads.insert(addr, w.duplicate());
            proof {
                lemma_take_step(w@.workload_ips, i as int);
                assert(self.workloads@ =~= bound_to(mid.by_addr, w@, i + 1));
            }
            i += 1;
        }
        self.workloads_by_uid.insert(w.uid.clone(), w);
        Ok(())
    }

    /// Forgets the workload known under `uid`, and hands it back. Where
    /// no workload is known under `uid`, nothing changes.
    pub fn remove_workload(&mut self, uid: &str) -> (r: Option<Workload>)
        ensures
            final(self)@ == old(self)@.without_workload(uid@),
            match r {
                Some(w) => old(self)@.by_uid.contains_key(uid@) && w@ == old(self)@.by_uid[uid@],
                None => !old(self)@.by_uid.contains_key(uid@),
            },
    {
        let key = uid.to_owned();
        match self.workloads_by_uid.remove(&key) {
            None => {
                assert(self.workloads_by_uid@ =~= old(self).workloads_by_uid@);
                None
            },
            Some(prev) => {
                let n = prev.workload_ips.len();
                let mut i: usize = 0;
                proof {
                    lemma_take_ends(prev@.workload_ips);
                    assert(self.workloads@ =~= unbound_from(old(self)@.by_addr, prev@, 0));
                }
                while i < n
                    invariant
                        i <= n,
                        n == prev@.workload_ips.len(),
                        self.workloads@ == unbound_from(old(self)@.by_addr, prev@, i as int),
                        self.workloads_by_uid@ == old(self)@.by_uid.remove(uid@),
                        self.policies@ == old(self)@.policies,
                        scope_lists(self.policies_by_namespace@) == old(
                            self,
                        )@.policies_by_namespace,
                    decreases n - i,
                {
                    let addr = network_addr(prev.network.as_str(), prev.workload_ips[i]);
                    self.workloads.remove(&addr);
                    proof {
                        lemma_take_step(prev@.workload_ips, i as int);
                        assert(self.workloads@ =~= unbound_from(
                            old(self)@.by_addr,
                            prev@,
                            i + 1,
                        ));
                    }
                    i += 1;
                }
                Some(prev)
            },
        }
    }

    /// The workload that owns the address, if one does.
    pub fn find_workload(&self, addr: &NetworkAddress) -> (r: Option<Workload>)
        ensures
            match r {
                Some(w) => self@.by_addr.contains_key(addr@) && w@ == self@.by_addr[addr@],
                None => !self@.by_addr.contains_key(addr@),
            },
    {
        match self.workloads.get(addr) {
            Some(w) => Some(w.duplicate()),
            None => None,
        }
    }

    /// The workload known under the UID, if one is.
    pub fn find_uid(&self, uid: &str) -> (r: Option<Workload>)
        ensures
            match r {
                Some(w) => self@.by_uid.contains_key(uid@) && w@ == self@.by_uid[uid@],
                None => !self@.by_uid.contains_key(uid@),
            },
    {
        let key = uid.to_owned();
        match self.workloads_by_uid.get(&key) {
            Some(w) => Some(w.duplicate()),
            None => None,
        }
    }

    /// The policy stored under the key, if one is.
    pub fn find_policy(&self, key: &str) -> (r: Option<Authorization>)
        ensures
            match r {
                Some(p) => self@.policies.contains_key(key@) && p@ == self@.policies[key@],
                None => !self@.policies.contains_key(key@),
            },
    {
        let key = key.to_owned();
        match self.policies.get(&key) {
            Some(p) => Some(p.duplicate()),
            None => None,
        }
    }

    /// The number of addresses that workloads are found by.
    pub fn num_addresses(&self) -> (n: usize)
        ensures
            n == self@.by_addr.len(),
    {
        self.workloads.len()
    }

    /// The number of workloads.
    pub fn num_workloads(&self) -> (n: usize)
        ensures
            n == self@.by_uid.len(),
    {
        self.workloads_by_uid.len()
    }

    /// Adds to `out` the stored policies that `names` names.
    fn collect_named(&self, names: &Vec<String>, out: &mut Vec<Authorization>)
        ensures
            forall|p: AuthorizationView| #[trigger]
                policies_view(final(out)@).contains(p) <==> (policies_view(old(out)@).contains(p)
                    || self@.named_by(strings_view(names@), p)),
    {
        let ghost start = policies_view(out@);
        let ghost ks = strings_view(names@);
        let n = names.len();
        let mut i: usize = 0;
        proof {
            lemma_take_ends(ks);
        }
        while i < n
            invariant
                i <= n,
                n == names@.len(),
                ks == strings_view(names@),
                forall|p: AuthorizationView| #[trigger]
                    policies_view(out@).contains(p) <==> (start.contains(p) || self@.named_by(
                        ks.take(i as int),
                        p,
                    )),
            decreases n - i,
        {
            let key = &names[i];
            let ghost before = policies_view(out@);
            proof {
                lemma_take_step(ks, i as int);
            }
            match self.policies.get(key) {
                Some(found) => {
                    out.push(found.duplicate());
                    proof {
                        let after = policies_view(out@);
                        assert(after =~= before.push(found@));
                        assert forall|p: AuthorizationView| #[trigger]
                            after.contains(p) <==> (start.contains(p) || self@.named_by(
                                ks.take(i + 1),
                                p,
                            )) by {
                            lemma_push_contains(before, found@, p);
                            if self@.named_by(ks.take(i + 1), p) {
                                let k = choose|k: Seq<char>|
                                    ks.take(i + 1).contains(k) && self@.policies.contains_key(k)
                                        && self@.policies[k] == p;
                                if k != ks[i as int] {
                                    assert(ks.take(i as int).contains(k));
                                    assert(self@.named_by(ks.take(i as int), p));
                                }
                            }
                            if self@.named_by(ks.take(i as int), p) {
                                let k = choose|k: Seq<char>|
                                    ks.take(i as int).contains(k) && self@.policies.contains_key(k)
                                        && self@.policies[k] == p;
                                assert(ks.take(i + 1).contains(k));
                            }
                            if p == found@ {
                                assert(ks.take(i + 1).contains(ks[i as int]));
                            }
                        }
                    }
                },
                None => {
                    proof {
                        assert forall|p: AuthorizationView| #[trigger]
                            before.contains(p) <==> (start.contains(p) || self@.named_by(
                                ks.take(i + 1),
                                p,
                            )) by {
                            if self@.named_by(ks.take(i + 1), p) {
                                let k = choose|k: Seq<char>|
                                    ks.take(i + 1).contains(k) && self@.policies.contains_key(k)
                                        && self@.policies[k] == p;
                                assert(ks.take(i as int).contains(k));
                                assert(self@.named_by(ks.take(i as int), p));
                            }
                            if self@.named_by(ks.take(i as int), p) {
                                let k = choose|k: Seq<char>|
                                    ks.take(i as int).contains(k) && self@.policies.contains_key(k)
                                        && self@.policies[k] == p;
                                assert(ks.take(i + 1).contains(k));
                            }
                        }
                    }
                },
            }
            i += 1;
        }
    }

    /// The keys filed under `scope`, as a list.
    fn filed_keys(&self, scope: &String) -> (r: Vec<String>)
        ensures
            forall|k: Seq<char>| #[trigger]
                strings_view(r@).contains(k) <==> self@.filed(scope@).contains(k),
    {
        match self.policies_by_namespace.get(scope) {
            None => {
                let r: Vec<String> = Vec::new();
                assert(strings_view(r@) =~= Seq::<Seq<char>>::empty());
                r
            },
            Some(names) => {
                let r = names.key_list();
                assert(strings_view(r@) =~= names.keys());
                r
            },
        }
    }

    /// The policies that apply to the workload: those of the whole mesh,
    /// those of its namespace, and those that it names. Each of them is in
    /// the result, and nothing else is.
    pub fn policies_for(&self, w: &Workload) -> (r: Vec<Authorization>)
        ensures
            forall|p: AuthorizationView| #[trigger]
                policies_view(r@).contains(p) <==> self@.applies(w@, p),
    {
        let mut out: Vec<Authorization> = Vec::new();
        assert(policies_view(out@) =~= Seq::<AuthorizationView>::empty());
        let global = String::new();
        let g = self.filed_keys(&global);
        self.collect_named(&g, &mut out);
        let ns = self.filed_keys(&w.namespace);
        self.collect_named(&ns, &mut out);
        self.collect_named(&w.authorization_policies, &mut out);
        proof {
            assert(global@ =~= Seq::<char>::empty());
            let gs = strings_view(g@);
            let nss = strings_view(ns@);
            let named = w@.authorization_policies;
            assert forall|p: AuthorizationView| #[trigger]
                policies_view(out@).contains(p) <==> self@.applies(w@, p) by {
                if self@.named_by(gs, p) {
                    let k = choose|k: Seq<char>|
                        gs.contains(k) && self@.policies.contains_key(k) && self@.policies[k] == p;
                    assert(self@.selects(k, w@));
                }
                if self@.named_by(nss, p) {
                    let k = choose|k: Seq<char>|
                        nss.contains(k) && self@.policies.contains_key(k) && self@.policies[k]
                            == p;
                    assert(self@.selects(k, w@));
                }
                if self@.named_by(named, p) {
                    let k = choose|k: Seq<char>|
                        named.contains(k) && self@.policies.contains_key(k) && self@.policies[k]
                            == p;
                    assert(self@.selects(k, w@));
                }
                if self@.applies(w@, p) {
                    let k = choose|k: Seq<char>| self@.selects(k, w@) && self@.policies[k] == p;
                    if self@.filed(Seq::empty()).contains(k) {
                        assert(gs.contains(k));
                    } else if self@.filed(w@.namespace).contains(k) {
                        assert(nss.contains(k));
                    } else {
                        assert(named.contains(k));
                    }
                }
            }
        }
        out
    }
}

} // verus!
