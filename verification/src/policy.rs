//! From the policy messages of the discovery channel to policies.
//!
//! A policy is refused where its scope or action names no variant, where
//! the address of a range is not four or sixteen bytes long, or where the
//! prefix of a range is longer than its address. A string test without a
//! kind is left out.

use crate::convert::{address_of, unknown_type};
use crate::discovery::{
    XdsAuthorization, XdsClause, XdsIpNet, XdsMatch, XdsMatchType, XdsRule, XdsStringMatch,
};
use crate::ip::IpAddr;
use crate::rbac::{
    clause_view, rule_view, rules_view, tests_view, Authorization, AuthorizationView, IpNet,
    RbacAction, RbacMatch, RbacMatchView, RbacScope, StringMatch, StringMatchView,
};
use crate::table::{lemma_try_map_fail, lemma_try_map_step, try_map};
use crate::workload::{WorkloadError, WorkloadErrorView};
use vstd::prelude::*;

verus! {

/// The scope that a number names.
pub open spec fn scope_of(v: i32) -> Result<RbacScope, WorkloadErrorView> {
    if v == 0 {
        Ok(RbacScope::Global)
    } else if v == 1 {
        Ok(RbacScope::Namespace)
    } else if v == 2 {
        Ok(RbacScope::WorkloadSelector)
    } else {
        Err(unknown_type())
    }
}

/// The action that a number names.
pub open spec fn action_of(v: i32) -> Result<RbacAction, WorkloadErrorView> {
    if v == 0 {
        Ok(RbacAction::Allow)
    } else if v == 1 {
        Ok(RbacAction::Deny)
    } else {
        Err(unknown_type())
    }
}

/// The test that a message names, if it names one.
pub open spec fn string_match_of(m: XdsStringMatch) -> Option<StringMatchView> {
    match m.match_type {
        Some(XdsMatchType::Exact(s)) => Some(StringMatchView::Exact(s@)),
        Some(XdsMatchType::Prefix(s)) => Some(StringMatchView::Prefix(s@)),
        Some(XdsMatchType::Suffix(s)) => Some(StringMatchView::Suffix(s@)),
        Some(XdsMatchType::Presence) => Some(StringMatchView::Presence),
        None => None,
    }
}

/// The tests that a list of messages names, in order.
pub open spec fn string_matches_of(s: Seq<XdsStringMatch>) -> Seq<StringMatchView>
    decreases s.len(),
{
    if s.len() == 0 {
        Seq::empty()
    } else {
        match string_match_of(s.last()) {
            Some(m) => string_matches_of(s.drop_last()).push(m),
            None => string_matches_of(s.drop_last()),
        }
    }
}

/// The number of bits of an address.
pub open spec fn bits_of(ip: IpAddr) -> int {
    match ip {
        IpAddr::V4(_) => 32,
        IpAddr::V6(_) => 128,
    }
}

/// The range that a message names.
pub open spec fn net_of(n: XdsIpNet) -> Result<IpNet, WorkloadErrorView> {
    match address_of(n.address@) {
        Err(e) => Err(e),
        Ok(ip) => if (n.length as u8) as int <= bits_of(ip) {
            Ok(IpNet { addr: ip, prefix_len: n.length as u8 })
        } else {
            Err(WorkloadErrorView::PrefixParse(n.length as u8))
        },
    }
}

/// `net_of` as a value.
pub open spec fn net_fn() -> spec_fn(XdsIpNet) -> Result<IpNet, WorkloadErrorView> {
    |n: XdsIpNet| net_of(n)
}

/// The ports that a list of numbers names: each cut to 16 bits.
pub open spec fn ports16(s: Seq<u32>) -> Seq<u16> {
    Seq::new(s.len(), |i: int| s[i] as u16)
}

/// The alternative that a message describes.
#[verifier::opaque]
pub open spec fn match_of(m: XdsMatch) -> Result<RbacMatchView, WorkloadErrorView> {
    match try_map(m.source_ips@, net_fn()) {
        Err(e) => Err(e),
        Ok(source_ips) => match try_map(m.not_source_ips@, net_fn()) {
            Err(e) => Err(e),
            Ok(not_source_ips) => match try_map(m.destination_ips@, net_fn()) {
                Err(e) => Err(e),
                Ok(destination_ips) => match try_map(m.not_destination_ips@, net_fn()) {
                    Err(e) => Err(e),
                    Ok(not_destination_ips) => Ok(
                        RbacMatchView {
                            namespaces: string_matches_of(m.namespaces@),
                            not_namespaces: string_matches_of(m.not_namespaces@),
                            principals: string_matches_of(m.principals@),
                            not_principals: string_matches_of(m.not_principals@),
                            source_ips,
                            not_source_ips,
                            destination_ips,
                            not_destination_ips,
                            destination_ports: ports16(m.destination_ports@),
                            not_destination_ports: ports16(m.not_destination_ports@),
                        },
                    ),
                },
            },
        },
    }
}

/// `match_of` as a value.
pub open spec fn match_fn() -> spec_fn(XdsMatch) -> Result<RbacMatchView, WorkloadErrorView> {
    |m: XdsMatch| match_of(m)
}

/// The clause that a message describes.
pub open spec fn clause_of(c: XdsClause) -> Result<Seq<RbacMatchView>, WorkloadErrorView> {
    try_map(c.matches@, match_fn())
}

/// `clause_of` as a value.
pub open spec fn clause_fn() -> spec_fn(XdsClause) -> Result<
    Seq<RbacMatchView>,
    WorkloadErrorView,
> {
    |c: XdsClause| clause_of(c)
}

/// The rule that a message describes.
pub open spec fn rule_of(r: XdsRule) -> Result<Seq<Seq<RbacMatchView>>, WorkloadErrorView> {
    try_map(r.clauses@, clause_fn())
}

/// `rule_of` as a value.
pub open spec fn rule_fn() -> spec_fn(XdsRule) -> Result<
    Seq<Seq<RbacMatchView>>,
    WorkloadErrorView,
> {
    |r: XdsRule| rule_of(r)
}

/// The policy that a message describes. The first fault among its
/// rules, then its scope, then its action decides the error.
pub open spec fn authorization_of(x: XdsAuthorization) -> Result<
    AuthorizationView,
    WorkloadErrorView,
> {
    match try_map(x.rules@, rule_fn()) {
        Err(e) => Err(e),
        Ok(rules) => match scope_of(x.scope) {
            Err(e) => Err(e),
            Ok(scope) => match action_of(x.action) {
                Err(e) => Err(e),
                Ok(action) => Ok(
                    AuthorizationView { name: x.name@, namespace: x.namespace@, scope, action, rules },
                ),
            },
        },
    }
}

/// The view of a policy or an error.
pub open spec fn authorization_result(r: Result<Authorization, WorkloadError>) -> Result<
    AuthorizationView,
    WorkloadErrorView,
> {
    match r {
        Ok(a) => Ok(a@),
        Err(e) => Err(e@),
    }
}

fn read_strings(s: &Vec<XdsStringMatch>) -> (r: Vec<StringMatch>)
    ensures
        tests_view(r@) == string_matches_of(s@),
{
    let n = s.len();
    let mut out: Vec<StringMatch> = Vec::new();
    let mut i: usize = 0;
    proof {
        assert(s@.take(0) =~= Seq::<XdsStringMatch>::empty());
        assert(tests_view(out@) =~= Seq::<StringMatchView>::empty());
    }
    while i < n
        invariant
            i <= n,
            n == s@.len(),
            tests_view(out@) == string_matches_of(s@.take(i as int)),
        decreases n - i,
    {
        proof {
            assert(s@.take(i + 1).drop_last() =~= s@.take(i as int));
            assert(s@.take(i + 1).last() == s@[i as int]);
        }
        let ghost before = tests_view(out@);
        match &s[i].match_type {
            Some(XdsMatchType::Exact(t)) => {
                let m = StringMatch::Exact(t.clone());
                out.push(m);
                assert(tests_view(out@) =~= before.push(m@));
            },
            Some(XdsMatchType::Prefix(t)) => {
                let m = StringMatch::Prefix(t.clone());
                out.push(m);
                assert(tests_view(out@) =~= before.push(m@));
            },
            Some(XdsMatchType::Suffix(t)) => {
                let m = StringMatch::Suffix(t.clone());
                out.push(m);
                assert(tests_view(out@) =~= before.push(m@));
            },
            Some(XdsMatchType::Presence) => {
                let m = StringMatch::Presence;
                out.push(m);
                assert(tests_view(out@) =~= before.push(m@));
            },
            None => {},
        }
        i += 1;
    }
    proof {
        assert(s@.take(n as int) =~= s@);
    }
    out
}

fn read_net(n: &XdsIpNet) -> (r: Result<IpNet, WorkloadError>)
    ensures
        match r {
            Ok(net) => net_of(*n) == Ok::<IpNet, WorkloadErrorView>(net),
            Err(e) => net_of(*n) == Err::<IpNet, WorkloadErrorView>(e@),
        },
{
    let ip = match IpAddr::from_octets(n.address.as_slice()) {
        Some(ip) => ip,
        None => {
            return Err(WorkloadError::ByteAddressParse(n.address.len()));
        },
    };
    let prefix_len: u8 = #[verifier::truncate]
    (n.length as u8);
    let max: u8 = match ip {
        IpAddr::V4(_) => 32,
        IpAddr::V6(_) => 128,
    };
    if prefix_len <= max {
        Ok(IpNet { addr: ip, prefix_len })
    } else {
        Err(WorkloadError::PrefixParse(prefix_len))
    }
}

fn read_nets(s: &Vec<XdsIpNet>) -> (r: Result<Vec<IpNet>, WorkloadError>)
    ensures
        match r {
            Ok(nets) => try_map(s@, net_fn()) == Ok::<Seq<IpNet>, WorkloadErrorView>(nets@),
            Err(e) => try_map(s@, net_fn()) == Err::<Seq<IpNet>, WorkloadErrorView>(e@),
        },
{
    let n = s.len();
    let mut out: Vec<IpNet> = Vec::new();
    let mut i: usize = 0;
    proof {
        if n > 0 {
            lemma_try_map_step(s@, net_fn(), 0);
        }
    }
    while i < n
        invariant
            i <= n,
            n == s@.len(),
            try_map(s@.take(i as int), net_fn()) == Ok::<Seq<IpNet>, WorkloadErrorView>(out@),
        decreases n - i,
    {
        proof {
            lemma_try_map_step(s@, net_fn(), i as int);
            assert(net_fn()(s@[i as int]) == net_of(s@[i as int]));
        }
        match read_net(&s[i]) {
            Ok(net) => {
                out.push(net);
            },
            Err(e) => {
                proof {
                    lemma_try_map_fail(s@, net_fn(), i + 1);
                }
                return Err(e);
            },
        }
        i += 1;
    }
    proof {
        assert(s@.take(n as int) =~= s@);
    }
    Ok(out)
}

fn read_ports(s: &Vec<u32>) -> (r: Vec<u16>)
    ensures
        r@ == ports16(s@),
{
    let n = s.len();
    let mut out: Vec<u16> = Vec::new();
    let mut i: usize = 0;
    while i < n
        invariant
            i <= n,
            n == s@.len(),
            out@.len() == i,
            forall|j: int| 0 <= j < i ==> out@[j] == s@[j] as u16,
        decreases n - i,
    {
        out.push(
            #[verifier::truncate]
            (s[i] as u16),
        );
        i += 1;
    }
    assert(out@ =~= ports16(s@));
    out
}

impl RbacMatch {
    /// Reads the alternative that a message describes.
    pub fn try_from(m: &XdsMatch) -> (r: Result<RbacMatch, WorkloadError>)
        ensures
            match r {
                Ok(v) => match_of(*m) == Ok::<RbacMatchView, WorkloadErrorView>(v@),
                Err(e) => match_of(*m) == Err::<RbacMatchView, WorkloadErrorView>(e@),
            },
    {
        proof {
            reveal(match_of);
        }
        let source_ips = match read_nets(&m.source_ips) {
            Ok(v) => v,
            Err(e) => {
                return Err(e);
            },
        };
        let not_source_ips = match read_nets(&m.not_source_ips) {
            Ok(v) => v,
            Err(e) => {
                return Err(e);
            },
        };
        let destination_ips = match read_nets(&m.destination_ips) {
            Ok(v) => v,
            Err(e) => {
                return Err(e);
            },
        };
        let not_destination_ips = match read_nets(&m.not_destination_ips) {
            Ok(v) => v,
            Err(e) => {
                return Err(e);
            },
        };
        Ok(
            RbacMatch {
                namespaces: read_strings(&m.namespaces),
                not_namespaces: read_strings(&m.not_namespaces),
                principals: read_strings(&m.principals),
                not_principals: read_strings(&m.not_principals),
                source_ips,
                not_source_ips,
                destination_ips,
                not_destination_ips,
                destination_ports: read_ports(&m.destination_ports),
                not_destination_ports: read_ports(&m.not_destination_ports),
            },
        )
    }
}

fn read_clause(c: &XdsClause) -> (r: Result<Vec<RbacMatch>, WorkloadError>)
    ensures
        match r {
            Ok(v) => clause_of(*c) == Ok::<Seq<RbacMatchView>, WorkloadErrorView>(clause_view(v@)),
            Err(e) => clause_of(*c) == Err::<Seq<RbacMatchView>, WorkloadErrorView>(e@),
        },
{
    let s = &c.matches;
    let n = s.len();
    let mut out: Vec<RbacMatch> = Vec::new();
    let mut i: usize = 0;
    proof {
        if n > 0 {
            lemma_try_map_step(s@, match_fn(), 0);
        }
        assert(clause_view(out@) =~= Seq::<RbacMatchView>::empty());
    }
    while i < n
        invariant
            i <= n,
            n == s@.len(),
            s == &c.matches,
            try_map(s@.take(i as int), match_fn()) == Ok::<Seq<RbacMatchView>, WorkloadErrorView>(
                clause_view(out@),
            ),
        decreases n - i,
    {
        proof {
            lemma_try_map_step(s@, match_fn(), i as int);
            assert(match_fn()(s@[i as int]) == match_of(s@[i as int]));
        }
        let ghost before = clause_view(out@);
        match RbacMatch::try_from(&s[i]) {
            Ok(m) => {
                out.push(m);
                assert(clause_view(out@) =~= before.push(m@));
            },
            Err(e) => {
                proof {
                    lemma_try_map_fail(s@, match_fn(), i + 1);
                }
                return Err(e);
            },
        }
        i += 1;
    }
    proof {
        assert(s@.take(n as int) =~= s@);
    }
    Ok(out)
}

fn read_rule(r: &XdsRule) -> (res: Result<Vec<Vec<RbacMatch>>, WorkloadError>)
    ensures
        match res {
            Ok(v) => rule_of(*r) == Ok::<Seq<Seq<RbacMatchView>>, WorkloadErrorView>(
                rule_view(v@),
            ),
            Err(e) => rule_of(*r) == Err::<Seq<Seq<RbacMatchView>>, WorkloadErrorView>(e@),
        },
{
    let s = &r.clauses;
    let n = s.len();
    let mut out: Vec<Vec<RbacMatch>> = Vec::new();
    let mut i: usize = 0;
    proof {
        if n > 0 {
            lemma_try_map_step(s@, clause_fn(), 0);
        }
        assert(rule_view(out@) =~= Seq::<Seq<RbacMatchView>>::empty());
    }
    while i < n
        invariant
            i <= n,
            n == s@.len(),
            s == &r.clauses,
            try_map(s@.take(i as int), clause_fn()) == Ok::<
                Seq<Seq<RbacMatchView>>,
                WorkloadErrorView,
            >(rule_view(out@)),
        decreases n - i,
    {
        proof {
            lemma_try_map_step(s@, clause_fn(), i as int);
            assert(clause_fn()(s@[i as int]) == clause_of(s@[i as int]));
        }
        let ghost before = rule_view(out@);
        match read_clause(&s[i]) {
            Ok(c) => {
                let ghost cv = clause_view(c@);
                out.push(c);
                assert(rule_view(out@) =~= before.push(cv));
            },
            Err(e) => {
                proof {
                    lemma_try_map_fail(s@, clause_fn(), i + 1);
                }
                return Err(e);
            },
        }
        i += 1;
    }
    proof {
        assert(s@.take(n as int) =~= s@);
    }
    Ok(out)
}

impl Authorization {
    /// Reads the policy that a message describes.
    pub fn try_from(resource: &XdsAuthorization) -> (r: Result<Authorization, WorkloadError>)
        ensures
            authorization_result(r) == authorization_of(*resource),
    {
        let s = &resource.rules;
        let n = s.len();
        let mut rules: Vec<Vec<Vec<RbacMatch>>> = Vec::new();
        let mut i: usize = 0;
        proof {
            if n > 0 {
                lemma_try_map_step(s@, rule_fn(), 0);
            }
            assert(rules_view(rules@) =~= Seq::<Seq<Seq<RbacMatchView>>>::empty());
        }
        while i < n
            invariant
                i <= n,
                n == s@.len(),
                s == &resource.rules,
                try_map(s@.take(i as int), rule_fn()) == Ok::<
                    Seq<Seq<Seq<RbacMatchView>>>,
                    WorkloadErrorView,
                >(rules_view(rules@)),
            decreases n - i,
        {
            proof {
                lemma_try_map_step(s@, rule_fn(), i as int);
                assert(rule_fn()(s@[i as int]) == rule_of(s@[i as int]));
            }
            let ghost before = rules_view(rules@);
            match read_rule(&s[i]) {
                Ok(r) => {
                    let ghost rv = rule_view(r@);
                    rules.push(r);
                    assert(rules_view(rules@) =~= before.push(rv));
                },
                Err(e) => {
                    proof {
                        lemma_try_map_fail(s@, rule_fn(), i + 1);
                    }
                    return Err(e);
                },
            }
            i += 1;
        }
        proof {
            assert(s@.take(n as int) =~= s@);
        }
        let scope = if resource.scope == 0 {
            RbacScope::Global
        } else if resource.scope == 1 {
            RbacScope::Namespace
        } else if resource.scope == 2 {
            RbacScope::WorkloadSelector
        } else {
            return Err(WorkloadError::EnumParse("unknown type".to_owned()));
        };
        let action = if resource.action == 0 {
            RbacAction::Allow
        } else if resource.action == 1 {
            RbacAction::Deny
        } else {
            return Err(WorkloadError::EnumParse("unknown type".to_owned()));
        };
        Ok(
            Authorization {
                name: resource.name.clone(),
                namespace: resource.namespace.clone(),
                scope,
                action,
                rules,
            },
        )
    }
}

} // verus!
