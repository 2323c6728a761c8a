//! The cryptographic identity of a workload.

use crate::table::Record;
use vstd::prelude::*;

verus! {

/// The subject of a workload certificate: trust domain, namespace and
/// service account.
#[derive(Debug, Clone, PartialEq, Eq, Hash)]
pub enum Identity {
    Spiffe { trust_domain: String, namespace: String, service_account: String },
}

/// What an `Identity` stands for.
pub struct IdentityView {
    pub trust_domain: Seq<char>,
    pub namespace: Seq<char>,
    pub service_account: Seq<char>,
}

impl View for Identity {
    type V = IdentityView;

    open spec fn view(&self) -> IdentityView {
        match self {
            Identity::Spiffe { trust_domain, namespace, service_account } => IdentityView {
                trust_domain: trust_domain@,
                namespace: namespace@,
                service_account: service_account@,
            },
        }
    }
}

impl Record for Identity {
    fn duplicate(&self) -> (r: Self) {
        match self {
            Identity::Spiffe { trust_domain, namespace, service_account } => Identity::Spiffe {
                trust_domain: trust_domain.clone(),
                namespace: namespace.clone(),
                service_account: service_account.clone(),
            },
        }
    }
}

impl Identity {
    /// Whether two identities name the same subject.
    pub fn same(&self, other: &Identity) -> (r: bool)
        ensures
            r == (self@ == other@),
    {
        match (self, other) {
            (
                Identity::Spiffe { trust_domain: t1, namespace: n1, service_account: s1 },
                Identity::Spiffe { trust_domain: t2, namespace: n2, service_account: s2 },
            ) => *t1 == *t2 && *n1 == *n2 && *s1 == *s2,
        }
    }
}

/// The view of an optional identity.
pub open spec fn identity_opt(o: Option<Identity>) -> Option<IdentityView> {
    match o {
        Some(i) => Some(i@),
        None => None,
    }
}

/// Whether two optional identities are both absent or name the same subject.
pub fn same_identity(a: &Option<Identity>, b: &Option<Identity>) -> (r: bool)
    ensures
        r == (identity_opt(*a) == identity_opt(*b)),
{
    match (a, b) {
        (Some(x), Some(y)) => x.same(y),
        (None, None) => true,
        _ => false,
    }
}

} // verus!
