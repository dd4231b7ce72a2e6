//! The configuration document and the policy composer.
//!
//! The document is loaded once when the plugin is constructed and never
//! mutated afterward.  The composer builds the ordered list of raw policy
//! templates for one service: the defaults first, then the pod- and
//! service-specific additions in document order, duplicates kept.

use vstd::prelude::*;

use crate::strutil::str_eq;

verus! {

/// The policy additions one service of one pod carries.
pub struct ServiceConfig {
    /// Raw policy templates, in document order.
    pub policies: Vec<String>,
}

/// The configuration document.
pub struct Config {
    /// Raw policy templates applied to every service, in document order.
    pub default_policies: Vec<String>,
    /// Per-service policy additions: pod name to service name to the
    /// service's additions.  Absence of a pod or service entry is valid
    /// and contributes no extra policies.
    pub pods: Vec<(String, Vec<(String, ServiceConfig)>)>,
    /// Token lifetime in seconds.
    pub default_ttl: u64,
    /// Additional values injected into every service's environment:
    /// variable name to raw template.
    pub extra_environment: Vec<(String, String)>,
}

/// The mathematical model of a [`Config`].
pub struct ConfigV {
    pub default_policies: Seq<Seq<char>>,
    pub pods: Seq<(Seq<char>, Seq<(Seq<char>, Seq<Seq<char>>)>)>,
    pub default_ttl: u64,
    pub extra_environment: Seq<(Seq<char>, Seq<char>)>,
}

impl View for Config {
    type V = ConfigV;

    open spec fn view(&self) -> ConfigV {
        ConfigV {
            default_policies: self.default_policies.deep_view(),
            pods: self.pods@.map_values(
                |pod: (String, Vec<(String, ServiceConfig)>)|
                    (
                        pod.0@,
                        pod.1@.map_values(
                            |svc: (String, ServiceConfig)| (svc.0@, svc.1.policies.deep_view()),
                        ),
                    ),
            ),
            default_ttl: self.default_ttl,
            extra_environment: self.extra_environment@.map_values(
                |e: (String, String)| (e.0@, e.1@),
            ),
        }
    }
}

/// The first value a key has in an association sequence, searching from
/// position `i` on.
pub open spec fn find_assoc<V>(s: Seq<(Seq<char>, V)>, k: Seq<char>, i: int) -> Option<V>
    decreases s.len() - i,
{
    if !(0 <= i && i < s.len()) {
        None
    } else if s[i].0 == k {
        Some(s[i].1)
    } else {
        find_assoc(s, k, i + 1)
    }
}

/// The policy templates the document adds for one service of one pod:
/// none, unless the document has an entry for both.
pub open spec fn pod_service_policies(cfg: ConfigV, pod: Seq<char>, service: Seq<char>) -> Seq<
    Seq<char>,
> {
    match find_assoc(cfg.pods, pod, 0) {
        None => Seq::empty(),
        Some(services) => match find_assoc(services, service, 0) {
            None => Seq::empty(),
            Some(p) => p,
        },
    }
}

/// The composed raw-template list for one service: the defaults, then the
/// pod- and service-specific additions, in order, duplicates kept.
pub open spec fn composed_templates(cfg: ConfigV, pod: Seq<char>, service: Seq<char>) -> Seq<
    Seq<char>,
> {
    cfg.default_policies + pod_service_policies(cfg, pod, service)
}

impl Config {
    /// The pod's per-service additions, if the document has the pod.
    fn find_pod(&self, pod: &str) -> (r: Option<&Vec<(String, ServiceConfig)>>)
        ensures
            ({
                let found = find_assoc(self@.pods, pod@, 0);
                match r {
                    Some(v) => found matches Some(services) && v@.map_values(
                        |svc: (String, ServiceConfig)| (svc.0@, svc.1.policies.deep_view()),
                    ) == services,
                    None => found is None,
                }
            }),
    {
        let ghost pv = self@.pods;
        let mut i: usize = 0;
        while i < self.pods.len()
            invariant
                pv == self@.pods,
                pv.len() == self.pods@.len(),
                0 <= i <= self.pods@.len(),
                forall|j: int| 0 <= j < self.pods@.len() ==> pv[j].0 == self.pods@[j].0@,
                forall|j: int|
                    0 <= j < self.pods@.len() ==> pv[j].1 == self.pods@[j].1@.map_values(
                        |svc: (String, ServiceConfig)| (svc.0@, svc.1.policies.deep_view()),
                    ),
                find_assoc(pv, pod@, 0) == find_assoc(pv, pod@, i as int),
            decreases self.pods@.len() - i,
        {
            if str_eq(self.pods[i].0.as_str(), pod) {
                return Some(&self.pods[i].1);
            }
            i = i + 1;
        }
        None
    }

    /// The service's additions inside one pod entry, if it has the service.
    fn find_service<'a>(
        services: &'a Vec<(String, ServiceConfig)>,
        service: &str,
    ) -> (r: Option<&'a ServiceConfig>)
        ensures
            ({
                let sv = services@.map_values(
                    |svc: (String, ServiceConfig)| (svc.0@, svc.1.policies.deep_view()),
                );
                let found = find_assoc(sv, service@, 0);
                match r {
                    Some(c) => found matches Some(p) && c.policies.deep_view() == p,
                    None => found is None,
                }
            }),
    {
        let ghost sv = services@.map_values(
            |svc: (String, ServiceConfig)| (svc.0@, svc.1.policies.deep_view()),
        );
        let mut i: usize = 0;
        while i < services.len()
            invariant
                sv == services@.map_values(
                    |svc: (String, ServiceConfig)| (svc.0@, svc.1.policies.deep_view()),
                ),
                sv.len() == services@.len(),
                0 <= i <= services@.len(),
                forall|j: int| 0 <= j < services@.len() ==> sv[j].0 == services@[j].0@,
                forall|j: int|
                    0 <= j < services@.len() ==> sv[j].1 == services@[j].1.policies.deep_view(),
                find_assoc(sv, service@, 0) == find_assoc(sv, service@, i as int),
            decreases services@.len() - i,
        {
            if str_eq(services[i].0.as_str(), service) {
                return Some(&services[i].1);
            }
            i = i + 1;
        }
        None
    }

    /// Composes the raw-template list for one service: a copy of the
    /// defaults, extended with the pod- and service-specific additions if
    /// the document has them.  No deduplication: a template in both sets
    /// appears twice.
    pub fn compose_templates(&self, pod: &str, service: &str) -> (r: Vec<String>)
        ensures
            r.deep_view() == composed_templates(self@, pod@, service@),
    {
        let mut out: Vec<String> = Vec::new();
        let mut i: usize = 0;
        while i < self.default_policies.len()
            invariant
                0 <= i <= self.default_policies@.len(),
                out.deep_view() =~= self@.default_policies.subrange(0, i as int),
            decreases self.default_policies@.len() - i,
        {
            let ghost out0 = out.deep_view();
            let p = self.default_policies[i].clone();
            proof {
                assert(p@ == self.default_policies@[i as int]@);
            }
            out.push(p);
            proof {
                assert(out@.len() == out0.len() + 1);
                assert(forall|j: int| 0 <= j < out0.len() ==> out.deep_view()[j] == out0[j]);
                assert(out.deep_view()[out0.len() as int] == p@);
            }
            i = i + 1;
        }
        proof {
            assert(out.deep_view() =~= self@.default_policies);
        }
        let extra: Option<&ServiceConfig> = match self.find_pod(pod) {
            Some(services) => Self::find_service(services, service),
            None => None,
        };
        match extra {
            None => {
                proof {
                    assert(out.deep_view() =~= composed_templates(self@, pod@, service@));
                }
                out
            },
            Some(cfg) => {
                let ghost base = out.deep_view();
                let mut i: usize = 0;
                while i < cfg.policies.len()
                    invariant
                        0 <= i <= cfg.policies@.len(),
                        out.deep_view() =~= base + cfg.policies.deep_view().subrange(0, i as int),
                    decreases cfg.policies@.len() - i,
                {
                    let ghost out0 = out.deep_view();
                    let p = cfg.policies[i].clone();
                    proof {
                        assert(p@ == cfg.policies@[i as int]@);
                    }
                    out.push(p);
                    proof {
                        assert(out@.len() == out0.len() + 1);
                        assert(forall|j: int|
                            0 <= j < out0.len() ==> out.deep_view()[j] == out0[j]);
                        assert(out0.len() == base.len() + i);
                        assert(out.deep_view()[out0.len() as int] == p@);
                        assert(p@ == cfg.policies.deep_view()[i as int]);
                        let rhs = base + cfg.policies.deep_view().subrange(0, i + 1);
                        assert(out.deep_view().len() == rhs.len());
                        assert forall|j: int| 0 <= j < rhs.len() implies out.deep_view()[j]
                            == rhs[j] by {
                            if j < base.len() {
                                assert(out.deep_view()[j] == out0[j]);
                                assert(rhs[j] == base[j]);
                            } else if j < base.len() + i {
                                assert(out.deep_view()[j] == out0[j]);
                                assert(rhs[j] == cfg.policies.deep_view()[j - base.len()]);
                            } else {
                                assert(rhs[j] == cfg.policies.deep_view()[i as int]);
                            }
                        }
                        assert(out.deep_view() =~= rhs);
                    }
                    i = i + 1;
                }
                proof {
                    assert(out.deep_view() =~= composed_templates(self@, pod@, service@));
                }
                out
            },
        }
    }
}

} // verus!
