//! The merged service-definition tree the plugin mutates: the services of
//! one pod, each with its environment, in the order the tree presents
//! them.

use vstd::prelude::*;

use crate::envmap::EnvMap;

verus! {

/// One service of the merged definition tree.
pub struct Service {
    /// The service's name.
    pub name: String,
    /// The service's environment, the plugin's sole mutation target.
    pub environment: EnvMap,
}

/// The mathematical model of a [`Service`].
pub struct ServiceV {
    pub name: Seq<char>,
    pub environment: Map<Seq<char>, Seq<char>>,
}

impl View for Service {
    type V = ServiceV;

    open spec fn view(&self) -> ServiceV {
        ServiceV { name: self.name@, environment: self.environment@ }
    }
}

/// The merged definition tree: the services in presentation order.
pub struct File {
    /// The services, in the order the tree presents them.
    pub services: Vec<Service>,
}

impl View for File {
    type V = Seq<ServiceV>;

    open spec fn view(&self) -> Seq<ServiceV> {
        self.services@.map_values(|s: Service| s@)
    }
}

/// The position of the first service called `name`, from `i` on.
pub open spec fn service_index(s: Seq<ServiceV>, name: Seq<char>, i: int) -> Option<int>
    decreases s.len() - i,
{
    if !(0 <= i && i < s.len()) {
        None
    } else if s[i].name == name {
        Some(i)
    } else {
        service_index(s, name, i + 1)
    }
}

impl File {
    /// Takes the service at position `i` out of the tree, to be given
    /// back with [`File::put_service`] once processed.
    pub fn take_service(&mut self, i: usize) -> (r: Service)
        requires
            i < old(self)@.len(),
        ensures
            r@ == old(self)@[i as int],
            final(self)@.len() == old(self)@.len() - 1,
            forall|j: int| 0 <= j < i ==> final(self)@[j] == old(self)@[j],
            forall|j: int|
                i <= j < final(self)@.len() ==> final(self)@[j] == old(self)@[j + 1],
    {
        let r = self.services.remove(i);
        proof {
            assert forall|j: int| 0 <= j < i implies self@[j] == old(self)@[j] by {
                assert(self.services@[j] == old(self).services@[j]);
            }
            assert forall|j: int| i <= j < self@.len() implies self@[j] == old(self)@[j + 1] by {
                assert(self.services@[j] == old(self).services@[j + 1]);
            }
        }
        r
    }

    /// Puts a service back at position `i`, shifting the rest right.
    pub fn put_service(&mut self, i: usize, svc: Service)
        requires
            i <= old(self)@.len(),
        ensures
            final(self)@.len() == old(self)@.len() + 1,
            forall|j: int| 0 <= j < i ==> final(self)@[j] == old(self)@[j],
            final(self)@[i as int] == svc@,
            forall|j: int|
                i < j < final(self)@.len() ==> final(self)@[j] == old(self)@[j - 1],
    {
        let ghost svc_v = svc@;
        self.services.insert(i, svc);
        proof {
            assert forall|j: int| 0 <= j < i implies self@[j] == old(self)@[j] by {
                assert(self.services@[j] == old(self).services@[j]);
            }
            assert(self.services@[i as int]@ == svc_v);
            assert forall|j: int| i < j < self@.len() implies self@[j] == old(self)@[j - 1] by {
                assert(self.services@[j] == old(self).services@[j - 1]);
            }
        }
    }

    /// The first service with this name, if the tree has one.
    pub fn get_service(&self, name: &str) -> (r: Option<&Service>)
        ensures
            match r {
                Some(svc) => service_index(self@, name@, 0) matches Some(j) && svc@ == self@[j],
                None => service_index(self@, name@, 0) is None,
            },
    {
        let ghost sv = self@;
        let mut i: usize = 0;
        while i < self.services.len()
            invariant
                sv == self@,
                sv.len() == self.services@.len(),
                0 <= i <= self.services@.len(),
                service_index(sv, name@, 0) == service_index(sv, name@, i as int),
            decreases self.services@.len() - i,
        {
            if crate::strutil::str_eq(self.services[i].name.as_str(), name) {
                return Some(&self.services[i]);
            }
            i = i + 1;
        }
        None
    }
}

} // verus!
