//! The immutable configuration and the routing decision.
//!
//! `Hosts` is the set of host names that must go through the upstream proxy;
//! membership is case-insensitive. `App` bundles the configuration the
//! engine reads per connection; its `decision` routes a request head:
//! PROXY for configured hosts, DIRECT for all others.

use vstd::prelude::*;

use crate::addr::Addr;
use crate::bytes::{bytes_eq, lower, to_lower};

verus! {

/// The configured host set. Entries are stored lowercased, so the view is a
/// set of lowercase byte strings and membership is case-insensitive.
pub struct Hosts {
    entries: Vec<Vec<u8>>,
}

impl View for Hosts {
    type V = Set<Seq<u8>>;

    closed spec fn view(&self) -> Set<Seq<u8>> {
        Set::new(
            |s: Seq<u8>|
                exists|i: int| 0 <= i < self.entry_list().len() && self.entry_list()[i] == s,
        )
    }
}

impl Hosts {
    /// The stored entries, in insertion order, as byte sequences.
    pub closed spec fn entry_list(&self) -> Seq<Seq<u8>> {
        Seq::new(self.entries@.len(), |i: int| self.entries@[i]@)
    }

    /// Every stored entry is lowercase.
    pub closed spec fn wf(&self) -> bool {
        forall|i: int| 0 <= i < self.entry_list().len() ==> #[trigger] self.entry_list()[i] == lower(self.entry_list()[i])
    }

    /// An empty host set.
    pub fn new() -> (r: Hosts)
        ensures
            r.wf(),
            r@ == Set::<Seq<u8>>::empty(),
    {
        let r = Hosts { entries: Vec::new() };
        proof {
            assert(r@ =~= Set::<Seq<u8>>::empty());
        }
        r
    }

    /// The stored entry count.
    pub fn len(&self) -> (n: usize)
        ensures
            n == self.entry_list().len(),
    {
        self.entries.len()
    }

    /// The stored (lowercased) entry at `i`.
    pub fn entry(&self, i: usize) -> (r: &Vec<u8>)
        requires
            i < self.entry_list().len(),
        ensures
            r@ == self.entry_list()[i as int],
            self@.contains(r@),
    {
        let r = &self.entries[i];
        proof {
            assert(self.entry_list()[i as int] == r@);
        }
        r
    }

    /// Add a host name; it is stored lowercased, so any later casing of the
    /// same name matches it.
    pub fn add(&mut self, host: &[u8])
        requires
            old(self).wf(),
        ensures
            final(self).wf(),
            final(self)@ == old(self)@.insert(lower(host@)),
    {
        let low = to_lower(host);
        proof {
            crate::bytes::lemma_lower_idempotent(host@);
        }
        self.entries.push(low);
        proof {
            let n = old(self).entry_list().len();
            assert(self.entry_list().len() == n + 1);
            assert(forall|i: int| 0 <= i < n ==> self.entry_list()[i] == old(self).entry_list()[i]);
            assert(self.entry_list()[n as int] == lower(host@));
            assert forall|s: Seq<u8>| self@.contains(s) implies old(self)@.insert(
                lower(host@),
            ).contains(s) by {
                let i = choose|i: int|
                    0 <= i < self.entry_list().len() && self.entry_list()[i] == s;
                if i < n {
                    assert(old(self).entry_list()[i] == s);
                    assert(old(self)@.contains(s));
                }
            }
            assert forall|s: Seq<u8>| old(self)@.insert(lower(host@)).contains(s) implies self@.contains(
                s,
            ) by {
                if old(self)@.contains(s) {
                    let i = choose|i: int|
                        0 <= i < old(self).entry_list().len() && old(self).entry_list()[i] == s;
                    assert(self.entry_list()[i] == s);
                } else {
                    assert(self.entry_list()[n as int] == s);
                }
            }
            assert(self@ =~= old(self)@.insert(lower(host@)));
        }
    }

    /// Is this (already lowercased) name a member?
    pub fn contains(&self, host: &[u8]) -> (r: bool)
        ensures
            r == self@.contains(host@),
    {
        let mut i: usize = 0;
        while i < self.entries.len()
            invariant
                i <= self.entry_list().len(),
                self.entries@.len() == self.entry_list().len(),
                forall|j: int| 0 <= j < i ==> self.entry_list()[j] != host@,
            decreases self.entry_list().len() - i,
        {
            if bytes_eq(self.entries[i].as_slice(), host) {
                proof {
                    assert(self.entry_list()[i as int] == host@);
                    assert(self@.contains(host@));
                }
                return true;
            }
            i = i + 1;
        }
        assert(!self@.contains(host@));
        false
    }
}

/// The routing outcome for one connection.
#[derive(Clone, Copy, PartialEq, Eq, Structural, Debug)]
pub enum Route {
    Proxy,
    Direct,
}

/// The immutable configuration the engine reads. It is created once at
/// startup and never mutated.
pub struct App {
    pub proxy: Addr,
    pub hosts: Hosts,
    pub debug: bool,
}

impl App {
    /// Routing decision on the Host-header value as the client sent it:
    /// PROXY exactly when its lowercase form is a configured host.
    pub open spec fn decision(&self, raw_host: Seq<u8>) -> Route {
        if self.hosts@.contains(lower(raw_host)) {
            Route::Proxy
        } else {
            Route::Direct
        }
    }

    /// Well-formed configuration: the host set stores lowercase entries.
    pub open spec fn wf(&self) -> bool {
        self.hosts.wf()
    }

    /// Route a Host-header value that was already lowercased.
    pub fn route(&self, host_lower: &[u8]) -> (r: Route)
        requires
            host_lower@ == lower(host_lower@),
        ensures
            r == self.decision(host_lower@),
    {
        proof {
            crate::bytes::lemma_lower_idempotent(host_lower@);
        }
        if self.hosts.contains(host_lower) {
            Route::Proxy
        } else {
            Route::Direct
        }
    }
}

/// Two spellings of one name that agree after lowercasing are routed the
/// same way; in particular any casing of a configured host is routed PROXY,
/// and any name whose lowercase form is not configured is routed DIRECT.
pub proof fn lemma_decision_case_insensitive(app: &App, a: Seq<u8>, b: Seq<u8>)
    requires
        lower(a) == lower(b),
    ensures
        app.decision(a) == app.decision(b),
        app.hosts@.contains(lower(a)) ==> app.decision(a) == Route::Proxy,
        !app.hosts@.contains(lower(a)) ==> app.decision(a) == Route::Direct,
{
}

/// The worker-thread count actually used: the requested count, or the
/// platform's available parallelism (1 when unknown) for a request of 0,
/// capped at 128.
pub open spec fn worker_count_spec(requested: usize, available: Option<usize>) -> usize {
    let base = if requested == 0 {
        match available {
            Some(n) => n,
            None => 1,
        }
    } else {
        requested
    };
    if base <= 128 {
        base
    } else {
        128
    }
}

/// Bound the configured worker-thread count as the engine starts.
pub fn worker_count(requested: usize, available: Option<usize>) -> (r: usize)
    ensures
        r == worker_count_spec(requested, available),
{
    let base = if requested == 0 {
        match available {
            Some(n) => n,
            None => 1,
        }
    } else {
        requested
    };
    if base <= 128 {
        base
    } else {
        128
    }
}

} // verus!
