//! The address resolver: host:port splitting and the resolution cache.
//!
//! `split_spec` is the port-detection rule of the DIRECT path: a bracketed
//! literal IPv6 address is recognized by its leading `[` and a `]:` port
//! suffix, any other name is split at its last `:`, and a bare name defaults
//! to port 80. The cache memoizes successful resolutions for the life of
//! the process; entries never expire. The system resolution call itself is
//! made by the unverified shell, which feeds the result back through
//! `insert`.

use vstd::prelude::*;

use crate::addr::Addr;
use crate::bytes::{bytes_eq, copy_range, is_first_at};
use crate::error::ConnError;

verus! {

/// An ASCII decimal digit.
pub open spec fn is_digit(b: u8) -> bool {
    48 <= b <= 57
}

/// The number the digit string denotes.
pub open spec fn digits_val(s: Seq<u8>) -> int
    decreases s.len(),
{
    if s.len() == 0 {
        0
    } else {
        digits_val(s.subrange(0, s.len() - 1)) * 10 + (s[s.len() - 1] - 48)
    }
}

/// The port a digit string denotes: it must be nonempty, all digits, and
/// fit in 16 bits.
pub open spec fn parse_port_spec(s: Seq<u8>) -> Option<u16> {
    if s.len() > 0 && (forall|i: int| 0 <= i < s.len() ==> is_digit(s[i])) && digits_val(s)
        <= 65535 {
        Some(digits_val(s) as u16)
    } else {
        None
    }
}

/// `i` is the position of the last occurrence of `b` in `s`.
pub open spec fn is_last_at(s: Seq<u8>, b: u8, i: int) -> bool {
    &&& 0 <= i < s.len()
    &&& s[i] == b
    &&& forall|j: int| i < j < s.len() ==> s[j] != b
}

proof fn lemma_last_at_unique(s: Seq<u8>, b: u8, i: int, j: int)
    requires
        is_last_at(s, b, i),
        is_last_at(s, b, j),
    ensures
        i == j,
{
    if i < j {
        assert(s[j] != b);
    } else if j < i {
        assert(s[i] != b);
    }
}

/// How a Host-header value splits into a name to resolve and a port.
///
/// A value starting with `[` must carry a `]:`-introduced port: the name is
/// what the brackets enclose. Otherwise the value splits at its last `:`,
/// whose suffix must be a valid port; with no `:` at all the port defaults
/// to 80. `None` is a name that cannot be resolved (`DnsError`).
pub open spec fn split_spec(h: Seq<u8>) -> Option<(Seq<u8>, u16)> {
    if h.len() > 0 && h[0] == 91 {
        if exists|i: int| is_first_at(h, 0, 93, i) {
            let i = choose|i: int| is_first_at(h, 0, 93, i);
            if i + 1 < h.len() && h[i + 1] == 58 {
                match parse_port_spec(h.subrange(i + 2, h.len() as int)) {
                    Some(p) => Some((h.subrange(1, i), p)),
                    None => None,
                }
            } else {
                None
            }
        } else {
            None
        }
    } else {
        if exists|i: int| is_last_at(h, 58, i) {
            let i = choose|i: int| is_last_at(h, 58, i);
            match parse_port_spec(h.subrange(i + 1, h.len() as int)) {
                Some(p) => Some((h.subrange(0, i), p)),
                None => None,
            }
        } else {
            Some((h, 80))
        }
    }
}

/// Find the last occurrence of `b` in `s`.
fn find_byte_last(s: &[u8], b: u8) -> (r: Option<usize>)
    ensures
        match r {
            Some(i) => is_last_at(s@, b, i as int),
            None => forall|j: int| 0 <= j < s@.len() ==> s@[j] != b,
        },
{
    let mut i: usize = s.len();
    while i > 0
        invariant
            i <= s@.len(),
            forall|j: int| i <= j < s@.len() ==> s@[j] != b,
        decreases i,
    {
        i = i - 1;
        if s[i] == b {
            return Some(i);
        }
    }
    None
}

/// Parse the digit string `s[lo..hi]` as a port.
fn parse_port(s: &[u8], lo: usize, hi: usize) -> (r: Option<u16>)
    requires
        lo <= hi <= s@.len(),
    ensures
        r == parse_port_spec(s@.subrange(lo as int, hi as int)),
{
    let ghost digits = s@.subrange(lo as int, hi as int);
    if lo == hi {
        return None;
    }
    let mut acc: u32 = 0;
    let mut k: usize = lo;
    while k < hi
        invariant
            lo <= k <= hi <= s@.len(),
            forall|j: int| lo <= j < k ==> is_digit(s@[j]),
            digits == s@.subrange(lo as int, hi as int),
            digits_val(digits.subrange(0, k - lo)) <= 65535 ==> acc == digits_val(
                digits.subrange(0, k - lo),
            ),
            digits_val(digits.subrange(0, k - lo)) > 65535 ==> acc == 70000,
            acc <= 70000,
        decreases hi - k,
    {
        let b = s[k];
        if b < 48 || b > 57 {
            proof {
                assert(!is_digit(digits[k as int - lo]));
            }
            return None;
        }
        let ghost pre = digits.subrange(0, k - lo);
        let ghost post = digits.subrange(0, k + 1 - lo);
        proof {
            assert(post.subrange(0, post.len() - 1) =~= pre);
            assert(post[post.len() - 1] == s@[k as int]);
            assert(digits_val(post) == digits_val(pre) * 10 + (b - 48));
        }
        if acc <= 65535 {
            acc = acc * 10 + ((b - 48) as u32);
            if acc > 65535 {
                acc = 70000;
            }
        } else {
            proof {
                assert(digits_val(pre) > 65535);
                assert(digits_val(post) > 65535);
            }
        }
        k = k + 1;
    }
    proof {
        assert(digits.subrange(0, hi - lo) =~= digits);
    }
    if acc <= 65535 {
        Some(acc as u16)
    } else {
        None
    }
}

/// Split a Host-header value into the name to resolve and the port.
pub fn split_host_port(h: &[u8]) -> (r: Option<(Vec<u8>, u16)>)
    ensures
        match r {
            Some(p) => split_spec(h@) == Some((p.0@, p.1)),
            None => split_spec(h@) is None,
        },
{
    let n: usize = h.len();
    if n > 0 && h[0] == 91 {
        match crate::bytes::find_byte_from(h, 0, 93) {
            Some(i) => {
                proof {
                    let ich = choose|k: int| is_first_at(h@, 0, 93, k);
                    crate::bytes::lemma_first_at_unique(h@, 0, 93, ich, i as int);
                }
                if i + 1 < n && h[i + 1] == 58 {
                    match parse_port(h, i + 2, n) {
                        Some(p) => Some((copy_range(h, 1, i), p)),
                        None => None,
                    }
                } else {
                    None
                }
            },
            None => None,
        }
    } else {
        match find_byte_last(h, 58) {
            Some(i) => {
                proof {
                    let ich = choose|k: int| is_last_at(h@, 58, k);
                    lemma_last_at_unique(h@, 58, ich, i as int);
                }
                match parse_port(h, i + 1, n) {
                    Some(p) => Some((copy_range(h, 0, i), p)),
                    None => None,
                }
            },
            None => {
                let name = copy_range(h, 0, n);
                proof {
                    assert(h@.subrange(0, n as int) =~= h@);
                }
                Some((name, 80))
            },
        }
    }
}

/// One memoized resolution.
struct DnsEntry {
    key: Vec<u8>,
    addr: Addr,
}

/// The resolution cache: a map from the Host-header value (lowercased, as
/// it appeared) to the address its first successful resolution returned.
pub struct Dns {
    entries: Vec<DnsEntry>,
}

/// What a resolver query must do: a cached key is answered from the cache;
/// an uncached key names what the system resolver must be asked; a key
/// that does not split is a resolution failure.
pub enum QueryModel {
    Cached(Addr),
    Lookup(Seq<u8>, u16),
    Invalid,
}

/// The outcome of a resolver query.
pub enum Query {
    Cached(Addr),
    Lookup(Vec<u8>, u16),
    Invalid,
}

/// The query outcome as its model.
pub open spec fn query_view(q: Query) -> QueryModel {
    match q {
        Query::Cached(a) => QueryModel::Cached(a),
        Query::Lookup(name, port) => QueryModel::Lookup(name@, port),
        Query::Invalid => QueryModel::Invalid,
    }
}

/// The query a well-formed cache must answer for `key`.
pub open spec fn query_model(m: Map<Seq<u8>, Addr>, key: Seq<u8>) -> QueryModel {
    if m.contains_key(key) {
        QueryModel::Cached(m[key])
    } else {
        match split_spec(key) {
            Some(np) => QueryModel::Lookup(np.0, np.1),
            None => QueryModel::Invalid,
        }
    }
}

impl View for Dns {
    type V = Map<Seq<u8>, Addr>;

    closed spec fn view(&self) -> Map<Seq<u8>, Addr> {
        Map::new(
            |k: Seq<u8>| exists|i: int| 0 <= i < self.key_list().len() && self.key_list()[i] == k,
            |k: Seq<u8>|
                {
                    let i = choose|i: int|
                        0 <= i < self.key_list().len() && self.key_list()[i] == k;
                    self.entries@[i].addr
                },
        )
    }
}

impl Dns {
    /// The cached keys, in insertion order.
    closed spec fn key_list(&self) -> Seq<Seq<u8>> {
        Seq::new(self.entries@.len(), |i: int| self.entries@[i].key@)
    }

    /// No key is cached twice.
    pub closed spec fn wf(&self) -> bool {
        forall|i: int, j: int|
            0 <= i < j < self.key_list().len() ==> self.key_list()[i] != self.key_list()[j]
    }

    /// An empty cache.
    pub fn new() -> (r: Dns)
        ensures
            r.wf(),
            r@ == Map::<Seq<u8>, Addr>::empty(),
    {
        let r = Dns { entries: Vec::new() };
        proof {
            assert(r@ =~= Map::<Seq<u8>, Addr>::empty());
        }
        r
    }

    /// The cached address of a key, if the key was resolved before.
    pub fn lookup(&self, key: &[u8]) -> (r: Option<Addr>)
        requires
            self.wf(),
        ensures
            match r {
                Some(a) => self@.contains_key(key@) && self@[key@] == a,
                None => !self@.contains_key(key@),
            },
    {
        let mut i: usize = 0;
        while i < self.entries.len()
            invariant
                self.wf(),
                i <= self.entries@.len(),
                forall|j: int| 0 <= j < i ==> self.key_list()[j] != key@,
            decreases self.entries@.len() - i,
        {
            if bytes_eq(self.entries[i].key.as_slice(), key) {
                proof {
                    assert(self.key_list()[i as int] == key@);
                    assert(self@.contains_key(key@));
                    let j = choose|j: int|
                        0 <= j < self.key_list().len() && self.key_list()[j] == key@;
                    if j < i {
                        assert(self.key_list()[j] != key@);
                    } else if j > i {
                        assert(self.key_list()[j] != self.key_list()[i as int]);
                    }
                }
                return Some(self.entries[i].addr);
            }
            i = i + 1;
        }
        proof {
            assert(!self@.contains_key(key@));
        }
        None
    }

    /// Record a successful resolution. A later writer for the same key wins,
    /// matching concurrent redundant resolutions whose values are
    /// equivalent.
    pub fn insert(&mut self, key: &[u8], addr: Addr)
        requires
            old(self).wf(),
        ensures
            final(self).wf(),
            final(self)@ == old(self)@.insert(key@, addr),
    {
        let mut i: usize = 0;
        while i < self.entries.len()
            invariant
                self.wf(),
                self == old(self),
                i <= self.entries@.len(),
                forall|j: int| 0 <= j < i ==> self.key_list()[j] != key@,
            decreases self.entries@.len() - i,
        {
            if bytes_eq(self.entries[i].key.as_slice(), key) {
                proof {
                    assert(self.key_list()[i as int] == key@);
                }
                let a = &mut self.entries[i];
                a.addr = addr;
                proof {
                    assert(self.key_list() =~= old(self).key_list());
                    assert forall|k: Seq<u8>| #[trigger] self@.contains_key(k) == old(
                        self,
                    )@.insert(key@, addr).contains_key(k) by {}
                    assert forall|k: Seq<u8>| self@.contains_key(k) implies self@[k] == old(
                        self,
                    )@.insert(key@, addr)[k] by {
                        let j = choose|j: int|
                            0 <= j < self.key_list().len() && self.key_list()[j] == k;
                        if k == key@ {
                            lemma_key_unique(self, j, i as int);
                        } else {
                            assert(j != i);
                            assert(self.entries@[j].addr == old(self).entries@[j].addr);
                        }
                    }
                    assert(self@ =~= old(self)@.insert(key@, addr));
                }
                return ;
            }
            i = i + 1;
        }
        self.entries.push(DnsEntry { key: copy_range(key, 0, key.len()), addr });
        proof {
            assert(key@.subrange(0, key@.len() as int) =~= key@);
            let n = old(self).key_list().len();
            assert(self.key_list().len() == n + 1);
            assert(forall|j: int| 0 <= j < n ==> self.key_list()[j] == old(self).key_list()[j]);
            assert(self.key_list()[n as int] == key@);
            assert forall|k: Seq<u8>| self@.contains_key(k) implies old(self)@.insert(
                key@,
                addr,
            ).contains_key(k) by {
                let j = choose|j: int| 0 <= j < self.key_list().len() && self.key_list()[j] == k;
                if j < n {
                    assert(old(self).key_list()[j] == k);
                    assert(old(self)@.contains_key(k));
                }
            }
            assert forall|k: Seq<u8>| self@.contains_key(k) implies self@[k] == old(self)@.insert(
                key@,
                addr,
            )[k] by {
                let j = choose|j: int| 0 <= j < self.key_list().len() && self.key_list()[j] == k;
                lemma_key_unique(self, j, j);
                if k == key@ {
                    lemma_key_unique(self, j, n as int);
                    assert(self.entries@[j].addr == addr);
                } else {
                    assert(j < n);
                    assert(old(self)@.contains_key(k));
                    let j0 = choose|j0: int|
                        0 <= j0 < old(self).key_list().len() && old(self).key_list()[j0] == k;
                    lemma_key_unique(self, j, j0);
                }
            }
            assert(self@ =~= old(self)@.insert(key@, addr));
        }
    }

    /// Answer a resolver query from the cache: the cached address on a hit,
    /// or the name and port the system resolver must be asked, or that the
    /// key cannot be resolved at all.
    pub fn resolve(&self, key: &[u8]) -> (r: Query)
        requires
            self.wf(),
        ensures
            query_view(r) == query_model(self@, key@),
    {
        match self.lookup(key) {
            Some(a) => Query::Cached(a),
            None => match split_host_port(key) {
                Some(np) => Query::Lookup(np.0, np.1),
                None => Query::Invalid,
            },
        }
    }
}

/// In a well-formed cache two indices holding the same key are one index.
proof fn lemma_key_unique(d: &Dns, i: int, j: int)
    requires
        d.wf(),
        0 <= i < d.key_list().len(),
        0 <= j < d.key_list().len(),
        d.key_list()[i] == d.key_list()[j],
    ensures
        i == j,
{
    if i < j {
        assert(d.key_list()[i] != d.key_list()[j]);
    } else if j < i {
        assert(d.key_list()[j] != d.key_list()[i]);
    }
}

/// Resolver idempotence: once a key's resolution is recorded, a later query
/// of the same key is answered from the cache with that very address — the
/// system resolver is not consulted again.
pub proof fn lemma_resolver_idempotent(m: Map<Seq<u8>, Addr>, key: Seq<u8>, addr: Addr)
    ensures
        query_model(m.insert(key, addr), key) == QueryModel::Cached(addr),
{
}

/// A cache hit leaves the cache alone: querying a cached key any number of
/// times keeps answering the same address.
pub proof fn lemma_cache_hit_stable(m: Map<Seq<u8>, Addr>, key: Seq<u8>)
    requires
        m.contains_key(key),
    ensures
        query_model(m, key) == QueryModel::Cached(m[key]),
{
}

} // verus!
