//! A worker's set of live connections.
//!
//! Each worker owns an unordered collection of connections and advances
//! every one of them once per tick; a finished connection is removed in
//! O(1) by swapping the last element into its place. Order is not
//! preserved, and none is promised: correctness is stated over the
//! multiset of connections.

use vstd::multiset::Multiset;
use vstd::prelude::*;

use crate::conn::Connection;

verus! {

/// The collection after removing position `i` by swap-with-last-and-pop.
pub open spec fn swap_removed(s: Seq<Connection>, i: int) -> Seq<Connection> {
    s.update(i, s.last()).drop_last()
}

/// Swap-removal removes exactly the element at `i`: every other
/// connection keeps its multiplicity, so no live connection is dropped or
/// duplicated, and one finished connection leaves.
pub proof fn lemma_swap_remove_multiset(s: Seq<Connection>, i: int)
    requires
        0 <= i < s.len(),
    ensures
        swap_removed(s, i).to_multiset() == s.to_multiset().remove(s[i]),
        forall|c: Connection|
            c != s[i] ==> swap_removed(s, i).to_multiset().count(c) == s.to_multiset().count(c),
        swap_removed(s, i).to_multiset().count(s[i]) == s.to_multiset().count(s[i]) - 1,
{
    broadcast use vstd::seq_lib::group_to_multiset_ensures;

    let n = s.len() - 1;
    let x = s[i];
    let l = s[n];
    let t = s.update(i, l);
    let f = swap_removed(s, i);
    assert(f =~= t.remove(n));
    assert(t.remove(n).to_multiset() =~= t.to_multiset().remove(t[n]));
    if i == n {
        assert(t =~= s);
        assert(f.to_multiset() =~= s.to_multiset().remove(x));
    } else {
        let a = s.subrange(0, i);
        let b = s.subrange(i + 1, s.len() as int);
        assert(s =~= a + (seq![x] + b));
        assert(t =~= a + (seq![l] + b));
        vstd::seq_lib::lemma_multiset_commutative(a, seq![x] + b);
        vstd::seq_lib::lemma_multiset_commutative(seq![x], b);
        vstd::seq_lib::lemma_multiset_commutative(a, seq![l] + b);
        vstd::seq_lib::lemma_multiset_commutative(seq![l], b);
        assert(seq![x] =~= Seq::<Connection>::empty().push(x));
        assert(seq![l] =~= Seq::<Connection>::empty().push(l));
        assert(Seq::<Connection>::empty().to_multiset() =~= Multiset::<Connection>::empty());
        assert(seq![x].to_multiset() =~= Multiset::<Connection>::empty().insert(x));
        assert(seq![l].to_multiset() =~= Multiset::<Connection>::empty().insert(l));
        assert(t[n] == l);
        assert(f.to_multiset() =~= s.to_multiset().remove(x));
    }
    assert(s.to_multiset().count(x) > 0) by {
        assert(s.contains(x));
    }
}

/// Removing a finished connection leaves the multiset of still-active
/// connections exactly as it was: active connections are neither dropped
/// nor duplicated by any sequence of swap-removals.
pub proof fn lemma_removal_preserves_active(s: Seq<Connection>, i: int)
    requires
        0 <= i < s.len(),
        s[i].state is Done,
    ensures
        forall|c: Connection|
            !(c.state is Done) ==> swap_removed(s, i).to_multiset().count(c)
                == s.to_multiset().count(c),
{
    lemma_swap_remove_multiset(s, i);
}

/// The collection after a whole run of swap-removals, one pick at a time.
pub open spec fn removal_run(s: Seq<Connection>, picks: Seq<int>) -> Seq<Connection>
    decreases picks.len(),
{
    if picks.len() == 0 {
        s
    } else {
        removal_run(swap_removed(s, picks[0]), picks.drop_first())
    }
}

/// Every pick of the run is in range and names a finished connection at
/// the moment it is removed.
pub open spec fn picks_finished(s: Seq<Connection>, picks: Seq<int>) -> bool
    decreases picks.len(),
{
    if picks.len() == 0 {
        true
    } else {
        &&& 0 <= picks[0] < s.len()
        &&& s[picks[0]].state is Done
        &&& picks_finished(swap_removed(s, picks[0]), picks.drop_first())
    }
}

/// Worker removal correctness: after any number of connections finish and
/// are swap-removed in an arbitrary interleaving, the live set holds every
/// still-active connection with its original multiplicity — none dropped,
/// none duplicated.
pub proof fn lemma_removal_run_preserves_active(s: Seq<Connection>, picks: Seq<int>)
    requires
        picks_finished(s, picks),
    ensures
        forall|c: Connection|
            !(c.state is Done) ==> removal_run(s, picks).to_multiset().count(c)
                == s.to_multiset().count(c),
    decreases picks.len(),
{
    if picks.len() > 0 {
        lemma_removal_preserves_active(s, picks[0]);
        lemma_removal_run_preserves_active(swap_removed(s, picks[0]), picks.drop_first());
    }
}

/// A worker's live set.
pub struct Worker {
    conns: Vec<Connection>,
}

impl View for Worker {
    type V = Seq<Connection>;

    closed spec fn view(&self) -> Seq<Connection> {
        self.conns@
    }
}

impl Worker {
    /// A worker with no connections.
    pub fn new() -> (r: Worker)
        ensures
            r@ == Seq::<Connection>::empty(),
    {
        let r = Worker { conns: Vec::new() };
        proof {
            assert(r@ =~= Seq::<Connection>::empty());
        }
        r
    }

    /// Take ownership of a newly dispatched connection.
    pub fn push(&mut self, c: Connection)
        ensures
            final(self)@ == old(self)@.push(c),
    {
        self.conns.push(c);
    }

    /// How many connections are live.
    pub fn len(&self) -> (n: usize)
        ensures
            n == self@.len(),
    {
        self.conns.len()
    }

    /// The connection at `i`.
    pub fn get(&self, i: usize) -> (r: Connection)
        requires
            i < self@.len(),
        ensures
            r == self@[i as int],
    {
        self.conns[i]
    }

    /// Store back the connection at `i` after stepping its state machine.
    pub fn set(&mut self, i: usize, c: Connection)
        requires
            i < old(self)@.len(),
        ensures
            final(self)@ == old(self)@.update(i as int, c),
    {
        self.conns[i] = c;
    }

    /// Remove the finished connection at `i` by swapping the last
    /// connection into its place and popping: O(1), order not preserved.
    pub fn remove_done(&mut self, i: usize)
        requires
            i < old(self)@.len(),
            old(self)@[i as int].state is Done,
        ensures
            final(self)@ == swap_removed(old(self)@, i as int),
            final(self)@.len() == old(self)@.len() - 1,
            final(self)@.to_multiset() == old(self)@.to_multiset().remove(old(self)@[i as int]),
            forall|c: Connection|
                !(c.state is Done) ==> final(self)@.to_multiset().count(c)
                    == old(self)@.to_multiset().count(c),
    {
        let last = self.conns.pop().unwrap();
        if i < self.conns.len() {
            self.conns[i] = last;
        }
        proof {
            assert(self@ =~= swap_removed(old(self)@, i as int));
            lemma_swap_remove_multiset(old(self)@, i as int);
            lemma_removal_preserves_active(old(self)@, i as int);
        }
    }
}

} // verus!
