//! The client side: one connection per peer address (`ip:port`), reused by
//! every message to that peer, and closed by a periodic sweep once it has been
//! idle for a while (so that the radio can sleep); the next message reconnects.
//!
//! The pool is generic over the connection type: the host keeps its TCP
//! streams in it and tells it the time of each use (a monotonic clock, in
//! nanoseconds).

use vstd::prelude::*;
use crate::text::{chars_of, decimal, push_decimal, string_from_chars};

verus! {

/// TCP keepalive time set on each new connection, in seconds (the operating
/// system keeps the connection alive instead of application heartbeats).
pub const KEEPALIVE_SECS: u64 = 120;

/// The address of a peer's service: `ip:port`, the port in decimal.
pub open spec fn spec_peer_address(ip: Seq<char>, port: u16) -> Seq<char> {
    ip + seq![':'] + decimal(port as nat)
}

/// The address of the service of the peer with virtual IP `ip`.
pub fn peer_address(ip: &str, port: u16) -> (r: String)
    ensures
        r@ == spec_peer_address(ip@, port),
{
    let mut v = chars_of(ip);
    v.push(':');
    push_decimal(port as u32, &mut v);
    assert(v@ =~= spec_peer_address(ip@, port));
    string_from_chars(v)
}

/// Five seconds, in nanoseconds.
pub const MIN_SWEEP_NANOS: u64 = 5_000_000_000;

/// Thirty seconds, in nanoseconds.
pub const MAX_SWEEP_NANOS: u64 = 30_000_000_000;

/// The interval between two sweeps for an idle time of `idle` nanoseconds: a
/// quarter of it, but at least five and at most thirty seconds.
pub open spec fn spec_sweep_interval(idle: u128) -> u64 {
    let q = idle / 4;
    if q < MIN_SWEEP_NANOS {
        MIN_SWEEP_NANOS
    } else if q > MAX_SWEEP_NANOS {
        MAX_SWEEP_NANOS
    } else {
        q as u64
    }
}

/// The interval between two sweeps of idle connections, in nanoseconds.
pub fn sweep_interval(idle_nanos: u128) -> (r: u64)
    ensures
        r == spec_sweep_interval(idle_nanos),
        MIN_SWEEP_NANOS <= r <= MAX_SWEEP_NANOS,
{
    let q = idle_nanos / 4;
    if q < MIN_SWEEP_NANOS as u128 {
        MIN_SWEEP_NANOS
    } else if q > MAX_SWEEP_NANOS as u128 {
        MAX_SWEEP_NANOS
    } else {
        q as u64
    }
}

/// Whether a connection last used at `last` is still fresh at `now` for an
/// idle limit of `idle`: less than `idle` has elapsed (a clock that went back
/// counts as no time elapsed).
pub open spec fn is_fresh(last: u64, now: u64, idle: u64) -> bool {
    (if now >= last {
        now - last
    } else {
        0
    }) < idle
}

struct Entry<S> {
    address: Vec<char>,
    conn: S,
    last_active: u64,
}

/// The open connections, one per peer address, with the time of their last use.
pub struct ConnectionPool<S> {
    entries: Vec<Entry<S>>,
}

spec fn distinct<S>(es: Seq<Entry<S>>) -> bool {
    forall|i: int, j: int| 0 <= i < j < es.len() ==> es[i].address@ != es[j].address@
}

spec fn has_key<S>(es: Seq<Entry<S>>, a: Seq<char>) -> bool {
    exists|i: int| 0 <= i < es.len() && es[i].address@ == a
}

spec fn map_of<S>(es: Seq<Entry<S>>) -> Map<Seq<char>, (S, u64)> {
    Map::new(
        |a: Seq<char>| has_key(es, a),
        |a: Seq<char>|
            {
                let i = choose|i: int| 0 <= i < es.len() && es[i].address@ == a;
                (es[i].conn, es[i].last_active)
            },
    )
}

spec fn keys<S>(es: Seq<Entry<S>>) -> Seq<Seq<char>> {
    es.map_values(|e: Entry<S>| e.address@)
}

impl<S> View for ConnectionPool<S> {
    type V = Map<Seq<char>, (S, u64)>;

    /// Each peer address with its connection and the time of its last use.
    closed spec fn view(&self) -> Map<Seq<char>, (S, u64)> {
        map_of(self.entries@)
    }
}

proof fn lemma_entry<S>(es: Seq<Entry<S>>, i: int)
    requires
        distinct(es),
        0 <= i < es.len(),
    ensures
        map_of(es).contains_key(es[i].address@),
        map_of(es)[es[i].address@] == (es[i].conn, es[i].last_active),
{
    let a = es[i].address@;
    assert(has_key(es, a));
    let j = choose|j: int| 0 <= j < es.len() && es[j].address@ == a;
    assert(j == i) by {
        if j < i {
            assert(es[j].address@ != es[i].address@);
        } else if j > i {
            assert(es[i].address@ != es[j].address@);
        }
    }
}

proof fn lemma_swap_remove<S>(es: Seq<Entry<S>>, i: int)
    requires
        distinct(es),
        0 <= i < es.len(),
    ensures
        distinct(es.update(i, es.last()).drop_last()),
        map_of(es.update(i, es.last()).drop_last()) =~= map_of(es).remove(es[i].address@),
{
    let n = es.len();
    let r = es.update(i, es.last()).drop_last();
    assert forall|p: int, q: int| 0 <= p < q < r.len() implies r[p].address@ != r[q].address@ by {
        let pp = if p == i {
            n - 1
        } else {
            p
        };
        let qq = if q == i {
            n - 1
        } else {
            q
        };
        assert(r[p] == es[pp] && r[q] == es[qq]);
        assert(pp != qq);
        if pp < qq {
            assert(es[pp].address@ != es[qq].address@);
        } else {
            assert(es[qq].address@ != es[pp].address@);
        }
    }
    let removed = es[i].address@;
    assert forall|a: Seq<char>| #[trigger] has_key(r, a) <==> (has_key(es, a) && a != removed) by {
        if has_key(r, a) {
            let p = choose|p: int| 0 <= p < r.len() && r[p].address@ == a;
            let pp = if p == i {
                n - 1
            } else {
                p
            };
            assert(r[p] == es[pp]);
            assert(pp != i);
            if pp < i {
                assert(es[pp].address@ != es[i].address@);
            } else {
                assert(es[i].address@ != es[pp].address@);
            }
        }
        if has_key(es, a) && a != removed {
            let p = choose|p: int| 0 <= p < es.len() && es[p].address@ == a;
            assert(p != i);
            if p == n - 1 {
                assert(r[i] == es[p]);
            } else {
                assert(r[p] == es[p]);
            }
        }
    }
    assert forall|a: Seq<char>| #[trigger] map_of(r).contains_key(a) implies map_of(r)[a]
        == map_of(es)[a] by {
        let p = choose|p: int| 0 <= p < r.len() && r[p].address@ == a;
        lemma_entry(r, p);
        let pp = if p == i {
            n - 1
        } else {
            p
        };
        assert(r[p] == es[pp]);
        lemma_entry(es, pp);
    }
}

proof fn lemma_push<S>(es: Seq<Entry<S>>, e: Entry<S>)
    requires
        distinct(es),
        !has_key(es, e.address@),
    ensures
        distinct(es.push(e)),
        map_of(es.push(e)) =~= map_of(es).insert(e.address@, (e.conn, e.last_active)),
{
    let r = es.push(e);
    assert forall|p: int, q: int| 0 <= p < q < r.len() implies r[p].address@ != r[q].address@ by {
        if q == es.len() {
            assert(r[p] == es[p]);
        } else {
            assert(r[p] == es[p] && r[q] == es[q]);
        }
    }
    assert forall|a: Seq<char>| #[trigger] has_key(r, a) <==> (has_key(es, a) || a == e.address@) by {
        if has_key(r, a) {
            let p = choose|p: int| 0 <= p < r.len() && r[p].address@ == a;
            if p < es.len() {
                assert(r[p] == es[p]);
            }
        }
        if has_key(es, a) {
            let p = choose|p: int| 0 <= p < es.len() && es[p].address@ == a;
            assert(r[p] == es[p]);
        }
        if a == e.address@ {
            assert(r[es.len() as int] == e);
        }
    }
    lemma_entry(r, es.len() as int);
    assert forall|a: Seq<char>| #[trigger] map_of(r).contains_key(a) && a != e.address@ implies map_of(
        r,
    )[a] == map_of(es)[a] by {
        let p = choose|p: int| 0 <= p < r.len() && r[p].address@ == a;
        lemma_entry(r, p);
        assert(p < es.len());
        assert(r[p] == es[p]);
        lemma_entry(es, p);
    }
}

proof fn lemma_dom_len<S>(es: Seq<Entry<S>>)
    requires
        distinct(es),
    ensures
        map_of(es).dom().finite(),
        map_of(es).dom().len() == es.len(),
{
    let ks = keys(es);
    assert(ks.no_duplicates()) by {
        assert forall|p: int, q: int| 0 <= p < ks.len() && 0 <= q < ks.len() && p != q implies ks[p]
            != ks[q] by {
            if p < q {
                assert(es[p].address@ != es[q].address@);
            } else {
                assert(es[q].address@ != es[p].address@);
            }
        }
    }
    assert(map_of(es).dom() =~= ks.to_set()) by {
        assert forall|a: Seq<char>| map_of(es).dom().contains(a) <==> ks.to_set().contains(a) by {
            if has_key(es, a) {
                let p = choose|p: int| 0 <= p < es.len() && es[p].address@ == a;
                assert(ks[p] == a);
            }
            if ks.contains(a) {
                let p = choose|p: int| 0 <= p < ks.len() && ks[p] == a;
                assert(es[p].address@ == a);
            }
        }
    }
    ks.unique_seq_to_set();
}

fn same_chars(a: &Vec<char>, b: &Vec<char>) -> (r: bool)
    ensures
        r == (a@ == b@),
{
    if a.len() != b.len() {
        return false;
    }
    let mut i: usize = 0;
    while i < a.len()
        invariant
            i <= a@.len(),
            a@.len() == b@.len(),
            forall|k: int| 0 <= k < i ==> a@[k] == b@[k],
        decreases a@.len() - i,
    {
        if a[i] != b[i] {
            return false;
        }
        i = i + 1;
    }
    assert(a@ =~= b@);
    true
}

fn position<S>(entries: &Vec<Entry<S>>, address: &Vec<char>) -> (r: Option<usize>)
    ensures
        r matches Some(i) ==> i < entries@.len() && entries@[i as int].address@ == address@,
        r is None ==> !has_key(entries@, address@),
{
    let mut i: usize = 0;
    while i < entries.len()
        invariant
            i <= entries@.len(),
            forall|k: int| 0 <= k < i ==> entries@[k].address@ != address@,
        decreases entries@.len() - i,
    {
        if same_chars(&entries[i].address, address) {
            return Some(i);
        }
        i = i + 1;
    }
    None
}

impl<S> ConnectionPool<S> {
    #[verifier::type_invariant]
    spec fn well_formed(self) -> bool {
        distinct(self.entries@)
    }

    /// A pool with no connection.
    pub fn new() -> (r: Self)
        ensures
            r@ == Map::<Seq<char>, (S, u64)>::empty(),
    {
        let r = ConnectionPool { entries: Vec::new() };
        assert(r@ =~= Map::<Seq<char>, (S, u64)>::empty());
        r
    }

    /// Whether a connection to `address` is open.
    pub fn contains(&self, address: &str) -> (r: bool)
        ensures
            r == self@.contains_key(address@),
    {
        let a = chars_of(address);
        position(&self.entries, &a).is_some()
    }

    /// The number of open connections.
    pub fn len(&self) -> (r: usize)
        ensures
            self@.dom().finite(),
            r == self@.dom().len(),
    {
        proof {
            use_type_invariant(self);
            lemma_dom_len(self.entries@);
        }
        self.entries.len()
    }

    /// Takes the connection to `address` out of the pool, with the time of its
    /// last use; nothing when there is none.
    pub fn take(&mut self, address: &str) -> (r: Option<(S, u64)>)
        ensures
            old(self)@.contains_key(address@) ==> r == Some(old(self)@[address@]),
            !old(self)@.contains_key(address@) ==> r is None,
            final(self)@ == old(self)@.remove(address@),
    {
        proof {
            use_type_invariant(&*self);
        }
        let a = chars_of(address);
        let mut entries: Vec<Entry<S>> = Vec::new();
        core::mem::swap(&mut entries, &mut self.entries);
        let ghost es = entries@;
        let r = match position(&entries, &a) {
            Some(i) => {
                proof {
                    lemma_entry(es, i as int);
                    lemma_swap_remove(es, i as int);
                }
                let e = entries.swap_remove(i);
                Some((e.conn, e.last_active))
            },
            None => {
                assert(map_of(es).remove(address@) =~= map_of(es));
                None
            },
        };
        self.entries = entries;
        r
    }

    /// Puts the connection `conn` to `address`, last used at `now`, into the
    /// pool (in place of any other connection to that address).
    pub fn insert(&mut self, address: String, conn: S, now: u64)
        ensures
            final(self)@ == old(self)@.insert(address@, (conn, now)),
    {
        proof {
            use_type_invariant(&*self);
        }
        let a = chars_of(address.as_str());
        let mut entries: Vec<Entry<S>> = Vec::new();
        core::mem::swap(&mut entries, &mut self.entries);
        let ghost m0 = map_of(entries@);
        match position(&entries, &a) {
            Some(i) => {
                proof {
                    lemma_swap_remove(entries@, i as int);
                }
                let _old = entries.swap_remove(i);
            },
            None => {
                assert(map_of(entries@).remove(a@) =~= map_of(entries@));
            },
        }
        let ghost es = entries@;
        assert(!has_key(es, a@)) by {
            if has_key(es, a@) {
                assert(map_of(es).contains_key(a@));
            }
        }
        let e = Entry { address: a, conn, last_active: now };
        proof {
            lemma_push(es, e);
        }
        entries.push(e);
        self.entries = entries;
        assert(self@ =~= m0.insert(address@, (conn, now)));
    }

    /// Closes the connections idle for `idle` or more at `now`, and returns
    /// how many it closed.
    pub fn sweep(&mut self, now: u64, idle: u64) -> (closed: usize)
        ensures
            final(self)@ == Map::new(
                |a: Seq<char>| old(self)@.contains_key(a) && is_fresh(old(self)@[a].1, now, idle),
                |a: Seq<char>| old(self)@[a],
            ),
            old(self)@.dom().finite(),
            final(self)@.dom().finite(),
            closed == old(self)@.dom().len() - final(self)@.dom().len(),
    {
        proof {
            use_type_invariant(&*self);
            lemma_dom_len(self.entries@);
        }
        let mut entries: Vec<Entry<S>> = Vec::new();
        core::mem::swap(&mut entries, &mut self.entries);
        let ghost m0 = map_of(entries@);
        let len0 = entries.len();
        let ghost n0 = len0 as int;
        let ghost target = Map::new(
            |a: Seq<char>| m0.contains_key(a) && is_fresh(m0[a].1, now, idle),
            |a: Seq<char>| m0[a],
        );
        let mut i: usize = 0;
        let mut closed: usize = 0;
        while i < entries.len()
            invariant
                distinct(entries@),
                i <= entries@.len(),
                closed + entries@.len() == n0,
                n0 <= usize::MAX,
                target == Map::new(
                    |a: Seq<char>| m0.contains_key(a) && is_fresh(m0[a].1, now, idle),
                    |a: Seq<char>| m0[a],
                ),
                forall|j: int| 0 <= j < i ==> is_fresh(#[trigger] entries@[j].last_active, now, idle),
                forall|a: Seq<char>|
                    #[trigger] map_of(entries@).contains_key(a) ==> m0.contains_key(a) && map_of(
                        entries@,
                    )[a] == m0[a],
                forall|a: Seq<char>| #[trigger] target.contains_key(a) ==> map_of(entries@).contains_key(a),
            decreases entries@.len() - i,
        {
            let last = entries[i].last_active;
            let elapsed = if now >= last {
                now - last
            } else {
                0
            };
            if elapsed >= idle {
                let ghost before = entries@;
                let ghost k = before[i as int].address@;
                proof {
                    lemma_entry(before, i as int);
                    lemma_swap_remove(before, i as int);
                }
                let _stale = entries.swap_remove(i);
                closed = closed + 1;
                assert forall|a: Seq<char>| #[trigger] target.contains_key(a) implies map_of(
                    entries@,
                ).contains_key(a) by {
                    assert(map_of(before).contains_key(a));
                    if a == k {
                        assert(m0[k] == map_of(before)[k]);
                    }
                }
            } else {
                i = i + 1;
            }
        }
        proof {
            let es = entries@;
            assert forall|a: Seq<char>| #[trigger] map_of(es).contains_key(a) implies target.contains_key(a) by {
                let p = choose|p: int| 0 <= p < es.len() && es[p].address@ == a;
                lemma_entry(es, p);
                assert(is_fresh(es[p].last_active, now, idle));
            }
            assert(map_of(es) =~= target);
            lemma_dom_len(es);
        }
        self.entries = entries;
        closed
    }
}

} // verus!
