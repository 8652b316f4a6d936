//! Finding the peers online (desktop): the host runs `easytier-cli route
//! --json` and parses its routes; the routes without a virtual IP (the local
//! node, invalid entries) are left out.

use vstd::prelude::*;

verus! {

/// Whether a route's virtual IP address is given and not empty.
pub open spec fn has_virtual_ip(addr: Option<Seq<char>>) -> bool {
    addr matches Some(a) && a.len() > 0
}

pub open spec fn addresses_view(v: Seq<Option<String>>) -> Seq<Option<Seq<char>>> {
    v.map_values(
        |a: Option<String>|
            match a {
                Some(s) => Some(s@),
                None => None,
            },
    )
}

/// The positions, in order, of the routes that have a virtual IP address.
pub open spec fn online_indices(addrs: Seq<Option<Seq<char>>>) -> Seq<usize>
    decreases addrs.len(),
{
    if addrs.len() == 0 {
        Seq::empty()
    } else {
        let rest = online_indices(addrs.drop_last());
        if has_virtual_ip(addrs.last()) {
            rest.push((addrs.len() - 1) as usize)
        } else {
            rest
        }
    }
}

/// Given the virtual IP address of each route, the positions of the routes to
/// keep: those with an address.
pub fn online_route_indices(addrs: &Vec<Option<String>>) -> (r: Vec<usize>)
    ensures
        r@ == online_indices(addresses_view(addrs@)),
{
    let ghost all = addresses_view(addrs@);
    let mut r: Vec<usize> = Vec::new();
    let mut i: usize = 0;
    while i < addrs.len()
        invariant
            i <= addrs@.len(),
            all == addresses_view(addrs@),
            r@ == online_indices(all.take(i as int)),
        decreases addrs@.len() - i,
    {
        let keep = match &addrs[i] {
            Some(s) => !s.as_str().is_empty(),
            None => false,
        };
        assert(all.take(i + 1).drop_last() =~= all.take(i as int));
        assert(all.take(i + 1).last() == all[i as int]);
        if keep {
            r.push(i);
        }
        i = i + 1;
    }
    assert(all.take(addrs@.len() as int) =~= all);
    r
}

/// Law: the positions kept are, in increasing order, exactly the positions of
/// the routes whose virtual IP address is present and not empty.
pub proof fn lemma_online_indices(addrs: Seq<Option<Seq<char>>>)
    requires
        addrs.len() <= usize::MAX,
    ensures
        forall|i: int|
            0 <= i < addrs.len() ==> (online_indices(addrs).contains(i as usize) <==> (#[trigger] addrs[i] matches Some(
                a,
            ) && a.len() > 0)),
        forall|k: int| 0 <= k < online_indices(addrs).len() ==> online_indices(addrs)[k] < addrs.len(),
        forall|j: int, k: int|
            0 <= j < k < online_indices(addrs).len() ==> online_indices(addrs)[j] < online_indices(
                addrs,
            )[k],
    decreases addrs.len(),
{
    if addrs.len() > 0 {
        let prev = addrs.drop_last();
        lemma_online_indices(prev);
        let rest = online_indices(prev);
        let r = online_indices(addrs);
        let n = addrs.len() - 1;
        assert forall|i: int| 0 <= i < addrs.len() implies (r.contains(i as usize) <==> (#[trigger] addrs[i] matches Some(
            a,
        ) && a.len() > 0)) by {
            if i < n {
                assert(prev[i] == addrs[i]);
                if r.contains(i as usize) {
                    let k = choose|k: int| 0 <= k < r.len() && r[k] == i as usize;
                    if k < rest.len() {
                        assert(rest[k] == i as usize);
                        assert(rest.contains(i as usize));
                    } else {
                        assert(r[k] == n as usize);
                    }
                }
                if rest.contains(i as usize) {
                    let k = choose|k: int| 0 <= k < rest.len() && rest[k] == i as usize;
                    assert(r[k] == rest[k]);
                }
            } else {
                if r.contains(i as usize) {
                    let k = choose|k: int| 0 <= k < r.len() && r[k] == i as usize;
                    if k < rest.len() {
                        assert(rest[k] < prev.len());
                    }
                }
                if addrs[i] matches Some(a) && a.len() > 0 {
                    assert(r[r.len() - 1] == n as usize);
                }
            }
        }
    }
}

} // verus!
