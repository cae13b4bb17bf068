use std::collections::{HashMap, HashSet};
use vstd::prelude::*;
use vstd::std_specs::iter::IteratorSpec;

verus! {

broadcast use vstd::std_specs::hash::group_hash_axioms;

/// One record of the service configuration: a named service, the port it
/// listens on and a time offset in seconds.
pub struct HfiService {
    pub service: String,
    pub port: u16,
    pub delta: u64,
}

/// A service configuration as a sequence of records, possibly with repeated
/// ports.
pub struct HfiConfig {
    pub checkers: Vec<HfiService>,
}

/// True iff some record of `recs` names port `p`.
pub open spec fn has_port(recs: Seq<HfiService>, p: u16) -> bool {
    exists|j: int| 0 <= j < recs.len() && #[trigger] recs[j].port == p
}

/// The deltas of the records of `recs` on port `p`, in record order.
pub open spec fn deltas_for(recs: Seq<HfiService>, p: u16) -> Seq<u64>
    decreases recs.len(),
{
    if recs.len() == 0 {
        seq![]
    } else {
        let prev = deltas_for(recs.drop_last(), p);
        if recs.last().port == p {
            prev.push(recs.last().delta)
        } else {
            prev
        }
    }
}

/// The delta table that a record sequence denotes: each port that occurs,
/// mapped to its deltas in record order.
pub open spec fn delta_table_of(recs: Seq<HfiService>) -> Map<u16, Seq<u64>> {
    Map::new(|p: u16| has_port(recs, p), |p: u16| deltas_for(recs, p))
}

/// Total number of deltas in a map-shaped configuration.
pub open spec fn flat_len(pairs: Seq<(u16, Vec<u64>)>) -> nat
    decreases pairs.len(),
{
    if pairs.len() == 0 {
        0
    } else {
        flat_len(pairs.drop_last()) + pairs.last().1@.len()
    }
}

/// The deltas of port `p` in a map-shaped configuration: its lists, in order,
/// joined.
pub open spec fn flat_deltas(pairs: Seq<(u16, Vec<u64>)>, p: u16) -> Seq<u64>
    decreases pairs.len(),
{
    if pairs.len() == 0 {
        seq![]
    } else if pairs.last().0 == p {
        flat_deltas(pairs.drop_last(), p) + pairs.last().1@
    } else {
        flat_deltas(pairs.drop_last(), p)
    }
}

/// The abstract value of an executable delta table.
pub open spec fn table_view(m: Map<u16, Vec<u64>>) -> Map<u16, Seq<u64>> {
    Map::new(|p: u16| m.contains_key(p), |p: u16| m[p]@)
}

/// Every list of a delta table is non-empty.
pub open spec fn table_wf(m: Map<u16, Seq<u64>>) -> bool {
    forall|p: u16| #[trigger] m.contains_key(p) ==> m[p].len() > 0
}

/// What a reconciliation against the configuration ports `b` does to the
/// watched ports `before`: afterwards exactly `b` is watched, `added` lists
/// the ports of `b` that were not watched and `removed` the watched ports
/// that are not in `b`, each port once.
pub open spec fn reconciled(
    before: Set<u16>,
    b: Set<u16>,
    after: Set<u16>,
    added: Seq<u16>,
    removed: Seq<u16>,
) -> bool {
    &&& added.no_duplicates()
    &&& removed.no_duplicates()
    &&& after == b
    &&& added.to_set() == b.difference(before)
    &&& removed.to_set() == before.difference(b)
}

/// The ports of `s`, each once, in the order in which the set hands them
/// out.
fn set_to_vec(s: &HashSet<u16>) -> (r: Vec<u16>)
    ensures
        r@.to_set() == s@,
        r@.no_duplicates(),
{
    let ghost keys = vstd::std_specs::hash::spec_hash_keys_iter(s).remaining();
    let mut r: Vec<u16> = Vec::new();
    for x in it: s.iter()
        invariant
            it.seq() == keys,
            r@ == keys.take(r@.len() as int).map_values(|p: &u16| *p),
            r@.len() == it.index(),
    {
        r.push(*x);
        assert(r@ =~= keys.take(r@.len() as int).map_values(|p: &u16| *p));
    }
    proof {
        assert(keys.take(keys.len() as int) == keys);
        assert(keys.unref().to_set() == s@);
        assert(r@ =~= keys.unref());
        assert(keys.unref().no_duplicates());
    }
    r
}

fn config_has_port(recs: &Vec<HfiService>, p: u16) -> (r: bool)
    ensures
        r == has_port(recs@, p),
{
    let mut i: usize = 0;
    while i < recs.len()
        invariant
            i <= recs.len(),
            forall|j: int| 0 <= j < i ==> #[trigger] recs@[j].port != p,
        decreases recs.len() - i,
    {
        if recs[i].port == p {
            return true;
        }
        i += 1;
    }
    false
}

impl HfiConfig {
    /// The set of ports that the configuration names.
    pub open spec fn port_set(&self) -> Set<u16> {
        Set::new(|p: u16| has_port(self.checkers@, p))
    }

    /// Builds a configuration from a map-shaped one: each port with its
    /// deltas in order. The records come out port by port, so the delta table
    /// of the result gives each port the concatenation of its lists.
    pub fn from_port_deltas(pairs: Vec<(u16, Vec<u64>)>) -> (r: HfiConfig)
        ensures
            r.checkers@.len() == flat_len(pairs@),
            forall|p: u16| #[trigger] deltas_for(r.checkers@, p) == flat_deltas(pairs@, p),
    {
        let mut checkers: Vec<HfiService> = Vec::new();
        let mut i: usize = 0;
        while i < pairs.len()
            invariant
                i <= pairs.len(),
                checkers@.len() == flat_len(pairs@.take(i as int)),
                forall|p: u16| #[trigger] deltas_for(checkers@, p) == flat_deltas(pairs@.take(i as int), p),
            decreases pairs.len() - i,
        {
            let port = pairs[i].0;
            let deltas = &pairs[i].1;
            let ghost before = checkers@;
            let mut k: usize = 0;
            while k < deltas.len()
                invariant
                    i < pairs.len(),
                    k <= deltas.len(),
                    port == pairs@[i as int].0,
                    deltas@ == pairs@[i as int].1@,
                    checkers@.len() == before.len() + k,
                    forall|p: u16| #[trigger] deltas_for(checkers@, p) == deltas_for(before, p) + (
                        if p == port { deltas@.take(k as int) } else { seq![] }),
                decreases deltas.len() - k,
            {
                let ghost prev = checkers@;
                checkers.push(HfiService { service: String::new(), port, delta: deltas[k] });
                proof {
                    assert(checkers@.drop_last() == prev);
                    assert(checkers@.last().port == port);
                    assert(checkers@.last().delta == deltas@[k as int]);
                    assert forall|p: u16| #[trigger] deltas_for(checkers@, p) == deltas_for(before, p) + (
                        if p == port { deltas@.take(k + 1) } else { seq![] }) by {
                        assert(deltas_for(prev, p) == deltas_for(before, p) + (
                            if p == port { deltas@.take(k as int) } else { seq![] }));
                        if p == port {
                            assert(deltas@.take(k + 1) =~= deltas@.take(k as int).push(deltas@[k as int]));
                            assert(deltas_for(before, p) + deltas@.take(k + 1) =~= (deltas_for(before, p)
                                + deltas@.take(k as int)).push(deltas@[k as int]));
                        } else {
                            assert(deltas_for(checkers@, p) == deltas_for(prev, p));
                        }
                    }
                }
                k += 1;
            }
            proof {
                assert(pairs@.take(i + 1).drop_last() == pairs@.take(i as int));
                assert(deltas@.take(deltas@.len() as int) == deltas@);
                assert forall|p: u16| #[trigger] deltas_for(checkers@, p) == flat_deltas(pairs@.take(i + 1), p) by {
                    if p == port {
                    } else {
                        assert(deltas_for(before, p) + seq![] =~= deltas_for(before, p));
                    }
                }
            }
            i += 1;
        }
        assert(pairs@.take(pairs@.len() as int) == pairs@);
        HfiConfig { checkers }
    }

    /// Reconciles the watched ports with the ports of this configuration:
    /// returns the ports that were added and those that were removed, and
    /// leaves exactly the configuration's ports watched.
    pub fn get_diff_ports(&self, watched: &mut HashSet<u16>) -> (r: (Vec<u16>, Vec<u16>))
        ensures
            reconciled(old(watched)@, self.port_set(), final(watched)@, r.0@, r.1@),
    {
        let ghost before = watched@;
        let current = set_to_vec(watched);
        let mut removed: Vec<u16> = Vec::new();
        let mut i: usize = 0;
        while i < current.len()
            invariant
                i <= current.len(),
                current@.no_duplicates(),
                removed@.no_duplicates(),
                forall|x: u16| #[trigger] removed@.contains(x) <==> current@.take(i as int).contains(x) && !has_port(self.checkers@, x),
            decreases current.len() - i,
        {
            let p = current[i];
            proof {
                assert(current@.take(i + 1) =~= current@.take(i as int).push(p));
                lemma_push_contains(current@.take(i as int), p);
                lemma_push_contains(removed@, p);
                if removed@.contains(p) {
                    let j = choose|j: int| 0 <= j < i && current@.take(i as int)[j] == p;
                    assert(current@[j] == current@[i as int]);
                }
            }
            if !config_has_port(&self.checkers, p) {
                removed.push(p);
            }
            i += 1;
        }
        assert(current@.take(current@.len() as int) == current@);
        let mut i: usize = 0;
        while i < removed.len()
            invariant
                i <= removed.len(),
                forall|x: u16| #[trigger] watched@.contains(x) <==> before.contains(x) && !removed@.take(i as int).contains(x),
            decreases removed.len() - i,
        {
            let p = removed[i];
            proof {
                assert(removed@.take(i + 1) =~= removed@.take(i as int).push(p));
                lemma_push_contains(removed@.take(i as int), p);
            }
            watched.remove(&p);
            i += 1;
        }
        assert(removed@.take(removed@.len() as int) == removed@);
        let mut added: Vec<u16> = Vec::new();
        let mut i: usize = 0;
        while i < self.checkers.len()
            invariant
                i <= self.checkers.len(),
                added@.no_duplicates(),
                forall|x: u16| #[trigger] watched@.contains(x) <==> (before.contains(x) && has_port(self.checkers@, x)) || has_port(self.checkers@.take(i as int), x),
                forall|x: u16| #[trigger] added@.contains(x) <==> !before.contains(x) && has_port(self.checkers@.take(i as int), x),
            decreases self.checkers.len() - i,
        {
            let p = self.checkers[i].port;
            let ghost pre = self.checkers@.take(i as int);
            let ghost cur = self.checkers@.take(i + 1);
            proof {
                assert forall|x: u16| has_port(cur, x) <==> has_port(pre, x) || x == p by {
                    if has_port(cur, x) && x != p {
                        let j = choose|j: int| 0 <= j < cur.len() && #[trigger] cur[j].port == x;
                        assert(pre[j].port == x);
                    }
                    if has_port(pre, x) {
                        let j = choose|j: int| 0 <= j < pre.len() && #[trigger] pre[j].port == x;
                        assert(cur[j].port == x);
                    }
                    if x == p {
                        assert(cur[i as int].port == x);
                    }
                }
                assert(self.checkers@[i as int].port == p);
                assert(has_port(self.checkers@, p));
                lemma_push_contains(added@, p);
            }
            if !watched.contains(&p) {
                assert(!added@.contains(p));
                watched.insert(p);
                added.push(p);
            }
            i += 1;
        }
        proof {
            assert(self.checkers@.take(self.checkers@.len() as int) == self.checkers@);
            assert(watched@ =~= self.port_set());
            assert(added@.to_set() =~= self.port_set().difference(before));
            assert(removed@.to_set() =~= before.difference(self.port_set()));
        }
        (added, removed)
    }

    /// The delta table of the configuration: each port that occurs, mapped to
    /// the deltas of its records in record order.
    pub fn get_deltas_map(&self) -> (r: HashMap<u16, Vec<u64>>)
        ensures
            table_view(r@) == delta_table_of(self.checkers@),
            table_wf(table_view(r@)),
    {
        let mut deltas_map: HashMap<u16, Vec<u64>> = HashMap::new();
        let mut i: usize = 0;
        while i < self.checkers.len()
            invariant
                i <= self.checkers.len(),
                table_view(deltas_map@) == delta_table_of(self.checkers@.take(i as int)),
            decreases self.checkers.len() - i,
        {
            let ghost pre = self.checkers@.take(i as int);
            let ghost cur = self.checkers@.take(i + 1);
            let port = self.checkers[i].port;
            let delta = self.checkers[i].delta;
            proof {
                assert(cur.drop_last() == pre);
                assert(table_view(deltas_map@).contains_key(port) == deltas_map@.contains_key(port));
            }
            let ghost old_map = deltas_map@;
            let mut deltas = match deltas_map.remove(&port) {
                Some(d) => d,
                None => Vec::new(),
            };
            proof {
                lemma_deltas_for_nonempty(pre, port);
                if old_map.contains_key(port) {
                    assert(table_view(old_map)[port] == deltas_for(pre, port));
                } else {
                    assert(deltas@ =~= deltas_for(pre, port));
                }
            }
            deltas.push(delta);
            deltas_map.insert(port, deltas);
            proof {
                assert(cur.last().port == port);
                assert(cur.last().delta == delta);
                assert(deltas_for(cur, port) == deltas_for(pre, port).push(delta));
                assert forall|p: u16| #[trigger] deltas_map@.contains_key(p) implies
                    deltas_map@[p]@ == deltas_for(cur, p) by {
                    if p != port {
                        assert(old_map.contains_key(p));
                        assert(table_view(old_map)[p] == deltas_for(pre, p));
                    }
                }
                assert forall|p: u16| has_port(cur, p) == (has_port(pre, p) || p == port) by {
                    if has_port(cur, p) && p != port {
                        let j = choose|j: int| 0 <= j < cur.len() && #[trigger] cur[j].port == p;
                        assert(pre[j].port == p);
                    }
                    if has_port(pre, p) {
                        let j = choose|j: int| 0 <= j < pre.len() && #[trigger] pre[j].port == p;
                        assert(cur[j].port == p);
                    }
                    if p == port {
                        assert(cur[i as int].port == p);
                    }
                }
                assert forall|p: u16| #[trigger] table_view(deltas_map@).contains_key(p) implies
                    delta_table_of(cur).contains_key(p) && table_view(deltas_map@)[p]
                        == delta_table_of(cur)[p] by {
                    if p != port {
                        assert(old_map.contains_key(p));
                        assert(table_view(old_map).contains_key(p));
                        assert(has_port(pre, p));
                    }
                    assert(has_port(cur, p));
                    assert(deltas_map@[p]@ == deltas_for(cur, p));
                }
                assert forall|p: u16| #[trigger] delta_table_of(cur).contains_key(p) implies
                    table_view(deltas_map@).contains_key(p) by {
                    if p != port {
                        assert(has_port(pre, p));
                        assert(delta_table_of(pre).contains_key(p));
                        assert(old_map.contains_key(p));
                    }
                }
                assert(table_view(deltas_map@) =~= delta_table_of(cur));
            }
            i += 1;
        }
        assert(self.checkers@.take(self.checkers@.len() as int) == self.checkers@);
        proof {
            assert forall|p: u16| #[trigger] table_view(deltas_map@).contains_key(p) implies
                table_view(deltas_map@)[p].len() > 0 by {
                lemma_deltas_for_nonempty(self.checkers@, p);
            }
        }
        deltas_map
    }
}

/// Reconciling twice against the same configuration ports changes nothing
/// the second time: nothing is added, nothing is removed, and the same ports
/// stay watched.
pub proof fn lemma_reconcile_idempotent(
    t0: Set<u16>,
    b: Set<u16>,
    t1: Set<u16>,
    a1: Seq<u16>,
    r1: Seq<u16>,
    t2: Set<u16>,
    a2: Seq<u16>,
    r2: Seq<u16>,
)
    requires
        reconciled(t0, b, t1, a1, r1),
        reconciled(t1, b, t2, a2, r2),
    ensures
        a2.len() == 0,
        r2.len() == 0,
        t2 == t1,
{
    assert(a2.to_set() =~= Set::empty());
    assert(r2.to_set() =~= Set::empty());
    if a2.len() > 0 {
        assert(a2.to_set().contains(a2[0]));
    }
    if r2.len() > 0 {
        assert(r2.to_set().contains(r2[0]));
    }
}

pub(crate) proof fn lemma_push_contains(s: Seq<u16>, v: u16)
    ensures
        forall|x: u16| #[trigger] s.push(v).contains(x) <==> s.contains(x) || x == v,
{
    assert forall|x: u16| #[trigger] s.push(v).contains(x) <==> s.contains(x) || x == v by {
        if s.contains(x) {
            let j = choose|j: int| 0 <= j < s.len() && s[j] == x;
            assert(s.push(v)[j] == x);
        }
        if x == v {
            assert(s.push(v)[s.len() as int] == x);
        }
        if s.push(v).contains(x) {
            let j = choose|j: int| 0 <= j < s.len() + 1 && s.push(v)[j] == x;
            if j < s.len() {
                assert(s[j] == x);
            }
        }
    }
}

proof fn lemma_deltas_for_nonempty(recs: Seq<HfiService>, p: u16)
    ensures
        deltas_for(recs, p).len() > 0 <==> has_port(recs, p),
    decreases recs.len(),
{
    if recs.len() > 0 {
        let pre = recs.drop_last();
        lemma_deltas_for_nonempty(pre, p);
        if has_port(pre, p) {
            let j = choose|j: int| 0 <= j < pre.len() && #[trigger] pre[j].port == p;
            assert(recs[j].port == p);
        }
        if has_port(recs, p) && recs.last().port != p {
            let j = choose|j: int| 0 <= j < recs.len() && #[trigger] recs[j].port == p;
            assert(pre[j].port == p);
        }
    }
}

/// The delta table of a record sequence holds a key exactly for each port
/// that occurs, its list is never empty, and its first delta is that of the
/// first record on that port.
pub proof fn lemma_delta_table_collapses(recs: Seq<HfiService>, p: u16)
    ensures
        delta_table_of(recs).contains_key(p) <==> has_port(recs, p),
        has_port(recs, p) ==> delta_table_of(recs)[p].len() > 0,
        forall|i: int|
            0 <= i < recs.len() && recs[i].port == p && (forall|j: int|
                0 <= j < i ==> #[trigger] recs[j].port != p) ==> delta_table_of(recs)[p][0]
                == recs[i].delta,
    decreases recs.len(),
{
    lemma_deltas_for_nonempty(recs, p);
    if recs.len() > 0 {
        let pre = recs.drop_last();
        lemma_delta_table_collapses(pre, p);
        lemma_deltas_for_nonempty(pre, p);
        assert forall|i: int|
            0 <= i < recs.len() && recs[i].port == p && (forall|j: int|
                0 <= j < i ==> #[trigger] recs[j].port != p) implies delta_table_of(recs)[p][0]
            == recs[i].delta by {
            if i < pre.len() {
                assert(pre[i].port == p);
                assert(has_port(pre, p));
                assert forall|j: int| 0 <= j < i implies #[trigger] pre[j].port != p by {
                    assert(recs[j].port != p);
                }
            } else {
                if has_port(pre, p) {
                    let j = choose|j: int| 0 <= j < pre.len() && #[trigger] pre[j].port == p;
                    assert(recs[j].port == p);
                }
                assert(deltas_for(pre, p).len() == 0);
            }
        }
    }
}

} // verus!
