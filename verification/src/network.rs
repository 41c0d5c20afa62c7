//! The network's shape: a random undirected mesh over `size` nodes, where
//! each node initiates up to a quota of connections to nodes it is not
//! already paired with. The pairing relation is symmetric, so no pair of
//! nodes is ever connected twice.

use vstd::prelude::*;
use rand::RngExt;

verus! {

/// Relies on `rand::rng`: a handle to the thread-local random number
/// generator.
#[verifier::external_body]
fn thread_rng_handle() -> rand::rngs::ThreadRng {
    rand::rng()
}

/// Rand's thread-local random number generator, used while wiring the mesh.
#[verifier::external_type_specification]
#[verifier::external_body]
pub struct ExThreadRng(rand::rngs::ThreadRng);

/// Relies on `rand::RngExt::random_range`: a uniformly random index below `n`.
/// The result is random; only its bound is claimed.
#[verifier::external_body]
fn random_below(rng: &mut rand::rngs::ThreadRng, n: usize) -> (r: usize)
    requires
        n > 0,
    ensures
        r < n,
{
    rng.random_range(0..n)
}

/// The pair `{a, b}` written with its smaller element first.
pub open spec fn spec_norm_pair(a: usize, b: usize) -> (usize, usize) {
    if a <= b {
        (a, b)
    } else {
        (b, a)
    }
}

/// A set of unordered pairs, kept as normalized ordered pairs.
pub struct BiSet {
    pub inner: Vec<(usize, usize)>,
}

impl BiSet {
    /// Every stored pair is normalized and stored once.
    pub open spec fn wf(&self) -> bool {
        &&& forall|i: int| 0 <= i < self.inner@.len() ==> (#[trigger] self.inner@[i]).0
            <= self.inner@[i].1
        &&& forall|i: int, j: int|
            0 <= i < j < self.inner@.len() ==> self.inner@[i] != self.inner@[j]
    }

    /// Whether the set holds the unordered pair `{a, b}`.
    pub open spec fn spec_contains(&self, a: usize, b: usize) -> bool {
        self.inner@.contains(spec_norm_pair(a, b))
    }

    pub fn new() -> (r: BiSet)
        ensures
            r.inner@.len() == 0,
            r.wf(),
    {
        BiSet { inner: Vec::new() }
    }

    /// Whether the set holds the unordered pair `{one, other}`.
    pub fn contains(&self, one: usize, other: usize) -> (r: bool)
        ensures
            r == self.spec_contains(one, other),
    {
        let pair = if one <= other {
            (one, other)
        } else {
            (other, one)
        };
        let n = self.inner.len();
        let mut i: usize = 0;
        while i < n
            invariant
                n == self.inner@.len(),
                i <= n,
                pair == spec_norm_pair(one, other),
                forall|j: int| 0 <= j < i ==> self.inner@[j] != pair,
            decreases n - i,
        {
            let (a, b) = self.inner[i];
            if a == pair.0 && b == pair.1 {
                assert(self.inner@[i as int] == pair);
                return true;
            }
            i = i + 1;
        }
        assert(!self.inner@.contains(pair));
        false
    }

    /// Adds the unordered pair `{one, other}`; adding a pair the set already
    /// holds changes nothing.
    pub fn insert(&mut self, one: usize, other: usize)
        requires
            old(self).wf(),
        ensures
            final(self).wf(),
            final(self).spec_contains(one, other),
            forall|a: usize, b: usize|
                #[trigger] final(self).spec_contains(a, b) == (old(self).spec_contains(a, b)
                    || spec_norm_pair(a, b) == spec_norm_pair(one, other)),
            forall|p: (usize, usize)|
                final(self).inner@.contains(p) == (old(self).inner@.contains(p) || p
                    == spec_norm_pair(one, other)),
    {
        if !self.contains(one, other) {
            let pair = if one <= other {
                (one, other)
            } else {
                (other, one)
            };
            self.inner.push(pair);
            proof {
                assert forall|p: (usize, usize)|
                    self.inner@.contains(p) == (old(self).inner@.contains(p) || p == spec_norm_pair(
                        one,
                        other,
                    )) by {
                    if self.inner@.contains(p) {
                        let w = choose|w: int| 0 <= w < self.inner@.len() && self.inner@[w] == p;
                        if w < old(self).inner@.len() {
                            assert(old(self).inner@[w] == p);
                        }
                    }
                    if old(self).inner@.contains(p) {
                        let w = choose|w: int|
                            0 <= w < old(self).inner@.len() && old(self).inner@[w] == p;
                        assert(self.inner@[w] == p);
                    }
                    if p == spec_norm_pair(one, other) {
                        assert(self.inner@[self.inner@.len() - 1] == p);
                    }
                }
            }
        } else {
            proof {
                assert forall|p: (usize, usize)|
                    self.inner@.contains(p) == (old(self).inner@.contains(p) || p == spec_norm_pair(
                        one,
                        other,
                    )) by {}
            }
        }
    }
}

/// The wiring of a network: for each node, the ids of the nodes it initiates
/// connections to.
pub struct Network {
    pub seeds: Vec<Vec<usize>>,
}

/// Every initiated connection is to another, existing node.
pub open spec fn spec_seeds_valid(seeds: Seq<Seq<usize>>, size: nat, quota: nat) -> bool {
    forall|i: int|
        0 <= i < seeds.len() ==> {
            &&& (#[trigger] seeds[i]).len() <= quota
            &&& forall|k: int|
                0 <= k < seeds[i].len() ==> (#[trigger] seeds[i][k]) < size && seeds[i][k] != i
        }
}

/// No unordered pair of nodes appears twice over the whole wiring.
pub open spec fn spec_seeds_unique(seeds: Seq<Seq<usize>>) -> bool {
    forall|i1: int, k1: int, i2: int, k2: int|
        0 <= i1 < seeds.len() && 0 <= k1 < seeds[i1].len() && 0 <= i2 < seeds.len() && 0 <= k2
            < seeds[i2].len() && (i1 != i2 || k1 != k2) ==> spec_norm_pair(
            i1 as usize,
            #[trigger] seeds[i1][k1],
        ) != spec_norm_pair(i2 as usize, #[trigger] seeds[i2][k2])
}

/// Whether the unordered pair `{a, b}` is wired somewhere in the seed lists:
/// one of the two initiated a connection to the other.
pub open spec fn spec_pair_wired(seeds: Seq<Seq<usize>>, a: usize, b: usize) -> bool {
    exists|i: int, k: int|
        0 <= i < seeds.len() && 0 <= k < seeds[i].len() && spec_norm_pair(
            i as usize,
            #[trigger] seeds[i][k],
        ) == spec_norm_pair(a, b)
}

/// A node receives its full quota of seeds while unpaired candidates remain:
/// a seed list falls short only when its node is already paired with every
/// other node.
pub open spec fn spec_quota_met(seeds: Seq<Seq<usize>>, size: nat, quota: nat) -> bool {
    forall|i: int, j: int|
        0 <= i < seeds.len() && seeds[i].len() < quota && 0 <= j < size && j != i
            ==> #[trigger] spec_pair_wired(seeds, i as usize, j as usize)
}

/// A pair wired in a prefix of the lists stays wired when a list is added.
proof fn lemma_pair_wired_push(seeds: Seq<Seq<usize>>, ns: Seq<usize>, a: usize, b: usize)
    requires
        spec_pair_wired(seeds, a, b),
    ensures
        spec_pair_wired(seeds.push(ns), a, b),
{
    let (i, k) = choose|i: int, k: int|
        0 <= i < seeds.len() && 0 <= k < seeds[i].len() && spec_norm_pair(
            i as usize,
            #[trigger] seeds[i][k],
        ) == spec_norm_pair(a, b);
    assert(seeds.push(ns)[i] == seeds[i]);
    assert(spec_norm_pair(i as usize, seeds.push(ns)[i][k]) == spec_norm_pair(a, b));
}

impl Network {
    /// Wires a mesh of `size` nodes: each node draws up to
    /// `initiated_connections_per_node` random peers from the pool of other
    /// nodes it is not already paired with, skipping silently when the pool
    /// runs dry. The pairing is symmetric, so no pair is wired twice.
    pub fn new(size: usize, initiated_connections_per_node: usize) -> (r: Network)
        ensures
            r.seeds@.len() == size,
            spec_seeds_valid(
                r.seeds@.map_values(|v: Vec<usize>| v@),
                size as nat,
                initiated_connections_per_node as nat,
            ),
            spec_seeds_unique(r.seeds@.map_values(|v: Vec<usize>| v@)),
            spec_quota_met(
                r.seeds@.map_values(|v: Vec<usize>| v@),
                size as nat,
                initiated_connections_per_node as nat,
            ),
    {
        let mut rng = thread_rng_handle();
        let mut defined_connections = BiSet::new();
        let mut seeds: Vec<Vec<usize>> = Vec::new();
        let mut i: usize = 0;
        while i < size
            invariant
                i <= size,
                seeds@.len() == i,
                defined_connections.wf(),
                spec_seeds_valid(
                    seeds@.map_values(|v: Vec<usize>| v@),
                    size as nat,
                    initiated_connections_per_node as nat,
                ),
                spec_seeds_unique(seeds@.map_values(|v: Vec<usize>| v@)),
                // every wired pair is recorded in the set of defined connections
                forall|i1: int, k1: int|
                    0 <= i1 < seeds@.len() && 0 <= k1 < seeds@[i1]@.len()
                        ==> defined_connections.inner@.contains(
                        spec_norm_pair(i1 as usize, #[trigger] seeds@[i1]@[k1]),
                    ),
                // and every recorded pair is wired somewhere
                forall|p: (usize, usize)|
                    #[trigger] defined_connections.inner@.contains(p) ==> spec_pair_wired(
                        seeds@.map_values(|v: Vec<usize>| v@),
                        p.0,
                        p.1,
                    ),
                spec_quota_met(
                    seeds@.map_values(|v: Vec<usize>| v@),
                    size as nat,
                    initiated_connections_per_node as nat,
                ),
            decreases size - i,
        {
            let mut candidate_ids: Vec<usize> = Vec::new();
            let mut j: usize = 0;
            while j < size
                invariant
                    j <= size,
                    forall|k: int|
                        0 <= k < candidate_ids@.len() ==> (#[trigger] candidate_ids@[k]) < size
                            && candidate_ids@[k] != i
                            && !defined_connections.spec_contains(i, candidate_ids@[k]),
                    forall|k1: int, k2: int|
                        0 <= k1 < k2 < candidate_ids@.len() ==> candidate_ids@[k1]
                            != candidate_ids@[k2],
                    forall|k: int|
                        0 <= k < candidate_ids@.len() ==> (#[trigger] candidate_ids@[k]) < j,
                    // every unpaired other node seen so far is in the pool
                    forall|j2: usize|
                        j2 < j && j2 != i && !defined_connections.spec_contains(i, j2)
                            ==> #[trigger] candidate_ids@.contains(j2),
                decreases size - j,
            {
                let ghost old_candidates = candidate_ids@;
                if j != i && !defined_connections.contains(i, j) {
                    candidate_ids.push(j);
                }
                proof {
                    assert forall|j2: usize|
                        j2 < j + 1 && j2 != i && !defined_connections.spec_contains(
                            i,
                            j2,
                        ) implies #[trigger] candidate_ids@.contains(j2) by {
                        if j2 < j {
                            assert(old_candidates.contains(j2));
                            let m = choose|m: int|
                                0 <= m < old_candidates.len() && old_candidates[m] == j2;
                            assert(candidate_ids@[m] == j2);
                        } else {
                            assert(candidate_ids@.last() == j2);
                        }
                    }
                }
                j = j + 1;
            }

            let mut node_seeds: Vec<usize> = Vec::new();
            let mut q: usize = 0;
            while q < initiated_connections_per_node
                invariant
                    q <= initiated_connections_per_node,
                    i < size,
                    seeds@.len() == i,
                    defined_connections.wf(),
                    node_seeds@.len() <= q,
                    forall|k: int|
                        0 <= k < candidate_ids@.len() ==> (#[trigger] candidate_ids@[k]) < size
                            && candidate_ids@[k] != i
                            && !defined_connections.spec_contains(i, candidate_ids@[k]),
                    forall|k1: int, k2: int|
                        0 <= k1 < k2 < candidate_ids@.len() ==> candidate_ids@[k1]
                            != candidate_ids@[k2],
                    // every unpaired other node is still in the pool
                    forall|j2: usize|
                        j2 < size && j2 != i && !defined_connections.spec_contains(i, j2)
                            ==> #[trigger] candidate_ids@.contains(j2),
                    // the list falls short of the rounds only once the pool is dry
                    node_seeds@.len() < q ==> candidate_ids@.len() == 0,
                    // every recorded pair is wired in an earlier list or drawn here
                    forall|p: (usize, usize)|
                        #[trigger] defined_connections.inner@.contains(p) ==> spec_pair_wired(
                            seeds@.map_values(|v: Vec<usize>| v@),
                            p.0,
                            p.1,
                        ) || (exists|k: int|
                            0 <= k < node_seeds@.len() && spec_norm_pair(
                                i,
                                #[trigger] node_seeds@[k],
                            ) == p),
                    forall|k: int|
                        0 <= k < node_seeds@.len() ==> (#[trigger] node_seeds@[k]) < size
                            && node_seeds@[k] != i,
                    forall|k: int|
                        0 <= k < node_seeds@.len() ==> defined_connections.inner@.contains(
                            spec_norm_pair(i, #[trigger] node_seeds@[k]),
                        ),
                    // pairs of earlier nodes all recorded
                    spec_seeds_valid(
                        seeds@.map_values(|v: Vec<usize>| v@),
                        size as nat,
                        initiated_connections_per_node as nat,
                    ),
                    spec_seeds_unique(seeds@.map_values(|v: Vec<usize>| v@)),
                    forall|i1: int, k1: int|
                        0 <= i1 < seeds@.len() && 0 <= k1 < seeds@[i1]@.len()
                            ==> defined_connections.inner@.contains(
                            spec_norm_pair(i1 as usize, #[trigger] seeds@[i1]@[k1]),
                        ),
                    // the pairs this node drew so far are distinct from each
                    // other and from every earlier node's pairs
                    forall|k1: int, k2: int|
                        0 <= k1 < k2 < node_seeds@.len() ==> spec_norm_pair(
                            i,
                            #[trigger] node_seeds@[k1],
                        ) != spec_norm_pair(i, #[trigger] node_seeds@[k2]),
                    forall|i1: int, k1: int, k2: int|
                        0 <= i1 < seeds@.len() && 0 <= k1 < seeds@[i1]@.len() && 0 <= k2
                            < node_seeds@.len() ==> spec_norm_pair(
                            i1 as usize,
                            #[trigger] seeds@[i1]@[k1],
                        ) != spec_norm_pair(i, #[trigger] node_seeds@[k2]),
                decreases initiated_connections_per_node - q,
            {
                if candidate_ids.len() > 0 {
                    let seed_index = random_below(&mut rng, candidate_ids.len());
                    let ghost pool_before = candidate_ids@;
                    let ghost set_before = defined_connections;
                    let ghost drawn_before = node_seeds@;
                    let seed_id = candidate_ids.remove(seed_index);
                    proof {
                        // the drawn pair is not yet recorded, so it differs
                        // from every pair recorded so far
                        assert(!defined_connections.spec_contains(i, seed_id));
                    }
                    defined_connections.insert(seed_id, i);
                    node_seeds.push(seed_id);
                    proof {
                        // a node still unpaired after this draw was unpaired
                        // before it and is not the drawn one, so it keeps its
                        // place in the pool
                        assert forall|j2: usize|
                            j2 < size && j2 != i && !defined_connections.spec_contains(
                                i,
                                j2,
                            ) implies #[trigger] candidate_ids@.contains(j2) by {
                            assert(!set_before.spec_contains(i, j2));
                            assert(j2 != seed_id);
                            assert(pool_before.contains(j2));
                            pool_before.remove_ensures(seed_index as int);
                            let m = choose|m: int|
                                0 <= m < pool_before.len() && pool_before[m] == j2;
                            if m < seed_index {
                                assert(candidate_ids@[m] == j2);
                            } else {
                                assert(pool_before[seed_index as int] == seed_id);
                                assert(m != seed_index);
                                assert(candidate_ids@[m - 1] == j2);
                            }
                        }
                        // every recorded pair is wired or drawn: old pairs by
                        // their old witnesses, the new pair as the last draw
                        assert forall|p: (usize, usize)|
                            #[trigger] defined_connections.inner@.contains(p) implies
                            spec_pair_wired(seeds@.map_values(|v: Vec<usize>| v@), p.0, p.1) || (
                            exists|k: int|
                                0 <= k < node_seeds@.len() && spec_norm_pair(
                                    i,
                                    #[trigger] node_seeds@[k],
                                ) == p) by {
                            if p == spec_norm_pair(seed_id, i) {
                                assert(node_seeds@.last() == seed_id);
                                assert(spec_norm_pair(i, node_seeds@[node_seeds@.len() - 1]) == p);
                            } else {
                                assert(set_before.inner@.contains(p));
                                if exists|k: int|
                                    0 <= k < drawn_before.len() && spec_norm_pair(
                                        i,
                                        #[trigger] drawn_before[k],
                                    ) == p {
                                    let k = choose|k: int|
                                        0 <= k < drawn_before.len() && spec_norm_pair(
                                            i,
                                            #[trigger] drawn_before[k],
                                        ) == p;
                                    assert(node_seeds@[k] == drawn_before[k]);
                                }
                            }
                        }
                    }
                }
                q = q + 1;
            }
            let ghost prev = seeds@.map_values(|v: Vec<usize>| v@);
            let ghost nsv = node_seeds@;
            seeds.push(node_seeds);
            proof {
                let cur = seeds@.map_values(|v: Vec<usize>| v@);
                assert(cur =~= prev.push(nsv));
                let quota = initiated_connections_per_node as nat;
                assert forall|i1: int| 0 <= i1 < cur.len() implies {
                    &&& (#[trigger] cur[i1]).len() <= quota
                    &&& forall|k: int|
                        0 <= k < cur[i1].len() ==> (#[trigger] cur[i1][k]) < size && cur[i1][k]
                            != i1
                } by {
                    if i1 < prev.len() {
                        assert(cur[i1] == prev[i1]);
                        assert(prev[i1].len() <= quota);
                    } else {
                        assert(cur[i1] == nsv);
                    }
                }
                assert forall|i1: int, k1: int, i2: int, k2: int|
                    0 <= i1 < cur.len() && 0 <= k1 < cur[i1].len() && 0 <= i2 < cur.len() && 0 <= k2
                        < cur[i2].len() && (i1 != i2 || k1 != k2) implies spec_norm_pair(
                    i1 as usize,
                    #[trigger] cur[i1][k1],
                ) != spec_norm_pair(i2 as usize, #[trigger] cur[i2][k2]) by {
                    if i1 < prev.len() && i2 < prev.len() {
                        assert(cur[i1] == prev[i1]);
                        assert(cur[i2] == prev[i2]);
                    } else if i1 < prev.len() && i2 == prev.len() {
                        assert(cur[i1] == prev[i1]);
                        assert(cur[i2] == nsv);
                    } else if i1 == prev.len() && i2 < prev.len() {
                        assert(cur[i1] == nsv);
                        assert(cur[i2] == prev[i2]);
                    } else {
                        assert(cur[i1] == nsv);
                        assert(cur[i2] == nsv);
                        if k1 < k2 {
                            assert(spec_norm_pair(i as usize, nsv[k1]) != spec_norm_pair(
                                i as usize,
                                nsv[k2],
                            ));
                        }
                        if k2 < k1 {
                            assert(spec_norm_pair(i as usize, nsv[k2]) != spec_norm_pair(
                                i as usize,
                                nsv[k1],
                            ));
                        }
                    }
                }
                assert forall|i1: int, k1: int|
                    0 <= i1 < seeds@.len() && 0 <= k1 < seeds@[i1]@.len()
                        implies defined_connections.inner@.contains(
                    spec_norm_pair(i1 as usize, #[trigger] seeds@[i1]@[k1]),
                ) by {
                    if i1 < prev.len() {
                        assert(seeds@[i1]@ == prev[i1]);
                    } else {
                        assert(seeds@[i1]@ == nsv);
                    }
                }
                // every recorded pair is wired once this node's list is in
                assert forall|p: (usize, usize)|
                    #[trigger] defined_connections.inner@.contains(p) implies spec_pair_wired(
                    cur,
                    p.0,
                    p.1,
                ) by {
                    if spec_pair_wired(prev, p.0, p.1) {
                        lemma_pair_wired_push(prev, nsv, p.0, p.1);
                    } else {
                        let k = choose|k: int|
                            0 <= k < nsv.len() && spec_norm_pair(i, #[trigger] nsv[k]) == p;
                        assert(cur[prev.len() as int] == nsv);
                        assert(spec_norm_pair(prev.len() as usize, cur[prev.len() as int][k])
                            == p);
                        assert(spec_norm_pair(p.0, p.1) == p);
                        assert(spec_pair_wired(cur, p.0, p.1));
                    }
                }
                // a list short of the quota means its node is paired with all
                assert forall|i1: int, j1: int|
                    0 <= i1 < cur.len() && cur[i1].len() < quota && 0 <= j1 < size && j1 != i1
                        implies #[trigger] spec_pair_wired(
                    cur,
                    i1 as usize,
                    j1 as usize,
                ) by {
                    if i1 < prev.len() {
                        assert(cur[i1] == prev[i1]);
                        assert(spec_pair_wired(prev, i1 as usize, j1 as usize));
                        lemma_pair_wired_push(prev, nsv, i1 as usize, j1 as usize);
                    } else {
                        // this node's own list fell short: its pool was dry,
                        // so node j1 was already paired with it
                        assert(cur[i1] == nsv);
                        assert(nsv.len() < initiated_connections_per_node);
                        assert(candidate_ids@.len() == 0);
                        assert(i1 == i as int);
                        if !defined_connections.spec_contains(i, j1 as usize) {
                            assert(candidate_ids@.contains(j1 as usize));
                        }
                        assert(defined_connections.spec_contains(i, j1 as usize));
                        let p = spec_norm_pair(i, j1 as usize);
                        assert(defined_connections.inner@.contains(p));
                        assert(spec_pair_wired(cur, p.0, p.1));
                        assert(spec_norm_pair(p.0, p.1) == p);
                        assert(spec_pair_wired(cur, i1 as usize, j1 as usize));
                    }
                }
            }
            i = i + 1;
        }
        Network { seeds }
    }
}

} // verus!
