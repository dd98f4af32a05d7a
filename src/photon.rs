//! Photon: per-peer luminance and luminance-weighted committee sampling.
//!
//! Luminance is in millilux; multipliers and brightness are ratios in parts per
//! [`RATIO_ONE`].

use vstd::prelude::*;
use crate::types::{ID, NodeID, RATIO_ONE};
use crate::config::QuasarConfig;
use crate::idmap::IdMap;

verus! {

/// Brightness after a success: `c · success_mult`, capped at `max`.
pub open spec fn brighten(c: u64, success_mult: u64, max: u64) -> u64 {
    let v = c as int * success_mult as int / RATIO_ONE as int;
    if v > max as int {
        max
    } else {
        v as u64
    }
}

/// Brightness after a failure: `c · failure_mult`, floored at `min` (and held
/// within `u64`).
pub open spec fn dim(c: u64, failure_mult: u64, min: u64) -> u64 {
    let v = c as int * failure_mult as int / RATIO_ONE as int;
    if v < min as int {
        min
    } else if v > u64::MAX as int {
        u64::MAX
    } else {
        v as u64
    }
}

/// Normalised brightness `lux / base` in parts per [`RATIO_ONE`], held within
/// `u64`; a zero base gives zero.
pub open spec fn normalised(lux: u64, base: u64) -> u64 {
    if base == 0 {
        0
    } else if lux as int * RATIO_ONE as int / base as int > u64::MAX as int {
        u64::MAX
    } else {
        (lux as int * RATIO_ONE as int / base as int) as u64
    }
}

/// Tracks brightness per peer: successes brighten, failures dim.
#[derive(Debug, Clone)]
pub struct Luminance {
    lux: IdMap<u64>,
    base: u64,
    max: u64,
    min: u64,
    success_mult: u64,
    failure_mult: u64,
}

impl Luminance {
    /// Brightness recorded for each peer.
    pub closed spec fn levels(&self) -> Map<ID, u64> {
        self.lux@
    }

    /// Tracked entries in storage order.
    pub closed spec fn level_pairs(&self) -> Seq<(ID, u64)> {
        self.lux.pairs()
    }

    /// `(base, max, min, success_mult, failure_mult)`.
    pub closed spec fn params(&self) -> (u64, u64, u64, u64, u64) {
        (self.base, self.max, self.min, self.success_mult, self.failure_mult)
    }

    pub closed spec fn inv(&self) -> bool {
        self.lux.wf()
    }

    /// The recorded brightness values form a finite map.
    pub proof fn lemma_levels_finite(&self)
        requires
            self.inv(),
        ensures
            self.levels().dom().finite(),
    {
        self.lux.lemma_finite();
    }

    /// Brightness of `id`: recorded, or the base.
    pub open spec fn lux_of(&self, id: ID) -> u64 {
        if self.levels().contains_key(id) {
            self.levels()[id]
        } else {
            self.params().0
        }
    }

    /// Parameters as the model intends them: `min ≤ base ≤ max`, a success
    /// does not dim and a failure does not brighten.
    pub open spec fn sane(&self) -> bool {
        let (base, max, min, sm, fm) = self.params();
        min <= base <= max && sm >= RATIO_ONE && fm <= RATIO_ONE
    }

    /// Every recorded brightness lies in `[min, max]`.
    pub open spec fn within_bounds(&self) -> bool {
        forall|id: ID| #[trigger] self.levels().contains_key(id) ==> self.params().2 <= self.levels()[id] <= self.params().1
    }

    pub fn new(config: &QuasarConfig) -> (r: Luminance)
        ensures
            r.inv(),
            r.levels().dom().finite(),
            r.levels() == Map::<ID, u64>::empty(),
            r.params() == (config.base_luminance, config.max_luminance, config.min_luminance, config.success_multiplier, config.failure_multiplier),
    {
        Luminance {
            lux: IdMap::new(),
            base: config.base_luminance,
            max: config.max_luminance,
            min: config.min_luminance,
            success_mult: config.success_multiplier,
            failure_mult: config.failure_multiplier,
        }
    }

    /// Base 100 lux, range 10 to 1000 lux, multipliers 1.1 and 0.9.
    pub fn default() -> (r: Luminance)
        ensures
            r.inv(),
            r.levels().dom().finite(),
            r.levels() == Map::<ID, u64>::empty(),
            r.params() == (100_000u64, 1_000_000u64, 10_000u64, 1_100_000_000u64, 900_000_000u64),
    {
        Luminance {
            lux: IdMap::new(),
            base: 100_000,
            max: 1_000_000,
            min: 10_000,
            success_mult: 1_100_000_000,
            failure_mult: 900_000_000,
        }
    }

    /// Brightens `id` after a success or dims it after a failure, starting from
    /// the base for an peer not yet seen.
    pub fn illuminate(&mut self, id: &NodeID, success: bool)
        requires
            old(self).inv(),
        ensures
            final(self).inv(),
            final(self).levels().dom().finite(),
            final(self).params() == old(self).params(),
            final(self).levels() == old(self).levels().insert(
                *id,
                if success {
                    brighten(old(self).lux_of(*id), old(self).params().3, old(self).params().1)
                } else {
                    dim(old(self).lux_of(*id), old(self).params().4, old(self).params().2)
                },
            ),
            old(self).sane() && old(self).within_bounds() ==> final(self).within_bounds(),
    {
        let current: u64 = match self.lux.get(id) {
            Some(v) => *v,
            None => self.base,
        };
        assert(current as int * self.success_mult as int <= u128::MAX as int) by (nonlinear_arith)
            requires
                0 <= current <= 0xffff_ffff_ffff_ffff,
                0 <= self.success_mult <= 0xffff_ffff_ffff_ffff,
        ;
        assert(current as int * self.failure_mult as int <= u128::MAX as int) by (nonlinear_arith)
            requires
                0 <= current <= 0xffff_ffff_ffff_ffff,
                0 <= self.failure_mult <= 0xffff_ffff_ffff_ffff,
        ;
        let next: u64 = if success {
            let v: u128 = current as u128 * self.success_mult as u128 / RATIO_ONE as u128;
            if v > self.max as u128 {
                self.max
            } else {
                v as u64
            }
        } else {
            let v: u128 = current as u128 * self.failure_mult as u128 / RATIO_ONE as u128;
            if v < self.min as u128 {
                self.min
            } else if v > u64::MAX as u128 {
                u64::MAX
            } else {
                v as u64
            }
        };
        proof {
            if self.sane() && self.within_bounds() {
                assert(self.min <= current <= self.max);
                lemma_step_within(current, success, self.max, self.min, self.success_mult, self.failure_mult);
            }
        }
        self.lux.insert(*id, next);
        proof {
            self.lux.lemma_finite();
        }
    }

    /// Normalised brightness of `id`, in parts per [`RATIO_ONE`].
    pub fn brightness(&self, id: &NodeID) -> (r: u64)
        requires
            self.inv(),
        ensures
            r == normalised(self.lux_of(*id), self.params().0),
    {
        let l = self.lux(id);
        if self.base == 0 {
            return 0;
        }
        let v: u128 = l as u128 * RATIO_ONE as u128 / self.base as u128;
        if v > u64::MAX as u128 {
            u64::MAX
        } else {
            v as u64
        }
    }

    /// Brightness of `id` in millilux.
    pub fn lux(&self, id: &NodeID) -> (r: u64)
        requires
            self.inv(),
        ensures
            r == self.lux_of(*id),
    {
        match self.lux.get(id) {
            Some(v) => *v,
            None => self.base,
        }
    }

    /// Sum of the recorded brightness values.
    pub fn total_luminance(&self) -> (r: u128)
        requires
            self.inv(),
        ensures
            r == sum_values(self.level_pairs()),
    {
        let n = self.lux.len();
        let mut total: u128 = 0;
        let mut i: usize = 0;
        while i < n
            invariant
                self.inv(),
                n == self.level_pairs().len(),
                i <= n,
                total == sum_values(self.level_pairs().take(i as int)),
                total <= i * 0xffff_ffff_ffff_ffffnat,
            decreases n - i,
        {
            let (_, v) = self.lux.entry_at(i);
            proof {
                assert(self.level_pairs().take(i + 1).drop_last() =~= self.level_pairs().take(i as int));
                assert(i * 0xffff_ffff_ffff_ffffnat + 0xffff_ffff_ffff_ffffnat <= u128::MAX) by (nonlinear_arith)
                    requires
                        i <= 0xffff_ffff_ffff_ffff,
                ;
                assert((i + 1) * 0xffff_ffff_ffff_ffffnat == i * 0xffff_ffff_ffff_ffffnat + 0xffff_ffff_ffff_ffffnat) by (nonlinear_arith);
            }
            total = total + *v as u128;
            i = i + 1;
        }
        assert(self.level_pairs().take(n as int) =~= self.level_pairs());
        total
    }

    /// Number of peers with a recorded brightness.
    pub fn node_count(&self) -> (r: usize)
        requires
            self.inv(),
        ensures
            r == self.levels().len(),
    {
        self.lux.len()
    }
}

/// Sum of the values of a list of entries.
pub open spec fn sum_values(s: Seq<(ID, u64)>) -> nat
    decreases s.len(),
{
    if s.len() == 0 {
        0
    } else {
        sum_values(s.drop_last()) + s.last().1 as nat
    }
}

/// One success or failure keeps a brightness inside `[min, max]` when the
/// parameters are sane.
pub proof fn lemma_step_within(c: u64, success: bool, max: u64, min: u64, sm: u64, fm: u64)
    requires
        min <= c <= max,
        sm >= RATIO_ONE,
        fm <= RATIO_ONE,
    ensures
        success ==> min <= brighten(c, sm, max) <= max,
        !success ==> min <= dim(c, fm, min) <= max,
{
    assert(c as int * sm as int / RATIO_ONE as int >= c) by (nonlinear_arith)
        requires
            sm >= RATIO_ONE,
            c >= 0,
            RATIO_ONE > 0,
    {
        assert(c as int * sm as int >= c as int * RATIO_ONE as int);
        assert((c as int * RATIO_ONE as int) / RATIO_ONE as int == c);
    }
    assert(c as int * fm as int / RATIO_ONE as int <= c) by (nonlinear_arith)
        requires
            fm <= RATIO_ONE,
            c >= 0,
            fm >= 0,
            RATIO_ONE > 0,
    {
        assert(c as int * fm as int <= c as int * RATIO_ONE as int);
        assert((c as int * RATIO_ONE as int) / RATIO_ONE as int == c);
    }
}

/// Score of peer `idx` for slot `slot`: its weight times `idx + slot + 1`.
pub open spec fn score(w: Seq<u64>, idx: int, slot: int) -> int {
    w[idx] as int * (idx + slot + 1)
}

/// `idx` is the pick for `slot` given the peers `taken` already: among the
/// peers not taken it has the highest score, the lowest index among equals.
pub open spec fn best_pick(w: Seq<u64>, taken: Seq<int>, slot: int, idx: int) -> bool {
    &&& 0 <= idx < w.len()
    &&& !taken.contains(idx)
    &&& forall|j: int| 0 <= j < w.len() && !taken.contains(j) ==> {
        &&& (j < idx ==> #[trigger] score(w, j, slot) < score(w, idx, slot))
        &&& (j > idx ==> score(w, j, slot) <= score(w, idx, slot))
    }
}

/// Each pick is the best pick for its slot given the picks before it.
pub open spec fn greedy_picks(w: Seq<u64>, picks: Seq<int>) -> bool {
    forall|s: int| 0 <= s < picks.len() ==> #[trigger] best_pick(w, picks.take(s), s, picks[s])
}

/// A strictly increasing list of indices.
pub open spec fn increasing(s: Seq<usize>) -> bool {
    forall|a: int, b: int| 0 <= a < b < s.len() ==> s[a] < s[b]
}

/// Samples committees from a peer list, weighting peers by brightness.
pub struct PhotonSampler {
    peers: Vec<NodeID>,
    luminance: Luminance,
    k: usize,
}

impl PhotonSampler {
    pub closed spec fn peer_list(&self) -> Seq<NodeID> {
        self.peers@
    }

    pub closed spec fn lum(&self) -> Luminance {
        self.luminance
    }

    /// The configured committee size.
    pub closed spec fn k_spec(&self) -> usize {
        self.k
    }

    pub closed spec fn inv(&self) -> bool {
        self.luminance.inv()
    }

    /// Each peer's weight: its normalised brightness.
    pub open spec fn weights(&self) -> Seq<u64> {
        self.peer_list().map_values(|p: NodeID| normalised(self.lum().lux_of(p), self.lum().params().0))
    }

    pub fn new(peers: Vec<NodeID>, config: &QuasarConfig) -> (r: PhotonSampler)
        ensures
            r.inv(),
            r.peer_list() == peers@,
            r.lum().levels() == Map::<ID, u64>::empty(),
            r.lum().params() == (config.base_luminance, config.max_luminance, config.min_luminance, config.success_multiplier, config.failure_multiplier),
            r.k_spec() == config.k,
    {
        PhotonSampler { peers, luminance: Luminance::new(config), k: config.k }
    }

    /// At most `k` peers chosen deterministically: none from an empty list; the
    /// first `k` when every weight is zero; otherwise, slot by slot, the peer not
    /// yet chosen with the highest score (lowest index among equals).
    pub fn sample(&self, k: usize) -> (r: Vec<NodeID>)
        requires
            self.inv(),
            self.peer_list().len() <= 0x8000_0000_0000_0000,
        ensures
            ({
                let n = self.peer_list().len();
                let m = if k < n { k as int } else { n as int };
                &&& n == 0 ==> r@.len() == 0
                &&& n > 0 && (forall|i: int| 0 <= i < n ==> self.weights()[i] == 0) ==> r@ == self.peer_list().take(m)
                &&& n > 0 && (exists|i: int| 0 <= i < n && self.weights()[i] != 0) ==> exists|picks: Seq<int>|
                    #[trigger] greedy_picks(self.weights(), picks) && picks.len() == m
                        && r@ == picks.map_values(|i: int| self.peer_list()[i])
            }),
    {
        let n = self.peers.len();
        if n == 0 {
            return Vec::new();
        }
        let m: usize = if k < n { k } else { n };
        let ghost w = self.weights();
        let mut weights: Vec<u64> = Vec::new();
        let mut any = false;
        let mut i: usize = 0;
        while i < n
            invariant
                self.inv(),
                n == self.peer_list().len(),
                w == self.weights(),
                i <= n,
                weights@ == w.take(i as int),
                any == (exists|j: int| 0 <= j < i && w[j] != 0),
            decreases n - i,
        {
            let b = self.luminance.brightness(&self.peers[i]);
            weights.push(b);
            if b != 0 {
                any = true;
            }
            i = i + 1;
            proof {
                assert(weights@ =~= w.take(i as int));
                if any && !(exists|j: int| 0 <= j < i - 1 && w[j] != 0) {
                    assert(w[i - 1] != 0);
                }
            }
        }
        assert(weights@ =~= w);
        if !any {
            let mut first: Vec<NodeID> = Vec::new();
            let mut t: usize = 0;
            while t < m
                invariant
                    m <= n == self.peer_list().len(),
                    t <= m,
                    first@ == self.peer_list().take(t as int),
                decreases m - t,
            {
                first.push(self.peers[t]);
                t = t + 1;
                assert(first@ =~= self.peer_list().take(t as int));
            }
            return first;
        }
        let mut remaining: Vec<usize> = Vec::new();
        let mut t: usize = 0;
        while t < n
            invariant
                t <= n,
                remaining@ == Seq::new(t as nat, |j: int| j as usize),
            decreases n - t,
        {
            remaining.push(t);
            t = t + 1;
            assert(remaining@ =~= Seq::new(t as nat, |j: int| j as usize));
        }
        let mut selected: Vec<NodeID> = Vec::new();
        let ghost mut picks: Seq<int> = Seq::empty();
        proof {
            assert forall|j: int| 0 <= j < n implies (remaining@.contains(j as usize) <==> !picks.contains(j)) by {
                assert(remaining@[j] == j as usize);
            }
            assert(selected@ =~= picks.map_values(|i: int| self.peer_list()[i]));
        }
        let mut slot: usize = 0;
        while slot < m
            invariant
                m <= n == self.peer_list().len(),
                n <= 0x8000_0000_0000_0000,
                weights@ == w,
                w.len() == n,
                slot <= m,
                picks.len() == slot,
                remaining@.len() == n - slot,
                increasing(remaining@),
                forall|q: int| 0 <= q < remaining@.len() ==> remaining@[q] < n,
                forall|j: int| 0 <= j < n ==> (remaining@.contains(j as usize) <==> !picks.contains(j)),
                forall|q: int| 0 <= q < picks.len() ==> 0 <= #[trigger] picks[q] < n,
                greedy_picks(w, picks),
                selected@ == picks.map_values(|i: int| self.peer_list()[i]),
            decreases m - slot,
        {
            let mut best_pos: usize = 0;
            let first_idx = remaining[0];
            proof {
                assert(w[first_idx as int] as int * (first_idx + slot + 1) <= u128::MAX as int) by (nonlinear_arith)
                    requires
                        0 <= w[first_idx as int] <= 0xffff_ffff_ffff_ffff,
                        first_idx < 0x8000_0000_0000_0000,
                        slot < 0x8000_0000_0000_0000,
                ;
            }
            let mut best_score: u128 = weights[first_idx] as u128 * (first_idx as u128 + slot as u128 + 1);
            let mut q: usize = 1;
            while q < remaining.len()
                invariant
                    remaining@.len() == n - slot,
                    slot < m <= n,
                    n <= 0x8000_0000_0000_0000,
                    weights@ == w,
                    w.len() == n,
                    forall|z: int| 0 <= z < remaining@.len() ==> remaining@[z] < n,
                    1 <= q <= remaining@.len(),
                    best_pos < q,
                    best_score == score(w, remaining@[best_pos as int] as int, slot as int),
                    forall|z: int| 0 <= z < q ==> {
                        &&& (z < best_pos ==> score(w, remaining@[z] as int, slot as int) < best_score)
                        &&& (z > best_pos ==> score(w, remaining@[z] as int, slot as int) <= best_score)
                    },
                decreases remaining@.len() - q,
            {
                let idx = remaining[q];
                proof {
                    assert(w[idx as int] as int * (idx + slot + 1) <= u128::MAX as int) by (nonlinear_arith)
                        requires
                            0 <= w[idx as int] <= 0xffff_ffff_ffff_ffff,
                            idx < 0x8000_0000_0000_0000,
                            slot < 0x8000_0000_0000_0000,
                    ;
                }
                let sc: u128 = weights[idx] as u128 * (idx as u128 + slot as u128 + 1);
                if sc > best_score {
                    best_pos = q;
                    best_score = sc;
                }
                q = q + 1;
            }
            let ghost rem0 = remaining@;
            let idx = remaining.remove(best_pos);
            proof {
                let taken = picks;
                assert forall|j: int| 0 <= j < n && !taken.contains(j) implies {
                    &&& (j < idx ==> #[trigger] score(w, j, slot as int) < score(w, idx as int, slot as int))
                    &&& (j > idx ==> score(w, j, slot as int) <= score(w, idx as int, slot as int))
                } by {
                    assert(rem0.contains(j as usize));
                    let z = choose|z: int| 0 <= z < rem0.len() && rem0[z] == j as usize;
                    if z < best_pos {
                        assert(rem0[z] < rem0[best_pos as int]);
                    } else if z > best_pos {
                        assert(rem0[z] > rem0[best_pos as int]);
                    }
                }
                assert(rem0.contains(idx));
                assert(!taken.contains(idx as int));
                assert(best_pick(w, taken, slot as int, idx as int));
                let new_picks = taken.push(idx as int);
                assert forall|s2: int| 0 <= s2 < new_picks.len() implies #[trigger] best_pick(w, new_picks.take(s2), s2, new_picks[s2]) by {
                    if s2 < taken.len() {
                        assert(new_picks.take(s2) =~= taken.take(s2));
                    } else {
                        assert(new_picks.take(s2) =~= taken);
                    }
                }
                assert(remaining@ =~= rem0.remove(best_pos as int));
                assert forall|a: int, b: int| 0 <= a < b < remaining@.len() implies remaining@[a] < remaining@[b] by {
                    let oa = if a < best_pos { a } else { a + 1 };
                    let ob = if b < best_pos { b } else { b + 1 };
                    assert(remaining@[a] == rem0[oa]);
                    assert(remaining@[b] == rem0[ob]);
                }
                assert forall|j: int| 0 <= j < n implies (remaining@.contains(j as usize) <==> !new_picks.contains(j)) by {
                    if remaining@.contains(j as usize) {
                        let z = choose|z: int| 0 <= z < remaining@.len() && remaining@[z] == j as usize;
                        let oz = if z < best_pos { z } else { z + 1 };
                        assert(rem0[oz] == j as usize);
                        assert(rem0.contains(j as usize));
                        assert(oz != best_pos);
                        if j == idx as int {
                            assert(rem0[oz] == rem0[best_pos as int]);
                            if oz < best_pos { assert(rem0[oz] < rem0[best_pos as int]); }
                            else { assert(rem0[oz] > rem0[best_pos as int]); }
                        }
                        assert(new_picks.contains(j) ==> taken.contains(j) || j == idx as int);
                    } else {
                        if !new_picks.contains(j) {
                            if taken.contains(j) {
                                let z = choose|z: int| 0 <= z < taken.len() && taken[z] == j;
                                assert(new_picks[z] == j);
                            }
                            assert(!taken.contains(j));
                            assert(rem0.contains(j as usize));
                            let z = choose|z: int| 0 <= z < rem0.len() && rem0[z] == j as usize;
                            assert(j != idx as int) by {
                                assert(new_picks[taken.len() as int] == idx as int);
                            }
                            assert(z != best_pos);
                            let nz = if z < best_pos { z } else { z - 1 };
                            assert(remaining@[nz] == j as usize);
                        }
                    }
                }
                picks = new_picks;
            }
            selected.push(self.peers[idx]);
            proof {
                assert(selected@ =~= picks.map_values(|i: int| self.peer_list()[i]));
            }
            slot = slot + 1;
        }
        selected
    }

    /// Records a success or failure of `id` with the luminance tracker.
    pub fn update_luminance(&mut self, id: &NodeID, success: bool)
        requires
            old(self).inv(),
        ensures
            final(self).inv(),
            final(self).peer_list() == old(self).peer_list(),
            final(self).k_spec() == old(self).k_spec(),
            final(self).lum().params() == old(self).lum().params(),
            final(self).lum().levels() == old(self).lum().levels().insert(
                *id,
                if success {
                    brighten(old(self).lum().lux_of(*id), old(self).lum().params().3, old(self).lum().params().1)
                } else {
                    dim(old(self).lum().lux_of(*id), old(self).lum().params().4, old(self).lum().params().2)
                },
            ),
    {
        self.luminance.illuminate(id, success);
    }

    /// Appends a peer that is not in the list yet.
    pub fn add_peer(&mut self, peer: NodeID)
        requires
            old(self).inv(),
        ensures
            final(self).inv(),
            final(self).lum() == old(self).lum(),
            final(self).k_spec() == old(self).k_spec(),
            final(self).peer_list() == if old(self).peer_list().contains(peer) {
                old(self).peer_list()
            } else {
                old(self).peer_list().push(peer)
            },
    {
        let mut i: usize = 0;
        while i < self.peers.len()
            invariant
                i <= self.peers@.len(),
                forall|j: int| 0 <= j < i ==> self.peers@[j] != peer,
                self.inv(),
                self.lum() == old(self).lum(),
                self.k_spec() == old(self).k_spec(),
                self.peers@ == old(self).peers@,
            decreases self.peers@.len() - i,
        {
            if self.peers[i] == peer {
                assert(self.peers@[i as int] == peer);
                return;
            }
            i = i + 1;
        }
        self.peers.push(peer);
    }

    /// Removes every occurrence of a peer.
    pub fn remove_peer(&mut self, peer: &NodeID)
        requires
            old(self).inv(),
        ensures
            final(self).inv(),
            final(self).lum() == old(self).lum(),
            final(self).k_spec() == old(self).k_spec(),
            final(self).peer_list() == old(self).peer_list().filter(|p: NodeID| p != *peer),
    {
        let mut kept: Vec<NodeID> = Vec::new();
        let mut i: usize = 0;
        while i < self.peers.len()
            invariant
                i <= self.peers@.len(),
                kept@ == self.peers@.take(i as int).filter(|p: NodeID| p != *peer),
            decreases self.peers@.len() - i,
        {
            let p = self.peers[i];
            proof {
                let s = self.peers@.take(i + 1);
                assert(s.drop_last() =~= self.peers@.take(i as int));
                s.filter_lemma(|p: NodeID| p != *peer);
                reveal(Seq::filter);
            }
            if p != *peer {
                kept.push(p);
            }
            i = i + 1;
        }
        assert(self.peers@.take(i as int) =~= self.peers@);
        self.peers = kept;
    }

    pub fn luminance(&self) -> (r: &Luminance)
        ensures
            *r == self.lum(),
    {
        &self.luminance
    }
}

} // verus!
