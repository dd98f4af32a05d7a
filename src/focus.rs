//! Focus: turns a stream of per-round vote ratios into a finality signal.

use vstd::prelude::*;
use crate::types::{ID, Decision, RATIO_ONE};
use crate::idmap::IdMap;

verus! {

/// Confidence progress of one item. The last ratio seen is kept as the pair
/// `last_yes / last_total`.
#[derive(Debug, Clone, Copy, PartialEq, Eq, Structural)]
pub struct FocusState {
    pub confidence: u32,
    pub preference: bool,
    pub decided: bool,
    pub decision: Decision,
    pub last_yes: usize,
    pub last_total: usize,
}

/// The state of an item never updated.
pub open spec fn fresh_focus() -> FocusState {
    FocusState {
        confidence: 0,
        preference: false,
        decided: false,
        decision: Decision::Undecided,
        last_yes: 0,
        last_total: 0,
    }
}

impl FocusState {
    pub fn new() -> (r: FocusState)
        ensures
            r == fresh_focus(),
    {
        FocusState {
            confidence: 0,
            preference: false,
            decided: false,
            decision: Decision::Undecided,
            last_yes: 0,
            last_total: 0,
        }
    }
}

impl Default for FocusState {
    fn default() -> (r: FocusState)
        ensures
            r == fresh_focus(),
    {
        FocusState::new()
    }
}

/// `yes / total ≥ α`, with `α` in parts per [`RATIO_ONE`].
pub open spec fn clears_yes(yes: usize, total: usize, alpha: u64) -> bool {
    yes as int * RATIO_ONE as int >= alpha as int * total as int
}

/// `yes / total ≤ 1 − α`.
pub open spec fn clears_no(yes: usize, total: usize, alpha: u64) -> bool {
    yes as int * RATIO_ONE as int <= (RATIO_ONE as int - alpha as int) * total as int
}

/// One update of an undecided item: a ratio at or above `α` extends or
/// restarts a *yes* streak, one at or below `1 − α` a *no* streak, anything in
/// between resets confidence; reaching `β` decides for the preferred side.
pub open spec fn focus_step(s: FocusState, yes: usize, total: usize, alpha: u64, beta: u32) -> FocusState {
    let p = if clears_yes(yes, total, alpha) {
        true
    } else if clears_no(yes, total, alpha) {
        false
    } else {
        s.preference
    };
    let c: int = if clears_yes(yes, total, alpha) || clears_no(yes, total, alpha) {
        if p == s.preference { s.confidence + 1 } else { 1 }
    } else {
        0
    };
    let t = FocusState { preference: p, confidence: c as u32, last_yes: yes, last_total: total, ..s };
    if c >= beta {
        FocusState { decided: true, decision: if p { Decision::Accept } else { Decision::Reject }, ..t }
    } else {
        t
    }
}

/// The invariant of an item's state under finality count `β`: decided exactly
/// when a decision is recorded; confidence at most `β` (at most 1 when `β = 0`),
/// below it while undecided.
pub open spec fn focus_wf(s: FocusState, beta: u32) -> bool {
    &&& (s.decided <==> s.decision != Decision::Undecided)
    &&& if beta == 0 {
        s.confidence <= 1 && (!s.decided ==> s.confidence == 0)
    } else {
        s.confidence <= beta && (!s.decided ==> s.confidence < beta)
    }
}

/// An item's state, or a fresh one.
pub open spec fn focus_or_fresh(m: Map<ID, FocusState>, id: ID) -> FocusState {
    if m.contains_key(id) {
        m[id]
    } else {
        fresh_focus()
    }
}

/// The states after `update(id, yes, total)`.
pub open spec fn focus_after(m: Map<ID, FocusState>, id: ID, yes: usize, total: usize, alpha: u64, beta: u32) -> Map<ID, FocusState> {
    if total == 0 {
        m
    } else if focus_or_fresh(m, id).decided {
        m.insert(id, focus_or_fresh(m, id))
    } else {
        m.insert(id, focus_step(focus_or_fresh(m, id), yes, total, alpha, beta))
    }
}

/// Whether `update(id, yes, total)` decides the item just now.
pub open spec fn focus_decides(m: Map<ID, FocusState>, id: ID, yes: usize, total: usize, alpha: u64, beta: u32) -> bool {
    total != 0 && !focus_or_fresh(m, id).decided && focus_step(focus_or_fresh(m, id), yes, total, alpha, beta).decided
}

/// Confidence tracker over items: finality after `threshold` consecutive
/// rounds on the same side of `α`.
#[derive(Debug)]
pub struct Focus {
    threshold: u32,
    alpha: u64,
    states: IdMap<FocusState>,
}

impl Focus {
    /// `β`, the rounds needed.
    pub closed spec fn beta(&self) -> u32 {
        self.threshold
    }

    /// `α`, in parts per [`RATIO_ONE`].
    pub closed spec fn alpha(&self) -> u64 {
        self.alpha
    }

    /// The items' states.
    pub closed spec fn states(&self) -> Map<ID, FocusState> {
        self.states@
    }

    pub closed spec fn inv(&self) -> bool {
        &&& self.states.wf()
        &&& forall|id: ID| #[trigger] self.states@.contains_key(id) ==> focus_wf(self.states@[id], self.threshold)
    }

    /// Every item's state is well formed.
    pub proof fn lemma_states_wf(&self, id: ID)
        requires
            self.inv(),
            self.states().contains_key(id),
        ensures
            focus_wf(self.states()[id], self.beta()),
    {
    }

    pub fn new(threshold: u32, alpha: u64) -> (r: Focus)
        ensures
            r.inv(),
            r.beta() == threshold,
            r.alpha() == alpha,
            r.states() == Map::<ID, FocusState>::empty(),
    {
        Focus { threshold, alpha, states: IdMap::new() }
    }

    /// Feeds one round's ratio `yes / total`; true when the item is decided just
    /// now. `total = 0` changes nothing; a decided item stays as it is.
    pub fn update(&mut self, id: ID, yes_votes: usize, total_votes: usize) -> (r: bool)
        requires
            old(self).inv(),
        ensures
            final(self).inv(),
            final(self).beta() == old(self).beta(),
            final(self).alpha() == old(self).alpha(),
            final(self).states() == focus_after(old(self).states(), id, yes_votes, total_votes, old(self).alpha(), old(self).beta()),
            r == focus_decides(old(self).states(), id, yes_votes, total_votes, old(self).alpha(), old(self).beta()),
    {
        if total_votes == 0 {
            return false;
        }
        let mut st = match self.states.get(&id) {
            Some(s) => *s,
            None => FocusState::new(),
        };
        if st.decided {
            self.states.insert(id, st);
            return false;
        }
        assert(focus_wf(st, self.threshold));
        let ghost s0 = st;
        st.last_yes = yes_votes;
        st.last_total = total_votes;
        let y: u128 = yes_votes as u128 * RATIO_ONE as u128;
        assert(self.alpha as int * total_votes as int <= u128::MAX as int) by (nonlinear_arith)
            requires
                0 <= self.alpha <= 0xffff_ffff_ffff_ffff,
                0 <= total_votes <= 0xffff_ffff_ffff_ffff,
        ;
        let yes_side = y >= self.alpha as u128 * total_votes as u128;
        if self.alpha <= RATIO_ONE {
            assert((RATIO_ONE - self.alpha) as int * total_votes as int <= u128::MAX as int) by (nonlinear_arith)
                requires
                    0 <= RATIO_ONE - self.alpha <= 0xffff_ffff_ffff_ffff,
                    0 <= total_votes <= 0xffff_ffff_ffff_ffff,
            ;
        }
        let no_side = self.alpha <= RATIO_ONE && y <= (RATIO_ONE - self.alpha) as u128 * total_votes as u128;
        proof {
            if !(self.alpha <= RATIO_ONE) {
                assert(((RATIO_ONE as int - self.alpha as int) * (total_votes as int)) < 0) by (nonlinear_arith)
                    requires
                        RATIO_ONE < self.alpha,
                        1 <= total_votes,
                ;
                assert(yes_votes as int * RATIO_ONE as int >= 0) by (nonlinear_arith)
                    requires
                        0 <= yes_votes,
                ;
            }
            assert(yes_side == clears_yes(yes_votes, total_votes, self.alpha));
            assert(no_side == clears_no(yes_votes, total_votes, self.alpha));
        }
        if yes_side {
            if st.preference {
                st.confidence = st.confidence + 1;
            } else {
                st.preference = true;
                st.confidence = 1;
            }
        } else if no_side {
            if !st.preference {
                st.confidence = st.confidence + 1;
            } else {
                st.preference = false;
                st.confidence = 1;
            }
        } else {
            st.confidence = 0;
        }
        let decided_now = st.confidence >= self.threshold;
        if decided_now {
            st.decided = true;
            st.decision = if st.preference { Decision::Accept } else { Decision::Reject };
        }
        proof {
            assert(st == focus_step(s0, yes_votes, total_votes, self.alpha, self.threshold));
        }
        self.states.insert(id, st);
        decided_now
    }

    /// An item's state, if it has one.
    pub fn state(&self, id: &ID) -> (r: Option<&FocusState>)
        requires
            self.inv(),
        ensures
            match r {
                Some(s) => self.states().contains_key(*id) && *s == self.states()[*id],
                None => !self.states().contains_key(*id),
            },
    {
        self.states.get(id)
    }

    pub fn is_decided(&self, id: &ID) -> (r: bool)
        requires
            self.inv(),
        ensures
            r == focus_or_fresh(self.states(), *id).decided,
    {
        match self.states.get(id) {
            Some(s) => s.decided,
            None => false,
        }
    }

    pub fn decision(&self, id: &ID) -> (r: Decision)
        requires
            self.inv(),
        ensures
            r == focus_or_fresh(self.states(), *id).decision,
    {
        match self.states.get(id) {
            Some(s) => s.decision,
            None => Decision::Undecided,
        }
    }

    pub fn confidence(&self, id: &ID) -> (r: u32)
        requires
            self.inv(),
        ensures
            r == focus_or_fresh(self.states(), *id).confidence,
    {
        match self.states.get(id) {
            Some(s) => s.confidence,
            None => 0,
        }
    }

    /// Forgets an item's state.
    pub fn reset(&mut self, id: &ID)
        requires
            old(self).inv(),
        ensures
            final(self).inv(),
            final(self).beta() == old(self).beta(),
            final(self).alpha() == old(self).alpha(),
            final(self).states() == old(self).states().remove(*id),
    {
        let _ = self.states.remove(id);
        assert forall|k: ID| #[trigger] self.states@.contains_key(k) implies focus_wf(self.states@[k], self.threshold) by {
            assert(old(self).states@.contains_key(k));
        }
    }
}

/// Relies on `std::time::Instant`: a monotonic clock reading, carried opaquely.
#[verifier::external_type_specification]
#[verifier::external_body]
pub struct ExInstant(std::time::Instant);

/// Relies on `Instant::now`: reads the monotonic clock; nothing is known of the value.
pub assume_specification[ std::time::Instant::now ]() -> std::time::Instant;

/// Relies on `Instant::elapsed`: whole milliseconds since `origin`, saturated to
/// `u64`; it depends on the clock, so nothing is promised of the value.
#[verifier::external_body]
fn millis_since(origin: &std::time::Instant) -> u64 {
    u64::try_from(origin.elapsed().as_millis()).unwrap_or(u64::MAX)
}

/// Whether an item last updated at `last` has expired by `now` under `window`
/// (all in milliseconds).
pub open spec fn expired(last_seen: Map<ID, u64>, id: ID, now: u64, window: u64) -> bool {
    last_seen.contains_key(id) && now > last_seen[id] && now - last_seen[id] > window
}

/// What an update at time `now` does: the item is reset first if it expired,
/// then updated as by [`Focus::update`]; its last-update time becomes `now`.
pub open spec fn windowed_outcome(
    before: WindowedFocus,
    after: WindowedFocus,
    id: ID,
    yes: usize,
    total: usize,
    now: u64,
    r: bool,
) -> bool {
    let m = if expired(before.last_seen(), id, now, before.window()) {
        before.focus().states().remove(id)
    } else {
        before.focus().states()
    };
    let (a, b) = (before.focus().alpha(), before.focus().beta());
    &&& after.last_seen() == before.last_seen().insert(id, now)
    &&& after.focus().states() == focus_after(m, id, yes, total, a, b)
    &&& r == focus_decides(m, id, yes, total, a, b)
}

/// Focus with time-based expiry: an item whose previous update lies more than
/// `window` milliseconds back is reset before the new update applies.
pub struct WindowedFocus {
    inner: Focus,
    window_ms: u64,
    origin: std::time::Instant,
    last_update: IdMap<u64>,
}

impl WindowedFocus {
    /// The wrapped tracker.
    pub closed spec fn focus(&self) -> Focus {
        self.inner
    }

    /// The expiry window in milliseconds.
    pub closed spec fn window(&self) -> u64 {
        self.window_ms
    }

    /// Time of each item's last update, in milliseconds since construction.
    pub closed spec fn last_seen(&self) -> Map<ID, u64> {
        self.last_update@
    }

    pub closed spec fn inv(&self) -> bool {
        self.inner.inv() && self.last_update.wf()
    }

    pub fn new(threshold: u32, alpha: u64, window_ms: u64) -> (r: WindowedFocus)
        ensures
            r.inv(),
            r.focus().beta() == threshold,
            r.focus().alpha() == alpha,
            r.focus().states() == Map::<ID, FocusState>::empty(),
            r.window() == window_ms,
            r.last_seen() == Map::<ID, u64>::empty(),
    {
        WindowedFocus {
            inner: Focus::new(threshold, alpha),
            window_ms,
            origin: std::time::Instant::now(),
            last_update: IdMap::new(),
        }
    }

    /// Reads the clock and applies [`WindowedFocus::update_at`].
    pub fn update(&mut self, id: ID, yes_votes: usize, total_votes: usize) -> (r: bool)
        requires
            old(self).inv(),
        ensures
            final(self).inv(),
            exists|now: u64| #[trigger] windowed_outcome(*old(self), *final(self), id, yes_votes, total_votes, now, r),
    {
        let now = millis_since(&self.origin);
        self.update_at(id, yes_votes, total_votes, now)
    }

    /// Update at time `now` (milliseconds since construction).
    pub fn update_at(&mut self, id: ID, yes_votes: usize, total_votes: usize, now: u64) -> (r: bool)
        requires
            old(self).inv(),
        ensures
            final(self).inv(),
            final(self).window() == old(self).window(),
            final(self).focus().alpha() == old(self).focus().alpha(),
            final(self).focus().beta() == old(self).focus().beta(),
            windowed_outcome(*old(self), *final(self), id, yes_votes, total_votes, now, r),
    {
        match self.last_update.get(&id) {
            Some(last) => {
                if now > *last && now - *last > self.window_ms {
                    self.inner.reset(&id);
                }
            },
            None => {},
        }
        self.last_update.insert(id, now);
        self.inner.update(id, yes_votes, total_votes)
    }

    pub fn is_decided(&self, id: &ID) -> (r: bool)
        requires
            self.inv(),
        ensures
            r == focus_or_fresh(self.focus().states(), *id).decided,
    {
        self.inner.is_decided(id)
    }

    pub fn decision(&self, id: &ID) -> (r: Decision)
        requires
            self.inv(),
        ensures
            r == focus_or_fresh(self.focus().states(), *id).decision,
    {
        self.inner.decision(id)
    }
}

} // verus!
