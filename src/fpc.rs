//! Fast Probabilistic Consensus: a deterministic, phase-indexed quorum threshold.
//!
//! `θ(phase) = θ_min + ⌊H(seed ‖ phase_be64)[0..8] · (θ_max − θ_min) / 2^64⌋`, in
//! parts per [`RATIO_ONE`], where `H` is a keyed 256-bit mixing function with
//! no state between invocations; `select_threshold(phase, k) = ⌈θ(phase) · k⌉`.

use vstd::prelude::*;
use vstd::arithmetic::div_mod::lemma_div_denominator;
use crate::types::RATIO_ONE;
use crate::config::{ceil_ratio_count, ratio_count};

verus! {

/// The four 64-bit words of the mixing state.
pub type MixState = (u64, u64, u64, u64);

/// `256^e`.
pub open spec fn pow256(e: nat) -> nat
    decreases e,
{
    if e == 0 {
        1
    } else {
        256 * pow256((e - 1) as nat)
    }
}

/// Byte `j` of `x`, least significant first.
pub open spec fn byte_of(x: u64, j: nat) -> u8 {
    ((x as nat / pow256(j)) % 256) as u8
}

/// The eight bytes of `x`, most significant first.
pub open spec fn be_bytes8(x: u64) -> Seq<u8> {
    Seq::new(8, |j: int| byte_of(x, (7 - j) as nat))
}

/// Little-endian value of a byte string.
pub open spec fn le_word(s: Seq<u8>) -> nat
    decreases s.len(),
{
    if s.len() == 0 {
        0
    } else {
        s[0] as nat + 256 * le_word(s.skip(1))
    }
}

/// Big-endian value of a byte string.
pub open spec fn be_word(s: Seq<u8>) -> nat
    decreases s.len(),
{
    if s.len() == 0 {
        0
    } else {
        be_word(s.drop_last()) * 256 + s.last() as nat
    }
}

/// Left rotation of a word by `n` bits, `0 < n < 64`.
pub open spec fn rotl(x: u64, n: u64) -> u64 {
    (x << n) | (x >> ((64 - n) as u64))
}

pub open spec fn wadd(a: u64, b: u64) -> u64 {
    vstd::wrapping::u64_specs::wrapping_add(a, b)
}

/// One add-rotate-xor round over the four state words.
pub open spec fn mix_round(s: MixState) -> MixState {
    let v0 = wadd(s.0, s.1);
    let v1 = rotl(s.1, 13) ^ v0;
    let v0 = rotl(v0, 32);
    let v2 = wadd(s.2, s.3);
    let v3 = rotl(s.3, 16) ^ v2;
    let v0 = wadd(v0, v3);
    let v3 = rotl(v3, 21) ^ v0;
    let v2 = wadd(v2, v1);
    let v1 = rotl(v1, 17) ^ v2;
    let v2 = rotl(v2, 32);
    (v0, v1, v2, v3)
}

/// The initial state words.
pub open spec fn mix_init() -> MixState {
    (0x736f6d6570736575u64, 0x646f72616e646f6du64, 0x6c7967656e657261u64, 0x7465646279746573u64)
}

/// Absorbs the input eight bytes at a time (a short last block is zero padded):
/// each block is xored into the last word, mixed by two rounds, then xored into
/// the first word.
pub open spec fn absorb(s: MixState, input: Seq<u8>) -> MixState
    decreases input.len(),
{
    if input.len() == 0 {
        s
    } else {
        let n: int = if input.len() < 8 { input.len() as int } else { 8 };
        let m = le_word(input.take(n)) as u64;
        let t = mix_round(mix_round((s.0, s.1, s.2, s.3 ^ m)));
        absorb((t.0 ^ m, t.1, t.2, t.3), input.skip(n))
    }
}

/// Final mixing: flips the low byte of the third word, then four rounds.
pub open spec fn finish(s: MixState) -> MixState {
    mix_round(mix_round(mix_round(mix_round((s.0, s.1, s.2 ^ 0xffu64, s.3)))))
}

/// Word `w` of a state.
pub open spec fn word(s: MixState, w: int) -> u64 {
    if w == 0 {
        s.0
    } else if w == 1 {
        s.1
    } else if w == 2 {
        s.2
    } else {
        s.3
    }
}

/// The 32-byte digest: the final state words, each little endian.
pub open spec fn digest(input: Seq<u8>) -> Seq<u8> {
    let f = finish(absorb(mix_init(), input));
    Seq::new(32, |i: int| byte_of(word(f, i / 8), (i % 8) as nat))
}

/// The pseudo-random value of a phase: the first eight digest bytes of
/// `seed ‖ phase_be64`, read big endian.
pub open spec fn prf(seed: Seq<u8>, phase: u64) -> nat {
    be_word(digest(seed + be_bytes8(phase)).take(8))
}

/// `θ(phase)` in parts per [`RATIO_ONE`].
pub open spec fn theta_of(lo: u64, hi: u64, seed: Seq<u8>, phase: u64) -> int {
    lo + (prf(seed, phase) * (hi - lo)) / 0x1_0000_0000_0000_0000int
}

pub proof fn lemma_pow256_pos(e: nat)
    ensures
        pow256(e) > 0,
    decreases e,
{
    if e > 0 {
        lemma_pow256_pos((e - 1) as nat);
    }
}

proof fn lemma_pow256_8()
    ensures
        pow256(8) == 0x1_0000_0000_0000_0000int,
{
    reveal_with_fuel(pow256, 9);
}

proof fn lemma_div_step(x: nat, j: nat)
    ensures
        (x / pow256(j)) / 256 == x / pow256(j + 1),
{
    lemma_pow256_pos(j);
    lemma_div_denominator(x as int, pow256(j) as int, 256);
    assert(pow256(j + 1) == 256 * pow256(j));
    assert(pow256(j) * 256 == 256 * pow256(j)) by (nonlinear_arith);
}

proof fn lemma_be_word_bound(s: Seq<u8>)
    ensures
        be_word(s) < pow256(s.len()),
    decreases s.len(),
{
    if s.len() > 0 {
        lemma_be_word_bound(s.drop_last());
        let a = be_word(s.drop_last());
        let p = pow256(s.drop_last().len());
        assert(a * 256 + s.last() < 256 * p) by (nonlinear_arith)
            requires
                a < p,
                s.last() < 256,
        ;
    }
}

/// Left rotation.
fn rotate(x: u64, n: u64) -> (r: u64)
    requires
        0 < n < 64,
    ensures
        r == rotl(x, n),
{
    (x << n) | (x >> (64 - n))
}

/// Computes [`mix_round`].
fn round(s: MixState) -> (r: MixState)
    ensures
        r == mix_round(s),
{
    let v0 = s.0.wrapping_add(s.1);
    let v1 = rotate(s.1, 13) ^ v0;
    let v0 = rotate(v0, 32);
    let v2 = s.2.wrapping_add(s.3);
    let v3 = rotate(s.3, 16) ^ v2;
    let v0 = v0.wrapping_add(v3);
    let v3 = rotate(v3, 21) ^ v0;
    let v2 = v2.wrapping_add(v1);
    let v1 = rotate(v1, 17) ^ v2;
    let v2 = rotate(v2, 32);
    (v0, v1, v2, v3)
}

/// Little-endian value of `input[pos .. pos + n]`.
fn le_block(input: &[u8], pos: usize, n: usize) -> (r: u64)
    requires
        n <= 8,
        pos + n <= input@.len(),
        pos + n <= usize::MAX,
    ensures
        r as nat == le_word(input@.subrange(pos as int, pos + n)),
{
    let mut m: u64 = 0;
    let mut j: usize = n;
    while j > 0
        invariant
            j <= n <= 8,
            pos + n <= input@.len(),
            pos + n <= usize::MAX,
            m as nat == le_word(input@.subrange(pos + j, pos + n)),
            (m as nat) < pow256((n - j) as nat),
        decreases j,
    {
        j = j - 1;
        let b = input[pos + j];
        proof {
            let s = input@.subrange(pos + j, pos + n);
            assert(s.skip(1) =~= input@.subrange(pos + j + 1, pos + n));
            assert(s[0] == b);
            let p = pow256((n - j - 1) as nat);
            assert(pow256((n - j) as nat) == 256 * p);
            assert(b + 256 * m < 256 * p) by (nonlinear_arith)
                requires
                    m < p,
                    b < 256,
            ;
            assert(pow256((n - j) as nat) <= pow256(8)) by {
                reveal_with_fuel(pow256, 9);
                assert(n - j <= 8);
                lemma_pow256_mono((n - j) as nat, 8);
            }
            lemma_pow256_8();
        }
        m = b as u64 + 256 * m;
    }
    m
}

proof fn lemma_pow256_mono(a: nat, b: nat)
    requires
        a <= b,
    ensures
        pow256(a) <= pow256(b),
    decreases b,
{
    if a < b {
        lemma_pow256_mono(a, (b - 1) as nat);
        lemma_pow256_pos((b - 1) as nat);
    }
}

/// Writes the eight little-endian bytes of `x` at `out[8w .. 8w + 8]`.
pub(crate) fn put_word(out: &mut [u8; 32], w: usize, x: u64)
    requires
        w < 4,
    ensures
        forall|i: int| 0 <= i < 32 && !(8 * w <= i < 8 * w + 8) ==> final(out)@[i] == old(out)@[i],
        forall|j: int| 0 <= j < 8 ==> final(out)@[8 * w + j] == #[trigger] byte_of(x, j as nat),
{
    let mut v: u64 = x;
    let mut j: usize = 0;
    assert(pow256(0) == 1);
    while j < 8
        invariant
            w < 4,
            j <= 8,
            v as nat == x as nat / pow256(j as nat),
            forall|i: int| 0 <= i < 32 && !(8 * w <= i < 8 * w + j) ==> out@[i] == old(out)@[i],
            forall|i: int| 0 <= i < j ==> out@[8 * w + i] == #[trigger] byte_of(x, i as nat),
        decreases 8 - j,
    {
        out[8 * w + j] = (v % 256) as u8;
        proof {
            lemma_div_step(x as nat, j as nat);
        }
        v = v / 256;
        j = j + 1;
    }
}

/// The keyed mixing function `H`.
fn mix_digest(input: &[u8]) -> (r: [u8; 32])
    ensures
        r@ == digest(input@),
{
    let mut s: MixState = (0x736f6d6570736575u64, 0x646f72616e646f6du64, 0x6c7967656e657261u64, 0x7465646279746573u64);
    let mut pos: usize = 0;
    assert(input@.skip(0) =~= input@);
    while pos < input.len()
        invariant
            pos <= input@.len(),
            absorb(s, input@.skip(pos as int)) == absorb(mix_init(), input@),
        decreases input@.len() - pos,
    {
        let n: usize = if input.len() - pos < 8 { input.len() - pos } else { 8 };
        let m = le_block(input, pos, n);
        let t = round(round((s.0, s.1, s.2, s.3 ^ m)));
        proof {
            let rest = input@.skip(pos as int);
            assert(rest.take(n as int) =~= input@.subrange(pos as int, pos + n));
            assert(rest.skip(n as int) =~= input@.skip(pos + n));
        }
        s = (t.0 ^ m, t.1, t.2, t.3);
        pos = pos + n;
    }
    assert(input@.skip(pos as int) =~= Seq::<u8>::empty());
    let f = round(round(round(round((s.0, s.1, s.2 ^ 0xffu64, s.3)))));
    let mut out = [0u8; 32];
    put_word(&mut out, 0, f.0);
    put_word(&mut out, 1, f.1);
    put_word(&mut out, 2, f.2);
    put_word(&mut out, 3, f.3);
    proof {
        let fs = finish(absorb(mix_init(), input@));
        assert forall|i: int| 0 <= i < 32 implies out@[i] == byte_of(word(fs, i / 8), (i % 8) as nat) by {
            let w = i / 8;
            let j = i % 8;
            assert(i == 8 * w + j);
        }
        assert(out@ =~= digest(input@));
    }
    out
}

/// The bounds a selector keeps: `θ_min` when `0 < θ_min < 1` (else 0.5), `θ_max`
/// when it lies in `(θ_min, 1]` (else 0.8); a pair still not ordered becomes (0.5, 0.8).
pub open spec fn clamp_range(theta_min: u64, theta_max: u64) -> (u64, u64) {
    let lo: u64 = if 0 < theta_min < RATIO_ONE { theta_min } else { 500_000_000 };
    let hi: u64 = if lo < theta_max <= RATIO_ONE { theta_max } else { 800_000_000 };
    if lo < hi {
        (lo, hi)
    } else {
        (500_000_000, 800_000_000)
    }
}

/// Phase-indexed threshold selector; `0 < θ_min < θ_max ≤ RATIO_ONE` always holds.
#[derive(Debug, Clone)]
pub struct FpcSelector {
    theta_min: u64,
    theta_max: u64,
    seed: [u8; 32],
}

impl FpcSelector {
    /// Lower bound of θ.
    pub closed spec fn lo(&self) -> u64 {
        self.theta_min
    }

    /// Upper bound of θ.
    pub closed spec fn hi(&self) -> u64 {
        self.theta_max
    }

    /// The PRF seed.
    pub closed spec fn seed_bytes(&self) -> Seq<u8> {
        self.seed@
    }

    pub open spec fn wf(&self) -> bool {
        0 < self.lo() < self.hi() <= RATIO_ONE
    }

    /// θ for `phase` under this selector.
    pub open spec fn theta_spec(&self, phase: u64) -> int {
        theta_of(self.lo(), self.hi(), self.seed_bytes(), phase)
    }

    /// Keeps the bounds that [`clamp_range`] gives.
    pub fn new(theta_min: u64, theta_max: u64, seed: [u8; 32]) -> (r: FpcSelector)
        ensures
            r.wf(),
            r.seed_bytes() == seed@,
            (r.lo(), r.hi()) == clamp_range(theta_min, theta_max),
            0 < theta_min < theta_max <= RATIO_ONE ==> r.lo() == theta_min && r.hi() == theta_max,
    {
        let lo: u64 = if theta_min > 0 && theta_min < RATIO_ONE { theta_min } else { 500_000_000 };
        let hi: u64 = if theta_max > lo && theta_max <= RATIO_ONE { theta_max } else { 800_000_000 };
        if hi > lo {
            FpcSelector { theta_min: lo, theta_max: hi, seed }
        } else {
            FpcSelector { theta_min: 500_000_000, theta_max: 800_000_000, seed }
        }
    }

    /// Selector over `[0.5, 0.8]` with the library's default seed.
    pub fn default() -> (r: FpcSelector)
        ensures
            r.wf(),
            r.lo() == 500_000_000,
            r.hi() == 800_000_000,
            r.seed_bytes() == seq![
                108u8, 117, 120, 45, 102, 112, 99, 45, 100, 101, 102, 97, 117, 108, 116, 45,
                115, 101, 101, 100, 45, 48, 48, 48, 48, 48, 48, 48, 48, 48, 48, 48,
            ],
    {
        let seed: [u8; 32] = [
            108, 117, 120, 45, 102, 112, 99, 45, 100, 101, 102, 97, 117, 108, 116, 45,
            115, 101, 101, 100, 45, 48, 48, 48, 48, 48, 48, 48, 48, 48, 48, 48,
        ];
        let r = FpcSelector::new(500_000_000, 800_000_000, seed);
        assert(r.seed_bytes() =~= seq![
            108u8, 117, 120, 45, 102, 112, 99, 45, 100, 101, 102, 97, 117, 108, 116, 45,
            115, 101, 101, 100, 45, 48, 48, 48, 48, 48, 48, 48, 48, 48, 48, 48,
        ]);
        r
    }

    fn compute_theta(&self, phase: u64) -> (r: u64)
        requires
            self.wf(),
        ensures
            r == self.theta_spec(phase),
            self.lo() <= r <= self.hi(),
    {
        let mut input = [0u8; 40];
        let mut i: usize = 0;
        while i < 32
            invariant
                i <= 32,
                forall|j: int| 0 <= j < i ==> input@[j] == self.seed@[j],
            decreases 32 - i,
        {
            input[i] = self.seed[i];
            i = i + 1;
        }
        let mut v: u64 = phase;
        let mut j: usize = 0;
        assert(pow256(0) == 1);
        while j < 8
            invariant
                j <= 8,
                v as nat == phase as nat / pow256(j as nat),
                forall|t: int| 0 <= t < 32 ==> input@[t] == self.seed@[t],
                forall|t: int| 0 <= t < j ==> input@[39 - t] == #[trigger] byte_of(phase, t as nat),
            decreases 8 - j,
        {
            input[39 - j] = (v % 256) as u8;
            proof {
                lemma_div_step(phase as nat, j as nat);
            }
            v = v / 256;
            j = j + 1;
        }
        assert(input@ =~= self.seed@ + be_bytes8(phase));
        let hash = mix_digest(input.as_slice());
        let mut h: u64 = 0;
        let mut t: usize = 0;
        while t < 8
            invariant
                t <= 8,
                h as nat == be_word(hash@.take(t as int)),
                (h as nat) < pow256(t as nat),
            decreases 8 - t,
        {
            proof {
                let s = hash@.take(t + 1);
                assert(s.drop_last() =~= hash@.take(t as int));
                assert(pow256((t + 1) as nat) == 256 * pow256(t as nat));
                let p = pow256(t as nat);
                let b = hash@[t as int];
                assert(h * 256 + b < 256 * p) by (nonlinear_arith)
                    requires
                        h < p,
                        b < 256,
                ;
                lemma_pow256_mono((t + 1) as nat, 8);
                lemma_pow256_8();
            }
            h = h * 256 + hash[t] as u64;
            t = t + 1;
        }
        let d: u64 = self.theta_max - self.theta_min;
        assert((h as int) * (d as int) <= u128::MAX as int) by (nonlinear_arith)
            requires
                0 <= h <= 0xffff_ffff_ffff_ffff,
                0 <= d <= 0xffff_ffff_ffff_ffff,
        ;
        let scaled: u128 = (h as u128 * d as u128) / 0x1_0000_0000_0000_0000u128;
        proof {
            lemma_pow256_8();
            assert(scaled <= d) by (nonlinear_arith)
                requires
                    scaled == (h as int * d as int) / 0x1_0000_0000_0000_0000int,
                    0 <= h < 0x1_0000_0000_0000_0000int,
                    0 <= d,
            {
                assert(h as int * d as int <= 0x1_0000_0000_0000_0000int * d);
            }
        }
        self.theta_min + scaled as u64
    }

    /// The threshold count `⌈θ(phase) · k⌉`.
    pub fn select_threshold(&self, phase: u64, k: usize) -> (r: usize)
        requires
            self.wf(),
        ensures
            r == ratio_count(self.theta_spec(phase) as u64, k),
    {
        let theta = self.compute_theta(phase);
        ceil_ratio_count(theta, k)
    }

    /// θ for `phase`, in parts per [`RATIO_ONE`].
    pub fn theta(&self, phase: u64) -> (r: u64)
        requires
            self.wf(),
        ensures
            r == self.theta_spec(phase),
            self.lo() <= r <= self.hi(),
    {
        self.compute_theta(phase)
    }

    /// The configured `(θ_min, θ_max)`.
    pub fn range(&self) -> (r: (u64, u64))
        ensures
            r == (self.lo(), self.hi()),
    {
        (self.theta_min, self.theta_max)
    }
}

/// θ stays within the selector's bounds for every phase.
pub proof fn lemma_theta_in_range(f: FpcSelector, phase: u64)
    requires
        f.wf(),
    ensures
        f.lo() <= f.theta_spec(phase) <= f.hi(),
{
    let h8 = digest(f.seed_bytes() + be_bytes8(phase)).take(8);
    lemma_be_word_bound(h8);
    lemma_pow256_8();
    let h = prf(f.seed_bytes(), phase);
    let d = f.hi() - f.lo();
    assert(h < 0x1_0000_0000_0000_0000int);
    assert((h * d) / 0x1_0000_0000_0000_0000int <= d) by (nonlinear_arith)
        requires
            0 <= h < 0x1_0000_0000_0000_0000int,
            0 <= d,
    {
        assert(h * d <= 0x1_0000_0000_0000_0000int * d);
    }
    assert(0 <= (h * d) / 0x1_0000_0000_0000_0000int) by (nonlinear_arith)
        requires
            0 <= h,
            0 <= d,
    ;
}

/// θ is a function of the bounds, the seed and the phase alone.
pub proof fn lemma_theta_deterministic(f: FpcSelector, g: FpcSelector, phase: u64)
    requires
        f.lo() == g.lo(),
        f.hi() == g.hi(),
        f.seed_bytes() == g.seed_bytes(),
    ensures
        f.theta_spec(phase) == g.theta_spec(phase),
{
}

/// The threshold `⌈θ·k⌉` lies between `⌈θ_min·k⌉` and `⌈θ_max·k⌉`.
pub proof fn lemma_threshold_in_range(f: FpcSelector, phase: u64, k: usize)
    requires
        f.wf(),
    ensures
        ratio_count(f.lo(), k) <= ratio_count(f.theta_spec(phase) as u64, k) <= ratio_count(f.hi(), k),
{
    lemma_theta_in_range(f, phase);
    let t = f.theta_spec(phase) as u64;
    lemma_ceil_ratio_mono(f.lo(), t, k);
    lemma_ceil_ratio_mono(t, f.hi(), k);
}

proof fn lemma_ceil_ratio_mono(a: u64, b: u64, k: usize)
    requires
        a <= b,
    ensures
        crate::config::ceil_ratio(a, k) <= crate::config::ceil_ratio(b, k),
{
    let x = a as int * k as int + RATIO_ONE as int - 1;
    let y = b as int * k as int + RATIO_ONE as int - 1;
    assert(x <= y) by (nonlinear_arith)
        requires
            a <= b,
            0 <= k,
            x == a as int * k as int + RATIO_ONE as int - 1,
            y == b as int * k as int + RATIO_ONE as int - 1,
    ;
    vstd::arithmetic::div_mod::lemma_div_is_ordered(x, y, RATIO_ONE as int);
}

} // verus!
