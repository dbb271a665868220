use vstd::prelude::*;
use vstd::arithmetic::div_mod::lemma_fundamental_div_mod;
use vstd::arithmetic::div_mod::lemma_fundamental_div_mod_converse;
use crate::constants::HISTORY_LEN;
use crate::constants::MIN_ELAPSED_MICROS;

verus! {

/// Microseconds in one second.
pub const MICROS_PER_SEC: u64 = 1_000_000;

/// A throughput: `bytes` transferred over `micros` microseconds, kept as an
/// exact ratio so that no precision is lost before display.
#[derive(Clone, Copy, Debug, PartialEq, Eq, Structural)]
pub struct Rate {
    pub bytes: u128,
    pub micros: u64,
}

/// The delta between two readings of a cumulative counter; a counter that went
/// backwards (a reset, or a recreated interface) gives zero.
pub open spec fn counter_delta_spec(old: u64, new: u64) -> u64 {
    if new >= old {
        (new - old) as u64
    } else {
        0
    }
}

/// Bytes per second rounded to the nearest whole unit, halves rounding up.
pub open spec fn rounded_rate_spec(bytes: int, micros: int) -> int {
    (2 * bytes * MICROS_PER_SEC + micros) / (2 * micros)
}

/// The history entry for a rate: its rounded value, saturating at the largest `u64`.
pub open spec fn history_value_spec(bytes: int, micros: int) -> u64 {
    if rounded_rate_spec(bytes, micros) > u64::MAX {
        u64::MAX
    } else {
        rounded_rate_spec(bytes, micros) as u64
    }
}

/// Whether a rate reaches one byte per second.
pub open spec fn is_active_spec(bytes: int, micros: int) -> bool {
    bytes * MICROS_PER_SEC >= micros
}

impl Rate {
    pub open spec fn wf(self) -> bool {
        self.micros >= 1
    }

    /// No bytes at all.
    pub fn zero() -> (r: Rate)
        ensures
            r.wf(),
            r.bytes == 0,
            r.micros == 1,
    {
        Rate { bytes: 0, micros: 1 }
    }

    /// `delta` bytes over `micros` microseconds.
    pub fn new(delta: u128, micros: u64) -> (r: Rate)
        requires
            micros >= 1,
        ensures
            r.wf(),
            r.bytes == delta,
            r.micros == micros,
    {
        Rate { bytes: delta, micros }
    }

    /// The sum of two rates measured over the same interval.
    pub fn plus(&self, other: &Rate) -> (r: Rate)
        requires
            self.wf(),
            self.micros == other.micros,
            self.bytes + other.bytes <= u128::MAX,
        ensures
            r.wf(),
            r.bytes == self.bytes + other.bytes,
            r.micros == self.micros,
    {
        Rate { bytes: self.bytes + other.bytes, micros: self.micros }
    }

    /// Bytes per second, rounded to the nearest whole unit and saturating at
    /// the largest `u64`: the value a history stores.
    pub fn rounded_per_second(&self) -> (r: u64)
        requires
            self.wf(),
        ensures
            r == history_value_spec(self.bytes as int, self.micros as int),
    {
        rounded_per_second(self.bytes, self.micros)
    }

    /// Whether the rate reaches one byte per second.
    pub fn is_active(&self) -> (r: bool)
        requires
            self.wf(),
        ensures
            r == is_active_spec(self.bytes as int, self.micros as int),
    {
        if self.bytes > u64::MAX as u128 {
            proof {
                assert(self.bytes * MICROS_PER_SEC >= self.micros) by (nonlinear_arith)
                    requires
                        self.bytes > u64::MAX,
                        self.micros <= u64::MAX,
                ;
            }
            true
        } else {
            self.bytes * (MICROS_PER_SEC as u128) >= self.micros as u128
        }
    }
}

/// The delta between two readings of a cumulative counter, floored at zero.
pub fn counter_delta(old: u64, new: u64) -> (r: u64)
    ensures
        r == counter_delta_spec(old, new),
        new < old ==> r == 0,
{
    new.saturating_sub(old)
}

/// The elapsed time a rate is computed over: the measured time, but never less
/// than the smallest interval, so that a rate never divides by zero.
pub fn effective_elapsed(measured_micros: u64) -> (r: u64)
    ensures
        r == if measured_micros < MIN_ELAPSED_MICROS {
            MIN_ELAPSED_MICROS
        } else {
            measured_micros
        },
        r >= 1,
{
    if measured_micros < MIN_ELAPSED_MICROS {
        MIN_ELAPSED_MICROS
    } else {
        measured_micros
    }
}

proof fn lemma_rounded_split(bytes: int, m: int)
    requires
        bytes >= 0,
        m >= 1,
    ensures
        rounded_rate_spec(bytes, m) == (bytes / m) * MICROS_PER_SEC + (2 * (bytes % m)
            * MICROS_PER_SEC + m) / (2 * m),
        0 <= bytes % m < m,
        bytes / m >= 0,
{
    lemma_fundamental_div_mod(bytes, m);
    let q = bytes / m;
    let r = bytes % m;
    let k = 2 * m;
    let b = 2 * r * MICROS_PER_SEC + m;
    lemma_fundamental_div_mod(b, k);
    let bq = b / k;
    let br = b % k;
    assert(q >= 0) by (nonlinear_arith)
        requires
            bytes >= 0,
            m >= 1,
            bytes == m * q + r,
            0 <= r < m,
    ;
    assert(2 * bytes * MICROS_PER_SEC + m == (q * MICROS_PER_SEC + bq) * k + br) by (nonlinear_arith)
        requires
            bytes == m * q + r,
            b == k * bq + br,
            k == 2 * m,
            b == 2 * r * MICROS_PER_SEC + m,
    ;
    lemma_fundamental_div_mod_converse(
        2 * bytes * MICROS_PER_SEC + m,
        k,
        q * MICROS_PER_SEC + bq,
        br,
    );
}

/// `bytes` over `micros` microseconds as bytes per second, rounded to the
/// nearest whole unit and saturating at the largest `u64`.
pub fn rounded_per_second(bytes: u128, micros: u64) -> (r: u64)
    requires
        micros >= 1,
    ensures
        r == history_value_spec(bytes as int, micros as int),
{
    let m = micros as u128;
    let q = bytes / m;
    let rem = bytes % m;
    proof {
        lemma_rounded_split(bytes as int, m as int);
    }
    if q >= 18_446_744_073_710 {
        proof {
            let b = 2 * rem * MICROS_PER_SEC + m;
            assert(b >= 0 && 2 * m > 0) by (nonlinear_arith)
                requires
                    rem >= 0,
                    m >= 1,
                    b == 2 * rem * MICROS_PER_SEC + m,
            ;
            assert(b / (2 * m) >= 0) by (nonlinear_arith)
                requires
                    b >= 0,
                    2 * m > 0,
            ;
        }
        return u64::MAX;
    }
    proof {
        assert(2 * rem * MICROS_PER_SEC + m <= 2 * (u64::MAX as int) * MICROS_PER_SEC + u64::MAX)
            by (nonlinear_arith)
            requires
                rem < m,
                m <= u64::MAX,
        ;
    }
    let b: u128 = 2 * rem * (MICROS_PER_SEC as u128) + m;
    let total: u128 = q * (MICROS_PER_SEC as u128) + b / (2 * m);
    if total > u64::MAX as u128 {
        u64::MAX
    } else {
        total as u64
    }
}

/// `h` with `v` prepended, cut to the history capacity.
pub open spec fn pushed_spec(h: Seq<u64>, v: u64) -> Seq<u64> {
    let s = seq![v] + h;
    if s.len() > HISTORY_LEN {
        s.subrange(0, HISTORY_LEN as int)
    } else {
        s
    }
}

/// `h` after each value of `vals` was pushed in turn, first to last.
pub open spec fn history_after(h: Seq<u64>, vals: Seq<u64>) -> Seq<u64>
    decreases vals.len(),
{
    if vals.len() == 0 {
        h
    } else {
        pushed_spec(history_after(h, vals.drop_last()), vals.last())
    }
}

/// Prepends the newest value to a rolling history and drops the oldest entries
/// beyond its capacity.
pub fn push_history(h: &mut Vec<u64>, v: u64)
    requires
        old(h)@.len() <= HISTORY_LEN,
    ensures
        final(h)@ == pushed_spec(old(h)@, v),
        final(h)@.len() <= HISTORY_LEN,
{
    h.insert(0, v);
    h.truncate(HISTORY_LEN);
    assert(final(h)@ =~= pushed_spec(old(h)@, v));
}

/// A history never holds more than its capacity; once at least capacity values
/// have been pushed it holds exactly capacity entries, and the newest value
/// pushed is always at index 0.
pub proof fn lemma_history_bounded(h: Seq<u64>, vals: Seq<u64>)
    requires
        h.len() <= HISTORY_LEN,
    ensures
        history_after(h, vals).len() == if h.len() + vals.len() > HISTORY_LEN {
            HISTORY_LEN as int
        } else {
            (h.len() + vals.len()) as int
        },
        vals.len() >= HISTORY_LEN ==> history_after(h, vals).len() == HISTORY_LEN,
        vals.len() > 0 ==> history_after(h, vals)[0] == vals.last(),
    decreases vals.len(),
{
    if vals.len() > 0 {
        lemma_history_bounded(h, vals.drop_last());
    }
}

} // verus!
