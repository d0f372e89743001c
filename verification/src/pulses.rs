//! Mathematical model of the Somfy RTS pulse train.
//!
//! A transmission is a sequence of (level, duration) pulses: a wakeup pulse
//! and hardware-sync bursts, a software-sync pulse, the Manchester-encoded
//! 56-bit frame, and inter-frame gaps between repeats. The raw sequence is
//! then consolidated: adjacent pulses of equal level are merged into one
//! pulse with the summed duration.

use vstd::prelude::*;

use crate::protocol::LevelDuration;
use crate::protocol::SOMFY_HALF_SYMBOL_US;
use crate::protocol::SOMFY_HW_SYNC_HIGH;
use crate::protocol::SOMFY_HW_SYNC_LOW;
use crate::protocol::SOMFY_INTER_FRAME_GAP;
use crate::protocol::SOMFY_SW_SYNC_HIGH;
use crate::protocol::SOMFY_SW_SYNC_LOW;
use crate::protocol::SOMFY_WAKEUP_HIGH;
use crate::protocol::SOMFY_WAKEUP_LOW;

verus! {

/// The wakeup pulse pair that opens a transmission.
pub open spec fn wakeup_pulses() -> Seq<LevelDuration> {
    seq![
        LevelDuration { level: true, duration: SOMFY_WAKEUP_HIGH },
        LevelDuration { level: false, duration: SOMFY_WAKEUP_LOW },
    ]
}

/// One hardware-sync pulse pair.
pub open spec fn hw_sync_pair() -> Seq<LevelDuration> {
    seq![
        LevelDuration { level: true, duration: SOMFY_HW_SYNC_HIGH },
        LevelDuration { level: false, duration: SOMFY_HW_SYNC_LOW },
    ]
}

/// `n` hardware-sync pulse pairs.
pub open spec fn hw_syncs(n: int) -> Seq<LevelDuration>
    decreases n,
{
    if n <= 0 {
        Seq::empty()
    } else {
        hw_syncs(n - 1) + hw_sync_pair()
    }
}

/// The software-sync pulse pair.
pub open spec fn sw_sync_pulses() -> Seq<LevelDuration> {
    seq![
        LevelDuration { level: true, duration: SOMFY_SW_SYNC_HIGH },
        LevelDuration { level: false, duration: SOMFY_SW_SYNC_LOW },
    ]
}

/// The gap pulse emitted between two repeats.
pub open spec fn gap_pulse() -> LevelDuration {
    LevelDuration { level: false, duration: SOMFY_INTER_FRAME_GAP }
}

/// Whether bit `pos` (0 = least significant) of `b` is set.
pub open spec fn bit_of(b: u8, pos: u8) -> bool {
    ((b >> pos) & 1) == 1
}

/// The two half-symbol pulses of one Manchester-encoded bit: a set bit is a
/// rising edge (low then high), a clear bit a falling edge (high then low).
pub open spec fn manchester_bit(bit: bool) -> Seq<LevelDuration> {
    if bit {
        seq![
            LevelDuration { level: false, duration: SOMFY_HALF_SYMBOL_US },
            LevelDuration { level: true, duration: SOMFY_HALF_SYMBOL_US },
        ]
    } else {
        seq![
            LevelDuration { level: true, duration: SOMFY_HALF_SYMBOL_US },
            LevelDuration { level: false, duration: SOMFY_HALF_SYMBOL_US },
        ]
    }
}

/// The pulses of the first `k` bits of `b`, most significant bit first.
pub open spec fn manchester_byte_upto(b: u8, k: int) -> Seq<LevelDuration>
    decreases k,
{
    if k <= 0 {
        Seq::empty()
    } else {
        manchester_byte_upto(b, k - 1) + manchester_bit(bit_of(b, (8 - k) as u8))
    }
}

/// The 16 pulses of one Manchester-encoded byte, most significant bit first.
pub open spec fn manchester_byte(b: u8) -> Seq<LevelDuration> {
    manchester_byte_upto(b, 8)
}

/// The pulses of the first `k` bytes of `f`.
pub open spec fn manchester_frame_upto(f: Seq<u8>, k: int) -> Seq<LevelDuration>
    decreases k,
{
    if k <= 0 {
        Seq::empty()
    } else {
        manchester_frame_upto(f, k - 1) + manchester_byte(f[k - 1])
    }
}

/// The pulses of a whole Manchester-encoded frame.
pub open spec fn manchester_frame(f: Seq<u8>) -> Seq<LevelDuration> {
    manchester_frame_upto(f, f.len() as int)
}

/// The pulses of repeat `r` out of `repeats`: the first repeat opens with
/// the wakeup pulse and 2 hardware-sync pairs, later repeats with 7
/// hardware-sync pairs; then the software sync and the Manchester-encoded
/// frame; a gap follows unless this is the last repeat.
pub open spec fn repeat_block(f: Seq<u8>, r: int, repeats: int) -> Seq<LevelDuration> {
    (if r == 0 {
        wakeup_pulses() + hw_syncs(2)
    } else {
        hw_syncs(7)
    }) + sw_sync_pulses() + manchester_frame(f) + (if r + 1 < repeats {
        seq![gap_pulse()]
    } else {
        Seq::empty()
    })
}

/// The pulses of the first `r` repeats.
pub open spec fn raw_upto(f: Seq<u8>, r: int, repeats: int) -> Seq<LevelDuration>
    decreases r,
{
    if r <= 0 {
        Seq::empty()
    } else {
        raw_upto(f, r - 1, repeats) + repeat_block(f, r - 1, repeats)
    }
}

/// The raw (unconsolidated) pulse train of a whole transmission.
pub open spec fn spec_raw_transmission(f: Seq<u8>, repeats: int) -> Seq<LevelDuration> {
    raw_upto(f, repeats, repeats)
}

/// The number of raw pulses a transmission of `repeats` repeats holds
/// (meaningful for `repeats >= 1`): the first repeat is 120 pulses, each
/// later one 128, with one gap pulse before each repeat after the first.
pub open spec fn spec_raw_len(repeats: int) -> int {
    129 * repeats - 9
}

/// No two adjacent pulses of `s` share a level.
pub open spec fn alternating(s: Seq<LevelDuration>) -> bool {
    forall|i: int| 1 <= i < s.len() ==> (#[trigger] s[i].level) != s[i - 1].level
}

/// Every duration in `s` is at most `m`.
pub open spec fn durations_le(s: Seq<LevelDuration>, m: u32) -> bool {
    forall|i: int| 0 <= i < s.len() ==> (#[trigger] s[i].duration) <= m
}

/// The summed duration of all pulses of `s`.
pub open spec fn sum_durations(s: Seq<LevelDuration>) -> int
    decreases s.len(),
{
    if s.len() == 0 {
        0
    } else {
        sum_durations(s.drop_last()) + s.last().duration
    }
}

/// One step of consolidation: merge `p` into the last pulse of `acc` if the
/// levels agree, otherwise append it.
pub open spec fn merge_step(acc: Seq<LevelDuration>, p: LevelDuration) -> Seq<LevelDuration> {
    if acc.len() > 0 && acc.last().level == p.level {
        acc.update(
            acc.len() - 1,
            LevelDuration {
                level: p.level,
                duration: (acc.last().duration + p.duration) as u32,
            },
        )
    } else {
        acc.push(p)
    }
}

/// The consolidated form of `s`: a left-to-right pass that merges every run
/// of equal-level pulses into one pulse with the summed duration.
pub open spec fn consolidate_spec(s: Seq<LevelDuration>) -> Seq<LevelDuration>
    decreases s.len(),
{
    if s.len() == 0 {
        Seq::empty()
    } else {
        merge_step(consolidate_spec(s.drop_last()), s.last())
    }
}

/// `hw_syncs(n)` holds `2 * n` pulses.
pub(crate) proof fn lemma_hw_syncs_len(n: int)
    requires
        n >= 0,
    ensures
        hw_syncs(n).len() == 2 * n,
    decreases n,
{
    if n > 0 {
        lemma_hw_syncs_len(n - 1);
    }
}

/// `manchester_byte_upto(b, k)` holds `2 * k` pulses.
pub(crate) proof fn lemma_manchester_byte_upto_len(b: u8, k: int)
    requires
        k >= 0,
    ensures
        manchester_byte_upto(b, k).len() == 2 * k,
    decreases k,
{
    if k > 0 {
        lemma_manchester_byte_upto_len(b, k - 1);
    }
}

/// `manchester_frame_upto(f, k)` holds `16 * k` pulses.
pub(crate) proof fn lemma_manchester_frame_upto_len(f: Seq<u8>, k: int)
    requires
        k >= 0,
    ensures
        manchester_frame_upto(f, k).len() == 16 * k,
    decreases k,
{
    if k > 0 {
        lemma_manchester_frame_upto_len(f, k - 1);
        lemma_manchester_byte_upto_len(f[k - 1], 8);
    }
}

/// The pulse count of one repeat block.
pub(crate) proof fn lemma_repeat_block_len(f: Seq<u8>, r: int, repeats: int)
    requires
        f.len() == 7,
        r >= 0,
    ensures
        repeat_block(f, r, repeats).len() == (if r == 0 {
            120int
        } else {
            128int
        }) + (if r + 1 < repeats {
            1int
        } else {
            0int
        }),
{
    lemma_hw_syncs_len(2);
    lemma_hw_syncs_len(7);
    lemma_manchester_frame_upto_len(f, 7);
}

/// The pulse count of the first `r` repeats: 120 for the first repeat and
/// 129 for each further one, the last repeat one shorter for want of a gap.
pub(crate) proof fn lemma_raw_upto_len(f: Seq<u8>, r: int, repeats: int)
    requires
        f.len() == 7,
        0 <= r <= repeats,
    ensures
        raw_upto(f, r, repeats).len() == (if r == 0 {
            0int
        } else if r < repeats {
            129 * r - 8
        } else {
            129 * r - 9
        }),
    decreases r,
{
    if r > 0 {
        lemma_raw_upto_len(f, r - 1, repeats);
        lemma_repeat_block_len(f, r - 1, repeats);
    }
}

/// Durations are unsigned, so every summed duration is nonnegative.
pub(crate) proof fn lemma_sum_nonneg(s: Seq<LevelDuration>)
    ensures
        sum_durations(s) >= 0,
    decreases s.len(),
{
    if s.len() > 0 {
        lemma_sum_nonneg(s.drop_last());
    }
}

/// Summing one more pulse of a prefix.
pub(crate) proof fn lemma_sum_take_step(s: Seq<LevelDuration>, i: int)
    requires
        0 <= i < s.len(),
    ensures
        sum_durations(s.take(i + 1)) == sum_durations(s.take(i)) + s[i].duration,
{
    assert(s.take(i + 1).drop_last() =~= s.take(i));
    assert(s.take(i + 1).last() == s[i]);
}

/// A prefix never sums to more than the whole sequence.
pub(crate) proof fn lemma_sum_take_le(s: Seq<LevelDuration>, i: int)
    requires
        0 <= i <= s.len(),
    ensures
        sum_durations(s.take(i)) <= sum_durations(s),
    decreases s.len() - i,
{
    if i == s.len() {
        assert(s.take(i) =~= s);
    } else {
        lemma_sum_take_step(s, i);
        lemma_sum_take_le(s, i + 1);
    }
}

/// With every duration at most `m`, the sum is at most `m` per pulse.
pub(crate) proof fn lemma_sum_le(s: Seq<LevelDuration>, m: u32)
    requires
        durations_le(s, m),
    ensures
        sum_durations(s) <= s.len() * m,
    decreases s.len(),
{
    if s.len() > 0 {
        assert(durations_le(s.drop_last(), m)) by {
            assert(forall|i: int|
                0 <= i < s.len() - 1 ==> s.drop_last()[i] == s[i]);
        }
        lemma_sum_le(s.drop_last(), m);
        assert(s.last().duration <= m);
        assert((s.len() - 1) * m + m == s.len() * m) by (nonlinear_arith);
    }
}

/// Consolidation never makes a sequence longer, leaves no two adjacent
/// pulses on one level, and keeps the first and last pulse's level.
pub(crate) proof fn lemma_consolidate_shape(s: Seq<LevelDuration>)
    ensures
        consolidate_spec(s).len() <= s.len(),
        alternating(consolidate_spec(s)),
        s.len() == 0 ==> consolidate_spec(s).len() == 0,
        s.len() > 0 ==> consolidate_spec(s).len() >= 1,
        s.len() > 0 ==> consolidate_spec(s).last().level == s.last().level,
        s.len() > 0 ==> consolidate_spec(s)[0].level == s[0].level,
    decreases s.len(),
{
    if s.len() > 0 {
        let t = s.drop_last();
        let c = consolidate_spec(t);
        lemma_consolidate_shape(t);
        let p = s.last();
        if t.len() == 0 {
            assert(consolidate_spec(s) =~= seq![p]);
        } else {
            if c.last().level == p.level {
                let merged = consolidate_spec(s);
                assert(merged.len() == c.len());
                assert(forall|i: int| 0 <= i < c.len() ==> (#[trigger] merged[i].level) == c[i].level);
                assert(t[0] == s[0]);
            } else {
                assert(t[0] == s[0]);
            }
        }
    }
}

/// Consolidation preserves the summed duration, as long as the whole sum
/// fits in a 32-bit duration.
pub(crate) proof fn lemma_consolidate_sum(s: Seq<LevelDuration>)
    requires
        sum_durations(s) <= 0xFFFF_FFFF,
    ensures
        sum_durations(consolidate_spec(s)) == sum_durations(s),
    decreases s.len(),
{
    if s.len() > 0 {
        let t = s.drop_last();
        let c = consolidate_spec(t);
        let p = s.last();
        lemma_sum_nonneg(t);
        assert(sum_durations(t) <= sum_durations(s));
        lemma_consolidate_sum(t);
        if c.len() > 0 && c.last().level == p.level {
            let a = c.last().duration;
            lemma_sum_nonneg(c.drop_last());
            assert(sum_durations(c) == sum_durations(c.drop_last()) + a);
            assert(a + p.duration <= sum_durations(s));
            let merged = LevelDuration {
                level: p.level,
                duration: (a + p.duration) as u32,
            };
            let u = c.update(c.len() - 1, merged);
            assert(u.drop_last() =~= c.drop_last());
            assert(u.last() == merged);
            assert(sum_durations(u) == sum_durations(c.drop_last()) + merged.duration);
        } else {
            let u = c.push(p);
            assert(u.drop_last() =~= c);
            assert(u.last() == p);
        }
    }
}

/// Where the first two pulses differ in level, consolidation keeps the
/// first pulse as it is.
pub(crate) proof fn lemma_consolidate_first(s: Seq<LevelDuration>)
    requires
        s.len() >= 2,
        s[0].level != s[1].level,
    ensures
        consolidate_spec(s).len() >= 2,
        consolidate_spec(s)[0] == s[0],
    decreases s.len(),
{
    let t = s.drop_last();
    let c = consolidate_spec(t);
    let p = s.last();
    if s.len() == 2 {
        assert(t =~= seq![s[0]]);
        let t0 = t.drop_last();
        assert(t0.len() == 0);
        assert(consolidate_spec(t0) =~= Seq::<LevelDuration>::empty());
        assert(c =~= seq![s[0]]);
        assert(consolidate_spec(s) =~= seq![s[0], s[1]]);
    } else {
        assert(t[0] == s[0] && t[1] == s[1]);
        lemma_consolidate_first(t);
        if c.last().level == p.level {
            let merged = consolidate_spec(s);
            assert(merged == c.update(c.len() - 1, LevelDuration {
                level: p.level,
                duration: (c.last().duration + p.duration) as u32,
            }));
            assert(merged[0] == c[0]);
        }
    }
}

/// Where the last two pulses differ in level, consolidation keeps the last
/// pulse as it is.
pub(crate) proof fn lemma_consolidate_last(s: Seq<LevelDuration>)
    requires
        s.len() >= 2,
        s[s.len() - 1].level != s[s.len() - 2].level,
    ensures
        consolidate_spec(s).last() == s.last(),
{
    let t = s.drop_last();
    let c = consolidate_spec(t);
    lemma_consolidate_shape(t);
    assert(t.last() == s[s.len() - 2]);
    assert(c.last().level != s.last().level);
    assert(consolidate_spec(s) == c.push(s.last()));
}

/// Bounded durations are kept under concatenation.
pub(crate) proof fn lemma_durations_le_add(a: Seq<LevelDuration>, b: Seq<LevelDuration>, m: u32)
    requires
        durations_le(a, m),
        durations_le(b, m),
    ensures
        durations_le(a + b, m),
{
    assert forall|i: int| 0 <= i < (a + b).len() implies (#[trigger] (a + b)[i].duration) <= m by {
        if i < a.len() {
            assert((a + b)[i] == a[i]);
        } else {
            assert((a + b)[i] == b[i - a.len()]);
        }
    }
}

/// Every hardware-sync pulse is at most one wakeup-low long.
pub(crate) proof fn lemma_hw_syncs_durations(n: int)
    ensures
        durations_le(hw_syncs(n), SOMFY_WAKEUP_LOW),
    decreases n,
{
    if n <= 0 {
    } else {
        lemma_hw_syncs_durations(n - 1);
        lemma_durations_le_add(hw_syncs(n - 1), hw_sync_pair(), SOMFY_WAKEUP_LOW);
    }
}

/// Every Manchester pulse is at most one wakeup-low long.
pub(crate) proof fn lemma_manchester_byte_durations(b: u8, k: int)
    ensures
        durations_le(manchester_byte_upto(b, k), SOMFY_WAKEUP_LOW),
    decreases k,
{
    if k <= 0 {
    } else {
        lemma_manchester_byte_durations(b, k - 1);
        lemma_durations_le_add(
            manchester_byte_upto(b, k - 1),
            manchester_bit(bit_of(b, (8 - k) as u8)),
            SOMFY_WAKEUP_LOW,
        );
    }
}

/// Every pulse of a Manchester-encoded frame is at most one wakeup-low long.
pub(crate) proof fn lemma_manchester_frame_durations(f: Seq<u8>, k: int)
    ensures
        durations_le(manchester_frame_upto(f, k), SOMFY_WAKEUP_LOW),
    decreases k,
{
    if k <= 0 {
    } else {
        lemma_manchester_frame_durations(f, k - 1);
        lemma_manchester_byte_durations(f[k - 1], 8);
        lemma_durations_le_add(
            manchester_frame_upto(f, k - 1),
            manchester_byte(f[k - 1]),
            SOMFY_WAKEUP_LOW,
        );
    }
}

/// No pulse of the raw train is longer than the wakeup low pulse.
pub(crate) proof fn lemma_raw_durations(f: Seq<u8>, r: int, repeats: int)
    ensures
        durations_le(raw_upto(f, r, repeats), SOMFY_WAKEUP_LOW),
    decreases r,
{
    if r <= 0 {
    } else {
        lemma_raw_durations(f, r - 1, repeats);
        let lead = if r - 1 == 0 {
            wakeup_pulses() + hw_syncs(2)
        } else {
            hw_syncs(7)
        };
        let tail = if r < repeats {
            seq![gap_pulse()]
        } else {
            Seq::<LevelDuration>::empty()
        };
        lemma_hw_syncs_durations(2);
        lemma_hw_syncs_durations(7);
        if r - 1 == 0 {
            lemma_durations_le_add(wakeup_pulses(), hw_syncs(2), SOMFY_WAKEUP_LOW);
        }
        lemma_manchester_frame_durations(f, f.len() as int);
        lemma_durations_le_add(lead, sw_sync_pulses(), SOMFY_WAKEUP_LOW);
        lemma_durations_le_add(lead + sw_sync_pulses(), manchester_frame(f), SOMFY_WAKEUP_LOW);
        lemma_durations_le_add(
            lead + sw_sync_pulses() + manchester_frame(f),
            tail,
            SOMFY_WAKEUP_LOW,
        );
        lemma_durations_le_add(
            raw_upto(f, r - 1, repeats),
            repeat_block(f, r - 1, repeats),
            SOMFY_WAKEUP_LOW,
        );
    }
}

/// A transmission of at least one repeat opens with the wakeup pulse pair.
pub(crate) proof fn lemma_raw_first_two(f: Seq<u8>, r: int, repeats: int)
    requires
        f.len() == 7,
        1 <= r <= repeats,
    ensures
        raw_upto(f, r, repeats).len() >= 2,
        raw_upto(f, r, repeats)[0] == (LevelDuration {
            level: true,
            duration: SOMFY_WAKEUP_HIGH,
        }),
        raw_upto(f, r, repeats)[1] == (LevelDuration {
            level: false,
            duration: SOMFY_WAKEUP_LOW,
        }),
    decreases r,
{
    lemma_raw_upto_len(f, r, repeats);
    if r == 1 {
        let block = repeat_block(f, 0, repeats);
        assert(raw_upto(f, 0, repeats) =~= Seq::<LevelDuration>::empty());
        assert(raw_upto(f, 1, repeats) =~= block);
        let lead = wakeup_pulses() + hw_syncs(2);
        assert(lead[0] == wakeup_pulses()[0]);
        assert(lead[1] == wakeup_pulses()[1]);
        assert(block[0] == lead[0]);
        assert(block[1] == lead[1]);
    } else {
        lemma_raw_first_two(f, r - 1, repeats);
        let prev = raw_upto(f, r - 1, repeats);
        let block = repeat_block(f, r - 1, repeats);
        assert((prev + block)[0] == prev[0]);
        assert((prev + block)[1] == prev[1]);
    }
}

/// The last two pulses of one Manchester-encoded byte: the two half-symbol
/// pulses of its least significant bit, on opposite levels.
pub(crate) proof fn lemma_manchester_byte_last_two(b: u8)
    ensures
        manchester_byte(b).len() == 16,
        manchester_byte(b)[15].duration == SOMFY_HALF_SYMBOL_US,
        manchester_byte(b)[14].duration == SOMFY_HALF_SYMBOL_US,
        manchester_byte(b)[15].level != manchester_byte(b)[14].level,
{
    lemma_manchester_byte_upto_len(b, 8);
    let head = manchester_byte_upto(b, 7);
    let tail = manchester_bit(bit_of(b, 0));
    lemma_manchester_byte_upto_len(b, 7);
    assert(manchester_byte(b) == head + tail);
    assert((head + tail)[14] == tail[0]);
    assert((head + tail)[15] == tail[1]);
}

/// The raw train ends with the two opposite-level half-symbol pulses of the
/// frame's last bit; no gap follows the final repeat.
pub(crate) proof fn lemma_raw_last_two(f: Seq<u8>, repeats: int)
    requires
        f.len() == 7,
        repeats >= 1,
    ensures
        raw_upto(f, repeats, repeats).len() >= 2,
        raw_upto(f, repeats, repeats).last().duration == SOMFY_HALF_SYMBOL_US,
        raw_upto(f, repeats, repeats)[raw_upto(f, repeats, repeats).len() - 2].duration
            == SOMFY_HALF_SYMBOL_US,
        raw_upto(f, repeats, repeats).last().level != raw_upto(f, repeats, repeats)[raw_upto(
            f,
            repeats,
            repeats,
        ).len() - 2].level,
{
    lemma_raw_upto_len(f, repeats, repeats);
    let raw = raw_upto(f, repeats, repeats);
    let prev = raw_upto(f, repeats - 1, repeats);
    let block = repeat_block(f, repeats - 1, repeats);
    assert(raw == prev + block);
    let lead = if repeats - 1 == 0 {
        wakeup_pulses() + hw_syncs(2)
    } else {
        hw_syncs(7)
    };
    let manch = manchester_frame(f);
    assert(block =~= lead + sw_sync_pulses() + manch);
    lemma_manchester_frame_upto_len(f, 7);
    let head6 = manchester_frame_upto(f, 6);
    lemma_manchester_frame_upto_len(f, 6);
    lemma_manchester_byte_last_two(f[6]);
    let byte6 = manchester_byte(f[6]);
    assert(manch == head6 + byte6);
    assert(manch.len() == 112);
    assert(manch[110] == byte6[14]);
    assert(manch[111] == byte6[15]);
    let n = raw.len();
    assert(raw[n - 1] == manch[111]);
    assert(raw[n - 2] == manch[110]);
}

} // verus!
