//! Executable timing encoder and consolidator.
//!
//! These functions fill the bounded pulse buffer with the raw pulse train of
//! `crate::pulses` and merge adjacent equal-level pulses, each proved against
//! that model.

use vstd::prelude::*;

use crate::buffer::PulseVec;
use crate::buffer::pulse_vec_get;
use crate::buffer::pulse_vec_len;
use crate::buffer::pulse_vec_new;
use crate::buffer::pulse_vec_push;
use crate::buffer::pulse_seq;
use crate::protocol::LevelDuration;
use crate::protocol::MAX_TIMINGS;
use crate::protocol::SOMFY_HALF_SYMBOL_US;
use crate::protocol::SOMFY_HW_SYNC_HIGH;
use crate::protocol::SOMFY_HW_SYNC_LOW;
use crate::protocol::SOMFY_INTER_FRAME_GAP;
use crate::protocol::SOMFY_SW_SYNC_HIGH;
use crate::protocol::SOMFY_SW_SYNC_LOW;
use crate::protocol::SOMFY_WAKEUP_HIGH;
use crate::protocol::SOMFY_WAKEUP_LOW;
use crate::pulses::bit_of;
use crate::pulses::consolidate_spec;
use crate::pulses::hw_syncs;
use crate::pulses::lemma_consolidate_sum;
use crate::pulses::lemma_hw_syncs_len;
use crate::pulses::lemma_manchester_byte_upto_len;
use crate::pulses::lemma_manchester_frame_upto_len;
use crate::pulses::lemma_raw_upto_len;
use crate::pulses::lemma_repeat_block_len;
use crate::pulses::lemma_sum_nonneg;
use crate::pulses::lemma_sum_take_le;
use crate::pulses::lemma_sum_take_step;
use crate::pulses::manchester_byte;
use crate::pulses::manchester_byte_upto;
use crate::pulses::manchester_frame;
use crate::pulses::manchester_frame_upto;
use crate::pulses::merge_step;
use crate::pulses::raw_upto;
use crate::pulses::repeat_block;
use crate::pulses::spec_raw_len;
use crate::pulses::sum_durations;
use crate::pulses::sw_sync_pulses;
use crate::pulses::wakeup_pulses;

verus! {

/// Append `n` hardware-sync pulse pairs to the buffer.
pub(crate) fn push_hw_syncs(raw: &mut PulseVec, n: usize)
    requires
        pulse_seq(*old(raw)).len() + 2 * n <= MAX_TIMINGS,
    ensures
        pulse_seq(*final(raw)) == pulse_seq(*old(raw)) + hw_syncs(n as int),
{
    let ghost base = pulse_seq(*old(raw));
    let mut i: usize = 0;
    proof {
        assert(base + hw_syncs(0) =~= base);
    }
    while i < n
        invariant
            i <= n,
            base.len() + 2 * n <= MAX_TIMINGS,
            pulse_seq(*raw) == base + hw_syncs(i as int),
        decreases n - i,
    {
        proof {
            lemma_hw_syncs_len(i as int);
        }
        pulse_vec_push(
            raw,
            LevelDuration { level: true, duration: SOMFY_HW_SYNC_HIGH },
        );
        pulse_vec_push(
            raw,
            LevelDuration { level: false, duration: SOMFY_HW_SYNC_LOW },
        );
        proof {
            assert(pulse_seq(*raw) =~= base + hw_syncs(i as int + 1));
        }
        i += 1;
    }
}

/// Append the 16 pulses of one Manchester-encoded byte, most significant
/// bit first.
pub(crate) fn push_manchester_byte(raw: &mut PulseVec, b: u8)
    requires
        pulse_seq(*old(raw)).len() + 16 <= MAX_TIMINGS,
    ensures
        pulse_seq(*final(raw)) == pulse_seq(*old(raw)) + manchester_byte(b),
{
    let ghost base = pulse_seq(*old(raw));
    let mut k: usize = 0;
    proof {
        assert(base + manchester_byte_upto(b, 0) =~= base);
    }
    while k < 8
        invariant
            k <= 8,
            base.len() + 16 <= MAX_TIMINGS,
            pulse_seq(*raw) == base + manchester_byte_upto(b, k as int),
        decreases 8 - k,
    {
        proof {
            lemma_manchester_byte_upto_len(b, k as int);
        }
        let pos: u8 = (7 - k) as u8;
        let bit: u8 = (b >> pos) & 1;
        if bit == 1 {
            pulse_vec_push(
                raw,
                LevelDuration { level: false, duration: SOMFY_HALF_SYMBOL_US },
            );
            pulse_vec_push(
                raw,
                LevelDuration { level: true, duration: SOMFY_HALF_SYMBOL_US },
            );
        } else {
            pulse_vec_push(
                raw,
                LevelDuration { level: true, duration: SOMFY_HALF_SYMBOL_US },
            );
            pulse_vec_push(
                raw,
                LevelDuration { level: false, duration: SOMFY_HALF_SYMBOL_US },
            );
        }
        proof {
            assert(bit_of(b, (8 - (k as int + 1)) as u8) == (bit == 1));
            assert(pulse_seq(*raw) =~= base + manchester_byte_upto(b, k as int + 1));
        }
        k += 1;
    }
}

/// Append the 112 pulses of the Manchester-encoded 7-byte frame.
pub(crate) fn push_manchester_frame(raw: &mut PulseVec, frame: &[u8; 7])
    requires
        pulse_seq(*old(raw)).len() + 112 <= MAX_TIMINGS,
    ensures
        pulse_seq(*final(raw)) == pulse_seq(*old(raw)) + manchester_frame(frame@),
{
    let ghost base = pulse_seq(*old(raw));
    let mut i: usize = 0;
    proof {
        assert(base + manchester_frame_upto(frame@, 0) =~= base);
    }
    while i < 7
        invariant
            i <= 7,
            base.len() + 112 <= MAX_TIMINGS,
            pulse_seq(*raw) == base + manchester_frame_upto(frame@, i as int),
        decreases 7 - i,
    {
        proof {
            lemma_manchester_frame_upto_len(frame@, i as int);
        }
        push_manchester_byte(raw, frame[i]);
        proof {
            assert(pulse_seq(*raw) =~= base + manchester_frame_upto(frame@, i as int + 1));
        }
        i += 1;
    }
    proof {
        assert(manchester_frame_upto(frame@, 7) == manchester_frame(frame@));
    }
}

/// Append one whole repeat of the frame: its sync preamble, the software
/// sync, the Manchester-encoded payload, and the gap before the next repeat
/// where one follows.
pub(crate) fn encode_repeat(raw: &mut PulseVec, frame: &[u8; 7], r: u8, repeats: u8)
    requires
        r < repeats,
        pulse_seq(*old(raw)) == raw_upto(frame@, r as int, repeats as int),
        spec_raw_len(repeats as int) <= MAX_TIMINGS,
    ensures
        pulse_seq(*final(raw)) == raw_upto(frame@, r as int + 1, repeats as int),
{
    let ghost base = pulse_seq(*old(raw));
    proof {
        lemma_raw_upto_len(frame@, r as int, repeats as int);
        lemma_raw_upto_len(frame@, r as int + 1, repeats as int);
        lemma_repeat_block_len(frame@, r as int, repeats as int);
        assert(base.len() + repeat_block(frame@, r as int, repeats as int).len()
            <= MAX_TIMINGS);
    }
    if r == 0 {
        pulse_vec_push(
            raw,
            LevelDuration { level: true, duration: SOMFY_WAKEUP_HIGH },
        );
        pulse_vec_push(
            raw,
            LevelDuration { level: false, duration: SOMFY_WAKEUP_LOW },
        );
        proof {
            assert(pulse_seq(*raw) =~= base + wakeup_pulses());
        }
        push_hw_syncs(raw, 2);
        proof {
            lemma_hw_syncs_len(2);
            assert(pulse_seq(*raw) =~= base + (wakeup_pulses() + hw_syncs(2)));
        }
    } else {
        push_hw_syncs(raw, 7);
        proof {
            lemma_hw_syncs_len(7);
        }
    }
    let ghost lead = if r == 0 {
        wakeup_pulses() + hw_syncs(2)
    } else {
        hw_syncs(7)
    };
    proof {
        assert(pulse_seq(*raw) == base + lead);
    }
    pulse_vec_push(
        raw,
        LevelDuration { level: true, duration: SOMFY_SW_SYNC_HIGH },
    );
    pulse_vec_push(
        raw,
        LevelDuration { level: false, duration: SOMFY_SW_SYNC_LOW },
    );
    proof {
        assert(pulse_seq(*raw) =~= base + (lead + sw_sync_pulses()));
        lemma_manchester_frame_upto_len(frame@, 7);
    }
    push_manchester_frame(raw, frame);
    proof {
        assert(pulse_seq(*raw) =~= base + (lead + sw_sync_pulses() + manchester_frame(frame@)));
    }
    if (r as usize) + 1 < (repeats as usize) {
        pulse_vec_push(raw, LevelDuration { level: false, duration: SOMFY_INTER_FRAME_GAP });
    }
    proof {
        assert(pulse_seq(*raw) =~= base + repeat_block(frame@, r as int, repeats as int));
        assert(pulse_seq(*raw) =~= raw_upto(frame@, r as int + 1, repeats as int));
    }
}

/// Consolidate a raw pulse train: one forward pass that merges each run of
/// equal-level pulses into a single pulse carrying the summed duration.
pub(crate) fn consolidate(raw: &PulseVec) -> (out: PulseVec)
    requires
        pulse_seq(*raw).len() <= MAX_TIMINGS,
        sum_durations(pulse_seq(*raw)) <= 0xFFFF_FFFF,
    ensures
        pulse_seq(out) == consolidate_spec(pulse_seq(*raw)),
{
    let ghost s = pulse_seq(*raw);
    let n = pulse_vec_len(raw);
    let mut out = pulse_vec_new();
    if n == 0 {
        return out;
    }
    let mut pending = pulse_vec_get(raw, 0);
    proof {
        assert(s.take(1).drop_last() =~= Seq::<LevelDuration>::empty());
        assert(s.take(1).last() == s[0]);
        assert(consolidate_spec(Seq::<LevelDuration>::empty()) == Seq::<LevelDuration>::empty());
        assert(consolidate_spec(s.take(1)) == merge_step(Seq::<LevelDuration>::empty(), s[0]));
        assert(consolidate_spec(s.take(1)) =~= pulse_seq(out).push(pending));
    }
    let mut i: usize = 1;
    while i < n
        invariant
            1 <= i <= n,
            n == s.len(),
            s == pulse_seq(*raw),
            s.len() <= MAX_TIMINGS,
            sum_durations(s) <= 0xFFFF_FFFF,
            consolidate_spec(s.take(i as int)) == pulse_seq(out).push(pending),
            pulse_seq(out).len() + 1 <= i,
        decreases n - i,
    {
        let p = pulse_vec_get(raw, i);
        let ghost pend0 = pending;
        let ghost acc = pulse_seq(out).push(pend0);
        proof {
            assert(s.take(i as int + 1).drop_last() =~= s.take(i as int));
            assert(s.take(i as int + 1).last() == s[i as int]);
            assert(consolidate_spec(s.take(i as int + 1)) == merge_step(acc, p));
            assert(acc.last() == pend0);
        }
        if p.level == pending.level {
            proof {
                lemma_sum_take_le(s, i as int);
                lemma_consolidate_sum(s.take(i as int));
                assert(acc.drop_last() =~= pulse_seq(out));
                lemma_sum_nonneg(pulse_seq(out));
                assert(pend0.duration <= sum_durations(s.take(i as int)));
                lemma_sum_take_step(s, i as int);
                lemma_sum_take_le(s, i as int + 1);
                assert(pend0.duration + p.duration <= 0xFFFF_FFFF);
            }
            pending = LevelDuration {
                level: pending.level,
                duration: pending.duration + p.duration,
            };
            proof {
                assert(merge_step(acc, p) =~= pulse_seq(out).push(pending));
            }
        } else {
            pulse_vec_push(&mut out, pending);
            pending = p;
            proof {
                assert(merge_step(acc, p) =~= pulse_seq(out).push(pending));
            }
        }
        i += 1;
    }
    proof {
        assert(s.take(n as int) =~= s);
    }
    pulse_vec_push(&mut out, pending);
    out
}

} // verus!
