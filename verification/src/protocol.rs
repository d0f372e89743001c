//! Somfy RTS protocol codec: frame construction, checksum, obfuscation, and
//! assembly of the timed pulse train for a whole transmission.

use vstd::prelude::*;

use crate::buffer::PulseVec;
use crate::buffer::pulse_vec_new;
use crate::buffer::pulse_seq;
use crate::encode::consolidate;
use crate::encode::encode_repeat;
use crate::pulses::alternating;
use crate::pulses::consolidate_spec;
use crate::pulses::lemma_consolidate_first;
use crate::pulses::lemma_consolidate_last;
use crate::pulses::lemma_consolidate_shape;
use crate::pulses::lemma_consolidate_sum;
use crate::pulses::lemma_raw_durations;
use crate::pulses::lemma_raw_first_two;
use crate::pulses::lemma_raw_last_two;
use crate::pulses::lemma_raw_upto_len;
use crate::pulses::lemma_sum_le;
use crate::pulses::raw_upto;
use crate::pulses::spec_raw_len;
use crate::pulses::spec_raw_transmission;
use crate::pulses::sum_durations;

verus! {

/// Capacity of the pulse buffer: the most pulses one transmission may hold.
pub const MAX_TIMINGS: usize = 600;

/// Half of one Manchester symbol, in microseconds.
pub const SOMFY_HALF_SYMBOL_US: u32 = 604;
/// Wakeup pulse, high part (microseconds).
pub const SOMFY_WAKEUP_HIGH: u32 = 9415;
/// Wakeup pulse, low part (microseconds).
pub const SOMFY_WAKEUP_LOW: u32 = 89565;
/// Hardware-sync pulse, high part (microseconds).
pub const SOMFY_HW_SYNC_HIGH: u32 = 2416;
/// Hardware-sync pulse, low part (microseconds).
pub const SOMFY_HW_SYNC_LOW: u32 = 2416;
/// Software-sync pulse, high part (microseconds).
pub const SOMFY_SW_SYNC_HIGH: u32 = 4550;
/// Software-sync pulse, low part (microseconds).
pub const SOMFY_SW_SYNC_LOW: u32 = 604;
/// Gap between two repeats of the frame (microseconds).
pub const SOMFY_INTER_FRAME_GAP: u32 = 30415;

/// A level (high/low) and duration pair for sub-GHz transmission.
#[derive(Clone, Copy, Debug, PartialEq, Eq, Structural)]
pub struct LevelDuration {
    pub level: bool,
    pub duration: u32,
}

/// The four Somfy RTS commands; each is bound to a fixed 4-bit code that
/// fills the upper nibble of frame byte 1.
#[derive(Clone, Copy, Debug, PartialEq, Eq, Structural)]
pub enum SomfyCommand {
    Stop,
    Up,
    Down,
    Prog,
}

impl SomfyCommand {
    /// The 4-bit code of this command.
    pub open spec fn code_spec(self) -> u8 {
        match self {
            SomfyCommand::Stop => 0x1,
            SomfyCommand::Up => 0x2,
            SomfyCommand::Down => 0x4,
            SomfyCommand::Prog => 0x8,
        }
    }

    /// The 4-bit code of this command, as transmitted in frame byte 1.
    pub fn code(self) -> (c: u8)
        ensures
            c == self.code_spec(),
    {
        match self {
            SomfyCommand::Stop => 0x1,
            SomfyCommand::Up => 0x2,
            SomfyCommand::Down => 0x4,
            SomfyCommand::Prog => 0x8,
        }
    }
}

/// Errors of the transmission builder.
#[derive(Clone, Copy, Debug, PartialEq, Eq, Structural)]
pub enum SomfyError {
    /// A transmission of zero repeats was requested.
    InvalidRepeatCount,
    /// The requested repeat count needs more pulses than the buffer holds.
    CapacityExceeded,
}

/// XOR of the two nibbles of one byte.
pub open spec fn nibble_xor(b: u8) -> u8 {
    (b >> 4) ^ (b & 0x0F)
}

/// XOR of the nibbles of the first `n` bytes of `s`.
pub open spec fn nibble_fold_upto(s: Seq<u8>, n: int) -> u8
    decreases n,
{
    if n <= 0 {
        0
    } else {
        nibble_fold_upto(s, n - 1) ^ nibble_xor(s[n - 1])
    }
}

/// XOR of the nibbles of all bytes of `s`.
pub open spec fn nibble_fold(s: Seq<u8>) -> u8 {
    nibble_fold_upto(s, s.len() as int)
}

/// The frame bytes before the checksum is folded into byte 1: key byte,
/// command nibble over an empty checksum nibble, big-endian rolling code,
/// big-endian 24-bit address.
pub open spec fn frame_bytes_pre(command: SomfyCommand, rolling_code: u16, address: u32) -> Seq<
    u8,
> {
    seq![
        0xA0u8,
        (command.code_spec() & 0x0F) << 4,
        (rolling_code >> 8) as u8,
        rolling_code as u8,
        (address >> 16) as u8,
        (address >> 8) as u8,
        address as u8,
    ]
}

/// The finished 7-byte frame: the checksum nibble is the XOR of all nibbles
/// of the frame with the checksum slot empty, OR-ed into byte 1.
pub open spec fn spec_frame(command: SomfyCommand, rolling_code: u16, address: u32) -> Seq<u8> {
    let pre = frame_bytes_pre(command, rolling_code, address);
    pre.update(1, pre[1] | (nibble_fold(pre) & 0x0F))
}

/// With `b1` a byte of empty low nibble built from a 4-bit command code `c`,
/// the checksum nibble folded into `b1` makes the XOR of all nibbles zero and
/// keeps the command code in the upper nibble.
proof fn lemma_checksum_closes_fold(c: u8, b2: u8, b3: u8, b4: u8, b5: u8, b6: u8)
    by (bit_vector)
    requires
        c == 1 || c == 2 || c == 4 || c == 8,
    ensures
        ({
            let b0: u8 = 0xA0;
            let b1: u8 = (c & 0x0F) << 4;
            let x: u8 = 0 ^ nibble_xor(b0) ^ nibble_xor(b1) ^ nibble_xor(b2) ^ nibble_xor(b3)
                ^ nibble_xor(b4) ^ nibble_xor(b5) ^ nibble_xor(b6);
            let nb1: u8 = b1 | (x & 0x0F);
            (0 ^ nibble_xor(b0) ^ nibble_xor(nb1) ^ nibble_xor(b2) ^ nibble_xor(b3) ^ nibble_xor(
                b4,
            ) ^ nibble_xor(b5) ^ nibble_xor(b6) == 0) && (nb1 >> 4 == c)
        }),
{
}

/// Build a 7-byte Somfy RTS frame with the given command, rolling code, and
/// address.
///
/// The frame layout is:
///   byte 0     = 0xA0 (key byte)
///   byte 1     = (command code << 4) | checksum nibble
///   bytes 2..3 = rolling code (big-endian)
///   bytes 4..6 = address (big-endian; the top 8 bits of `address` are
///                discarded, matching the 24-bit field)
///
/// The checksum is the XOR of all nibbles across all 7 bytes, so the nibbles
/// of the finished frame XOR to zero.
pub fn build_frame(command: SomfyCommand, rolling_code: u16, address: u32) -> (frame: [u8; 7])
    ensures
        frame@ == spec_frame(command, rolling_code, address),
        frame@[1] >> 4 == command.code_spec(),
        nibble_fold(frame@) == 0,
{
    let mut frame = [0u8; 7];

    frame[0] = 0xA0;
    frame[1] = (command.code() & 0x0F) << 4;
    frame[2] = (rolling_code >> 8) as u8;
    frame[3] = rolling_code as u8;
    frame[4] = (address >> 16) as u8;
    frame[5] = (address >> 8) as u8;
    frame[6] = address as u8;

    proof {
        assert(frame@ =~= frame_bytes_pre(command, rolling_code, address));
    }

    // Checksum: XOR of all nibbles
    let mut checksum: u8 = 0;
    let mut i: usize = 0;
    while i < 7
        invariant
            i <= 7,
            frame@ == frame_bytes_pre(command, rolling_code, address),
            checksum == nibble_fold_upto(frame@, i as int),
        decreases 7 - i,
    {
        checksum = checksum ^ ((frame[i] >> 4) ^ (frame[i] & 0x0F));
        i += 1;
    }
    frame[1] = frame[1] | (checksum & 0x0F);

    proof {
        let pre = frame_bytes_pre(command, rolling_code, address);
        let c = command.code_spec();
        assert(nibble_fold(pre) == 0 ^ nibble_xor(pre[0]) ^ nibble_xor(pre[1]) ^ nibble_xor(
            pre[2],
        ) ^ nibble_xor(pre[3]) ^ nibble_xor(pre[4]) ^ nibble_xor(pre[5]) ^ nibble_xor(pre[6]))
            by {
            reveal_with_fuel(nibble_fold_upto, 8);
        }
        lemma_checksum_closes_fold(c, pre[2], pre[3], pre[4], pre[5], pre[6]);
        assert(frame@ =~= spec_frame(command, rolling_code, address));
        assert(nibble_fold(frame@) == 0 ^ nibble_xor(frame@[0]) ^ nibble_xor(frame@[1])
            ^ nibble_xor(frame@[2]) ^ nibble_xor(frame@[3]) ^ nibble_xor(frame@[4]) ^ nibble_xor(
            frame@[5],
        ) ^ nibble_xor(frame@[6])) by {
            reveal_with_fuel(nibble_fold_upto, 8);
        }
    }
    frame
}

/// Byte `i` of the obfuscated form of `s`: byte 0 is unchanged, and each
/// later byte is XOR-ed with the already-obfuscated byte before it.
pub open spec fn obf_byte(s: Seq<u8>, i: int) -> u8
    decreases i,
{
    if i <= 0 {
        s[0]
    } else {
        s[i] ^ obf_byte(s, i - 1)
    }
}

/// The obfuscated form of a whole frame.
pub open spec fn spec_obfuscate(s: Seq<u8>) -> Seq<u8> {
    Seq::new(s.len(), |i: int| obf_byte(s, i))
}

/// Obfuscate a frame in place by XOR-ing each byte with the previous,
/// already-obfuscated byte, left to right from index 1.
///
/// This is the Somfy RTS "encryption"; it must be applied exactly once,
/// after `build_frame` and before the frame is timing-encoded.
pub fn obfuscate(frame: &mut [u8; 7])
    ensures
        final(frame)@ == spec_obfuscate(old(frame)@),
        final(frame)@[0] == old(frame)@[0],
        forall|i: int| 1 <= i < 7 ==> final(frame)@[i] == old(frame)@[i] ^ final(frame)@[i - 1],
{
    let mut i: usize = 1;
    while i < 7
        invariant
            1 <= i <= 7,
            forall|j: int| 0 <= j < i ==> frame@[j] == obf_byte(old(frame)@, j),
            forall|j: int| i <= j < 7 ==> frame@[j] == old(frame)@[j],
        decreases 7 - i,
    {
        frame[i] = frame[i] ^ frame[i - 1];
        i += 1;
    }
    proof {
        assert(frame@ =~= spec_obfuscate(old(frame)@));
    }
}

/// The rolling code that follows `rc` after a successful transmission:
/// one more, except that zero is reserved and is skipped by wrapping to 1.
pub open spec fn spec_next_rolling_code(rc: u16) -> u16 {
    if rc == 0xFFFF {
        1
    } else {
        (rc + 1) as u16
    }
}

/// Advance a rolling code after a successful transmission. The value 0 is
/// reserved and never returned: incrementing 0xFFFF wraps to 1.
pub fn next_rolling_code(rolling_code: u16) -> (next: u16)
    ensures
        next == spec_next_rolling_code(rolling_code),
        next != 0,
{
    if rolling_code == 0xFFFF {
        1
    } else {
        rolling_code + 1
    }
}

/// Build a complete Somfy RTS transmission as a consolidated sequence of
/// level/duration pulses.
///
/// The frame is built and obfuscated once; every repeat re-encodes it with
/// its own sync preamble, with one gap pulse between repeats. The raw train
/// is then consolidated, so no two adjacent pulses share a level and the
/// summed duration is unchanged.
///
/// Fails with `InvalidRepeatCount` if `repeats` is zero and with
/// `CapacityExceeded` if the raw train would not fit the pulse buffer (at
/// most 4 repeats fit in `MAX_TIMINGS` pulses); it succeeds on every other
/// input.
pub fn build_transmission(
    command: SomfyCommand,
    rolling_code: u16,
    address: u32,
    repeats: u8,
) -> (result: Result<PulseVec, SomfyError>)
    ensures
        (result matches Err(SomfyError::InvalidRepeatCount)) <==> repeats == 0,
        (result matches Err(SomfyError::CapacityExceeded)) <==> (repeats >= 1 && spec_raw_len(
            repeats as int,
        ) > MAX_TIMINGS),
        (result is Ok) <==> (repeats >= 1 && spec_raw_len(repeats as int) <= MAX_TIMINGS),
        result matches Ok(v) ==> ({
            let obf = spec_obfuscate(spec_frame(command, rolling_code, address));
            let raw = spec_raw_transmission(obf, repeats as int);
            &&& pulse_seq(v) == consolidate_spec(raw)
            &&& pulse_seq(v).len() >= 1
            &&& pulse_seq(v).len() <= raw.len()
            &&& pulse_seq(v)[0] == (LevelDuration { level: true, duration: SOMFY_WAKEUP_HIGH })
            &&& alternating(pulse_seq(v))
            &&& sum_durations(pulse_seq(v)) == sum_durations(raw)
            &&& pulse_seq(v).last().duration == SOMFY_HALF_SYMBOL_US
        }),
{
    if repeats == 0 {
        return Err(SomfyError::InvalidRepeatCount);
    }
    let needed: usize = 129 * (repeats as usize) - 9;
    if needed > MAX_TIMINGS {
        return Err(SomfyError::CapacityExceeded);
    }

    let mut frame = build_frame(command, rolling_code, address);
    obfuscate(&mut frame);

    let mut raw = pulse_vec_new();
    let mut r: u8 = 0;
    proof {
        assert(pulse_seq(raw) =~= raw_upto(frame@, 0, repeats as int));
    }
    while r < repeats
        invariant
            r <= repeats,
            1 <= repeats,
            spec_raw_len(repeats as int) <= MAX_TIMINGS,
            frame@ == spec_obfuscate(spec_frame(command, rolling_code, address)),
            pulse_seq(raw) == raw_upto(frame@, r as int, repeats as int),
        decreases repeats - r,
    {
        encode_repeat(&mut raw, &frame, r, repeats);
        r += 1;
    }

    proof {
        lemma_raw_upto_len(frame@, repeats as int, repeats as int);
        lemma_raw_durations(frame@, repeats as int, repeats as int);
        lemma_sum_le(pulse_seq(raw), SOMFY_WAKEUP_LOW);
    }
    let out = consolidate(&raw);
    proof {
        let obf = spec_obfuscate(spec_frame(command, rolling_code, address));
        let rawseq = spec_raw_transmission(obf, repeats as int);
        lemma_consolidate_shape(rawseq);
        lemma_consolidate_sum(rawseq);
        lemma_raw_first_two(obf, repeats as int, repeats as int);
        lemma_consolidate_first(rawseq);
        lemma_raw_last_two(obf, repeats as int);
        lemma_consolidate_last(rawseq);
    }
    Ok(out)
}

} // verus!
