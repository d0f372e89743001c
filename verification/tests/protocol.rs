use somfy_rts::protocol::build_frame;
use somfy_rts::protocol::build_transmission;
use somfy_rts::protocol::next_rolling_code;
use somfy_rts::protocol::obfuscate;
use somfy_rts::protocol::SomfyCommand;
use somfy_rts::protocol::SomfyError;
use somfy_rts::protocol::SOMFY_INTER_FRAME_GAP;
use somfy_rts::protocol::SOMFY_WAKEUP_HIGH;

#[test]
fn test_build_frame_checksum() {
    // Verify frame structure and that checksum nibble is correctly computed
    let frame = build_frame(SomfyCommand::Up, 0x0042, 0xCAFE00);
    assert_eq!(frame[0], 0xA0, "key byte should be 0xA0");
    assert_eq!(frame[1] >> 4, 0x2, "command nibble");
    assert_eq!(frame[2], 0x00, "rolling code high byte");
    assert_eq!(frame[3], 0x42, "rolling code low byte");
    assert_eq!(frame[4], 0xCA, "address byte 2");
    assert_eq!(frame[5], 0xFE, "address byte 1");
    assert_eq!(frame[6], 0x00, "address byte 0");

    // Verify checksum: XOR of all nibbles should be 0 (it's self-consistent)
    let mut check: u8 = 0;
    for byte in &frame {
        check ^= (byte >> 4) ^ (byte & 0x0F);
    }
    assert_eq!(check, 0, "checksum should make all nibbles XOR to 0");
}

#[test]
fn test_obfuscate() {
    let mut frame = build_frame(SomfyCommand::Stop, 0x0001, 0x123456);
    let original = frame;
    obfuscate(&mut frame);

    // Byte 0 should be unchanged
    assert_eq!(frame[0], original[0]);
    // Each subsequent byte should be XOR'd with the previous (obfuscated) byte
    for i in 1..7 {
        assert_eq!(frame[i], original[i] ^ frame[i - 1]);
    }
}

#[test]
fn test_build_transmission_not_empty() {
    let timings = build_transmission(SomfyCommand::Up, 1, 0xABCDEF, 3).unwrap();
    assert!(!timings.is_empty(), "transmission should produce timings");
}

#[test]
fn test_build_transmission_starts_with_wakeup() {
    let timings = build_transmission(SomfyCommand::Down, 42, 0x112233, 1).unwrap();
    // First entry should be the wakeup high pulse
    assert_eq!(timings[0].level, true);
    assert_eq!(timings[0].duration, SOMFY_WAKEUP_HIGH);
}

#[test]
fn test_consolidation_merges_adjacent_levels() {
    let timings = build_transmission(SomfyCommand::Up, 1, 0x000001, 1).unwrap();
    // After consolidation, no two adjacent entries should have the same level
    for window in timings.windows(2) {
        assert_ne!(
            window[0].level, window[1].level,
            "adjacent entries must alternate levels after consolidation"
        );
    }
}

#[test]
fn test_single_frame_no_trailing_gap() {
    let timings = build_transmission(SomfyCommand::Prog, 99, 0xFEDCBA, 1).unwrap();
    // Last entry should NOT be the inter-frame gap (only added between frames)
    let last = timings.last().unwrap();
    // With a single repeat, the last timing comes from manchester data, not a gap
    assert!(last.duration != SOMFY_INTER_FRAME_GAP || last.level == true);
}

#[test]
fn test_all_commands() {
    // Just make sure all command variants produce valid frames — no panics
    for (cmd, code) in [
        (SomfyCommand::Stop, 0x1),
        (SomfyCommand::Up, 0x2),
        (SomfyCommand::Down, 0x4),
        (SomfyCommand::Prog, 0x8),
    ] {
        let frame = build_frame(cmd, 0, 0);
        assert_eq!(frame[1] >> 4, code);
    }
}

#[test]
fn test_build_frame_known_bytes() {
    let frame = build_frame(SomfyCommand::Up, 0x0042, 0xCAFE00);
    assert_eq!(frame, [0xA0, 0x29, 0x00, 0x42, 0xCA, 0xFE, 0x00]);
}

#[test]
fn test_obfuscate_known_bytes() {
    let mut frame = [0xA0, 0x29, 0x00, 0x42, 0xCA, 0xFE, 0x00];
    obfuscate(&mut frame);
    assert_eq!(frame, [0xA0, 0x89, 0x89, 0xCB, 0x01, 0xFF, 0xFF]);
}

#[test]
fn test_rolling_code_skips_zero() {
    // Incrementing past the largest value wraps to 1, never 0
    assert_eq!(next_rolling_code(0xFFFF), 1);
    assert_eq!(next_rolling_code(0x0042), 0x0043);
    assert_eq!(next_rolling_code(1), 2);
}

#[test]
fn test_transmission_framing_prefix() {
    let timings = build_transmission(SomfyCommand::Down, 42, 0x112233, 1).unwrap();
    // Wakeup pulse, two hardware-sync pairs, software-sync high
    let expected = [
        (true, 9415),
        (false, 89565),
        (true, 2416),
        (false, 2416),
        (true, 2416),
        (false, 2416),
        (true, 4550),
    ];
    for (i, (level, duration)) in expected.into_iter().enumerate() {
        assert_eq!(timings[i].level, level);
        assert_eq!(timings[i].duration, duration);
    }
    // The software-sync low half (604) merges with the low half-symbol of the
    // first payload bit: the key byte 0xA0 opens with a set bit, whose
    // Manchester form starts low. So the eighth pulse carries both halves.
    assert_eq!(timings[7].level, false);
    assert_eq!(timings[7].duration, 1208);
}

#[test]
fn test_zero_repeats_rejected() {
    let result = build_transmission(SomfyCommand::Up, 1, 0x000001, 0);
    assert_eq!(result.unwrap_err(), SomfyError::InvalidRepeatCount);
}

#[test]
fn test_too_many_repeats_rejected() {
    // Four repeats are the most that fit the pulse buffer
    assert!(build_transmission(SomfyCommand::Up, 1, 0x000001, 4).is_ok());
    let result = build_transmission(SomfyCommand::Up, 1, 0x000001, 5);
    assert_eq!(result.unwrap_err(), SomfyError::CapacityExceeded);
    let result = build_transmission(SomfyCommand::Up, 1, 0x000001, 255);
    assert_eq!(result.unwrap_err(), SomfyError::CapacityExceeded);
}

#[test]
fn test_consolidation_preserves_total_duration() {
    // One repeat sums to: wakeup 9415 + 89565, two sync pairs of 2 * 2416,
    // software sync 4550 + 604, and 56 Manchester bits of 2 * 604 each —
    // regardless of how pulses were merged.
    let expected: u64 = 9415 + 89565 + 4 * 2416 + 4550 + 604 + 56 * 2 * 604;
    for cmd in [
        SomfyCommand::Stop,
        SomfyCommand::Up,
        SomfyCommand::Down,
        SomfyCommand::Prog,
    ] {
        let timings = build_transmission(cmd, 0x1234, 0xABCDEF, 1).unwrap();
        let total: u64 = timings.iter().map(|t| t.duration as u64).sum();
        assert_eq!(total, expected);
    }
}

#[test]
fn test_repeats_add_gaps_and_syncs() {
    // Each repeat after the first adds 7 sync pairs, the software sync, the
    // 56-bit payload, and one inter-frame gap to the total duration.
    let one = build_transmission(SomfyCommand::Up, 7, 0x100001, 1).unwrap();
    let two = build_transmission(SomfyCommand::Up, 7, 0x100001, 2).unwrap();
    let sum_one: u64 = one.iter().map(|t| t.duration as u64).sum();
    let sum_two: u64 = two.iter().map(|t| t.duration as u64).sum();
    let per_repeat: u64 = 14 * 2416 + 4550 + 604 + 56 * 2 * 604;
    assert_eq!(sum_two, sum_one + 30415 + per_repeat);
}
