//! Tests of the soft-SPI bit codec and the session pin sequences.

use flashprog::bits_to_byte;
use flashprog::byte_to_bits;
use flashprog::release_actions;
use flashprog::startup_actions;
use flashprog::PinAction;
use flashprog::PinMap;

#[test]
fn wire_bits_msb_first() {
    let bits = byte_to_bits(0xA5);
    assert_eq!(bits, vec![true, false, true, false, false, true, false, true]);
    assert_eq!(bits_to_byte(&bits), 0xA5);
    assert_eq!(byte_to_bits(0x80), vec![true, false, false, false, false, false, false, false]);
    assert_eq!(byte_to_bits(0x01), vec![false, false, false, false, false, false, false, true]);
}

#[test]
fn bit_codec_round_trips_every_byte() {
    for b in 0..=255u8 {
        assert_eq!(bits_to_byte(&byte_to_bits(b)), b);
    }
}

#[test]
fn startup_sequence_arbitrates_the_bus() {
    let m = PinMap::default_wiring();
    let up = startup_actions(&m);
    assert_eq!(up.len(), 9);
    // All six lines are claimed idle first...
    assert_eq!(up[0], PinAction::MakeOutput { line: 6, high: true });
    assert_eq!(up[1], PinAction::MakeInput { line: 13 });
    assert_eq!(up[2], PinAction::MakeOutput { line: 5, high: true });
    assert_eq!(up[3], PinAction::MakeOutput { line: 9, high: true });
    assert_eq!(up[4], PinAction::MakeOutput { line: 11, high: false });
    assert_eq!(up[5], PinAction::MakeInput { line: 10 });
    // ...then the FPGA is reset off the shared bus.
    assert_eq!(up[6], PinAction::SleepMillis { millis: 1 });
    assert_eq!(up[7], PinAction::SetLevel { line: 6, high: false });
    assert_eq!(up[8], PinAction::SleepMillis { millis: 1 });
}

#[test]
fn release_returns_every_line_to_input() {
    let m = PinMap::default_wiring();
    let down = release_actions(&m);
    assert_eq!(down.len(), 6);
    assert!(down.iter().all(|a| matches!(a, PinAction::MakeInput { .. })));
    assert_eq!(down[0], PinAction::MakeInput { line: 6 });
    assert_eq!(down[5], PinAction::MakeInput { line: 10 });
}
