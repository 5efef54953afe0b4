use chip8_core::decode::{Instr, decode, encode};

fn roundtrips(w: u16) {
    match decode(w) {
        Some(i) => assert_eq!(encode(i), w),
        None => panic!("word {:#06x} should decode", w),
    }
}

#[test]
fn decode_encode_roundtrip_all_families() {
    let words = [
        0x00E0u16, 0x00EE, 0x1234, 0x2ABC, 0x3A7F, 0x4B01, 0x5CD0, 0x6EFF, 0x7012, 0x8AB0,
        0x8AB1, 0x8AB2, 0x8AB3, 0x8AB4, 0x8AB5, 0x8AB6, 0x8AB7, 0x8ABE, 0x9CD0, 0xA123, 0xB456,
        0xC77F, 0xD123, 0xE59E, 0xE6A1, 0xF107, 0xF20A, 0xF315, 0xF418, 0xF51E, 0xF629, 0xF733,
        0xF855, 0xF965,
    ];
    for &w in words.iter() {
        roundtrips(w);
    }
}

#[test]
fn decode_encode_roundtrip_exhaustive() {
    // Over every 16-bit word: whatever decodes must re-encode to itself.
    for w in 0u16..=0xFFFF {
        if let Some(i) = decode(w) {
            assert_eq!(encode(i), w);
        }
    }
}

#[test]
fn undocumented_patterns_are_refused() {
    for &w in [0x0000u16, 0x0123, 0x00E1, 0x5AB1, 0x8AB8, 0x8ABF, 0x9CD5, 0xE500, 0xE59F,
        0xF100, 0xF166, 0xFFFF].iter() {
        assert!(decode(w).is_none(), "word {:#06x} must not decode", w);
    }
}

#[test]
fn decode_splits_nibbles() {
    assert_eq!(decode(0x6A42), Some(Instr::SetImm { x: 0xA, nn: 0x42 }));
    assert_eq!(decode(0xD123), Some(Instr::Draw { x: 1, y: 2, n: 3 }));
    assert_eq!(decode(0x1FED), Some(Instr::Jump { nnn: 0xFED }));
    assert_eq!(decode(0x8AB5), Some(Instr::SubXY { x: 0xA, y: 0xB }));
}
