use rollback_core::input::{INPUT_ACTION, INPUT_DOWN, INPUT_LEFT, INPUT_RIGHT, INPUT_UP};
use rollback_core::{decode, encode, Input, Intent, RawControls};

fn controls(up: bool, down: bool, left: bool, right: bool, action: bool) -> RawControls {
    RawControls { up, down, left, right, action }
}

#[test]
fn encode_single_directions() {
    assert_eq!(encode(controls(true, false, false, false, false)).bits, INPUT_UP);
    assert_eq!(encode(controls(false, true, false, false, false)).bits, INPUT_DOWN);
    assert_eq!(encode(controls(false, false, true, false, false)).bits, INPUT_LEFT);
    assert_eq!(encode(controls(false, false, false, true, false)).bits, INPUT_RIGHT);
    assert_eq!(encode(controls(false, false, false, false, true)).bits, INPUT_ACTION);
    assert_eq!(encode(controls(false, false, false, false, false)).bits, 0);
}

#[test]
fn encode_combined_keys() {
    assert_eq!(encode(controls(true, false, false, true, true)).bits, 1 | 8 | 16);
    assert_eq!(encode(controls(false, true, true, false, false)).bits, 2 | 4);
}

#[test]
fn opposite_presses_cancel() {
    let both = encode(controls(false, false, true, true, false));
    let none = encode(controls(false, false, false, false, false));
    assert_eq!(both, none);
    let vertical_both = encode(controls(true, true, false, true, true));
    let vertical_none = encode(controls(false, false, false, true, true));
    assert_eq!(vertical_both, vertical_none);
    assert_eq!(encode(controls(true, true, true, true, false)).bits, 0);
}

#[test]
fn decode_directions() {
    assert_eq!(decode(Input { bits: INPUT_RIGHT | INPUT_UP }), Intent { dx: 1, dy: 1, action: false });
    assert_eq!(decode(Input { bits: INPUT_LEFT | INPUT_DOWN | INPUT_ACTION }), Intent {
        dx: -1,
        dy: -1,
        action: true
    });
    assert_eq!(decode(Input::neutral()), Intent { dx: 0, dy: 0, action: false });
}

#[test]
fn decode_record_with_both_bits_is_neutral_on_that_axis() {
    assert_eq!(decode(Input { bits: INPUT_LEFT | INPUT_RIGHT }), Intent { dx: 0, dy: 0, action: false });
}

#[test]
fn decode_of_encode_round_trips_every_combination() {
    for m in 0u8..32 {
        let c = controls(m & 1 != 0, m & 2 != 0, m & 4 != 0, m & 8 != 0, m & 16 != 0);
        let i = decode(encode(c));
        let ex = (c.right && !c.left) as i8 - (c.left && !c.right) as i8;
        let ey = (c.up && !c.down) as i8 - (c.down && !c.up) as i8;
        assert_eq!(i, Intent { dx: ex, dy: ey, action: c.action });
    }
}
