use vstd::prelude::*;

verus! {

/// Bit of an input record set while the player moves up.
pub const INPUT_UP: u8 = 1;
/// Bit of an input record set while the player moves down.
pub const INPUT_DOWN: u8 = 2;
/// Bit of an input record set while the player moves left.
pub const INPUT_LEFT: u8 = 4;
/// Bit of an input record set while the player moves right.
pub const INPUT_RIGHT: u8 = 8;
/// Bit of an input record set while the action button is held.
pub const INPUT_ACTION: u8 = 16;

/// The raw state of one controller for one frame.
#[derive(Clone, Copy, Debug, PartialEq, Eq, Structural)]
pub struct RawControls {
    pub up: bool,
    pub down: bool,
    pub left: bool,
    pub right: bool,
    pub action: bool,
}

/// A bit-packed input record, as exchanged between peers.
#[derive(Clone, Copy, Debug, PartialEq, Eq, Structural)]
pub struct Input {
    pub bits: u8,
}

/// A decoded movement intent: each axis in {-1, 0, 1}, plus the action flag.
#[derive(Clone, Copy, Debug, PartialEq, Eq, Structural)]
pub struct Intent {
    pub dx: i8,
    pub dy: i8,
    pub action: bool,
}

pub open spec fn bit_if(b: bool, mask: u8) -> u8 {
    if b {
        mask
    } else {
        0u8
    }
}

/// The record of a controller state: an axis whose two directions are both
/// pressed counts as not pressed at all.
pub open spec fn encode_spec(c: RawControls) -> u8 {
    (bit_if(c.up && !c.down, INPUT_UP) | bit_if(c.down && !c.up, INPUT_DOWN)
        | bit_if(c.left && !c.right, INPUT_LEFT) | bit_if(c.right && !c.left, INPUT_RIGHT)
        | bit_if(c.action, INPUT_ACTION))
}

pub open spec fn has_bit(bits: u8, mask: u8) -> bool {
    bits & mask != 0
}

/// Horizontal direction of a record: right is +1, left is -1, both or none is 0.
pub open spec fn dir_x(bits: u8) -> int {
    (if has_bit(bits, INPUT_RIGHT) { 1int } else { 0int }) - (if has_bit(bits, INPUT_LEFT) {
        1int
    } else {
        0int
    })
}

/// Vertical direction of a record: up is +1, down is -1, both or none is 0.
pub open spec fn dir_y(bits: u8) -> int {
    (if has_bit(bits, INPUT_UP) { 1int } else { 0int }) - (if has_bit(bits, INPUT_DOWN) {
        1int
    } else {
        0int
    })
}

impl Input {
    /// The record with no key pressed.
    pub fn neutral() -> (r: Input)
        ensures
            r.bits == 0,
    {
        Input { bits: 0 }
    }

    pub open spec fn is_moving(self) -> bool {
        dir_x(self.bits) != 0 || dir_y(self.bits) != 0
    }
}

/// Packs a controller state into an input record.
pub fn encode(c: RawControls) -> (r: Input)
    ensures
        r.bits == encode_spec(c),
{
    let up: u8 = if c.up && !c.down { INPUT_UP } else { 0 };
    let down: u8 = if c.down && !c.up { INPUT_DOWN } else { 0 };
    let left: u8 = if c.left && !c.right { INPUT_LEFT } else { 0 };
    let right: u8 = if c.right && !c.left { INPUT_RIGHT } else { 0 };
    let action: u8 = if c.action { INPUT_ACTION } else { 0 };
    Input { bits: up | down | left | right | action }
}

/// Reconstructs the movement intent of an input record.
pub fn decode(i: Input) -> (r: Intent)
    ensures
        r.dx == dir_x(i.bits),
        r.dy == dir_y(i.bits),
        r.action == has_bit(i.bits, INPUT_ACTION),
{
    let r: i8 = if i.bits & INPUT_RIGHT != 0 { 1 } else { 0 };
    let l: i8 = if i.bits & INPUT_LEFT != 0 { 1 } else { 0 };
    let u: i8 = if i.bits & INPUT_UP != 0 { 1 } else { 0 };
    let d: i8 = if i.bits & INPUT_DOWN != 0 { 1 } else { 0 };
    Intent { dx: r - l, dy: u - d, action: i.bits & INPUT_ACTION != 0 }
}

/// The direction that a controller state asks for on one axis, with
/// opposite presses cancelling.
pub open spec fn axis_of(pos: bool, neg: bool) -> int {
    if pos && !neg {
        1
    } else if neg && !pos {
        -1
    } else {
        0
    }
}

/// Pressing both directions of an axis encodes exactly as pressing neither.
pub proof fn lemma_input_cancellation(c: RawControls)
    ensures
        encode_spec(RawControls { left: true, right: true, ..c }) == encode_spec(
            RawControls { left: false, right: false, ..c },
        ),
        encode_spec(RawControls { up: true, down: true, ..c }) == encode_spec(
            RawControls { up: false, down: false, ..c },
        ),
{
}

proof fn lemma_bits_of_or(u: u8, d: u8, l: u8, r: u8, a: u8)
    requires
        u == 0 || u == 1,
        d == 0 || d == 2,
        l == 0 || l == 4,
        r == 0 || r == 8,
        a == 0 || a == 16,
    ensures
        ((u | d | l | r | a) & 1 != 0) == (u == 1),
        ((u | d | l | r | a) & 2 != 0) == (d == 2),
        ((u | d | l | r | a) & 4 != 0) == (l == 4),
        ((u | d | l | r | a) & 8 != 0) == (r == 8),
        ((u | d | l | r | a) & 16 != 0) == (a == 16),
{
    assert(((u | d | l | r | a) & 1 != 0) == (u == 1)) by (bit_vector)
        requires
            u == 0 || u == 1,
            d == 0 || d == 2,
            l == 0 || l == 4,
            r == 0 || r == 8,
            a == 0 || a == 16,
    ;
    assert(((u | d | l | r | a) & 2 != 0) == (d == 2)) by (bit_vector)
        requires
            u == 0 || u == 1,
            d == 0 || d == 2,
            l == 0 || l == 4,
            r == 0 || r == 8,
            a == 0 || a == 16,
    ;
    assert(((u | d | l | r | a) & 4 != 0) == (l == 4)) by (bit_vector)
        requires
            u == 0 || u == 1,
            d == 0 || d == 2,
            l == 0 || l == 4,
            r == 0 || r == 8,
            a == 0 || a == 16,
    ;
    assert(((u | d | l | r | a) & 8 != 0) == (r == 8)) by (bit_vector)
        requires
            u == 0 || u == 1,
            d == 0 || d == 2,
            l == 0 || l == 4,
            r == 0 || r == 8,
            a == 0 || a == 16,
    ;
    assert(((u | d | l | r | a) & 16 != 0) == (a == 16)) by (bit_vector)
        requires
            u == 0 || u == 1,
            d == 0 || d == 2,
            l == 0 || l == 4,
            r == 0 || r == 8,
            a == 0 || a == 16,
    ;
}

/// Decoding an encoded controller state gives back the direction asked for
/// on each axis, opposite presses cancelled, and the action button.
pub proof fn lemma_decode_encode(c: RawControls)
    ensures
        dir_x(encode_spec(c)) == axis_of(c.right, c.left),
        dir_y(encode_spec(c)) == axis_of(c.up, c.down),
        has_bit(encode_spec(c), INPUT_ACTION) == c.action,
{
    lemma_bits_of_or(
        bit_if(c.up && !c.down, INPUT_UP),
        bit_if(c.down && !c.up, INPUT_DOWN),
        bit_if(c.left && !c.right, INPUT_LEFT),
        bit_if(c.right && !c.left, INPUT_RIGHT),
        bit_if(c.action, INPUT_ACTION),
    );
}

} // verus!
