use rollback_core::world::{DIAG_SPEED, SPEED, SPAWN_OFFSET, X_LIMIT, Y_LIMIT};
use rollback_core::{encode, step, Entity, Input, RawControls, World};

fn press(up: bool, down: bool, left: bool, right: bool) -> Input {
    encode(RawControls { up, down, left, right, action: false })
}

#[test]
fn new_world_spawns_two_players_at_rest() {
    let w = World::new();
    assert_eq!(w.frame, 0);
    assert_eq!(w.players, vec![
        Entity { x: -SPAWN_OFFSET, y: 0, vx: 0, vy: 0, handle: 0 },
        Entity { x: SPAWN_OFFSET, y: 0, vx: 0, vy: 0, handle: 1 },
    ]);
}

#[test]
fn advance_moves_each_player_by_its_own_input() {
    let w = World::new();
    let n = w.advance(&vec![press(false, false, false, true), press(true, false, false, false)]);
    assert_eq!(n.frame, 1);
    assert_eq!(n.players[0], Entity { x: -195_000, y: 0, vx: 5_000, vy: 0, handle: 0 });
    assert_eq!(n.players[1], Entity { x: 200_000, y: 5_000, vx: 0, vy: 5_000, handle: 1 });
}

#[test]
fn neutral_input_keeps_heading() {
    let e = Entity { x: 0, y: 0, vx: -SPEED, vy: 0, handle: 0 };
    let n = step(&e, Input::neutral());
    assert_eq!(n, Entity { x: -SPEED, y: 0, vx: -SPEED, vy: 0, handle: 0 });
}

#[test]
fn diagonal_speed_per_axis() {
    let e = Entity { x: 0, y: 0, vx: 0, vy: 0, handle: 1 };
    let n = step(&e, press(false, true, true, false));
    assert_eq!(n, Entity { x: -DIAG_SPEED, y: -DIAG_SPEED, vx: -DIAG_SPEED, vy: -DIAG_SPEED, handle: 1 });
}

#[test]
fn position_clamps_at_the_edge_without_bounce() {
    let e = Entity { x: X_LIMIT - 1_000, y: Y_LIMIT, vx: 0, vy: 0, handle: 0 };
    let n = step(&e, press(true, false, false, true));
    assert_eq!(n, Entity { x: X_LIMIT, y: Y_LIMIT, vx: DIAG_SPEED, vy: DIAG_SPEED, handle: 0 });
    let m = step(&n, Input::neutral());
    assert_eq!(m, n);
}

#[test]
fn long_input_sequences_stay_in_bounds() {
    let dirs = [
        press(false, false, false, true),
        press(true, false, false, false),
        press(false, true, true, false),
        Input::neutral(),
        press(true, false, true, false),
    ];
    let mut w = World::new();
    for f in 0..2_000usize {
        let a = dirs[(f / 150) % dirs.len()];
        let b = dirs[(f / 97 + 2) % dirs.len()];
        w = w.advance(&vec![a, b]);
        for p in &w.players {
            assert!(-X_LIMIT <= p.x && p.x <= X_LIMIT);
            assert!(-Y_LIMIT <= p.y && p.y <= Y_LIMIT);
        }
    }
    assert_eq!(w.frame, 2_000);
}

#[test]
fn advancing_twice_from_identical_inputs_is_bit_identical() {
    let i1 = vec![press(false, false, false, true), press(false, true, false, false)];
    let i2 = vec![Input::neutral(), press(true, false, true, false)];
    let a = World::new().advance(&i1).advance(&i2);
    let b = World::new().advance(&i1).advance(&i2);
    assert_eq!(a.frame, b.frame);
    assert_eq!(a.players, b.players);
}
