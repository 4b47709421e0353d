use rollback_core::{
    encode, setup_round, AppState, ChecksumCheck, GGRSConfig, Input, LocalSession, RawControls,
    RoundSession, Session, SessionError, SessionStatus, TickOutcome,
};

fn right() -> Input {
    encode(RawControls { up: false, down: false, left: false, right: true, action: false })
}

fn up() -> Input {
    encode(RawControls { up: true, down: false, left: false, right: false, action: false })
}

fn running(handle: usize, input_delay: usize, max_prediction: usize) -> Session {
    let mut s = Session::new(handle, GGRSConfig { input_delay, max_prediction });
    s.synchronized();
    s
}

#[test]
fn new_session_is_synchronizing_and_does_not_tick() {
    let mut s = Session::new(0, GGRSConfig { input_delay: 2, max_prediction: 12 });
    assert_eq!(s.status(), SessionStatus::Synchronizing);
    assert_eq!(s.tick(right()), TickOutcome::Halted);
    assert_eq!(s.current_frame(), 0);
    assert_eq!(s.add_remote_input(0, right()), Err(SessionError::NotRunning));
    s.synchronized();
    assert_eq!(s.status(), SessionStatus::Running);
}

#[test]
fn tick_reports_the_delayed_input_frame() {
    let mut s = running(0, 2, 12);
    assert_eq!(s.tick(right()), TickOutcome::Advanced { input_frame: 2 });
    assert_eq!(s.tick(right()), TickOutcome::Advanced { input_frame: 3 });
    assert_eq!(s.current_frame(), 2);
    // the first two frames ran with the delay's neutral input
    assert_eq!(s.state().players[0].x, -200_000);
    s.tick(Input::neutral());
    assert_eq!(s.state().players[0].x, -195_000);
}

#[test]
fn session_stalls_at_the_prediction_bound() {
    let mut s = running(0, 0, 3);
    for _ in 0..3 {
        assert!(matches!(s.tick(Input::neutral()), TickOutcome::Advanced { .. }));
        assert!(s.current_frame() - s.confirmed_frame() <= 3);
    }
    assert_eq!(s.tick(Input::neutral()), TickOutcome::Stalled);
    assert_eq!(s.tick(Input::neutral()), TickOutcome::Stalled);
    assert_eq!(s.current_frame(), 3);
    assert_eq!(s.confirmed_frame(), 0);
    assert_eq!(s.add_remote_input(0, Input::neutral()), Ok(0));
    assert_eq!(s.confirmed_frame(), 1);
    assert!(matches!(s.tick(Input::neutral()), TickOutcome::Advanced { .. }));
    assert_eq!(s.tick(Input::neutral()), TickOutcome::Stalled);
    assert!(s.current_frame() - s.confirmed_frame() <= 3);
}

#[test]
fn zero_prediction_window_runs_in_lockstep() {
    let mut s = running(1, 0, 0);
    assert_eq!(s.tick(Input::neutral()), TickOutcome::Stalled);
    assert_eq!(s.add_remote_input(0, right()), Ok(0));
    assert_eq!(s.tick(Input::neutral()), TickOutcome::Advanced { input_frame: 0 });
    assert_eq!(s.confirmed_frame(), 1);
    assert_eq!(s.state().players[0].x, -195_000);
}

#[test]
fn remote_inputs_must_come_in_order() {
    let mut s = running(0, 0, 8);
    assert_eq!(s.add_remote_input(1, right()), Err(SessionError::UnexpectedFrame));
    assert_eq!(s.add_remote_input(0, right()), Ok(0));
    assert_eq!(s.add_remote_input(0, right()), Err(SessionError::UnexpectedFrame));
    assert_eq!(s.add_remote_input(1, right()), Ok(0));
}

#[test]
fn misprediction_rolls_back_and_replays() {
    let mut s = running(0, 0, 12);
    for _ in 0..5 {
        s.tick(Input::neutral());
    }
    // frames 0..5 ran with the remote player predicted as neutral
    assert_eq!(s.state().players[1].x, 200_000);
    assert_eq!(s.add_remote_input(0, right()), Ok(5));
    assert_eq!(s.state().players[1].x, 225_000);
    // the prediction is now "right", which frame 1 confirms: no rollback
    assert_eq!(s.add_remote_input(1, right()), Ok(0));
    assert_eq!(s.add_remote_input(2, Input::neutral()), Ok(3));
    // neutral keeps the heading, so nothing changes in position
    assert_eq!(s.state().players[1].x, 225_000);
    assert_eq!(s.confirmed_frame(), 3);
}

fn remote_stream(f: usize) -> Input {
    if f >= 10 {
        right()
    } else {
        Input::neutral()
    }
}

#[test]
fn late_remote_input_is_rolled_back_to_the_reference_state() {
    // Peer B's session; peer A (handle 0) presses right from frame 10 on.
    let mut b = running(1, 2, 12);
    let mut local_b: Vec<Input> = vec![Input::neutral(), Input::neutral()];
    while b.current_frame() < 20 {
        let f = b.current_frame();
        if f <= 9 {
            assert_eq!(b.add_remote_input(f, remote_stream(f)), Ok(0));
        }
        if f == 12 {
            // frames 10 and 11 ran on the neutral prediction
            assert_eq!(b.state().players[0].x, -200_000);
            assert_eq!(b.add_remote_input(10, remote_stream(10)), Ok(2));
            assert_eq!(b.add_remote_input(11, remote_stream(11)), Ok(0));
            assert_eq!(b.add_remote_input(12, remote_stream(12)), Ok(0));
        }
        if f > 12 {
            assert_eq!(b.add_remote_input(f, remote_stream(f)), Ok(0));
        }
        let mine = if f % 4 == 0 { up() } else { Input::neutral() };
        local_b.push(mine);
        assert_eq!(b.tick(mine), TickOutcome::Advanced { input_frame: f + 2 });
    }
    let mut reference = LocalSession::new();
    for f in 0..20usize {
        reference.tick(remote_stream(f), local_b[f]);
    }
    assert_eq!(b.current_frame(), 20);
    assert_eq!(b.state().players, reference.state().players);
    assert_eq!(b.state().players[0].x, -200_000 + 10 * 5_000);
    assert_eq!(b.checksum_at(20), Some(rollback_core::checksum(reference.state())));
}

#[test]
fn local_and_online_trajectories_agree() {
    let player0: Vec<Input> = (0..30).map(|f| if f % 7 < 3 { right() } else { up() }).collect();
    let player1: Vec<Input> = (0..30).map(|f| if f % 5 == 0 { Input::neutral() } else { right() }).collect();
    let mut local = LocalSession::new();
    let mut online = running(0, 0, 12);
    let mut mirror = running(1, 0, 12);
    for f in 0..30usize {
        assert_eq!(online.add_remote_input(f, player1[f]), Ok(0));
        assert_eq!(mirror.add_remote_input(f, player0[f]), Ok(0));
        online.tick(player0[f]);
        mirror.tick(player1[f]);
        local.tick(player0[f], player1[f]);
        assert_eq!(online.state().players, local.state().players);
        assert_eq!(mirror.state().players, local.state().players);
        assert_eq!(online.confirmed_frame(), f + 1);
    }
    assert_eq!(local.current_frame(), 30);
}

#[test]
fn straight_run_equals_rollback_replay() {
    // Straight through: every remote input on time.
    let remote: Vec<Input> = (0..12).map(|f| if f % 3 == 0 { up() } else { right() }).collect();
    let mut straight = running(0, 1, 12);
    let mut replayed = running(0, 1, 12);
    for f in 0..12usize {
        straight.add_remote_input(f, remote[f]).unwrap();
        straight.tick(right());
        if f < 4 {
            replayed.add_remote_input(f, remote[f]).unwrap();
        }
        replayed.tick(right());
    }
    for f in 4..12usize {
        replayed.add_remote_input(f, remote[f]).unwrap();
    }
    assert_eq!(straight.state().players, replayed.state().players);
    assert_eq!(straight.checksum_at(12), replayed.checksum_at(12));
    assert!(straight.checksum_at(12).is_some());
}

#[test]
fn checksum_comparison_detects_desync() {
    let mut s = running(0, 0, 4);
    s.add_remote_input(0, right()).unwrap();
    s.tick(Input::neutral());
    let mine = s.checksum_at(1).unwrap();
    assert_eq!(s.checksum_at(2), None);
    assert_eq!(s.receive_checksum(2, mine), ChecksumCheck::Unavailable);
    assert_eq!(s.receive_checksum(1, mine), ChecksumCheck::Match);
    assert_eq!(s.status(), SessionStatus::Running);
    assert_eq!(s.receive_checksum(1, mine ^ 1), ChecksumCheck::Mismatch);
    assert_eq!(s.status(), SessionStatus::Desynced { frame: 1 });
    assert_eq!(s.tick(Input::neutral()), TickOutcome::Halted);
}

#[test]
fn disconnection_ends_the_session() {
    let mut s = running(0, 0, 4);
    s.disconnected();
    assert_eq!(s.status(), SessionStatus::PeerLost);
    assert_eq!(s.tick(Input::neutral()), TickOutcome::Halted);
    s.synchronized();
    assert_eq!(s.status(), SessionStatus::PeerLost);
}

#[test]
fn setup_round_picks_the_mode() {
    let config = GGRSConfig { input_delay: 2, max_prediction: 12 };
    assert!(matches!(setup_round(AppState::RoundLocal, 0, config), Some(RoundSession::Local(_))));
    match setup_round(AppState::RoundOnline, 1, config) {
        Some(RoundSession::Online(s)) => {
            assert_eq!(s.local_handle(), 1);
            assert_eq!(s.config(), config);
            assert_eq!(s.status(), SessionStatus::Synchronizing);
        }
        _ => panic!("expected an online session"),
    }
    assert!(setup_round(AppState::MenuMain, 0, config).is_none());
    assert!(setup_round(AppState::Win, 0, config).is_none());
}
