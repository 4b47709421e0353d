use vstd::prelude::*;

use crate::input::Input;
use crate::session::{GGRSConfig, Session, SessionStatus};
use crate::world::{initial_state, lemma_advance_ok, simulate, world_ok, World, NUM_PLAYERS};

verus! {

/// The screens and rounds of the application.
#[derive(Clone, Copy, Debug, PartialEq, Eq, Hash, Structural)]
pub enum AppState {
    AssetLoading,
    MenuMain,
    MenuOnline,
    MenuConnect,
    RoundLocal,
    RoundOnline,
    Win,
}

/// A round on one machine: both players' inputs are local, so nothing is
/// predicted and nothing rolls back, but the same frame advancer runs.
pub struct LocalSession {
    world: World,
    history: Ghost<Seq<Seq<Input>>>,
}

impl LocalSession {
    /// The inputs of every frame simulated so far, player 0's first.
    pub closed spec fn frames(&self) -> Seq<Seq<Input>> {
        self.history@
    }

    pub closed spec fn wf(&self) -> bool {
        &&& self.world@ == simulate(initial_state(), self.history@)
        &&& self.world@.frame == self.history@.len()
        &&& world_ok(self.world@)
        &&& self.world@.players.len() == NUM_PLAYERS
    }

    pub fn new() -> (r: LocalSession)
        ensures
            r.wf(),
            r.frames() == Seq::<Seq<Input>>::empty(),
    {
        LocalSession { world: World::new(), history: Ghost(Seq::empty()) }
    }

    /// Number of frames simulated.
    pub fn current_frame(&self) -> (r: usize)
        requires
            self.wf(),
        ensures
            r == self.frames().len(),
    {
        self.world.frame
    }

    /// The current state.
    pub fn state(&self) -> (r: &World)
        requires
            self.wf(),
        ensures
            r@ == simulate(initial_state(), self.frames()),
            world_ok(r@),
    {
        &self.world
    }

    /// Simulates one frame with the inputs of player 0 and player 1.
    pub fn tick(&mut self, player0: Input, player1: Input)
        requires
            old(self).wf(),
            old(self).frames().len() < usize::MAX,
        ensures
            final(self).wf(),
            final(self).frames() == old(self).frames().push(seq![player0, player1]),
    {
        let inputs: Vec<Input> = vec![player0, player1];
        proof {
            lemma_advance_ok(self.world@, inputs@);
        }
        let next = self.world.advance(&inputs);
        self.world = next;
        self.history = Ghost(self.history@.push(seq![player0, player1]));
        proof {
            assert(self.history@.drop_last() =~= old(self).history@);
            assert(inputs@ =~= seq![player0, player1]);
        }
    }
}

/// The session of a round, in the mode that the round was entered with.
pub enum RoundSession {
    Local(LocalSession),
    Online(Session),
}

/// Sets up the session of a round state: a local session for a local
/// round, an online one for the player `local_handle` for an online round,
/// and none for any other state.
pub fn setup_round(state: AppState, local_handle: usize, config: GGRSConfig) -> (r: Option<
    RoundSession,
>)
    requires
        local_handle < 2,
    ensures
        state == AppState::RoundLocal ==> (r matches Some(RoundSession::Local(l)) && l.wf()
            && l.frames().len() == 0),
        state == AppState::RoundOnline ==> (r matches Some(RoundSession::Online(s)) && s.wf()
            && s.handle() == local_handle && s.config_view() == config && s.status_view()
            == SessionStatus::Synchronizing && s.frame_view() == 0 && s.remote_inputs().len() == 0),
        state != AppState::RoundLocal && state != AppState::RoundOnline ==> r is None,
{
    match state {
        AppState::RoundLocal => Some(RoundSession::Local(LocalSession::new())),
        AppState::RoundOnline => Some(RoundSession::Online(Session::new(local_handle, config))),
        _ => None,
    }
}

} // verus!
