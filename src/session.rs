use vstd::prelude::*;

use crate::checksum::{checksum, checksum_spec};
use crate::input::Input;
use crate::world::{
    advance_spec, initial_state, lemma_simulate_ok, simulate, world_ok, World, WorldState,
    NUM_PLAYERS,
};

verus! {

/// The parameters of an online session.
#[derive(Clone, Copy, Debug, PartialEq, Eq, Structural)]
pub struct GGRSConfig {
    /// Frames between collecting a local input and the frame it applies to.
    pub input_delay: usize,
    /// Largest number of frames simulated ahead of the last confirmed one.
    pub max_prediction: usize,
}

/// Where an online session stands.
#[derive(Clone, Copy, Debug, PartialEq, Eq, Structural)]
pub enum SessionStatus {
    /// Peers are still agreeing on a shared start.
    Synchronizing,
    /// The normal tick loop.
    Running,
    /// The peer channel was lost; the session is abandoned.
    PeerLost,
    /// The peers' checksums for this frame differ; the session is abandoned.
    Desynced { frame: usize },
}

/// What a tick did.
#[derive(Clone, Copy, Debug, PartialEq, Eq, Structural)]
pub enum TickOutcome {
    /// One frame was simulated; the local input must be sent to the peer as
    /// its input for frame `input_frame`.
    Advanced { input_frame: usize },
    /// The prediction window is full: nothing happened, waiting on the peer.
    Stalled,
    /// The session is not running: nothing happened.
    Halted,
}

/// Why a remote input was not taken.
#[derive(Clone, Copy, Debug, PartialEq, Eq, Structural)]
pub enum SessionError {
    /// The session is not running.
    NotRunning,
    /// Remote inputs come one per frame, in order; this one is not the next.
    UnexpectedFrame,
}

/// The result of comparing a remote checksum with the local one.
#[derive(Clone, Copy, Debug, PartialEq, Eq, Structural)]
pub enum ChecksumCheck {
    Match,
    Mismatch,
    /// The frame is not confirmed here yet, or the session is not running.
    Unavailable,
}

/// The remote input that frame `f` runs with: the received one, or else the
/// last one received (neutral before any arrived).
pub open spec fn eff_remote(remote: Seq<Input>, f: int) -> Input {
    if f < remote.len() {
        remote[f]
    } else if remote.len() > 0 {
        remote.last()
    } else {
        Input { bits: 0 }
    }
}

/// The inputs of one frame in player order, given the local player's handle.
pub open spec fn frame_inputs(handle: nat, local: Input, remote: Input) -> Seq<Input> {
    if handle == 0 {
        seq![local, remote]
    } else {
        seq![remote, local]
    }
}

/// The inputs that frames `[0, n)` run with.
pub open spec fn timeline(handle: nat, local: Seq<Input>, remote: Seq<Input>, n: nat) -> Seq<
    Seq<Input>,
> {
    Seq::new(n, |f: int| frame_inputs(handle, local[f], eff_remote(remote, f)))
}

/// The state at frame `n` given every local input and every remote input
/// received so far.
pub open spec fn state_at(handle: nat, local: Seq<Input>, remote: Seq<Input>, n: nat) -> WorldState {
    simulate(initial_state(), timeline(handle, local, remote, n))
}

/// The frames of two complete input streams, player 0's first.
pub open spec fn paired(player0: Seq<Input>, player1: Seq<Input>, n: nat) -> Seq<Seq<Input>> {
    Seq::new(n, |f: int| seq![player0[f], player1[f]])
}

pub proof fn lemma_state_at_ok(handle: nat, local: Seq<Input>, remote: Seq<Input>, n: nat)
    ensures
        world_ok(state_at(handle, local, remote, n)),
        state_at(handle, local, remote, n).players.len() == NUM_PLAYERS,
        state_at(handle, local, remote, n).frame == n,
{
    let t = timeline(handle, local, remote, n);
    crate::world::lemma_initial_ok();
    assert forall|f: int| 0 <= f < t.len() implies (#[trigger] t[f]).len()
        == initial_state().players.len() by {}
    lemma_simulate_ok(initial_state(), t);
}

proof fn lemma_state_at_step(handle: nat, local: Seq<Input>, remote: Seq<Input>, n: nat)
    ensures
        state_at(handle, local, remote, n + 1) == advance_spec(
            state_at(handle, local, remote, n),
            frame_inputs(handle, local[n as int], eff_remote(remote, n as int)),
        ),
{
    assert(timeline(handle, local, remote, n + 1).drop_last() =~= timeline(
        handle,
        local,
        remote,
        n,
    ));
}

/// States up to frame `n` depend only on the inputs of frames before `n`.
proof fn lemma_state_at_same(
    handle: nat,
    l1: Seq<Input>,
    r1: Seq<Input>,
    l2: Seq<Input>,
    r2: Seq<Input>,
    n: nat,
)
    requires
        forall|f: int| 0 <= f < n ==> l1[f] == l2[f] && eff_remote(r1, f) == eff_remote(r2, f),
    ensures
        state_at(handle, l1, r1, n) == state_at(handle, l2, r2, n),
{
    assert(timeline(handle, l1, r1, n) =~= timeline(handle, l2, r2, n));
}

/// Once every remote input of frames `[0, n)` has arrived, the state at
/// frame `n` is the one that a session without any network delay computes:
/// that of the two input streams run straight through, whichever player is
/// the local one.
pub proof fn lemma_confirmed_matches_reference(
    handle: nat,
    player0: Seq<Input>,
    player1: Seq<Input>,
    n: nat,
)
    requires
        handle < 2,
        n <= player0.len(),
        n <= player1.len(),
    ensures
        handle == 0 ==> state_at(handle, player0, player1, n) == simulate(initial_state(), paired(player0, player1, n)),
        handle == 1 ==> state_at(handle, player1, player0, n) == simulate(initial_state(), paired(player0, player1, n)),
{
    if handle == 0 {
        assert(timeline(handle, player0, player1, n) =~= paired(player0, player1, n));
    } else {
        assert(timeline(handle, player1, player0, n) =~= paired(player0, player1, n));
    }
}

/// In every state of a session the gap between the frame about to be
/// simulated and the last confirmed frame stays within the configured
/// prediction bound: a tick stalls rather than exceed it.
pub proof fn lemma_prediction_window(s: &Session)
    requires
        s.wf(),
    ensures
        s.frame_view() - s.confirmed_view() <= s.config_view().max_prediction,
{
}

/// Replays `count` frames from `start`, the state of frame `base`: frame
/// `base + j` runs with local input `queue[j]` and remote input `remote`.
fn replay(
    start: &World,
    queue: &Vec<Input>,
    remote: Input,
    handle: usize,
    count: usize,
    Ghost(l): Ghost<Seq<Input>>,
    Ghost(r): Ghost<Seq<Input>>,
    Ghost(base): Ghost<nat>,
) -> (snaps: Vec<World>)
    requires
        handle < 2,
        start@ == state_at(handle as nat, l, r, base),
        count <= queue.len(),
        base + count <= l.len(),
        base + count <= usize::MAX,
        forall|j: int| 0 <= j < count ==> #[trigger] queue@[j] == l[base + j],
        forall|f: int| base <= f < base + count ==> #[trigger] eff_remote(r, f) == remote,
    ensures
        snaps.len() == count,
        forall|j: int|
            0 <= j < count ==> (#[trigger] snaps@[j])@ == state_at(
                handle as nat,
                l,
                r,
                (base + j + 1) as nat,
            ),
{
    let mut snaps: Vec<World> = Vec::new();
    let mut k: usize = 0;
    while k < count
        invariant
            handle < 2,
            start@ == state_at(handle as nat, l, r, base),
            count <= queue.len(),
            base + count <= l.len(),
            base + count <= usize::MAX,
            forall|j: int| 0 <= j < count ==> #[trigger] queue@[j] == l[base + j],
            forall|f: int| base <= f < base + count ==> #[trigger] eff_remote(r, f) == remote,
            k <= count,
            snaps.len() == k,
            forall|j: int|
                0 <= j < k ==> (#[trigger] snaps@[j])@ == state_at(
                    handle as nat,
                    l,
                    r,
                    (base + j + 1) as nat,
                ),
        decreases count - k,
    {
        let mine = queue[k];
        let inputs: Vec<Input> = if handle == 0 {
            vec![mine, remote]
        } else {
            vec![remote, mine]
        };
        proof {
            let f = (base + k) as nat;
            assert(inputs@ =~= frame_inputs(handle as nat, l[f as int], eff_remote(r, f as int)));
            lemma_state_at_step(handle as nat, l, r, f);
            lemma_state_at_ok(handle as nat, l, r, f);
        }
        let next = if k == 0 {
            start.advance(&inputs)
        } else {
            snaps[k - 1].advance(&inputs)
        };
        snaps.push(next);
        k = k + 1;
    }
    snaps
}

/// An online rollback session between the local player and one remote peer.
pub struct Session {
    config: GGRSConfig,
    local_handle: usize,
    status: SessionStatus,
    /// The frame about to be simulated; `snaps` ends with its state.
    frame: usize,
    /// Number of remote inputs received: those of frames `[0, remote_count)`.
    remote_count: usize,
    /// The last remote input received, the prediction for later frames.
    last_remote: Input,
    /// States of frames `[confirmed, frame]`.
    snaps: Vec<World>,
    /// Local inputs of frames `[confirmed, frame + input_delay)`.
    local_queue: Vec<Input>,
    /// Remote inputs received for frames `[frame, remote_count)`.
    remote_ahead: Vec<Input>,
    /// Checksums of the states of frames `[0, confirmed]`.
    checksums: Vec<u64>,
    local_hist: Ghost<Seq<Input>>,
    remote_hist: Ghost<Seq<Input>>,
}

impl Session {
    /// The local player's handle, 0 or 1.
    pub closed spec fn handle(&self) -> nat {
        self.local_handle as nat
    }

    pub closed spec fn config_view(&self) -> GGRSConfig {
        self.config
    }

    pub closed spec fn status_view(&self) -> SessionStatus {
        self.status
    }

    /// The frame about to be simulated.
    pub closed spec fn frame_view(&self) -> nat {
        self.frame as nat
    }

    /// Every local input so far, the delay's neutral inputs first.
    pub closed spec fn local_inputs(&self) -> Seq<Input> {
        self.local_hist@
    }

    /// Every remote input received so far, frame by frame from frame zero.
    pub closed spec fn remote_inputs(&self) -> Seq<Input> {
        self.remote_hist@
    }

    /// Number of frames whose every input is known.
    pub open spec fn confirmed_view(&self) -> nat {
        if self.remote_inputs().len() < self.frame_view() {
            self.remote_inputs().len()
        } else {
            self.frame_view()
        }
    }

    /// The state that frame `n` has in the session's current timeline.
    pub open spec fn state_of(&self, n: nat) -> WorldState {
        state_at(self.handle(), self.local_inputs(), self.remote_inputs(), n)
    }

    pub closed spec fn wf(&self) -> bool {
        let base = self.confirmed_view();
        &&& self.local_handle < 2
        &&& self.remote_count == self.remote_hist@.len()
        &&& self.local_hist@.len() == self.frame + self.config.input_delay
        &&& self.frame - base <= self.config.max_prediction
        &&& self.last_remote == eff_remote(self.remote_hist@, self.remote_count as int)
        &&& self.snaps.len() == self.frame - base + 1
        &&& forall|j: int|
            0 <= j < self.snaps.len() ==> (#[trigger] self.snaps@[j])@ == self.state_of(
                (base + j) as nat,
            )
        &&& self.local_queue@ == self.local_hist@.subrange(
            base as int,
            self.frame + self.config.input_delay,
        )
        &&& self.remote_ahead@ == (if self.remote_count > self.frame {
            self.remote_hist@.subrange(self.frame as int, self.remote_count as int)
        } else {
            Seq::empty()
        })
        &&& self.checksums.len() == base + 1
        &&& forall|f: int|
            0 <= f <= base ==> #[trigger] self.checksums@[f] == checksum_spec(
                self.state_of(f as nat),
            )
    }

    /// A session for the player `local_handle`, waiting for the peer.
    pub fn new(local_handle: usize, config: GGRSConfig) -> (r: Session)
        requires
            local_handle < 2,
        ensures
            r.wf(),
            r.handle() == local_handle,
            r.config_view() == config,
            r.status_view() == SessionStatus::Synchronizing,
            r.frame_view() == 0,
            r.remote_inputs() == Seq::<Input>::empty(),
            r.local_inputs() == Seq::new(config.input_delay as nat, |f: int| Input { bits: 0 }),
    {
        let mut local_queue: Vec<Input> = Vec::new();
        let mut k: usize = 0;
        while k < config.input_delay
            invariant
                k <= config.input_delay,
                local_queue@ == Seq::new(k as nat, |f: int| Input { bits: 0 }),
            decreases config.input_delay - k,
        {
            local_queue.push(Input::neutral());
            k = k + 1;
            proof {
                assert(local_queue@ =~= Seq::new(k as nat, |f: int| Input { bits: 0 }));
            }
        }
        let w = World::new();
        let mut snaps: Vec<World> = Vec::new();
        let mut checksums: Vec<u64> = Vec::new();
        checksums.push(checksum(&w));
        snaps.push(w);
        let ghost lh = local_queue@;
        let r = Session {
            config,
            local_handle,
            status: SessionStatus::Synchronizing,
            frame: 0,
            remote_count: 0,
            last_remote: Input::neutral(),
            snaps,
            local_queue,
            remote_ahead: Vec::new(),
            checksums,
            local_hist: Ghost(lh),
            remote_hist: Ghost(Seq::empty()),
        };
        proof {
            assert(timeline(local_handle as nat, lh, Seq::empty(), 0) =~= Seq::empty());
            assert(r.state_of(0) == initial_state());
            assert(r.local_queue@ =~= lh.subrange(0, config.input_delay as int));
        }
        r
    }

    /// The prediction window is full: the next frame would lie more than
    /// `max_prediction` frames past the last confirmed one.
    pub open spec fn window_full(&self) -> bool {
        &&& self.remote_inputs().len() <= self.frame_view()
        &&& self.frame_view() - self.remote_inputs().len() >= self.config_view().max_prediction
    }

    /// The session's state is the same, but for what the operation changes.
    pub open spec fn same_setup(&self, other: &Session) -> bool {
        &&& self.handle() == other.handle()
        &&& self.config_view() == other.config_view()
    }

    pub fn local_handle(&self) -> (r: usize)
        requires
            self.wf(),
        ensures
            r == self.handle(),
    {
        self.local_handle
    }

    pub fn config(&self) -> (r: GGRSConfig)
        ensures
            r == self.config_view(),
    {
        self.config
    }

    pub fn status(&self) -> (r: SessionStatus)
        ensures
            r == self.status_view(),
    {
        self.status
    }

    /// The frame about to be simulated.
    pub fn current_frame(&self) -> (r: usize)
        ensures
            r == self.frame_view(),
    {
        self.frame
    }

    /// Number of frames whose every input is known.
    pub fn confirmed_frame(&self) -> (r: usize)
        requires
            self.wf(),
        ensures
            r == self.confirmed_view(),
    {
        if self.remote_count < self.frame {
            self.remote_count
        } else {
            self.frame
        }
    }

    /// The latest simulated state, predicted where remote input is missing.
    pub fn state(&self) -> (r: &World)
        requires
            self.wf(),
        ensures
            r@ == self.state_of(self.frame_view()),
            world_ok(r@),
    {
        proof {
            lemma_state_at_ok(self.handle(), self.local_inputs(), self.remote_inputs(), self.frame_view());
        }
        &self.snaps[self.snaps.len() - 1]
    }

    /// The checksum stored for a confirmed frame.
    pub fn checksum_at(&self, frame: usize) -> (r: Option<u64>)
        requires
            self.wf(),
        ensures
            frame <= self.confirmed_view() ==> r == Some(checksum_spec(self.state_of(frame as nat))),
            frame > self.confirmed_view() ==> r is None,
    {
        if frame < self.checksums.len() {
            Some(self.checksums[frame])
        } else {
            None
        }
    }

    /// One tick of the running session: the local input is queued for frame
    /// `current_frame + input_delay`, and the current frame is simulated,
    /// with the remote input received for it or else the predicted one. A
    /// full prediction window stalls the tick instead.
    pub fn tick(&mut self, local: Input) -> (r: TickOutcome)
        requires
            old(self).wf(),
            old(self).frame_view() + old(self).config_view().input_delay < usize::MAX,
        ensures
            final(self).wf(),
            final(self).same_setup(old(self)),
            final(self).status_view() == old(self).status_view(),
            final(self).remote_inputs() == old(self).remote_inputs(),
            old(self).status_view() != SessionStatus::Running ==> r == TickOutcome::Halted,
            old(self).status_view() == SessionStatus::Running && old(self).window_full() ==> r
                == TickOutcome::Stalled,
            r is Halted || r is Stalled ==> final(self).frame_view() == old(self).frame_view()
                && final(self).local_inputs() == old(self).local_inputs(),
            old(self).status_view() == SessionStatus::Running && !old(self).window_full() ==> {
                &&& r == (TickOutcome::Advanced {
                    input_frame: (old(self).frame_view() + old(self).config_view().input_delay) as usize,
                })
                &&& final(self).frame_view() == old(self).frame_view() + 1
                &&& final(self).local_inputs() == old(self).local_inputs().push(local)
            },
    {
        if self.status != SessionStatus::Running {
            return TickOutcome::Halted;
        }
        let predicting = self.remote_count <= self.frame;
        if predicting && self.frame - self.remote_count >= self.config.max_prediction {
            return TickOutcome::Stalled;
        }
        let ghost old_l = self.local_hist@;
        let ghost rh = self.remote_hist@;
        let ghost h = self.local_handle as nat;
        let ghost base = self.confirmed_view();
        let ghost n = self.frame as nat;
        let input_frame = self.frame + self.config.input_delay;
        self.local_queue.push(local);
        self.local_hist = Ghost(self.local_hist@.push(local));
        let ghost new_l = self.local_hist@;
        proof {
            assert forall|f: int| 0 <= f <= n implies #[trigger] state_at(h, new_l, rh, f as nat)
                == state_at(h, old_l, rh, f as nat) by {
                lemma_state_at_same(h, new_l, rh, old_l, rh, f as nat);
            }
            lemma_state_at_step(h, new_l, rh, n);
            lemma_state_at_ok(h, new_l, rh, n);
            assert(self.local_queue@ =~= new_l.subrange(
                base as int,
                self.frame + self.config.input_delay + 1,
            ));
        }
        let remote = if predicting {
            self.last_remote
        } else {
            self.remote_ahead.remove(0)
        };
        let offset: usize = if predicting { self.frame - self.remote_count } else { 0 };
        let mine = self.local_queue[offset];
        let inputs: Vec<Input> = if self.local_handle == 0 {
            vec![mine, remote]
        } else {
            vec![remote, mine]
        };
        proof {
            assert(inputs@ =~= frame_inputs(h, new_l[n as int], eff_remote(rh, n as int)));
        }
        let next = self.snaps[self.snaps.len() - 1].advance(&inputs);
        if predicting {
            self.snaps.push(next);
        } else {
            let sum = checksum(&next);
            self.snaps.set(0, next);
            self.local_queue.remove(0);
            self.checksums.push(sum);
        }
        self.frame = self.frame + 1;
        proof {
            assert forall|j: int| 0 <= j < self.snaps.len() implies (#[trigger] self.snaps@[j])@
                == self.state_of((self.confirmed_view() + j) as nat) by {}
            assert forall|f: int| 0 <= f <= self.confirmed_view() implies #[trigger] self.checksums@[f]
                == checksum_spec(self.state_of(f as nat)) by {}
            if !predicting {
                assert(self.local_queue@ =~= new_l.subrange(
                    self.frame as int,
                    self.frame + self.config.input_delay,
                ));
                assert(self.remote_ahead@ =~= (if self.remote_count > self.frame {
                    rh.subrange(self.frame as int, self.remote_count as int)
                } else {
                    Seq::empty()
                }));
            }
        }
        TickOutcome::Advanced { input_frame }
    }

    /// Takes the remote input of frame `frame`, which must be the next one
    /// expected. Where it confirms a frame simulated with a different
    /// prediction, the session rolls back to the snapshot of that frame and
    /// replays every later frame; the result is the number of frames
    /// replayed.
    pub fn add_remote_input(&mut self, frame: usize, input: Input) -> (r: Result<usize, SessionError>)
        requires
            old(self).wf(),
        ensures
            final(self).wf(),
            final(self).same_setup(old(self)),
            final(self).status_view() == old(self).status_view(),
            final(self).frame_view() == old(self).frame_view(),
            final(self).local_inputs() == old(self).local_inputs(),
            old(self).status_view() != SessionStatus::Running ==> r == Err::<usize, SessionError>(
                SessionError::NotRunning,
            ),
            old(self).status_view() == SessionStatus::Running && (frame != old(
                self,
            ).remote_inputs().len() || frame == usize::MAX) ==> r == Err::<usize, SessionError>(
                SessionError::UnexpectedFrame,
            ),
            r is Err ==> final(self).remote_inputs() == old(self).remote_inputs(),
            old(self).status_view() == SessionStatus::Running && frame == old(
                self,
            ).remote_inputs().len() && frame < usize::MAX ==> {
                &&& final(self).remote_inputs() == old(self).remote_inputs().push(input)
                &&& r == Ok::<usize, SessionError>(
                    if frame < old(self).frame_view() && input != eff_remote(
                        old(self).remote_inputs(),
                        frame as int,
                    ) {
                        (old(self).frame_view() - frame) as usize
                    } else {
                        0
                    },
                )
            },
    {
        if self.status != SessionStatus::Running {
            return Err(SessionError::NotRunning);
        }
        if frame != self.remote_count || frame == usize::MAX {
            return Err(SessionError::UnexpectedFrame);
        }
        let ghost l = self.local_hist@;
        let ghost old_r = self.remote_hist@;
        let ghost h = self.local_handle as nat;
        let ghost n = self.frame as nat;
        let ghost rc = self.remote_count as nat;
        let predicted = self.last_remote;
        self.remote_hist = Ghost(self.remote_hist@.push(input));
        self.remote_count = self.remote_count + 1;
        self.last_remote = input;
        let ghost new_r = self.remote_hist@;
        if frame >= self.frame {
            self.remote_ahead.push(input);
            proof {
                lemma_state_at_same(h, l, new_r, l, old_r, n);
                assert(self.remote_ahead@ =~= new_r.subrange(n as int, self.remote_count as int));
                assert forall|f: int| 0 <= f <= n implies #[trigger] state_at(h, l, new_r, f as nat)
                    == state_at(h, l, old_r, f as nat) by {
                    lemma_state_at_same(h, l, new_r, l, old_r, f as nat);
                }
                assert forall|j: int| 0 <= j < self.snaps.len() implies (#[trigger] self.snaps@[j])@
                    == self.state_of((self.confirmed_view() + j) as nat) by {}
                assert forall|f: int| 0 <= f <= self.confirmed_view() implies #[trigger] self.checksums@[f]
                    == checksum_spec(self.state_of(f as nat)) by {}
            }
            return Ok(0);
        }
        // The frame was simulated with a prediction: it is confirmed now.

        proof {
            assert forall|f: int| 0 <= f <= rc implies #[trigger] state_at(h, l, new_r, f as nat)
                == state_at(h, l, old_r, f as nat) by {
                lemma_state_at_same(h, l, new_r, l, old_r, f as nat);
            }
        }
        let start = self.snaps.remove(0);
        let replayed: usize;
        if input == predicted {
            proof {
                assert forall|f: int| 0 <= f <= n implies #[trigger] state_at(h, l, new_r, f as nat)
                    == state_at(h, l, old_r, f as nat) by {
                    lemma_state_at_same(h, l, new_r, l, old_r, f as nat);
                }
            }
            replayed = 0;
        } else {
            let count: usize = self.frame - frame;
            self.snaps = replay(&start, &self.local_queue, input, self.local_handle, count,
                Ghost(l), Ghost(new_r), Ghost(rc));
            replayed = count;
        }
        self.local_queue.remove(0);
        let sum = checksum(&self.snaps[0]);
        self.checksums.push(sum);
        proof {
            assert(self.local_queue@ =~= l.subrange(rc + 1int, n + self.config.input_delay));
            assert forall|j: int| 0 <= j < self.snaps.len() implies (#[trigger] self.snaps@[j])@
                == self.state_of((self.confirmed_view() + j) as nat) by {}
            assert forall|f: int| 0 <= f <= self.confirmed_view() implies #[trigger] self.checksums@[f]
                == checksum_spec(self.state_of(f as nat)) by {}
        }
        Ok(replayed)
    }

    /// The peers agreed on a shared start: a synchronizing session runs.
    pub fn synchronized(&mut self)
        requires
            old(self).wf(),
        ensures
            final(self).wf(),
            final(self).same_setup(old(self)),
            final(self).frame_view() == old(self).frame_view(),
            final(self).local_inputs() == old(self).local_inputs(),
            final(self).remote_inputs() == old(self).remote_inputs(),
            final(self).status_view() == (if old(self).status_view() == SessionStatus::Synchronizing {
                SessionStatus::Running
            } else {
                old(self).status_view()
            }),
    {
        if self.status == SessionStatus::Synchronizing {
            self.status = SessionStatus::Running;
        }
    }

    /// The peer channel was lost: a synchronizing or running session is
    /// abandoned.
    pub fn disconnected(&mut self)
        requires
            old(self).wf(),
        ensures
            final(self).wf(),
            final(self).same_setup(old(self)),
            final(self).frame_view() == old(self).frame_view(),
            final(self).local_inputs() == old(self).local_inputs(),
            final(self).remote_inputs() == old(self).remote_inputs(),
            final(self).status_view() == (if old(self).status_view() == SessionStatus::Synchronizing
                || old(self).status_view() == SessionStatus::Running {
                SessionStatus::PeerLost
            } else {
                old(self).status_view()
            }),
    {
        if self.status == SessionStatus::Synchronizing || self.status == SessionStatus::Running {
            self.status = SessionStatus::PeerLost;
        }
    }

    /// Compares the peer's checksum of a frame with the local one; a
    /// mismatch is a desync and ends the session.
    pub fn receive_checksum(&mut self, frame: usize, remote: u64) -> (r: ChecksumCheck)
        requires
            old(self).wf(),
        ensures
            final(self).wf(),
            final(self).same_setup(old(self)),
            final(self).frame_view() == old(self).frame_view(),
            final(self).local_inputs() == old(self).local_inputs(),
            final(self).remote_inputs() == old(self).remote_inputs(),
            old(self).status_view() != SessionStatus::Running || frame > old(self).confirmed_view()
                ==> r == ChecksumCheck::Unavailable && final(self).status_view() == old(
                self,
            ).status_view(),
            old(self).status_view() == SessionStatus::Running && frame <= old(self).confirmed_view()
                ==> {
                if remote == checksum_spec(old(self).state_of(frame as nat)) {
                    r == ChecksumCheck::Match && final(self).status_view() == old(self).status_view()
                } else {
                    r == ChecksumCheck::Mismatch && final(self).status_view()
                        == (SessionStatus::Desynced { frame })
                }
            },
    {
        if self.status != SessionStatus::Running || frame >= self.checksums.len() {
            return ChecksumCheck::Unavailable;
        }
        if crate::checksum::checksums_match(self.checksums[frame], remote) {
            ChecksumCheck::Match
        } else {
            self.status = SessionStatus::Desynced { frame };
            ChecksumCheck::Mismatch
        }
    }
}

} // verus!
