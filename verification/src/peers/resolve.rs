//! Which roster a node starts from. The key-value bucket is read first, then
//! the roster file, and a fresh roster is generated only when both are empty.
//! Whichever source wins is mirrored to the other one, so the two backends
//! cannot drift apart.
//!
//! The stores are reached asynchronously, so the decisions stand here as a
//! state machine: the caller performs each action it is handed and reports
//! back what happened.

use vstd::prelude::*;

use super::{copy_roster, fresh_roster, is_fresh_roster, PeerId};
use crate::error::PeerError;

verus! {

/// One of the two places a roster is kept.
#[derive(Clone, Copy, Debug, PartialEq, Eq, Structural)]
pub enum Backend {
    /// The NATS JetStream key-value bucket.
    Kv,
    /// The local roster file.
    File,
}

/// What the caller is to do next.
pub enum ResolveAction {
    /// Load the roster held by a backend.
    Load(Backend),
    /// Save this roster to a backend.
    Save(Backend, Vec<PeerId>),
    /// Resolution is over, with this result.
    Finish(Result<Vec<PeerId>, PeerError>),
}

/// What came of the last action.
pub enum ResolveEvent {
    Loaded(Result<Vec<PeerId>, PeerError>),
    Saved(Result<(), PeerError>),
}

/// Where resolution stands.
pub enum ResolveState {
    /// Waiting for the bucket's roster.
    LoadingKv,
    /// The bucket was empty; waiting for the file's roster.
    LoadingFile,
    /// The bucket's roster won; waiting for it to be written to the file.
    MirroringToFile { peers: Vec<PeerId> },
    /// The file's roster won; waiting for it to be written to the bucket.
    BackfillingKv { peers: Vec<PeerId> },
    /// Both were empty; waiting for the fresh roster to be written to the bucket.
    StoringFreshInKv { peers: Vec<PeerId> },
    /// Waiting for the fresh roster to be written to the file.
    StoringFreshInFile { peers: Vec<PeerId> },
    /// Resolution is over.
    Done,
}

/// A store operation that completed successfully.
pub enum StoreOp {
    Read(Backend, Seq<PeerId>),
    Wrote(Backend, Seq<PeerId>),
}

/// After the operations in `log`, backend `b` holds roster `s`: it was read
/// from there or written there.
pub open spec fn holds(log: Seq<StoreOp>, b: Backend, s: Seq<PeerId>) -> bool {
    exists|i: int| 0 <= i < log.len() && (log[i] == StoreOp::Read(b, s) || log[i] == StoreOp::Wrote(b, s))
}

/// `p` is the roster that wins given what was read: the bucket's if it is
/// not empty, else the file's if that is not empty, else a fresh one.
pub open spec fn winner(log: Seq<StoreOp>, want: usize, p: Seq<PeerId>) -> bool {
    &&& log.len() >= 1
    &&& log[0] matches StoreOp::Read(Backend::Kv, kv)
    &&& if kv.len() > 0 {
        p == kv
    } else {
        &&& log.len() >= 2
        &&& log[1] matches StoreOp::Read(Backend::File, file)
        &&& if file.len() > 0 {
            p == file
        } else {
            is_fresh_roster(p, want)
        }
    }
}

/// The event is the outcome of the kind of action the state waits for.
pub open spec fn accepts(state: ResolveState, event: ResolveEvent) -> bool {
    match state {
        ResolveState::LoadingKv | ResolveState::LoadingFile => event is Loaded,
        ResolveState::Done => false,
        _ => event is Saved,
    }
}

/// The state and the next action after `event` in state `state`.
pub open spec fn step(
    state: ResolveState,
    event: ResolveEvent,
    want: usize,
    next: ResolveState,
    action: ResolveAction,
) -> bool {
    match (state, event) {
        (ResolveState::LoadingKv, ResolveEvent::Loaded(Ok(p))) => if p@.len() > 0 {
            &&& next matches ResolveState::MirroringToFile { peers }
            &&& peers@ == p@
            &&& action matches ResolveAction::Save(Backend::File, q)
            &&& q@ == p@
        } else {
            next is LoadingFile && action == ResolveAction::Load(Backend::File)
        },
        (ResolveState::LoadingFile, ResolveEvent::Loaded(Ok(p))) => if p@.len() > 0 {
            &&& next matches ResolveState::BackfillingKv { peers }
            &&& peers@ == p@
            &&& action matches ResolveAction::Save(Backend::Kv, q)
            &&& q@ == p@
        } else {
            &&& next matches ResolveState::StoringFreshInKv { peers }
            &&& is_fresh_roster(peers@, want)
            &&& action matches ResolveAction::Save(Backend::Kv, q)
            &&& q@ == peers@
        },
        (ResolveState::StoringFreshInKv { peers }, ResolveEvent::Saved(Ok(()))) => {
            &&& next matches ResolveState::StoringFreshInFile { peers: p }
            &&& p@ == peers@
            &&& action matches ResolveAction::Save(Backend::File, q)
            &&& q@ == peers@
        },
        (ResolveState::MirroringToFile { peers }, ResolveEvent::Saved(Ok(())))
        | (ResolveState::BackfillingKv { peers }, ResolveEvent::Saved(Ok(())))
        | (ResolveState::StoringFreshInFile { peers }, ResolveEvent::Saved(Ok(()))) => {
            &&& next is Done
            &&& action matches ResolveAction::Finish(Ok(q))
            &&& q@ == peers@
        },
        (_, ResolveEvent::Loaded(Err(e))) | (_, ResolveEvent::Saved(Err(e))) => {
            &&& next is Done
            &&& action matches ResolveAction::Finish(Err(f))
            &&& f == e
        },
        _ => false,
    }
}

/// The store operation that `event` reports as done, in state `state`.
pub open spec fn completed(state: ResolveState, event: ResolveEvent) -> Seq<StoreOp> {
    match (state, event) {
        (ResolveState::LoadingKv, ResolveEvent::Loaded(Ok(p))) => seq![StoreOp::Read(Backend::Kv, p@)],
        (ResolveState::LoadingFile, ResolveEvent::Loaded(Ok(p))) => seq![StoreOp::Read(Backend::File, p@)],
        (ResolveState::MirroringToFile { peers }, ResolveEvent::Saved(Ok(()))) => seq![StoreOp::Wrote(Backend::File, peers@)],
        (ResolveState::BackfillingKv { peers }, ResolveEvent::Saved(Ok(()))) => seq![StoreOp::Wrote(Backend::Kv, peers@)],
        (ResolveState::StoringFreshInKv { peers }, ResolveEvent::Saved(Ok(()))) => seq![StoreOp::Wrote(Backend::Kv, peers@)],
        (ResolveState::StoringFreshInFile { peers }, ResolveEvent::Saved(Ok(()))) => seq![StoreOp::Wrote(Backend::File, peers@)],
        _ => Seq::empty(),
    }
}

/// Every waiting state takes the outcome of the action it handed out,
/// whether it succeeded or failed: a loading state any `Loaded`, a state
/// that waits for a save any `Saved`; a finished resolution takes nothing.
pub proof fn lemma_waiting_states_accept_outcomes(state: ResolveState, event: ResolveEvent)
    ensures
        (state is LoadingKv || state is LoadingFile) ==> (accepts(state, event) <==> event is Loaded),
        (state is MirroringToFile || state is BackfillingKv || state is StoringFreshInKv
            || state is StoringFreshInFile) ==> (accepts(state, event) <==> event is Saved),
        state is Done ==> !accepts(state, event),
{
}

/// Resolution of the roster, driven by the caller.
pub struct Resolve {
    want: usize,
    state: ResolveState,
    log: Ghost<Seq<StoreOp>>,
}

impl Resolve {
    pub closed spec fn want(&self) -> usize {
        self.want
    }

    pub closed spec fn state(&self) -> ResolveState {
        self.state
    }

    /// The store operations completed so far.
    pub closed spec fn log(&self) -> Seq<StoreOp> {
        self.log@
    }

    /// How the state relates to what the stores did so far.
    pub closed spec fn wf(&self) -> bool {
        let log = self.log@;
        match self.state {
            ResolveState::LoadingKv => log.len() == 0,
            ResolveState::LoadingFile => log == seq![StoreOp::Read(Backend::Kv, Seq::empty())],
            ResolveState::MirroringToFile { peers } => peers@.len() > 0 && log == seq![
                StoreOp::Read(Backend::Kv, peers@),
            ],
            ResolveState::BackfillingKv { peers } => peers@.len() > 0 && log == seq![
                StoreOp::Read(Backend::Kv, Seq::empty()),
                StoreOp::Read(Backend::File, peers@),
            ],
            ResolveState::StoringFreshInKv { peers } => is_fresh_roster(peers@, self.want) && log
                == seq![
                StoreOp::Read(Backend::Kv, Seq::empty()),
                StoreOp::Read(Backend::File, Seq::empty()),
            ],
            ResolveState::StoringFreshInFile { peers } => is_fresh_roster(peers@, self.want) && log
                == seq![
                StoreOp::Read(Backend::Kv, Seq::empty()),
                StoreOp::Read(Backend::File, Seq::empty()),
                StoreOp::Wrote(Backend::Kv, peers@),
            ],
            ResolveState::Done => true,
        }
    }

    /// Starts resolving a roster of `want` peers: the bucket is read first.
    pub fn start(want: usize) -> (r: (Resolve, ResolveAction))
        ensures
            r.0.wf(),
            r.0.want() == want,
            r.0.state() is LoadingKv,
            r.0.log() == Seq::<StoreOp>::empty(),
            r.1 == ResolveAction::Load(Backend::Kv),
            forall|e: ResolveEvent| e is Loaded ==> accepts(r.0.state(), e),
    {
        (Resolve { want, state: ResolveState::LoadingKv, log: Ghost(Seq::empty()) }, ResolveAction::Load(
            Backend::Kv,
        ))
    }

    /// Whether `event` is the outcome of the action this resolution waits for.
    pub fn expects(&self, event: &ResolveEvent) -> (r: bool)
        ensures
            r == accepts(self.state(), *event),
            (self.state() is LoadingKv || self.state() is LoadingFile) ==> (r <==> *event is Loaded),
            (self.state() is MirroringToFile || self.state() is BackfillingKv || self.state() is StoringFreshInKv
                || self.state() is StoringFreshInFile) ==> (r <==> *event is Saved),
            self.state() is Done ==> !r,
    {
        match (&self.state, event) {
            (ResolveState::LoadingKv, ResolveEvent::Loaded(_)) => true,
            (ResolveState::LoadingFile, ResolveEvent::Loaded(_)) => true,
            (ResolveState::MirroringToFile { .. }, ResolveEvent::Saved(_)) => true,
            (ResolveState::BackfillingKv { .. }, ResolveEvent::Saved(_)) => true,
            (ResolveState::StoringFreshInKv { .. }, ResolveEvent::Saved(_)) => true,
            (ResolveState::StoringFreshInFile { .. }, ResolveEvent::Saved(_)) => true,
            _ => false,
        }
    }

    /// Takes in the outcome of the last action and returns the next one. A
    /// failed load or save ends resolution with that error. When resolution
    /// ends with a roster, both backends hold it, and it is the roster that
    /// wins by the order bucket, file, fresh.
    pub fn advance(self, event: ResolveEvent) -> (r: (Resolve, ResolveAction))
        requires
            self.wf(),
            accepts(self.state(), event),
        ensures
            r.0.wf(),
            r.0.want() == self.want(),
            step(self.state(), event, self.want(), r.0.state(), r.1),
            r.0.log() == self.log() + completed(self.state(), event),
            event matches ResolveEvent::Loaded(Err(e)) ==> {
                &&& r.0.state() is Done
                &&& r.1 matches ResolveAction::Finish(Err(f))
                &&& f == e
                &&& r.0.log() == self.log()
            },
            event matches ResolveEvent::Saved(Err(e)) ==> {
                &&& r.0.state() is Done
                &&& r.1 matches ResolveAction::Finish(Err(f))
                &&& f == e
                &&& r.0.log() == self.log()
            },
            r.1 is Load ==> forall|e: ResolveEvent| e is Loaded ==> accepts(r.0.state(), e),
            r.1 is Save ==> forall|e: ResolveEvent| e is Saved ==> accepts(r.0.state(), e),
            r.1 is Finish ==> r.0.state() is Done,
            r.0.log().len() > self.log().len() ==> match event {
                ResolveEvent::Loaded(res) => res is Ok,
                ResolveEvent::Saved(res) => res is Ok,
            },
            r.1 matches ResolveAction::Finish(Ok(p)) ==> {
                &&& holds(r.0.log(), Backend::Kv, p@)
                &&& holds(r.0.log(), Backend::File, p@)
                &&& winner(r.0.log(), self.want(), p@)
            },
    {
        let Resolve { want, state, log } = self;
        match state {
            ResolveState::LoadingKv => match event {
                ResolveEvent::Loaded(Ok(peers)) => {
                    let ghost next_log = log@.push(StoreOp::Read(Backend::Kv, peers@));
                    if peers.len() > 0 {
                        let copy = copy_roster(&peers);
                        proof {
                            assert(next_log =~= seq![StoreOp::Read(Backend::Kv, peers@)]);
                        }
                        (
                            Resolve { want, state: ResolveState::MirroringToFile { peers: copy }, log: Ghost(next_log) },
                            ResolveAction::Save(Backend::File, peers),
                        )
                    } else {
                        proof {
                            assert(peers@ =~= Seq::<PeerId>::empty());
                            assert(next_log =~= seq![StoreOp::Read(Backend::Kv, Seq::empty())]);
                        }
                        (
                            Resolve { want, state: ResolveState::LoadingFile, log: Ghost(next_log) },
                            ResolveAction::Load(Backend::File),
                        )
                    }
                },
                ResolveEvent::Loaded(Err(e)) => (
                    Resolve { want, state: ResolveState::Done, log },
                    ResolveAction::Finish(Err(e)),
                ),
                ResolveEvent::Saved(_) => (Resolve { want, state: ResolveState::Done, log }, ResolveAction::Load(Backend::Kv)),
            },
            ResolveState::LoadingFile => match event {
                ResolveEvent::Loaded(Ok(peers)) => {
                    let ghost next_log = log@.push(StoreOp::Read(Backend::File, peers@));
                    if peers.len() > 0 {
                        let copy = copy_roster(&peers);
                        proof {
                            assert(next_log =~= seq![
                                StoreOp::Read(Backend::Kv, Seq::empty()),
                                StoreOp::Read(Backend::File, peers@),
                            ]);
                        }
                        (
                            Resolve { want, state: ResolveState::BackfillingKv { peers: copy }, log: Ghost(next_log) },
                            ResolveAction::Save(Backend::Kv, peers),
                        )
                    } else {
                        proof {
                            assert(peers@ =~= Seq::<PeerId>::empty());
                            assert(next_log =~= seq![
                                StoreOp::Read(Backend::Kv, Seq::empty()),
                                StoreOp::Read(Backend::File, Seq::empty()),
                            ]);
                        }
                        let fresh = fresh_roster(want);
                        let copy = copy_roster(&fresh);
                        (
                            Resolve { want, state: ResolveState::StoringFreshInKv { peers: copy }, log: Ghost(next_log) },
                            ResolveAction::Save(Backend::Kv, fresh),
                        )
                    }
                },
                ResolveEvent::Loaded(Err(e)) => (
                    Resolve { want, state: ResolveState::Done, log },
                    ResolveAction::Finish(Err(e)),
                ),
                ResolveEvent::Saved(_) => (Resolve { want, state: ResolveState::Done, log }, ResolveAction::Load(Backend::Kv)),
            },
            ResolveState::MirroringToFile { peers } => match event {
                ResolveEvent::Saved(Ok(())) => {
                    let ghost next_log = log@.push(StoreOp::Wrote(Backend::File, peers@));
                    proof {
                        assert(next_log[0] == StoreOp::Read(Backend::Kv, peers@));
                        assert(next_log[1] == StoreOp::Wrote(Backend::File, peers@));
                    }
                    (Resolve { want, state: ResolveState::Done, log: Ghost(next_log) }, ResolveAction::Finish(Ok(peers)))
                },
                ResolveEvent::Saved(Err(e)) => (
                    Resolve { want, state: ResolveState::Done, log },
                    ResolveAction::Finish(Err(e)),
                ),
                ResolveEvent::Loaded(_) => (Resolve { want, state: ResolveState::Done, log }, ResolveAction::Load(Backend::Kv)),
            },
            ResolveState::BackfillingKv { peers } => match event {
                ResolveEvent::Saved(Ok(())) => {
                    let ghost next_log = log@.push(StoreOp::Wrote(Backend::Kv, peers@));
                    proof {
                        assert(next_log[1] == StoreOp::Read(Backend::File, peers@));
                        assert(next_log[2] == StoreOp::Wrote(Backend::Kv, peers@));
                    }
                    (Resolve { want, state: ResolveState::Done, log: Ghost(next_log) }, ResolveAction::Finish(Ok(peers)))
                },
                ResolveEvent::Saved(Err(e)) => (
                    Resolve { want, state: ResolveState::Done, log },
                    ResolveAction::Finish(Err(e)),
                ),
                ResolveEvent::Loaded(_) => (Resolve { want, state: ResolveState::Done, log }, ResolveAction::Load(Backend::Kv)),
            },
            ResolveState::StoringFreshInKv { peers } => match event {
                ResolveEvent::Saved(Ok(())) => {
                    let ghost next_log = log@.push(StoreOp::Wrote(Backend::Kv, peers@));
                    let copy = copy_roster(&peers);
                    proof {
                        assert(next_log =~= seq![
                            StoreOp::Read(Backend::Kv, Seq::empty()),
                            StoreOp::Read(Backend::File, Seq::empty()),
                            StoreOp::Wrote(Backend::Kv, peers@),
                        ]);
                    }
                    (
                        Resolve { want, state: ResolveState::StoringFreshInFile { peers: copy }, log: Ghost(next_log) },
                        ResolveAction::Save(Backend::File, peers),
                    )
                },
                ResolveEvent::Saved(Err(e)) => (
                    Resolve { want, state: ResolveState::Done, log },
                    ResolveAction::Finish(Err(e)),
                ),
                ResolveEvent::Loaded(_) => (Resolve { want, state: ResolveState::Done, log }, ResolveAction::Load(Backend::Kv)),
            },
            ResolveState::StoringFreshInFile { peers } => match event {
                ResolveEvent::Saved(Ok(())) => {
                    let ghost next_log = log@.push(StoreOp::Wrote(Backend::File, peers@));
                    proof {
                        assert(next_log[2] == StoreOp::Wrote(Backend::Kv, peers@));
                        assert(next_log[3] == StoreOp::Wrote(Backend::File, peers@));
                    }
                    (Resolve { want, state: ResolveState::Done, log: Ghost(next_log) }, ResolveAction::Finish(Ok(peers)))
                },
                ResolveEvent::Saved(Err(e)) => (
                    Resolve { want, state: ResolveState::Done, log },
                    ResolveAction::Finish(Err(e)),
                ),
                ResolveEvent::Loaded(_) => (Resolve { want, state: ResolveState::Done, log }, ResolveAction::Load(Backend::Kv)),
            },
            ResolveState::Done => (Resolve { want, state: ResolveState::Done, log }, ResolveAction::Load(Backend::Kv)),
        }
    }
}

} // verus!
