use vstd::prelude::*;

use crate::bangs::Bang;
use crate::bangs::BangView;
use crate::codec::decode;
use crate::codec::decode_spec;
use crate::codec::encode;
use crate::codec::encode_spec;
use crate::codec::find_first;
use crate::codec::find_in;
use crate::codec::fresh_file;
use crate::codec::remove_all;
use crate::codec::remove_from;
use crate::codec::append_to;

verus! {

// ---------------------------------------------------------------------------
// Errors and outcomes
// ---------------------------------------------------------------------------

/// The typed failures of a store operation: an alias that is not present
/// (carrying the alias), an I/O failure (carrying the underlying error
/// text), and the unrecoverable failure to create the store file on first
/// use, kept distinct because nothing can proceed without the file.
#[derive(Debug, PartialEq, Eq)]
pub enum StoreError {
    NotFound(String),
    Io(String),
    Setup(String),
}

pub enum StoreErrorView {
    NotFound(Seq<char>),
    Io(Seq<char>),
    Setup(Seq<char>),
}

impl View for StoreError {
    type V = StoreErrorView;

    open spec fn view(&self) -> StoreErrorView {
        match self {
            StoreError::NotFound(a) => StoreErrorView::NotFound(a@),
            StoreError::Io(m) => StoreErrorView::Io(m@),
            StoreError::Setup(m) => StoreErrorView::Setup(m@),
        }
    }
}

/// What a successful operation hands back.
#[derive(Debug, PartialEq, Eq)]
pub enum Outcome {
    Listed(Vec<Bang>),
    Found(Bang),
    Saved,
    Removed,
}

pub enum OutcomeView {
    Listed(Seq<BangView>),
    Found(BangView),
    Saved,
    Removed,
}

impl View for Outcome {
    type V = OutcomeView;

    open spec fn view(&self) -> OutcomeView {
        match self {
            Outcome::Listed(v) => OutcomeView::Listed(v@.map_values(|b: Bang| b@)),
            Outcome::Found(b) => OutcomeView::Found(b@),
            Outcome::Saved => OutcomeView::Saved,
            Outcome::Removed => OutcomeView::Removed,
        }
    }
}

// ---------------------------------------------------------------------------
// Operations, actions and events
// ---------------------------------------------------------------------------

/// One store operation, fixed when the machine is started.
#[derive(Debug)]
pub enum StoreOp {
    List,
    Find(String),
    Add(Bang),
    Remove(String),
}

pub enum StoreOpView {
    List,
    Find(Seq<char>),
    Add(BangView),
    Remove(Seq<char>),
}

impl View for StoreOp {
    type V = StoreOpView;

    open spec fn view(&self) -> StoreOpView {
        match self {
            StoreOp::List => StoreOpView::List,
            StoreOp::Find(a) => StoreOpView::Find(a@),
            StoreOp::Add(b) => StoreOpView::Add(b@),
            StoreOp::Remove(a) => StoreOpView::Remove(a@),
        }
    }
}

/// What the driver is asked to do next.  Every action works on the two
/// fixed paths of the store:
/// - `Probe`: report whether the store file exists (`Event::Probed`).
/// - `CreateEmpty`: create the store file holding the fresh placeholder.
/// - `ReadStore`: read the store file to a string (`Event::ReadDone`).
/// - `Snapshot`: copy the store file over the backup file.
/// - `Truncate`: truncate the store file to length zero.
/// - `Rewind`: reset the write position to the start of the file.
/// - `WriteStore`: write the given text into the store file.
/// - `Restore`: delete the store file and rename the backup into its place.
/// - `Finish`: nothing; the operation is over with this result.
///
/// Except for `Probe`, `ReadStore` and `Finish`, the driver answers with
/// `Event::Succeeded` or `Event::Failed`.
#[derive(Debug)]
pub enum Action {
    Probe,
    CreateEmpty,
    ReadStore,
    Snapshot,
    Truncate,
    Rewind,
    WriteStore(String),
    Restore,
    Finish(Result<Outcome, StoreError>),
}

pub enum ActionView {
    Probe,
    CreateEmpty,
    ReadStore,
    Snapshot,
    Truncate,
    Rewind,
    WriteStore(Seq<char>),
    Restore,
    Finish(Result<OutcomeView, StoreErrorView>),
}

impl View for Action {
    type V = ActionView;

    open spec fn view(&self) -> ActionView {
        match self {
            Action::Probe => ActionView::Probe,
            Action::CreateEmpty => ActionView::CreateEmpty,
            Action::ReadStore => ActionView::ReadStore,
            Action::Snapshot => ActionView::Snapshot,
            Action::Truncate => ActionView::Truncate,
            Action::Rewind => ActionView::Rewind,
            Action::WriteStore(c) => ActionView::WriteStore(c@),
            Action::Finish(res) => ActionView::Finish(
                match res {
                    Ok(o) => Ok(o@),
                    Err(e) => Err(e@),
                },
            ),
            Action::Restore => ActionView::Restore,
        }
    }
}

/// The driver's answer to the last action.  `Begin` starts the run;
/// `Failed` carries the underlying error text.
#[derive(Debug)]
pub enum Event {
    Begin,
    Probed(bool),
    Succeeded,
    Failed(String),
    ReadDone(String),
}

pub enum EventView {
    Begin,
    Probed(bool),
    Succeeded,
    Failed(Seq<char>),
    ReadDone(Seq<char>),
}

impl View for Event {
    type V = EventView;

    open spec fn view(&self) -> EventView {
        match self {
            Event::Begin => EventView::Begin,
            Event::Probed(b) => EventView::Probed(*b),
            Event::Succeeded => EventView::Succeeded,
            Event::Failed(m) => EventView::Failed(m@),
            Event::ReadDone(c) => EventView::ReadDone(c@),
        }
    }
}

// ---------------------------------------------------------------------------
// The operation machine
// ---------------------------------------------------------------------------

/// Where the machine stands.  The mutation phases carry the text that is to
/// be written; the restore phase carries the error that triggered it.
#[derive(Debug)]
pub enum Phase {
    Ready,
    Probing,
    Creating,
    Reading,
    Snapshotting(String),
    Truncating(String),
    Rewinding(String),
    Writing(String),
    Restoring(String),
    Finished,
}

pub enum PhaseView {
    Ready,
    Probing,
    Creating,
    Reading,
    Snapshotting(Seq<char>),
    Truncating(Seq<char>),
    Rewinding(Seq<char>),
    Writing(Seq<char>),
    Restoring(Seq<char>),
    Finished,
}

impl View for Phase {
    type V = PhaseView;

    open spec fn view(&self) -> PhaseView {
        match self {
            Phase::Ready => PhaseView::Ready,
            Phase::Probing => PhaseView::Probing,
            Phase::Creating => PhaseView::Creating,
            Phase::Reading => PhaseView::Reading,
            Phase::Snapshotting(c) => PhaseView::Snapshotting(c@),
            Phase::Truncating(c) => PhaseView::Truncating(c@),
            Phase::Rewinding(c) => PhaseView::Rewinding(c@),
            Phase::Writing(c) => PhaseView::Writing(c@),
            Phase::Restoring(m) => PhaseView::Restoring(m@),
            Phase::Finished => PhaseView::Finished,
        }
    }
}

/// One store operation in progress: every public store call hands one of
/// these to its driver, which performs each requested `Action` and answers
/// with the matching `Event` until `Action::Finish` carries the result.
#[derive(Debug)]
pub struct Machine {
    op: StoreOp,
    phase: Phase,
}

pub struct MachineView {
    pub op: StoreOpView,
    pub phase: PhaseView,
}

impl View for Machine {
    type V = MachineView;

    closed spec fn view(&self) -> MachineView {
        MachineView { op: self.op@, phase: self.phase@ }
    }
}

pub open spec fn init_machine(op: StoreOpView) -> MachineView {
    MachineView { op, phase: PhaseView::Ready }
}

/// What a mutation reports when its rewrite went through.
pub open spec fn success_outcome(op: StoreOpView) -> OutcomeView {
    match op {
        StoreOpView::Add(_) => OutcomeView::Saved,
        _ => OutcomeView::Removed,
    }
}

/// The decision taken once the store text has been read: queries finish at
/// once; mutations compute the full text to be written and move on to the
/// backup step.  Content that does not decode is an empty document here,
/// never an error.
pub open spec fn read_step(op: StoreOpView, content: Seq<char>) -> (PhaseView, ActionView) {
    let rs = decode_spec(content);
    match op {
        StoreOpView::List => (
            PhaseView::Finished,
            ActionView::Finish(Ok(OutcomeView::Listed(rs))),
        ),
        StoreOpView::Find(a) => match find_first(rs, a) {
            Some(b) => (PhaseView::Finished, ActionView::Finish(Ok(OutcomeView::Found(b)))),
            None => (
                PhaseView::Finished,
                ActionView::Finish(Err(StoreErrorView::NotFound(a))),
            ),
        },
        StoreOpView::Add(b) => (
            PhaseView::Snapshotting(encode_spec(rs.push(b))),
            ActionView::Snapshot,
        ),
        StoreOpView::Remove(a) => if find_first(rs, a) is Some {
            (PhaseView::Snapshotting(encode_spec(remove_all(rs, a))), ActionView::Snapshot)
        } else {
            (PhaseView::Finished, ActionView::Finish(Err(StoreErrorView::NotFound(a))))
        },
    }
}

/// The machine stopped on an event no faithful driver sends.
pub open spec fn halt_step(op: StoreOpView) -> (MachineView, ActionView) {
    (
        MachineView { op, phase: PhaseView::Finished },
        ActionView::Finish(Err(StoreErrorView::Setup(Seq::empty()))),
    )
}

/// The complete transition function of one store operation.
///
/// Failure handling follows the backup protocol: before the backup is
/// taken, and while nothing destructive has happened (create, read,
/// snapshot, or a truncation the filesystem refused outright), the error is
/// returned as it is.  Once the truncation has begun (the position reset or
/// the rewrite fails partway), the backup is restored before the error is
/// returned, so the store file is returned to its pre-mutation state rather
/// than left empty.  A failure of the restore itself is terminal and is
/// surfaced to the caller.
pub open spec fn step_spec(m: MachineView, ev: EventView) -> (MachineView, ActionView) {
    match m.phase {
        PhaseView::Ready => match ev {
            EventView::Begin => (
                MachineView { op: m.op, phase: PhaseView::Probing },
                ActionView::Probe,
            ),
            _ => halt_step(m.op),
        },
        PhaseView::Probing => match ev {
            EventView::Probed(true) => (
                MachineView { op: m.op, phase: PhaseView::Reading },
                ActionView::ReadStore,
            ),
            EventView::Probed(false) => (
                MachineView { op: m.op, phase: PhaseView::Creating },
                ActionView::CreateEmpty,
            ),
            _ => halt_step(m.op),
        },
        PhaseView::Creating => match ev {
            EventView::Succeeded => (
                MachineView { op: m.op, phase: PhaseView::Reading },
                ActionView::ReadStore,
            ),
            EventView::Failed(msg) => (
                MachineView { op: m.op, phase: PhaseView::Finished },
                ActionView::Finish(Err(StoreErrorView::Setup(msg))),
            ),
            _ => halt_step(m.op),
        },
        PhaseView::Reading => match ev {
            EventView::ReadDone(c) => {
                let sa = read_step(m.op, c);
                (MachineView { op: m.op, phase: sa.0 }, sa.1)
            },
            EventView::Failed(msg) => (
                MachineView { op: m.op, phase: PhaseView::Finished },
                ActionView::Finish(Err(StoreErrorView::Io(msg))),
            ),
            _ => halt_step(m.op),
        },
        PhaseView::Snapshotting(out) => match ev {
            EventView::Succeeded => (
                MachineView { op: m.op, phase: PhaseView::Truncating(out) },
                ActionView::Truncate,
            ),
            EventView::Failed(msg) => (
                MachineView { op: m.op, phase: PhaseView::Finished },
                ActionView::Finish(Err(StoreErrorView::Io(msg))),
            ),
            _ => halt_step(m.op),
        },
        PhaseView::Truncating(out) => match ev {
            EventView::Succeeded => (
                MachineView { op: m.op, phase: PhaseView::Rewinding(out) },
                ActionView::Rewind,
            ),
            EventView::Failed(msg) => (
                MachineView { op: m.op, phase: PhaseView::Finished },
                ActionView::Finish(Err(StoreErrorView::Io(msg))),
            ),
            _ => halt_step(m.op),
        },
        PhaseView::Rewinding(out) => match ev {
            EventView::Succeeded => (
                MachineView { op: m.op, phase: PhaseView::Writing(out) },
                ActionView::WriteStore(out),
            ),
            EventView::Failed(msg) => (
                MachineView { op: m.op, phase: PhaseView::Restoring(msg) },
                ActionView::Restore,
            ),
            _ => halt_step(m.op),
        },
        PhaseView::Writing(_) => match ev {
            EventView::Succeeded => (
                MachineView { op: m.op, phase: PhaseView::Finished },
                ActionView::Finish(Ok(success_outcome(m.op))),
            ),
            EventView::Failed(msg) => (
                MachineView { op: m.op, phase: PhaseView::Restoring(msg) },
                ActionView::Restore,
            ),
            _ => halt_step(m.op),
        },
        PhaseView::Restoring(msg) => match ev {
            EventView::Succeeded => (
                MachineView { op: m.op, phase: PhaseView::Finished },
                ActionView::Finish(Err(StoreErrorView::Io(msg))),
            ),
            EventView::Failed(msg2) => (
                MachineView { op: m.op, phase: PhaseView::Finished },
                ActionView::Finish(Err(StoreErrorView::Io(msg2))),
            ),
            _ => halt_step(m.op),
        },
        PhaseView::Finished => halt_step(m.op),
    }
}

fn halted(op: StoreOp) -> (r: (Machine, Action))
    ensures
        r.0@ == (MachineView { op: op@, phase: PhaseView::Finished }),
        r.1@ == ActionView::Finish(Err(StoreErrorView::Setup(Seq::<char>::empty()))),
{
    (
        Machine { op, phase: Phase::Finished },
        Action::Finish(Err(StoreError::Setup(String::new()))),
    )
}

impl Machine {
    pub(crate) fn start(op: StoreOp) -> (m: Machine)
        ensures
            m@ == init_machine(op@),
    {
        Machine { op, phase: Phase::Ready }
    }

    /// Takes the driver's answer to the last action and hands back the
    /// machine in its next phase together with the next action: exactly the
    /// transition `step_spec` describes.
    #[verifier::rlimit(80)]
    pub fn step(self, ev: Event) -> (r: (Machine, Action))
        ensures
            r.0@ == step_spec(self@, ev@).0,
            r.1@ == step_spec(self@, ev@).1,
    {
        let Machine { op, phase } = self;
        match phase {
            Phase::Ready => match ev {
                Event::Begin => (Machine { op, phase: Phase::Probing }, Action::Probe),
                _ => halted(op),
            },
            Phase::Probing => match ev {
                Event::Probed(true) => (
                    Machine { op, phase: Phase::Reading },
                    Action::ReadStore,
                ),
                Event::Probed(false) => (
                    Machine { op, phase: Phase::Creating },
                    Action::CreateEmpty,
                ),
                _ => halted(op),
            },
            Phase::Creating => match ev {
                Event::Succeeded => (Machine { op, phase: Phase::Reading }, Action::ReadStore),
                Event::Failed(msg) => (
                    Machine { op, phase: Phase::Finished },
                    Action::Finish(Err(StoreError::Setup(msg))),
                ),
                _ => halted(op),
            },
            Phase::Reading => match ev {
                Event::ReadDone(c) => {
                    let doc = decode(c.as_str());
                    match op {
                        StoreOp::List => (
                            Machine { op: StoreOp::List, phase: Phase::Finished },
                            Action::Finish(Ok(Outcome::Listed(doc.records))),
                        ),
                        StoreOp::Find(a) => match find_in(&doc, &a) {
                            Some(b) => (
                                Machine { op: StoreOp::Find(a), phase: Phase::Finished },
                                Action::Finish(Ok(Outcome::Found(b))),
                            ),
                            None => (
                                Machine { op: StoreOp::Find(a.clone()), phase: Phase::Finished },
                                Action::Finish(Err(StoreError::NotFound(a))),
                            ),
                        },
                        StoreOp::Add(b) => {
                            let doc2 = append_to(doc, b.clone());
                            let out = encode(&doc2);
                            (
                                Machine { op: StoreOp::Add(b), phase: Phase::Snapshotting(out) },
                                Action::Snapshot,
                            )
                        },
                        StoreOp::Remove(a) => match find_in(&doc, &a) {
                            Some(_) => {
                                let doc2 = remove_from(doc, &a);
                                let out = encode(&doc2);
                                (
                                    Machine {
                                        op: StoreOp::Remove(a),
                                        phase: Phase::Snapshotting(out),
                                    },
                                    Action::Snapshot,
                                )
                            },
                            None => (
                                Machine { op: StoreOp::Remove(a.clone()), phase: Phase::Finished },
                                Action::Finish(Err(StoreError::NotFound(a))),
                            ),
                        },
                    }
                },
                Event::Failed(msg) => (
                    Machine { op, phase: Phase::Finished },
                    Action::Finish(Err(StoreError::Io(msg))),
                ),
                _ => halted(op),
            },
            Phase::Snapshotting(out) => match ev {
                Event::Succeeded => (
                    Machine { op, phase: Phase::Truncating(out) },
                    Action::Truncate,
                ),
                Event::Failed(msg) => (
                    Machine { op, phase: Phase::Finished },
                    Action::Finish(Err(StoreError::Io(msg))),
                ),
                _ => halted(op),
            },
            Phase::Truncating(out) => match ev {
                Event::Succeeded => (
                    Machine { op, phase: Phase::Rewinding(out) },
                    Action::Rewind,
                ),
                Event::Failed(msg) => (
                    Machine { op, phase: Phase::Finished },
                    Action::Finish(Err(StoreError::Io(msg))),
                ),
                _ => halted(op),
            },
            Phase::Rewinding(out) => match ev {
                Event::Succeeded => {
                    let out2 = out.clone();
                    (
                        Machine { op, phase: Phase::Writing(out) },
                        Action::WriteStore(out2),
                    )
                },
                Event::Failed(msg) => (
                    Machine { op, phase: Phase::Restoring(msg) },
                    Action::Restore,
                ),
                _ => halted(op),
            },
            Phase::Writing(_) => match ev {
                Event::Succeeded => {
                    let out = match &op {
                        StoreOp::Add(_) => Outcome::Saved,
                        _ => Outcome::Removed,
                    };
                    (Machine { op, phase: Phase::Finished }, Action::Finish(Ok(out)))
                },
                Event::Failed(msg) => (
                    Machine { op, phase: Phase::Restoring(msg) },
                    Action::Restore,
                ),
                _ => halted(op),
            },
            Phase::Restoring(msg) => match ev {
                Event::Succeeded => (
                    Machine { op, phase: Phase::Finished },
                    Action::Finish(Err(StoreError::Io(msg))),
                ),
                Event::Failed(msg2) => (
                    Machine { op, phase: Phase::Finished },
                    Action::Finish(Err(StoreError::Io(msg2))),
                ),
                _ => halted(op),
            },
            Phase::Finished => halted(op),
        }
    }
}

// ---------------------------------------------------------------------------
// The filesystem as the machine sees it, and what whole runs do to it
// ---------------------------------------------------------------------------

/// The two files of the store as plain values; `None` is an absent file.
pub struct FsView {
    pub store: Option<Seq<char>>,
    pub backup: Option<Seq<char>>,
}

/// What a successful action leaves on disk when a faithful driver performs
/// it on the two paths.
pub open spec fn apply_action(fs: FsView, a: ActionView) -> FsView {
    match a {
        ActionView::CreateEmpty => FsView { store: Some(fresh_file()), backup: fs.backup },
        ActionView::Snapshot => FsView { store: fs.store, backup: fs.store },
        ActionView::Truncate => FsView { store: Some(Seq::empty()), backup: fs.backup },
        ActionView::WriteStore(c) => FsView { store: Some(c), backup: fs.backup },
        ActionView::Restore => FsView { store: fs.backup, backup: None },
        _ => fs,
    }
}

/// The event a successful action reports back.
pub open spec fn ok_event(fs: FsView, a: ActionView) -> EventView {
    match a {
        ActionView::Probe => EventView::Probed(fs.store is Some),
        ActionView::ReadStore => match fs.store {
            Some(c) => EventView::ReadDone(c),
            None => EventView::Failed(Seq::empty()),
        },
        _ => EventView::Succeeded,
    }
}

/// A run in which every filesystem action succeeds, from the given phase
/// on: the final result and the final state of the two files, or `None`
/// when the machine does not finish within `fuel` steps.
pub open spec fn run_ok(m: MachineView, a: ActionView, fs: FsView, fuel: nat) -> Option<
    (Result<OutcomeView, StoreErrorView>, FsView),
>
    decreases fuel,
{
    match a {
        ActionView::Finish(res) => Some((res, fs)),
        _ => if fuel == 0 {
            None
        } else {
            let sa = step_spec(m, ok_event(fs, a));
            run_ok(sa.0, sa.1, apply_action(fs, a), (fuel - 1) as nat)
        },
    }
}

/// A whole operation, run from its start.
pub open spec fn run_from_start(op: StoreOpView, fs: FsView, fuel: nat) -> Option<
    (Result<OutcomeView, StoreErrorView>, FsView),
> {
    let sa = step_spec(init_machine(op), EventView::Begin);
    run_ok(sa.0, sa.1, fs, fuel)
}

/// Ensure-exists is idempotent: when the store file is already there, the
/// ensuring step only probes and reads on, and neither of those actions
/// alters a file.  Only an absent file triggers creation.
pub proof fn lemma_ensure_exists_idempotent(op: StoreOpView, fs: FsView)
    requires
        fs.store is Some,
    ensures
        step_spec(MachineView { op, phase: PhaseView::Probing }, ok_event(fs, ActionView::Probe))
            == (MachineView { op, phase: PhaseView::Reading }, ActionView::ReadStore),
        apply_action(fs, ActionView::Probe) == fs,
        apply_action(fs, ActionView::ReadStore) == fs,
{
}

/// A query never alters either file, and content that does not decode is
/// an empty document rather than an error: with the store file present,
/// listing returns exactly what its text decodes to, and lookup returns
/// the first record of the alias or the not-found error, the files ending
/// exactly as they began.
pub proof fn lemma_query_run(op: StoreOpView, fs: FsView, c: Seq<char>)
    requires
        fs.store == Some(c),
        op is List || op is Find,
    ensures
        run_from_start(op, fs, 4) == Some(
            (
                match op {
                    StoreOpView::Find(a) => match find_first(decode_spec(c), a) {
                        Some(b) => Ok(OutcomeView::Found(b)),
                        None => Err(StoreErrorView::NotFound(a)),
                    },
                    _ => Ok::<OutcomeView, StoreErrorView>(OutcomeView::Listed(decode_spec(c))),
                },
                fs,
            ),
        ),
{
    let m1 = MachineView { op, phase: PhaseView::Probing };
    let m2 = MachineView { op, phase: PhaseView::Reading };
    assert(step_spec(init_machine(op), EventView::Begin) == (m1, ActionView::Probe));
    assert(ok_event(fs, ActionView::Probe) == EventView::Probed(true));
    assert(apply_action(fs, ActionView::Probe) == fs);
    assert(step_spec(m1, EventView::Probed(true)) == (m2, ActionView::ReadStore));
    assert(ok_event(fs, ActionView::ReadStore) == EventView::ReadDone(c));
    assert(apply_action(fs, ActionView::ReadStore) == fs);
    let sa = step_spec(m2, EventView::ReadDone(c));
    assert(run_from_start(op, fs, 4) == run_ok(m1, ActionView::Probe, fs, 4));
    assert(run_ok(m1, ActionView::Probe, fs, 4) == run_ok(m2, ActionView::ReadStore, fs, 3));
    assert(run_ok(m2, ActionView::ReadStore, fs, 3) == run_ok(sa.0, sa.1, fs, 2));
    match op {
        StoreOpView::List => {
            assert(sa.1 == ActionView::Finish(Ok(OutcomeView::Listed(decode_spec(c)))));
        },
        StoreOpView::Find(a) => {
            match find_first(decode_spec(c), a) {
                Some(b) => {
                    assert(sa.1 == ActionView::Finish(Ok(OutcomeView::Found(b))));
                },
                None => {
                    assert(sa.1 == ActionView::Finish(Err(StoreErrorView::NotFound(a))));
                },
            }
        },
        _ => {},
    }
}

/// Backup freshness and the outcome of a successful mutation: when every
/// filesystem action succeeds, a mutating operation finishes successfully,
/// the backup file holds exactly the text the store file held immediately
/// before the call, and the store file holds the encoded updated document.
pub proof fn lemma_mutation_run(op: StoreOpView, fs: FsView, c: Seq<char>)
    requires
        fs.store == Some(c),
        match op {
            StoreOpView::Add(_) => true,
            StoreOpView::Remove(a) => find_first(decode_spec(c), a) is Some,
            _ => false,
        },
    ensures
        run_from_start(op, fs, 8) == Some(
            (
                Ok::<OutcomeView, StoreErrorView>(success_outcome(op)),
                FsView {
                    store: Some(
                        match op {
                            StoreOpView::Add(b) => encode_spec(decode_spec(c).push(b)),
                            StoreOpView::Remove(a) => encode_spec(remove_all(decode_spec(c), a)),
                            _ => Seq::empty(),
                        },
                    ),
                    backup: Some(c),
                },
            ),
        ),
{
    let out = match op {
        StoreOpView::Add(b) => encode_spec(decode_spec(c).push(b)),
        StoreOpView::Remove(a) => encode_spec(remove_all(decode_spec(c), a)),
        _ => Seq::empty(),
    };
    let m1 = MachineView { op, phase: PhaseView::Probing };
    let m2 = MachineView { op, phase: PhaseView::Reading };
    let m3 = MachineView { op, phase: PhaseView::Snapshotting(out) };
    let m4 = MachineView { op, phase: PhaseView::Truncating(out) };
    let m5 = MachineView { op, phase: PhaseView::Rewinding(out) };
    let m6 = MachineView { op, phase: PhaseView::Writing(out) };
    let fs1 = FsView { store: Some(c), backup: Some(c) };
    let fs2 = FsView { store: Some(Seq::empty()), backup: Some(c) };
    let fs3 = FsView { store: Some(out), backup: Some(c) };
    assert(step_spec(init_machine(op), EventView::Begin) == (m1, ActionView::Probe));
    assert(ok_event(fs, ActionView::Probe) == EventView::Probed(true));
    assert(apply_action(fs, ActionView::Probe) == fs);
    assert(step_spec(m1, EventView::Probed(true)) == (m2, ActionView::ReadStore));
    assert(ok_event(fs, ActionView::ReadStore) == EventView::ReadDone(c));
    assert(apply_action(fs, ActionView::ReadStore) == fs);
    assert(step_spec(m2, EventView::ReadDone(c)) == (m3, ActionView::Snapshot));
    assert(apply_action(fs, ActionView::Snapshot) == fs1);
    assert(step_spec(m3, EventView::Succeeded) == (m4, ActionView::Truncate));
    assert(apply_action(fs1, ActionView::Truncate) == fs2);
    assert(step_spec(m4, EventView::Succeeded) == (m5, ActionView::Rewind));
    assert(apply_action(fs2, ActionView::Rewind) == fs2);
    assert(step_spec(m5, EventView::Succeeded) == (m6, ActionView::WriteStore(out)));
    assert(apply_action(fs2, ActionView::WriteStore(out)) == fs3);
    assert(step_spec(m6, EventView::Succeeded) == (
        MachineView { op, phase: PhaseView::Finished },
        ActionView::Finish(Ok(success_outcome(op))),
    ));
    assert(run_from_start(op, fs, 8) == run_ok(m1, ActionView::Probe, fs, 8));
    assert(run_ok(m1, ActionView::Probe, fs, 8) == run_ok(m2, ActionView::ReadStore, fs, 7));
    assert(run_ok(m2, ActionView::ReadStore, fs, 7) == run_ok(m3, ActionView::Snapshot, fs, 6));
    assert(run_ok(m3, ActionView::Snapshot, fs, 6) == run_ok(m4, ActionView::Truncate, fs1, 5));
    assert(run_ok(m4, ActionView::Truncate, fs1, 5) == run_ok(m5, ActionView::Rewind, fs2, 4));
    assert(run_ok(m5, ActionView::Rewind, fs2, 4) == run_ok(
        m6,
        ActionView::WriteStore(out),
        fs2,
        3,
    ));
    assert(run_ok(m6, ActionView::WriteStore(out), fs2, 3) == run_ok(
        MachineView { op, phase: PhaseView::Finished },
        ActionView::Finish(Ok(success_outcome(op))),
        fs3,
        2,
    ));
}

/// Removing an alias that is not in the document fails with the not-found
/// error and leaves both files untouched, byte for byte: no backup is
/// taken and nothing is written.
pub proof fn lemma_remove_nonexistent_run(a: Seq<char>, fs: FsView, c: Seq<char>)
    requires
        fs.store == Some(c),
        find_first(decode_spec(c), a) is None,
    ensures
        run_from_start(StoreOpView::Remove(a), fs, 4) == Some(
            (Err::<OutcomeView, StoreErrorView>(StoreErrorView::NotFound(a)), fs),
        ),
{
    let op = StoreOpView::Remove(a);
    let m1 = MachineView { op, phase: PhaseView::Probing };
    let m2 = MachineView { op, phase: PhaseView::Reading };
    assert(step_spec(init_machine(op), EventView::Begin) == (m1, ActionView::Probe));
    assert(step_spec(m1, EventView::Probed(true)) == (m2, ActionView::ReadStore));
    assert(step_spec(m2, EventView::ReadDone(c)) == (
        MachineView { op, phase: PhaseView::Finished },
        ActionView::Finish(Err(StoreErrorView::NotFound(a))),
    ));
    assert(run_from_start(op, fs, 4) == run_ok(m1, ActionView::Probe, fs, 4));
    assert(run_ok(m1, ActionView::Probe, fs, 4) == run_ok(m2, ActionView::ReadStore, fs, 3));
    assert(run_ok(m2, ActionView::ReadStore, fs, 3) == run_ok(
        MachineView { op, phase: PhaseView::Finished },
        ActionView::Finish(Err(StoreErrorView::NotFound(a))),
        fs,
        2,
    ));
}

/// Add-then-find, end to end: after a successful add of `b`, a lookup of
/// `b`'s alias on the resulting store finds exactly `b`.  Lookup returns
/// the first match and duplicates are permitted, so the claim asks that
/// any record already carrying the alias equal the added one.
pub proof fn lemma_add_then_find_runs(b: BangView, fs: FsView, c: Seq<char>)
    requires
        fs.store == Some(c),
        forall|j: int|
            0 <= j < decode_spec(c).len() && (#[trigger] decode_spec(c)[j]).alias == b.alias
                ==> decode_spec(c)[j] == b,
    ensures
        run_from_start(StoreOpView::Add(b), fs, 8) is Some,
        ({
            let fs2 = run_from_start(StoreOpView::Add(b), fs, 8)->Some_0.1;
            run_from_start(StoreOpView::Find(b.alias), fs2, 4) == Some(
                (Ok::<OutcomeView, StoreErrorView>(OutcomeView::Found(b)), fs2),
            )
        }),
{
    let rs = decode_spec(c);
    let c2 = encode_spec(rs.push(b));
    lemma_mutation_run(StoreOpView::Add(b), fs, c);
    let fs2 = FsView { store: Some(c2), backup: Some(c) };
    crate::codec::lemma_round_trip(rs.push(b));
    crate::codec::lemma_add_then_find(rs, b);
    lemma_query_run(StoreOpView::Find(b.alias), fs2, c2);
}

/// Remove-then-find, end to end: after a successful removal of an alias, a
/// lookup of that alias on the resulting store fails with the not-found
/// error, duplicates included.
pub proof fn lemma_remove_then_find_runs(a: Seq<char>, fs: FsView, c: Seq<char>)
    requires
        fs.store == Some(c),
        find_first(decode_spec(c), a) is Some,
    ensures
        run_from_start(StoreOpView::Remove(a), fs, 8) is Some,
        ({
            let fs2 = run_from_start(StoreOpView::Remove(a), fs, 8)->Some_0.1;
            run_from_start(StoreOpView::Find(a), fs2, 4) == Some(
                (Err::<OutcomeView, StoreErrorView>(StoreErrorView::NotFound(a)), fs2),
            )
        }),
{
    let rs = decode_spec(c);
    let c2 = encode_spec(remove_all(rs, a));
    lemma_mutation_run(StoreOpView::Remove(a), fs, c);
    let fs2 = FsView { store: Some(c2), backup: Some(c) };
    crate::codec::lemma_round_trip(remove_all(rs, a));
    crate::codec::lemma_remove_then_find(rs, a);
    lemma_query_run(StoreOpView::Find(a), fs2, c2);
}

/// Fail-fast: a failure before anything destructive has happened (creating,
/// reading, snapshotting, or a truncation the filesystem refused outright)
/// finishes at once with the error as it is; no restore is attempted.
pub proof fn lemma_early_failure_fails_fast(op: StoreOpView, out: Seq<char>, msg: Seq<char>)
    ensures
        step_spec(MachineView { op, phase: PhaseView::Reading }, EventView::Failed(msg)).1
            == ActionView::Finish(Err(StoreErrorView::Io(msg))),
        step_spec(MachineView { op, phase: PhaseView::Snapshotting(out) }, EventView::Failed(msg)).1
            == ActionView::Finish(Err(StoreErrorView::Io(msg))),
        step_spec(MachineView { op, phase: PhaseView::Truncating(out) }, EventView::Failed(msg)).1
            == ActionView::Finish(Err(StoreErrorView::Io(msg))),
        step_spec(MachineView { op, phase: PhaseView::Creating }, EventView::Failed(msg)).1
            == ActionView::Finish(Err(StoreErrorView::Setup(msg))),
{
}

/// Once the truncate-and-rewrite cycle has begun, a failure (the position
/// reset or the rewrite failing partway) triggers the restore, a successful
/// restore puts the pre-mutation text back in the store file, and the
/// original error is then surfaced.  A failure of the restore itself is
/// terminal and surfaces the restore's own error.
pub proof fn lemma_late_failure_restores(
    op: StoreOpView,
    out: Seq<char>,
    msg: Seq<char>,
    msg2: Seq<char>,
    fs: FsView,
    c: Seq<char>,
)
    requires
        fs.backup == Some(c),
    ensures
        step_spec(MachineView { op, phase: PhaseView::Rewinding(out) }, EventView::Failed(msg))
            == (MachineView { op, phase: PhaseView::Restoring(msg) }, ActionView::Restore),
        step_spec(MachineView { op, phase: PhaseView::Writing(out) }, EventView::Failed(msg))
            == (MachineView { op, phase: PhaseView::Restoring(msg) }, ActionView::Restore),
        apply_action(fs, ActionView::Restore).store == Some(c),
        step_spec(MachineView { op, phase: PhaseView::Restoring(msg) }, EventView::Succeeded).1
            == ActionView::Finish(Err(StoreErrorView::Io(msg))),
        step_spec(MachineView { op, phase: PhaseView::Restoring(msg) }, EventView::Failed(msg2)).1
            == ActionView::Finish(Err(StoreErrorView::Io(msg2))),
{
}

/// An absent store file is created before the operation proceeds: the
/// ensuring step writes the placeholder, which decodes to the empty
/// document, so listing an absent store yields the empty document and the
/// created file.
pub proof fn lemma_create_on_missing_run(fs: FsView)
    requires
        fs.store is None,
    ensures
        run_from_start(StoreOpView::List, fs, 5) == Some(
            (
                Ok::<OutcomeView, StoreErrorView>(OutcomeView::Listed(Seq::empty())),
                FsView { store: Some(fresh_file()), backup: fs.backup },
            ),
        ),
{
    crate::codec::lemma_fresh_file_empty();
    let op = StoreOpView::List;
    let m1 = MachineView { op, phase: PhaseView::Probing };
    let mc = MachineView { op, phase: PhaseView::Creating };
    let m2 = MachineView { op, phase: PhaseView::Reading };
    let fs1 = FsView { store: Some(fresh_file()), backup: fs.backup };
    assert(step_spec(init_machine(op), EventView::Begin) == (m1, ActionView::Probe));
    assert(ok_event(fs, ActionView::Probe) == EventView::Probed(false));
    assert(step_spec(m1, EventView::Probed(false)) == (mc, ActionView::CreateEmpty));
    assert(apply_action(fs, ActionView::CreateEmpty) == fs1);
    assert(step_spec(mc, EventView::Succeeded) == (m2, ActionView::ReadStore));
    assert(ok_event(fs1, ActionView::ReadStore) == EventView::ReadDone(fresh_file()));
    let sa = step_spec(m2, EventView::ReadDone(fresh_file()));
    assert(sa.1 == ActionView::Finish(Ok(OutcomeView::Listed(Seq::<BangView>::empty()))));
    assert(run_from_start(op, fs, 5) == run_ok(m1, ActionView::Probe, fs, 5));
    assert(run_ok(m1, ActionView::Probe, fs, 5) == run_ok(mc, ActionView::CreateEmpty, fs, 4));
    assert(run_ok(mc, ActionView::CreateEmpty, fs, 4) == run_ok(
        m2,
        ActionView::ReadStore,
        fs1,
        3,
    ));
    assert(run_ok(m2, ActionView::ReadStore, fs1, 3) == run_ok(sa.0, sa.1, fs1, 2));
}

} // verus!
