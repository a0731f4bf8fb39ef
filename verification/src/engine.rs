//! The repair run as a state machine. The machine decides; its caller does
//! the reading and writing. Each step takes what the last action brought and
//! gives the next action, until the report is handed out.

use crate::address::{
    file_first_piece, file_last_piece, get_missing_pieces, lemma_missing_between, missing_pieces,
};
use crate::block::FileBlock;
use crate::digest::sha1_digest;
use crate::equivalence::{
    both_sides_named, find_same_size_files, lemma_no_common_size, pairs_model, same_size_pairs,
    PairModel,
};
use crate::error::RepairError;
use crate::layout::position_of;
use crate::repair::{block_part, checked, plan, plan_piece, verify_read, Transfer, TransferModel};
use crate::torrent::{join_path, path_under, Torrent, TorrentModel};
use vstd::prelude::*;

verus! {

/// How the pieces that a run went through ended: one count for the restored
/// and one for each reason to pass a piece over. The counts say nothing of
/// whether the destination job is complete: its data must be checked again
/// against all its digests before it is trusted.
#[derive(Debug, Clone, Copy, PartialEq, Eq, Structural)]
pub struct RepairReport {
    /// Pieces whose verified bytes were written.
    pub restored: usize,
    pub address_out_of_range: usize,
    pub file_not_found: usize,
    pub offset_beyond_file: usize,
    pub no_equivalent_file: usize,
    /// Pieces with a source piece that is not downloaded.
    pub source_unavailable: usize,
    /// Pieces whose source window does not cover their block.
    pub containment_violation: usize,
    pub digest_mismatch: usize,
    pub io_failure: usize,
}

impl RepairReport {
    /// The report of a run that has gone through no piece yet.
    pub open spec fn empty() -> RepairReport {
        RepairReport {
            restored: 0,
            address_out_of_range: 0,
            file_not_found: 0,
            offset_beyond_file: 0,
            no_equivalent_file: 0,
            source_unavailable: 0,
            containment_violation: 0,
            digest_mismatch: 0,
            io_failure: 0,
        }
    }

    /// The number of pieces passed over for the reason `e`.
    pub open spec fn skipped(self, e: RepairError) -> usize {
        match e {
            RepairError::AddressOutOfRange => self.address_out_of_range,
            RepairError::FileNotFound => self.file_not_found,
            RepairError::OffsetBeyondFile => self.offset_beyond_file,
            RepairError::NoEquivalentFile => self.no_equivalent_file,
            RepairError::SourceUnavailable => self.source_unavailable,
            RepairError::ContainmentViolation => self.containment_violation,
            RepairError::DigestMismatch => self.digest_mismatch,
            RepairError::IOFailure => self.io_failure,
        }
    }

    /// The number of pieces that the run went through.
    pub open spec fn total(self) -> int {
        self.restored + self.address_out_of_range + self.file_not_found + self.offset_beyond_file
            + self.no_equivalent_file + self.source_unavailable + self.containment_violation
            + self.digest_mismatch + self.io_failure
    }

    /// The report with one more piece passed over for the reason `e`.
    pub open spec fn with_skip(self, e: RepairError) -> RepairReport {
        match e {
            RepairError::AddressOutOfRange => RepairReport {
                address_out_of_range: (self.address_out_of_range + 1) as usize,
                ..self
            },
            RepairError::FileNotFound => RepairReport {
                file_not_found: (self.file_not_found + 1) as usize,
                ..self
            },
            RepairError::OffsetBeyondFile => RepairReport {
                offset_beyond_file: (self.offset_beyond_file + 1) as usize,
                ..self
            },
            RepairError::NoEquivalentFile => RepairReport {
                no_equivalent_file: (self.no_equivalent_file + 1) as usize,
                ..self
            },
            RepairError::SourceUnavailable => RepairReport {
                source_unavailable: (self.source_unavailable + 1) as usize,
                ..self
            },
            RepairError::ContainmentViolation => RepairReport {
                containment_violation: (self.containment_violation + 1) as usize,
                ..self
            },
            RepairError::DigestMismatch => RepairReport {
                digest_mismatch: (self.digest_mismatch + 1) as usize,
                ..self
            },
            RepairError::IOFailure => RepairReport { io_failure: (self.io_failure + 1) as usize, ..self },
        }
    }

    /// The report with one more piece restored.
    pub open spec fn with_restored(self) -> RepairReport {
        RepairReport { restored: (self.restored + 1) as usize, ..self }
    }

    /// A report with every count at zero.
    pub fn new() -> (report: RepairReport)
        ensures
            report == RepairReport::empty(),
    {
        RepairReport {
            restored: 0,
            address_out_of_range: 0,
            file_not_found: 0,
            offset_beyond_file: 0,
            no_equivalent_file: 0,
            source_unavailable: 0,
            containment_violation: 0,
            digest_mismatch: 0,
            io_failure: 0,
        }
    }

    /// Counts one more piece passed over for the reason `e`.
    pub fn skip(self, e: RepairError) -> (report: RepairReport)
        requires
            self.total() < usize::MAX,
        ensures
            report == self.with_skip(e),
            report.skipped(e) == self.skipped(e) + 1,
            report.total() == self.total() + 1,
    {
        let mut report = self;
        match e {
            RepairError::AddressOutOfRange => {
                report.address_out_of_range = report.address_out_of_range + 1;
            },
            RepairError::FileNotFound => {
                report.file_not_found = report.file_not_found + 1;
            },
            RepairError::OffsetBeyondFile => {
                report.offset_beyond_file = report.offset_beyond_file + 1;
            },
            RepairError::NoEquivalentFile => {
                report.no_equivalent_file = report.no_equivalent_file + 1;
            },
            RepairError::SourceUnavailable => {
                report.source_unavailable = report.source_unavailable + 1;
            },
            RepairError::ContainmentViolation => {
                report.containment_violation = report.containment_violation + 1;
            },
            RepairError::DigestMismatch => {
                report.digest_mismatch = report.digest_mismatch + 1;
            },
            RepairError::IOFailure => {
                report.io_failure = report.io_failure + 1;
            },
        }
        report
    }

    /// Counts one more piece restored.
    pub fn restore(self) -> (report: RepairReport)
        requires
            self.total() < usize::MAX,
        ensures
            report == self.with_restored(),
            report.total() == self.total() + 1,
    {
        let mut report = self;
        report.restored = report.restored + 1;
        report
    }
}

/// What the caller brings back from the last action.
#[derive(Debug, Clone, PartialEq, Eq)]
pub enum Event {
    /// Nothing: the last action asked for nothing, or the run starts.
    Resume,
    /// The session holds the destination job paused.
    Paused,
    /// The bytes of the range that was to be read.
    ReadDone(Vec<u8>),
    /// The bytes that were to be written are on disk.
    WriteDone,
    /// The file could not be opened, read or written.
    Failed,
}

/// The mathematical model of an [`Event`].
pub enum EventModel {
    Resume,
    Paused,
    ReadDone(Seq<u8>),
    WriteDone,
    Failed,
}

impl View for Event {
    type V = EventModel;

    open spec fn view(&self) -> EventModel {
        match self {
            Event::Resume => EventModel::Resume,
            Event::Paused => EventModel::Paused,
            Event::ReadDone(data) => EventModel::ReadDone(data@),
            Event::WriteDone => EventModel::WriteDone,
            Event::Failed => EventModel::Failed,
        }
    }
}

/// What the caller is to do before the next step.
#[derive(Debug, Clone, PartialEq, Eq)]
pub enum Action {
    /// Nothing: step again with `Resume`.
    Continue,
    /// Have the session pause the job `hash`, the destination, so that nothing
    /// else writes to its files during the run. Pausing a paused job changes
    /// nothing.
    Pause { hash: String },
    /// Read the range `block` of the file at `path` and bring back its bytes.
    Read { path: String, block: FileBlock },
    /// Write `data` into the file at `path` from `offset` on, and flush.
    Write { path: String, offset: u64, data: Vec<u8> },
    /// The run is over: this is its report. The data of the job `recheck`,
    /// the destination, must be checked again against all its digests before
    /// it is trusted.
    Finish { report: RepairReport, recheck: String },
}

/// The mathematical model of an [`Action`].
pub enum ActionModel {
    Continue,
    Pause { hash: Seq<char> },
    Read { path: Seq<char>, block: FileBlock },
    Write { path: Seq<char>, offset: u64, data: Seq<u8> },
    Finish { report: RepairReport, recheck: Seq<char> },
}

impl View for Action {
    type V = ActionModel;

    open spec fn view(&self) -> ActionModel {
        match self {
            Action::Continue => ActionModel::Continue,
            Action::Pause { hash } => ActionModel::Pause { hash: hash@ },
            Action::Read { path, block } => ActionModel::Read { path: path@, block: *block },
            Action::Write { path, offset, data } => ActionModel::Write {
                path: path@,
                offset: *offset,
                data: data@,
            },
            Action::Finish { report, recheck } => ActionModel::Finish {
                report: *report,
                recheck: recheck@,
            },
        }
    }
}

/// Where the machine stands with the piece at its cursor.
#[derive(Debug)]
enum Phase {
    Pausing,
    Ready,
    Reading(Transfer),
    Writing,
    Finished,
}

/// The mathematical model of the machine's phase.
pub enum PhaseModel {
    /// The destination job is yet to be paused.
    Pausing,
    /// The piece at the cursor is yet to be planned.
    Ready,
    /// The window of this transfer is being read.
    Reading(TransferModel),
    /// Verified bytes of the piece at the cursor are being written.
    Writing,
    /// Every piece has been gone through and the report handed out.
    Finished,
}

impl View for Phase {
    type V = PhaseModel;

    closed spec fn view(&self) -> PhaseModel {
        match self {
            Phase::Pausing => PhaseModel::Pausing,
            Phase::Ready => PhaseModel::Ready,
            Phase::Reading(transfer) => PhaseModel::Reading(transfer@),
            Phase::Writing => PhaseModel::Writing,
            Phase::Finished => PhaseModel::Finished,
        }
    }
}

/// The missing pieces looked at for one pair: those of the destination file
/// that stands for the pair.
pub open spec fn pair_targets(dst: TorrentModel, pair: PairModel) -> Seq<usize> {
    match missing_pieces(dst, pair.names_b[0]) {
        Ok(missing) => missing,
        Err(_) => Seq::empty(),
    }
}

/// The pieces that a run goes through, in order: pair after pair, and within
/// a pair in ascending order.
pub open spec fn all_targets(dst: TorrentModel, pairs: Seq<PairModel>) -> Seq<usize>
    decreases pairs.len(),
{
    if pairs.len() == 0 {
        Seq::empty()
    } else {
        all_targets(dst, pairs.drop_last()) + pair_targets(dst, pairs.last())
    }
}

/// The mathematical model of a repair run.
pub struct RepairModel {
    pub src: TorrentModel,
    pub dst: TorrentModel,
    pub pairs: Seq<PairModel>,
    pub targets: Seq<usize>,
    pub cursor: nat,
    pub phase: PhaseModel,
    pub report: RepairReport,
}

impl RepairModel {
    /// The state in which a run from `src` to `dst` starts, with `pairs` as
    /// the files taken for the same.
    pub open spec fn start(src: TorrentModel, dst: TorrentModel, pairs: Seq<PairModel>) -> RepairModel {
        RepairModel {
            src,
            dst,
            pairs,
            targets: all_targets(dst, pairs),
            cursor: 0,
            phase: PhaseModel::Pausing,
            report: RepairReport::empty(),
        }
    }

    /// The state in which a run from `src` to `dst` starts, with the files
    /// paired by size.
    pub open spec fn initial(src: TorrentModel, dst: TorrentModel) -> RepairModel {
        RepairModel::start(src, dst, same_size_pairs(src.files, dst.files))
    }

    /// What holds of every state of a run.
    pub open spec fn wf(self) -> bool {
        &&& self.src.consistent()
        &&& self.dst.consistent()
        &&& self.src.root() is Some
        &&& self.dst.root() is Some
        &&& both_sides_named(self.pairs)
        &&& self.targets == all_targets(self.dst, self.pairs)
        &&& self.targets.len() <= usize::MAX
        &&& self.cursor <= self.targets.len()
        &&& self.report.total() == self.cursor
        &&& match self.phase {
            PhaseModel::Pausing => self.cursor == 0,
            PhaseModel::Ready => true,
            PhaseModel::Reading(transfer) => self.cursor < self.targets.len() && plan(
                self.src,
                self.dst,
                self.pairs,
                self.targets[self.cursor as int],
            ) == Ok::<TransferModel, RepairError>(transfer),
            PhaseModel::Writing => self.cursor < self.targets.len(),
            PhaseModel::Finished => self.cursor == self.targets.len(),
        }
    }

    /// The state after the piece at the cursor was passed over for the
    /// reason `e`.
    pub open spec fn skip(self, e: RepairError) -> RepairModel {
        RepairModel {
            cursor: self.cursor + 1,
            phase: PhaseModel::Ready,
            report: self.report.with_skip(e),
            ..self
        }
    }

    /// The state after the piece at the cursor was restored.
    pub open spec fn restore(self) -> RepairModel {
        RepairModel {
            cursor: self.cursor + 1,
            phase: PhaseModel::Ready,
            report: self.report.with_restored(),
            ..self
        }
    }

    /// The action that ends the run: the report, and the job to check again.
    pub open spec fn finish(self) -> ActionModel {
        ActionModel::Finish { report: self.report, recheck: self.dst.hash }
    }

    /// One step of the run: the next state and the action that the caller is
    /// to take.
    ///
    /// At first the machine asks for the destination job to be paused, until
    /// it is told that it is.
    /// When ready, the machine plans the piece at the cursor: it asks for a
    /// read, or passes the piece over; past the last piece it finishes.
    /// When reading, it checks the bytes brought back: it asks for the write
    /// of the verified part, or passes the piece over. Anything but bytes
    /// counts as a failed read.
    /// When writing, it counts the piece as restored once the write is done.
    /// Anything else counts as a failed write.
    /// When finished, it hands out the report again.
    pub open spec fn advance(self, event: EventModel) -> (RepairModel, ActionModel) {
        match self.phase {
            PhaseModel::Finished => (self, self.finish()),
            PhaseModel::Pausing => match event {
                EventModel::Paused => (
                    RepairModel { phase: PhaseModel::Ready, ..self },
                    ActionModel::Continue,
                ),
                _ => (self, ActionModel::Pause { hash: self.dst.hash }),
            },
            PhaseModel::Ready => if self.cursor >= self.targets.len() {
                (RepairModel { phase: PhaseModel::Finished, ..self }, self.finish())
            } else {
                match plan(self.src, self.dst, self.pairs, self.targets[self.cursor as int]) {
                    Ok(transfer) => (
                        RepairModel { phase: PhaseModel::Reading(transfer), ..self },
                        ActionModel::Read {
                            path: path_under(self.src.root()->0, transfer.src_file),
                            block: transfer.window,
                        },
                    ),
                    Err(e) => (self.skip(e), ActionModel::Continue),
                }
            },
            PhaseModel::Reading(transfer) => match event {
                EventModel::ReadDone(data) => match checked(transfer, data) {
                    Ok(part) => (
                        RepairModel { phase: PhaseModel::Writing, ..self },
                        ActionModel::Write {
                            path: path_under(self.dst.root()->0, transfer.dst_file),
                            offset: transfer.block.offset,
                            data: part,
                        },
                    ),
                    Err(e) => (self.skip(e), ActionModel::Continue),
                },
                _ => (self.skip(RepairError::IOFailure), ActionModel::Continue),
            },
            PhaseModel::Writing => match event {
                EventModel::WriteDone => (self.restore(), ActionModel::Continue),
                _ => (self.skip(RepairError::IOFailure), ActionModel::Continue),
            },
        }
    }

    /// How far the run is from its end: it goes down with every step.
    pub open spec fn remaining(self) -> nat {
        let pieces = (self.targets.len() - self.cursor) as nat;
        match self.phase {
            PhaseModel::Pausing => 3 * pieces + 2,
            PhaseModel::Ready => 3 * pieces + 1,
            PhaseModel::Reading(_) => 3 * pieces,
            PhaseModel::Writing => (3 * pieces - 1) as nat,
            PhaseModel::Finished => 0,
        }
    }
}

/// A repair run from a source job to a destination job.
#[derive(Debug)]
pub struct Repair {
    src: Torrent,
    dst: Torrent,
    src_root: String,
    dst_root: String,
    same_files: Vec<(Vec<String>, Vec<String>)>,
    targets: Vec<usize>,
    cursor: usize,
    phase: Phase,
    report: RepairReport,
}

impl View for Repair {
    type V = RepairModel;

    closed spec fn view(&self) -> RepairModel {
        RepairModel {
            src: self.src@,
            dst: self.dst@,
            pairs: pairs_model(self.same_files@),
            targets: self.targets@,
            cursor: self.cursor as nat,
            phase: self.phase@,
            report: self.report,
        }
    }
}

/// The pieces that a run goes through, pair after pair.
fn collect_targets(dst: &Torrent, same_files: &Vec<(Vec<String>, Vec<String>)>) -> (targets: Vec<
    usize,
>)
    requires
        both_sides_named(pairs_model(same_files@)),
    ensures
        targets@ == all_targets(dst@, pairs_model(same_files@)),
{
    let ghost pairs = pairs_model(same_files@);
    let mut targets: Vec<usize> = Vec::new();
    let mut p: usize = 0;
    while p < same_files.len()
        invariant
            p <= same_files.len(),
            pairs == pairs_model(same_files@),
            both_sides_named(pairs),
            targets@ == all_targets(dst@, pairs.take(p as int)),
        decreases same_files.len() - p,
    {
        proof {
            let upto = pairs.take(p as int + 1);
            assert(upto.drop_last() =~= pairs.take(p as int));
        }
        let names_b = &same_files[p].1;
        assert(pairs[p as int].names_b[0] == names_b@[0]@);
        match get_missing_pieces(dst, names_b[0].as_str()) {
            Ok(mut missing) => {
                targets.append(&mut missing);
            },
            Err(_) => {},
        }
        p += 1;
    }
    assert(pairs.take(same_files.len() as int) =~= pairs);
    targets
}

/// Whether each pair has a name on both sides.
fn all_named(same_files: &Vec<(Vec<String>, Vec<String>)>) -> (named: bool)
    ensures
        named == both_sides_named(pairs_model(same_files@)),
{
    let ghost pairs = pairs_model(same_files@);
    let mut p: usize = 0;
    while p < same_files.len()
        invariant
            p <= same_files.len(),
            pairs == pairs_model(same_files@),
            forall|q: int|
                0 <= q < p ==> (#[trigger] pairs[q]).names_a.len() > 0 && pairs[q].names_b.len() > 0,
        decreases same_files.len() - p,
    {
        if same_files[p].0.len() == 0 || same_files[p].1.len() == 0 {
            assert(pairs[p as int].names_a.len() == 0 || pairs[p as int].names_b.len() == 0);
            return false;
        }
        assert(pairs[p as int].names_a.len() > 0 && pairs[p as int].names_b.len() > 0);
        p += 1;
    }
    true
}

impl Repair {
    /// What holds of every run.
    #[verifier::type_invariant]
    closed spec fn inv(&self) -> bool {
        &&& self@.wf()
        &&& self.src_root@ == self.src@.root()->0
        &&& self.dst_root@ == self.dst@.root()->0
    }

    /// Starts a run that restores pieces of `dst` from `src`. Files are
    /// paired by size, and the missing pieces of each pair's destination file
    /// are lined up. Fails with `IOFailure` where a job has no storage root.
    pub fn new(src: Torrent, dst: Torrent) -> (started: Result<Repair, RepairError>)
        ensures
            started is Ok <==> src@.root() is Some && dst@.root() is Some,
            started matches Ok(run) ==> run@ == RepairModel::initial(src@, dst@) && run@.wf(),
            started matches Err(e) ==> e == RepairError::IOFailure,
    {
        let same_files = find_same_size_files(&src, &dst);
        Repair::with_pairs(src, dst, same_files)
    }

    /// Starts a run with the caller's choice of pairs: where several files
    /// share a size, the caller decides which name comes first in a list, and
    /// so which file stands for it. Fails with `IOFailure` where a job has no
    /// storage root, else with `NoEquivalentFile` where a pair has no name on
    /// one of its sides.
    pub fn with_pairs(src: Torrent, dst: Torrent, same_files: Vec<(Vec<String>, Vec<String>)>) -> (started:
        Result<Repair, RepairError>)
        ensures
            started is Ok <==> src@.root() is Some && dst@.root() is Some && both_sides_named(
                pairs_model(same_files@),
            ),
            started matches Ok(run) ==> run@ == RepairModel::start(
                src@,
                dst@,
                pairs_model(same_files@),
            ) && run@.wf(),
            started matches Err(e) ==> e == if src@.root() is Some && dst@.root() is Some {
                RepairError::NoEquivalentFile
            } else {
                RepairError::IOFailure
            },
    {
        proof {
            use_type_invariant(&src);
            use_type_invariant(&dst);
        }
        let src_root = match src.root() {
            Some(root) => root.clone(),
            None => {
                return Err(RepairError::IOFailure);
            },
        };
        let dst_root = match dst.root() {
            Some(root) => root.clone(),
            None => {
                return Err(RepairError::IOFailure);
            },
        };
        if !all_named(&same_files) {
            return Err(RepairError::NoEquivalentFile);
        }
        let targets = collect_targets(&dst, &same_files);
        assert(targets@.len() == targets.len());
        Ok(
            Repair {
                src,
                dst,
                src_root,
                dst_root,
                same_files,
                targets,
                cursor: 0,
                phase: Phase::Pausing,
                report: RepairReport::new(),
            },
        )
    }

    /// The counts so far.
    pub fn report(&self) -> (report: RepairReport)
        ensures
            report == self@.report,
    {
        self.report
    }

    /// Whether the run is over.
    pub fn is_finished(&self) -> (finished: bool)
        ensures
            finished == (self@.phase is Finished),
    {
        match self.phase {
            Phase::Finished => true,
            _ => false,
        }
    }

    /// Takes one step: from this state and what the last action brought to
    /// the next state and the next action. Bytes are handed out for writing
    /// only after they hashed to the digest that the destination job expects
    /// of the piece.
    pub fn step(self, event: Event) -> (next: (Repair, Action))
        ensures
            self@.wf(),
            next.0@ == self@.advance(event@).0,
            next.1@ == self@.advance(event@).1,
            next.0@.wf(),
    {
        proof {
            use_type_invariant(&self);
            lemma_advance_keeps_wf(self@, event@);
        }
        let Repair { src, dst, src_root, dst_root, same_files, targets, cursor, phase, report } = self;
        let (cursor, phase, report, action) = match phase {
            Phase::Finished => {
                let recheck = dst.hash().clone();
                (cursor, Phase::Finished, report, Action::Finish { report, recheck })
            },
            Phase::Pausing => match event {
                Event::Paused => (cursor, Phase::Ready, report, Action::Continue),
                _ => {
                    let hash = dst.hash().clone();
                    (cursor, Phase::Pausing, report, Action::Pause { hash })
                },
            },
            Phase::Ready => {
                if cursor >= targets.len() {
                    let recheck = dst.hash().clone();
                    (cursor, Phase::Finished, report, Action::Finish { report, recheck })
                } else {
                    match plan_piece(&src, &dst, same_files.as_slice(), targets[cursor]) {
                        Ok(transfer) => {
                            let path = join_path(&src_root, transfer.src_file.as_str());
                            let block = transfer.window;
                            (cursor, Phase::Reading(transfer), report, Action::Read { path, block })
                        },
                        Err(e) => (cursor + 1, Phase::Ready, report.skip(e), Action::Continue),
                    }
                }
            },
            Phase::Reading(transfer) => {
                let checked = match event {
                    Event::ReadDone(data) => verify_read(&transfer, data.as_slice()),
                    _ => Err(RepairError::IOFailure),
                };
                match checked {
                    Ok(data) => {
                        let path = join_path(&dst_root, transfer.dst_file.as_str());
                        let offset = transfer.block.offset;
                        (cursor, Phase::Writing, report, Action::Write { path, offset, data })
                    },
                    Err(e) => (cursor + 1, Phase::Ready, report.skip(e), Action::Continue),
                }
            },
            Phase::Writing => match event {
                Event::WriteDone => (cursor + 1, Phase::Ready, report.restore(), Action::Continue),
                _ => (cursor + 1, Phase::Ready, report.skip(RepairError::IOFailure), Action::Continue),
            },
        };
        (
            Repair { src, dst, src_root, dst_root, same_files, targets, cursor, phase, report },
            action,
        )
    }
}

/// Every step keeps what holds of every state.
pub proof fn lemma_advance_keeps_wf(state: RepairModel, event: EventModel)
    requires
        state.wf(),
    ensures
        state.advance(event).0.wf(),
{
}

/// No write without match. A step asks for a write only when it was handed
/// the bytes of the window it had asked for; what it hands out for writing is
/// the part of those bytes that lies in the piece's block, that part hashes to
/// the digest that the destination job expects of the piece, and it goes to
/// the start of the block in the destination file. On any other bytes the
/// step asks for no write.
pub proof fn lemma_write_is_verified(state: RepairModel, event: EventModel)
    requires
        state.wf(),
    ensures
        state.advance(event).1 matches ActionModel::Write { path, offset, data } ==> {
            &&& state.phase matches PhaseModel::Reading(transfer)
            &&& event matches EventModel::ReadDone(read)
            &&& data == block_part(transfer, read)
            &&& sha1_digest(data) == state.dst.digests[state.targets[state.cursor as int] as int]
            &&& offset == transfer.block.offset
            &&& path == path_under(state.dst.root()->0, transfer.dst_file)
        },
        (state.phase matches PhaseModel::Reading(transfer) && event matches EventModel::ReadDone(read)
            && sha1_digest(block_part(transfer, read)) != transfer.expected) ==> state.advance(
            event,
        ).1 == ActionModel::Continue && state.advance(event).0.report.restored
            == state.report.restored,
{
}

/// Every piece that a run went through is counted once, as restored or under
/// the reason for which it was passed over; and a run that has finished went
/// through every piece.
pub proof fn lemma_every_piece_counted(state: RepairModel, event: EventModel)
    requires
        state.wf(),
    ensures
        state.report.total() == state.cursor,
        state.advance(event).0.report.total() == state.advance(event).0.cursor,
        state.advance(event).1 matches ActionModel::Finish { report, recheck } ==> report.total()
            == state.targets.len() && recheck == state.dst.hash,
{
}

/// A run that has not finished comes closer to its end with every step, so it
/// finishes after finitely many steps, once the destination job is paused.
pub proof fn lemma_advance_progress(state: RepairModel, event: EventModel)
    requires
        state.wf(),
        !(state.phase is Finished),
        state.phase is Pausing ==> event is Paused,
    ensures
        state.advance(event).0.remaining() < state.remaining(),
{
}

/// A piece that the destination job has is never gone through: every piece
/// that a run goes through is a recorded piece of the destination job that is
/// not downloaded.
pub proof fn lemma_targets_are_missing(dst: TorrentModel, pairs: Seq<PairModel>, k: int)
    requires
        dst.states.len() <= usize::MAX,
        0 <= k < all_targets(dst, pairs).len(),
    ensures
        all_targets(dst, pairs)[k] < dst.piece_count(),
        !dst.downloaded(all_targets(dst, pairs)[k] as int),
    decreases pairs.len(),
{
    let earlier = all_targets(dst, pairs.drop_last());
    if k < earlier.len() {
        lemma_targets_are_missing(dst, pairs.drop_last(), k);
    } else {
        let name = pairs.last().names_b[0];
        let i = position_of(dst.files, name)->0;
        let lo = file_first_piece(dst, i);
        let hi = file_last_piece(dst, i);
        lemma_missing_between(dst.states, lo, hi);
        let last = pair_targets(dst, pairs.last());
    }
}

/// A second run adds nothing to what the first restored: once a piece of the
/// destination job is recorded as downloaded, no run goes through it again,
/// whatever files are paired.
pub proof fn lemma_restored_is_no_target(dst: TorrentModel, pairs: Seq<PairModel>, idx: usize)
    requires
        idx < dst.states.len() <= usize::MAX,
    ensures
        dst.consistent() ==> dst.with_downloaded(idx as int).consistent(),
        dst.with_downloaded(idx as int).downloaded(idx as int),
        !all_targets(dst.with_downloaded(idx as int), pairs).contains(idx),
{
    let after = dst.with_downloaded(idx as int);
    let targets = all_targets(after, pairs);
    if targets.contains(idx) {
        let k = choose|k: int| 0 <= k < targets.len() && targets[k] == idx;
        lemma_targets_are_missing(after, pairs, k);
    }
}

/// Where no file of the source job has the size of a file of the destination
/// job, no files are paired and no piece is gone through: once the
/// destination job is paused, the next step ends the run with every count at
/// zero.
pub proof fn lemma_nothing_shared(src: TorrentModel, dst: TorrentModel, event: EventModel)
    requires
        forall|i: int, k: int|
            0 <= i < src.files.len() && 0 <= k < dst.files.len() ==> (#[trigger] src.files[i]).size
                != (#[trigger] dst.files[k]).size,
    ensures
        same_size_pairs(src.files, dst.files).len() == 0,
        RepairModel::initial(src, dst).targets.len() == 0,
        RepairModel::initial(src, dst).advance(EventModel::Paused).0.advance(event).1
            == (ActionModel::Finish { report: RepairReport::empty(), recheck: dst.hash }),
{
    lemma_no_common_size(src.files, dst.files);
}

/// Nothing is read or written before the destination job is paused: until
/// the machine is told that the job is paused, it asks for the pause and for
/// nothing else, and goes through no piece.
pub proof fn lemma_pause_comes_first(state: RepairModel, event: EventModel)
    requires
        state.wf(),
        state.phase is Pausing,
    ensures
        RepairModel::initial(state.src, state.dst).phase is Pausing,
        !(event is Paused) ==> state.advance(event) == (
            state,
            ActionModel::Pause { hash: state.dst.hash },
        ),
        event is Paused ==> state.advance(event).1 == ActionModel::Continue && state.advance(
            event,
        ).0.phase is Ready && state.advance(event).0.cursor == 0,
{
}

} // verus!
