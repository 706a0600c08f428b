//! One pass over the button matrix: which pin to drive or read next, and
//! which keys the levels read so far show as closed.

use vstd::prelude::*;
use crate::keyset::KeySet;
use crate::layout::{
    key_index, key_index_of, lemma_key_index_in_range, COLUMN_COUNT, KEY_COUNT, ROW_COUNT,
};

verus! {

/// What is to be done with the pins next.
#[derive(Clone, Copy, Debug, PartialEq, Eq, Structural)]
pub enum PinCommand {
    /// Drive the line of `column` to the active level.
    Activate { column: usize },
    /// Read the line of `row` while the line of `column` is active.
    Sample { column: usize, row: usize },
    /// Drive the line of `column` back to the inactive level.
    Deactivate { column: usize },
    /// Nothing: the pass is over.
    Finished,
}

/// How a command ended.
#[derive(Clone, Copy, Debug, PartialEq, Eq, Structural)]
pub enum PinReply {
    /// The column line was driven.
    Driven,
    /// The row line was read, and was active or not.
    Level(bool),
    /// The pin could not be driven or read.
    Fault,
}

/// Where a pass stands.
#[derive(Clone, Copy, Debug, PartialEq, Eq, Structural)]
pub enum Stage {
    /// The column is to be driven active.
    Driving,
    /// The column is active and its rows are being read.
    Sampling,
    /// The column is to be driven inactive.
    Restoring,
    /// The pass is over.
    Finished,
}

/// The state of a pass.
pub struct ScanState {
    /// Where the pass stands.
    pub stage: Stage,
    /// The column at which it stands.
    pub column: usize,
    /// The row that is read next while the column is sampled, else zero.
    pub row: usize,
    /// The keys found closed so far.
    pub pressed: Set<u8>,
    /// Whether a fault has ended the pass early.
    pub aborted: bool,
}

impl ScanState {
    /// The state in which every pass starts: at the first column, with no
    /// key found.
    pub open spec fn start() -> ScanState {
        ScanState {
            stage: Stage::Driving,
            column: 0,
            row: 0,
            pressed: Set::empty(),
            aborted: false,
        }
    }

    /// What holds of every state that a pass can reach.
    pub open spec fn wf(self) -> bool {
        &&& self.column < COLUMN_COUNT
        &&& self.row < ROW_COUNT
        &&& self.stage != Stage::Sampling ==> self.row == 0
        &&& self.stage == Stage::Driving || self.stage == Stage::Sampling ==> !self.aborted
        &&& self.aborted ==> self.pressed == Set::<u8>::empty()
        &&& forall|key: u8| self.pressed.contains(key) ==> key < KEY_COUNT
    }

    /// The command that is due in this state.
    pub open spec fn command(self) -> PinCommand {
        match self.stage {
            Stage::Driving => PinCommand::Activate { column: self.column },
            Stage::Sampling => PinCommand::Sample { column: self.column, row: self.row },
            Stage::Restoring => PinCommand::Deactivate { column: self.column },
            Stage::Finished => PinCommand::Finished,
        }
    }

    /// The state after a fault: no key counts as closed, and all that is
    /// left to do is to drive the column inactive.
    pub open spec fn abort(self) -> ScanState {
        ScanState { stage: Stage::Restoring, row: 0, pressed: Set::empty(), aborted: true, ..self }
    }

    /// The state after the command due in this one ended with `reply`. A
    /// reply that does not answer the command counts as a fault.
    pub open spec fn step(self, reply: PinReply) -> ScanState {
        match self.stage {
            Stage::Driving => match reply {
                PinReply::Driven => ScanState { stage: Stage::Sampling, ..self },
                _ => self.abort(),
            },
            Stage::Sampling => match reply {
                PinReply::Level(active) => {
                    let pressed = if active {
                        self.pressed.insert(key_index_of(self.column as int, self.row as int) as u8)
                    } else {
                        self.pressed
                    };
                    if self.row + 1 < ROW_COUNT {
                        ScanState { row: (self.row + 1) as usize, pressed, ..self }
                    } else {
                        ScanState { stage: Stage::Restoring, row: 0, pressed, ..self }
                    }
                },
                _ => self.abort(),
            },
            Stage::Restoring => match reply {
                PinReply::Driven => if self.aborted || self.column + 1 >= COLUMN_COUNT {
                    ScanState { stage: Stage::Finished, ..self }
                } else {
                    ScanState { stage: Stage::Driving, column: (self.column + 1) as usize, ..self }
                },
                _ => ScanState {
                    stage: Stage::Finished,
                    pressed: Set::empty(),
                    aborted: true,
                    ..self
                },
            },
            Stage::Finished => self,
        }
    }

    /// The number of commands that a pass without faults still has to carry
    /// out from this state.
    pub open spec fn steps_left(self) -> int {
        let per_column = ROW_COUNT + 2;
        match self.stage {
            Stage::Driving => per_column * (COLUMN_COUNT - self.column),
            Stage::Sampling => ROW_COUNT - self.row + 1 + per_column * (COLUMN_COUNT - 1
                - self.column),
            Stage::Restoring => if self.aborted {
                1
            } else {
                1 + per_column * (COLUMN_COUNT - 1 - self.column)
            },
            Stage::Finished => 0,
        }
    }

    /// The columns that this state takes to be active.
    pub open spec fn held(self) -> Set<usize> {
        if self.stage == Stage::Sampling || self.stage == Stage::Restoring {
            set![self.column]
        } else {
            Set::empty()
        }
    }
}

/// A pass over the matrix, carried out command by command.
pub struct ScanPass {
    stage: Stage,
    column: usize,
    row: usize,
    pressed: KeySet,
    aborted: bool,
}

impl View for ScanPass {
    type V = ScanState;

    closed spec fn view(&self) -> ScanState {
        ScanState {
            stage: self.stage,
            column: self.column,
            row: self.row,
            pressed: self.pressed@,
            aborted: self.aborted,
        }
    }
}

impl ScanPass {
    #[verifier::type_invariant]
    closed spec fn reachable(self) -> bool {
        self@.wf()
    }

    /// Starts a pass.
    pub fn start() -> (pass: ScanPass)
        ensures
            pass@ == ScanState::start(),
            pass@.wf(),
    {
        ScanPass {
            stage: Stage::Driving,
            column: 0,
            row: 0,
            pressed: KeySet::new(),
            aborted: false,
        }
    }

    /// The command that is due.
    pub fn command(&self) -> (command: PinCommand)
        ensures
            command == self@.command(),
            self@.wf(),
    {
        proof {
            use_type_invariant(self);
        }
        match self.stage {
            Stage::Driving => PinCommand::Activate { column: self.column },
            Stage::Sampling => PinCommand::Sample { column: self.column, row: self.row },
            Stage::Restoring => PinCommand::Deactivate { column: self.column },
            Stage::Finished => PinCommand::Finished,
        }
    }

    /// Whether the pass is over.
    pub fn is_finished(&self) -> (finished: bool)
        ensures
            finished == (self@.stage == Stage::Finished),
    {
        match self.stage {
            Stage::Finished => true,
            _ => false,
        }
    }

    /// Whether a fault has ended the pass early.
    pub fn is_aborted(&self) -> (aborted: bool)
        ensures
            aborted == self@.aborted,
    {
        self.aborted
    }

    /// The keys found closed so far; none after a fault.
    pub fn pressed(&self) -> (keys: KeySet)
        ensures
            keys@ == self@.pressed,
            forall|key: u8| keys@.contains(key) ==> key < KEY_COUNT,
    {
        proof {
            self.pressed.lemma_in_range();
        }
        self.pressed
    }

    /// Takes note that the command due ended with `reply`, and moves on.
    pub fn advance(&mut self, reply: PinReply)
        ensures
            final(self)@ == old(self)@.step(reply),
            final(self)@.wf(),
    {
        proof {
            use_type_invariant(&*self);
        }
        let column = self.column;
        let row = self.row;
        let aborted = self.aborted;
        let mut pressed = self.pressed;
        let fault = ScanPass {
            stage: Stage::Restoring,
            column,
            row: 0,
            pressed: KeySet::new(),
            aborted: true,
        };
        let next = match self.stage {
            Stage::Driving => match reply {
                PinReply::Driven => ScanPass { stage: Stage::Sampling, column, row, pressed, aborted },
                _ => fault,
            },
            Stage::Sampling => match reply {
                PinReply::Level(active) => {
                    if active {
                        pressed.insert(key_index(column, row));
                    }
                    if row + 1 < ROW_COUNT {
                        ScanPass { stage: Stage::Sampling, column, row: row + 1, pressed, aborted }
                    } else {
                        ScanPass { stage: Stage::Restoring, column, row: 0, pressed, aborted }
                    }
                },
                _ => fault,
            },
            Stage::Restoring => match reply {
                PinReply::Driven => if aborted || column + 1 >= COLUMN_COUNT {
                    ScanPass { stage: Stage::Finished, column, row, pressed, aborted }
                } else {
                    ScanPass { stage: Stage::Driving, column: column + 1, row, pressed, aborted }
                },
                _ => ScanPass {
                    stage: Stage::Finished,
                    column,
                    row,
                    pressed: KeySet::new(),
                    aborted: true,
                },
            },
            Stage::Finished => ScanPass { stage: Stage::Finished, column, row, pressed, aborted },
        };
        *self = next;
    }
}

/// Every step keeps a pass within the states that it can reach, and brings
/// a pass that is not over nearer to its end: no pass takes more than
/// `COLUMN_COUNT * (ROW_COUNT + 2)` commands.
pub proof fn lemma_step_progress(state: ScanState, reply: PinReply)
    requires
        state.wf(),
    ensures
        state.step(reply).wf(),
        state.steps_left() <= COLUMN_COUNT * (ROW_COUNT + 2),
        state.stage != Stage::Finished ==> state.step(reply).steps_left() < state.steps_left(),
        state.stage == Stage::Finished <==> state.steps_left() == 0,
{
}

/// Whether `reply` answers `command`: a column line was driven, or a row
/// line was read.
pub open spec fn answers(command: PinCommand, reply: PinReply) -> bool {
    match command {
        PinCommand::Activate { .. } => reply == PinReply::Driven,
        PinCommand::Deactivate { .. } => reply == PinReply::Driven,
        PinCommand::Sample { .. } => reply is Level,
        PinCommand::Finished => true,
    }
}

/// The state of a pass that went from `state` through `replies`, one for
/// each command in turn.
pub open spec fn run(state: ScanState, replies: Seq<PinReply>) -> ScanState
    decreases replies.len(),
{
    if replies.len() == 0 {
        state
    } else {
        run(state, replies.drop_last()).step(replies.last())
    }
}

/// Whether each of `replies` answers the command that was due when it came,
/// in a pass that went from `state` through them.
pub open spec fn faithful(state: ScanState, replies: Seq<PinReply>) -> bool {
    forall|i: int|
        0 <= i < replies.len() ==> answers(
            run(state, replies.take(i)).command(),
            #[trigger] replies[i],
        )
}

/// The column lines that are active after `command` ended with `reply`, of
/// which `active` were active before.
pub open spec fn lines_after(active: Set<usize>, command: PinCommand, reply: PinReply) -> Set<
    usize,
> {
    match command {
        PinCommand::Activate { column } => if reply == PinReply::Driven {
            active.insert(column)
        } else {
            active
        },
        PinCommand::Deactivate { column } => if reply == PinReply::Driven {
            active.remove(column)
        } else {
            active
        },
        _ => active,
    }
}

/// The column lines that are active after a pass went from `state` through
/// `replies`, of which `active` were active at its start.
pub open spec fn lines(state: ScanState, active: Set<usize>, replies: Seq<PinReply>) -> Set<usize>
    decreases replies.len(),
{
    if replies.len() == 0 {
        active
    } else {
        lines_after(
            lines(state, active, replies.drop_last()),
            run(state, replies.drop_last()).command(),
            replies.last(),
        )
    }
}

/// Columns are scanned one at a time. In a pass that starts with every
/// column inactive and meets no fault, at most one column line is ever
/// active, namely the one that the pass is sampling or about to restore; a
/// column is driven active only while none is; and when the pass is over
/// every column is inactive again.
pub proof fn lemma_one_column_at_a_time(replies: Seq<PinReply>)
    requires
        faithful(ScanState::start(), replies),
    ensures
        run(ScanState::start(), replies).wf(),
        !run(ScanState::start(), replies).aborted,
        lines(ScanState::start(), Set::empty(), replies) == run(
            ScanState::start(),
            replies,
        ).held(),
        lines(ScanState::start(), Set::empty(), replies).len() <= 1,
        run(ScanState::start(), replies).command() is Activate ==> lines(
            ScanState::start(),
            Set::empty(),
            replies,
        ) == Set::<usize>::empty(),
        run(ScanState::start(), replies).stage == Stage::Finished ==> lines(
            ScanState::start(),
            Set::empty(),
            replies,
        ) == Set::<usize>::empty(),
    decreases replies.len(),
{
    let start = ScanState::start();
    if replies.len() > 0 {
        let earlier = replies.drop_last();
        assert forall|i: int| 0 <= i < earlier.len() implies answers(
            run(start, earlier.take(i)).command(),
            #[trigger] earlier[i],
        ) by {
            assert(earlier.take(i) =~= replies.take(i));
            assert(earlier[i] == replies[i]);
        }
        lemma_one_column_at_a_time(earlier);
    }
}

/// Whatever the replies, a pass stays within the states that it can reach.
pub proof fn lemma_run_wf(replies: Seq<PinReply>)
    ensures
        run(ScanState::start(), replies).wf(),
    decreases replies.len(),
{
    if replies.len() > 0 {
        lemma_run_wf(replies.drop_last());
    }
}

/// A fault ends the pass with no key found: once a command of a pass that
/// is not yet over has met a fault, or a reply that does not answer it, the
/// pass is marked as aborted and shows no key as closed, whatever follows.
pub proof fn lemma_fault_shows_no_key(replies: Seq<PinReply>, at: int)
    requires
        0 <= at < replies.len(),
        run(ScanState::start(), replies.take(at)).stage != Stage::Finished,
        replies[at] == PinReply::Fault || !answers(
            run(ScanState::start(), replies.take(at)).command(),
            replies[at],
        ),
    ensures
        run(ScanState::start(), replies).aborted,
        run(ScanState::start(), replies).pressed == Set::<u8>::empty(),
    decreases replies.len(),
{
    let earlier = replies.drop_last();
    lemma_run_wf(earlier);
    if at == replies.len() - 1 {
        assert(replies.take(at) =~= earlier);
    } else {
        assert(earlier.take(at) =~= replies.take(at));
        lemma_fault_shows_no_key(earlier, at);
    }
}

/// The place, among the replies of a pass without faults, of the reply that
/// carries the level of the crossing of `column` and `row`.
pub open spec fn sample_at(column: int, row: int) -> int {
    (ROW_COUNT + 2) * column + 1 + row
}

/// The keys whose level is among the first `count` of `replies` and reads
/// active.
pub open spec fn found_within(replies: Seq<PinReply>, count: int) -> Set<u8> {
    Set::new(
        |key: u8|
            key < KEY_COUNT && sample_at(
                key as int % COLUMN_COUNT as int,
                key as int / COLUMN_COUNT as int,
            ) < count && replies[sample_at(
                key as int % COLUMN_COUNT as int,
                key as int / COLUMN_COUNT as int,
            )] == PinReply::Level(true),
    )
}

/// A reply that answers the command due takes a pass without faults one
/// command further.
proof fn lemma_step_counts(state: ScanState, reply: PinReply)
    requires
        state.wf(),
        !state.aborted,
        state.stage != Stage::Finished,
        answers(state.command(), reply),
    ensures
        state.step(reply).wf(),
        !state.step(reply).aborted,
        state.step(reply).steps_left() == state.steps_left() - 1,
{
}

/// The keys found by a step: while a column is sampled, the key at the
/// crossing read joins those found if the level is active; no other step
/// finds a key.
proof fn lemma_step_finds(state: ScanState, reply: PinReply, key: u8)
    requires
        state.wf(),
        !state.aborted,
        state.stage != Stage::Finished,
        answers(state.command(), reply),
    ensures
        state.step(reply).pressed.contains(key) <==> state.pressed.contains(key) || (state.stage
            == Stage::Sampling && reply == PinReply::Level(true) && key == key_index_of(
            state.column as int,
            state.row as int,
        )),
{
}

/// The number of replies that a pass without faults in `state` has taken, by
/// the crossing at which it stands.
proof fn lemma_replies_taken(state: ScanState)
    requires
        state.wf(),
        !state.aborted,
    ensures
        state.stage == Stage::Driving ==> COLUMN_COUNT * (ROW_COUNT + 2) - state.steps_left()
            == sample_at(state.column as int, 0) - 1,
        state.stage == Stage::Sampling ==> COLUMN_COUNT * (ROW_COUNT + 2) - state.steps_left()
            == sample_at(state.column as int, state.row as int),
        state.stage == Stage::Restoring ==> COLUMN_COUNT * (ROW_COUNT + 2) - state.steps_left()
            == sample_at(state.column as int, ROW_COUNT as int),
        state.stage == Stage::Finished ==> state.steps_left() == 0,
{
}

/// Each crossing has a place of its own among the replies, and no command
/// that drives a column has its reply at such a place.
proof fn lemma_sample_places(key: int, column: int, row: int)
    requires
        0 <= key < KEY_COUNT,
        0 <= column < COLUMN_COUNT,
        0 <= row <= ROW_COUNT,
    ensures
        sample_at(key % (COLUMN_COUNT as int), key / (COLUMN_COUNT as int)) != sample_at(column, 0)
            - 1,
        sample_at(key % (COLUMN_COUNT as int), key / (COLUMN_COUNT as int)) != sample_at(
            column,
            ROW_COUNT as int,
        ),
        row < ROW_COUNT ==> (sample_at(key % (COLUMN_COUNT as int), key / (COLUMN_COUNT as int))
            == sample_at(column, row) <==> key == key_index_of(column, row)),
{
}

/// Where a pass without faults stands after `replies`: it takes the columns
/// in turn and spends on each one command to drive it active, one for each
/// row, and one to drive it inactive; the keys found are those whose level
/// has come and read active.
pub proof fn lemma_pass_position(replies: Seq<PinReply>)
    requires
        faithful(ScanState::start(), replies),
        replies.len() <= COLUMN_COUNT * (ROW_COUNT + 2),
    ensures
        run(ScanState::start(), replies).wf(),
        !run(ScanState::start(), replies).aborted,
        run(ScanState::start(), replies).steps_left() == COLUMN_COUNT * (ROW_COUNT + 2)
            - replies.len(),
        run(ScanState::start(), replies).pressed == found_within(replies, replies.len() as int),
    decreases replies.len(),
{
    let start = ScanState::start();
    if replies.len() > 0 {
        let earlier = replies.drop_last();
        let count = earlier.len() as int;
        assert forall|i: int| 0 <= i < earlier.len() implies answers(
            run(start, earlier.take(i)).command(),
            #[trigger] earlier[i],
        ) by {
            assert(earlier.take(i) =~= replies.take(i));
        }
        lemma_pass_position(earlier);
        let before = run(start, earlier);
        let after = before.step(replies.last());
        lemma_replies_taken(before);
        lemma_step_counts(before, replies.last());
        assert forall|key: u8|
            after.pressed.contains(key) == found_within(replies, count + 1).contains(key) by {
            lemma_step_finds(before, replies.last(), key);
            assert(before.pressed.contains(key) == found_within(earlier, count).contains(key));
            if key < KEY_COUNT {
                lemma_sample_places(key as int, before.column as int, before.row as int);
            }
        }
    }
}

/// A pass without faults is over after `COLUMN_COUNT * (ROW_COUNT + 2)`
/// commands, and has then found exactly the keys whose crossing read
/// active: the level of the crossing of `column` and `row` is the reply at
/// place `sample_at(column, row)`.
pub proof fn lemma_pass_finds_closed_keys(replies: Seq<PinReply>)
    requires
        faithful(ScanState::start(), replies),
        replies.len() == COLUMN_COUNT * (ROW_COUNT + 2),
    ensures
        run(ScanState::start(), replies).stage == Stage::Finished,
        forall|column: int, row: int|
            0 <= column < COLUMN_COUNT && 0 <= row < ROW_COUNT ==> (run(
                ScanState::start(),
                replies,
            ).pressed.contains(#[trigger] key_index_of(column, row) as u8) <==> replies[sample_at(
                column,
                row,
            )] == PinReply::Level(true)),
        forall|key: u8| run(ScanState::start(), replies).pressed.contains(key) ==> key < KEY_COUNT,
{
    lemma_pass_position(replies);
    lemma_replies_taken(run(ScanState::start(), replies));
    lemma_step_progress(run(ScanState::start(), replies), PinReply::Driven);
    let pressed = run(ScanState::start(), replies).pressed;
    assert forall|column: int, row: int|
        0 <= column < COLUMN_COUNT && 0 <= row < ROW_COUNT implies (pressed.contains(
        #[trigger] key_index_of(column, row) as u8,
    ) <==> replies[sample_at(column, row)] == PinReply::Level(true)) by {
        lemma_key_index_in_range(column, row);
        assert(sample_at(column, row) == 12 * column + 1 + row);
    }
}

/// The level read at the crossing of `column` and `row`.
pub open spec fn level_at(
    levels: [[bool; ROW_COUNT]; COLUMN_COUNT],
    column: int,
    row: int,
) -> bool {
    levels[column][row]
}

/// The keys whose crossing reads active in `levels`.
pub open spec fn closed_keys(levels: [[bool; ROW_COUNT]; COLUMN_COUNT]) -> Set<u8> {
    Set::new(
        |key: u8|
            key < KEY_COUNT && level_at(
                levels,
                key as int % COLUMN_COUNT as int,
                key as int / COLUMN_COUNT as int,
            ),
    )
}

/// Whether a pass in `state` has read the crossing of `column` and `row`.
pub open spec fn visited(state: ScanState, column: int, row: int) -> bool {
    match state.stage {
        Stage::Driving => column < state.column,
        Stage::Sampling => column < state.column || (column == state.column && row < state.row),
        Stage::Restoring => column <= state.column,
        Stage::Finished => true,
    }
}

/// The keys whose crossing reads active in `levels` and has been read by a
/// pass in `state`.
pub open spec fn closed_so_far(levels: [[bool; ROW_COUNT]; COLUMN_COUNT], state: ScanState) -> Set<
    u8,
> {
    Set::new(
        |key: u8|
            key < KEY_COUNT && level_at(
                levels,
                key as int % COLUMN_COUNT as int,
                key as int / COLUMN_COUNT as int,
            ) && visited(state, key as int % COLUMN_COUNT as int, key as int / COLUMN_COUNT as int),
    )
}

/// Carries out a whole pass on levels that were read beforehand,
/// `levels[column][row]` for each crossing, and returns the keys found
/// closed: those whose crossing reads active.
pub fn scan_levels(levels: &[[bool; ROW_COUNT]; COLUMN_COUNT]) -> (pressed: KeySet)
    ensures
        pressed@ == closed_keys(*levels),
        forall|column: int, row: int|
            0 <= column < COLUMN_COUNT && 0 <= row < ROW_COUNT ==> (pressed@.contains(
                #[trigger] key_index_of(column, row) as u8,
            ) <==> level_at(*levels, column, row)),
        forall|key: u8| pressed@.contains(key) ==> key < KEY_COUNT,
{
    let mut pass = ScanPass::start();
    while !pass.is_finished()
        invariant
            pass@.wf(),
            !pass@.aborted,
            pass@.pressed == closed_so_far(*levels, pass@),
        decreases pass@.steps_left(),
    {
        let reply = match pass.command() {
            PinCommand::Sample { column, row } => PinReply::Level(levels[column][row]),
            _ => PinReply::Driven,
        };
        pass.advance(reply);
    }
    let pressed = pass.pressed();
    proof {
        assert forall|column: int, row: int|
            0 <= column < COLUMN_COUNT && 0 <= row < ROW_COUNT implies (pressed@.contains(
            #[trigger] key_index_of(column, row) as u8,
        ) <==> level_at(*levels, column, row)) by {
            lemma_key_index_in_range(column, row);
        }
    }
    pressed
}

} // verus!
