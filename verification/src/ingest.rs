//! Ingestion as a state machine: what to do with each corpus line, and what
//! the store holds once the run has ended.
//!
//! The caller owns the corpus, the store and its one transaction. It feeds
//! the lines in order and performs each step (queue an insert, go on, stop);
//! where reading or storing fails, it says so. At the end it commits or rolls
//! back as `finish` says. Nothing is committed before the end, so a run that
//! was stopped leaves no row behind.
//!
//! A line that is not a lexical record is handled by the policy of the run,
//! which is fixed when the run starts and holds for every line. A strict
//! run stops at the line: nothing is stored, and the error names the line.
//! A lenient run counts the line and passes over it. A run is strict unless
//! it is asked to be lenient. A failure of the corpus or of the store stops
//! every run.

use crate::entry::parse_line;
use crate::entry::row_of_line;
use crate::error::decimal;
use crate::error::push_decimal;
use crate::error::AppError;
use crate::structs::Row;
use crate::structs::RowView;
use crate::text::chars_of;
use crate::text::push_str;
use crate::text::string_of;
use crate::text::views_of;
use vstd::prelude::*;

verus! {

/// What happens to a line that is not a lexical record.
#[derive(Debug, Clone, Copy, PartialEq, Eq)]
pub enum Policy {
    /// The run stops at the line and nothing is committed.
    Strict,
    /// The line is counted and passed over.
    Lenient,
}

impl Default for Policy {
    /// A run is strict.
    fn default() -> (policy: Policy)
        ensures
            policy == Policy::Strict,
    {
        Policy::Strict
    }
}

/// Where a run stands.
#[derive(Debug, Clone, PartialEq, Eq)]
pub struct Ingest {
    pub policy: Policy,
    /// The lines taken so far: those stored and those passed over.
    pub lines: u64,
    /// The rows queued in the transaction.
    pub stored: u64,
    /// The malformed lines passed over.
    pub skipped: u64,
    /// Why the run was stopped, where it was.
    pub failure: Option<AppError>,
}

/// What the caller does with the line it has just fed.
#[derive(Debug, Clone, PartialEq, Eq)]
pub enum Step {
    /// Queue this row in the transaction.
    Insert(Row),
    /// Go on with the next line.
    Skip,
    /// Stop reading: the run has been stopped.
    Stop,
}

/// How a run that was committed went.
#[derive(Debug, Clone, Copy, PartialEq, Eq)]
pub struct IngestReport {
    /// The rows that were stored.
    pub stored: u64,
    /// The malformed lines that were passed over.
    pub skipped: u64,
}

/// The progress bar of a load.
pub const INGEST_BAR: &'static str = "[{bar:40.cyan/blue}][{percent}%][{elapsed_precise}][ETA: {eta}]";

/// What the user is told of a load that was committed.
pub open spec fn summary_text(report: IngestReport) -> Seq<char> {
    "Stored "@ + decimal(report.stored as nat) + " entries, passed over "@ + decimal(
        report.skipped as nat,
    ) + " malformed lines"@
}

impl IngestReport {
    /// What the user is told of the load.
    pub fn summary(&self) -> (r: String)
        ensures
            r@ == summary_text(*self),
    {
        let mut out = chars_of("Stored ");
        push_decimal(&mut out, self.stored);
        push_str(&mut out, " entries, passed over ");
        push_decimal(&mut out, self.skipped);
        push_str(&mut out, " malformed lines");
        string_of(&out)
    }
}

/// What a run is fed: the next line of the corpus, or the failure of the
/// corpus or of the store.
pub enum Event {
    Line(Seq<char>),
    Failure(AppError),
}

/// Why a run was stopped: the line with this number, counted from one, is
/// malformed, or the corpus or the store failed.
pub enum Stopped {
    Malformed(nat),
    Failed(AppError),
}

/// A run as contracts speak of it: the counters as numbers without bound.
pub struct IngestView {
    pub policy: Policy,
    pub lines: nat,
    pub stored: nat,
    pub skipped: nat,
    pub stopped: Option<Stopped>,
}

/// What a step asks of the caller, over views.
pub enum Effect {
    Insert(RowView),
    Skip,
    Stop,
}

/// Why a run that holds `failure` was stopped.
pub open spec fn stopped_by(failure: AppError) -> Stopped {
    match failure {
        AppError::MalformedRecord(n) => Stopped::Malformed(n as nat),
        _ => Stopped::Failed(failure),
    }
}

impl View for Ingest {
    type V = IngestView;

    open spec fn view(&self) -> IngestView {
        IngestView {
            policy: self.policy,
            lines: self.lines as nat,
            stored: self.stored as nat,
            skipped: self.skipped as nat,
            stopped: match self.failure {
                Some(failure) => Some(stopped_by(failure)),
                None => None,
            },
        }
    }
}

impl View for Step {
    type V = Effect;

    open spec fn view(&self) -> Effect {
        match self {
            Step::Insert(row) => Effect::Insert(row@),
            Step::Skip => Effect::Skip,
            Step::Stop => Effect::Stop,
        }
    }
}

/// The state before the first line.
pub open spec fn initial(policy: Policy) -> IngestView {
    IngestView { policy, lines: 0, stored: 0, skipped: 0, stopped: None }
}

/// Every line taken was stored or passed over.
pub open spec fn consistent(s: IngestView) -> bool {
    s.lines == s.stored + s.skipped
}

/// The state after `event`. A run that has been stopped stays as it is.
pub open spec fn step(s: IngestView, event: Event) -> IngestView {
    if s.stopped is Some {
        s
    } else {
        match event {
            Event::Line(line) => match row_of_line(line) {
                Some(_) => IngestView { lines: s.lines + 1, stored: s.stored + 1, ..s },
                None => match s.policy {
                    Policy::Strict => IngestView {
                        stopped: Some(Stopped::Malformed(s.lines + 1)),
                        ..s
                    },
                    Policy::Lenient => IngestView {
                        lines: s.lines + 1,
                        skipped: s.skipped + 1,
                        ..s
                    },
                },
            },
            Event::Failure(failure) => IngestView { stopped: Some(stopped_by(failure)), ..s },
        }
    }
}

/// What the caller is asked to do after `event` in state `s`.
pub open spec fn effect(s: IngestView, event: Event) -> Effect {
    if s.stopped is Some {
        Effect::Stop
    } else {
        match event {
            Event::Line(line) => match row_of_line(line) {
                Some(row) => Effect::Insert(row),
                None => match s.policy {
                    Policy::Strict => Effect::Stop,
                    Policy::Lenient => Effect::Skip,
                },
            },
            Event::Failure(_) => Effect::Stop,
        }
    }
}

/// The state after `events`, fed in order from the start.
pub open spec fn state_after(policy: Policy, events: Seq<Event>) -> IngestView
    decreases events.len(),
{
    if events.len() == 0 {
        initial(policy)
    } else {
        step(state_after(policy, events.drop_last()), events.last())
    }
}

/// The rows that the transaction holds after `events`, in the order queued.
pub open spec fn pending_after(policy: Policy, events: Seq<Event>) -> Seq<RowView>
    decreases events.len(),
{
    if events.len() == 0 {
        Seq::empty()
    } else {
        let before = pending_after(policy, events.drop_last());
        match effect(state_after(policy, events.drop_last()), events.last()) {
            Effect::Insert(row) => before.push(row),
            _ => before,
        }
    }
}

/// The rows of this run that the store holds once the run has ended: those
/// of the transaction where the run was not stopped, none where it was.
pub open spec fn committed(policy: Policy, events: Seq<Event>) -> Seq<RowView> {
    if state_after(policy, events).stopped is Some {
        Seq::empty()
    } else {
        pending_after(policy, events)
    }
}

/// Whether `event` stops a run of this policy.
pub open spec fn stops(policy: Policy, event: Event) -> bool {
    match event {
        Event::Line(line) => policy == Policy::Strict && row_of_line(line) is None,
        Event::Failure(_) => true,
    }
}

/// A corpus that is read without failure, as what the run is fed.
pub open spec fn line_events(lines: Seq<Seq<char>>) -> Seq<Event> {
    Seq::new(lines.len(), |i: int| Event::Line(lines[i]))
}

/// How many of `lines` are malformed.
pub open spec fn malformed(lines: Seq<Seq<char>>) -> nat
    decreases lines.len(),
{
    if lines.len() == 0 {
        0
    } else {
        malformed(lines.drop_last()) + if row_of_line(lines.last()) is None {
            1nat
        } else {
            0nat
        }
    }
}

/// The rows of the well-formed lines among `lines`, in order.
pub open spec fn rows_of(lines: Seq<Seq<char>>) -> Seq<RowView>
    decreases lines.len(),
{
    if lines.len() == 0 {
        Seq::empty()
    } else {
        match row_of_line(lines.last()) {
            Some(row) => rows_of(lines.drop_last()).push(row),
            None => rows_of(lines.drop_last()),
        }
    }
}

impl Ingest {
    /// A run that has taken no line yet.
    pub fn new(policy: Policy) -> (s: Ingest)
        ensures
            s@ == initial(policy),
            s.failure is None,
            s.has_room(),
    {
        Ingest { policy, lines: 0, stored: 0, skipped: 0, failure: None }
    }

    /// Whether the counters have room for one more line.
    pub open spec fn has_room(&self) -> bool {
        consistent(self@) && self.lines < u64::MAX
    }

    /// Whether `line` can be called: tests `has_room`.
    pub fn ready(&self) -> (r: bool)
        ensures
            r == self.has_room(),
    {
        self.lines < u64::MAX && self.lines as u128 == self.stored as u128 + self.skipped as u128
    }

    /// Takes the next line and says what to do with it.
    pub fn line(&mut self, line: &str) -> (todo: Step)
        requires
            old(self).has_room(),
        ensures
            final(self)@ == step(old(self)@, Event::Line(line@)),
            todo@ == effect(old(self)@, Event::Line(line@)),
            consistent(final(self)@),
            old(self).failure is Some ==> final(self).failure == old(self).failure,
            old(self).failure is None && final(self).failure is Some ==> final(self).failure
                == Some(AppError::MalformedRecord((old(self).lines + 1) as u64)),
    {
        if self.failure.is_some() {
            return Step::Stop;
        }
        match parse_line(line) {
            Some(row) => {
                self.lines = self.lines + 1;
                self.stored = self.stored + 1;
                Step::Insert(row)
            },
            None => match self.policy {
                Policy::Strict => {
                    self.failure = Some(AppError::MalformedRecord(self.lines + 1));
                    Step::Stop
                },
                Policy::Lenient => {
                    self.lines = self.lines + 1;
                    self.skipped = self.skipped + 1;
                    Step::Skip
                },
            },
        }
    }

    /// Takes the failure of the corpus or of the store: the run is stopped.
    /// A run that was stopped before keeps its first failure.
    pub fn fail(&mut self, failure: AppError)
        ensures
            final(self)@ == step(old(self)@, Event::Failure(failure)),
            final(self).failure is Some,
            final(self).failure == if old(self).failure is Some {
                old(self).failure
            } else {
                Some(failure)
            },
            consistent(old(self)@) ==> consistent(final(self)@),
    {
        if self.failure.is_none() {
            self.failure = Some(failure);
        }
    }

    /// What to do at the end of the input: commit, with this report, or roll
    /// back, with the failure that stopped the run.
    pub fn finish(self) -> (r: Result<IngestReport, AppError>)
        ensures
            match self.failure {
                Some(failure) => r == Err::<IngestReport, AppError>(failure),
                None => r == Ok::<IngestReport, AppError>(
                    IngestReport { stored: self.stored, skipped: self.skipped },
                ),
            },
    {
        match self.failure {
            Some(failure) => Err(failure),
            None => Ok(IngestReport { stored: self.stored, skipped: self.skipped }),
        }
    }
}

/// What a run keeps true: the counters are consistent, the transaction holds
/// as many rows as were counted, and a run that was not stopped has taken
/// every line.
pub proof fn lemma_run_counts(policy: Policy, events: Seq<Event>)
    ensures
        consistent(state_after(policy, events)),
        state_after(policy, events).policy == policy,
        pending_after(policy, events).len() == state_after(policy, events).stored,
        state_after(policy, events).lines <= events.len(),
        state_after(policy, events).stopped is None ==> state_after(policy, events).lines
            == events.len(),
    decreases events.len(),
{
    if events.len() > 0 {
        lemma_run_counts(policy, events.drop_last());
    }
}

/// A run is stopped exactly where one of its events stops it.
pub proof fn lemma_stopped_by_an_event(policy: Policy, events: Seq<Event>)
    ensures
        state_after(policy, events).stopped is Some <==> exists|n: int|
            0 <= n < events.len() && stops(policy, #[trigger] events[n]),
    decreases events.len(),
{
    if events.len() > 0 {
        let before = events.drop_last();
        lemma_stopped_by_an_event(policy, before);
        lemma_run_counts(policy, before);
        assert forall|n: int| 0 <= n < before.len() implies before[n] == events[n] by {}
        if state_after(policy, before).stopped is Some {
            let n = choose|n: int| 0 <= n < before.len() && stops(policy, #[trigger] before[n]);
            assert(stops(policy, events[n]));
        } else if stops(policy, events.last()) {
            assert(stops(policy, events[events.len() - 1]));
        } else {
            if exists|n: int| 0 <= n < events.len() && stops(policy, #[trigger] events[n]) {
                let n = choose|n: int| 0 <= n < events.len() && stops(policy, #[trigger] events[n]);
                if n < before.len() {
                    assert(stops(policy, before[n]));
                }
            }
        }
    }
}

/// Atomicity, of every failure. Where a failure is among the events of a run,
/// or a malformed line among those of a strict run, the store holds no row
/// of the run.
pub proof fn lemma_stopped_run_is_atomic(policy: Policy, events: Seq<Event>, n: int)
    requires
        0 <= n < events.len(),
        stops(policy, events[n]),
    ensures
        state_after(policy, events).stopped is Some,
        committed(policy, events).len() == 0,
{
    lemma_stopped_by_an_event(policy, events);
}

/// A strict run that was not stopped saw only well-formed lines; one that
/// was stopped by a line saw only well-formed lines before that one.
pub proof fn lemma_strict_stops_at_first(lines: Seq<Seq<char>>)
    ensures
        state_after(Policy::Strict, line_events(lines)).stopped is None ==> forall|k: int|
            0 <= k < lines.len() ==> row_of_line(#[trigger] lines[k]) is Some,
        state_after(Policy::Strict, line_events(lines)).stopped matches Some(why) ==> why
            matches Stopped::Malformed(at) && 1 <= at <= lines.len() && row_of_line(
            lines[at - 1],
        ) is None && forall|k: int| 0 <= k < at - 1 ==> row_of_line(#[trigger] lines[k]) is Some,
    decreases lines.len(),
{
    if lines.len() > 0 {
        let before = lines.drop_last();
        lemma_strict_stops_at_first(before);
        lemma_run_counts(Policy::Strict, line_events(before));
        assert(line_events(lines).drop_last() =~= line_events(before));
        assert(line_events(lines).last() == Event::Line(lines.last()));
        assert forall|k: int| 0 <= k < before.len() implies before[k] == lines[k] by {}
        match state_after(Policy::Strict, line_events(lines)).stopped {
            None => {
                assert forall|k: int| 0 <= k < lines.len() implies row_of_line(
                    #[trigger] lines[k],
                ) is Some by {
                    if k < before.len() {
                        assert(row_of_line(before[k]) is Some);
                    }
                }
            },
            Some(why) => {
                let at = why->Malformed_0;
                assert(row_of_line(lines[at - 1]) is None) by {
                    if at - 1 < before.len() {
                        assert(before[at - 1] == lines[at - 1]);
                    }
                }
                assert forall|k: int| 0 <= k < at - 1 implies row_of_line(
                    #[trigger] lines[k],
                ) is Some by {
                    assert(row_of_line(before[k]) is Some);
                }
            },
        }
    }
}

/// Atomicity. Where one of the lines is malformed, a strict run is stopped,
/// at the first such line, and the store holds no row of the run.
pub proof fn lemma_strict_run_is_atomic(lines: Seq<Seq<char>>, n: int)
    requires
        0 <= n < lines.len(),
        row_of_line(lines[n]) is None,
    ensures
        state_after(Policy::Strict, line_events(lines)).stopped matches Some(
            Stopped::Malformed(at),
        ) && 1 <= at <= n + 1 && row_of_line(lines[at - 1]) is None && (forall|k: int|
            0 <= k < at - 1 ==> row_of_line(#[trigger] lines[k]) is Some),
        committed(Policy::Strict, line_events(lines)).len() == 0,
{
    assert(stops(Policy::Strict, line_events(lines)[n]));
    lemma_stopped_run_is_atomic(Policy::Strict, line_events(lines), n);
    lemma_strict_stops_at_first(lines);
}

/// Lenient count. A lenient run over a corpus that is read without failure
/// is never stopped. Of `M` lines with `K` malformed ones among them it
/// stores `M - K` rows and passes over `K` lines, and the store then holds
/// the rows of the well-formed lines, in order.
pub proof fn lemma_lenient_run_counts(lines: Seq<Seq<char>>)
    ensures
        state_after(Policy::Lenient, line_events(lines)).stopped is None,
        malformed(lines) <= lines.len(),
        state_after(Policy::Lenient, line_events(lines)).stored == lines.len() - malformed(lines),
        state_after(Policy::Lenient, line_events(lines)).skipped == malformed(lines),
        committed(Policy::Lenient, line_events(lines)) == rows_of(lines),
        committed(Policy::Lenient, line_events(lines)).len() == lines.len() - malformed(lines),
    decreases lines.len(),
{
    if lines.len() > 0 {
        lemma_lenient_run_counts(lines.drop_last());
        assert(line_events(lines).drop_last() =~= line_events(lines.drop_last()));
        assert(line_events(lines).last() == Event::Line(lines.last()));
    }
    lemma_run_counts(Policy::Lenient, line_events(lines));
}

/// A strict run over lines that are all well formed stores a row for each.
pub proof fn lemma_strict_run_of_good_lines(lines: Seq<Seq<char>>)
    requires
        malformed(lines) == 0,
    ensures
        state_after(Policy::Strict, line_events(lines)).stopped is None,
        committed(Policy::Strict, line_events(lines)) == rows_of(lines),
        committed(Policy::Strict, line_events(lines)).len() == lines.len(),
    decreases lines.len(),
{
    if lines.len() > 0 {
        lemma_strict_run_of_good_lines(lines.drop_last());
        assert(line_events(lines).drop_last() =~= line_events(lines.drop_last()));
        assert(line_events(lines).last() == Event::Line(lines.last()));
    }
    lemma_run_counts(Policy::Strict, line_events(lines));
}

/// A run that was stopped after the first `n` events stays as it was then.
pub proof fn lemma_state_stays_stopped(policy: Policy, events: Seq<Event>, n: int)
    requires
        0 <= n <= events.len(),
        state_after(policy, events.take(n)).stopped is Some,
    ensures
        state_after(policy, events) == state_after(policy, events.take(n)),
    decreases events.len() - n,
{
    if n < events.len() {
        assert(events.take(n + 1).drop_last() =~= events.take(n));
        lemma_state_stays_stopped(policy, events, n + 1);
    } else {
        assert(events.take(n) =~= events);
    }
}

/// Runs `lines` as one load and gives the rows to commit with the report, or
/// the error of a run that was stopped, for which nothing is to be stored.
pub fn ingest_lines(lines: &Vec<String>, policy: Policy) -> (r: Result<
    (Vec<Row>, IngestReport),
    AppError,
>)
    ensures
        match r {
            Ok((rows, report)) => {
                &&& state_after(policy, line_events(views_of(lines@))).stopped is None
                &&& views_of(rows@) == committed(policy, line_events(views_of(lines@)))
                &&& report.stored == rows@.len()
                &&& report.stored == state_after(policy, line_events(views_of(lines@))).stored
                &&& report.skipped == state_after(policy, line_events(views_of(lines@))).skipped
            },
            Err(e) => {
                &&& state_after(policy, line_events(views_of(lines@))).stopped matches Some(
                    Stopped::Malformed(at),
                )
                &&& e == AppError::MalformedRecord(at as u64)
                &&& at <= lines@.len()
                &&& committed(policy, line_events(views_of(lines@))).len() == 0
            },
        },
{
    let ghost all = line_events(views_of(lines@));
    let mut state = Ingest::new(policy);
    let mut rows: Vec<Row> = Vec::new();
    let mut i: usize = 0;
    proof {
        assert(all.take(0) =~= Seq::<Event>::empty());
    }
    while i < lines.len()
        invariant
            i <= lines.len(),
            all == line_events(views_of(lines@)),
            state@ == state_after(policy, all.take(i as int)),
            state.failure is None,
            state.lines == i,
            consistent(state@),
            views_of(rows@) == pending_after(policy, all.take(i as int)),
        decreases lines.len() - i,
    {
        proof {
            assert(all.take(i + 1).drop_last() =~= all.take(i as int));
            assert(all.take(i + 1).last() == Event::Line(lines@[i as int]@));
        }
        let ghost queued = views_of(rows@);
        match state.line(lines[i].as_str()) {
            Step::Insert(row) => {
                rows.push(row);
                assert(views_of(rows@) =~= queued.push(row@));
            },
            Step::Skip => {},
            Step::Stop => {
                proof {
                    lemma_state_stays_stopped(policy, all, i + 1);
                }
                return Err(AppError::MalformedRecord(state.lines + 1));
            },
        }
        i += 1;
    }
    proof {
        assert(all.take(lines.len() as int) =~= all);
        lemma_run_counts(policy, all);
    }
    Ok((rows, IngestReport { stored: state.stored, skipped: state.skipped }))
}

} // verus!
