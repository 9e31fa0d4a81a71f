//! A run as a state machine. The session decides; its driver does the work:
//! it performs the action that the session names and reports what came of it
//! as the next event.
//!
//! A run opens the store, resolves the root directory, ensures that a row is
//! kept under the root's name, fetches that row, and then takes lines: each
//! name moves the counter on by one and has a numbered directory made, and the
//! sentinel has the counter written back, once, before the run ends.

use crate::input::ends_session;
use crate::naming::{numbered_name, root_name, root_name_of};
use crate::structs::{Failure, Record, RecordView};
use crate::utils::{dir_fuctory, props_provider, root_counter, Turn};
use vstd::prelude::*;

verus! {

/// Where a run stands: what its driver is working on.
#[derive(Debug, Clone, Copy, PartialEq, Eq, Structural)]
pub enum Stage {
    /// The store is being opened.
    Connecting,
    /// The root directory is being resolved.
    Resolving,
    /// The row of the root is being ensured.
    Ensuring,
    /// The row of the root is being fetched.
    Fetching,
    /// A line is being read.
    Prompting,
    /// A numbered directory is being made.
    Creating,
    /// The counter is being written back.
    Persisting,
    /// The run has ended as it should.
    Finished,
    /// The run has ended early.
    Aborted(Failure),
}

/// What the driver reports.
#[derive(Debug, Clone, PartialEq, Eq)]
pub enum Event {
    /// The store is open.
    Connected,
    /// The root directory exists now: `path` is its absolute path, or `None`
    /// where the path could not be resolved, and `is_new` says whether the
    /// directory had to be made.
    Resolved { path: Option<String>, is_new: bool },
    /// The store took the statement.
    Stored,
    /// The store answered: `row` is the row kept under the name, if there is
    /// one.
    Fetched { row: Option<Record> },
    /// A line was entered.
    Line { text: String },
    /// The directory was made.
    Created,
    /// The work could not be done.
    Failed,
}

/// What the driver is to do next.
#[derive(Debug, Clone, PartialEq, Eq)]
pub enum Action {
    /// Open the store.
    Connect,
    /// Make the root directory if it is missing, and resolve its path.
    Resolve,
    /// Add a row for `dir_name` with `initial`, unless one is kept already.
    Ensure { dir_name: String, initial: i64 },
    /// Fetch the row kept under `dir_name`.
    Fetch { dir_name: String },
    /// Ask for a line.
    Prompt,
    /// Make the directory `dir_name` under the root.
    Create { dir_name: String },
    /// Write `value` as the counter of the row kept under `dir_name`.
    Persist { dir_name: String, value: i64 },
    /// End the run: all went well.
    Finish,
    /// End the run with a failure.
    Abort { failure: Failure },
}

/// What an event is.
pub enum EventView {
    Connected,
    Resolved { path: Option<Seq<char>>, is_new: bool },
    Stored,
    Fetched { row: Option<RecordView> },
    Line { text: Seq<char> },
    Created,
    Failed,
}

/// What an action is.
pub enum ActionView {
    Connect,
    Resolve,
    Ensure { dir_name: Seq<char>, initial: i64 },
    Fetch { dir_name: Seq<char> },
    Prompt,
    Create { dir_name: Seq<char> },
    Persist { dir_name: Seq<char>, value: i64 },
    Finish,
    Abort { failure: Failure },
}

/// What a session is: its stage, the name of the root directory once it is
/// known, and the counter.
pub struct SessionView {
    pub stage: Stage,
    pub dir_name: Seq<char>,
    pub counter: i64,
}

impl View for Event {
    type V = EventView;

    open spec fn view(&self) -> EventView {
        match self {
            Event::Connected => EventView::Connected,
            Event::Resolved { path, is_new } => EventView::Resolved {
                path: match path {
                    Some(text) => Some(text@),
                    None => None,
                },
                is_new: *is_new,
            },
            Event::Stored => EventView::Stored,
            Event::Fetched { row } => EventView::Fetched {
                row: match row {
                    Some(record) => Some(record@),
                    None => None,
                },
            },
            Event::Line { text } => EventView::Line { text: text@ },
            Event::Created => EventView::Created,
            Event::Failed => EventView::Failed,
        }
    }
}

impl View for Action {
    type V = ActionView;

    open spec fn view(&self) -> ActionView {
        match self {
            Action::Connect => ActionView::Connect,
            Action::Resolve => ActionView::Resolve,
            Action::Ensure { dir_name, initial } => ActionView::Ensure {
                dir_name: dir_name@,
                initial: *initial,
            },
            Action::Fetch { dir_name } => ActionView::Fetch { dir_name: dir_name@ },
            Action::Prompt => ActionView::Prompt,
            Action::Create { dir_name } => ActionView::Create { dir_name: dir_name@ },
            Action::Persist { dir_name, value } => ActionView::Persist {
                dir_name: dir_name@,
                value: *value,
            },
            Action::Finish => ActionView::Finish,
            Action::Abort { failure } => ActionView::Abort { failure: *failure },
        }
    }
}

/// The session `s` in another stage.
pub open spec fn at(s: SessionView, stage: Stage) -> SessionView {
    SessionView { stage, dir_name: s.dir_name, counter: s.counter }
}

/// The session `s` ended early.
pub open spec fn aborted(s: SessionView, failure: Failure) -> (SessionView, ActionView) {
    (at(s, Stage::Aborted(failure)), ActionView::Abort { failure })
}

/// The session and the action that follow when the session `s` is told of
/// `event`.
///
/// Each stage waits for the outcome of one piece of work. An event that tells
/// of anything else counts as that work having failed. Failure ends the run,
/// with two exceptions: a directory that could not be made is passed over and
/// the next line is asked for, and a session that waits for a line goes on
/// waiting. A run that has ended stays as it is.
pub open spec fn next(s: SessionView, event: EventView) -> (SessionView, ActionView) {
    match s.stage {
        Stage::Connecting => match event {
            EventView::Connected => (at(s, Stage::Resolving), ActionView::Resolve),
            _ => aborted(s, Failure::StorageConnection),
        },
        Stage::Resolving => match event {
            EventView::Resolved { path, is_new } => match root_counter(path) {
                Ok(initial) => {
                    let dir_name = root_name_of(path->Some_0)->Some_0;
                    (
                        SessionView { stage: Stage::Ensuring, dir_name, counter: initial },
                        ActionView::Ensure { dir_name, initial },
                    )
                },
                Err(failure) => aborted(s, failure),
            },
            _ => aborted(s, Failure::DirectoryCreate),
        },
        Stage::Ensuring => match event {
            EventView::Stored => (
                at(s, Stage::Fetching),
                ActionView::Fetch { dir_name: s.dir_name },
            ),
            _ => aborted(s, Failure::StorageWrite),
        },
        Stage::Fetching => match event {
            EventView::Fetched { row: Some(record) } => (
                SessionView {
                    stage: Stage::Prompting,
                    dir_name: s.dir_name,
                    counter: record.current_number,
                },
                ActionView::Prompt,
            ),
            EventView::Fetched { row: None } => aborted(s, Failure::NotFound),
            _ => aborted(s, Failure::StorageConnection),
        },
        Stage::Prompting => match event {
            EventView::Line { text } => if ends_session(text) {
                (
                    at(s, Stage::Persisting),
                    ActionView::Persist { dir_name: s.dir_name, value: s.counter },
                )
            } else {
                (
                    SessionView {
                        stage: Stage::Creating,
                        dir_name: s.dir_name,
                        counter: (s.counter + 1) as i64,
                    },
                    ActionView::Create { dir_name: numbered_name(s.counter + 1, text) },
                )
            },
            _ => (s, ActionView::Prompt),
        },
        Stage::Creating => (at(s, Stage::Prompting), ActionView::Prompt),
        Stage::Persisting => match event {
            EventView::Stored => (at(s, Stage::Finished), ActionView::Finish),
            _ => aborted(s, Failure::StorageWrite),
        },
        Stage::Finished => (s, ActionView::Finish),
        Stage::Aborted(failure) => (s, ActionView::Abort { failure }),
    }
}

/// Whether the session `s` can take `event`: the one thing in its way is a
/// counter that cannot move on, when a name is entered.
pub open spec fn can_take(s: SessionView, event: EventView) -> bool {
    s.stage == Stage::Prompting && event is Line && !ends_session(event->Line_text)
        ==> s.counter < i64::MAX
}

/// A run in progress.
#[derive(Debug, Clone, PartialEq, Eq)]
pub struct Session {
    stage: Stage,
    dir_name: String,
    counter: i64,
}

impl View for Session {
    type V = SessionView;

    closed spec fn view(&self) -> SessionView {
        SessionView { stage: self.stage, dir_name: self.dir_name@, counter: self.counter }
    }
}

impl Session {
    /// A session at its beginning, and the first thing to do: open the store.
    pub fn begin() -> (r: (Session, Action))
        ensures
            r.0@ == (SessionView { stage: Stage::Connecting, dir_name: Seq::empty(), counter: 0 }),
            r.1@ == ActionView::Connect,
    {
        (Session { stage: Stage::Connecting, dir_name: String::new(), counter: 0 }, Action::Connect)
    }

    /// Where the run stands.
    pub fn stage(&self) -> (r: Stage)
        ensures
            r == self@.stage,
    {
        self.stage
    }

    /// The counter as it stands.
    pub fn counter(&self) -> (r: i64)
        ensures
            r == self@.counter,
    {
        self.counter
    }

    /// The name of the root directory; empty until the root is resolved.
    pub fn dir_name(&self) -> (r: &str)
        ensures
            r@ == self@.dir_name,
    {
        self.dir_name.as_str()
    }

    /// Ends the run early.
    fn abort(&mut self, failure: Failure) -> (action: Action)
        ensures
            (final(self)@, action@) == aborted(old(self)@, failure),
    {
        self.stage = Stage::Aborted(failure);
        Action::Abort { failure }
    }

    /// Takes an event and says what to do next.
    pub fn step(&mut self, event: Event) -> (action: Action)
        requires
            can_take(old(self)@, event@),
        ensures
            (final(self)@, action@) == next(old(self)@, event@),
    {
        match self.stage {
            Stage::Connecting => match event {
                Event::Connected => {
                    self.stage = Stage::Resolving;
                    Action::Resolve
                },
                _ => self.abort(Failure::StorageConnection),
            },
            Stage::Resolving => match event {
                Event::Resolved { path, is_new } => {
                    let resolved: Option<&str> = match &path {
                        Some(text) => Some(text.as_str()),
                        None => None,
                    };
                    match props_provider(resolved, is_new) {
                        Ok(props) => match root_name(props.0.as_str()) {
                            Some(name) => {
                                self.stage = Stage::Ensuring;
                                self.dir_name = name.clone();
                                self.counter = props.1;
                                Action::Ensure { dir_name: name, initial: props.1 }
                            },
                            None => self.abort(Failure::Path),
                        },
                        Err(failure) => self.abort(failure),
                    }
                },
                _ => self.abort(Failure::DirectoryCreate),
            },
            Stage::Ensuring => match event {
                Event::Stored => {
                    self.stage = Stage::Fetching;
                    Action::Fetch { dir_name: self.dir_name.clone() }
                },
                _ => self.abort(Failure::StorageWrite),
            },
            Stage::Fetching => match event {
                Event::Fetched { row: Some(record) } => {
                    self.stage = Stage::Prompting;
                    self.counter = record.current_number;
                    Action::Prompt
                },
                Event::Fetched { row: None } => self.abort(Failure::NotFound),
                _ => self.abort(Failure::StorageConnection),
            },
            Stage::Prompting => match event {
                Event::Line { text } => match dir_fuctory(self.counter, text.as_str()) {
                    Turn::Exit { counter } => {
                        self.stage = Stage::Persisting;
                        Action::Persist { dir_name: self.dir_name.clone(), value: counter }
                    },
                    Turn::Create { counter, dir_name } => {
                        self.stage = Stage::Creating;
                        self.counter = counter;
                        Action::Create { dir_name }
                    },
                },
                _ => Action::Prompt,
            },
            Stage::Creating => {
                self.stage = Stage::Prompting;
                Action::Prompt
            },
            Stage::Persisting => match event {
                Event::Stored => {
                    self.stage = Stage::Finished;
                    Action::Finish
                },
                _ => self.abort(Failure::StorageWrite),
            },
            Stage::Finished => Action::Finish,
            Stage::Aborted(failure) => Action::Abort { failure },
        }
    }
}

/// The session at the beginning of a run.
pub open spec fn start() -> SessionView {
    SessionView { stage: Stage::Connecting, dir_name: Seq::empty(), counter: 0 }
}

/// The session that the session `s` becomes when it is told of `events` one
/// after the other, and the actions that it names on the way.
pub open spec fn run(s: SessionView, events: Seq<EventView>) -> (SessionView, Seq<ActionView>)
    decreases events.len(),
{
    if events.len() == 0 {
        (s, Seq::empty())
    } else {
        let (before, actions) = run(s, events.drop_last());
        let (after, action) = next(before, events.last());
        (after, actions.push(action))
    }
}

/// Whether `stage` comes before the first line is asked for.
pub open spec fn precedes_prompting(stage: Stage) -> bool {
    stage == Stage::Connecting || stage == Stage::Resolving || stage == Stage::Ensuring || stage
        == Stage::Fetching
}

/// Whether none of `actions` asks for a line.
pub open spec fn never_prompts(actions: Seq<ActionView>) -> bool {
    forall|i: int| 0 <= i < actions.len() ==> !(#[trigger] actions[i] is Prompt)
}

/// A session that fetches and is told that no row is kept ends the run at
/// once, as not found.
pub proof fn lemma_missing_row_aborts(s: SessionView)
    requires
        s.stage == Stage::Fetching,
    ensures
        next(s, EventView::Fetched { row: None }) == aborted(s, Failure::NotFound),
{
}

/// A run that has ended stays as it is and asks for nothing more.
pub proof fn lemma_ended_run_stays(s: SessionView, event: EventView)
    ensures
        s.stage == Stage::Finished ==> next(s, event) == (s, ActionView::Finish),
        s.stage matches Stage::Aborted(failure) ==> next(s, event) == (
            s,
            ActionView::Abort { failure },
        ),
{
}

/// A line is asked for only by a session that has fetched its counter: one
/// that is just told of the row, one that has dealt with a directory, or one
/// that waits for a line already.
pub proof fn lemma_prompt_needs_fetched_row(s: SessionView, event: EventView)
    requires
        next(s, event).1 is Prompt,
    ensures
        (s.stage == Stage::Fetching && event matches EventView::Fetched { row: Some(_) })
            || s.stage == Stage::Creating || s.stage == Stage::Prompting,
{
}

/// Whatever it is told, a run from its beginning that ends as not found has
/// never asked for a line, and neither has one that has not fetched its row
/// yet.
pub proof fn lemma_no_prompt_without_row(events: Seq<EventView>)
    ensures
        precedes_prompting(run(start(), events).0.stage) || run(start(), events).0.stage
            == Stage::Aborted(Failure::NotFound) ==> never_prompts(run(start(), events).1),
    decreases events.len(),
{
    if events.len() > 0 {
        lemma_no_prompt_without_row(events.drop_last());
        let (before, actions) = run(start(), events.drop_last());
        let (after, action) = next(before, events.last());
        if precedes_prompting(after.stage) || after.stage == Stage::Aborted(Failure::NotFound) {
            assert(precedes_prompting(before.stage) || before.stage == Stage::Aborted(
                Failure::NotFound,
            ));
            assert(!(action is Prompt));
            assert forall|i: int| 0 <= i < actions.push(action).len() implies !(
            #[trigger] actions.push(action)[i] is Prompt) by {
                if i < actions.len() {
                    assert(actions.push(action)[i] == actions[i]);
                }
            }
        }
    }
}

/// The sentinel, entered first, has the counter written back as it was
/// fetched, under the name of the root.
pub proof fn lemma_sentinel_persists_fetched_counter(
    s: SessionView,
    record: RecordView,
    line: Seq<char>,
)
    requires
        s.stage == Stage::Fetching,
        ends_session(line),
    ensures
        ({
            let fetched = next(s, EventView::Fetched { row: Some(record) });
            let ended = next(fetched.0, EventView::Line { text: line });
            &&& fetched.1 == ActionView::Prompt
            &&& ended.0.stage == Stage::Persisting
            &&& ended.1 == (ActionView::Persist {
                dir_name: s.dir_name,
                value: record.current_number,
            })
        }),
{
}

/// A directory that could not be made does not hold the session up: it asks
/// for the next line just as if the directory had been made, the counter
/// stays where the failed name left it, and the next name gets the number
/// after it.
pub proof fn lemma_failed_creation_is_passed_over(
    s: SessionView,
    text: Seq<char>,
    following: Seq<char>,
)
    requires
        s.stage == Stage::Prompting,
        !ends_session(text),
        !ends_session(following),
        s.counter + 2 <= i64::MAX,
    ensures
        ({
            let named = next(s, EventView::Line { text });
            let passed = next(named.0, EventView::Failed);
            let again = next(passed.0, EventView::Line { text: following });
            &&& named.1 == ActionView::Create { dir_name: numbered_name(s.counter + 1, text) }
            &&& passed == next(named.0, EventView::Created)
            &&& passed.1 == ActionView::Prompt
            &&& passed.0.stage == Stage::Prompting
            &&& passed.0.counter == s.counter + 1
            &&& again.1 == ActionView::Create {
                dir_name: numbered_name(s.counter + 2, following),
            }
        }),
{
}

/// What the driver reports while names are entered: each name as a line, and
/// after it whether its directory was made.
pub open spec fn naming_events(names: Seq<Seq<char>>, made: Seq<bool>) -> Seq<EventView>
    recommends
        names.len() == made.len(),
    decreases names.len(),
{
    if names.len() == 0 {
        Seq::empty()
    } else {
        naming_events(names.drop_last(), made.drop_last()).push(
            EventView::Line { text: names.last() },
        ).push(
            if made.last() {
                EventView::Created
            } else {
                EventView::Failed
            },
        )
    }
}

/// What the session answers while names are entered: for each name the
/// directory to make, numbered one after the other from `counter` on, and
/// after it the request for the next line.
pub open spec fn naming_actions(counter: int, names: Seq<Seq<char>>) -> Seq<ActionView>
    decreases names.len(),
{
    if names.len() == 0 {
        Seq::empty()
    } else {
        naming_actions(counter, names.drop_last()).push(
            ActionView::Create { dir_name: numbered_name(counter + names.len(), names.last()) },
        ).push(ActionView::Prompt)
    }
}

/// Whether none of `names` is the sentinel.
pub open spec fn all_names(names: Seq<Seq<char>>) -> bool {
    forall|i: int| 0 <= i < names.len() ==> !ends_session(#[trigger] names[i])
}

/// A session that waits for a line and is given names has one directory made
/// for each, numbered one after the other from its counter on, whether or not
/// the directories before could be made; it then waits for a line again, with
/// the counter moved on by the number of names.
pub proof fn lemma_names_are_numbered_in_turn(
    s: SessionView,
    names: Seq<Seq<char>>,
    made: Seq<bool>,
)
    requires
        s.stage == Stage::Prompting,
        names.len() == made.len(),
        all_names(names),
        s.counter + names.len() <= i64::MAX,
    ensures
        run(s, naming_events(names, made)) == (
            SessionView {
                stage: Stage::Prompting,
                dir_name: s.dir_name,
                counter: (s.counter + names.len()) as i64,
            },
            naming_actions(s.counter as int, names),
        ),
    decreases names.len(),
{
    if names.len() > 0 {
        let earlier = naming_events(names.drop_last(), made.drop_last());
        let line = EventView::Line { text: names.last() };
        let outcome = if made.last() {
            EventView::Created
        } else {
            EventView::Failed
        };
        assert(all_names(names.drop_last())) by {
            assert forall|i: int| 0 <= i < names.drop_last().len() implies !ends_session(
                #[trigger] names.drop_last()[i],
            ) by {
                assert(names.drop_last()[i] == names[i]);
            }
        }
        lemma_names_are_numbered_in_turn(s, names.drop_last(), made.drop_last());
        let events = naming_events(names, made);
        assert(events == earlier.push(line).push(outcome));
        assert(events.drop_last() =~= earlier.push(line));
        assert(events.last() == outcome);
        assert(earlier.push(line).drop_last() =~= earlier);
        assert(earlier.push(line).last() == line);
        assert(!ends_session(names.last())) by {
            assert(names[names.len() - 1] == names.last());
        }
        let waiting = run(s, earlier);
        let named = next(waiting.0, line);
        let passed = next(named.0, outcome);
        assert(run(s, earlier.push(line)) == (named.0, waiting.1.push(named.1)));
        assert(run(s, events) == (passed.0, waiting.1.push(named.1).push(passed.1)));
        assert(names.drop_last().len() == names.len() - 1);
    } else {
        assert(naming_events(names, made) =~= Seq::<EventView>::empty());
        assert(naming_actions(s.counter as int, names) =~= Seq::<ActionView>::empty());
    }
}

/// A session that waits for a line, is given names and then the sentinel has
/// the counter written back once, moved on by the number of names.
pub proof fn lemma_session_persists_last_number(
    s: SessionView,
    names: Seq<Seq<char>>,
    made: Seq<bool>,
    line: Seq<char>,
)
    requires
        s.stage == Stage::Prompting,
        names.len() == made.len(),
        all_names(names),
        ends_session(line),
        s.counter + names.len() <= i64::MAX,
    ensures
        run(s, naming_events(names, made).push(EventView::Line { text: line })) == (
            SessionView {
                stage: Stage::Persisting,
                dir_name: s.dir_name,
                counter: (s.counter + names.len()) as i64,
            },
            naming_actions(s.counter as int, names).push(
                ActionView::Persist {
                    dir_name: s.dir_name,
                    value: (s.counter + names.len()) as i64,
                },
            ),
        ),
{
    lemma_names_are_numbered_in_turn(s, names, made);
    let events = naming_events(names, made).push(EventView::Line { text: line });
    assert(events.drop_last() =~= naming_events(names, made));
    assert(events.last() == EventView::Line { text: line });
}

} // verus!
