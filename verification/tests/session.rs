use rustnum::session::{Action, Event, Session, Stage};
use rustnum::store::Table;
use rustnum::structs::{Failure, Record};

/// What a driven run left behind.
struct Outcome {
    created: Vec<String>,
    refused: Vec<String>,
    prompts: usize,
    persists: usize,
    last: Action,
    stage: Stage,
}

/// Plays the driver: the store is `table`, the lines are `lines`, and a
/// directory is refused where its name is one of `unmakeable` or was made
/// already.
fn drive(root: Option<&str>, table: &mut Table, lines: &[&str], unmakeable: &[&str]) -> Outcome {
    let (mut session, mut action) = Session::begin();
    let mut outcome = Outcome {
        created: Vec::new(),
        refused: Vec::new(),
        prompts: 0,
        persists: 0,
        last: Action::Connect,
        stage: Stage::Connecting,
    };
    let mut next_line = 0;
    loop {
        let event = match &action {
            Action::Connect => Event::Connected,
            Action::Resolve => Event::Resolved { path: root.map(|p| p.to_string()), is_new: false },
            Action::Ensure { dir_name, initial } => match table.ensure(dir_name, *initial) {
                Ok(()) => Event::Stored,
                Err(_) => Event::Failed,
            },
            Action::Fetch { dir_name } => Event::Fetched { row: table.fetch(dir_name).ok() },
            Action::Prompt => {
                outcome.prompts += 1;
                let text = lines[next_line].to_string();
                next_line += 1;
                Event::Line { text }
            }
            Action::Create { dir_name } => {
                if unmakeable.contains(&dir_name.as_str()) || outcome.created.contains(dir_name) {
                    outcome.refused.push(dir_name.clone());
                    Event::Failed
                } else {
                    outcome.created.push(dir_name.clone());
                    Event::Created
                }
            }
            Action::Persist { dir_name, value } => {
                outcome.persists += 1;
                table.persist(dir_name, *value);
                Event::Stored
            }
            Action::Finish | Action::Abort { .. } => break,
        };
        assert!(session.counter() < i64::MAX);
        action = session.step(event);
    }
    outcome.last = action;
    outcome.stage = session.stage();
    outcome
}

#[test]
fn two_names_then_exit() {
    let mut table = Table::new();
    let outcome = drive(Some("/work/00000_root"), &mut table, &["alpha", "beta", "exit"], &[]);
    assert_eq!(outcome.created, vec!["00001_alpha".to_string(), "00002_beta".to_string()]);
    assert!(outcome.refused.is_empty());
    assert_eq!(outcome.prompts, 3);
    assert_eq!(outcome.persists, 1);
    assert_eq!(outcome.last, Action::Finish);
    assert_eq!(outcome.stage, Stage::Finished);
    assert_eq!(
        table.fetch("00000_root"),
        Ok(Record { dir_id: 1, dir_name: "00000_root".to_string(), current_number: 2 })
    );
    assert_eq!(table.len(), 1);
}

#[test]
fn exit_at_once_is_a_round_trip() {
    let mut table = Table::new();
    table.ensure("00000_root", 17).unwrap();
    let outcome = drive(Some("/work/00000_root"), &mut table, &["exit"], &[]);
    assert!(outcome.created.is_empty());
    assert_eq!(outcome.prompts, 1);
    assert_eq!(outcome.persists, 1);
    assert_eq!(outcome.last, Action::Finish);
    assert_eq!(table.fetch("00000_root").unwrap().current_number, 17);
    assert_eq!(table.len(), 1);
}

#[test]
fn a_new_root_seeds_its_counter_from_its_name() {
    let mut table = Table::new();
    let outcome = drive(Some("/work/00042_myproject"), &mut table, &["api", "exit"], &[]);
    assert_eq!(outcome.created, vec!["00043_api".to_string()]);
    assert_eq!(table.fetch("00042_myproject").unwrap().current_number, 43);
}

#[test]
fn a_second_run_goes_on_where_the_first_ended() {
    let mut table = Table::new();
    drive(Some("/work/00000_root"), &mut table, &["alpha", "beta", "exit"], &[]);
    let outcome = drive(Some("/work/00000_root"), &mut table, &["gamma", "exit"], &[]);
    assert_eq!(outcome.created, vec!["00003_gamma".to_string()]);
    assert_eq!(table.fetch("00000_root").unwrap().current_number, 3);
    assert_eq!(table.len(), 1);
}

#[test]
fn a_directory_that_cannot_be_made_is_passed_over() {
    let mut table = Table::new();
    let outcome = drive(
        Some("/work/00000_root"),
        &mut table,
        &["alpha", "bad", "gamma", "exit"],
        &["00002_bad"],
    );
    assert_eq!(outcome.created, vec!["00001_alpha".to_string(), "00003_gamma".to_string()]);
    assert_eq!(outcome.refused, vec!["00002_bad".to_string()]);
    assert_eq!(outcome.prompts, 4);
    assert_eq!(outcome.last, Action::Finish);
    assert_eq!(table.fetch("00000_root").unwrap().current_number, 3);
}

#[test]
fn a_missing_row_ends_the_run_before_any_prompt() {
    let (mut session, action) = Session::begin();
    assert_eq!(action, Action::Connect);
    assert_eq!(session.step(Event::Connected), Action::Resolve);
    assert_eq!(
        session.step(Event::Resolved { path: Some("/work/00005_root".to_string()), is_new: false }),
        Action::Ensure { dir_name: "00005_root".to_string(), initial: 5 }
    );
    assert_eq!(session.step(Event::Stored), Action::Fetch { dir_name: "00005_root".to_string() });
    assert_eq!(
        session.step(Event::Fetched { row: None }),
        Action::Abort { failure: Failure::NotFound }
    );
    assert_eq!(session.stage(), Stage::Aborted(Failure::NotFound));
    assert_eq!(
        session.step(Event::Line { text: "alpha".to_string() }),
        Action::Abort { failure: Failure::NotFound }
    );
    assert_eq!(session.stage(), Stage::Aborted(Failure::NotFound));
}

#[test]
fn the_steps_of_a_run_in_order() {
    let (mut session, action) = Session::begin();
    assert_eq!(action, Action::Connect);
    assert_eq!(session.stage(), Stage::Connecting);
    assert_eq!(session.dir_name(), "");
    assert_eq!(session.step(Event::Connected), Action::Resolve);
    assert_eq!(session.stage(), Stage::Resolving);
    assert_eq!(
        session.step(Event::Resolved { path: Some("/work/00007_root".to_string()), is_new: true }),
        Action::Ensure { dir_name: "00007_root".to_string(), initial: 7 }
    );
    assert_eq!(session.stage(), Stage::Ensuring);
    assert_eq!(session.dir_name(), "00007_root");
    assert_eq!(session.step(Event::Stored), Action::Fetch { dir_name: "00007_root".to_string() });
    assert_eq!(session.stage(), Stage::Fetching);
    let row = Record { dir_id: 3, dir_name: "00007_root".to_string(), current_number: 20 };
    assert_eq!(session.step(Event::Fetched { row: Some(row) }), Action::Prompt);
    assert_eq!(session.stage(), Stage::Prompting);
    assert_eq!(session.counter(), 20);
    assert_eq!(
        session.step(Event::Line { text: "api".to_string() }),
        Action::Create { dir_name: "00021_api".to_string() }
    );
    assert_eq!(session.stage(), Stage::Creating);
    assert_eq!(session.counter(), 21);
    assert_eq!(session.step(Event::Created), Action::Prompt);
    assert_eq!(
        session.step(Event::Line { text: "exit".to_string() }),
        Action::Persist { dir_name: "00007_root".to_string(), value: 21 }
    );
    assert_eq!(session.stage(), Stage::Persisting);
    assert_eq!(session.step(Event::Stored), Action::Finish);
    assert_eq!(session.stage(), Stage::Finished);
    assert_eq!(session.step(Event::Stored), Action::Finish);
}

#[test]
fn a_store_that_cannot_be_opened_ends_the_run() {
    let (mut session, _) = Session::begin();
    assert_eq!(
        session.step(Event::Failed),
        Action::Abort { failure: Failure::StorageConnection }
    );
    assert_eq!(session.stage(), Stage::Aborted(Failure::StorageConnection));
}

#[test]
fn a_root_that_cannot_be_resolved_ends_the_run() {
    let (mut session, _) = Session::begin();
    session.step(Event::Connected);
    assert_eq!(
        session.step(Event::Resolved { path: None, is_new: false }),
        Action::Abort { failure: Failure::Path }
    );
    let mut table = Table::new();
    let outcome = drive(Some("/"), &mut table, &[], &[]);
    assert_eq!(outcome.last, Action::Abort { failure: Failure::Path });
    assert_eq!(outcome.prompts, 0);
    assert_eq!(table.len(), 0);
}

#[test]
fn a_root_without_a_counter_ends_the_run() {
    let mut table = Table::new();
    let outcome = drive(Some("/work/project"), &mut table, &[], &[]);
    assert_eq!(outcome.last, Action::Abort { failure: Failure::Parse });
    assert_eq!(outcome.stage, Stage::Aborted(Failure::Parse));
    assert_eq!(outcome.prompts, 0);
    assert_eq!(table.len(), 0);
}

#[test]
fn a_root_that_cannot_be_made_ends_the_run() {
    let (mut session, _) = Session::begin();
    session.step(Event::Connected);
    assert_eq!(
        session.step(Event::Failed),
        Action::Abort { failure: Failure::DirectoryCreate }
    );
}

#[test]
fn a_refused_write_ends_the_run() {
    let (mut session, _) = Session::begin();
    session.step(Event::Connected);
    session.step(Event::Resolved { path: Some("/w/00001_r".to_string()), is_new: false });
    assert_eq!(session.step(Event::Failed), Action::Abort { failure: Failure::StorageWrite });

    let (mut session, _) = Session::begin();
    session.step(Event::Connected);
    session.step(Event::Resolved { path: Some("/w/00001_r".to_string()), is_new: false });
    session.step(Event::Stored);
    let row = Record { dir_id: 1, dir_name: "00001_r".to_string(), current_number: 1 };
    session.step(Event::Fetched { row: Some(row) });
    session.step(Event::Line { text: "a".to_string() });
    session.step(Event::Created);
    session.step(Event::Line { text: "exit".to_string() });
    assert_eq!(session.step(Event::Failed), Action::Abort { failure: Failure::StorageWrite });
    assert_eq!(session.stage(), Stage::Aborted(Failure::StorageWrite));
}

#[test]
fn a_fetch_that_fails_ends_the_run() {
    let (mut session, _) = Session::begin();
    session.step(Event::Connected);
    session.step(Event::Resolved { path: Some("/w/00001_r".to_string()), is_new: false });
    session.step(Event::Stored);
    assert_eq!(
        session.step(Event::Failed),
        Action::Abort { failure: Failure::StorageConnection }
    );
}

#[test]
fn the_counter_is_not_rolled_back() {
    let (mut session, _) = Session::begin();
    session.step(Event::Connected);
    session.step(Event::Resolved { path: Some("/w/00001_r".to_string()), is_new: false });
    session.step(Event::Stored);
    let row = Record { dir_id: 1, dir_name: "00001_r".to_string(), current_number: 10 };
    session.step(Event::Fetched { row: Some(row) });
    assert_eq!(
        session.step(Event::Line { text: "a/\0b".to_string() }),
        Action::Create { dir_name: "00011_a/\0b".to_string() }
    );
    assert_eq!(session.step(Event::Failed), Action::Prompt);
    assert_eq!(session.stage(), Stage::Prompting);
    assert_eq!(session.counter(), 11);
    assert_eq!(
        session.step(Event::Line { text: "c".to_string() }),
        Action::Create { dir_name: "00012_c".to_string() }
    );
    assert_eq!(session.step(Event::Created), Action::Prompt);
    assert_eq!(
        session.step(Event::Line { text: "exit".to_string() }),
        Action::Persist { dir_name: "00001_r".to_string(), value: 12 }
    );
}
