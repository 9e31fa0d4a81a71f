//! The steps of a run that work on text: reading an entered line, finding out
//! what a root directory stands for, and numbering the next directory.

use crate::input::{ends_session, is_sentinel, trim, trimmed};
use crate::naming::{
    directory_name, initial_counter, initial_number, numbered_name, root_name, root_name_of,
};
use crate::structs::Failure;
use vstd::prelude::*;
use vstd::string::StringExecFns;

pub mod db_manager;

verus! {

/// What an entered line asks for.
#[derive(Debug, Clone, PartialEq, Eq)]
pub enum Turn {
    /// The line was the sentinel: the session ends with `counter` as it was.
    Exit { counter: i64 },
    /// The line was a name: the directory `dir_name` is to be made, and the
    /// counter has moved on to `counter`.
    Create { counter: i64, dir_name: String },
}

/// What becomes of a resolved root path: the counter that its directory name
/// begins with. A path that could not be resolved, or that ends in nothing
/// that names a directory, is a path failure; a name whose leading segment is
/// no counter is a parse failure.
pub open spec fn root_counter(resolved: Option<Seq<char>>) -> Result<i64, Failure> {
    match resolved {
        None => Err(Failure::Path),
        Some(path) => match root_name_of(path) {
            None => Err(Failure::Path),
            Some(name) => match initial_counter(name) {
                None => Err(Failure::Parse),
                Some(initial) => Ok(initial),
            },
        },
    }
}

/// The text of an entered line, with the white space around it taken off.
pub fn get_input(line: &str) -> (r: String)
    ensures
        r@ == trimmed(line@),
{
    String::from_str(trim(line))
}

/// Finds out what a root directory stands for. `resolved` is the absolute
/// path of the root, or `None` where it could not be resolved; `is_new` says
/// whether the directory had to be made. The result is that path, the counter
/// that the directory's name begins with, and `is_new`.
pub fn props_provider(resolved: Option<&str>, is_new: bool) -> (r: Result<
    (String, i64, bool),
    Failure,
>)
    ensures
        match r {
            Ok(props) => resolved matches Some(path) && props.0@ == path@ && root_counter(
                Some(path@),
            ) == Ok::<i64, Failure>(props.1) && props.2 == is_new,
            Err(failure) => root_counter(
                match resolved {
                    Some(path) => Some(path@),
                    None => None,
                },
            ) == Err::<i64, Failure>(failure),
        },
{
    let path = match resolved {
        Some(path) => path,
        None => {
            return Err(Failure::Path);
        },
    };
    let name = match root_name(path) {
        Some(name) => name,
        None => {
            return Err(Failure::Path);
        },
    };
    match initial_number(name.as_str()) {
        Some(initial) => Ok((String::from_str(path), initial, is_new)),
        None => Err(Failure::Parse),
    }
}

/// Takes one entered line. The sentinel ends the session and leaves the
/// counter as it is. Any other line moves the counter on by one and names the
/// directory to make: the new counter in its field of five, an underscore, and
/// the line as it was entered.
pub fn dir_fuctory(current_number: i64, line: &str) -> (r: Turn)
    requires
        !ends_session(line@) ==> current_number < i64::MAX,
    ensures
        match r {
            Turn::Exit { counter } => ends_session(line@) && counter == current_number,
            Turn::Create { counter, dir_name } => !ends_session(line@) && counter
                == current_number + 1 && dir_name@ == numbered_name(current_number + 1, line@),
        },
{
    if is_sentinel(line) {
        Turn::Exit { counter: current_number }
    } else {
        let counter: i64 = current_number + 1;
        Turn::Create { counter, dir_name: directory_name(counter, line) }
    }
}

} // verus!
