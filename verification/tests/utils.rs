use rustnum::structs::Failure;
use rustnum::utils::{dir_fuctory, props_provider, Turn};

#[test]
fn props_of_a_numbered_root() {
    assert_eq!(
        props_provider(Some("/home/user/00042_myproject"), false),
        Ok(("/home/user/00042_myproject".to_string(), 42, false))
    );
    assert_eq!(
        props_provider(Some("/srv/00007_project"), true),
        Ok(("/srv/00007_project".to_string(), 7, true))
    );
}

#[test]
fn props_of_an_unresolved_path() {
    assert_eq!(props_provider(None, false), Err(Failure::Path));
    assert_eq!(props_provider(None, true), Err(Failure::Path));
}

#[test]
fn props_of_a_path_without_a_name() {
    assert_eq!(props_provider(Some("/"), false), Err(Failure::Path));
    assert_eq!(props_provider(Some(""), false), Err(Failure::Path));
    assert_eq!(props_provider(Some("/a/.."), false), Err(Failure::Path));
}

#[test]
fn props_of_a_root_without_a_counter() {
    assert_eq!(props_provider(Some("/home/user/project"), false), Err(Failure::Parse));
    assert_eq!(props_provider(Some("/home/user/x7_project"), false), Err(Failure::Parse));
    assert_eq!(props_provider(Some("/home/user/_project"), false), Err(Failure::Parse));
    assert_eq!(props_provider(Some("/home/user/-3_project"), false), Err(Failure::Parse));
}

#[test]
fn props_read_only_the_last_component() {
    assert_eq!(
        props_provider(Some("/00001_outer/00009_inner"), false),
        Ok(("/00001_outer/00009_inner".to_string(), 9, false))
    );
    assert_eq!(props_provider(Some("/00001_outer/inner"), false), Err(Failure::Parse));
}

#[test]
fn a_name_moves_the_counter_on() {
    assert_eq!(
        dir_fuctory(6, "api"),
        Turn::Create { counter: 7, dir_name: "00007_api".to_string() }
    );
    assert_eq!(
        dir_fuctory(0, "alpha"),
        Turn::Create { counter: 1, dir_name: "00001_alpha".to_string() }
    );
    assert_eq!(
        dir_fuctory(99999, "big"),
        Turn::Create { counter: 100000, dir_name: "100000_big".to_string() }
    );
}

#[test]
fn the_sentinel_leaves_the_counter() {
    assert_eq!(dir_fuctory(6, "exit"), Turn::Exit { counter: 6 });
    assert_eq!(dir_fuctory(0, " exit \n"), Turn::Exit { counter: 0 });
    assert_eq!(dir_fuctory(i64::MAX, "exit"), Turn::Exit { counter: i64::MAX });
}

#[test]
fn a_name_is_taken_as_it_was_entered() {
    assert_eq!(
        dir_fuctory(1, "Exit"),
        Turn::Create { counter: 2, dir_name: "00002_Exit".to_string() }
    );
    assert_eq!(
        dir_fuctory(1, "my project"),
        Turn::Create { counter: 2, dir_name: "00002_my project".to_string() }
    );
    assert_eq!(dir_fuctory(1, ""), Turn::Create { counter: 2, dir_name: "00002_".to_string() });
}

#[test]
fn the_last_counter_can_still_be_reached() {
    assert_eq!(
        dir_fuctory(i64::MAX - 1, "last"),
        Turn::Create { counter: i64::MAX, dir_name: "9223372036854775807_last".to_string() }
    );
}
