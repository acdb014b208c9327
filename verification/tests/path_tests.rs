//! Path strings, display names and the file-tree ordering.

use texturizer::pathing::{
    dir_name_format, file_name_format, filetree_entry_from_path, filetree_entry_name_from_path,
    glob_string_from_path, go_to_parent, maybe_add_character, parent_dir, sort_filetree,
    update_path, FileTreeEntry, PathError,
};
use texturizer::text::u32_to_string;

#[test]
fn maybe_add_character_appends_once() {
    assert_eq!(maybe_add_character("abc".to_string(), '/'), "abc/");
    assert_eq!(maybe_add_character("abc/".to_string(), '/'), "abc/");
    assert_eq!(maybe_add_character(String::new(), '*'), "*");
}

#[test]
fn update_path_normalizes_trailing_separator() {
    assert_eq!(update_path("a/b".to_string()), "a/b/");
    assert_eq!(update_path("a/b/".to_string()), "a/b/");
    assert_eq!(update_path(String::new()), "/");
}

#[test]
fn parent_dir_drops_the_last_component() {
    assert_eq!(parent_dir("a/b/c"), "a/b");
    assert_eq!(parent_dir("a/b/"), "a");
    assert_eq!(parent_dir("a"), "");
    assert_eq!(parent_dir("/"), "/");
    assert_eq!(parent_dir(""), "");
}

#[test]
fn go_to_parent_steps_up_normalized() {
    assert_eq!(go_to_parent("a/b/"), "a/");
    assert_eq!(go_to_parent("a/b/c"), "a/b/");
    assert_eq!(go_to_parent("a/"), "/");
    assert_eq!(go_to_parent("/"), "/");
}

#[test]
fn file_name_format_takes_the_last_component() {
    assert_eq!(file_name_format("a/b.png"), "b.png");
    assert_eq!(file_name_format("a/b/"), "b");
    assert_eq!(file_name_format("plain"), "plain");
    assert_eq!(file_name_format(""), "");
}

#[test]
fn dir_name_format_marks_directories() {
    assert_eq!(dir_name_format("x/y"), "> y/");
    assert_eq!(dir_name_format("x/y/"), "> y/");
}

#[test]
fn entry_name_chooses_by_kind() {
    assert_eq!(filetree_entry_name_from_path("x/y", true), "> y/");
    assert_eq!(filetree_entry_name_from_path("x/y", false), "y");
}

#[test]
fn filetree_entry_carries_title_kind_and_path() {
    let e = filetree_entry_from_path("pics/cat.png", false);
    assert_eq!(e.title, "cat.png");
    assert!(!e.checked);
    assert!(!e.is_dir);
    assert_eq!(e.full_path, "pics/cat.png");
    let d = filetree_entry_from_path("pics/more", true);
    assert_eq!(d.title, "> more/");
    assert!(d.is_dir);
}

#[test]
fn sort_filetree_puts_directories_first_stably() {
    let entry = |name: &str, is_dir: bool| FileTreeEntry {
        title: name.to_string(),
        checked: false,
        is_dir,
        full_path: name.to_string(),
    };
    let sorted = sort_filetree(vec![
        entry("f1", false),
        entry("d1", true),
        entry("f2", false),
        entry("d2", true),
    ]);
    let titles: Vec<&str> = sorted.iter().map(|e| e.title.as_str()).collect();
    assert_eq!(titles, vec!["d1", "d2", "f1", "f2"]);
}

#[test]
fn glob_string_for_a_directory() {
    assert_eq!(
        glob_string_from_path("a/b".to_string(), false, true, true),
        Ok("a/b/*".to_string())
    );
    assert_eq!(
        glob_string_from_path("a/b/".to_string(), false, true, true),
        Ok("a/b/*".to_string())
    );
}

#[test]
fn glob_string_for_a_file_uses_its_parent() {
    assert_eq!(
        glob_string_from_path("a/b.png".to_string(), true, false, true),
        Ok("a/*".to_string())
    );
}

#[test]
fn glob_string_rejects_a_path_that_names_nothing() {
    assert_eq!(
        glob_string_from_path("nowhere".to_string(), false, false, false),
        Err(PathError::NotFound)
    );
}

#[test]
fn u32_to_string_renders_decimal() {
    assert_eq!(u32_to_string(0), "0");
    assert_eq!(u32_to_string(7), "7");
    assert_eq!(u32_to_string(123), "123");
    assert_eq!(u32_to_string(4096), "4096");
    assert_eq!(u32_to_string(u32::MAX), "4294967295");
}
