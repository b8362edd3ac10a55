use rune::input::{complete_input, completion_dir, delete_prev_word};
use rune::modes::InputType;
use rune::path::FsPath;

fn names(v: &[&str]) -> Vec<String> {
    v.iter().map(|s| s.to_string()).collect()
}

#[test]
fn delete_word_stops_at_space_or_separator() {
    assert_eq!(delete_prev_word("open my file"), "open my");
    assert_eq!(delete_prev_word("/usr/local/bin"), "/usr/local");
    assert_eq!(delete_prev_word("word"), "");
    assert_eq!(delete_prev_word("dir/"), "dir");
    assert_eq!(delete_prev_word(""), "");
}

#[test]
fn completion_of_single_match_adds_separator() {
    let dirs = names(&["Documents", "Downloads", "Music"]);
    assert_eq!(complete_input("projects/Mu", &dirs), Some("projects/Music/".to_string()));
}

#[test]
fn completion_of_several_matches_stops_where_they_differ() {
    let dirs = names(&["Documents", "Downloads", "Dotfiles"]);
    assert_eq!(complete_input("Do", &dirs), Some("Do".to_string()));
    let dirs2 = names(&["Downloads", "Download-old"]);
    assert_eq!(complete_input("a/b/D", &dirs2), Some("a/b/Download".to_string()));
}

#[test]
fn completion_without_match_gives_nothing() {
    let dirs = names(&["src", "tests"]);
    assert_eq!(complete_input("x", &dirs), None);
    assert_eq!(complete_input("", &names(&[])), None);
}

#[test]
fn input_types_compare() {
    assert!(InputType::AppendChar('a') < InputType::DeleteChar);
    assert_eq!(InputType::AutoComplete(FsPath::parse("/a")), InputType::AutoComplete(FsPath::parse("/a")));
}

#[test]
fn completion_looks_in_typed_directory() {
    assert_eq!(completion_dir("a/b/Do"), "a/b/");
    assert_eq!(completion_dir("Do"), "");
    assert_eq!(completion_dir("/usr/"), "/usr/");
}
