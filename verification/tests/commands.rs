use mygit::errors::{exit_code, ErrState};
use mygit::locate::{get_repo_root, has_marker, search_ends, DirListing};
use mygit::mygit::{Command, MyGit};
use mygit::text::contains_text;

fn strings(list: &[&str]) -> Vec<String> {
    list.iter().map(|s| s.to_string()).collect()
}

fn listing(path: &str, entries: Option<&[&str]>) -> DirListing {
    DirListing { path: path.to_string(), entries: entries.map(strings) }
}

fn located() -> MyGit {
    MyGit { repo_path: Some("/work/repo".to_string()) }
}

fn unlocated() -> MyGit {
    MyGit { repo_path: None }
}

#[test]
fn marker_is_matched_by_its_whole_name() {
    assert!(has_marker(&strings(&["src", ".mygit", "README"])));
    assert!(!has_marker(&strings(&["src", ".mygit2", "mygit", ".git"])));
    assert!(!has_marker(&Vec::new()));
}

#[test]
fn contains_text_finds_exact_names() {
    assert!(contains_text(&strings(&["a", "b"]), "b"));
    assert!(!contains_text(&strings(&["a", "b"]), "ab"));
}

#[test]
fn root_found_from_nested_directory() {
    let chain = vec![
        listing("/work/repo/src/deep", Some(&["x.rs"])),
        listing("/work/repo/src", Some(&["deep", "lib.rs"])),
        listing("/work/repo", Some(&["src", ".mygit"])),
        listing("/work", Some(&["repo"])),
        listing("/", Some(&["work"])),
    ];
    assert_eq!(get_repo_root(&chain), Some("/work/repo".to_string()));
}

#[test]
fn root_found_in_the_starting_directory() {
    let chain = vec![listing("/work/repo", Some(&[".mygit"])), listing("/work", Some(&[]))];
    assert_eq!(get_repo_root(&chain), Some("/work/repo".to_string()));
}

#[test]
fn nearest_root_wins() {
    let chain = vec![
        listing("/a/b", Some(&[".mygit"])),
        listing("/a", Some(&[".mygit", "b"])),
    ];
    assert_eq!(get_repo_root(&chain), Some("/a/b".to_string()));
}

#[test]
fn no_root_when_no_ancestor_holds_the_marker() {
    let chain = vec![
        listing("/work/plain", Some(&["a"])),
        listing("/work", Some(&["plain"])),
        listing("/", Some(&["work"])),
    ];
    assert_eq!(get_repo_root(&chain), None);
    assert_eq!(get_repo_root(&Vec::new()), None);
}

#[test]
fn search_ends_at_a_directory_that_cannot_be_listed() {
    let chain = vec![
        listing("/work/repo/src", Some(&["lib.rs"])),
        listing("/work/repo", None),
        listing("/work", Some(&[".mygit"])),
    ];
    assert_eq!(get_repo_root(&chain), None);
}

#[test]
fn default_looks_the_root_up() {
    let chain = vec![
        listing("/work/repo/src", Some(&["lib.rs"])),
        listing("/work/repo", Some(&[".mygit", "src"])),
    ];
    assert_eq!(MyGit::default(&chain).repo_path, Some("/work/repo".to_string()));
    assert_eq!(MyGit::default(&Vec::new()).repo_path, None);
}

#[test]
fn no_command_is_bad_use() {
    assert!(matches!(located().parse_args(&strings(&["mygit"])), Err(ErrState::BadUse)));
    assert!(matches!(located().parse_args(&Vec::new()), Err(ErrState::BadUse)));
}

#[test]
fn unknown_command_is_reported() {
    assert!(matches!(
        located().parse_args(&strings(&["mygit", "commit"])),
        Err(ErrState::UnknownCmd)
    ));
    assert!(matches!(
        located().parse_args(&strings(&["mygit", "Init"])),
        Err(ErrState::UnknownCmd)
    ));
}

#[test]
fn init_is_parsed_with_or_without_repository() {
    assert!(matches!(located().parse_args(&strings(&["mygit", "init"])), Ok(Command::Init)));
    assert!(matches!(unlocated().parse_args(&strings(&["mygit", "init"])), Ok(Command::Init)));
}

#[test]
fn add_is_parsed_with_its_path() {
    match located().parse_args(&strings(&["mygit", "add", "./src", "extra"])) {
        Ok(Command::Add(path)) => assert_eq!(path, "./src"),
        _ => panic!("expected an add command"),
    }
}

#[test]
fn add_without_repository_is_not_a_repo() {
    assert!(matches!(
        unlocated().parse_args(&strings(&["mygit", "add", "./src"])),
        Err(ErrState::NotARepo)
    ));
    assert!(matches!(
        unlocated().parse_args(&strings(&["mygit", "add"])),
        Err(ErrState::NotARepo)
    ));
    assert!(matches!(unlocated().exec_add(&strings(&["mygit", "add", "x"])), Err(ErrState::NotARepo)));
}

#[test]
fn add_without_path_lacks_an_argument() {
    assert!(matches!(
        located().parse_args(&strings(&["mygit", "add"])),
        Err(ErrState::LackOfArg)
    ));
    assert!(matches!(located().exec_add(&strings(&["mygit", "add"])), Err(ErrState::LackOfArg)));
    assert_eq!(located().exec_add(&strings(&["mygit", "add", "f"])), Ok("f".to_string()));
}

#[test]
fn init_creates_marker_then_container() {
    assert_eq!(unlocated().init("."), strings(&["./.mygit", "./.mygit/objects"]));
    assert_eq!(unlocated().init("/tmp/p"), strings(&["/tmp/p/.mygit", "/tmp/p/.mygit/objects"]));
}

#[test]
fn init_in_a_repository_creates_nothing() {
    assert_eq!(located().init("."), Vec::<String>::new());
}

#[test]
fn init_twice_is_a_no_op_the_second_time() {
    let first = MyGit::default(&vec![listing("/p", Some(&["a.txt"]))]);
    assert_eq!(first.init("/p").len(), 2);
    assert_eq!(first.exec_init(true), Ok(()));
    let second = MyGit::default(&vec![listing("/p", Some(&["a.txt", ".mygit"]))]);
    assert_eq!(second.init("/p").len(), 0);
    assert_eq!(second.exec_init(true), Ok(()));
    assert_eq!(second.exec_init(false), Ok(()));
}

#[test]
fn init_fails_when_a_directory_is_not_created() {
    assert_eq!(unlocated().exec_init(false), Err(ErrState::InitFailed));
    assert_eq!(unlocated().exec_init(true), Ok(()));
}

#[test]
fn repo_path_and_blob_path_of_the_tool() {
    assert_eq!(located().gen_repo_path(), Some("/work/repo"));
    assert_eq!(unlocated().gen_repo_path(), None);
    assert_eq!(located().gen_blob_path("abcd"), "/work/repo/.mygit/objects/abcd");
    let file = located().mkblob(&b"xyz".to_vec(), "/work/repo/.mygit/objects/abcd");
    assert_eq!(file.path, "/work/repo/.mygit/objects/abcd");
    assert_eq!(file.bytes, b"blob 3\0xyz".to_vec());
}

#[test]
fn every_failure_has_its_line() {
    assert_eq!(ErrState::AddFailed.message(), "Add file failed!");
    assert_eq!(ErrState::BadUse.message(), "usage: mygit <command> [<args>]");
    assert_eq!(ErrState::InitFailed.message(), "Initialize failed!");
    assert_eq!(ErrState::LackOfArg.message(), "Lack of arguments!");
    assert_eq!(ErrState::NotARepo.message(), "Not a mygit repository!");
    assert_eq!(ErrState::UnknownCmd.message(), "Unknown command!");
}

#[test]
fn exit_code_is_zero_only_on_success() {
    assert_eq!(exit_code(&Ok(())), 0);
    assert_eq!(exit_code(&Err(ErrState::AddFailed)), 1);
    assert_eq!(exit_code(&Err(ErrState::NotARepo)), 1);
}

#[test]
fn search_stops_at_marker_or_unlistable_directory() {
    assert!(search_ends(&listing("/a", Some(&[".mygit"]))));
    assert!(search_ends(&listing("/a", None)));
    assert!(!search_ends(&listing("/a", Some(&["src"]))));
    assert!(!search_ends(&listing("/a", Some(&[]))));
}

#[test]
fn directories_above_the_root_do_not_matter() {
    let whole = vec![
        listing("/a/b/c", Some(&["x"])),
        listing("/a/b", Some(&[".mygit", "c"])),
        listing("/a", None),
        listing("/", Some(&[".mygit"])),
    ];
    let front = vec![listing("/a/b/c", Some(&["x"])), listing("/a/b", Some(&[".mygit", "c"]))];
    assert_eq!(get_repo_root(&whole), get_repo_root(&front));
    assert_eq!(get_repo_root(&front), Some("/a/b".to_string()));
}
