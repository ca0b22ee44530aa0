use mygit::errors::ErrState;
use mygit::mygit::MyGit;
use mygit::store::{ObjectFile, ObjectStore};
use mygit::walk::{is_ignored, Entry, Step, Walker};
use std::collections::BTreeMap;

enum Node {
    File(Vec<u8>),
    Dir(Vec<String>),
    Other,
    Broken,
}

struct Disk {
    nodes: BTreeMap<String, Node>,
    objects: BTreeMap<String, Vec<u8>>,
    visited: Vec<String>,
    fail_writes: bool,
}

impl Disk {
    fn new() -> Disk {
        Disk { nodes: BTreeMap::new(), objects: BTreeMap::new(), visited: Vec::new(), fail_writes: false }
    }

    fn file(mut self, path: &str, content: &[u8]) -> Disk {
        self.nodes.insert(path.to_string(), Node::File(content.to_vec()));
        self
    }

    fn dir(mut self, path: &str, children: &[&str]) -> Disk {
        let children = children.iter().map(|c| c.to_string()).collect();
        self.nodes.insert(path.to_string(), Node::Dir(children));
        self
    }

    fn other(mut self, path: &str) -> Disk {
        self.nodes.insert(path.to_string(), Node::Other);
        self
    }

    fn broken(mut self, path: &str) -> Disk {
        self.nodes.insert(path.to_string(), Node::Broken);
        self
    }

    fn look(&mut self, path: &str) -> Entry {
        self.visited.push(path.to_string());
        match self.nodes.get(path) {
            Some(Node::File(content)) => Entry::File(content.clone()),
            Some(Node::Dir(children)) => Entry::Dir(children.clone()),
            Some(Node::Other) => Entry::Other,
            Some(Node::Broken) | None => Entry::Unreadable,
        }
    }

    fn put(&mut self, file: ObjectFile) -> bool {
        if self.fail_writes {
            return false;
        }
        assert!(!self.objects.contains_key(&file.path), "an object was written twice");
        self.objects.insert(file.path, file.bytes);
        true
    }

    fn add(&mut self, path: &str) -> Result<(), ErrState> {
        let tool = MyGit { repo_path: Some("/r".to_string()) };
        let mut walker = tool.add(path.to_string(), Vec::new());
        loop {
            match walker.next() {
                Step::Done(outcome) => return outcome,
                Step::Visit(p) => {
                    let entry = self.look(&p);
                    if let Some(file) = walker.observe(entry) {
                        if !self.put(file) {
                            walker.write_failed();
                        }
                    }
                }
            }
        }
    }
}

#[test]
fn ignore_set_is_matched_exactly() {
    assert!(is_ignored("./.mygit"));
    assert!(is_ignored("./target"));
    assert!(is_ignored("./.git"));
    assert!(!is_ignored(".mygit"));
    assert!(!is_ignored("./.mygit/objects"));
    assert!(!is_ignored("./targets"));
    assert!(!is_ignored("./src/target"));
    assert!(!is_ignored(""));
}

#[test]
fn add_of_a_single_file_stores_its_blob() {
    let mut disk = Disk::new().file("./a.txt", b"abc");
    assert_eq!(disk.add("./a.txt"), Ok(()));
    assert_eq!(disk.objects.len(), 1);
    assert_eq!(
        disk.objects.get("/r/.mygit/objects/a9993e364706816aba3e25717850c26c9cd0d89d"),
        Some(&b"blob 3\0abc".to_vec())
    );
}

#[test]
fn add_stores_one_object_per_distinct_content() {
    let mut disk = Disk::new()
        .dir(".", &["./same1", "./same2", "./sub", "./one", "./two"])
        .dir("./sub", &["./sub/same3", "./sub/three"])
        .file("./same1", b"same")
        .file("./same2", b"same")
        .file("./sub/same3", b"same")
        .file("./one", b"1")
        .file("./two", b"2")
        .file("./sub/three", b"3");
    assert_eq!(disk.add("."), Ok(()));
    assert_eq!(disk.objects.len(), 4);
}

#[test]
fn add_on_an_ignored_path_does_nothing() {
    for path in ["./.mygit", "./target", "./.git"] {
        let mut disk = Disk::new().dir(path, &["x"]).file("x", b"x");
        assert_eq!(disk.add(path), Ok(()));
        assert_eq!(disk.objects.len(), 0);
        assert!(disk.visited.is_empty());
    }
}

#[test]
fn add_passes_over_ignored_children() {
    let mut disk = Disk::new()
        .dir(".", &["./.mygit", "./a", "./target", "./.git", "./b"])
        .dir("./.mygit", &["./.mygit/objects"])
        .file("./a", b"a")
        .file("./b", b"b");
    assert_eq!(disk.add("."), Ok(()));
    assert_eq!(disk.visited, vec![".", "./a", "./b"]);
    assert_eq!(disk.objects.len(), 2);
}

#[test]
fn add_visits_entries_in_the_order_given() {
    let mut disk = Disk::new()
        .dir("./d", &["./d/z", "./d/sub", "./d/a"])
        .dir("./d/sub", &["./d/sub/y", "./d/sub/x"])
        .file("./d/z", b"z")
        .file("./d/a", b"a")
        .file("./d/sub/y", b"y")
        .file("./d/sub/x", b"x");
    assert_eq!(disk.add("./d"), Ok(()));
    assert_eq!(disk.visited, vec!["./d", "./d/z", "./d/sub", "./d/sub/y", "./d/sub/x", "./d/a"]);
}

#[test]
fn add_fails_on_an_unreadable_file() {
    let mut disk = Disk::new()
        .dir("./d", &["./d/a", "./d/bad", "./d/b"])
        .file("./d/a", b"a")
        .broken("./d/bad")
        .file("./d/b", b"b");
    assert_eq!(disk.add("./d"), Err(ErrState::AddFailed));
    assert_eq!(disk.visited, vec!["./d", "./d/a", "./d/bad"]);
    assert_eq!(disk.objects.len(), 1);
}

#[test]
fn add_fails_on_a_missing_path() {
    let mut disk = Disk::new();
    assert_eq!(disk.add("./nothing"), Err(ErrState::AddFailed));
}

#[test]
fn add_fails_when_an_object_cannot_be_written() {
    let mut disk = Disk::new().dir("./d", &["./d/a", "./d/b"]).file("./d/a", b"a").file("./d/b", b"b");
    disk.fail_writes = true;
    assert_eq!(disk.add("./d"), Err(ErrState::AddFailed));
    assert_eq!(disk.visited, vec!["./d", "./d/a"]);
}

#[test]
fn add_passes_over_other_kinds_of_entry() {
    let mut disk = Disk::new().dir("./d", &["./d/link", "./d/a"]).other("./d/link").file("./d/a", b"a");
    assert_eq!(disk.add("./d"), Ok(()));
    assert_eq!(disk.objects.len(), 1);
}

#[test]
fn add_of_an_empty_directory_succeeds() {
    let mut disk = Disk::new().dir("./empty", &[]);
    assert_eq!(disk.add("./empty"), Ok(()));
    assert_eq!(disk.objects.len(), 0);
}

#[test]
fn add_skips_content_that_the_container_holds() {
    let held = vec!["a9993e364706816aba3e25717850c26c9cd0d89d".to_string()];
    let mut walker = Walker::new(ObjectStore::open("/r".to_string(), held), "./f".to_string());
    assert!(matches!(walker.next(), Step::Visit(p) if p == "./f"));
    assert!(walker.observe(Entry::File(b"abc".to_vec())).is_none());
    assert!(matches!(walker.next(), Step::Done(Ok(()))));
    assert_eq!(walker.store.names.len(), 1);
}

#[test]
fn a_failed_walk_stays_failed() {
    let mut walker = Walker::new(ObjectStore::open("/r".to_string(), Vec::new()), "./f".to_string());
    assert!(matches!(walker.next(), Step::Visit(_)));
    assert!(walker.observe(Entry::Unreadable).is_none());
    assert!(matches!(walker.next(), Step::Done(Err(ErrState::AddFailed))));
    assert!(matches!(walker.next(), Step::Done(Err(ErrState::AddFailed))));
}
