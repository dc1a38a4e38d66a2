use navigator::error::{Fault, Resultx};
use navigator::io::dir::{self, DirEntry, FileType, RawEntry, RawListing};
use navigator::io::fs_ops::{
    self, mirrored, trash_root, FsReply, FsRequest, JobStep, Metadata, Presence, CROSS_DEVICE,
};
use navigator::notice::Notice;
use navigator::path::FilePath;
use navigator::plan::{Op, Problem};
use std::cell::RefCell;
use std::collections::BTreeMap;
use std::ops::Deref;
use std::rc::Rc;

/// What stands at a path.
#[derive(Debug, Clone)]
enum Node {
    Dir { mode: u32 },
    File { bytes: Vec<u8>, mode: u32 },
    Link(FilePath),
}

/// A filesystem in memory.
#[derive(Debug, Default)]
struct Disk {
    nodes: BTreeMap<Vec<u8>, Node>,
}

fn fault(text: &str, code: i32) -> Fault {
    Fault { text: text.to_string(), causes: vec![], code: Some(code) }
}

fn missing() -> Fault {
    fault("No such file or directory (os error 2)", 2)
}

/// A path as the tree has it: no dots, no repeated slashes.
fn plain(path: &FilePath) -> Vec<u8> {
    let mut parts: Vec<Vec<u8>> = Vec::new();
    for part in path.bytes.split(|byte| *byte == b'/') {
        if part == b".." {
            parts.pop();
        } else if !part.is_empty() && part != b"." {
            parts.push(part.to_vec());
        }
    }
    let mut key: Vec<u8> = Vec::new();
    for part in parts {
        key.push(b'/');
        key.extend(part);
    }
    key
}

/// The directory a path stands in.
fn above(key: &[u8]) -> Vec<u8> {
    let slash = key.iter().rposition(|byte| *byte == b'/').unwrap_or(0);
    key[..slash].to_vec()
}

impl Disk {
    /// `path` with the links on the way to it followed, but not one at its end.
    fn place(&self, path: &FilePath) -> Vec<u8> {
        let mut key: Vec<u8> = Vec::new();
        for part in plain(path).split(|byte| *byte == b'/').skip(1) {
            key = self.follow(&key);
            key.push(b'/');
            key.extend_from_slice(part);
        }
        key
    }

    fn follow(&self, key: &[u8]) -> Vec<u8> {
        match self.nodes.get(key) {
            Some(Node::Link(target)) => plain(target),
            _ => key.to_vec(),
        }
    }

    fn node(&self, path: &FilePath) -> Option<&Node> {
        self.nodes.get(&self.place(path))
    }

    /// What is there once links are followed.
    fn target(&self, path: &FilePath) -> Option<&Node> {
        self.nodes.get(&self.follow(&self.place(path)))
    }

    fn children(&self, key: &[u8]) -> Vec<Vec<u8>> {
        let inside = |child: &&Vec<u8>| !child.is_empty() && above(child) == key;
        self.nodes.keys().filter(inside).cloned().collect()
    }

    fn below(&self, key: &[u8]) -> Vec<Vec<u8>> {
        let mut start = key.to_vec();
        start.push(b'/');
        let inside = |child: &&Vec<u8>| *child == key || child.starts_with(&start);
        self.nodes.keys().filter(inside).cloned().collect()
    }

    /// The names in a directory, with what each is.
    fn list(&self, path: &FilePath) -> Result<Vec<(Vec<u8>, Node)>, Fault> {
        let key = self.follow(&self.place(path));
        match self.nodes.get(&key) {
            None => Err(missing()),
            Some(Node::Dir { mode }) if mode & 0o444 == 0 => {
                Err(fault("Permission denied (os error 13)", 13))
            }
            Some(Node::Dir { .. }) => Ok(self
                .children(&key)
                .into_iter()
                .rev()
                .map(|child| (child[key.len() + 1..].to_vec(), self.nodes[&child].clone()))
                .collect()),
            Some(_) => Err(fault("Not a directory (os error 20)", 20)),
        }
    }

    /// A listing as the library takes it.
    fn listing(&self, path: &FilePath) -> RawListing {
        let names = self.list(path)?;
        let raw = |(name, node): (Vec<u8>, Node)| {
            let child = path.join_bytes(&name);
            Some(RawEntry {
                file_type: Some(FileType {
                    symlink: matches!(node, Node::Link(_)),
                    dir: matches!(node, Node::Dir { .. }),
                }),
                leads_to_dir: matches!(self.target(&child), Some(Node::Dir { .. })),
                name,
            })
        };
        Ok(names.into_iter().map(raw).collect())
    }

    fn presence(&self, op: &Op) -> Presence {
        Presence {
            source: op.source().is_some_and(|path| self.node(path).is_some()),
            destination: self.node(op.destination()).is_some(),
        }
    }

    /// Puts a node where there is none, in a directory that is there.
    fn make(&mut self, path: &FilePath, node: Node) -> Result<(), Fault> {
        let key = self.place(path);
        match self.nodes.get(&above(&key)) {
            Some(Node::Dir { .. }) => {}
            _ => return Err(missing()),
        }
        if self.nodes.contains_key(&key) {
            return Err(fault("File exists (os error 17)", 17));
        }
        self.nodes.insert(key, node);
        Ok(())
    }

    fn make_dirs(&mut self, path: &FilePath) {
        let mut key: Vec<u8> = Vec::new();
        for part in plain(path).split(|byte| *byte == b'/') {
            if !part.is_empty() {
                key.push(b'/');
                key.extend_from_slice(part);
            }
            self.nodes.entry(key.clone()).or_insert(Node::Dir { mode: 0o755 });
        }
    }

    fn rename(&mut self, from: &FilePath, to: &FilePath) -> Result<(), Fault> {
        let (old, new) = (self.place(from), self.place(to));
        if !self.nodes.contains_key(&old) || !self.nodes.contains_key(&above(&new)) {
            return Err(missing());
        }
        for key in self.below(&old) {
            let node = self.nodes.remove(&key).unwrap();
            let mut moved = new.clone();
            moved.extend_from_slice(&key[old.len()..]);
            self.nodes.insert(moved, node);
        }
        Ok(())
    }

    fn copy_file(&mut self, from: &FilePath, to: &FilePath) -> Result<(), Fault> {
        match self.target(from) {
            Some(Node::File { bytes, mode }) => {
                let node = Node::File { bytes: bytes.clone(), mode: *mode };
                let key = self.place(to);
                if !self.nodes.contains_key(&above(&key)) {
                    return Err(missing());
                }
                self.nodes.insert(key, node);
                Ok(())
            }
            _ => Err(missing()),
        }
    }

    fn perform(&mut self, request: FsRequest) -> FsReply {
        match request {
            FsRequest::MakeFile(path) => {
                FsReply::Done(self.make(&path, Node::File { bytes: vec![], mode: 0o644 }))
            }
            FsRequest::MakeDir(path) => FsReply::Done(self.make(&path, Node::Dir { mode: 0o755 })),
            FsRequest::MakeDirs(path) => {
                self.make_dirs(&path);
                FsReply::Done(Ok(()))
            }
            FsRequest::Rename { from, to } => FsReply::Done(self.rename(&from, &to)),
            FsRequest::Look(path) => FsReply::Looked(match self.node(&path) {
                Some(Node::Dir { mode }) => Ok(Metadata { symlink: false, dir: true, mode: *mode }),
                Some(Node::File { mode, .. }) => {
                    Ok(Metadata { symlink: false, dir: false, mode: *mode })
                }
                Some(Node::Link(_)) => Ok(Metadata { symlink: true, dir: false, mode: 0o777 }),
                None => Err(missing()),
            }),
            FsRequest::ReadLink(path) => FsReply::LinkRead(match self.node(&path) {
                Some(Node::Link(target)) => Ok(target.clone()),
                _ => Err(missing()),
            }),
            FsRequest::MakeLink { target, at } => FsReply::Done(self.make(&at, Node::Link(target))),
            FsRequest::CopyFile { from, to } => FsReply::Done(self.copy_file(&from, &to)),
            FsRequest::List(path) => FsReply::Listed(
                self.list(&path).map(|names| names.into_iter().map(|(name, _)| Ok(name)).collect()),
            ),
            FsRequest::SetMode { path, mode } => {
                let key = self.place(&path);
                FsReply::Done(match self.nodes.get_mut(&key) {
                    Some(Node::Dir { mode: kept }) | Some(Node::File { mode: kept, .. }) => {
                        *kept = mode;
                        Ok(())
                    }
                    _ => Err(missing()),
                })
            }
            FsRequest::RemoveFile(path) => {
                let key = self.place(&path);
                FsReply::Done(self.nodes.remove(&key).map(|_| ()).ok_or_else(missing))
            }
            FsRequest::RemoveDirs(path) => {
                for key in self.below(&self.place(&path)) {
                    self.nodes.remove(&key);
                }
                FsReply::Done(Ok(()))
            }
        }
    }

    /// Carries an operation out to its end.
    fn apply(&mut self, op: &Op, notices: &mut Vec<Notice>) -> Resultx<()> {
        let mut job = fs_ops::apply(op, &trash());
        loop {
            match job.next(notices) {
                JobStep::Done(result) => return result,
                JobStep::Ask(request) => {
                    let reply = self.perform(request);
                    assert!(job.expects(&reply), "{job:?} does not expect {reply:?}");
                    job.take_reply(reply, notices)?;
                }
            }
        }
    }
}

fn trash() -> FilePath {
    fs_ops::trash_root(&FilePath::new("/tmp"), 4242)
}

/// A path in a tree.
#[derive(Debug, Clone)]
struct Place {
    tree: Rc<RefCell<Disk>>,
    path: FilePath,
}

impl Place {
    fn join(&self, name: &str) -> Place {
        Place { tree: self.tree.clone(), path: self.path.join(name) }
    }

    /// Whether anything is there once links are followed.
    fn is_there(&self) -> bool {
        self.tree.borrow().target(&self.path).is_some()
    }

    fn is_dir(&self) -> bool {
        matches!(self.tree.borrow().target(&self.path), Some(Node::Dir { .. }))
    }

    fn is_symlink(&self) -> bool {
        matches!(self.tree.borrow().node(&self.path), Some(Node::Link(_)))
    }

    fn remove(&self) {
        let mut tree = self.tree.borrow_mut();
        let key = tree.place(&self.path);
        assert!(tree.children(&key).is_empty(), "{} is not empty", self.path.display());
        tree.nodes.remove(&key).unwrap();
    }

    fn set_mode(&self, mode: u32) {
        let path = self.path.clone();
        let reply = self.tree.borrow_mut().perform(FsRequest::SetMode { path, mode });
        assert!(matches!(reply, FsReply::Done(Ok(()))));
    }
}

impl Deref for Place {
    type Target = FilePath;

    fn deref(&self) -> &FilePath {
        &self.path
    }
}

impl PartialEq<Place> for FilePath {
    fn eq(&self, other: &Place) -> bool {
        *self == other.path
    }
}

/// The contents of a file.
fn read(path: &Place) -> String {
    match path.tree.borrow().target(&path.path) {
        Some(Node::File { bytes, .. }) => String::from_utf8(bytes.clone()).unwrap(),
        other => panic!("{} is {other:?}", path.path.display()),
    }
}

fn symlink(target: &FilePath, at: Place) {
    at.tree.borrow_mut().make(&at.path, Node::Link(target.clone())).unwrap();
}

/// A directory of its own for a test.
struct TempDir {
    place: Place,
}

impl TempDir {
    fn new() -> Self {
        let path = FilePath::new("/tmp/nav-test");
        let mut tree = Disk::default();
        tree.make_dirs(&path);
        Self { place: Place { tree: Rc::new(RefCell::new(tree)), path } }
    }

    fn path(&self) -> Place {
        self.place.clone()
    }

    /// Creates `name` (which may contain `/`) holding `contents`, and returns its path.
    fn file(&self, name: &str, contents: impl AsRef<[u8]>) -> Place {
        let place = self.place.join(name);
        let mut tree = self.place.tree.borrow_mut();
        tree.make_dirs(&place.path.parent().unwrap());
        let bytes = contents.as_ref().to_vec();
        tree.nodes.insert(plain(&place.path), Node::File { bytes, mode: 0o644 });
        place.clone()
    }

    /// Creates directory `name` (which may contain `/`), and returns its path.
    fn dir(&self, name: &str) -> Place {
        let place = self.place.join(name);
        self.place.tree.borrow_mut().make_dirs(&place.path);
        place
    }
}

fn read_dir(place: &Place) -> Resultx<Vec<DirEntry>> {
    let mut notices: Vec<Notice> = Vec::new();
    let listing = place.tree.borrow().listing(&place.path);
    dir::read_dir(&place.path, listing, &mut notices)
}

fn read_dir_with_dots(place: &Place) -> Resultx<Vec<DirEntry>> {
    let mut notices: Vec<Notice> = Vec::new();
    let listing = place.tree.borrow().listing(&place.path);
    dir::read_dir_with_dots(&place.path, listing, &mut notices)
}

fn resolve(place: &Place) -> Resultx<FilePath> {
    let tree = place.tree.borrow();
    let found = FilePath::from_bytes(tree.follow(&tree.place(&place.path)));
    let answer = if place.is_there() { Ok(found) } else { Err(missing()) };
    dir::resolve(&place.path, answer)
}

fn names(entries: &[DirEntry]) -> Vec<&str> {
    entries.iter().map(|e| e.name.as_str()).collect()
}

#[test]
fn lists_directories_before_files() {
    let tmp = TempDir::new();
    tmp.file("zebra.txt", "");
    tmp.dir("apple");
    tmp.file("banana.txt", "");
    tmp.dir("zoo");

    let entries = read_dir(&tmp.path()).unwrap();

    assert_eq!(names(&entries), ["apple", "zoo", "banana.txt", "zebra.txt"]);
}

#[test]
fn lists_hidden_files() {
    let tmp = TempDir::new();
    tmp.file(".gitignore", "");
    tmp.dir(".git");
    tmp.file("visible.txt", "");

    let entries = read_dir(&tmp.path()).unwrap();

    assert_eq!(names(&entries), [".git", ".gitignore", "visible.txt"]);
}

#[test]
fn lists_an_empty_directory_as_empty() {
    let tmp = TempDir::new();

    assert!(read_dir(&tmp.path()).unwrap().is_empty());
}

#[test]
fn does_not_descend_into_subdirectories() {
    let tmp = TempDir::new();
    tmp.file("nested/deep.txt", "");

    let entries = read_dir(&tmp.path()).unwrap();

    assert_eq!(names(&entries), ["nested"]);
}

#[test]
fn reading_a_missing_directory_fails() {
    let tmp = TempDir::new();

    assert!(read_dir(&tmp.path().join("nope")).is_err());
}

#[test]
fn reading_a_file_as_a_directory_fails() {
    let tmp = TempDir::new();
    let file = tmp.file("notadir.txt", "");

    assert!(read_dir(&file).is_err());
}

#[test]
fn dots_come_first_and_are_directories() {
    let tmp = TempDir::new();
    tmp.dir("aaa");

    let entries = read_dir_with_dots(&tmp.path()).unwrap();

    assert_eq!(names(&entries), [".", "..", "aaa"]);
    assert!(entries.iter().all(|e| e.is_dir));
}

#[test]
fn dots_are_listed_even_for_an_empty_directory() {
    let tmp = TempDir::new();

    let entries = read_dir_with_dots(&tmp.path()).unwrap();

    assert_eq!(names(&entries), [".", ".."]);
}

#[test]
fn resolve_makes_a_relative_path_absolute() {
    let tmp = TempDir::new();
    tmp.dir("sub");

    let resolved = resolve(&tmp.path().join("sub/..")).unwrap();

    assert_eq!(resolved, tmp.path());
    assert!(resolved.is_absolute());
}

#[test]
fn resolving_a_missing_path_fails() {
    let tmp = TempDir::new();

    assert!(resolve(&tmp.path().join("nope")).is_err());
}

#[test]
fn a_symlink_to_a_directory_counts_as_a_directory() {
    let tmp = TempDir::new();
    let target = tmp.dir("real");
    tmp.file("real/inside.txt", "");
    symlink(&target, tmp.path().join("link"));

    let entries = read_dir(&tmp.path()).unwrap();
    let link = entries.iter().find(|e| e.name == "link").unwrap();

    assert!(link.is_dir, "symlinked directories must be enterable");
}

#[test]
fn a_symlink_to_a_file_is_not_a_directory() {
    let tmp = TempDir::new();
    let target = tmp.file("real.txt", "hi");
    symlink(&target, tmp.path().join("link"));

    let entries = read_dir(&tmp.path()).unwrap();
    let link = entries.iter().find(|e| e.name == "link").unwrap();

    assert!(!link.is_dir);
}

#[test]
fn a_broken_symlink_is_not_a_directory() {
    let tmp = TempDir::new();
    symlink(&tmp.path().join("gone"), tmp.path().join("link"));

    let entries = read_dir(&tmp.path()).unwrap();
    let link = entries.iter().find(|e| e.name == "link").unwrap();

    assert!(!link.is_dir);
}

#[test]
fn names_that_are_not_utf8_are_still_listed() {
    let tmp = TempDir::new();
    // 0xff is never valid UTF-8, so the name has to come back lossily converted.
    let path = tmp.path().path.join_bytes(b"bad-\xff-name");
    tmp.path().tree.borrow_mut().make(&path, Node::File { bytes: vec![], mode: 0o644 }).unwrap();

    let entries = read_dir(&tmp.path()).unwrap();

    assert_eq!(names(&entries), ["bad-\u{fffd}-name"]);
}

#[test]
fn reading_a_directory_without_permission_fails() {
    let tmp = TempDir::new();
    let locked = tmp.dir("locked");
    locked.set_mode(0o000);

    assert!(read_dir(&locked).is_err());
}

#[test]
fn an_entry_that_cannot_be_read_is_skipped() {
    let mut notices: Vec<Notice> = Vec::new();
    let entry = |name: &str, file_type| {
        Some(RawEntry { name: name.as_bytes().to_vec(), file_type, leads_to_dir: true })
    };
    let found = vec![None, entry("unknown", None), None];

    let entries = dir::read_dir(&FilePath::new("/a"), Ok(found), &mut notices).unwrap();

    assert_eq!(names(&entries), ["unknown"]);
    assert!(!entries[0].is_dir, "what it is could not be read");
    assert_eq!(notices.len(), 1);
    assert_eq!(notices[0].text, "Reading directory: /a");
}

#[test]
fn names_are_put_in_the_order_of_their_bytes() {
    let tmp = TempDir::new();
    for name in ["b", "a", "B", "ab", "é", "Z", "10", "9", "a b"] {
        tmp.file(name, "");
    }

    let entries = read_dir(&tmp.path()).unwrap();

    let mut expected = vec!["b", "a", "B", "ab", "é", "Z", "10", "9", "a b"];
    expected.sort();
    assert_eq!(names(&entries), expected);
}

fn copy(from: &Place, to: &Place) -> Op {
    Op::Copy { from: from.path.clone(), to: to.path.clone() }
}

fn mv(from: &Place, to: &Place) -> Op {
    Op::Move { from: from.path.clone(), to: to.path.clone() }
}

fn apply(tmp: &TempDir, op: &Op) -> Resultx<()> {
    let mut notices: Vec<Notice> = Vec::new();
    tmp.path().tree.borrow_mut().apply(op, &mut notices)
}

fn problem(tmp: &TempDir, op: &Op) -> Option<Problem> {
    fs_ops::problem(op, tmp.path().tree.borrow().presence(op))
}

/// Where a trashed path lands.
fn trashed(path: &Place) -> Place {
    let nested = mirrored(path);
    Place { tree: path.tree.clone(), path: trash().join_bytes(&nested.bytes) }
}

fn link_target(path: &Place) -> FilePath {
    match path.tree.borrow().node(&path.path) {
        Some(Node::Link(target)) => target.clone(),
        other => panic!("{} is {other:?}", path.path.display()),
    }
}

fn mode_of(path: &Place) -> u32 {
    match path.tree.borrow().node(&path.path) {
        Some(Node::File { mode, .. }) | Some(Node::Dir { mode }) => *mode,
        other => panic!("{} is {other:?}", path.path.display()),
    }
}

#[test]
fn creating_a_file_makes_an_empty_one() {
    let tmp = TempDir::new();
    let path = tmp.path().join("new.txt");

    apply(&tmp, &Op::CreateFile(path.path.clone())).unwrap();

    assert_eq!(read(&path), "");
}

#[test]
fn creating_a_file_that_exists_fails() {
    let tmp = TempDir::new();
    let path = tmp.file("taken.txt", "keep me");

    assert!(apply(&tmp, &Op::CreateFile(path.path.clone())).is_err());
    assert_eq!(read(&path), "keep me", "must not truncate what is there");
}

#[test]
fn creating_a_directory_makes_one() {
    let tmp = TempDir::new();
    let path = tmp.path().join("new");

    apply(&tmp, &Op::CreateDir(path.path.clone())).unwrap();

    assert!(path.is_dir());
}

#[test]
fn copying_a_file_leaves_the_original() {
    let tmp = TempDir::new();
    let from = tmp.file("source.txt", "contents");
    let to = tmp.path().join("copy.txt");

    apply(&tmp, &copy(&from, &to)).unwrap();

    assert_eq!(read(&to), "contents");
    assert_eq!(read(&from), "contents");
}

#[test]
fn copying_a_directory_brings_the_whole_tree() {
    let tmp = TempDir::new();
    tmp.file("tree/top.txt", "top");
    tmp.file("tree/deep/nested/leaf.txt", "leaf");
    tmp.dir("tree/empty");
    let to = tmp.path().join("clone");

    apply(&tmp, &copy(&tmp.path().join("tree"), &to)).unwrap();

    assert_eq!(read(&to.join("top.txt")), "top");
    assert_eq!(read(&to.join("deep/nested/leaf.txt")), "leaf");
    assert!(to.join("empty").is_dir());
}

#[test]
fn copying_recreates_symlinks_instead_of_following_them() {
    let tmp = TempDir::new();
    let target = tmp.file("tree/real.txt", "real");
    symlink(&target, tmp.path().join("tree/link.txt"));
    let to = tmp.path().join("clone");

    apply(&tmp, &copy(&tmp.path().join("tree"), &to)).unwrap();

    let copied = to.join("link.txt");
    assert!(
        copied.is_symlink(),
        "the link should still be a link"
    );
    assert_eq!(link_target(&copied), target);
}

#[test]
fn copying_a_directory_containing_a_link_to_itself_terminates() {
    let tmp = TempDir::new();
    let tree = tmp.dir("tree");
    tmp.file("tree/file.txt", "x");
    // Following this would recurse forever.
    symlink(&tree, tmp.path().join("tree/loop"));

    apply(&tmp, &copy(&tree, &tmp.path().join("clone"))).unwrap();

    assert!(tmp.path().join("clone/loop").is_symlink());
}

#[test]
fn copying_preserves_the_executable_bit() {
    let tmp = TempDir::new();
    let from = tmp.file("run.sh", "#!/bin/sh\n");
    from.set_mode(0o755);
    let to = tmp.path().join("run-copy.sh");

    apply(&tmp, &copy(&from, &to)).unwrap();

    let mode = mode_of(&to);
    assert_eq!(mode & 0o111, 0o111, "executable bit was lost");
}

#[test]
fn moving_a_file_removes_the_original() {
    let tmp = TempDir::new();
    let from = tmp.file("source.txt", "contents");
    let to = tmp.path().join("moved.txt");

    apply(&tmp, &mv(&from, &to)).unwrap();

    assert_eq!(read(&to), "contents");
    assert!(!from.is_there());
}

#[test]
fn renaming_is_a_move_within_one_directory() {
    let tmp = TempDir::new();
    let from = tmp.file("old.txt", "same file");

    apply(&tmp, &mv(&from, &tmp.path().join("new.txt"))).unwrap();

    assert!(!from.is_there());
    assert_eq!(read(&tmp.path().join("new.txt")), "same file");
}

#[test]
fn trashing_moves_the_file_out_of_the_way() {
    let tmp = TempDir::new();
    let path = tmp.file("doomed.txt", "goodbye");

    apply(&tmp, &Op::Trash(path.path.clone())).unwrap();

    assert!(!path.is_there());
    assert_eq!(read(&trashed(&path)), "goodbye");
}

#[test]
fn trashing_takes_whole_directories() {
    let tmp = TempDir::new();
    tmp.file("doomed/inside/deep.txt", "still here");
    let doomed = tmp.path().join("doomed");

    apply(&tmp, &Op::Trash(doomed.path.clone())).unwrap();

    assert!(!doomed.is_there());
    let landed = trashed(&doomed);
    assert_eq!(read(&landed.join("inside/deep.txt")), "still here");
}

#[test]
fn two_files_with_one_name_do_not_collide_in_the_trash() {
    let tmp = TempDir::new();
    let first = tmp.file("one/notes.txt", "from one");
    let second = tmp.file("two/notes.txt", "from two");

    apply(&tmp, &Op::Trash(first.path.clone())).unwrap();
    apply(&tmp, &Op::Trash(second.path.clone())).unwrap();

    assert_eq!(read(&trashed(&first)), "from one");
    assert_eq!(read(&trashed(&second)), "from two");
}

#[test]
fn the_trash_path_mirrors_the_original() {
    let path = FilePath::new("/Users/ioan/project/old.rs");

    assert_eq!(mirrored(&path), FilePath::new("Users/ioan/project/old.rs"));
    assert!(
        !mirrored(&path).is_absolute(),
        "must be joinable under the trash root"
    );
}

#[test]
fn a_missing_source_is_a_problem() {
    let tmp = TempDir::new();
    let gone = tmp.path().join("never-existed.txt");

    let op = copy(&gone, &tmp.path().join("x.txt"));

    assert_eq!(problem(&tmp, &op), Some(Problem::SourceMissing));
}

#[test]
fn an_occupied_destination_is_a_problem() {
    let tmp = TempDir::new();
    let from = tmp.file("source.txt", "a");
    let to = tmp.file("taken.txt", "b");

    assert_eq!(
        problem(&tmp, &copy(&from, &to)),
        Some(Problem::DestinationExists)
    );
}

#[test]
fn creating_over_something_is_a_problem() {
    let tmp = TempDir::new();
    let taken = tmp.file("taken.txt", "");

    assert_eq!(
        problem(&tmp, &Op::CreateFile(taken.path.clone())),
        Some(Problem::DestinationExists)
    );
    assert_eq!(
        problem(&tmp, &Op::CreateDir(taken.path.clone())),
        Some(Problem::DestinationExists)
    );
}

#[test]
fn trashing_never_reports_a_destination_conflict() {
    let tmp = TempDir::new();
    let path = tmp.file("doomed.txt", "");

    assert_eq!(problem(&tmp, &Op::Trash(path.path.clone())), None);
}

#[test]
fn the_pure_checks_run_before_the_filesystem_is_asked() {
    let tmp = TempDir::new();
    let inner = tmp.dir("outer/inner");

    // The destination does not exist, so only the pure check can catch this.
    let op = mv(&tmp.path().join("outer"), &inner.join("deeper"));

    assert_eq!(problem(&tmp, &op), Some(Problem::DirectoryIntoItself));
}

#[test]
fn a_clean_operation_has_no_problem() {
    let tmp = TempDir::new();
    let from = tmp.file("source.txt", "");

    let op = copy(&from, &tmp.path().join("destination.txt"));

    assert_eq!(problem(&tmp, &op), None);
}

#[test]
fn a_broken_symlink_counts_as_present_so_it_can_be_trashed() {
    let tmp = TempDir::new();
    let link = tmp.path().join("dangling");
    symlink(&tmp.path().join("nothing-here"), link.clone());

    assert_eq!(problem(&tmp, &Op::Trash(link.path.clone())), None);

    apply(&tmp, &Op::Trash(link.path.clone())).unwrap();
    assert!(!link.is_symlink());
}

#[test]
fn a_move_across_devices_is_a_copy_and_then_a_removal() {
    let tmp = TempDir::new();
    let from = tmp.file("tree/deep/leaf.txt", "leaf").path.parent().unwrap().parent().unwrap();
    let to = tmp.path().join("clone");
    let op = Op::Move { from: from.clone(), to: to.path.clone() };

    let mut notices: Vec<Notice> = Vec::new();
    let mut job = fs_ops::apply(&op, &trash());
    let mut asked: Vec<String> = Vec::new();
    let result = loop {
        match job.next(&mut notices) {
            JobStep::Done(result) => break result,
            JobStep::Ask(request) => {
                asked.push(format!("{request:?}").split(|c: char| !c.is_alphanumeric()).next().unwrap().to_string());
                let reply = match request {
                    FsRequest::Rename { .. } => {
                        FsReply::Done(Err(fault("Invalid cross-device link", CROSS_DEVICE)))
                    }
                    request => tmp.path().tree.borrow_mut().perform(request),
                };
                assert!(job.expects(&reply));
                job.take_reply(reply, &mut notices).unwrap();
            }
        }
    };

    result.unwrap();
    assert_eq!(read(&to.join("deep/leaf.txt")), "leaf");
    assert!(!tmp.path().join("tree").is_there());
    let removed = asked.iter().position(|name| name.starts_with("Remove")).unwrap();
    let copied = asked.iter().rposition(|name| name == "CopyFile").unwrap();
    assert!(copied < removed, "{asked:?}");
}

#[test]
fn a_copy_that_fails_halfway_says_where() {
    let tmp = TempDir::new();
    let from = tmp.dir("tree");
    tmp.dir("tree/locked").set_mode(0o000);

    let errx = apply(&tmp, &copy(&from, &tmp.path().join("clone"))).unwrap_err();

    assert_eq!(
        errx.chain(),
        ["IO: reading /tmp/nav-test/tree/locked", "Permission denied (os error 13)"]
    );
}

#[test]
fn a_rename_that_fails_for_any_other_reason_is_not_a_copy() {
    let tmp = TempDir::new();
    let from = tmp.file("a.txt", "");

    assert!(apply(&tmp, &mv(&from, &tmp.path().join("gone/a.txt"))).is_err());
    assert!(from.is_there(), "nothing may be removed");
}

#[test]
fn the_trash_of_a_session_is_its_own() {
    let one = trash_root(&FilePath::new("/tmp"), 1);
    let two = trash_root(&FilePath::new("/tmp"), 2);

    assert!(one != two);
    assert!(one.starts_with(&FilePath::new("/tmp")));
}
