use navigator::memory::Memory;
use navigator::path::FilePath;

fn dir(path: &str) -> FilePath {
    FilePath::new(path)
}

#[test]
fn an_unvisited_directory_is_not_remembered() {
    let memory = Memory::default();

    assert_eq!(memory.recall(&dir("/a")), None);
}

#[test]
fn recalls_what_was_remembered() {
    let mut memory = Memory::default();
    memory.remember(&dir("/a"), "notes.txt");

    assert_eq!(memory.recall(&dir("/a")), Some("notes.txt"));
}

#[test]
fn the_latest_position_replaces_the_previous_one() {
    let mut memory = Memory::default();
    memory.remember(&dir("/a"), "first.txt");
    memory.remember(&dir("/a"), "second.txt");

    assert_eq!(memory.recall(&dir("/a")), Some("second.txt"));
}

#[test]
fn directories_are_remembered_independently() {
    let mut memory = Memory::default();
    memory.remember(&dir("/a"), "in-a.txt");
    memory.remember(&dir("/a/b"), "in-b.txt");

    assert_eq!(memory.recall(&dir("/a")), Some("in-a.txt"));
    assert_eq!(memory.recall(&dir("/a/b")), Some("in-b.txt"));
}

#[test]
fn a_nested_path_is_not_confused_with_its_parent() {
    let mut memory = Memory::default();
    memory.remember(&dir("/a/b"), "deep.txt");

    assert_eq!(memory.recall(&dir("/a")), None);
}
