use navigator::path::{sort_bytes, FilePath, Sorted};
use std::cmp::Ordering;
use std::path::{Component, Path, PathBuf};

const SAMPLES: [&str; 32] = [
    "", "/", "//", "///a", ".", "..", "./", "./a", "a", "a/", "a//b", "a/./b", "a/.", "a/..",
    "../a", "/a", "/a/", "/a/b", "/a/b/", "/a/./b", "/a/../b", "/..", "/.", "a.b", ".a", "a.",
    "a.b.c", "/x/.hidden", "/x/..", "/x/a.tar.gz", "a b/c d", "...",
];

fn shown(path: Option<FilePath>) -> Option<PathBuf> {
    path.map(|path| PathBuf::from(path.display()))
}

fn name(bytes: Option<Vec<u8>>) -> Option<String> {
    bytes.map(|bytes| String::from_utf8(bytes).unwrap())
}

fn parts(path: &str) -> Vec<String> {
    Path::new(path)
        .components()
        .map(|component| match component {
            Component::RootDir => "/".to_string(),
            other => other.as_os_str().to_str().unwrap().to_string(),
        })
        .collect()
}

#[test]
fn components_are_those_of_the_system() {
    for sample in SAMPLES {
        let found: Vec<String> = FilePath::new(sample)
            .components()
            .into_iter()
            .map(|bytes| String::from_utf8(bytes).unwrap())
            .collect();
        assert_eq!(found, parts(sample), "{sample:?}");
    }
}

#[test]
fn a_path_is_taken_apart_as_the_system_does() {
    for sample in SAMPLES {
        let (path, std) = (FilePath::new(sample), Path::new(sample));
        assert_eq!(path.is_absolute(), std.is_absolute(), "{sample:?}");
        assert_eq!(shown(path.parent()).as_deref(), std.parent(), "{sample:?}");
        assert_eq!(name(path.file_name()).as_deref(), std.file_name().map(|n| n.to_str().unwrap()));
        assert_eq!(name(path.extension()).as_deref(), std.extension().map(|n| n.to_str().unwrap()));
    }
}

#[test]
fn joining_is_that_of_the_system() {
    for above in SAMPLES {
        for below in SAMPLES {
            let joined = FilePath::new(above).join(below);
            assert_eq!(joined.display(), Path::new(above).join(below).to_str().unwrap());
        }
    }
}

#[test]
fn paths_are_compared_as_the_system_does() {
    for a in SAMPLES {
        for b in SAMPLES {
            let (one, two) = (FilePath::new(a), FilePath::new(b));
            let expected = match Path::new(a).cmp(Path::new(b)) {
                Ordering::Less => Sorted::Before,
                Ordering::Equal => Sorted::Same,
                Ordering::Greater => Sorted::After,
            };
            assert_eq!(one.sort(&two), expected, "{a:?} {b:?}");
            assert_eq!(one.same(&two), Path::new(a) == Path::new(b));
            assert_eq!(one == two, Path::new(a) == Path::new(b));
            assert_eq!(one.starts_with(&two), Path::new(a).starts_with(b), "{a:?} {b:?}");
            let below = Path::new(a)
                .strip_prefix(b)
                .ok()
                .and_then(|rest| rest.iter().next())
                .map(|part| part.to_str().unwrap().to_string());
            assert_eq!(name(one.first_below(&two)), below, "{a:?} {b:?}");
        }
    }
}

#[test]
fn bytes_are_compared_one_by_one() {
    for a in ["", "a", "ab", "b", "\u{ff}"] {
        for b in ["", "a", "ab", "b", "\u{ff}"] {
            let expected = match a.as_bytes().cmp(b.as_bytes()) {
                Ordering::Less => Sorted::Before,
                Ordering::Equal => Sorted::Same,
                Ordering::Greater => Sorted::After,
            };
            assert_eq!(sort_bytes(a.as_bytes(), b.as_bytes()), expected);
        }
    }
}

#[test]
fn a_path_that_is_not_utf8_is_shown_as_far_as_it_can_be() {
    let path = FilePath::from_bytes(b"/a/b\xff.txt".to_vec());

    assert_eq!(path.display(), "/a/b\u{fffd}.txt");
    assert_eq!(path.file_name().unwrap(), b"b\xff.txt");
    assert_eq!(path.name_of(), "b\u{fffd}.txt");
}

#[test]
fn a_path_without_a_name_is_named_by_all_of_it() {
    assert_eq!(FilePath::new("/").name_of(), "/");
    assert_eq!(FilePath::new("/a/..").name_of(), "/a/..");
    assert_eq!(FilePath::new("/a/b").name_of(), "b");
}

#[test]
fn what_was_joined_lies_in_its_directory() {
    let dir = FilePath::new("/home/me");
    let file = dir.join("notes.txt");

    assert!(file.starts_with(&dir));
    assert_eq!(file.parent().unwrap(), dir);
    assert_eq!(file.first_below(&dir).unwrap(), b"notes.txt");
}
