use navigator::path::FilePath;
use navigator::plan::{validate_name, Op, Plan, Problem};

fn p(path: &str) -> FilePath {
    FilePath::new(path)
}

fn copy(from: &str, to: &str) -> Op {
    Op::Copy {
        from: p(from),
        to: p(to),
    }
}

fn mv(from: &str, to: &str) -> Op {
    Op::Move {
        from: p(from),
        to: p(to),
    }
}

#[test]
fn a_plain_copy_has_no_problem() {
    assert_eq!(copy("/a/x.txt", "/b/x.txt").problem(), None);
}

#[test]
fn copying_a_directory_inside_itself_is_refused() {
    assert_eq!(
        copy("/a/src", "/a/src/backup").problem(),
        Some(Problem::DirectoryIntoItself)
    );
}

#[test]
fn moving_a_directory_deep_inside_itself_is_refused() {
    assert_eq!(
        mv("/a", "/a/b/c/d").problem(),
        Some(Problem::DirectoryIntoItself)
    );
}

#[test]
fn a_shared_name_prefix_is_not_containment() {
    // "/a/bb" is not inside "/a/b", even though the strings share a prefix.
    assert_eq!(copy("/a/b", "/a/bb").problem(), None);
}

#[test]
fn copying_onto_itself_is_refused() {
    assert_eq!(
        copy("/a/x.txt", "/a/x.txt").problem(),
        Some(Problem::SameSourceAndDestination)
    );
}

#[test]
fn operations_without_a_source_have_no_pure_problem() {
    assert_eq!(Op::CreateFile(p("/a/new.txt")).problem(), None);
    assert_eq!(Op::CreateDir(p("/a/new")).problem(), None);
    assert_eq!(Op::Trash(p("/a/old.txt")).problem(), None);
}

#[test]
fn a_move_within_one_directory_reads_as_a_rename() {
    let described = mv("/a/old.txt", "/a/new.txt").describe();

    assert_eq!(described.verb, "rename");
    assert_eq!(described.subject, "old.txt");
    assert_eq!(described.destination.as_deref(), Some("new.txt"));
}

#[test]
fn a_move_between_directories_reads_as_a_move() {
    let described = mv("/a/x.txt", "/b/x.txt").describe();

    assert_eq!(described.verb, "move");
    assert_eq!(described.subject, "x.txt");
    assert_eq!(described.destination.as_deref(), Some("/b/x.txt"));
}

#[test]
fn every_operation_describes_itself() {
    let verbs: Vec<_> = [
        Op::CreateFile(p("/a/n.txt")),
        Op::CreateDir(p("/a/n")),
        Op::Trash(p("/a/o.txt")),
        copy("/a/x", "/b/x"),
    ]
    .iter()
    .map(|op| op.describe().verb)
    .collect();

    assert_eq!(verbs, ["create", "mkdir", "trash", "copy"]);
}

#[test]
fn the_destination_is_what_gets_written() {
    assert_eq!(copy("/a/x", "/b/x").destination(), &p("/b/x"));
    assert_eq!(mv("/a/x", "/b/x").destination(), &p("/b/x"));
    assert_eq!(
        Op::CreateFile(p("/a/n.txt")).destination(),
        &p("/a/n.txt")
    );
}

#[test]
fn retargeting_keeps_the_destination_directory() {
    let mut op = copy("/a/x.txt", "/b/x.txt");
    op.retarget("renamed.txt");

    assert_eq!(op.destination(), &p("/b/renamed.txt"));
    assert_eq!(op.source().unwrap(), &p("/a/x.txt"));
}

#[test]
fn retargeting_a_create_keeps_its_directory() {
    let mut op = Op::CreateDir(p("/a/wrong"));
    op.retarget("right");

    assert_eq!(op.destination(), &p("/a/right"));
}

#[test]
fn usable_names_are_accepted() {
    for name in ["notes.txt", "src", ".gitignore", "a b c.rs", "..hidden"] {
        assert_eq!(validate_name(name), None, "{name}");
    }
}

#[test]
fn unusable_names_are_refused() {
    for name in ["", "   ", ".", "..", "a/b", "a\\b", "a\0b"] {
        assert_eq!(
            validate_name(name),
            Some(Problem::InvalidName),
            "{name:?} should not be accepted"
        );
    }
}

#[test]
fn a_plan_stages_in_order() {
    let mut plan = Plan::default();
    plan.push(Op::Trash(p("/a/first")));
    plan.push(Op::Trash(p("/a/second")));

    let names: Vec<_> = plan.ops().iter().map(|op| op.describe().subject).collect();

    assert_eq!(names, ["first", "second"]);
    assert_eq!(plan.len(), 2);
}

#[test]
fn dropping_by_index_removes_only_that_operation() {
    let mut plan = Plan::default();
    plan.push(Op::Trash(p("/a/first")));
    plan.push(Op::Trash(p("/a/second")));
    plan.remove(0);

    let names: Vec<_> = plan.ops().iter().map(|op| op.describe().subject).collect();

    assert_eq!(names, ["second"]);
}

#[test]
fn dropping_out_of_range_is_harmless() {
    let mut plan = Plan::default();
    plan.push(Op::Trash(p("/a/only")));
    plan.remove(9);

    assert_eq!(plan.len(), 1);
}

#[test]
fn dropping_blocked_keeps_the_rest() {
    let mut plan = Plan::default();
    plan.push(copy("/a/good", "/b/good"));
    plan.push(copy("/a/bad", "/a/bad/inside"));
    plan.push(copy("/a/also-good", "/b/also-good"));

    plan.drop_blocked(|op| op.problem().is_some());

    assert_eq!(plan.len(), 2);
    assert!(plan.ops().iter().all(|op| op.problem().is_none()));
}

#[test]
fn failures_replace_the_plan_and_keep_their_reason() {
    let mut plan = Plan::default();
    plan.push(Op::Trash(p("/a/one")));
    plan.push(Op::Trash(p("/a/two")));

    plan.keep_failures(vec![(Op::Trash(p("/a/two")), "permission denied".into())]);

    assert_eq!(plan.len(), 1);
    let staged = plan.iter().first().unwrap();
    assert_eq!(staged.failure.as_deref(), Some("permission denied"));
}
