//! The key map, and how it is laid out in columns.
use crate::globals::{Color, ACCENT};
use crate::screen::{self, add_span, Line, LineView, Span, Style};
use crate::text::{self, cat, pad};
use vstd::prelude::*;
use vstd::string::StringExecFns;

verus! {

broadcast use {vstd::seq::group_seq_axioms, vstd::seq_lib::group_seq_properties};

/// A group of keys that belong together.
#[derive(Debug)]
pub struct HelpSection {
    pub title: &'static str,
    pub keys: Vec<(&'static str, &'static str)>,
}

/// A group of keys, over the texts.
pub struct SectionView {
    pub title: Seq<char>,
    pub keys: Seq<(Seq<char>, Seq<char>)>,
}

/// Keys with what they do, over the texts.
pub open spec fn pair_views(pairs: Seq<(&'static str, &'static str)>) -> Seq<
    (Seq<char>, Seq<char>),
> {
    Seq::new(pairs.len(), |i: int| (pairs[i].0@, pairs[i].1@))
}

impl View for HelpSection {
    type V = SectionView;

    open spec fn view(&self) -> SectionView {
        SectionView { title: self.title@, keys: pair_views(self.keys@) }
    }
}

/// The sections over their texts.
pub open spec fn section_views(sections: Seq<HelpSection>) -> Seq<SectionView> {
    Seq::new(sections.len(), |i: int| sections[i]@)
}

/// The key map.
#[verifier::opaque]
pub open spec fn key_map() -> Seq<SectionView> {
    seq![
        SectionView {
            title: "moving around"@,
            keys: seq![
                ("j / k"@, "up and down"@),
                ("ctrl-d/u"@, "jump by a screenful"@),
                ("enter / l"@, "enter dir, or open in neovim"@),
                ("- / h"@, "go up a level"@),
                ("z"@, "jump to a zoxide directory"@),
                ("/"@, "search the listing"@),
                ("n / N"@, "next, previous match"@),
                ("q"@, "quit"@),
                ("Q"@, "quit, and take the shell here"@),
            ],
        },
        SectionView {
            title: "marking"@,
            keys: seq![
                ("space"@, "mark or unmark"@),
                ("esc"@, "clear search, then marks, then plan"@),
            ],
        },
        SectionView {
            title: "staging"@,
            keys: seq![
                ("c"@, "copy marked here"@),
                ("m"@, "move marked here"@),
                ("d"@, "trash marked"@),
                ("a"@, "new file"@),
                ("A"@, "new directory"@),
                ("r"@, "rename this entry"@),
            ],
        },
        SectionView {
            title: "the plan"@,
            keys: seq![
                ("p"@, "review the plan"@),
                ("enter"@, "apply it"@),
                ("x"@, "drop this operation"@),
                ("X"@, "drop everything blocked"@),
                ("r"@, "rename its destination"@),
                ("esc"@, "back, keeping the plan"@),
            ],
        },
        SectionView {
            title: "and also"@,
            keys: seq![
                ("y"@, "contents to the clipboard"@),
                ("L"@, "show the log"@),
                ("?"@, "these keys"@),
            ],
        },
    ]
}

/// The longest key of one section.
pub open spec fn longest_key(keys: Seq<(Seq<char>, Seq<char>)>) -> nat
    decreases keys.len(),
{
    if keys.len() == 0 {
        0
    } else {
        let before = longest_key(keys.drop_last());
        if keys.last().0.len() > before {
            keys.last().0.len()
        } else {
            before
        }
    }
}

/// The longest key of all, so that the columns line up with each other.
pub open spec fn key_width(sections: Seq<SectionView>) -> nat
    decreases sections.len(),
{
    if sections.len() == 0 {
        0
    } else {
        let before = key_width(sections.drop_last());
        let longest = longest_key(sections.last().keys);
        if longest > before {
            longest
        } else {
            before
        }
    }
}

/// One key with what it does.
pub open spec fn key_line(key: Seq<char>, what: Seq<char>, width: nat) -> LineView {
    screen::line_of(
        seq![
            screen::raw("  "@),
            screen::styled(text::padded(key, width), screen::colored(ACCENT)),
            screen::raw("  "@),
            screen::raw(what),
        ],
    )
}

/// The title of a section.
pub open spec fn title_line(title: Seq<char>) -> LineView {
    screen::line_in(" "@ + title, screen::bold_colored(Color::Yellow))
}

/// One section: its title, then its keys.
pub open spec fn lines_of_section(section: SectionView, width: nat) -> Seq<LineView> {
    seq![title_line(section.title)] + Seq::new(
        section.keys.len(),
        |i: int| key_line(section.keys[i].0, section.keys[i].1, width),
    )
}

/// The line between two sections.
pub open spec fn blank() -> LineView {
    screen::line_in(Seq::empty(), screen::plain())
}

/// Lines that are too many for one column, cut into full columns and a rest.
pub open spec fn cut(lines: Seq<LineView>, height: nat) -> (Seq<Seq<LineView>>, Seq<LineView>)
    decreases lines.len(),
    when height > 0
{
    if lines.len() > height {
        let (columns, rest) = cut(lines.skip(height as int), height);
        (seq![lines.take(height as int)] + columns, rest)
    } else {
        (Seq::empty(), lines)
    }
}

/// The full columns, and the one being filled, once one more section is added. It
/// goes below what the column holds where it fits there, and else into a new one.
pub open spec fn with_section(
    columns: Seq<Seq<LineView>>,
    current: Seq<LineView>,
    lines: Seq<LineView>,
    height: nat,
) -> (Seq<Seq<LineView>>, Seq<LineView>) {
    let below = current.len() + 1 + lines.len() <= height;
    let full = if current.len() > 0 && !below {
        columns.push(current)
    } else {
        columns
    };
    let start = if current.len() == 0 || !below {
        Seq::empty()
    } else {
        current.push(blank())
    };
    let (more, rest) = cut(start + lines, height);
    (full + more, rest)
}

/// The columns once all sections have been added.
pub open spec fn packed(sections: Seq<Seq<LineView>>, height: nat) -> (
    Seq<Seq<LineView>>,
    Seq<LineView>,
)
    decreases sections.len(),
{
    if sections.len() == 0 {
        (Seq::empty(), Seq::empty())
    } else {
        let (columns, current) = packed(sections.drop_last(), height);
        with_section(columns, current, sections.last(), height)
    }
}

/// The lines of every section.
pub open spec fn all_sections(sections: Seq<SectionView>) -> Seq<Seq<LineView>> {
    Seq::new(
        sections.len(),
        |i: int| lines_of_section(sections[i], key_width(sections)),
    )
}

/// At least one row.
pub open spec fn usable(height: nat) -> nat {
    if height > 0 {
        height
    } else {
        1
    }
}

/// The sections packed into columns at most `height` rows tall.
pub open spec fn columns_of(sections: Seq<Seq<LineView>>, height: nat) -> Seq<Seq<LineView>> {
    let (columns, current) = packed(sections, usable(height));
    if current.len() > 0 {
        columns.push(current)
    } else {
        columns
    }
}

/// The columns over their lines.
pub open spec fn column_views(columns: Seq<Vec<Line>>) -> Seq<Seq<LineView>> {
    Seq::new(columns.len(), |i: int| screen::line_views(columns[i]@))
}

/// Puts a pair at the end.
fn add_key(
    keys: &mut Vec<(&'static str, &'static str)>,
    key: &'static str,
    what: &'static str,
)
    ensures
        pair_views(final(keys)@) == pair_views(old(keys)@).push((key@, what@)),
{
    keys.push((key, what));
    proof {
        assert(pair_views(keys@) =~= pair_views(old(keys)@).push((key@, what@)));
    }
}

fn moving_around() -> (section: HelpSection)
    ensures
        section@ == key_map()[0],
{
    let mut keys: Vec<(&'static str, &'static str)> = Vec::new();
    add_key(&mut keys, "j / k", "up and down");
    add_key(&mut keys, "ctrl-d/u", "jump by a screenful");
    add_key(&mut keys, "enter / l", "enter dir, or open in neovim");
    add_key(&mut keys, "- / h", "go up a level");
    add_key(&mut keys, "z", "jump to a zoxide directory");
    add_key(&mut keys, "/", "search the listing");
    add_key(&mut keys, "n / N", "next, previous match");
    add_key(&mut keys, "q", "quit");
    add_key(&mut keys, "Q", "quit, and take the shell here");
    let section = HelpSection { title: "moving around", keys };
    proof {
        reveal(key_map);
        assert(section@.keys =~= key_map()[0].keys);
    }
    section
}

fn marking() -> (section: HelpSection)
    ensures
        section@ == key_map()[1],
{
    let mut keys: Vec<(&'static str, &'static str)> = Vec::new();
    add_key(&mut keys, "space", "mark or unmark");
    add_key(&mut keys, "esc", "clear search, then marks, then plan");
    let section = HelpSection { title: "marking", keys };
    proof {
        reveal(key_map);
        assert(section@.keys =~= key_map()[1].keys);
    }
    section
}

fn staging() -> (section: HelpSection)
    ensures
        section@ == key_map()[2],
{
    let mut keys: Vec<(&'static str, &'static str)> = Vec::new();
    add_key(&mut keys, "c", "copy marked here");
    add_key(&mut keys, "m", "move marked here");
    add_key(&mut keys, "d", "trash marked");
    add_key(&mut keys, "a", "new file");
    add_key(&mut keys, "A", "new directory");
    add_key(&mut keys, "r", "rename this entry");
    let section = HelpSection { title: "staging", keys };
    proof {
        reveal(key_map);
        assert(section@.keys =~= key_map()[2].keys);
    }
    section
}

fn the_plan() -> (section: HelpSection)
    ensures
        section@ == key_map()[3],
{
    let mut keys: Vec<(&'static str, &'static str)> = Vec::new();
    add_key(&mut keys, "p", "review the plan");
    add_key(&mut keys, "enter", "apply it");
    add_key(&mut keys, "x", "drop this operation");
    add_key(&mut keys, "X", "drop everything blocked");
    add_key(&mut keys, "r", "rename its destination");
    add_key(&mut keys, "esc", "back, keeping the plan");
    let section = HelpSection { title: "the plan", keys };
    proof {
        reveal(key_map);
        assert(section@.keys =~= key_map()[3].keys);
    }
    section
}

fn and_also() -> (section: HelpSection)
    ensures
        section@ == key_map()[4],
{
    let mut keys: Vec<(&'static str, &'static str)> = Vec::new();
    add_key(&mut keys, "y", "contents to the clipboard");
    add_key(&mut keys, "L", "show the log");
    add_key(&mut keys, "?", "these keys");
    let section = HelpSection { title: "and also", keys };
    proof {
        reveal(key_map);
        assert(section@.keys =~= key_map()[4].keys);
    }
    section
}

/// The key map.
pub fn help() -> (sections: Vec<HelpSection>)
    ensures
        section_views(sections@) == key_map(),
{
    let mut sections: Vec<HelpSection> = Vec::new();
    sections.push(moving_around());
    sections.push(marking());
    sections.push(staging());
    sections.push(the_plan());
    sections.push(and_also());
    proof {
        reveal(key_map);
        assert(section_views(sections@) =~= key_map());
    }
    sections
}

/// The longest key of all, so that the columns line up with each other.
fn widest_key(sections: &Vec<HelpSection>) -> (width: usize)
    ensures
        width == key_width(section_views(sections@)),
{
    let ghost all = section_views(sections@);
    let mut width: usize = 0;
    let mut i: usize = 0;
    while i < sections.len()
        invariant
            i <= sections@.len(),
            all == section_views(sections@),
            width == key_width(all.take(i as int)),
        decreases sections.len() - i,
    {
        let keys = &sections[i].keys;
        let ghost pairs = pair_views(keys@);
        let mut longest: usize = 0;
        let mut k: usize = 0;
        while k < keys.len()
            invariant
                k <= keys@.len(),
                pairs == pair_views(keys@),
                longest == longest_key(pairs.take(k as int)),
            decreases keys.len() - k,
        {
            proof {
                assert(pairs.take(k as int + 1).drop_last() =~= pairs.take(k as int));
                assert(pairs.take(k as int + 1).last() == (keys@[k as int].0@, keys@[k as int].1@));
            }
            let count: usize = keys[k].0.unicode_len();
            if count > longest {
                longest = count;
            }
            k = k + 1;
        }
        proof {
            assert(pairs.take(k as int) =~= pairs);
            assert(all.take(i as int + 1).drop_last() =~= all.take(i as int));
            assert(all.take(i as int + 1).last() == sections@[i as int]@);
        }
        if longest > width {
            width = longest;
        }
        i = i + 1;
    }
    proof {
        assert(all.take(i as int) =~= all);
    }
    width
}

/// One key with what it does.
fn line_for_key(key: &str, what: &str, width: usize) -> (line: Line)
    ensures
        line@ == key_line(key@, what@, width as nat),
{
    let mut spans: Vec<Span> = Vec::new();
    add_span(&mut spans, "  ".to_owned(), Style::new());
    add_span(&mut spans, pad(key, width), Style::of(ACCENT));
    add_span(&mut spans, "  ".to_owned(), Style::new());
    add_span(&mut spans, what.to_owned(), Style::new());
    proof {
        assert(screen::span_views(spans@) =~= key_line(key@, what@, width as nat).spans);
    }
    Line::from_spans(spans)
}

/// One section: its title, then its keys.
pub fn section_lines(section: &HelpSection, width: usize) -> (lines: Vec<Line>)
    ensures
        screen::line_views(lines@) == lines_of_section(section@, width as nat),
{
    let mut lines: Vec<Line> = Vec::new();
    lines.push(Line::styled(cat(" ", section.title), Style::bold_of(Color::Yellow)));
    let mut i: usize = 0;
    while i < section.keys.len()
        invariant
            i <= section.keys@.len(),
            lines@.len() == i + 1,
            lines@[0]@ == title_line(section@.title),
            forall|k: int|
                0 < k <= i ==> (#[trigger] lines@[k])@ == key_line(
                    section@.keys[k - 1].0,
                    section@.keys[k - 1].1,
                    width as nat,
                ),
        decreases section.keys.len() - i,
    {
        let (key, what) = section.keys[i];
        lines.push(line_for_key(key, what, width));
        i = i + 1;
    }
    proof {
        assert(screen::line_views(lines@) =~= lines_of_section(section@, width as nat));
    }
    lines
}

/// Adds a column.
fn add_column(columns: &mut Vec<Vec<Line>>, column: Vec<Line>)
    ensures
        column_views(final(columns)@) == column_views(old(columns)@).push(
            screen::line_views(column@),
        ),
{
    columns.push(column);
    proof {
        assert(column_views(columns@) =~= column_views(old(columns)@).push(
            screen::line_views(column@),
        ));
    }
}

/// Adds one section to the columns.
fn add_section(
    columns: &mut Vec<Vec<Line>>,
    current: &mut Vec<Line>,
    lines: Vec<Line>,
    height: usize,
)
    requires
        height > 0,
        old(current)@.len() <= height,
    ensures
        (column_views(final(columns)@), screen::line_views(final(current)@)) == with_section(
            column_views(old(columns)@),
            screen::line_views(old(current)@),
            screen::line_views(lines@),
            height as nat,
        ),
        final(current)@.len() <= height,
{
    let ghost columns_before = column_views(columns@);
    let ghost current_before = screen::line_views(current@);
    let ghost added = screen::line_views(lines@);
    let mut lines = lines;
    if current.len() > 0 {
        // `current.len() + 1 + lines.len() > height`, without the sum.
        if lines.len() >= height - current.len() {
            let mut whole: Vec<Line> = Vec::new();
            std::mem::swap(&mut whole, current);
            add_column(columns, whole);
            proof {
                assert(screen::line_views(current@) =~= Seq::empty());
            }
        } else {
            current.push(Line::styled(String::new(), Style::new()));
            proof {
                assert(screen::line_views(current@) =~= current_before.push(blank()));
            }
        }
    } else {
        proof {
            assert(screen::line_views(current@) =~= Seq::empty());
        }
    }
    let ghost full = column_views(columns@);
    let ghost start = screen::line_views(current@);
    current.append(&mut lines);
    proof {
        assert(screen::line_views(current@) =~= start + added);
        let spilling = cut(start + added, height as nat);
        assert(full + Seq::<Seq<LineView>>::empty() =~= full);
        assert(full + spilling.0 == column_views(columns@) + spilling.0);
    }
    let ghost whole = cut(screen::line_views(current@), height as nat);
    while current.len() > height
        invariant
            height > 0,
            (
                column_views(columns@) + cut(screen::line_views(current@), height as nat).0,
                cut(screen::line_views(current@), height as nat).1,
            ) == (full + whole.0, whole.1),
        decreases current.len(),
    {
        let ghost lines_before = screen::line_views(current@);
        let ghost done = column_views(columns@);
        let rest = current.split_off(height);
        let mut spilled = rest;
        std::mem::swap(&mut spilled, current);
        add_column(columns, spilled);
        proof {
            assert(screen::line_views(current@) =~= lines_before.skip(height as int));
            assert(screen::line_views(spilled@) =~= lines_before.take(height as int));
            let after = cut(lines_before.skip(height as int), height as nat);
            let top = lines_before.take(height as int);
            assert(done + (seq![top] + after.0) =~= done.push(top) + after.0);
        }
    }
    proof {
        assert(column_views(columns@) + Seq::<Seq<LineView>>::empty() =~= column_views(columns@));
    }
}

/// Packs the sections into columns at most `height` rows tall.
///
/// A section is never split across two columns: half a group of keys stranded at
/// the bottom of one column reads as a different group than it is. A section
/// taller than the whole screen has no whole column to be kept in, and spills
/// into the next one rather than over what is drawn below the help.
pub fn help_columns(height: usize) -> (columns: Vec<Vec<Line>>)
    ensures
        column_views(columns@) == columns_of(all_sections(key_map()), height as nat),
{
    let height: usize = if height > 0 {
        height
    } else {
        1
    };
    let sections = help();
    let width = widest_key(&sections);
    let ghost listed = all_sections(key_map());
    let mut columns: Vec<Vec<Line>> = Vec::new();
    let mut current: Vec<Line> = Vec::new();
    let mut i: usize = 0;
    proof {
        assert(column_views(columns@) =~= Seq::empty());
        assert(screen::line_views(current@) =~= Seq::empty());
    }
    while i < sections.len()
        invariant
            i <= sections@.len(),
            height > 0,
            section_views(sections@) == key_map(),
            width == key_width(key_map()),
            listed == all_sections(key_map()),
            current@.len() <= height,
            (column_views(columns@), screen::line_views(current@)) == packed(
                listed.take(i as int),
                height as nat,
            ),
        decreases sections.len() - i,
    {
        proof {
            assert(listed.take(i as int + 1).drop_last() =~= listed.take(i as int));
            assert(sections@[i as int]@ == key_map()[i as int]);
            assert(listed.take(i as int + 1).last() == lines_of_section(
                sections@[i as int]@,
                width as nat,
            ));
        }
        let lines = section_lines(&sections[i], width);
        proof {
            assert(screen::line_views(lines@).len() == lines@.len());
        }
        add_section(&mut columns, &mut current, lines, height);
        i = i + 1;
    }
    proof {
        assert(listed.take(i as int) =~= listed);
        assert(sections@.len() == section_views(sections@).len());
        assert(screen::line_views(current@).len() == current@.len());
    }
    if current.len() > 0 {
        add_column(&mut columns, current);
    }
    columns
}

} // verus!
