//! Where the keys that move around lead.
use crate::error::FaultView;
use crate::io::dir::{self, EntryView, RawListingView};
use crate::io::fs_ops::Presence;
use crate::io::{nvim, OutputView};
use crate::logging::store::LogLevel;
use crate::navigator::model::{
    self, ActionView, ModeView, NavView, NextView, PendingView, PromptView, ReplyView, RequestView,
};
use crate::navigator::staging_laws;
use crate::navigator::{KeyCode, KeyEvent, Outcome};
use crate::notice::NoticeView;
use crate::path;
use crate::path_laws;
use crate::plan::{self, OpView};
use crate::plan_laws;
use crate::text;
use crate::text_laws;
use vstd::prelude::*;

verus! {

broadcast use {vstd::seq::group_seq_axioms, vstd::seq_lib::group_seq_properties};

/// How many rows down a key moves the cursor: one, or eight at a jump; upwards is less
/// than none.
pub open spec fn rows_down(key: KeyEvent) -> int {
    match key.code {
        KeyCode::Down => 1,
        KeyCode::Up => -1,
        KeyCode::Char(c) => if c == 'd' && key.modifiers.control {
            8
        } else if c == 'u' && key.modifiers.control {
            -8
        } else if key.modifiers.control || key.modifiers.alt || key.modifiers.super_key
            || key.modifiers.hyper || key.modifiers.meta {
            0
        } else if c == 'j' {
            1
        } else if c == 'k' {
            -1
        } else {
            0
        },
        _ => 0,
    }
}

/// The number nearest to `wanted` from 0 to `last`.
pub open spec fn within(wanted: int, last: int) -> int {
    if wanted > last {
        last
    } else if wanted < 0 {
        0
    } else {
        wanted
    }
}

/// A key that moves the cursor moves it by as many rows as it says, as far as there are
/// entries, and changes nothing else that lasts.
pub proof fn law_moving_moves_by_rows(s: NavView, key: KeyEvent, log_len: Option<int>)
    requires
        s.mode is Normal,
        s.wf(),
        rows_down(key) != 0,
        !s.log_panel_visible,
        s.entries.len() > 0,
    ensures
        model::pressed(s, key, log_len).0 == (NavView {
            selected: within(s.selected + rows_down(key), s.entries.len() - 1),
            cached_image: None,
            ..s
        }),
        model::pressed(s, key, log_len).1.next == NextView::Done(Outcome::Stay),
{
}

/// While the log is shown the same keys scroll it instead: up is towards older entries, as
/// far as there are any, and the cursor stays.
pub proof fn law_moving_scrolls_the_log(s: NavView, key: KeyEvent, log_len: int)
    requires
        s.mode is Normal,
        rows_down(key) != 0,
        s.log_panel_visible,
        0 < log_len,
        0 <= s.log_scroll_offset < log_len,
    ensures
        model::pressed(s, key, Some(log_len)).0 == (NavView {
            log_scroll_offset: within(s.log_scroll_offset - rows_down(key), log_len - 1),
            ..s
        }),
{
}

/// `L` shows or hides the log, at its newest entry, and `?` shows the keys. Neither changes
/// anything else.
pub proof fn law_the_log_and_the_keys_are_only_shown(
    s: NavView,
    key: KeyEvent,
    log_len: Option<int>,
    c: char,
)
    requires
        staging_laws::letter(s, key, c),
        c == 'L' || c == '?',
    ensures
        c == 'L' ==> model::pressed(s, key, log_len).0 == (NavView {
            log_panel_visible: !s.log_panel_visible,
            log_scroll_offset: 0,
            ..s
        }),
        c == '?' ==> model::pressed(s, key, log_len).0 == (NavView { mode: ModeView::Help, ..s }),
{
}

/// Whether the navigator waits for the listing of `path` to go there.
pub open spec fn heads_for(s: NavView, after: NavView, next: NextView, path: Seq<u8>) -> bool {
    &&& after == (NavView { pending: after.pending, ..s })
    &&& after.pending matches PendingView::Going { path: there, jumping } && there == path
        && !jumping
    &&& next == NextView::Ask(RequestView::ListDir(path))
}

/// A key that enters the entry under the cursor.
pub open spec fn enters(s: NavView, key: KeyEvent) -> bool {
    s.mode is Normal && (key.code == KeyCode::Enter || staging_laws::letter(s, key, 'l'))
}

/// A key that goes up a level.
pub open spec fn goes_up(s: NavView, key: KeyEvent) -> bool {
    staging_laws::letter(s, key, 'h') || staging_laws::letter(s, key, '-')
}

/// Entering a directory heads for that directory: its name below the one being viewed.
pub proof fn law_entering_a_directory_heads_for_it(
    s: NavView,
    key: KeyEvent,
    log_len: Option<int>,
)
    requires
        enters(s, key),
        staging_laws::on_an_entry(s),
        plan_laws::plain_name(s.entries[s.selected].name),
        s.entries[s.selected].is_dir,
    ensures
        exists|path: Seq<u8>|
            #![trigger staging_laws::under_the_cursor(s, path)]
            staging_laws::under_the_cursor(s, path) && heads_for(
                s,
                model::pressed(s, key, log_len).0,
                model::pressed(s, key, log_len).1.next,
                path,
            ),
{
    staging_laws::lemma_cursor_path(s);
    assert(staging_laws::under_the_cursor(s, model::cursor_path(s)->0));
    reveal_strlit(".");
    reveal_strlit("..");
    assert("."@ =~= seq!['.']);
    assert(".."@ =~= seq!['.', '.']);
}

/// Entering a file asks which neovim to open it in, and then has that one open it.
pub proof fn law_entering_a_file_opens_it(
    s: NavView,
    key: KeyEvent,
    log_len: Option<int>,
    socket: Option<Seq<char>>,
)
    requires
        enters(s, key),
        staging_laws::on_an_entry(s),
        plan_laws::plain_name(s.entries[s.selected].name),
        !s.entries[s.selected].is_dir,
    ensures
        model::pressed(s, key, log_len).1.next == NextView::Ask(RequestView::Socket),
        model::pressed(s, key, log_len).0.pending matches PendingView::Opening { path }
            && staging_laws::under_the_cursor(s, path),
        ({
            let waiting = model::pressed(s, key, log_len).0;
            let (after, step) = model::resumed(waiting, ReplyView::Socket(socket));
            match socket {
                Some(socket) => after.pending is Editing && (
                step.next matches NextView::Ask(RequestView::RunEditor(arguments))
                    && arguments.len() == 4 && arguments[0] == "--server"@ && arguments[1]
                    == socket && arguments[2] == "--remote-expr"@ && arguments[3]
                    == nvim::edit_script(waiting.pending->Opening_path)),
                None => after == (NavView { pending: PendingView::Idle, ..s }) && step.next
                    == NextView::Done(Outcome::Stay),
            }
        }),
{
    staging_laws::lemma_cursor_path(s);
    assert(staging_laws::under_the_cursor(s, model::cursor_path(s)->0));
}

/// `.` leads nowhere, and `..` leads where `h` leads.
pub proof fn law_the_shortcuts_lead_here_and_up(
    s: NavView,
    key: KeyEvent,
    up: KeyEvent,
    log_len: Option<int>,
)
    requires
        enters(s, key),
        goes_up(s, up),
        0 <= s.selected < s.entries.len(),
        s.entries[s.selected].is_dir,
    ensures
        s.entries[s.selected].name == seq!['.'] ==> model::pressed(s, key, log_len).0 == s
            && model::pressed(s, key, log_len).1.next == NextView::Done(Outcome::Stay),
        s.entries[s.selected].name == seq!['.', '.'] ==> model::pressed(s, key, log_len)
            == model::pressed(s, up, log_len),
{
    reveal_strlit(".");
    reveal_strlit("..");
    assert("."@ =~= seq!['.']);
    assert(".."@ =~= seq!['.', '.']);
}

/// Going up heads for the directory that has all components but the last, and stays where
/// there is none.
pub proof fn law_going_up_drops_one_component(s: NavView, key: KeyEvent, log_len: Option<int>)
    requires
        goes_up(s, key),
    ensures
        ({
            let (after, step) = model::pressed(s, key, log_len);
            if plan_laws::lies_somewhere(s.current_dir) {
                exists|path: Seq<u8>|
                    #![trigger path::components(path)]
                    path::components(path) == path::components(s.current_dir).drop_last()
                        && heads_for(s, after, step.next, path)
            } else {
                after == s && step.next == NextView::Done(Outcome::Stay)
            }
        }),
{
    path_laws::law_parent_drops_the_last_component(s.current_dir);
    assert(path::root_component() =~= seq![47u8]);
    if plan_laws::lies_somewhere(s.current_dir) {
        let above = path::parent(s.current_dir)->0;
        assert(path::components(above) == path::components(s.current_dir).drop_last());
        assert(heads_for(
            s,
            model::pressed(s, key, log_len).0,
            model::pressed(s, key, log_len).1.next,
            above,
        ));
    }
}

/// Once the listing has come, the navigator is in that directory with that listing, `.`
/// and `..` in front, and the marks and the plan as they were. A directory that was never
/// seen and that it does not come out of is entered at its first row.
pub proof fn law_arriving_shows_the_listing(
    s: NavView,
    path: Seq<u8>,
    jumping: bool,
    answer: RawListingView,
)
    requires
        s.pending == (PendingView::Going { path, jumping }),
    ensures
        answer is Ok ==> ({
            let after = model::resumed(s, ReplyView::Listed(answer)).0;
            &&& after.current_dir == path
            &&& after.pending is Idle
            &&& after.marks == s.marks && after.plan == s.plan
            &&& after.search == s.search && after.mode == s.mode
            &&& after.scroll_offset == 0 && after.cached_image is None
            &&& after.entries.len() >= 2
            &&& after.entries[0].name == seq!['.'] && after.entries[0].is_dir
            &&& after.entries[1].name == seq!['.', '.'] && after.entries[1].is_dir
            &&& dir::listing(path, answer) matches Ok(listed) && after.entries.skip(2) == listed
            &&& !s.memory.dom().contains(path::components(path)) && path::components(path)
                != path::components(s.current_dir) && !plan_laws::begins(
                path::components(s.current_dir),
                path::components(path),
            ) ==> after.selected == 0
        }),
        answer is Err ==> model::resumed(s, ReplyView::Listed(answer)).0 == (NavView {
            pending: PendingView::Idle,
            ..s
        }),
{
    reveal_strlit(".");
    reveal_strlit("..");
    assert("."@ =~= seq!['.']);
    assert(".."@ =~= seq!['.', '.']);
    if let Ok(listed) = dir::listing(path, answer) {
        let entries = dir::dots() + listed;
        assert(entries.skip(2) =~= listed);
        let a = path::components(path);
        let b = path::components(s.current_dir);
        if a.is_prefix_of(b) {
            assert(b.take(a.len() as int) =~= a);
        }
    }
}

/// `p` opens the review of a plan that has anything in it, on a row of it, and `p` and esc
/// lead back. Nothing is staged or dropped by that.
pub proof fn law_the_review_opens_and_closes(s: NavView, key: KeyEvent, log_len: Option<int>)
    ensures
        staging_laws::letter(s, key, 'p') && s.plan.len() > 0 ==> ({
            let after = model::pressed(s, key, log_len).0;
            &&& after == (NavView {
                mode: ModeView::Review,
                review_selected: after.review_selected,
                ..s
            })
            &&& s.review_selected < s.plan.len() ==> after.review_selected == s.review_selected
            &&& s.review_selected >= s.plan.len() ==> after.review_selected == s.plan.len() - 1
        }),
        staging_laws::letter(s, key, 'p') && s.plan.len() == 0 ==> model::pressed(
            s,
            key,
            log_len,
        ).0 == s,
        s.mode is Review && (key.code == KeyCode::Esc || key.code == KeyCode::Char('p'))
            ==> model::pressed(s, key, log_len).0 == (NavView { mode: ModeView::Normal, ..s }),
{
}

/// In the review the cursor moves by one operation, as far as there are any, and nothing
/// else changes.
pub proof fn law_moving_in_the_review(s: NavView, key: KeyEvent, log_len: Option<int>)
    requires
        s.mode is Review,
        s.plan.len() > 0,
        0 <= s.review_selected < s.plan.len(),
    ensures
        key.code == KeyCode::Char('j') || key.code == KeyCode::Down ==> model::pressed(
            s,
            key,
            log_len,
        ).0 == (NavView {
            review_selected: within(s.review_selected + 1, s.plan.len() - 1),
            ..s
        }),
        key.code == KeyCode::Char('k') || key.code == KeyCode::Up ==> model::pressed(
            s,
            key,
            log_len,
        ).0 == (NavView {
            review_selected: within(s.review_selected - 1, s.plan.len() - 1),
            ..s
        }),
{
}

/// `x` drops the selected operation and no other: those before it stay where they are, those
/// after it move up by one, and the cursor stays on a row.
pub proof fn law_dropping_takes_the_selected_one(
    s: NavView,
    key: KeyEvent,
    log_len: Option<int>,
)
    requires
        s.mode is Review,
        key.code == KeyCode::Char('x'),
        0 <= s.review_selected < s.plan.len(),
    ensures
        ({
            let after = model::pressed(s, key, log_len).0;
            &&& after == (NavView {
                plan: after.plan,
                review_selected: after.review_selected,
                ..s
            })
            &&& after.plan.len() == s.plan.len() - 1
            &&& forall|i: int|
                0 <= i < after.plan.len() ==> #[trigger] after.plan[i] == s.plan[if i
                    < s.review_selected {
                    i
                } else {
                    i + 1
                }]
            &&& after.review_selected == if s.review_selected < after.plan.len() {
                s.review_selected
            } else if after.plan.len() > 0 {
                after.plan.len() - 1
            } else {
                0
            }
        }),
{
}

/// Where an operation that is no trashing writes.
pub open spec fn written_at(op: OpView) -> Seq<u8> {
    match op {
        OpView::CreateFile(path) => path,
        OpView::CreateDir(path) => path,
        OpView::Trash(path) => path,
        OpView::Copy { from, to } => to,
        OpView::Move { from, to } => to,
    }
}

/// `r` in the review asks for another name of where the selected operation writes, starting
/// from the name it has, and remembers which operation that is.
pub proof fn law_renaming_in_the_review_is_of_the_selected_one(
    s: NavView,
    key: KeyEvent,
    log_len: Option<int>,
)
    requires
        s.mode is Review,
        key.code == KeyCode::Char('r'),
        0 <= s.review_selected < s.plan.len(),
        !(s.plan[s.review_selected].op is Trash),
    ensures
        ({
            let after = model::pressed(s, key, log_len).0;
            &&& after == (NavView { mode: after.mode, ..s })
            &&& after.mode matches ModeView::Prompt(prompt) && prompt.action
                == ActionView::Retarget(s.review_selected) && prompt.input
                == if staging_laws::has_name(written_at(s.plan[s.review_selected].op)) {
                text::lossy_text(
                    path::components(written_at(s.plan[s.review_selected].op)).last(),
                )
            } else {
                Seq::<char>::empty()
            }
        }),
{
}

/// `y` asks for the contents of the entry under the cursor.
pub proof fn law_copying_reads_the_entry_under_the_cursor(
    s: NavView,
    key: KeyEvent,
    log_len: Option<int>,
)
    requires
        staging_laws::letter(s, key, 'y'),
        0 <= s.selected,
        staging_laws::on_an_entry(s) ==> plan_laws::plain_name(s.entries[s.selected].name),
    ensures
        ({
            let (after, step) = model::pressed(s, key, log_len);
            &&& after == (NavView { pending: after.pending, ..s })
            &&& !staging_laws::on_an_entry(s) ==> after == s && step.next == NextView::Done(
                Outcome::Stay,
            )
            &&& staging_laws::on_an_entry(s) ==> (step.next matches NextView::Ask(
                RequestView::ReadFile(path),
            ) && staging_laws::under_the_cursor(s, path) && after.pending == (
            PendingView::Reading { path }))
        }),
{
    staging_laws::lemma_cursor_path(s);
}

/// What is typed for a jump is looked up in zoxide: the words of it, behind what keeps them
/// from being read as flags. Nothing typed asks for nothing.
pub proof fn law_a_jump_looks_up_what_is_typed(
    s: NavView,
    prompt: PromptView,
    key: KeyEvent,
    log_len: Option<int>,
)
    requires
        s.mode == ModeView::Prompt(prompt),
        prompt.action is Jump,
        key.code == KeyCode::Enter,
    ensures
        text_laws::all_white(prompt.input) ==> model::pressed(s, key, log_len).0 == (NavView {
            mode: ModeView::Normal,
            ..s
        }) && model::pressed(s, key, log_len).1.next == NextView::Done(Outcome::Stay),
        !text_laws::all_white(prompt.input) ==> (model::pressed(
            s,
            key,
            log_len,
        ).1.next matches NextView::Ask(RequestView::FindDir(arguments)) && arguments.len() > 2
            && arguments[0] == "query"@ && arguments[1] == "--"@ && arguments.skip(2)
            == text::words_of(prompt.input)),
        !text_laws::all_white(prompt.input) ==> model::pressed(s, key, log_len).0 == (NavView {
            mode: ModeView::Normal,
            pending: PendingView::Jumping { terms: text::trimmed(prompt.input) },
            ..s
        }),
{
    text_laws::law_words_ignore_the_ends(prompt.input);
    text_laws::law_trimming_takes_only_white_space(prompt.input);
    let input = prompt.input;
    let name = text::trimmed(input);
    if text_laws::all_white(input) {
        text_laws::lemma_all_white(input);
    } else {
        if name.len() == 0 {
            let (from, to) = choose|from: int, to: int|
                0 <= from <= to <= input.len() && name == #[trigger] input.subrange(from, to)
                    && text_laws::all_white(input.take(from)) && text_laws::all_white(
                    input.skip(to),
                );
            assert forall|i: int| 0 <= i < input.len() implies text::white(#[trigger] input[i]) by {
                if i < from {
                    assert(input.take(from)[i] == input[i]);
                } else {
                    assert(input.skip(to)[i - to] == input[i]);
                }
            }
        }
        let words = text::words_of(name);
        assert(words.len() > 0);
        assert((seq!["query"@, "--"@] + words).skip(2) =~= words);
    }
}

/// Whether what was printed begins with this line, ended or not.
pub open spec fn prints_first(printed: Seq<char>, line: Seq<char>) -> bool {
    printed == line || (line.len() < printed.len() && printed.take(line.len() as int) == line
        && printed[line.len() as int] == '\n')
}

proof fn lemma_first_line(printed: Seq<char>, line: Seq<char>, from: int)
    requires
        prints_first(printed, line),
        !line.contains('\n'),
        0 <= from <= line.len(),
    ensures
        text::line_end(printed, from) == line.len(),
    decreases line.len() - from,
{
    if from < line.len() {
        assert(printed[from] == line[from]) by {
            if printed != line {
                assert(printed.take(line.len() as int)[from] == printed[from]);
            }
        }
        assert(line[from] != '\n') by {
            if line[from] == '\n' {
                assert(line.contains('\n'));
            }
        }
        lemma_first_line(printed, line, from + 1);
    }
}

/// A jump heads for the first line that zoxide printed. Where it printed nothing, or could
/// not be run, the navigator stays where it is.
pub proof fn law_a_jump_goes_where_zoxide_says(
    s: NavView,
    terms: Seq<char>,
    ran: Result<OutputView, FaultView>,
    line: Seq<char>,
)
    requires
        s.pending == (PendingView::Jumping { terms }),
    ensures
        ran matches Ok(output) ==> line.len() > 0 && !line.contains('\n') && !text::white(
            line.last(),
        ) && line.last() != '\r' && prints_first(text::lossy_text(output.stdout), line) ==> ({
            let (after, step) = model::resumed(s, ReplyView::DirFound(ran));
            let path = vstd::utf8::encode_utf8(line);
            &&& step.next == NextView::Ask(RequestView::ListDir(path))
            &&& after == (NavView { pending: PendingView::Going { path, jumping: true }, ..s })
        }),
        ran is Err || text::lossy_text(ran->Ok_0.stdout).len() == 0 ==> ({
            let (after, step) = model::resumed(s, ReplyView::DirFound(ran));
            &&& step.next == NextView::Done(Outcome::Stay)
            &&& after == (NavView { pending: PendingView::Idle, ..s })
            &&& step.notices.len() > 0
            &&& step.notices.last() == (NoticeView {
                level: LogLevel::Warn,
                text: if ran is Ok {
                    "Any: zoxide knows nowhere matching "@ + text::quoted_text(terms)
                } else {
                    "IO: running zoxide (is it installed?)"@
                },
            })
        }),
{
    reveal_strlit("Any: ");
    reveal_strlit("IO: ");
    reveal_strlit("zoxide knows nowhere matching ");
    reveal_strlit("Any: zoxide knows nowhere matching ");
    reveal_strlit("running zoxide (is it installed?)");
    reveal_strlit("IO: running zoxide (is it installed?)");
    assert("Any: "@ + "zoxide knows nowhere matching "@
        =~= "Any: zoxide knows nowhere matching "@);
    assert("Any: "@ + ("zoxide knows nowhere matching "@ + text::quoted_text(terms))
        =~= "Any: zoxide knows nowhere matching "@ + text::quoted_text(terms));
    assert("IO: "@ + "running zoxide (is it installed?)"@
        =~= "IO: running zoxide (is it installed?)"@);
    if let Ok(output) = ran {
        let printed = text::lossy_text(output.stdout);
        if line.len() > 0 && !line.contains('\n') && !text::white(line.last()) && line.last()
            != '\r' && prints_first(printed, line) {
            lemma_first_line(printed, line, 0);
            let n = line.len() as int;
            assert(printed.take(n) =~= line);
            assert(printed[n - 1] == printed.take(n)[n - 1]);
            assert(printed.subrange(0, n) =~= line);
            assert(text::lines_of(printed)[0] == line);
            assert(text::trimmed_end(line) == line);
        }
    }
}

/// Esc, while looking around, takes back one thing: the search if there is one, else the
/// marks if there are any, else the plan. Nothing else changes.
pub proof fn law_esc_clears_one_thing(s: NavView, key: KeyEvent, log_len: Option<int>)
    requires
        s.mode is Normal,
        key.code == KeyCode::Esc,
    ensures
        ({
            let after = model::pressed(s, key, log_len).0;
            &&& s.search.len() > 0 ==> after == (NavView { search: Seq::empty(), ..s })
            &&& s.search.len() == 0 && s.marks.len() > 0 ==> after == (NavView {
                marks: Seq::empty(),
                ..s
            })
            &&& s.search.len() == 0 && s.marks.len() == 0 && s.plan.len() > 0 ==> after == (
            NavView { plan: Seq::empty(), ..s })
            &&& s.search.len() == 0 && s.marks.len() == 0 && s.plan.len() == 0 ==> after == s
        }),
        model::pressed(s, key, log_len).1.next == NextView::Done(Outcome::Stay),
{
}

/// `q` quits, and `Q` quits and takes the shell along, from the listing and from the review.
pub proof fn law_the_quit_keys_quit(s: NavView, key: KeyEvent, log_len: Option<int>)
    ensures
        staging_laws::letter(s, key, 'q') || (s.mode is Review && key.code == KeyCode::Char('q'))
            ==> model::pressed(s, key, log_len).1.next == NextView::Done(Outcome::Quit),
        staging_laws::letter(s, key, 'Q') || (s.mode is Review && key.code == KeyCode::Char('Q'))
            ==> model::pressed(s, key, log_len).1.next == NextView::Done(Outcome::QuitHere),
{
}

/// Leaving a search by esc puts the cursor back on the row where the search began, and
/// forgets the search.
pub proof fn law_an_abandoned_search_goes_back(
    s: NavView,
    prompt: PromptView,
    origin: int,
    key: KeyEvent,
    log_len: Option<int>,
)
    requires
        s.mode == ModeView::Prompt(prompt),
        prompt.action == (ActionView::Search { origin }),
        key.code == KeyCode::Esc,
    ensures
        model::pressed(s, key, log_len).0 == (NavView {
            mode: ModeView::Normal,
            selected: origin,
            search: Seq::empty(),
            ..s
        }),
{
}

/// Leaving any other prompt by esc changes nothing but where the keys go.
pub proof fn law_an_abandoned_prompt_changes_nothing(
    s: NavView,
    prompt: PromptView,
    key: KeyEvent,
    log_len: Option<int>,
)
    requires
        s.mode == ModeView::Prompt(prompt),
        !(prompt.action is Search),
        key.code == KeyCode::Esc,
    ensures
        model::pressed(s, key, log_len).0 == (NavView {
            mode: if prompt.action is Retarget {
                ModeView::Review
            } else {
                ModeView::Normal
            },
            ..s
        }),
{
}

/// Whether a listing has an entry of this name.
pub open spec fn lists(entries: Seq<EntryView>, name: Seq<char>) -> bool {
    exists|i: int| 0 <= i < entries.len() && (#[trigger] entries[i]).name == name
}

/// Whether the cursor is on an entry of this name.
pub open spec fn cursor_on(s: NavView, name: Seq<char>) -> bool {
    0 <= s.selected < s.entries.len() && s.entries[s.selected].name == name
}

proof fn lemma_row_named(entries: Seq<EntryView>, name: Seq<char>, from: int)
    requires
        0 <= from,
        exists|i: int| from <= i < entries.len() && (#[trigger] entries[i]).name == name,
    ensures
        model::row_named(entries, name, from) matches Some(row) && from <= row < entries.len()
            && entries[row].name == name,
    decreases entries.len() - from,
{
    if from < entries.len() && entries[from].name != name {
        let i = choose|i: int| from <= i < entries.len() && (#[trigger] entries[i]).name == name;
        assert(from + 1 <= i < entries.len() && entries[i].name == name);
        lemma_row_named(entries, name, from + 1);
    }
}

proof fn lemma_no_row_named(entries: Seq<EntryView>, name: Seq<char>, from: int)
    requires
        0 <= from,
        !lists(entries, name),
    ensures
        model::row_named(entries, name, from) is None,
    decreases entries.len() - from,
{
    if from < entries.len() {
        assert(entries[from].name != name);
        lemma_no_row_named(entries, name, from + 1);
    }
}

/// A directory that is left with the cursor on an entry is come back to with the cursor on
/// that entry, as long as it is listed, whatever row it is on by then.
pub proof fn law_the_cursor_is_where_it_was_left(
    s: NavView,
    away: Seq<u8>,
    there: RawListingView,
    back: Seq<u8>,
    jumping: bool,
    listing: RawListingView,
    name: Seq<char>,
)
    requires
        s.pending == (PendingView::Going { path: away, jumping }),
        there is Ok,
        listing is Ok,
        cursor_on(s, name),
        path::components(away) != path::components(s.current_dir),
        path::components(back) == path::components(s.current_dir),
    ensures
        ({
            let gone = model::resumed(s, ReplyView::Listed(there)).0;
            let returning = NavView {
                pending: PendingView::Going { path: back, jumping },
                ..gone
            };
            let after = model::resumed(returning, ReplyView::Listed(listing)).0;
            lists(after.entries, name) ==> cursor_on(after, name)
        }),
{
    let gone = model::resumed(s, ReplyView::Listed(there)).0;
    let returning = NavView { pending: PendingView::Going { path: back, jumping }, ..gone };
    let after = model::resumed(returning, ReplyView::Listed(listing)).0;
    if lists(after.entries, name) {
        lemma_row_named(after.entries, name, 0);
        let kept = model::remembering(model::idle(returning));
        assert(gone.memory[path::components(s.current_dir)] == name);
        assert(kept.dom().contains(path::components(back)));
        assert(kept[path::components(back)] == name);
    }
}

/// A directory that was never seen but that holds the one being left is entered with the
/// cursor on what leads back.
pub proof fn law_going_up_points_at_where_it_came_from(
    s: NavView,
    above: Seq<u8>,
    jumping: bool,
    listing: RawListingView,
)
    requires
        s.pending == (PendingView::Going { path: above, jumping }),
        listing is Ok,
        path::components(s.current_dir).len() > 0,
        path::components(above) == path::components(s.current_dir).drop_last(),
        !s.memory.dom().contains(path::components(above)),
    ensures
        ({
            let after = model::resumed(s, ReplyView::Listed(listing)).0;
            let name = text::lossy_text(path::components(s.current_dir).last());
            lists(after.entries, name) ==> cursor_on(after, name)
        }),
{
    let after = model::resumed(s, ReplyView::Listed(listing)).0;
    let name = text::lossy_text(path::components(s.current_dir).last());
    let a = path::components(above);
    let b = path::components(s.current_dir);
    assert(a.is_prefix_of(b));
    assert(path::first_below(s.current_dir, above) == Some(b.last()));
    assert(a != b) by {
        assert(a.len() < b.len());
    }
    if lists(after.entries, name) {
        lemma_row_named(after.entries, name, 0);
    }
}

/// Once a plan has run, the directory is listed again with the cursor on the entry it was
/// on, as long as it is still there, and on the first entry when it is not.
pub proof fn law_the_cursor_stays_on_its_entry(
    s: NavView,
    failed: nat,
    answer: RawListingView,
    name: Seq<char>,
)
    requires
        s.pending == (PendingView::Refreshing { failed }),
        answer is Ok,
        cursor_on(s, name),
    ensures
        ({
            let after = model::resumed(s, ReplyView::Listed(answer)).0;
            &&& after.current_dir == s.current_dir
            &&& after.pending is Idle
            &&& dir::listing(s.current_dir, answer) matches Ok(listed) && after.entries.skip(2)
                == listed
            &&& lists(after.entries, name) ==> cursor_on(after, name)
            &&& !lists(after.entries, name) ==> after.selected == 0
        }),
{
    let after = model::resumed(s, ReplyView::Listed(answer)).0;
    if let Ok(listed) = dir::listing(s.current_dir, answer) {
        assert((dir::dots() + listed).skip(2) =~= listed);
    }
    if lists(after.entries, name) {
        lemma_row_named(after.entries, name, 0);
    } else {
        lemma_no_row_named(after.entries, name, 0);
    }
}

/// How many of the first `count` operations of a plan can run.
pub open spec fn able_before(s: NavView, presence: Seq<Presence>, count: int) -> int
    decreases count,
{
    if count <= 0 {
        0
    } else {
        able_before(s, presence, count - 1) + if staging_laws::can_run(
            s.plan[count - 1].op,
            presence[count - 1],
        ) {
            1int
        } else {
            0
        }
    }
}

proof fn lemma_undropped_at(
    s: NavView,
    presence: Seq<Presence>,
    drop: Seq<bool>,
    count: int,
)
    requires
        0 <= count <= s.plan.len(),
        drop.len() == s.plan.len(),
        forall|i: int|
            0 <= i < s.plan.len() ==> #[trigger] drop[i] == !staging_laws::can_run(
                s.plan[i].op,
                presence[i],
            ),
    ensures
        plan::undropped(s.plan.take(count), drop).len() == able_before(s, presence, count),
        forall|i: int|
            0 <= i < count && staging_laws::can_run(s.plan[i].op, presence[i]) ==> 0
                <= able_before(s, presence, i) < able_before(s, presence, count)
                && plan::undropped(s.plan.take(count), drop)[#[trigger] able_before(
                s,
                presence,
                i,
            )] == s.plan[i],
    decreases count,
{
    if count > 0 {
        lemma_undropped_at(s, presence, drop, count - 1);
        assert(s.plan.take(count).drop_last() =~= s.plan.take(count - 1));
        assert(s.plan.take(count).last() == s.plan[count - 1]);
        assert(drop[count - 1] == !staging_laws::can_run(
            s.plan[count - 1].op,
            presence[count - 1],
        ));
    }
}

/// What `X` leaves stands in the order it stood in: each operation that can run comes after
/// as many as can run before it, and no others are left.
pub proof fn law_what_is_left_keeps_its_order(s: NavView, presence: Seq<Presence>, row: int)
    requires
        s.pending is Dropping,
        presence.len() == s.plan.len(),
        0 <= row < s.plan.len(),
    ensures
        ({
            let after = model::resumed(s, ReplyView::Probed(presence)).0;
            &&& after.plan.len() == able_before(s, presence, s.plan.len() as int)
            &&& staging_laws::can_run(s.plan[row].op, presence[row]) ==> 0 <= able_before(
                s,
                presence,
                row,
            ) < after.plan.len() && after.plan[able_before(s, presence, row)] == s.plan[row]
            &&& after.marks == s.marks && after.mode == s.mode && after.pending is Idle
        }),
{
    let drop = model::blocked(s.plan, presence);
    assert forall|i: int| 0 <= i < s.plan.len() implies #[trigger] drop[i]
        == !staging_laws::can_run(s.plan[i].op, presence[i]) by {
        staging_laws::law_blocked_is_what_cannot_run(s.plan[i].op, presence[i]);
    }
    lemma_undropped_at(s, presence, drop, s.plan.len() as int);
    assert(s.plan.take(s.plan.len() as int) =~= s.plan);
}

/// A letter with control, alt or another such key held is no letter: it is not typed, and
/// while looking around only `d` and `u` do anything with control.
pub proof fn law_a_held_letter_is_no_letter(
    s: NavView,
    key: KeyEvent,
    log_len: Option<int>,
    c: char,
)
    requires
        s.mode is Normal || s.mode is Prompt,
        key.code == KeyCode::Char(c),
        key.modifiers.control || key.modifiers.alt || key.modifiers.super_key
            || key.modifiers.hyper || key.modifiers.meta,
    ensures
        s.mode is Prompt || !key.modifiers.control || (c != 'd' && c != 'u') ==> model::pressed(
            s,
            key,
            log_len,
        ).0 == s && model::pressed(s, key, log_len).1.next == NextView::Done(Outcome::Stay),
{
}

} // verus!
