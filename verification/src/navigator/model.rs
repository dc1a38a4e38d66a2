//! What every key and every answer does to the navigator, as functions from one
//! state to the next.
use crate::error::{self, ErrxView, FaultView};
use crate::globals::SCROLL_JUMP;
use crate::io::clipboard;
use crate::io::dir::{self, EntryView, RawListingView};
use crate::io::fs_ops::{self, Presence};
use crate::io::nvim;
use crate::io::zoxide;
use crate::io::OutputView;
use crate::marks;
use crate::navigator::search;
use crate::navigator::{KeyCode, KeyEvent, Outcome};
use crate::notice::{self, NoticeView};
use crate::path;
use crate::plan::{self, OpView, Problem, StagedView};
use crate::text;
use vstd::prelude::*;

verus! {

/// The navigator over its paths, names and texts.
#[verifier::ext_equal]
pub struct NavView {
    pub current_dir: Seq<u8>,
    pub entries: Seq<EntryView>,
    pub selected: int,
    pub scroll_offset: int,
    pub cached_image: Option<Seq<u8>>,
    pub log_panel_visible: bool,
    pub log_scroll_offset: int,
    pub memory: Map<Seq<Seq<u8>>, Seq<char>>,
    pub marks: Seq<Seq<u8>>,
    pub plan: Seq<StagedView>,
    pub mode: ModeView,
    pub review_selected: int,
    pub search: Seq<char>,
    pub pending: PendingView,
}

pub enum ModeView {
    Normal,
    Review,
    Prompt(PromptView),
    Help,
}

pub struct PromptView {
    pub label: Seq<char>,
    pub input: Seq<char>,
    pub action: ActionView,
}

pub enum ActionView {
    CreateFile,
    CreateDir,
    Rename(Seq<u8>),
    Retarget(int),
    Jump,
    Search { origin: int },
}

/// What the navigator waits for.
pub enum PendingView {
    Idle,
    /// The listing of a directory to go to.
    Going { path: Seq<u8>, jumping: bool },
    /// The socket of the neovim to open a file in.
    Opening { path: Seq<u8> },
    /// What neovim said.
    Editing,
    /// What zoxide said.
    Jumping { terms: Seq<char> },
    /// What is on the disk, to drop what is blocked.
    Dropping,
    /// What is on the disk, to run the plan.
    Checking,
    /// How the operation at `done` went.
    Running { done: int, failures: Seq<(OpView, Seq<char>)> },
    /// The listing of the current directory, once the plan has run.
    Refreshing { failed: nat },
    /// The listing of a directory above one that is gone.
    Retreating { gone: Seq<u8>, at: Seq<u8>, failed: nat },
    /// The contents of a file for the clipboard.
    Reading { path: Seq<u8> },
    /// Whether the terminal took them.
    Sending { bytes: nat },
}

/// What the navigator asks for.
pub enum RequestView {
    ListDir(Seq<u8>),
    Socket,
    RunEditor(Seq<Seq<char>>),
    FindDir(Seq<Seq<char>>),
    Probe(Seq<OpView>),
    Apply(OpView),
    ReadFile(Seq<u8>),
    Send(Seq<char>),
}

/// What came back.
pub enum ReplyView {
    Listed(RawListingView),
    Socket(Option<Seq<char>>),
    EditorRan(Result<OutputView, FaultView>),
    DirFound(Result<OutputView, FaultView>),
    Probed(Seq<Presence>),
    Applied(Result<(), ErrxView>),
    FileRead { contents: Result<Seq<u8>, FaultView>, inside_tmux: bool },
    Sent(Result<(), FaultView>),
}

/// What a key or an answer leads to.
pub enum NextView {
    Done(Outcome),
    Ask(RequestView),
}

/// What is said, and what comes next.
#[verifier::ext_equal]
pub struct StepView {
    pub notices: Seq<NoticeView>,
    pub next: NextView,
}

/// Whether the mode is a search being typed.
pub open spec fn searching(mode: ModeView) -> bool {
    match mode {
        ModeView::Prompt(prompt) => prompt.action is Search,
        _ => false,
    }
}

/// Whether `row` is one of `count` rows, or the first where there are none.
pub open spec fn is_row(row: int, count: nat) -> bool {
    row == 0 || 0 < row < count
}

impl NavView {
    /// The cursor is on a row, the marks are in order, a search knows a row to go
    /// back to, and what is waited for fits what is there.
    pub open spec fn wf(self) -> bool {
        &&& is_row(self.selected, self.entries.len())
        &&& marks::in_order(self.marks)
        &&& self.mode matches ModeView::Prompt(prompt) ==> (prompt.action matches ActionView::Search {
            origin,
        } ==> is_row(origin, self.entries.len()))
        &&& !(self.pending is Idle) ==> !searching(self.mode)
        &&& self.pending matches PendingView::Running { done, failures } ==> 0 <= done
            < self.plan.len()
    }
}

/// Whether `reply` answers what the navigator waits for.
pub open spec fn answered_by(s: NavView, reply: ReplyView) -> bool {
    match (s.pending, reply) {
        (PendingView::Going { path, jumping }, ReplyView::Listed(_)) => true,
        (PendingView::Opening { path }, ReplyView::Socket(_)) => true,
        (PendingView::Editing, ReplyView::EditorRan(_)) => true,
        (PendingView::Jumping { terms }, ReplyView::DirFound(_)) => true,
        (PendingView::Dropping, ReplyView::Probed(presence)) => presence.len() == s.plan.len(),
        (PendingView::Checking, ReplyView::Probed(presence)) => presence.len() == s.plan.len(),
        (PendingView::Running { done, failures }, ReplyView::Applied(_)) => true,
        (PendingView::Refreshing { failed }, ReplyView::Listed(_)) => true,
        (PendingView::Retreating { gone, at, failed }, ReplyView::Listed(_)) => true,
        (
            PendingView::Reading { path },
            ReplyView::FileRead { contents, inside_tmux },
        ) => true,
        (PendingView::Sending { bytes }, ReplyView::Sent(_)) => true,
        _ => false,
    }
}

/// The session goes on, with nothing asked.
pub open spec fn stays(notices: Seq<NoticeView>) -> StepView {
    StepView { notices, next: NextView::Done(Outcome::Stay) }
}

/// Something is asked, and the answer waited for.
pub open spec fn asks(
    s: NavView,
    notices: Seq<NoticeView>,
    request: RequestView,
    pending: PendingView,
) -> (NavView, StepView) {
    (NavView { pending, ..s }, StepView { notices, next: NextView::Ask(request) })
}

/// The row of the entry named `name`.
pub open spec fn row_named(entries: Seq<EntryView>, name: Seq<char>, from: int) -> Option<int>
    decreases entries.len() - from,
{
    if from < 0 || from >= entries.len() {
        None
    } else if entries[from].name == name {
        Some(from)
    } else {
        row_named(entries, name, from + 1)
    }
}

/// The row of the entry named `name`, if there is a name and an entry for it.
pub open spec fn row_of(entries: Seq<EntryView>, name: Option<Seq<char>>) -> Option<int> {
    match name {
        Some(name) => row_named(entries, name, 0),
        None => None,
    }
}

/// The entry under the cursor, unless it is one of the `.` / `..` shortcuts.
pub open spec fn cursor_path(s: NavView) -> Option<Seq<u8>> {
    if s.selected < s.entries.len() {
        let name = s.entries[s.selected].name;
        if name == "."@ || name == ".."@ {
            None
        } else {
            Some(path::join(s.current_dir, vstd::utf8::encode_utf8(name)))
        }
    } else {
        None
    }
}

/// What a staging key acts on: everything marked, or the entry under the cursor
/// when nothing is.
pub open spec fn targets(s: NavView) -> Seq<Seq<u8>> {
    if s.marks.len() == 0 {
        match cursor_path(s) {
            Some(path) => seq![path],
            None => Seq::empty(),
        }
    } else {
        s.marks
    }
}

/// One operation per path that has a name, landing in `dir`.
pub open spec fn ops_into(paths: Seq<Seq<u8>>, dir: Seq<u8>, copying: bool) -> Seq<OpView>
    decreases paths.len(),
{
    if paths.len() == 0 {
        Seq::empty()
    } else {
        let before = ops_into(paths.drop_last(), dir, copying);
        let from = paths.last();
        match path::file_name(from) {
            Some(name) => {
                let to = path::join(dir, name);
                before.push(
                    if copying {
                        OpView::Copy { from, to }
                    } else {
                        OpView::Move { from, to }
                    },
                )
            },
            None => before,
        }
    }
}

/// One operation per path, for the trash.
pub open spec fn trash_ops(paths: Seq<Seq<u8>>) -> Seq<OpView> {
    Seq::new(paths.len(), |i: int| OpView::Trash(paths[i]))
}

/// The plan once all of `ops` have been staged, in order.
pub open spec fn staged_all(staged: Seq<StagedView>, ops: Seq<OpView>) -> Seq<StagedView>
    decreases ops.len(),
{
    if ops.len() == 0 {
        staged
    } else {
        plan::with_staged(staged_all(staged, ops.drop_last()), ops.last())
    }
}

/// How many of `ops` were not staged already.
pub open spec fn newly_staged(staged: Seq<StagedView>, ops: Seq<OpView>) -> nat
    decreases ops.len(),
{
    if ops.len() == 0 {
        0
    } else {
        newly_staged(staged, ops.drop_last()) + if plan::stages(
            staged_all(staged, ops.drop_last()),
            ops.last(),
        ) {
            0nat
        } else {
            1nat
        }
    }
}

/// The cursor kept on the plan.
pub open spec fn clamped(row: int, count: nat) -> int {
    if count == 0 {
        0
    } else if row < count {
        row
    } else {
        count - 1
    }
}

/// The operations of a plan.
pub open spec fn plan_ops(staged: Seq<StagedView>) -> Seq<OpView> {
    Seq::new(staged.len(), |i: int| staged[i].op)
}

/// Which operations of a plan are blocked.
pub open spec fn blocked(staged: Seq<StagedView>, presence: Seq<Presence>) -> Seq<bool> {
    Seq::new(staged.len(), |i: int| fs_ops::blocked_by(staged[i].op, presence[i]) is Some)
}

/// Whether any operation of a plan is blocked.
pub open spec fn any_blocked(staged: Seq<StagedView>, presence: Seq<Presence>) -> bool {
    exists|i: int|
        0 <= i < staged.len() && fs_ops::blocked_by((#[trigger] staged[i]).op, presence[i]) is Some
}

// ---------------------------------------------------------------------------
// Moving around
// ---------------------------------------------------------------------------

/// `n` rows up, or `n` older entries of the log when that is what is shown.
pub open spec fn moved_up(s: NavView, n: int, log_len: Option<int>) -> NavView {
    if s.log_panel_visible {
        match log_len {
            Some(total) => {
                let last = if total > 0 {
                    total - 1
                } else {
                    0
                };
                NavView {
                    log_scroll_offset: if s.log_scroll_offset + n < last {
                        s.log_scroll_offset + n
                    } else {
                        last
                    },
                    ..s
                }
            },
            None => s,
        }
    } else {
        NavView {
            selected: if s.selected > n {
                s.selected - n
            } else {
                0
            },
            cached_image: None,
            ..s
        }
    }
}

/// `n` rows down, or `n` newer entries of the log when that is what is shown.
pub open spec fn moved_down(s: NavView, n: int) -> NavView {
    if s.log_panel_visible {
        NavView {
            log_scroll_offset: if s.log_scroll_offset > n {
                s.log_scroll_offset - n
            } else {
                0
            },
            ..s
        }
    } else if s.entries.len() > 0 {
        NavView {
            selected: if s.selected + n < s.entries.len() {
                s.selected + n
            } else {
                s.entries.len() - 1
            },
            cached_image: None,
            ..s
        }
    } else {
        s
    }
}

/// The log panel shown or hidden, at its newest entry.
pub open spec fn log_panel_toggled(s: NavView) -> NavView {
    NavView { log_panel_visible: !s.log_panel_visible, log_scroll_offset: 0, ..s }
}

/// The cursor on the first row in `order` that matches the search.
pub open spec fn match_selected(s: NavView, order: Seq<int>) -> NavView {
    NavView { selected: search::row_found(s.entries, s.search, order, s.selected), ..s }
}

/// Asks for the listing of `path`, to go there.
pub open spec fn goes_to(s: NavView, notices: Seq<NoticeView>, path: Seq<u8>, jumping: bool) -> (
    NavView,
    StepView,
) {
    asks(s, notices, RequestView::ListDir(path), PendingView::Going { path, jumping })
}

/// Up one level, where there is one.
pub open spec fn goes_up(s: NavView) -> (NavView, StepView) {
    match path::parent(s.current_dir) {
        Some(above) => goes_to(
            s,
            seq![notice::info("Going to parent: "@ + text::lossy_text(above))],
            above,
            false,
        ),
        None => (s, stays(Seq::empty())),
    }
}

/// Into the directory under the cursor, or the file there to neovim.
pub open spec fn enters(s: NavView) -> (NavView, StepView) {
    if s.entries.len() == 0 {
        (s, stays(Seq::empty()))
    } else {
        let entry = s.entries[s.selected];
        let path = path::join(s.current_dir, vstd::utf8::encode_utf8(entry.name));
        if !entry.is_dir {
            asks(s, Seq::empty(), RequestView::Socket, PendingView::Opening { path })
        } else if entry.name == "."@ {
            (
                s,
                stays(
                    seq![
                        notice::info(
                            "Staying in the same directory: "@ + text::lossy_text(s.current_dir),
                        ),
                    ],
                ),
            )
        } else if entry.name == ".."@ {
            goes_up(s)
        } else {
            goes_to(
                s,
                seq![notice::info("Entering directory: "@ + text::lossy_text(path))],
                path,
                false,
            )
        }
    }
}

/// Where the cursor was here, remembered.
pub open spec fn remembering(s: NavView) -> Map<Seq<Seq<u8>>, Seq<char>> {
    if s.selected < s.entries.len() {
        s.memory.insert(path::components(s.current_dir), s.entries[s.selected].name)
    } else {
        s.memory
    }
}

/// What is remembered of `dir`.
pub open spec fn recalled(memory: Map<Seq<Seq<u8>>, Seq<char>>, dir: Seq<u8>) -> Option<Seq<char>> {
    if memory.dom().contains(path::components(dir)) {
        Some(memory[path::components(dir)])
    } else {
        None
    }
}

/// The name, below `dir`, of where `from` is.
pub open spec fn came_from(from: Seq<u8>, dir: Seq<u8>) -> Option<Seq<char>> {
    match path::first_below(from, dir) {
        Some(name) => Some(text::lossy_text(name)),
        None => None,
    }
}

/// The row the cursor starts on in `path`: where it was left, else the directory it
/// comes out of, else the first.
pub open spec fn landing_row(s: NavView, path: Seq<u8>, entries: Seq<EntryView>) -> int {
    match row_of(entries, recalled(remembering(s), path)) {
        Some(row) => row,
        None => match row_of(entries, came_from(s.current_dir, path)) {
            Some(row) => row,
            None => 0,
        },
    }
}

/// In `path`, with the cursor saved here and restored there.
pub open spec fn arrives(s: NavView, path: Seq<u8>, entries: Seq<EntryView>) -> NavView {
    NavView {
        current_dir: path,
        entries,
        selected: landing_row(s, path, entries),
        scroll_offset: 0,
        cached_image: None,
        memory: remembering(s),
        ..s
    }
}

/// With a new listing of the current directory, the cursor on the same entry when
/// it is still there.
pub open spec fn refreshed(s: NavView, entries: Seq<EntryView>) -> NavView {
    let under_cursor = if s.selected < s.entries.len() {
        Some(s.entries[s.selected].name)
    } else {
        None
    };
    NavView {
        entries,
        selected: match row_of(entries, under_cursor) {
            Some(row) => row,
            None => 0,
        },
        cached_image: None,
        ..s
    }
}

// ---------------------------------------------------------------------------
// Marking and staging
// ---------------------------------------------------------------------------

/// The entry under the cursor marked or unmarked.
pub open spec fn mark_toggled(s: NavView) -> (NavView, StepView) {
    match cursor_path(s) {
        Some(path) => (
            NavView { marks: marks::toggled(s.marks, path), ..s },
            stays(
                seq![
                    notice::info(
                        (if marks::holds(s.marks, path) {
                            "Unmarked "@
                        } else {
                            "Marked "@
                        }) + text::lossy_text(path),
                    ),
                ],
            ),
        ),
        None => (s, stays(Seq::empty())),
    }
}

/// One intention less: the search first, then the marks, then the staged plan.
pub open spec fn backed_out(s: NavView) -> (NavView, StepView) {
    if s.search.len() > 0 {
        (
            NavView { search: Seq::empty(), ..s },
            stays(seq![notice::info("Cleared the search for "@ + text::quoted_text(s.search))]),
        )
    } else if s.marks.len() > 0 {
        (
            NavView { marks: Seq::empty(), ..s },
            stays(
                seq![notice::info("Cleared "@ + text::decimal_text(s.marks.len()) + " marks"@)],
            ),
        )
    } else if s.plan.len() > 0 {
        (
            NavView { plan: Seq::empty(), ..s },
            stays(
                seq![
                    notice::info(
                        "Discarded "@ + text::decimal_text(s.plan.len()) + " staged operation(s)"@,
                    ),
                ],
            ),
        )
    } else {
        (s, stays(Seq::empty()))
    }
}

/// One operation staged per target, landing in the directory being viewed.
pub open spec fn stages_into_here(s: NavView, copying: bool) -> (NavView, StepView) {
    let ops = ops_into(targets(s), s.current_dir, copying);
    (
        NavView { plan: staged_all(s.plan, ops), ..s },
        stays(
            seq![
                notice::info(
                    "Staged "@ + text::decimal_text(newly_staged(s.plan, ops))
                        + " operation(s) into "@ + text::lossy_text(s.current_dir),
                ),
            ],
        ),
    )
}

/// Every target staged for the trash.
pub open spec fn stages_trash(s: NavView) -> (NavView, StepView) {
    let ops = trash_ops(targets(s));
    (
        NavView { plan: staged_all(s.plan, ops), ..s },
        stays(
            seq![
                notice::info(
                    "Staged "@ + text::decimal_text(newly_staged(s.plan, ops)) + " for the trash"@,
                ),
            ],
        ),
    )
}

/// A prompt opened.
pub open spec fn prompts(
    s: NavView,
    label: Seq<char>,
    input: Seq<char>,
    action: ActionView,
) -> NavView {
    NavView { mode: ModeView::Prompt(PromptView { label, input, action }), ..s }
}

/// The name at the end of `path` as it is shown, or nothing.
pub open spec fn last_name(path: Seq<u8>) -> Seq<char> {
    match path::file_name(path) {
        Some(name) => text::lossy_text(name),
        None => Seq::empty(),
    }
}

/// A prompt for another name of the entry under the cursor.
pub open spec fn begins_rename(s: NavView) -> NavView {
    match cursor_path(s) {
        Some(path) => prompts(s, "rename to"@, last_name(path), ActionView::Rename(path)),
        None => s,
    }
}

/// A prompt for another name of where the selected operation writes to.
pub open spec fn begins_retarget(s: NavView) -> (NavView, StepView) {
    if s.review_selected >= s.plan.len() {
        (s, stays(Seq::empty()))
    } else {
        let op = s.plan[s.review_selected].op;
        if op is Trash {
            (s, stays(seq![notice::warn("a trash has no destination to rename"@)]))
        } else {
            (
                prompts(
                    s,
                    "destination name"@,
                    last_name(op.destination()),
                    ActionView::Retarget(s.review_selected),
                ),
                stays(Seq::empty()),
            )
        }
    }
}

// ---------------------------------------------------------------------------
// Keys
// ---------------------------------------------------------------------------

/// Whether anything beyond shift was held.
pub open spec fn is_held(key: KeyEvent) -> bool {
    key.modifiers.control || key.modifiers.alt || key.modifiers.super_key || key.modifiers.hyper
        || key.modifiers.meta
}

/// The session over.
pub open spec fn quits(notices: Seq<NoticeView>, outcome: Outcome) -> StepView {
    StepView { notices, next: NextView::Done(outcome) }
}

/// A key while looking around.
pub open spec fn normal_key(s: NavView, key: KeyEvent, log_len: Option<int>) -> (
    NavView,
    StepView,
) {
    let nothing = stays(Seq::empty());
    match key.code {
        KeyCode::Char(c) => if c == 'd' && key.modifiers.control {
            (moved_down(s, SCROLL_JUMP as int), nothing)
        } else if c == 'u' && key.modifiers.control {
            (moved_up(s, SCROLL_JUMP as int, log_len), nothing)
        } else if is_held(key) {
            (s, nothing)
        } else if c == 'q' {
            (s, quits(seq![notice::info("Navigator quit"@)], Outcome::Quit))
        } else if c == 'Q' {
            (
                s,
                quits(
                    seq![notice::info("Navigator quit in "@ + text::lossy_text(s.current_dir))],
                    Outcome::QuitHere,
                ),
            )
        } else if c == 'j' {
            (moved_down(s, 1), nothing)
        } else if c == 'k' {
            (moved_up(s, 1, log_len), nothing)
        } else if c == 'l' {
            enters(s)
        } else if c == '-' || c == 'h' {
            goes_up(s)
        } else if c == 'z' {
            (prompts(s, "jump to"@, Seq::empty(), ActionView::Jump), nothing)
        } else if c == '/' {
            (
                prompts(s, "search"@, Seq::empty(), ActionView::Search { origin: s.selected }),
                nothing,
            )
        } else if c == 'n' {
            (
                match_selected(s, search::rows_from(s.entries.len(), s.selected + 1)),
                nothing,
            )
        } else if c == 'N' {
            (
                match_selected(s, search::rows_from(s.entries.len(), s.selected).reverse()),
                nothing,
            )
        } else if c == 'L' {
            (log_panel_toggled(s), nothing)
        } else if c == ' ' {
            mark_toggled(s)
        } else if c == 'c' {
            stages_into_here(s, true)
        } else if c == 'm' {
            stages_into_here(s, false)
        } else if c == 'd' {
            stages_trash(s)
        } else if c == 'a' {
            (prompts(s, "new file"@, Seq::empty(), ActionView::CreateFile), nothing)
        } else if c == 'A' {
            (prompts(s, "new directory"@, Seq::empty(), ActionView::CreateDir), nothing)
        } else if c == 'r' {
            (begins_rename(s), nothing)
        } else if c == 'y' {
            yanks(s)
        } else if c == 'p' {
            opens_review(s)
        } else if c == '?' {
            (NavView { mode: ModeView::Help, ..s }, nothing)
        } else {
            (s, nothing)
        },
        KeyCode::Down => (moved_down(s, 1), nothing),
        KeyCode::Up => (moved_up(s, 1, log_len), nothing),
        KeyCode::Enter => enters(s),
        KeyCode::Esc => backed_out(s),
        _ => (s, nothing),
    }
}

/// The plan looked at, where there is one.
pub open spec fn opens_review(s: NavView) -> (NavView, StepView) {
    if s.plan.len() == 0 {
        (s, stays(seq![notice::info("Nothing staged"@)]))
    } else {
        (
            NavView {
                mode: ModeView::Review,
                review_selected: clamped(s.review_selected, s.plan.len()),
                ..s
            },
            stays(Seq::empty()),
        )
    }
}

/// The contents of the file under the cursor asked for, for the clipboard.
pub open spec fn yanks(s: NavView) -> (NavView, StepView) {
    match cursor_path(s) {
        Some(path) => asks(
            s,
            Seq::empty(),
            RequestView::ReadFile(path),
            PendingView::Reading { path },
        ),
        None => (s, stays(Seq::empty())),
    }
}

/// A plan with its operation at `row` dropped.
pub open spec fn drops_row(s: NavView, row: int) -> NavView {
    let left = plan::without(s.plan, row);
    NavView { plan: left, review_selected: clamped(s.review_selected, left.len()), ..s }
}

/// A key while looking at the plan.
pub open spec fn review_key(s: NavView, key: KeyEvent) -> (NavView, StepView) {
    let nothing = stays(Seq::empty());
    let last = if s.plan.len() > 0 {
        s.plan.len() - 1
    } else {
        0
    };
    let down = NavView {
        review_selected: if s.review_selected + 1 < last {
            s.review_selected + 1
        } else {
            last
        },
        ..s
    };
    let up = NavView {
        review_selected: if s.review_selected > 0 {
            s.review_selected - 1
        } else {
            0
        },
        ..s
    };
    let probe = RequestView::Probe(plan_ops(s.plan));
    match key.code {
        KeyCode::Char(c) => if c == 'q' {
            (s, quits(Seq::empty(), Outcome::Quit))
        } else if c == 'Q' {
            (s, quits(Seq::empty(), Outcome::QuitHere))
        } else if c == 'p' {
            (NavView { mode: ModeView::Normal, ..s }, nothing)
        } else if c == 'j' {
            (down, nothing)
        } else if c == 'k' {
            (up, nothing)
        } else if c == 'x' {
            (drops_row(s, s.review_selected), nothing)
        } else if c == 'X' {
            asks(s, Seq::empty(), probe, PendingView::Dropping)
        } else if c == 'r' {
            begins_retarget(s)
        } else {
            (s, nothing)
        },
        KeyCode::Esc => (NavView { mode: ModeView::Normal, ..s }, nothing),
        KeyCode::Down => (down, nothing),
        KeyCode::Up => (up, nothing),
        KeyCode::Enter => asks(s, Seq::empty(), probe, PendingView::Checking),
        _ => (s, nothing),
    }
}

/// With something else typed at the prompt. Only a search acts on that at once: it
/// starts afresh from where it began.
pub open spec fn typed(s: NavView, prompt: PromptView, input: Seq<char>) -> NavView {
    let now = NavView { mode: ModeView::Prompt(PromptView { input, ..prompt }), ..s };
    match prompt.action {
        ActionView::Search { origin } => match_selected(
            NavView { search: input, selected: origin, ..now },
            search::rows_from(s.entries.len(), origin),
        ),
        _ => now,
    }
}

/// With the prompt left and nothing done.
pub open spec fn abandoned(s: NavView, prompt: PromptView) -> NavView {
    match prompt.action {
        ActionView::Search { origin } => NavView {
            mode: ModeView::Normal,
            selected: origin,
            search: Seq::empty(),
            ..s
        },
        ActionView::Retarget(_) => NavView { mode: ModeView::Review, ..s },
        _ => NavView { mode: ModeView::Normal, ..s },
    }
}

/// With what was typed taken up.
pub open spec fn confirmed(s: NavView, prompt: PromptView) -> (NavView, StepView) {
    let nothing = stays(Seq::empty());
    let done = NavView { mode: ModeView::Normal, ..s };
    let name = text::trimmed(prompt.input);
    let path = path::join(s.current_dir, vstd::utf8::encode_utf8(name));
    if prompt.action is Search {
        (done, nothing)
    } else if prompt.action is Jump {
        if name.len() == 0 {
            (done, nothing)
        } else {
            asks(
                done,
                Seq::empty(),
                RequestView::FindDir(zoxide::query_arguments(name)),
                PendingView::Jumping { terms: name },
            )
        }
    } else if !plan::usable_name(name) {
        (
            s,
            stays(
                seq![
                    notice::warn(
                        text::quoted_text(name) + " is "@ + Problem::InvalidName.words(),
                    ),
                ],
            ),
        )
    } else {
        match prompt.action {
            ActionView::CreateFile => (
                NavView { plan: plan::with_staged(s.plan, OpView::CreateFile(path)), ..done },
                nothing,
            ),
            ActionView::CreateDir => (
                NavView { plan: plan::with_staged(s.plan, OpView::CreateDir(path)), ..done },
                nothing,
            ),
            ActionView::Rename(from) => (
                NavView {
                    plan: plan::with_staged(s.plan, OpView::Move { from, to: path }),
                    ..done
                },
                nothing,
            ),
            ActionView::Retarget(row) => (
                NavView {
                    plan: if 0 <= row < s.plan.len() {
                        s.plan.update(
                            row,
                            StagedView { op: s.plan[row].op.retargeted(name), ..s.plan[row] },
                        )
                    } else {
                        s.plan
                    },
                    mode: ModeView::Review,
                    ..s
                },
                nothing,
            ),
            _ => (done, nothing),
        }
    }
}

/// A key while typing at a prompt.
pub open spec fn prompt_key(s: NavView, prompt: PromptView, key: KeyEvent) -> (NavView, StepView) {
    let nothing = stays(Seq::empty());
    match key.code {
        KeyCode::Char(c) => if is_held(key) {
            (s, nothing)
        } else {
            (typed(s, prompt, prompt.input.push(c)), nothing)
        },
        KeyCode::Backspace => (
            typed(
                s,
                prompt,
                if prompt.input.len() > 0 {
                    prompt.input.drop_last()
                } else {
                    prompt.input
                },
            ),
            nothing,
        ),
        KeyCode::Esc => (abandoned(s, prompt), nothing),
        KeyCode::Enter => confirmed(s, prompt),
        _ => (s, nothing),
    }
}

/// One key pressed.
pub open spec fn pressed(s: NavView, key: KeyEvent, log_len: Option<int>) -> (NavView, StepView) {
    match s.mode {
        ModeView::Prompt(prompt) => prompt_key(s, prompt, key),
        ModeView::Review => review_key(s, key),
        ModeView::Normal => normal_key(s, key, log_len),
        ModeView::Help => (NavView { mode: ModeView::Normal, ..s }, stays(Seq::empty())),
    }
}

// ---------------------------------------------------------------------------
// Answers
// ---------------------------------------------------------------------------

/// With nothing waited for.
pub open spec fn idle(s: NavView) -> NavView {
    NavView { pending: PendingView::Idle, ..s }
}

/// The listing of a directory to go to has come.
pub open spec fn gone_to(s: NavView, path: Seq<u8>, jumping: bool, answer: RawListingView) -> (
    NavView,
    StepView,
) {
    let told = dir::listing_told(path, answer);
    match dir::dotted_listing(path, answer) {
        Ok(entries) => (arrives(idle(s), path, entries), stays(told)),
        Err(errx) => (
            idle(s),
            stays(
                told.push(
                    if jumping {
                        notice::warn(errx.words())
                    } else {
                        notice::error(errx.words())
                    },
                ),
            ),
        ),
    }
}

/// It is known which neovim to open a file in, if any.
pub open spec fn socket_known(s: NavView, path: Seq<u8>, socket: Option<Seq<char>>) -> (
    NavView,
    StepView,
) {
    let told = nvim::open_told(path, socket);
    match socket {
        Some(socket) => asks(
            s,
            told,
            RequestView::RunEditor(nvim::edit_arguments(path, socket)),
            PendingView::Editing,
        ),
        None => (idle(s), stays(told)),
    }
}

/// Neovim has been run. The session is over when it took the file.
pub open spec fn editor_ran(s: NavView, ran: Result<OutputView, FaultView>) -> (NavView, StepView) {
    let told = nvim::opened_told(ran);
    (
        idle(s),
        match nvim::took_the_file(ran) {
            Ok(took) => if took {
                quits(told, Outcome::Quit)
            } else {
                stays(told)
            },
            Err(errx) => stays(told.push(notice::error(errx.words()))),
        },
    )
}

/// Zoxide has been run.
pub open spec fn dir_found(s: NavView, terms: Seq<char>, ran: Result<OutputView, FaultView>) -> (
    NavView,
    StepView,
) {
    let told = zoxide::query_told(ran);
    match zoxide::ranked_highest(terms, ran) {
        Ok(path) => goes_to(
            s,
            told.push(notice::info("Jumping to "@ + text::lossy_text(path))),
            path,
            true,
        ),
        Err(errx) => (idle(s), stays(told.push(notice::warn(errx.words())))),
    }
}

/// It is known which operations are blocked, to drop them.
pub open spec fn drops_blocked(s: NavView, presence: Seq<Presence>) -> NavView {
    let left = plan::undropped(s.plan, blocked(s.plan, presence));
    NavView { plan: left, review_selected: clamped(s.review_selected, left.len()), ..idle(s) }
}

/// It is known which operations are blocked, to run the plan when none is.
pub open spec fn checked(s: NavView, presence: Seq<Presence>) -> (NavView, StepView) {
    if any_blocked(s.plan, presence) {
        (
            idle(s),
            stays(
                seq![
                    notice::warn("Blocked operations in the plan - drop them with x or X"@),
                ],
            ),
        )
    } else {
        runs_from(s, Seq::empty(), 0, Seq::empty())
    }
}

/// Runs the operation at `done`, or takes stock when there are no more.
pub open spec fn runs_from(
    s: NavView,
    notices: Seq<NoticeView>,
    done: int,
    failures: Seq<(OpView, Seq<char>)>,
) -> (NavView, StepView) {
    if done < s.plan.len() {
        asks(
            s,
            notices,
            RequestView::Apply(s.plan[done].op),
            PendingView::Running { done, failures },
        )
    } else {
        asks(
            taken_stock(s, failures),
            notices,
            RequestView::ListDir(s.current_dir),
            PendingView::Refreshing { failed: failures.len() },
        )
    }
}

/// With the plan run: what failed is still staged, and looked at.
pub open spec fn taken_stock(s: NavView, failures: Seq<(OpView, Seq<char>)>) -> NavView {
    NavView {
        plan: plan::failed_plan(failures),
        marks: Seq::empty(),
        mode: if failures.len() == 0 {
            ModeView::Normal
        } else {
            ModeView::Review
        },
        review_selected: clamped(s.review_selected, failures.len()),
        ..s
    }
}

/// One operation has been run.
pub open spec fn applied(
    s: NavView,
    done: int,
    failures: Seq<(OpView, Seq<char>)>,
    result: Result<(), ErrxView>,
) -> (NavView, StepView) {
    match result {
        Ok(()) => runs_from(s, Seq::empty(), done + 1, failures),
        Err(errx) => runs_from(
            s,
            seq![notice::error(errx.words())],
            done + 1,
            failures.push((s.plan[done].op, errx.words())),
        ),
    }
}

/// How running the plan went.
pub open spec fn plan_ran(failed: nat) -> NoticeView {
    if failed == 0 {
        notice::info("Plan applied"@)
    } else {
        notice::error(
            text::decimal_text(failed) + " operation(s) failed and are still staged"@,
        )
    }
}

/// Asks for the directory above `below`, or gives up where there is none.
pub open spec fn retreats(
    s: NavView,
    notices: Seq<NoticeView>,
    gone: Seq<u8>,
    below: Seq<u8>,
    failed: nat,
) -> (NavView, StepView) {
    match path::parent(below) {
        Some(above) => asks(
            s,
            notices,
            RequestView::ListDir(above),
            PendingView::Retreating { gone, at: above, failed },
        ),
        None => (
            idle(s),
            stays(
                notices.push(
                    notice::error(
                        error::plain_error(
                            "nothing above "@ + text::lossy_text(gone) + " can be read"@,
                        ).words(),
                    ),
                ),
            ),
        ),
    }
}

/// The current directory has been read again.
pub open spec fn relisted(s: NavView, failed: nat, answer: RawListingView) -> (NavView, StepView) {
    let told = dir::listing_told(s.current_dir, answer);
    match dir::dotted_listing(s.current_dir, answer) {
        Ok(entries) => (refreshed(idle(s), entries), stays(told.push(plan_ran(failed)))),
        Err(_) => retreats(
            s,
            told.push(notice::warn(text::lossy_text(s.current_dir) + " is gone"@)),
            s.current_dir,
            s.current_dir,
            failed,
        ),
    }
}

/// A directory above the one that is gone has been read.
pub open spec fn retreated(
    s: NavView,
    gone: Seq<u8>,
    at: Seq<u8>,
    failed: nat,
    answer: RawListingView,
) -> (NavView, StepView) {
    let told = dir::listing_told(at, answer);
    match dir::dotted_listing(at, answer) {
        Ok(entries) => (arrives(idle(s), at, entries), stays(told.push(plan_ran(failed)))),
        Err(_) => retreats(s, told, gone, at, failed),
    }
}

/// The contents of a file for the clipboard have come.
pub open spec fn file_read(
    s: NavView,
    path: Seq<u8>,
    contents: Result<Seq<u8>, FaultView>,
    inside_tmux: bool,
) -> (NavView, StepView) {
    match clipboard::payload(path, contents, inside_tmux) {
        Ok(going) => asks(
            s,
            Seq::empty(),
            RequestView::Send(going.sequence),
            PendingView::Sending { bytes: going.bytes },
        ),
        Err(errx) => (idle(s), stays(seq![notice::warn(errx.words())])),
    }
}

/// The terminal has taken them, or not.
pub open spec fn sent(s: NavView, bytes: nat, taken: Result<(), FaultView>) -> (NavView, StepView) {
    (
        idle(s),
        stays(
            seq![
                match clipboard::arrived(bytes, taken) {
                    Ok(count) => notice::info(
                        "Copied "@ + text::decimal_text(count) + " bytes to the clipboard"@,
                    ),
                    Err(errx) => notice::warn(errx.words()),
                },
            ],
        ),
    )
}

/// An answer has come.
pub open spec fn resumed(s: NavView, reply: ReplyView) -> (NavView, StepView) {
    match (s.pending, reply) {
        (PendingView::Going { path, jumping }, ReplyView::Listed(answer)) => gone_to(
            s,
            path,
            jumping,
            answer,
        ),
        (PendingView::Opening { path }, ReplyView::Socket(socket)) => socket_known(
            s,
            path,
            socket,
        ),
        (PendingView::Editing, ReplyView::EditorRan(ran)) => editor_ran(s, ran),
        (PendingView::Jumping { terms }, ReplyView::DirFound(ran)) => dir_found(s, terms, ran),
        (PendingView::Dropping, ReplyView::Probed(presence)) => (
            drops_blocked(s, presence),
            stays(Seq::empty()),
        ),
        (PendingView::Checking, ReplyView::Probed(presence)) => checked(s, presence),
        (PendingView::Running { done, failures }, ReplyView::Applied(result)) => applied(
            s,
            done,
            failures,
            result,
        ),
        (PendingView::Refreshing { failed }, ReplyView::Listed(answer)) => relisted(
            s,
            failed,
            answer,
        ),
        (PendingView::Retreating { gone, at, failed }, ReplyView::Listed(answer)) => retreated(
            s,
            gone,
            at,
            failed,
            answer,
        ),
        (
            PendingView::Reading { path },
            ReplyView::FileRead { contents, inside_tmux },
        ) => file_read(s, path, contents, inside_tmux),
        (PendingView::Sending { bytes }, ReplyView::Sent(taken)) => sent(s, bytes, taken),
        _ => (s, stays(Seq::empty())),
    }
}

} // verus!
