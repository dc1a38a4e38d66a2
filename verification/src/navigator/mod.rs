//! The navigator: what it shows, what every key means, and what it asks for.
//!
//! A key never touches the disk or another program itself. [`Navigator::handle_key`]
//! either settles the key at once or asks for something, and
//! [`Navigator::resume`] takes the answer, which may lead to the next question.
pub mod cursor_laws;
pub mod frame_laws;
pub mod help;
pub mod help_laws;
pub mod key_laws;
pub mod keys;
pub mod laws;
pub mod layout_laws;
pub mod model;
pub mod picture;
pub mod picture_laws;
pub mod render;
pub mod replies;
pub mod row_laws;
pub mod rows;
pub mod search;
pub mod search_laws;
pub mod staging_laws;
pub mod told_laws;

use crate::error::{ErrxView, Fault, Resultx};
use crate::io::clipboard;
use crate::io::dir::{self, read_dir_with_dots, DirEntry, RawListing};
use crate::io::fs_ops::Presence;
use crate::io::nvim;
use crate::io::Output;
use crate::logging::store::LogLevel;
use crate::marks::{self, Marks};
use crate::memory::Memory;
use crate::navigator::model::{
    ActionView, ModeView, NavView, NextView, PendingView, PromptView, ReplyView, RequestView,
    StepView,
};
use crate::navigator::search::find_match;
use crate::notice::{self, say, Notice, NoticeView};
use crate::path::{self, FilePath};
use crate::plan::{self, Op, Plan};
use crate::text::{self, cat, cat3, decimal, lossy, quoted, same_text};
use vstd::prelude::*;
use vstd::string::StringExecFns;

verus! {

broadcast use {vstd::seq::group_seq_axioms, vstd::seq_lib::group_seq_properties};

/// What a keypress leaves the session doing.
///
/// Quitting comes in two kinds because only one of them is allowed to move the
/// shell: `q` leaves it where it was, `Q` takes it along.
#[derive(Debug, Clone, Copy, PartialEq, Eq, Structural)]
pub enum Outcome {
    Stay,
    Quit,
    /// Quit, and hand back the directory the session ended in.
    QuitHere,
}

/// A key.
#[derive(Debug, Clone, Copy, PartialEq, Eq, Structural)]
pub enum KeyCode {
    Char(char),
    Enter,
    Esc,
    Backspace,
    Up,
    Down,
    /// Any key the navigator has no use for.
    Other,
}

/// What was held with a key.
#[derive(Debug, Clone, Copy, PartialEq, Eq, Structural)]
pub struct Modifiers {
    pub shift: bool,
    pub control: bool,
    pub alt: bool,
    pub super_key: bool,
    pub hyper: bool,
    pub meta: bool,
}

/// A key with what was held.
#[derive(Debug, Clone, Copy, PartialEq, Eq, Structural)]
pub struct KeyEvent {
    pub code: KeyCode,
    pub modifiers: Modifiers,
}

/// What the keyboard currently means.
#[derive(Debug)]
pub enum Mode {
    Normal,
    /// Looking at the staged plan, deciding whether to run it.
    Review,
    /// Typing a name.
    Prompt(Prompt),
    /// Reading the key map.
    Help,
}

#[derive(Debug)]
pub struct Prompt {
    pub label: &'static str,
    pub input: String,
    pub action: PromptAction,
}

#[derive(Debug)]
pub enum PromptAction {
    CreateFile,
    CreateDir,
    Rename(FilePath),
    /// Change where staged operation `n` writes to.
    Retarget(usize),
    /// Go wherever zoxide ranks the typed words highest.
    Jump,
    /// Walk the listing as the query is typed, from the row it started on.
    Search { origin: usize },
}

/// What the navigator waits for.
#[derive(Debug)]
pub enum Pending {
    Idle,
    /// The listing of a directory to go to.
    Going { path: FilePath, jumping: bool },
    /// The socket of the neovim to open a file in.
    Opening { path: FilePath },
    /// What neovim said.
    Editing,
    /// What zoxide said.
    Jumping { terms: String },
    /// What is on the disk, to drop what is blocked.
    Dropping,
    /// What is on the disk, to run the plan.
    Checking,
    /// How the operation at `done` went.
    Running { done: usize, failures: Vec<(Op, String)> },
    /// The listing of the current directory, once the plan has run.
    Refreshing { failed: usize },
    /// The listing of a directory above one that is gone.
    Retreating { gone: FilePath, at: FilePath, failed: usize },
    /// The contents of a file for the clipboard.
    Reading { path: FilePath },
    /// Whether the terminal took them.
    Sending { bytes: usize },
}

/// What the navigator asks for.
#[derive(Debug)]
pub enum Request {
    /// The entries of a directory.
    ListDir(FilePath),
    /// The socket of the neovim whose terminal this is.
    Socket,
    /// What running neovim with these arguments gives.
    RunEditor(Vec<String>),
    /// What running zoxide with these arguments gives.
    FindDir(Vec<String>),
    /// What is at the paths of each operation.
    Probe(Vec<Op>),
    /// How carrying an operation out goes.
    Apply(Op),
    /// The contents of a file, and whether tmux stands before the terminal.
    ReadFile(FilePath),
    /// Whether the terminal takes this.
    Send(String),
}

/// What came back.
#[derive(Debug)]
pub enum Reply {
    Listed(RawListing),
    Socket(Option<String>),
    EditorRan(Result<Output, Fault>),
    DirFound(Result<Output, Fault>),
    Probed(Vec<Presence>),
    Applied(Resultx<()>),
    FileRead { contents: Result<Vec<u8>, Fault>, inside_tmux: bool },
    Sent(Result<(), Fault>),
}

/// What a key or an answer leads to.
#[derive(Debug)]
pub enum Next {
    Done(Outcome),
    Ask(Request),
}

/// What is said, and what comes next.
#[derive(Debug)]
pub struct Step {
    pub notices: Vec<Notice>,
    pub next: Next,
}

#[derive(Debug)]
pub struct Navigator {
    pub current_dir: FilePath,
    pub entries: Vec<DirEntry>,
    pub selected: usize,
    pub scroll_offset: usize,
    /// The image that is drawn, so it is not decoded again for every frame.
    pub cached_image: Option<FilePath>,
    pub log_panel_visible: bool,
    pub log_scroll_offset: usize,
    pub memory: Memory,
    pub marks: Marks,
    pub plan: Plan,
    pub mode: Mode,
    pub review_selected: usize,
    /// The last thing searched for, which `n` and `N` repeat.
    pub search: String,
    pub pending: Pending,
}

impl View for PromptAction {
    type V = ActionView;

    open spec fn view(&self) -> ActionView {
        match self {
            PromptAction::CreateFile => ActionView::CreateFile,
            PromptAction::CreateDir => ActionView::CreateDir,
            PromptAction::Rename(path) => ActionView::Rename(path@),
            PromptAction::Retarget(row) => ActionView::Retarget(*row as int),
            PromptAction::Jump => ActionView::Jump,
            PromptAction::Search { origin } => ActionView::Search { origin: *origin as int },
        }
    }
}

impl View for Prompt {
    type V = PromptView;

    open spec fn view(&self) -> PromptView {
        PromptView { label: self.label@, input: self.input@, action: self.action@ }
    }
}

impl View for Mode {
    type V = ModeView;

    open spec fn view(&self) -> ModeView {
        match self {
            Mode::Normal => ModeView::Normal,
            Mode::Review => ModeView::Review,
            Mode::Prompt(prompt) => ModeView::Prompt(prompt@),
            Mode::Help => ModeView::Help,
        }
    }
}

impl View for Pending {
    type V = PendingView;

    open spec fn view(&self) -> PendingView {
        match self {
            Pending::Idle => PendingView::Idle,
            Pending::Going { path, jumping } => PendingView::Going {
                path: path@,
                jumping: *jumping,
            },
            Pending::Opening { path } => PendingView::Opening { path: path@ },
            Pending::Editing => PendingView::Editing,
            Pending::Jumping { terms } => PendingView::Jumping { terms: terms@ },
            Pending::Dropping => PendingView::Dropping,
            Pending::Checking => PendingView::Checking,
            Pending::Running { done, failures } => PendingView::Running {
                done: *done as int,
                failures: plan::failure_views(failures@),
            },
            Pending::Refreshing { failed } => PendingView::Refreshing { failed: *failed as nat },
            Pending::Retreating { gone, at, failed } => PendingView::Retreating {
                gone: gone@,
                at: at@,
                failed: *failed as nat,
            },
            Pending::Reading { path } => PendingView::Reading { path: path@ },
            Pending::Sending { bytes } => PendingView::Sending { bytes: *bytes as nat },
        }
    }
}

/// The operations over their paths.
pub open spec fn op_views(ops: Seq<Op>) -> Seq<plan::OpView> {
    Seq::new(ops.len(), |i: int| ops[i]@)
}

impl View for Request {
    type V = RequestView;

    open spec fn view(&self) -> RequestView {
        match self {
            Request::ListDir(path) => RequestView::ListDir(path@),
            Request::Socket => RequestView::Socket,
            Request::RunEditor(arguments) => RequestView::RunEditor(text::texts(arguments@)),
            Request::FindDir(arguments) => RequestView::FindDir(text::texts(arguments@)),
            Request::Probe(ops) => RequestView::Probe(op_views(ops@)),
            Request::Apply(op) => RequestView::Apply(op@),
            Request::ReadFile(path) => RequestView::ReadFile(path@),
            Request::Send(sequence) => RequestView::Send(sequence@),
        }
    }
}

/// How an operation went, over the error's texts.
pub open spec fn result_view(result: Resultx<()>) -> Result<(), ErrxView> {
    match result {
        Ok(()) => Ok(()),
        Err(errx) => Err(errx@),
    }
}

impl View for Reply {
    type V = ReplyView;

    open spec fn view(&self) -> ReplyView {
        match self {
            Reply::Listed(answer) => ReplyView::Listed(dir::raw_listing_view(*answer)),
            Reply::Socket(Some(socket)) => ReplyView::Socket(Some(socket@)),
            Reply::Socket(None) => ReplyView::Socket(None),
            Reply::EditorRan(ran) => ReplyView::EditorRan(nvim::ran_view(*ran)),
            Reply::DirFound(ran) => ReplyView::DirFound(nvim::ran_view(*ran)),
            Reply::Probed(presence) => ReplyView::Probed(presence@),
            Reply::Applied(result) => ReplyView::Applied(result_view(*result)),
            Reply::FileRead { contents, inside_tmux } => ReplyView::FileRead {
                contents: clipboard::contents_view(*contents),
                inside_tmux: *inside_tmux,
            },
            Reply::Sent(sent) => ReplyView::Sent(clipboard::sent_view(*sent)),
        }
    }
}

impl View for Next {
    type V = NextView;

    open spec fn view(&self) -> NextView {
        match self {
            Next::Done(outcome) => NextView::Done(*outcome),
            Next::Ask(request) => NextView::Ask(request@),
        }
    }
}

impl View for Step {
    type V = StepView;

    open spec fn view(&self) -> StepView {
        StepView { notices: notice::notice_views(self.notices@), next: self.next@ }
    }
}

impl View for Navigator {
    type V = NavView;

    open spec fn view(&self) -> NavView {
        NavView {
            current_dir: self.current_dir@,
            entries: dir::entry_views(self.entries@),
            selected: self.selected as int,
            scroll_offset: self.scroll_offset as int,
            cached_image: match self.cached_image {
                Some(path) => Some(path@),
                None => None,
            },
            log_panel_visible: self.log_panel_visible,
            log_scroll_offset: self.log_scroll_offset as int,
            memory: self.memory@,
            marks: self.marks@,
            plan: self.plan@,
            mode: self.mode@,
            review_selected: self.review_selected as int,
            search: self.search@,
            pending: self.pending@,
        }
    }
}

/// No messages.
fn silent() -> (notices: Vec<Notice>)
    ensures
        notice::notice_views(notices@) == Seq::<NoticeView>::empty(),
{
    let notices: Vec<Notice> = Vec::new();
    proof {
        assert(notice::notice_views(notices@) =~= Seq::empty());
    }
    notices
}

/// One message.
fn telling(level: LogLevel, text: String) -> (notices: Vec<Notice>)
    ensures
        notice::notice_views(notices@) == seq![notice::said(level, text@)],
{
    let mut notices = silent();
    say(&mut notices, level, text);
    proof {
        assert(notice::notice_views(notices@) =~= seq![notice::said(level, text@)]);
    }
    notices
}

/// The session goes on, with nothing asked.
fn staying(notices: Vec<Notice>) -> (step: Step)
    ensures
        step@ == model::stays(notice::notice_views(notices@)),
{
    Step { notices, next: Next::Done(Outcome::Stay) }
}

/// The session goes on, with nothing said or asked.
fn nothing() -> (step: Step)
    ensures
        step@ == model::stays(Seq::empty()),
{
    staying(silent())
}

/// Whether anything beyond shift was held: shift is how a capital is typed, so it
/// is part of the letter rather than a modifier on it.
pub fn held(key: KeyEvent) -> (is: bool)
    ensures
        is == model::is_held(key),
{
    key.modifiers.control || key.modifiers.alt || key.modifiers.super_key || key.modifiers.hyper
        || key.modifiers.meta
}

/// The row of the entry named `name`.
pub fn index_of(entries: &Vec<DirEntry>, name: &str) -> (row: Option<usize>)
    ensures
        match row {
            Some(row) => row < entries@.len() && model::row_named(
                dir::entry_views(entries@),
                name@,
                0,
            ) == Some(row as int),
            None => model::row_named(dir::entry_views(entries@), name@, 0) is None,
        },
{
    let ghost listed = dir::entry_views(entries@);
    let mut i: usize = 0;
    while i < entries.len()
        invariant
            i <= entries@.len(),
            listed == dir::entry_views(entries@),
            model::row_named(listed, name@, 0) == model::row_named(listed, name@, i as int),
        decreases entries.len() - i,
    {
        proof {
            assert(listed[i as int].name == entries@[i as int].name@);
        }
        if same_text(entries[i].name.as_str(), name) {
            return Some(i);
        }
        i = i + 1;
    }
    None
}

/// The last component of `path` as text, or nothing where it has no name.
fn shown_last_name(path: &FilePath) -> (name: String)
    ensures
        name@ == model::last_name(path@),
{
    match path.file_name() {
        Some(name) => lossy(name.as_slice()),
        None => String::new(),
    }
}

/// The same order backwards.
fn backwards(order: &Vec<usize>) -> (flipped: Vec<usize>)
    ensures
        search::place_views(flipped@) == search::place_views(order@).reverse(),
        forall|i: int| 0 <= i < flipped@.len() ==> order@.contains(#[trigger] flipped@[i]),
{
    let mut flipped: Vec<usize> = Vec::new();
    let mut left: usize = order.len();
    while left > 0
        invariant
            left <= order@.len(),
            flipped@.len() == order@.len() - left,
            forall|i: int|
                0 <= i < flipped@.len() ==> #[trigger] flipped@[i] == order@[order@.len() - 1 - i],
        decreases left,
    {
        left = left - 1;
        flipped.push(order[left]);
    }
    proof {
        assert(search::place_views(flipped@) =~= search::place_views(order@).reverse());
    }
    flipped
}

impl Navigator {
    /// What holds of the navigator between any two calls.
    pub open spec fn wf(&self) -> bool {
        &&& self@.wf()
        &&& self.marks.wf()
        &&& self.memory.wf()
    }

    /// A navigator in `current_dir`, on the entry named `select` where there is one.
    /// `listing` is what came back when the directory was read.
    pub fn new(current_dir: FilePath, listing: RawListing, select: Option<&str>) -> (made: (
        Vec<Notice>,
        Resultx<Self>,
    ))
        ensures
            notice::notice_views(made.0@) == dir::listing_told(
                current_dir@,
                dir::raw_listing_view(listing),
            ),
            match (made.1, dir::dotted_listing(current_dir@, dir::raw_listing_view(listing))) {
                (Ok(nav), Ok(entries)) => {
                    &&& nav.wf()
                    &&& nav@ == (NavView {
                        current_dir: current_dir@,
                        entries,
                        selected: match model::row_of(
                            entries,
                            match select {
                                Some(name) => Some(name@),
                                None => None,
                            },
                        ) {
                            Some(row) => row,
                            None => 0,
                        },
                        scroll_offset: 0,
                        cached_image: None,
                        log_panel_visible: false,
                        log_scroll_offset: 0,
                        memory: Map::empty(),
                        marks: Seq::empty(),
                        plan: Seq::empty(),
                        mode: ModeView::Normal,
                        review_selected: 0,
                        search: Seq::empty(),
                        pending: PendingView::Idle,
                    })
                },
                (Err(errx), Err(expected)) => errx@ == expected && errx.traced(),
                _ => false,
            },
    {
        let mut notices = silent();
        let found = read_dir_with_dots(&current_dir, listing, &mut notices);
        proof {
            assert(Seq::<NoticeView>::empty() + dir::listing_told(
                current_dir@,
                dir::raw_listing_view(listing),
            ) =~= dir::listing_told(current_dir@, dir::raw_listing_view(listing)));
        }
        match found {
            Err(errx) => (notices, Err(errx)),
            Ok(entries) => {
                let selected: usize = match select {
                    Some(name) => match index_of(&entries, name) {
                        Some(row) => row,
                        None => 0,
                    },
                    None => 0,
                };
                let nav = Navigator {
                    current_dir,
                    entries,
                    selected,
                    scroll_offset: 0,
                    cached_image: None,
                    log_panel_visible: false,
                    log_scroll_offset: 0,
                    memory: Memory::default(),
                    marks: Marks::default(),
                    plan: Plan::default(),
                    mode: Mode::Normal,
                    review_selected: 0,
                    search: String::new(),
                    pending: Pending::Idle,
                };
                (notices, Ok(nav))
            },
        }
    }

    /// The directory being viewed, which is where a session ends up.
    pub fn current_dir(&self) -> (dir: &FilePath)
        ensures
            dir@ == self@.current_dir,
    {
        &self.current_dir
    }

    /// The entry under the cursor, unless it is one of the `.` / `..` shortcuts,
    /// which name directories that operations must never be pointed at.
    pub fn cursor_path(&self) -> (found: Option<FilePath>)
        ensures
            match found {
                Some(path) => model::cursor_path(self@) == Some(path@),
                None => model::cursor_path(self@) is None,
            },
    {
        if self.selected >= self.entries.len() {
            return None;
        }
        proof {
            assert(self@.entries[self.selected as int] == self.entries@[self.selected as int]@);
        }
        let name = self.entries[self.selected].name.as_str();
        if same_text(name, ".") || same_text(name, "..") {
            None
        } else {
            Some(self.current_dir.join(name))
        }
    }

    /// What a staging key acts on: everything marked, or the entry under the
    /// cursor when nothing is. Single-file work should not need a mark first.
    pub fn targets(&self) -> (paths: Vec<FilePath>)
        ensures
            marks::path_views(paths@) == model::targets(self@),
    {
        let mut paths: Vec<FilePath> = Vec::new();
        if self.marks.is_empty() {
            match self.cursor_path() {
                Some(path) => {
                    paths.push(path);
                },
                None => {},
            }
            proof {
                assert(marks::path_views(paths@) =~= model::targets(self@));
            }
            return paths;
        }
        let marked = self.marks.iter();
        let mut i: usize = 0;
        while i < marked.len()
            invariant
                i <= marked@.len(),
                paths@.len() == i,
                forall|k: int| 0 <= k < i ==> (#[trigger] paths@[k])@ == marked@[k]@,
            decreases marked.len() - i,
        {
            paths.push(marked[i].clone());
            i = i + 1;
        }
        proof {
            assert(marks::path_views(paths@) =~= marks::path_views(marked@));
        }
        paths
    }

    /// Asks for something, and waits for the answer.
    fn ask(&mut self, notices: Vec<Notice>, request: Request, pending: Pending) -> (step: Step)
        ensures
            (final(self)@, step@) == model::asks(
                old(self)@,
                notice::notice_views(notices@),
                request@,
                pending@,
            ),
            final(self).memory == old(self).memory,
            final(self).marks == old(self).marks,
    {
        self.pending = pending;
        Step { notices, next: Next::Ask(request) }
    }

    pub fn move_up(&mut self, log_len: Option<usize>)
        ensures
            final(self)@ == model::moved_up(
                old(self)@,
                1,
                match log_len {
                    Some(total) => Some(total as int),
                    None => None,
                },
            ),
            old(self).wf() ==> final(self).wf(),
    {
        self.move_up_by(1, log_len);
    }

    pub fn move_down(&mut self)
        ensures
            final(self)@ == model::moved_down(old(self)@, 1),
            old(self).wf() ==> final(self).wf(),
    {
        self.move_down_by(1);
    }

    /// `n` rows up. With the log shown that is to older entries, of which there are
    /// `log_len`.
    pub fn move_up_by(&mut self, n: usize, log_len: Option<usize>)
        ensures
            final(self)@ == model::moved_up(
                old(self)@,
                n as int,
                match log_len {
                    Some(total) => Some(total as int),
                    None => None,
                },
            ),
            old(self).wf() ==> final(self).wf(),
    {
        if self.log_panel_visible {
            match log_len {
                Some(total) => {
                    // The log is drawn from the bottom, so "up" means older.
                    let last: usize = total.saturating_sub(1);
                    let wanted: usize = self.log_scroll_offset.saturating_add(n);
                    self.log_scroll_offset = if wanted < last {
                        wanted
                    } else {
                        last
                    };
                },
                None => {},
            }
        } else {
            self.selected = self.selected.saturating_sub(n);
            self.cached_image = None;
        }
    }

    pub fn move_down_by(&mut self, n: usize)
        ensures
            final(self)@ == model::moved_down(old(self)@, n as int),
            old(self).wf() ==> final(self).wf(),
    {
        if self.log_panel_visible {
            self.log_scroll_offset = self.log_scroll_offset.saturating_sub(n);
        } else if self.entries.len() > 0 {
            let last: usize = self.entries.len() - 1;
            let wanted: usize = self.selected.saturating_add(n);
            self.selected = if wanted < last {
                wanted
            } else {
                last
            };
            self.cached_image = None;
        }
    }

    pub fn toggle_log_panel(&mut self)
        ensures
            final(self)@ == model::log_panel_toggled(old(self)@),
            old(self).wf() ==> final(self).wf(),
    {
        self.log_panel_visible = !self.log_panel_visible;
        self.log_scroll_offset = 0;
    }

    /// Puts the cursor on the first row in `order` that matches the search.
    fn select_match(&mut self, order: &Vec<usize>)
        requires
            forall|i: int|
                0 <= i < order@.len() ==> #[trigger] order@[i] < old(self).entries@.len(),
        ensures
            final(self)@ == model::match_selected(old(self)@, search::place_views(order@)),
            old(self).wf() ==> final(self).wf(),
    {
        if self.search.as_str().is_empty() {
            return ;
        }
        match find_match(&self.entries, self.search.as_str(), order) {
            Some(row) => {
                self.selected = row;
            },
            None => {},
        }
    }

    /// Sets out for `path`, saying `notices` on the way: its listing is asked for, and
    /// the cursor position is saved here and restored there once it has come.
    ///
    /// Every directory change goes through this, so saving and restoring happen in
    /// one place rather than at each call site.
    pub fn go_to(&mut self, notices: Vec<Notice>, path: FilePath, jumping: bool) -> (step: Step)
        requires
            old(self).wf(),
            old(self)@.pending is Idle,
            !model::searching(old(self)@.mode),
        ensures
            final(self).wf(),
            (final(self)@, step@) == model::goes_to(
                old(self)@,
                notice::notice_views(notices@),
                path@,
                jumping,
            ),
    {
        self.ask(notices, Request::ListDir(path.clone()), Pending::Going { path, jumping })
    }

    /// Goes up one level. At the filesystem root there is nowhere to go, so this
    /// does nothing.
    pub fn go_to_parent_directory(&mut self) -> (step: Step)
        requires
            old(self).wf(),
            old(self)@.pending is Idle,
            !model::searching(old(self)@.mode),
        ensures
            final(self).wf(),
            (final(self)@, step@) == model::goes_up(old(self)@),
    {
        match self.current_dir.parent() {
            Some(above) => {
                let notices = telling(
                    LogLevel::Info,
                    cat("Going to parent: ", above.display().as_str()),
                );
                self.go_to(notices, above, false)
            },
            None => nothing(),
        }
    }

    /// Enters the directory under the cursor, or opens the file there.
    ///
    /// The session ends when the file was handed to neovim: the navigator has done
    /// its job. That quit never moves the shell, only `Q` does, so opening a file
    /// from somewhere you were only passing through leaves the shell where it was.
    pub fn enter_selected(&mut self) -> (step: Step)
        requires
            old(self).wf(),
            old(self)@.pending is Idle,
            !model::searching(old(self)@.mode),
        ensures
            final(self).wf(),
            (final(self)@, step@) == model::enters(old(self)@),
    {
        if self.entries.len() == 0 {
            return nothing();
        }
        proof {
            assert(self@.entries[self.selected as int] == self.entries@[self.selected as int]@);
        }
        let is_dir = self.entries[self.selected].is_dir;
        let name = self.entries[self.selected].name.clone();
        let path = self.current_dir.join(name.as_str());
        if !is_dir {
            return self.ask(silent(), Request::Socket, Pending::Opening { path });
        }
        if same_text(name.as_str(), ".") {
            return staying(
                telling(
                    LogLevel::Info,
                    cat(
                        "Staying in the same directory: ",
                        self.current_dir.display().as_str(),
                    ),
                ),
            );
        }
        if same_text(name.as_str(), "..") {
            return self.go_to_parent_directory();
        }
        let notices = telling(
            LogLevel::Info,
            cat("Entering directory: ", path.display().as_str()),
        );
        self.go_to(notices, path, false)
    }

    /// Marks or unmarks the entry under the cursor.
    fn toggle_mark(&mut self) -> (step: Step)
        requires
            old(self).wf(),
        ensures
            final(self).wf(),
            (final(self)@, step@) == model::mark_toggled(old(self)@),
    {
        match self.cursor_path() {
            Some(path) => {
                let marked = self.marks.toggle(&path);
                let shown = path.display();
                let said = if marked {
                    cat("Marked ", shown.as_str())
                } else {
                    cat("Unmarked ", shown.as_str())
                };
                staying(telling(LogLevel::Info, said))
            },
            None => nothing(),
        }
    }

    /// Undoes one intention at a time: the search first, then the marks, then the
    /// staged plan.
    ///
    /// None of them has touched the disk, so all three are only intentions: they
    /// come off least deliberate first, so a reflexive esc after a search cannot
    /// take a plan with it. Unlike vim's `:nohlsearch`, the search itself goes and
    /// not just its highlight: one esc, one thing gone, and `n` has nothing left to
    /// repeat.
    fn back_out(&mut self) -> (step: Step)
        requires
            old(self).wf(),
            old(self)@.pending is Idle,
        ensures
            final(self).wf(),
            (final(self)@, step@) == model::backed_out(old(self)@),
    {
        if !self.search.as_str().is_empty() {
            let said = cat("Cleared the search for ", quoted(self.search.as_str()).as_str());
            self.search = String::new();
            staying(telling(LogLevel::Info, said))
        } else if !self.marks.is_empty() {
            let said = cat3("Cleared ", decimal(self.marks.len() as u64).as_str(), " marks");
            self.marks.clear();
            staying(telling(LogLevel::Info, said))
        } else if !self.plan.is_empty() {
            let said = cat3(
                "Discarded ",
                decimal(self.plan.len() as u64).as_str(),
                " staged operation(s)",
            );
            self.plan.clear();
            staying(telling(LogLevel::Info, said))
        } else {
            nothing()
        }
    }

    /// Stages one operation per target, landing in the directory being viewed.
    fn stage_into_here(&mut self, copying: bool) -> (step: Step)
        requires
            old(self).wf(),
            old(self)@.pending is Idle,
        ensures
            final(self).wf(),
            (final(self)@, step@) == model::stages_into_here(old(self)@, copying),
    {
        let paths = self.targets();
        let ghost before = self@;
        let ghost given = marks::path_views(paths@);
        let mut staged: u64 = 0;
        let mut i: usize = 0;
        proof {
            assert(given.take(0) =~= Seq::empty());
        }
        while i < paths.len()
            invariant
                i <= paths@.len(),
                given == marks::path_views(paths@),
                given.len() == paths@.len(),
                staged <= i,
                before == old(self)@,
                self.memory == old(self).memory,
                self.marks == old(self).marks,
                self@ == (NavView {
                    plan: model::staged_all(
                        before.plan,
                        model::ops_into(given.take(i as int), before.current_dir, copying),
                    ),
                    ..before
                }),
                staged == model::newly_staged(
                    before.plan,
                    model::ops_into(given.take(i as int), before.current_dir, copying),
                ),
            decreases paths.len() - i,
        {
            let ghost ops = model::ops_into(given.take(i as int), before.current_dir, copying);
            let ghost more = given.take(i as int + 1);
            proof {
                assert(more.drop_last() =~= given.take(i as int));
                assert(more.last() == paths@[i as int]@);
            }
            match paths[i].file_name() {
                Some(name) => {
                    let to = self.current_dir.join_bytes(name.as_slice());
                    let from = paths[i].clone();
                    let op = if copying {
                        Op::Copy { from, to }
                    } else {
                        Op::Move { from, to }
                    };
                    let ghost one = op@;
                    proof {
                        let grown = model::ops_into(more, before.current_dir, copying);
                        assert(grown == ops.push(one));
                        assert(grown.drop_last() =~= ops);
                    }
                    if self.plan.push(op) {
                        staged = staged + 1;
                    }
                },
                None => {},
            }
            i = i + 1;
        }
        proof {
            assert(given.take(i as int) =~= given);
        }
        let mut said = cat3("Staged ", decimal(staged).as_str(), " operation(s) into ");
        said.append(self.current_dir.display().as_str());
        staying(telling(LogLevel::Info, said))
    }

    /// Stages every target for the trash.
    fn stage_trash(&mut self) -> (step: Step)
        requires
            old(self).wf(),
            old(self)@.pending is Idle,
        ensures
            final(self).wf(),
            (final(self)@, step@) == model::stages_trash(old(self)@),
    {
        let paths = self.targets();
        let ghost before = self@;
        let ghost ops = model::trash_ops(marks::path_views(paths@));
        let mut staged: u64 = 0;
        let mut i: usize = 0;
        proof {
            assert(ops.take(0) =~= Seq::empty());
        }
        while i < paths.len()
            invariant
                i <= paths@.len(),
                ops == model::trash_ops(marks::path_views(paths@)),
                ops.len() == paths@.len(),
                staged <= i,
                before == old(self)@,
                self.memory == old(self).memory,
                self.marks == old(self).marks,
                self@ == (NavView {
                    plan: model::staged_all(before.plan, ops.take(i as int)),
                    ..before
                }),
                staged == model::newly_staged(before.plan, ops.take(i as int)),
            decreases paths.len() - i,
        {
            proof {
                assert(ops.take(i as int + 1).drop_last() =~= ops.take(i as int));
                assert(ops.take(i as int + 1).last() == plan::OpView::Trash(paths@[i as int]@));
            }
            if self.plan.push(Op::Trash(paths[i].clone())) {
                staged = staged + 1;
            }
            i = i + 1;
        }
        proof {
            assert(ops.take(i as int) =~= ops);
        }
        staying(
            telling(
                LogLevel::Info,
                cat3("Staged ", decimal(staged).as_str(), " for the trash"),
            ),
        )
    }

    /// Opens a prompt with nothing typed yet.
    fn begin_prompt(&mut self, label: &'static str, action: PromptAction)
        ensures
            final(self)@ == model::prompts(old(self)@, label@, Seq::empty(), action@),
            final(self).memory == old(self).memory,
            final(self).marks == old(self).marks,
    {
        self.mode = Mode::Prompt(Prompt { label, input: String::new(), action });
    }

    /// Opens a prompt for another name of the entry under the cursor.
    fn begin_rename(&mut self)
        requires
            old(self).wf(),
            old(self)@.pending is Idle,
        ensures
            final(self).wf(),
            final(self)@ == model::begins_rename(old(self)@),
    {
        match self.cursor_path() {
            Some(path) => {
                let current = shown_last_name(&path);
                self.mode = Mode::Prompt(
                    Prompt {
                        label: "rename to",
                        input: current,
                        action: PromptAction::Rename(path),
                    },
                );
            },
            None => {},
        }
    }

    /// Opens a prompt for another name of where the selected operation writes to.
    fn begin_retarget(&mut self) -> (step: Step)
        requires
            old(self).wf(),
            old(self)@.pending is Idle,
        ensures
            final(self).wf(),
            (final(self)@, step@) == model::begins_retarget(old(self)@),
    {
        if self.review_selected >= self.plan.len() {
            return nothing();
        }
        let row: usize = self.review_selected;
        proof {
            assert(self@.plan[row as int] == self.plan.staged@[row as int]@);
        }
        let trashes = match &self.plan.staged[row].op {
            Op::Trash(_) => true,
            _ => false,
        };
        if trashes {
            return staying(
                telling(LogLevel::Warn, "a trash has no destination to rename".to_owned()),
            );
        }
        let current = shown_last_name(self.plan.staged[row].op.destination());
        self.mode = Mode::Prompt(
            Prompt {
                label: "destination name",
                input: current,
                action: PromptAction::Retarget(row),
            },
        );
        nothing()
    }

    /// Asks for the contents of the file under the cursor, for the clipboard.
    fn yank_to_clipboard(&mut self) -> (step: Step)
        requires
            old(self).wf(),
            old(self)@.pending is Idle,
            !model::searching(old(self)@.mode),
        ensures
            final(self).wf(),
            (final(self)@, step@) == model::yanks(old(self)@),
    {
        match self.cursor_path() {
            Some(path) => self.ask(
                silent(),
                Request::ReadFile(path.clone()),
                Pending::Reading { path },
            ),
            None => nothing(),
        }
    }

    /// Keeps the review's cursor on the plan.
    fn clamp_review(&mut self)
        ensures
            final(self)@ == (NavView {
                review_selected: model::clamped(
                    old(self)@.review_selected,
                    old(self)@.plan.len(),
                ),
                ..old(self)@
            }),
            final(self).memory == old(self).memory,
            final(self).marks == old(self).marks,
    {
        let last: usize = self.plan.len().saturating_sub(1);
        if self.review_selected > last {
            self.review_selected = last;
        }
    }

    /// Opens the review, where there is something to look at.
    fn open_review(&mut self) -> (step: Step)
        requires
            old(self).wf(),
            old(self)@.pending is Idle,
        ensures
            final(self).wf(),
            (final(self)@, step@) == model::opens_review(old(self)@),
    {
        if self.plan.is_empty() {
            return staying(telling(LogLevel::Info, "Nothing staged".to_owned()));
        }
        self.clamp_review();
        self.mode = Mode::Review;
        nothing()
    }

    /// The staged operations, to ask the disk about.
    fn staged_ops(&self) -> (ops: Vec<Op>)
        ensures
            op_views(ops@) == model::plan_ops(self@.plan),
    {
        let staged = self.plan.ops();
        let mut ops: Vec<Op> = Vec::new();
        let mut i: usize = 0;
        while i < staged.len()
            invariant
                i <= staged@.len(),
                ops@.len() == i,
                forall|k: int| 0 <= k < i ==> (#[trigger] ops@[k])@ == staged@[k]@,
            decreases staged.len() - i,
        {
            ops.push(staged[i].clone());
            i = i + 1;
        }
        proof {
            assert forall|k: int| 0 <= k < ops@.len() implies op_views(ops@)[k]
                == model::plan_ops(self@.plan)[k] by {
                assert(ops@[k]@ == staged@[k]@);
            }
            assert(op_views(ops@) =~= model::plan_ops(self@.plan));
        }
        ops
    }
}

} // verus!
