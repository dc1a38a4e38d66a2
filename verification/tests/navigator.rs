use navigator::error::{Fault, Resultx};
use navigator::globals::{Color, CURSOR_BAR, SEARCH};
use navigator::io::dir::{FileType, RawEntry, RawListing};
use navigator::io::file::HeadFault;
use navigator::io::fs_ops::{self, FsReply, FsRequest, JobStep, Metadata, Presence};
use navigator::io::{raster, Output};
use navigator::log_store::LogStore;
use navigator::logging::store::LogLevel;
use navigator::navigator::help::{help, help_columns};
use navigator::navigator::render::{column_cut, placed, Areas, Facts, Preview, Wanted};
use navigator::navigator::rows::{path_title, truncate};
use navigator::navigator::{
    index_of, KeyCode, KeyEvent, Mode, Modifiers, Navigator, Next, Outcome, Reply, Request, Step,
};
use navigator::notice::Notice;
use navigator::path::FilePath;
use navigator::plan::Op;
use navigator::screen::{parts_of, Constraint, Cut, Direction, Draw, Edge, Line, Rect, Style};
use ratatui::buffer::Buffer;
use ratatui::widgets::{Block, Borders, Paragraph, Widget};
use ratatui::{layout, style, text};
use std::cell::RefCell;
use std::collections::BTreeMap;
use std::ops::{Deref, DerefMut};
use std::rc::Rc;

/// What stands at a path.
#[derive(Debug, Clone)]
enum Node {
    Dir { mode: u32 },
    File { bytes: Vec<u8>, mode: u32 },
    Link(FilePath),
}

/// A filesystem in memory.
#[derive(Debug, Default)]
struct Disk {
    nodes: BTreeMap<Vec<u8>, Node>,
}

fn fault(text: &str, code: i32) -> Fault {
    Fault { text: text.to_string(), causes: vec![], code: Some(code) }
}

fn missing() -> Fault {
    fault("No such file or directory (os error 2)", 2)
}

/// A path as the tree has it: no dots, no repeated slashes.
fn plain(path: &FilePath) -> Vec<u8> {
    let mut parts: Vec<Vec<u8>> = Vec::new();
    for part in path.bytes.split(|byte| *byte == b'/') {
        if part == b".." {
            parts.pop();
        } else if !part.is_empty() && part != b"." {
            parts.push(part.to_vec());
        }
    }
    let mut key: Vec<u8> = Vec::new();
    for part in parts {
        key.push(b'/');
        key.extend(part);
    }
    key
}

/// The directory a path stands in.
fn above(key: &[u8]) -> Vec<u8> {
    let slash = key.iter().rposition(|byte| *byte == b'/').unwrap_or(0);
    key[..slash].to_vec()
}

impl Disk {
    /// `path` with the links on the way to it followed, but not one at its end.
    fn place(&self, path: &FilePath) -> Vec<u8> {
        let mut key: Vec<u8> = Vec::new();
        for part in plain(path).split(|byte| *byte == b'/').skip(1) {
            key = self.follow(&key);
            key.push(b'/');
            key.extend_from_slice(part);
        }
        key
    }

    fn follow(&self, key: &[u8]) -> Vec<u8> {
        match self.nodes.get(key) {
            Some(Node::Link(target)) => plain(target),
            _ => key.to_vec(),
        }
    }

    fn node(&self, path: &FilePath) -> Option<&Node> {
        self.nodes.get(&self.place(path))
    }

    /// What is there once links are followed.
    fn target(&self, path: &FilePath) -> Option<&Node> {
        self.nodes.get(&self.follow(&self.place(path)))
    }

    fn children(&self, key: &[u8]) -> Vec<Vec<u8>> {
        let inside = |child: &&Vec<u8>| !child.is_empty() && above(child) == key;
        self.nodes.keys().filter(inside).cloned().collect()
    }

    fn below(&self, key: &[u8]) -> Vec<Vec<u8>> {
        let mut start = key.to_vec();
        start.push(b'/');
        let inside = |child: &&Vec<u8>| *child == key || child.starts_with(&start);
        self.nodes.keys().filter(inside).cloned().collect()
    }

    /// The names in a directory, with what each is.
    fn list(&self, path: &FilePath) -> Result<Vec<(Vec<u8>, Node)>, Fault> {
        let key = self.follow(&self.place(path));
        match self.nodes.get(&key) {
            None => Err(missing()),
            Some(Node::Dir { mode }) if mode & 0o444 == 0 => {
                Err(fault("Permission denied (os error 13)", 13))
            }
            Some(Node::Dir { .. }) => Ok(self
                .children(&key)
                .into_iter()
                .rev()
                .map(|child| (child[key.len() + 1..].to_vec(), self.nodes[&child].clone()))
                .collect()),
            Some(_) => Err(fault("Not a directory (os error 20)", 20)),
        }
    }

    /// A listing as the library takes it.
    fn listing(&self, path: &FilePath) -> RawListing {
        let names = self.list(path)?;
        let raw = |(name, node): (Vec<u8>, Node)| {
            let child = path.join_bytes(&name);
            Some(RawEntry {
                file_type: Some(FileType {
                    symlink: matches!(node, Node::Link(_)),
                    dir: matches!(node, Node::Dir { .. }),
                }),
                leads_to_dir: matches!(self.target(&child), Some(Node::Dir { .. })),
                name,
            })
        };
        Ok(names.into_iter().map(raw).collect())
    }

    fn presence(&self, op: &Op) -> Presence {
        Presence {
            source: op.source().is_some_and(|path| self.node(path).is_some()),
            destination: self.node(op.destination()).is_some(),
        }
    }

    /// Puts a node where there is none, in a directory that is there.
    fn make(&mut self, path: &FilePath, node: Node) -> Result<(), Fault> {
        let key = self.place(path);
        match self.nodes.get(&above(&key)) {
            Some(Node::Dir { .. }) => {}
            _ => return Err(missing()),
        }
        if self.nodes.contains_key(&key) {
            return Err(fault("File exists (os error 17)", 17));
        }
        self.nodes.insert(key, node);
        Ok(())
    }

    fn make_dirs(&mut self, path: &FilePath) {
        let mut key: Vec<u8> = Vec::new();
        for part in plain(path).split(|byte| *byte == b'/') {
            if !part.is_empty() {
                key.push(b'/');
                key.extend_from_slice(part);
            }
            self.nodes.entry(key.clone()).or_insert(Node::Dir { mode: 0o755 });
        }
    }

    fn rename(&mut self, from: &FilePath, to: &FilePath) -> Result<(), Fault> {
        let (old, new) = (self.place(from), self.place(to));
        if !self.nodes.contains_key(&old) || !self.nodes.contains_key(&above(&new)) {
            return Err(missing());
        }
        for key in self.below(&old) {
            let node = self.nodes.remove(&key).unwrap();
            let mut moved = new.clone();
            moved.extend_from_slice(&key[old.len()..]);
            self.nodes.insert(moved, node);
        }
        Ok(())
    }

    fn copy_file(&mut self, from: &FilePath, to: &FilePath) -> Result<(), Fault> {
        match self.target(from) {
            Some(Node::File { bytes, mode }) => {
                let node = Node::File { bytes: bytes.clone(), mode: *mode };
                let key = self.place(to);
                if !self.nodes.contains_key(&above(&key)) {
                    return Err(missing());
                }
                self.nodes.insert(key, node);
                Ok(())
            }
            _ => Err(missing()),
        }
    }

    fn perform(&mut self, request: FsRequest) -> FsReply {
        match request {
            FsRequest::MakeFile(path) => {
                FsReply::Done(self.make(&path, Node::File { bytes: vec![], mode: 0o644 }))
            }
            FsRequest::MakeDir(path) => FsReply::Done(self.make(&path, Node::Dir { mode: 0o755 })),
            FsRequest::MakeDirs(path) => {
                self.make_dirs(&path);
                FsReply::Done(Ok(()))
            }
            FsRequest::Rename { from, to } => FsReply::Done(self.rename(&from, &to)),
            FsRequest::Look(path) => FsReply::Looked(match self.node(&path) {
                Some(Node::Dir { mode }) => Ok(Metadata { symlink: false, dir: true, mode: *mode }),
                Some(Node::File { mode, .. }) => {
                    Ok(Metadata { symlink: false, dir: false, mode: *mode })
                }
                Some(Node::Link(_)) => Ok(Metadata { symlink: true, dir: false, mode: 0o777 }),
                None => Err(missing()),
            }),
            FsRequest::ReadLink(path) => FsReply::LinkRead(match self.node(&path) {
                Some(Node::Link(target)) => Ok(target.clone()),
                _ => Err(missing()),
            }),
            FsRequest::MakeLink { target, at } => FsReply::Done(self.make(&at, Node::Link(target))),
            FsRequest::CopyFile { from, to } => FsReply::Done(self.copy_file(&from, &to)),
            FsRequest::List(path) => FsReply::Listed(
                self.list(&path).map(|names| names.into_iter().map(|(name, _)| Ok(name)).collect()),
            ),
            FsRequest::SetMode { path, mode } => {
                let key = self.place(&path);
                FsReply::Done(match self.nodes.get_mut(&key) {
                    Some(Node::Dir { mode: kept }) | Some(Node::File { mode: kept, .. }) => {
                        *kept = mode;
                        Ok(())
                    }
                    _ => Err(missing()),
                })
            }
            FsRequest::RemoveFile(path) => {
                let key = self.place(&path);
                FsReply::Done(self.nodes.remove(&key).map(|_| ()).ok_or_else(missing))
            }
            FsRequest::RemoveDirs(path) => {
                for key in self.below(&self.place(&path)) {
                    self.nodes.remove(&key);
                }
                FsReply::Done(Ok(()))
            }
        }
    }

    /// Carries an operation out to its end.
    fn apply(&mut self, op: &Op, notices: &mut Vec<Notice>) -> Resultx<()> {
        let mut job = fs_ops::apply(op, &trash());
        loop {
            match job.next(notices) {
                JobStep::Done(result) => return result,
                JobStep::Ask(request) => {
                    let reply = self.perform(request);
                    assert!(job.expects(&reply), "{job:?} does not expect {reply:?}");
                    job.take_reply(reply, notices)?;
                }
            }
        }
    }
}

fn trash() -> FilePath {
    fs_ops::trash_root(&FilePath::new("/tmp"), 4242)
}

/// A path in a tree.
#[derive(Debug, Clone)]
struct Place {
    tree: Rc<RefCell<Disk>>,
    path: FilePath,
}

impl Place {
    fn join(&self, name: &str) -> Place {
        Place { tree: self.tree.clone(), path: self.path.join(name) }
    }

    /// Whether anything is there once links are followed.
    fn is_there(&self) -> bool {
        self.tree.borrow().target(&self.path).is_some()
    }

    fn is_dir(&self) -> bool {
        matches!(self.tree.borrow().target(&self.path), Some(Node::Dir { .. }))
    }

    fn is_symlink(&self) -> bool {
        matches!(self.tree.borrow().node(&self.path), Some(Node::Link(_)))
    }

    fn remove(&self) {
        let mut tree = self.tree.borrow_mut();
        let key = tree.place(&self.path);
        assert!(tree.children(&key).is_empty(), "{} is not empty", self.path.display());
        tree.nodes.remove(&key).unwrap();
    }

    fn set_mode(&self, mode: u32) {
        let path = self.path.clone();
        let reply = self.tree.borrow_mut().perform(FsRequest::SetMode { path, mode });
        assert!(matches!(reply, FsReply::Done(Ok(()))));
    }
}

impl Deref for Place {
    type Target = FilePath;

    fn deref(&self) -> &FilePath {
        &self.path
    }
}

impl PartialEq<Place> for FilePath {
    fn eq(&self, other: &Place) -> bool {
        *self == other.path
    }
}

/// The contents of a file.
fn read(path: &Place) -> String {
    match path.tree.borrow().target(&path.path) {
        Some(Node::File { bytes, .. }) => String::from_utf8(bytes.clone()).unwrap(),
        other => panic!("{} is {other:?}", path.path.display()),
    }
}

fn symlink(target: &FilePath, at: Place) {
    at.tree.borrow_mut().make(&at.path, Node::Link(target.clone())).unwrap();
}

/// A directory of its own for a test.
struct TempDir {
    place: Place,
}

impl TempDir {
    fn new() -> Self {
        let path = FilePath::new("/tmp/nav-test");
        let mut tree = Disk::default();
        tree.make_dirs(&path);
        Self { place: Place { tree: Rc::new(RefCell::new(tree)), path } }
    }

    fn path(&self) -> Place {
        self.place.clone()
    }

    /// Creates `name` (which may contain `/`) holding `contents`, and returns its path.
    fn file(&self, name: &str, contents: impl AsRef<[u8]>) -> Place {
        let place = self.place.join(name);
        let mut tree = self.place.tree.borrow_mut();
        tree.make_dirs(&place.path.parent().unwrap());
        let bytes = contents.as_ref().to_vec();
        tree.nodes.insert(plain(&place.path), Node::File { bytes, mode: 0o644 });
        place.clone()
    }

    /// Creates directory `name` (which may contain `/`), and returns its path.
    fn dir(&self, name: &str) -> Place {
        let place = self.place.join(name);
        self.place.tree.borrow_mut().make_dirs(&place.path);
        place
    }
}

/// A navigator, the disk it looks at, and what it told its surroundings.
#[derive(Debug)]
struct Session {
    nav: Navigator,
    disk: Rc<RefCell<Disk>>,
    log: LogStore,
    /// The neovim whose terminal this is.
    socket: Option<String>,
    /// What running neovim and zoxide gives.
    ran: Result<Output, Fault>,
    /// What was run.
    commands: Vec<Vec<String>>,
    /// What was sent to the terminal.
    sent: Vec<String>,
    /// What was said since the last key.
    told: Vec<Notice>,
}

impl Deref for Session {
    type Target = Navigator;

    fn deref(&self) -> &Navigator {
        &self.nav
    }
}

impl DerefMut for Session {
    fn deref_mut(&mut self) -> &mut Navigator {
        &mut self.nav
    }
}

fn copied_output(ran: &Result<Output, Fault>) -> Result<Output, Fault> {
    match ran {
        Ok(output) => Ok(Output {
            stdout: output.stdout.clone(),
            stderr: output.stderr.clone(),
            success: output.success,
            code: output.code,
        }),
        Err(fault) => Err(fault.clone()),
    }
}

impl Session {
    /// Answers what the navigator asks for until it is done.
    fn drive(&mut self, step: Step) -> Outcome {
        let mut step = step;
        self.told.clear();
        loop {
            for notice in step.notices {
                self.log.log(notice.level, notice.text.clone(), 0);
                self.told.push(notice);
            }
            match step.next {
                Next::Done(outcome) => return outcome,
                Next::Ask(request) => {
                    let reply = self.answer(request);
                    assert!(self.nav.expects(&reply), "{reply:?} is not awaited");
                    step = self.nav.resume(reply);
                }
            }
        }
    }

    fn answer(&mut self, request: Request) -> Reply {
        match request {
            Request::ListDir(path) => Reply::Listed(self.disk.borrow().listing(&path)),
            Request::Socket => Reply::Socket(self.socket.clone()),
            Request::RunEditor(arguments) => {
                self.commands.push(arguments);
                Reply::EditorRan(copied_output(&self.ran))
            }
            Request::FindDir(arguments) => {
                self.commands.push(arguments);
                Reply::DirFound(copied_output(&self.ran))
            }
            Request::Probe(ops) => {
                let disk = self.disk.borrow();
                Reply::Probed(ops.iter().map(|op| disk.presence(op)).collect())
            }
            Request::Apply(op) => {
                let mut notices: Vec<Notice> = Vec::new();
                Reply::Applied(self.disk.borrow_mut().apply(&op, &mut notices))
            }
            Request::ReadFile(path) => Reply::FileRead {
                contents: self.disk.borrow().contents(&path),
                inside_tmux: false,
            },
            Request::Send(sequence) => {
                self.sent.push(sequence);
                Reply::Sent(Ok(()))
            }
        }
    }

    fn handle_key(&mut self, key: KeyEvent) -> Outcome {
        let log_len = Some(self.log.len());
        let step = self.nav.handle_key(key, log_len);
        self.drive(step)
    }

    /// Drives `step`, which must not end in an error.
    fn done(&mut self, step: Step) -> Result<Outcome, String> {
        let outcome = self.drive(step);
        match self.told.iter().find(|notice| notice.level == LogLevel::Error) {
            Some(notice) => Err(notice.text.clone()),
            None => Ok(outcome),
        }
    }

    fn go_to(&mut self, place: Place) -> Result<Outcome, String> {
        let step = self.nav.go_to(vec![], place.path, false);
        self.done(step)
    }

    fn enter_selected(&mut self) -> Result<Outcome, String> {
        let step = self.nav.enter_selected();
        self.done(step)
    }

    fn go_to_parent_directory(&mut self) -> Result<Outcome, String> {
        let step = self.nav.go_to_parent_directory();
        self.done(step)
    }

    fn move_up_by(&mut self, n: usize) {
        let log_len = Some(self.log.len());
        self.nav.move_up_by(n, log_len);
    }

    /// Draws the navigator on a screen of this size.
    fn draw(&mut self, width: u16, height: u16) -> Buffer {
        let preview = match self.nav.preview_wanted() {
            Wanted::Nothing => Preview::Nothing,
            Wanted::Kept => Preview::Kept,
            Wanted::Dir(path) => Preview::Dir(self.disk.borrow().listing(&path)),
            Wanted::Text(path) => {
                Preview::Text(self.disk.borrow().contents(&path).map_err(HeadFault::Opening))
            }
            Wanted::Image(path) => {
                let contents = self.disk.borrow().contents(&path);
                Preview::Image(raster::load(&path, contents).map(|_| ()))
            }
        };
        for notice in self.nav.preview_notices(&preview) {
            self.log.log(notice.level, notice.text, 0);
        }
        let presence = {
            let disk = self.disk.borrow();
            self.nav.plan.ops().into_iter().map(|op| disk.presence(op)).collect()
        };
        let facts = Facts { presence, home: None, now: 0 };
        let area = Rect { x: 0, y: 0, width, height };
        let frame = self.nav.render(area, &facts, Some(&self.log), preview);
        let mut buf = Buffer::empty(rect(area));
        for draw in &frame.draws {
            paint(draw, &mut buf);
        }
        buf
    }
}

fn rect(area: Rect) -> layout::Rect {
    layout::Rect { x: area.x, y: area.y, width: area.width, height: area.height }
}

fn color(color: Color) -> style::Color {
    match color {
        Color::Reset => style::Color::Reset,
        Color::Black => style::Color::Black,
        Color::Red => style::Color::Red,
        Color::Green => style::Color::Green,
        Color::Yellow => style::Color::Yellow,
        Color::Blue => style::Color::Blue,
        Color::Magenta => style::Color::Magenta,
        Color::Cyan => style::Color::Cyan,
        Color::Gray => style::Color::Gray,
        Color::DarkGray => style::Color::DarkGray,
        Color::LightRed => style::Color::LightRed,
        Color::LightGreen => style::Color::LightGreen,
        Color::LightYellow => style::Color::LightYellow,
        Color::LightBlue => style::Color::LightBlue,
        Color::LightMagenta => style::Color::LightMagenta,
        Color::LightCyan => style::Color::LightCyan,
        Color::White => style::Color::White,
        Color::Rgb(r, g, b) => style::Color::Rgb(r, g, b),
        Color::Indexed(n) => style::Color::Indexed(n),
    }
}

fn look(given: &Style) -> style::Style {
    let mut look = style::Style::new();
    look.fg = given.fg.map(color);
    look.bg = given.bg.map(color);
    if given.bold {
        look = look.add_modifier(style::Modifier::BOLD);
    }
    if given.italic {
        look = look.add_modifier(style::Modifier::ITALIC);
    }
    look
}

fn painted(line: &Line) -> text::Line<'static> {
    let spans: Vec<text::Span> =
        line.spans.iter().map(|span| text::Span::styled(span.text.clone(), look(&span.style))).collect();
    text::Line::from(spans).style(look(&line.style))
}

fn paint(draw: &Draw, buf: &mut Buffer) {
    match draw {
        Draw::Block { area, edge, style, title } => {
            let borders = match edge {
                Edge::Top => Borders::TOP,
                Edge::Right => Borders::RIGHT,
            };
            let mut block = Block::default().borders(borders).border_style(look(style));
            if let Some(title) = title {
                block = block.title(painted(title));
            }
            block.render(rect(*area), buf);
        }
        Draw::Line { area, line } => painted(line).render(rect(*area), buf),
        Draw::Text { area, text, style } => {
            Paragraph::new(text.clone()).style(look(style)).render(rect(*area), buf)
        }
        Draw::Image { .. } => {}
    }
}

impl Disk {
    fn contents(&self, path: &FilePath) -> Result<Vec<u8>, Fault> {
        match self.target(path) {
            Some(Node::File { bytes, .. }) => Ok(bytes.clone()),
            Some(_) => Err(fault("Is a directory (os error 21)", 21)),
            None => Err(missing()),
        }
    }
}

fn open(place: &Place, select: Option<&str>) -> Session {
    let listing = place.tree.borrow().listing(&place.path);
    let (_, nav) = Navigator::new(place.path.clone(), listing, select);
    Session {
        nav: nav.unwrap(),
        disk: place.tree.clone(),
        log: LogStore::new(FilePath::new("/tmp/nav.log"), 0),
        socket: None,
        ran: Err(missing()),
        commands: vec![],
        sent: vec![],
        told: vec![],
    }
}

/// A key with nothing held.
fn bare(code: KeyCode) -> KeyEvent {
    let modifiers = Modifiers {
        shift: false,
        control: false,
        alt: false,
        super_key: false,
        hyper: false,
        meta: false,
    };
    KeyEvent { code, modifiers }
}

fn with_control(code: KeyCode) -> KeyEvent {
    let mut key = bare(code);
    key.modifiers.control = true;
    key
}

fn render_to_string(nav: &mut Session, width: u16, height: u16) -> String {
    let buf = nav.draw(width, height);
    (0..height)
        .map(|y| (0..width).map(|x| buf[(x, y)].symbol()).collect::<String>())
        .collect::<Vec<_>>()
        .join("\n")
}

/// The name under the cursor.
fn selected(nav: &Session) -> &str {
    &nav.entries[nav.selected].name
}

/// What is drawn on the search highlight, one entry per row that has any.
fn lit(nav: &mut Session, width: u16, height: u16) -> Vec<String> {
    let buf = nav.draw(width, height);
    (0..height)
        .map(|y| {
            (0..width)
                .filter(|&x| buf[(x, y)].bg == color(SEARCH))
                .map(|x| buf[(x, y)].symbol())
                .collect::<String>()
        })
        .filter(|row| !row.is_empty())
        .collect()
}

#[test]
fn renders_the_listing_and_the_preview_side_by_side() {
    let tmp = TempDir::new();
    tmp.dir("subdir");
    tmp.file("notes.txt", "the file contents");

    let mut nav = open(&tmp.path(), Some("notes.txt"));
    let out = render_to_string(&mut nav, 80, 24);

    assert!(out.contains("subdir"), "missing directory in:\n{out}");
    assert!(out.contains("notes.txt"), "missing file in:\n{out}");
    assert!(
        out.contains("the file contents"),
        "missing preview in:\n{out}"
    );
}

#[test]
fn starts_on_the_selected_file() {
    let tmp = TempDir::new();
    tmp.file("aaa.txt", "");
    tmp.file("zzz.txt", "");

    let nav = open(&tmp.path(), Some("zzz.txt"));

    assert_eq!(selected(&nav), "zzz.txt");
}

#[test]
fn starts_at_the_top_when_the_selection_is_missing() {
    let tmp = TempDir::new();
    tmp.file("aaa.txt", "");

    let nav = open(&tmp.path(), Some("not-here.txt"));

    assert_eq!(selected(&nav), ".");
}

#[test]
fn opening_a_missing_directory_fails() {
    let tmp = TempDir::new();

    let nope = tmp.path().join("nope");
    let listing = nope.tree.borrow().listing(&nope);
    assert!(Navigator::new(nope.path, listing, None).1.is_err());
}

#[test]
fn entering_a_subdirectory_descends_into_it() {
    let tmp = TempDir::new();
    tmp.file("sub/inside.txt", "");

    let mut nav = open(&tmp.path(), Some("sub"));
    nav.enter_selected().unwrap();

    assert_eq!(nav.current_dir, tmp.path().join("sub"));
    assert_eq!(selected(&nav), ".");
    assert!(nav.entries.iter().any(|e| e.name == "inside.txt"));
}

#[test]
fn entering_dot_dot_goes_up_instead_of_appending_to_the_path() {
    let tmp = TempDir::new();
    tmp.dir("sub");
    tmp.file("marker.txt", "");

    let mut nav = open(&tmp.path().join("sub"), None);
    nav.selected = 1;
    assert_eq!(selected(&nav), "..");
    nav.enter_selected().unwrap();

    assert_eq!(nav.current_dir, tmp.path());
    assert!(nav.entries.iter().any(|e| e.name == "marker.txt"));
}

#[test]
fn entering_dot_stays_put() {
    let tmp = TempDir::new();
    tmp.dir("sub");

    let mut nav = open(&tmp.path(), None);
    assert_eq!(selected(&nav), ".");
    nav.enter_selected().unwrap();

    assert_eq!(nav.current_dir, tmp.path());
}

#[test]
fn entering_a_symlinked_directory_descends_into_it() {
    let tmp = TempDir::new();
    let target = tmp.dir("real");
    tmp.file("real/inside.txt", "");
    symlink(&target, tmp.path().join("link"));

    let mut nav = open(&tmp.path(), Some("link"));
    nav.enter_selected().unwrap();

    assert!(nav.entries.iter().any(|e| e.name == "inside.txt"));
}

#[test]
fn going_up_highlights_the_directory_you_came_from() {
    let tmp = TempDir::new();
    tmp.dir("aaa");
    tmp.dir("target");
    tmp.dir("zzz");

    let mut nav = open(&tmp.path(), Some("target"));
    nav.enter_selected().unwrap();
    nav.go_to_parent_directory().unwrap();

    assert_eq!(selected(&nav), "target");
}

#[test]
fn going_up_highlights_the_directory_you_started_in() {
    // Started here by `nav <path>`, so the parent has never been visited and
    // there is nothing remembered about it.
    let tmp = TempDir::new();
    tmp.dir("aaa");
    tmp.dir("start");

    let mut nav = open(&tmp.path().join("start"), None);
    nav.go_to_parent_directory().unwrap();

    assert_eq!(nav.current_dir, tmp.path());
    assert_eq!(selected(&nav), "start");
}

#[test]
fn returning_to_a_directory_restores_the_cursor() {
    let tmp = TempDir::new();
    tmp.dir("sub");
    tmp.file("aaa.txt", "");
    tmp.file("zzz.txt", "");

    // Leave the cursor on a file, not on the directory we descend into.
    let mut nav = open(&tmp.path(), Some("zzz.txt"));
    nav.go_to(tmp.path().join("sub")).unwrap();
    assert_eq!(selected(&nav), ".");

    nav.go_to_parent_directory().unwrap();

    assert_eq!(selected(&nav), "zzz.txt");
}

#[test]
fn a_remembered_position_survives_several_levels() {
    let tmp = TempDir::new();
    tmp.dir("a/b/c");
    tmp.file("a/marker.txt", "");

    let mut nav = open(&tmp.path(), Some("a"));
    nav.enter_selected().unwrap();
    nav.selected = index_of(&nav.entries, "marker.txt").unwrap();
    nav.go_to(tmp.path().join("a/b")).unwrap();
    nav.enter_selected().unwrap(); // into `.`, stays put

    nav.go_to_parent_directory().unwrap();

    assert_eq!(nav.current_dir, tmp.path().join("a"));
    assert_eq!(selected(&nav), "marker.txt");
}

#[test]
fn a_remembered_entry_that_is_gone_falls_back_to_where_you_came_from() {
    let tmp = TempDir::new();
    tmp.dir("sub");
    let doomed = tmp.file("doomed.txt", "");

    let mut nav = open(&tmp.path(), Some("doomed.txt"));
    nav.go_to(tmp.path().join("sub")).unwrap();
    doomed.remove();

    nav.go_to_parent_directory().unwrap();

    assert_eq!(selected(&nav), "sub");
}

#[test]
fn a_remembered_entry_that_is_gone_falls_back_to_the_top() {
    let tmp = TempDir::new();
    tmp.dir("here");
    tmp.dir("elsewhere");
    let doomed = tmp.file("here/doomed.txt", "");

    // Sideways, so the directory we return from is not one of `here`'s entries.
    let mut nav = open(&tmp.path().join("here"), Some("doomed.txt"));
    nav.go_to(tmp.path().join("elsewhere")).unwrap();
    doomed.remove();
    nav.go_to(tmp.path().join("here")).unwrap();

    assert_eq!(selected(&nav), ".");
}

#[test]
fn a_directory_visited_for_the_first_time_starts_at_the_top() {
    let tmp = TempDir::new();
    tmp.file("sub/inside.txt", "");

    let mut nav = open(&tmp.path(), Some("sub"));
    nav.enter_selected().unwrap();

    assert_eq!(selected(&nav), ".");
}

#[test]
fn descending_does_not_inherit_the_parents_position() {
    let tmp = TempDir::new();
    tmp.file("aaa.txt", "");
    tmp.file("sub/aaa.txt", "");

    // `aaa.txt` exists in both, so a naive restore would land on it below too.
    let mut nav = open(&tmp.path(), Some("aaa.txt"));
    nav.go_to(tmp.path().join("sub")).unwrap();

    assert_eq!(selected(&nav), ".");
}

#[test]
fn q_quits_and_leaves_the_shell_where_it_was() {
    let tmp = TempDir::new();
    let mut nav = open(&tmp.path(), None);

    let outcome = nav.handle_key(bare(KeyCode::Char('q')));

    assert_eq!(outcome, Outcome::Quit);
}

#[test]
fn shift_q_quits_and_takes_the_shell_along() {
    let tmp = TempDir::new();
    tmp.dir("sub");

    let mut nav = open(&tmp.path(), Some("sub"));
    key(&mut nav, KeyCode::Enter);
    let outcome = nav.handle_key(bare(KeyCode::Char('Q')));

    assert_eq!(outcome, Outcome::QuitHere);
    assert_eq!(
        *nav.current_dir(),
        tmp.path().join("sub"),
        "the directory handed over is the one the session ended in"
    );
}

#[test]
fn both_quits_work_from_the_review_screen_too() {
    let tmp = TempDir::new();
    tmp.file("x.txt", "");

    let mut nav = open(&tmp.path(), Some("x.txt"));
    press(&mut nav, 'd');
    press(&mut nav, 'p');

    assert!(matches!(nav.mode, Mode::Review));
    assert_eq!(
        nav.handle_key(bare(KeyCode::Char('q'))),
        Outcome::Quit
    );
    assert_eq!(
        nav.handle_key(bare(KeyCode::Char('Q'))),
        Outcome::QuitHere
    );
}

fn press(nav: &mut Session, c: char) {
    nav.handle_key(bare(KeyCode::Char(c)));
}

fn key(nav: &mut Session, code: KeyCode) {
    nav.handle_key(bare(code));
}

fn type_in(nav: &mut Session, name: &str) {
    for c in name.chars() {
        press(nav, c);
    }
}

/// Open the review and apply, the way `enter` alone cannot: in the listing it
/// still means "enter this directory".
fn apply(nav: &mut Session) {
    press(nav, 'p');
    key(nav, KeyCode::Enter);
}

/// Puts the cursor on `name` and marks it.
fn mark(nav: &mut Session, name: &str) {
    nav.selected = index_of(&nav.entries, name).unwrap_or_else(|| panic!("no {name} here"));
    press(nav, ' ');
}

/// Clears a prompt that was prefilled with the current name, then types.
fn replace_name(nav: &mut Session, name: &str) {
    for _ in 0..128 {
        key(nav, KeyCode::Backspace);
    }
    type_in(nav, name);
}

#[test]
fn a_path_that_fits_is_left_alone() {
    assert_eq!(truncate("/a/b/notes.txt", 40), "/a/b/notes.txt");
    assert_eq!(truncate("exactly-ten", 11), "exactly-ten");
}

#[test]
fn a_path_too_long_keeps_its_tail_and_the_width_it_was_given() {
    // The tail is what identifies a path, and the row it goes in has no more
    // columns to give it.
    assert_eq!(truncate("/home/me/dev/notes.txt", 12), "…v/notes.txt");
    assert_eq!(truncate("/home/me/dev/notes.txt", 12).chars().count(), 12);
}

#[test]
fn there_is_a_narrowest_a_path_can_get() {
    assert_eq!(truncate("/a/b/c", 1), "…");
    assert_eq!(truncate("/a/b/c", 0), "");
}

#[test]
fn truncating_never_cuts_a_character_in_half() {
    // Every one of these is several bytes wide, so counting bytes would slice
    // one down the middle and panic.
    assert_eq!(truncate("🦀🦀🦀🦀", 3), "…🦀🦀");
    assert_eq!(truncate("ärgerlich", 4), "…ich");
}

#[test]
fn the_title_picks_out_the_directory_you_are_in() {
    let title = path_title(&FilePath::new("/home/me/dev/navigator"), 40, None);
    let spans: Vec<_> = title
        .spans
        .iter()
        .map(|span| span.text.as_str())
        .collect();

    assert_eq!(spans, [" ", "/home/me/dev/", "navigator", " "]);
    assert!(title.spans[2].style.bold);
}

#[test]
fn a_narrow_title_still_ends_with_the_directory_you_are_in() {
    let title = path_title(&FilePath::new("/home/me/dev/navigator"), 14, None);
    let shown: String = title
        .spans
        .iter()
        .map(|span| span.text.as_str())
        .collect();

    assert!(shown.trim().ends_with("navigator"), "{shown:?}");
    assert!(
        shown.chars().count() <= 15,
        "{shown:?} overflows 14 columns"
    );
}

#[test]
fn question_mark_shows_the_keys() {
    let tmp = TempDir::new();

    let mut nav = open(&tmp.path(), None);
    press(&mut nav, '?');
    let out = render_to_string(&mut nav, 100, 30);

    for section in help() {
        assert!(
            out.contains(section.title),
            "missing {} in:\n{out}",
            section.title
        );
    }
    assert!(out.contains("press any key to go back"), "in:\n{out}");
}

#[test]
fn every_documented_key_reaches_the_screen() {
    let tmp = TempDir::new();

    let mut nav = open(&tmp.path(), None);
    press(&mut nav, '?');
    let out = render_to_string(&mut nav, 120, 40);

    for (key, what) in help().into_iter().flat_map(|section| section.keys) {
        assert!(out.contains(key), "key {key} was cut off in:\n{out}");
        assert!(out.contains(what), "text for {key} was cut off in:\n{out}");
    }
}

#[test]
fn the_keys_fit_a_short_terminal_by_using_more_columns() {
    let tmp = TempDir::new();

    let mut nav = open(&tmp.path(), None);
    press(&mut nav, '?');
    // Far too short for one column, so it must wrap into several.
    let out = render_to_string(&mut nav, 200, 14);

    for section in help() {
        assert!(
            out.contains(section.title),
            "missing {} in:\n{out}",
            section.title
        );
    }
}

#[test]
fn no_column_of_keys_is_taller_than_the_screen() {
    // A section on its own is taller than this, so keeping every one whole
    // would mean drawing over whatever the help sits on.
    for height in 0..12 {
        for column in help_columns(height) {
            assert!(
                column.len() <= height.max(1),
                "a column of {} lines does not fit {height} rows",
                column.len()
            );
        }
    }
}

#[test]
fn no_key_is_documented_twice_in_one_section() {
    for section in help() {
        for (i, (key, _)) in section.keys.iter().enumerate() {
            let duplicate = section
                .keys
                .iter()
                .skip(i + 1)
                .any(|(other, _)| other == key);
            assert!(!duplicate, "{key} is listed twice under {}", section.title);
        }
    }
}

#[test]
fn any_key_dismisses_the_help() {
    let tmp = TempDir::new();
    tmp.file("a.txt", "");

    for dismiss in ['?', 'j', 'q', 'z'] {
        let mut nav = open(&tmp.path(), None);
        press(&mut nav, '?');
        assert!(matches!(nav.mode, Mode::Help));

        press(&mut nav, dismiss);
        assert!(
            matches!(nav.mode, Mode::Normal),
            "{dismiss} should have closed the help"
        );
    }
}

#[test]
fn dismissing_the_help_does_not_also_run_that_key() {
    let tmp = TempDir::new();
    tmp.file("victim.txt", "");

    let mut nav = open(&tmp.path(), Some("victim.txt"));
    press(&mut nav, '?');
    press(&mut nav, 'd');

    assert!(
        nav.plan.is_empty(),
        "the key that closed the help must not also stage"
    );
}

#[test]
fn marking_leaves_the_cursor_where_it_is() {
    let tmp = TempDir::new();
    tmp.file("a.txt", "");
    tmp.file("b.txt", "");

    let mut nav = open(&tmp.path(), Some("a.txt"));
    press(&mut nav, ' ');

    assert!(nav.marks.contains(&tmp.path().join("a.txt")));
    assert_eq!(selected(&nav), "a.txt");
}

#[test]
fn marking_the_same_entry_again_unmarks_it() {
    let tmp = TempDir::new();
    tmp.file("a.txt", "");

    let mut nav = open(&tmp.path(), Some("a.txt"));
    press(&mut nav, ' ');
    press(&mut nav, ' ');

    assert!(nav.marks.is_empty());
}

#[test]
fn the_navigation_shortcuts_cannot_be_marked() {
    let tmp = TempDir::new();
    tmp.file("a.txt", "");

    let mut nav = open(&tmp.path(), None);
    assert_eq!(selected(&nav), ".");
    press(&mut nav, ' ');

    assert!(nav.marks.is_empty(), "`.` must never become a target");
}

#[test]
fn escape_clears_every_mark() {
    let tmp = TempDir::new();
    tmp.file("a.txt", "");
    tmp.file("b.txt", "");

    let mut nav = open(&tmp.path(), Some("a.txt"));
    mark(&mut nav, "a.txt");
    mark(&mut nav, "b.txt");
    assert_eq!(nav.marks.len(), 2);

    key(&mut nav, KeyCode::Esc);

    assert!(nav.marks.is_empty());
}

#[test]
fn escape_discards_the_plan_once_the_marks_are_gone() {
    let tmp = TempDir::new();
    tmp.file("a.txt", "");
    tmp.dir("sub");

    let mut nav = open(&tmp.path(), None);
    mark(&mut nav, "a.txt");
    nav.go_to(tmp.path().join("sub")).unwrap();
    press(&mut nav, 'c');

    // The marks go first: they are what the plan was built from, and losing
    // both to one keypress would be a surprise.
    key(&mut nav, KeyCode::Esc);
    assert!(nav.marks.is_empty());
    assert_eq!(nav.plan.len(), 1, "the plan should have survived");

    key(&mut nav, KeyCode::Esc);
    assert!(nav.plan.is_empty());
}

#[test]
fn escape_with_nothing_to_back_out_of_does_nothing() {
    let tmp = TempDir::new();
    tmp.file("a.txt", "");

    let mut nav = open(&tmp.path(), Some("a.txt"));
    key(&mut nav, KeyCode::Esc);

    assert!(nav.marks.is_empty());
    assert!(nav.plan.is_empty());
    assert_eq!(selected(&nav), "a.txt");
}

#[test]
fn staging_with_nothing_marked_uses_the_cursor() {
    let tmp = TempDir::new();
    tmp.file("lonely.txt", "");

    let mut nav = open(&tmp.path(), Some("lonely.txt"));
    press(&mut nav, 'd');

    assert_eq!(nav.plan.len(), 1);
    assert_eq!(
        nav.plan.ops().first().unwrap().describe().subject,
        "lonely.txt"
    );
}

#[test]
fn marked_entries_are_copied_into_the_directory_you_are_standing_in() {
    let tmp = TempDir::new();
    tmp.file("one.txt", "first");
    tmp.file("two.txt", "second");
    tmp.dir("dest");

    let mut nav = open(&tmp.path(), Some("one.txt"));
    mark(&mut nav, "one.txt");
    mark(&mut nav, "two.txt");

    nav.go_to(tmp.path().join("dest")).unwrap();
    press(&mut nav, 'c');
    apply(&mut nav);

    assert_eq!(read(&tmp.path().join("dest/one.txt")), "first");
    assert_eq!(read(&tmp.path().join("dest/two.txt")), "second");
    assert!(
        tmp.path().join("one.txt").is_there(),
        "copy keeps the original"
    );
}

#[test]
fn moving_marked_entries_removes_the_originals() {
    let tmp = TempDir::new();
    let source = tmp.file("travelling.txt", "contents");
    tmp.dir("dest");

    let mut nav = open(&tmp.path(), Some("travelling.txt"));
    press(&mut nav, ' ');
    nav.go_to(tmp.path().join("dest")).unwrap();
    press(&mut nav, 'm');
    apply(&mut nav);

    assert_eq!(read(&tmp.path().join("dest/travelling.txt")), "contents");
    assert!(!source.is_there());
}

#[test]
fn staging_the_same_thing_twice_stages_it_once() {
    let tmp = TempDir::new();
    tmp.file("x.txt", "");
    tmp.dir("sub");

    let mut nav = open(&tmp.path(), None);
    mark(&mut nav, "x.txt");
    nav.go_to(tmp.path().join("sub")).unwrap();
    press(&mut nav, 'c');
    press(&mut nav, 'c');
    press(&mut nav, 'd');
    press(&mut nav, 'd');

    // One copy and one trash, not two of each: the second of each pair would
    // only have failed on work the first had already done.
    assert_eq!(nav.plan.len(), 2);
}

#[test]
fn marks_survive_staging_so_one_set_can_go_to_two_places() {
    let tmp = TempDir::new();
    tmp.file("shared.txt", "x");
    tmp.dir("first");
    tmp.dir("second");

    let mut nav = open(&tmp.path(), Some("shared.txt"));
    press(&mut nav, ' ');

    nav.go_to(tmp.path().join("first")).unwrap();
    press(&mut nav, 'c');
    nav.go_to(tmp.path().join("second")).unwrap();
    press(&mut nav, 'c');

    assert_eq!(nav.plan.len(), 2);
    apply(&mut nav);

    assert!(tmp.path().join("first/shared.txt").is_there());
    assert!(tmp.path().join("second/shared.txt").is_there());
}

#[test]
fn applying_clears_the_marks_and_empties_the_plan() {
    let tmp = TempDir::new();
    tmp.file("doomed.txt", "");

    let mut nav = open(&tmp.path(), Some("doomed.txt"));
    press(&mut nav, ' ');
    press(&mut nav, 'd');
    apply(&mut nav);

    assert!(nav.marks.is_empty());
    assert!(nav.plan.is_empty());
    assert!(!tmp.path().join("doomed.txt").is_there());
}

#[test]
fn applying_refreshes_the_listing() {
    let tmp = TempDir::new();
    tmp.file("doomed.txt", "");
    tmp.file("keeper.txt", "");

    let mut nav = open(&tmp.path(), Some("doomed.txt"));
    press(&mut nav, 'd');
    apply(&mut nav);

    assert!(
        !nav.entries.iter().any(|e| e.name == "doomed.txt"),
        "the trashed entry should be gone from the listing"
    );
    assert!(nav.entries.iter().any(|e| e.name == "keeper.txt"));
}

#[test]
fn a_blocked_plan_refuses_to_apply() {
    let tmp = TempDir::new();
    tmp.file("source.txt", "new");
    tmp.file("dest/source.txt", "original");

    let mut nav = open(&tmp.path(), Some("source.txt"));
    press(&mut nav, ' ');
    nav.go_to(tmp.path().join("dest")).unwrap();
    press(&mut nav, 'c');
    apply(&mut nav);

    assert_eq!(nav.plan.len(), 1, "the blocked operation must survive");
    assert_eq!(
        read(&tmp.path().join("dest/source.txt")),
        "original",
        "nothing may be clobbered"
    );
}

#[test]
fn dropping_the_blocked_operations_lets_the_rest_through() {
    let tmp = TempDir::new();
    tmp.file("fresh.txt", "fresh");
    tmp.file("clash.txt", "new");
    tmp.file("dest/clash.txt", "original");

    let mut nav = open(&tmp.path(), Some("clash.txt"));
    mark(&mut nav, "clash.txt");
    mark(&mut nav, "fresh.txt");
    nav.go_to(tmp.path().join("dest")).unwrap();
    press(&mut nav, 'c');
    assert_eq!(nav.plan.len(), 2);

    press(&mut nav, 'p');
    press(&mut nav, 'X');
    key(&mut nav, KeyCode::Enter);

    assert_eq!(read(&tmp.path().join("dest/clash.txt")), "original");
    assert_eq!(read(&tmp.path().join("dest/fresh.txt")), "fresh");
}

#[test]
fn a_conflicting_destination_can_be_renamed_in_review() {
    let tmp = TempDir::new();
    tmp.file("notes.txt", "mine");
    tmp.file("dest/notes.txt", "theirs");

    let mut nav = open(&tmp.path(), Some("notes.txt"));
    press(&mut nav, ' ');
    nav.go_to(tmp.path().join("dest")).unwrap();
    press(&mut nav, 'c');

    press(&mut nav, 'p');
    press(&mut nav, 'r');
    replace_name(&mut nav, "notes-mine.txt");
    key(&mut nav, KeyCode::Enter);
    key(&mut nav, KeyCode::Enter);

    assert_eq!(read(&tmp.path().join("dest/notes.txt")), "theirs");
    assert_eq!(read(&tmp.path().join("dest/notes-mine.txt")), "mine");
}

#[test]
fn dropping_one_operation_leaves_the_others() {
    let tmp = TempDir::new();
    tmp.file("a.txt", "");
    tmp.file("b.txt", "");

    let mut nav = open(&tmp.path(), Some("a.txt"));
    mark(&mut nav, "a.txt");
    mark(&mut nav, "b.txt");
    press(&mut nav, 'd');
    assert_eq!(nav.plan.len(), 2);

    press(&mut nav, 'p');
    press(&mut nav, 'x');

    assert_eq!(nav.plan.len(), 1);
}

#[test]
fn creating_a_file_goes_through_the_plan() {
    let tmp = TempDir::new();

    let mut nav = open(&tmp.path(), None);
    press(&mut nav, 'a');
    type_in(&mut nav, "fresh.rs");
    key(&mut nav, KeyCode::Enter);

    assert_eq!(nav.plan.len(), 1, "nothing should happen before applying");
    assert!(!tmp.path().join("fresh.rs").is_there());

    apply(&mut nav);

    assert_eq!(read(&tmp.path().join("fresh.rs")), "");
}

#[test]
fn creating_a_directory_goes_through_the_plan() {
    let tmp = TempDir::new();

    let mut nav = open(&tmp.path(), None);
    press(&mut nav, 'A');
    type_in(&mut nav, "newdir");
    key(&mut nav, KeyCode::Enter);
    apply(&mut nav);

    assert!(tmp.path().join("newdir").is_dir());
}

#[test]
fn renaming_starts_from_the_current_name() {
    let tmp = TempDir::new();
    tmp.file("original.txt", "");

    let mut nav = open(&tmp.path(), Some("original.txt"));
    press(&mut nav, 'r');

    let Mode::Prompt(prompt) = &nav.mode else {
        panic!("expected a prompt");
    };
    assert_eq!(prompt.input, "original.txt");
}

#[test]
fn renaming_applies_as_a_move() {
    let tmp = TempDir::new();
    let original = tmp.file("original.txt", "same bytes");

    let mut nav = open(&tmp.path(), Some("original.txt"));
    press(&mut nav, 'r');
    replace_name(&mut nav, "renamed.txt");
    key(&mut nav, KeyCode::Enter);
    apply(&mut nav);

    assert!(!original.is_there());
    assert_eq!(read(&tmp.path().join("renamed.txt")), "same bytes");
}

#[test]
fn an_unusable_name_keeps_the_prompt_open() {
    let tmp = TempDir::new();

    let mut nav = open(&tmp.path(), None);
    press(&mut nav, 'a');
    type_in(&mut nav, "in/valid");
    key(&mut nav, KeyCode::Enter);

    assert!(
        matches!(nav.mode, Mode::Prompt(_)),
        "a rejected name should not close the prompt"
    );
    assert!(nav.plan.is_empty());
}

#[test]
fn escape_abandons_a_prompt() {
    let tmp = TempDir::new();

    let mut nav = open(&tmp.path(), None);
    press(&mut nav, 'a');
    type_in(&mut nav, "unwanted.txt");
    key(&mut nav, KeyCode::Esc);

    assert!(matches!(nav.mode, Mode::Normal));
    assert!(nav.plan.is_empty());
}

/// Three entries a search can tell apart: `m1` and `m2` match "m", `other`
/// matches neither.
fn searchable() -> TempDir {
    let tmp = TempDir::new();
    tmp.file("m1.txt", "");
    tmp.file("m2.txt", "");
    tmp.file("other.txt", "");
    tmp
}

#[test]
fn the_cursor_follows_the_search_as_it_is_typed() {
    let tmp = searchable();

    let mut nav = open(&tmp.path(), None);
    press(&mut nav, '/');
    type_in(&mut nav, "m2");

    assert_eq!(selected(&nav), "m2.txt", "before enter was ever pressed");
}

#[test]
fn enter_leaves_the_cursor_on_the_match() {
    let tmp = searchable();

    let mut nav = open(&tmp.path(), None);
    press(&mut nav, '/');
    type_in(&mut nav, "m2");
    key(&mut nav, KeyCode::Enter);

    assert!(matches!(nav.mode, Mode::Normal));
    assert_eq!(selected(&nav), "m2.txt");
}

#[test]
fn escape_puts_the_cursor_back_where_the_search_started() {
    let tmp = searchable();

    let mut nav = open(&tmp.path(), Some("other.txt"));
    press(&mut nav, '/');
    type_in(&mut nav, "m1");
    key(&mut nav, KeyCode::Esc);

    assert!(matches!(nav.mode, Mode::Normal));
    assert_eq!(selected(&nav), "other.txt");
}

#[test]
fn a_query_typed_one_letter_too_far_goes_back_to_where_it_started() {
    let tmp = searchable();

    let mut nav = open(&tmp.path(), Some("other.txt"));
    press(&mut nav, '/');
    type_in(&mut nav, "m1");
    assert_eq!(selected(&nav), "m1.txt");

    // "m1x" matches nothing, and the cursor must not be left on the m1.txt the
    // query no longer describes.
    type_in(&mut nav, "x");
    assert_eq!(selected(&nav), "other.txt");

    // Backspacing that letter finds it again.
    key(&mut nav, KeyCode::Backspace);
    assert_eq!(selected(&nav), "m1.txt");
}

#[test]
fn n_walks_the_matches_and_wraps() {
    let tmp = searchable();

    let mut nav = open(&tmp.path(), None);
    press(&mut nav, '/');
    type_in(&mut nav, "m");
    key(&mut nav, KeyCode::Enter);
    assert_eq!(selected(&nav), "m1.txt");

    press(&mut nav, 'n');
    assert_eq!(selected(&nav), "m2.txt");

    press(&mut nav, 'n');
    assert_eq!(selected(&nav), "m1.txt", "past the last match it wraps");

    press(&mut nav, 'N');
    assert_eq!(selected(&nav), "m2.txt", "and back the other way");
}

#[test]
fn n_does_nothing_until_something_has_been_searched_for() {
    let tmp = searchable();

    let mut nav = open(&tmp.path(), Some("other.txt"));
    press(&mut nav, 'n');
    press(&mut nav, 'N');

    assert_eq!(selected(&nav), "other.txt");
}

#[test]
fn a_lowercase_search_ignores_case() {
    let tmp = TempDir::new();
    tmp.file("Readme.md", "");
    tmp.file("notes.txt", "");

    let mut nav = open(&tmp.path(), Some("notes.txt"));
    press(&mut nav, '/');
    type_in(&mut nav, "read");

    assert_eq!(selected(&nav), "Readme.md");
}

#[test]
fn a_capital_in_the_search_makes_it_case_sensitive() {
    let tmp = TempDir::new();
    tmp.file("Readme.md", "");
    tmp.file("notes.txt", "");

    let mut nav = open(&tmp.path(), Some("notes.txt"));
    press(&mut nav, '/');
    type_in(&mut nav, "READ");

    assert_eq!(selected(&nav), "notes.txt", "READ should match nothing");
}

#[test]
fn the_search_lights_up_every_match_in_the_listing() {
    let tmp = searchable();

    let mut nav = open(&tmp.path(), None);
    press(&mut nav, '/');
    type_in(&mut nav, "m");

    // Both matching rows, not only the one the cursor landed on.
    assert_eq!(lit(&mut nav, 80, 24), ["m", "m"]);
}

#[test]
fn a_name_matching_twice_is_lit_twice() {
    let tmp = TempDir::new();
    tmp.file("banana.txt", "");

    let mut nav = open(&tmp.path(), None);
    press(&mut nav, '/');
    type_in(&mut nav, "an");

    assert_eq!(lit(&mut nav, 80, 24), ["anan"]);
}

#[test]
fn the_highlight_lands_on_the_match_in_a_name_that_is_not_ascii() {
    let tmp = TempDir::new();
    tmp.file("Ärger.txt", "");

    let mut nav = open(&tmp.path(), None);
    press(&mut nav, '/');
    type_in(&mut nav, "är");

    // Lowering "Ä" could have moved every later byte; the highlight is placed
    // by where the match falls in the name, not in the lowered copy.
    assert_eq!(lit(&mut nav, 80, 24), ["Är"]);
}

#[test]
fn a_row_the_search_jumped_to_is_always_lit() {
    let tmp = TempDir::new();
    // "İ" is the one letter that lowercases into two characters, so a match on
    // the "i" it becomes covers only part of what is on the screen.
    tmp.file("İstanbul.txt", "");
    tmp.file("other.txt", "");

    let mut nav = open(&tmp.path(), Some("other.txt"));
    press(&mut nav, '/');
    type_in(&mut nav, "i");

    assert_eq!(selected(&nav), "İstanbul.txt");
    assert_eq!(lit(&mut nav, 80, 24), ["İ"]);
}

#[test]
fn the_highlight_outlives_the_prompt_and_goes_out_on_escape() {
    let tmp = searchable();

    let mut nav = open(&tmp.path(), None);
    press(&mut nav, '/');
    type_in(&mut nav, "m1");
    key(&mut nav, KeyCode::Enter);
    assert_eq!(lit(&mut nav, 80, 24), ["m1"], "still lit after enter");

    key(&mut nav, KeyCode::Esc);
    assert!(lit(&mut nav, 80, 24).is_empty());
}

#[test]
fn escape_puts_out_the_highlight_before_it_touches_the_marks() {
    let tmp = searchable();

    let mut nav = open(&tmp.path(), None);
    mark(&mut nav, "other.txt");
    press(&mut nav, '/');
    type_in(&mut nav, "m1");
    key(&mut nav, KeyCode::Enter);

    key(&mut nav, KeyCode::Esc);
    assert!(lit(&mut nav, 80, 24).is_empty());
    assert_eq!(nav.marks.len(), 1, "the marks should have survived");

    key(&mut nav, KeyCode::Esc);
    assert!(nav.marks.is_empty());
}

#[test]
fn an_abandoned_search_leaves_nothing_lit() {
    let tmp = searchable();

    let mut nav = open(&tmp.path(), None);
    press(&mut nav, '/');
    type_in(&mut nav, "m1");
    key(&mut nav, KeyCode::Esc);

    assert!(lit(&mut nav, 80, 24).is_empty());
}

#[test]
fn a_search_holding_a_slash_is_not_refused_as_a_name() {
    let tmp = searchable();

    let mut nav = open(&tmp.path(), None);
    press(&mut nav, '/');
    type_in(&mut nav, "src/m1");
    key(&mut nav, KeyCode::Enter);

    assert!(
        matches!(nav.mode, Mode::Normal),
        "a query is not a file name, so the prompt should close"
    );
}

#[test]
fn searching_stages_nothing() {
    let tmp = searchable();

    let mut nav = open(&tmp.path(), None);
    press(&mut nav, '/');
    // Every one of these is a staging key in normal mode.
    type_in(&mut nav, "cmdaAr");
    key(&mut nav, KeyCode::Esc);

    assert!(nav.plan.is_empty());
}

#[test]
fn z_asks_where_to_jump_to() {
    let tmp = TempDir::new();

    let mut nav = open(&tmp.path(), None);
    press(&mut nav, 'z');

    let Mode::Prompt(prompt) = &nav.mode else {
        panic!("z should open a prompt");
    };
    assert_eq!(prompt.label, "jump to");
}

#[test]
fn an_empty_jump_goes_nowhere() {
    let tmp = TempDir::new();

    let mut nav = open(&tmp.path(), None);
    let before = nav.current_dir.clone();
    press(&mut nav, 'z');
    key(&mut nav, KeyCode::Enter);

    assert!(matches!(nav.mode, Mode::Normal));
    assert_eq!(nav.current_dir, before);
}

#[test]
fn a_jump_zoxide_cannot_answer_leaves_you_where_you_are() {
    let tmp = TempDir::new();

    let mut nav = open(&tmp.path(), None);
    let before = nav.current_dir.clone();
    press(&mut nav, 'z');
    // A query is a search, not a name: the slash must reach zoxide instead of
    // being refused as unusable. Nothing is anywhere near this one.
    type_in(&mut nav, "nav/zoxide/no-such-place-4f3c");
    key(&mut nav, KeyCode::Enter);

    assert!(matches!(nav.mode, Mode::Normal), "the prompt should close");
    assert_eq!(nav.current_dir, before);
}

#[test]
fn typing_a_name_does_not_trigger_normal_keys() {
    let tmp = TempDir::new();
    tmp.file("victim.txt", "");

    let mut nav = open(&tmp.path(), Some("victim.txt"));
    press(&mut nav, 'a');
    // Every one of these is a staging key in normal mode.
    type_in(&mut nav, "dcmqp");
    key(&mut nav, KeyCode::Enter);

    assert_eq!(nav.plan.len(), 1);
    assert_eq!(nav.plan.ops().first().unwrap().describe().subject, "dcmqp");
}

#[test]
fn review_only_opens_when_something_is_staged() {
    let tmp = TempDir::new();

    let mut nav = open(&tmp.path(), None);
    press(&mut nav, 'p');

    assert!(matches!(nav.mode, Mode::Normal));
}

#[test]
fn a_source_that_vanished_after_staging_is_blocked_not_attempted() {
    let tmp = TempDir::new();
    let vanishing = tmp.file("vanishing.txt", "");

    let mut nav = open(&tmp.path(), Some("vanishing.txt"));
    press(&mut nav, 'd');
    // Deleted behind the navigator's back, after it was staged.
    vanishing.remove();
    apply(&mut nav);

    assert_eq!(nav.plan.len(), 1, "preflight should refuse the whole plan");
    assert!(nav.plan.iter().first().unwrap().failure.is_none());
}

/// Stages a move into a directory, then deletes that directory. Preflight sees
/// a live source and a free destination, so this only fails once it runs.
fn stage_a_move_that_will_fail(tmp: &TempDir) -> Session {
    tmp.file("mover.txt", "");
    tmp.dir("dest");

    let mut nav = open(&tmp.path(), Some("mover.txt"));
    press(&mut nav, ' ');
    nav.go_to(tmp.path().join("dest")).unwrap();
    press(&mut nav, 'm');
    nav.go_to_parent_directory().unwrap();
    key(&mut nav, KeyCode::Esc);

    tmp.path().join("dest").remove();
    nav
}

#[test]
fn a_failed_operation_stays_staged_with_its_reason() {
    let tmp = TempDir::new();
    let mut nav = stage_a_move_that_will_fail(&tmp);

    apply(&mut nav);

    assert_eq!(nav.plan.len(), 1);
    assert!(
        nav.plan.iter().first().unwrap().failure.is_some(),
        "the reason it failed should be kept for a retry"
    );
}

#[test]
fn one_failure_does_not_stop_the_operations_after_it() {
    let tmp = TempDir::new();
    tmp.file("survivor.txt", "");
    let mut nav = stage_a_move_that_will_fail(&tmp);

    // Staged after the doomed move, so it only runs if the failure is survived.
    nav.selected = index_of(&nav.entries, "survivor.txt").unwrap();
    press(&mut nav, 'd');
    assert_eq!(nav.plan.len(), 2);

    apply(&mut nav);

    assert_eq!(nav.plan.len(), 1, "only the failure should remain");
    assert!(
        !tmp.path().join("survivor.txt").is_there(),
        "the operation after the failure must still have run"
    );
}

#[test]
fn two_entries_of_one_name_cannot_both_land_on_the_same_destination() {
    let tmp = TempDir::new();
    tmp.file("one/notes.txt", "from one");
    tmp.file("two/notes.txt", "from two");
    tmp.dir("dest");

    // Both marks pass preflight: neither destination exists until the other
    // operation has run.
    let mut nav = open(&tmp.path().join("one"), Some("notes.txt"));
    press(&mut nav, ' ');
    nav.go_to(tmp.path().join("two")).unwrap();
    mark(&mut nav, "notes.txt");
    nav.go_to(tmp.path().join("dest")).unwrap();
    press(&mut nav, 'c');
    apply(&mut nav);

    assert_eq!(read(&tmp.path().join("dest/notes.txt")), "from one");
    assert_eq!(
        nav.plan.len(),
        1,
        "the one that could not have its name must stay staged"
    );
    assert!(nav.plan.iter().first().unwrap().failure.is_some());
}

#[test]
fn renaming_in_review_cannot_point_a_trash_at_another_file() {
    let tmp = TempDir::new();
    tmp.file("doomed.txt", "delete me");
    tmp.file("keeper.txt", "keep me");

    let mut nav = open(&tmp.path(), Some("doomed.txt"));
    press(&mut nav, 'd');
    press(&mut nav, 'p');
    press(&mut nav, 'r');

    assert!(
        matches!(nav.mode, Mode::Review),
        "there is no destination to rename, so no prompt should open"
    );

    key(&mut nav, KeyCode::Enter);
    assert!(!tmp.path().join("doomed.txt").is_there());
    assert_eq!(read(&tmp.path().join("keeper.txt")), "keep me");
}

#[test]
fn the_review_cursor_stays_on_screen_when_the_plan_is_long() {
    let tmp = TempDir::new();
    for i in 0..30 {
        tmp.file(&format!("file{i:02}.txt"), "");
    }

    let mut nav = open(&tmp.path(), None);
    for i in 0..30 {
        mark(&mut nav, &format!("file{i:02}.txt"));
    }
    press(&mut nav, 'd');
    press(&mut nav, 'p');
    for _ in 0..29 {
        press(&mut nav, 'j');
    }
    let out = render_to_string(&mut nav, 60, 12);

    // `x` drops the row the cursor is on, so it has to be a row you can see.
    assert!(out.contains("file29.txt"), "in:\n{out}");
    assert!(
        out.lines().any(|line| line.starts_with(CURSOR_BAR)),
        "the cursor scrolled off the screen:\n{out}"
    );
}

#[test]
fn a_prompt_is_visible_with_the_log_panel_open() {
    let tmp = TempDir::new();
    tmp.file("a.txt", "");

    let mut nav = open(&tmp.path(), Some("a.txt"));
    press(&mut nav, 'L');
    press(&mut nav, 'a');
    type_in(&mut nav, "typed.txt");
    let out = render_to_string(&mut nav, 80, 24);

    assert!(out.contains("new file"), "the label is missing in:\n{out}");
    assert!(
        out.contains("typed.txt"),
        "what was typed is hidden in:\n{out}"
    );
}

#[test]
fn a_directory_that_cannot_be_read_does_not_end_the_session() {
    let tmp = TempDir::new();
    let locked = tmp.dir("locked");
    tmp.file("marked.txt", "");
    locked.set_mode(0o000);

    let mut nav = open(&tmp.path(), Some("marked.txt"));
    press(&mut nav, ' ');
    nav.selected = index_of(&nav.entries, "locked").unwrap();
    let outcome = nav.handle_key(bare(KeyCode::Enter));

    locked.set_mode(0o755);

    assert_eq!(
        outcome,
        Outcome::Stay,
        "a directory you cannot read is not a reason to quit"
    );
    assert_eq!(nav.current_dir, tmp.path(), "and it stays where it was");
    assert_eq!(nav.marks.len(), 1, "with the session's work intact");
}

#[test]
fn trashing_the_directory_you_are_standing_in_backs_out_of_it() {
    let tmp = TempDir::new();
    tmp.file("doomed/inside.txt", "");

    let mut nav = open(&tmp.path(), Some("doomed"));
    press(&mut nav, ' ');
    nav.enter_selected().unwrap();
    press(&mut nav, 'd');
    apply(&mut nav);

    assert!(!tmp.path().join("doomed").is_there());
    assert_eq!(
        nav.current_dir,
        tmp.path(),
        "standing in a directory that is gone shows a listing that is a lie"
    );
}

#[test]
fn the_plan_panel_shows_staged_work() {
    let tmp = TempDir::new();
    tmp.file("doomed.txt", "");

    let mut nav = open(&tmp.path(), Some("doomed.txt"));
    press(&mut nav, 'd');
    let out = render_to_string(&mut nav, 80, 24);

    assert!(out.contains("plan (1)"), "in:\n{out}");
    assert!(out.contains("trash"), "in:\n{out}");
}

#[test]
fn the_review_screen_names_what_is_blocked() {
    let tmp = TempDir::new();
    tmp.file("clash.txt", "");
    tmp.file("dest/clash.txt", "");

    let mut nav = open(&tmp.path(), Some("clash.txt"));
    press(&mut nav, ' ');
    nav.go_to(tmp.path().join("dest")).unwrap();
    press(&mut nav, 'c');
    press(&mut nav, 'p');
    let out = render_to_string(&mut nav, 100, 24);

    assert!(out.contains("review"), "in:\n{out}");
    assert!(out.contains("1 blocked"), "in:\n{out}");
    assert!(out.contains("destination already exists"), "in:\n{out}");
}

#[test]
fn marks_are_shown_in_the_listing_and_counted_in_the_status_line() {
    let tmp = TempDir::new();
    tmp.file("marked.txt", "");
    tmp.dir("elsewhere");

    let mut nav = open(&tmp.path(), Some("marked.txt"));
    press(&mut nav, ' ');
    nav.go_to(tmp.path().join("elsewhere")).unwrap();
    let out = render_to_string(&mut nav, 80, 24);

    assert!(out.contains("1 marked (1 elsewhere)"), "in:\n{out}");
}

#[test]
fn moving_stops_at_both_ends_of_the_list() {
    let tmp = TempDir::new();
    tmp.file("a.txt", "");
    tmp.file("b.txt", "");

    let mut nav = open(&tmp.path(), None);

    nav.move_down_by(999);
    assert_eq!(selected(&nav), "b.txt");

    nav.move_up_by(999);
    assert_eq!(selected(&nav), ".");
}

#[test]
fn the_end_of_a_listing_fills_the_screen() {
    let tmp = TempDir::new();
    for i in 0..20 {
        tmp.file(&format!("file{i:02}.txt"), "");
    }

    let mut nav = open(&tmp.path(), Some("file19.txt"));
    let out = render_to_string(&mut nav, 40, 12);

    // The scrolloff would otherwise scroll eight rows past the last entry,
    // leaving most of the screen blank while entries sit above the top.
    assert!(out.contains("file19.txt"), "in:\n{out}");
    assert!(
        out.contains("file11.txt"),
        "half the screen is blank in:\n{out}"
    );
}

#[test]
fn a_letter_held_with_ctrl_is_not_the_letter() {
    let tmp = TempDir::new();
    tmp.file("a.txt", "");

    let mut nav = open(&tmp.path(), Some("a.txt"));
    for c in ['c', 'm', 'd', 'a', 'r', 'y'] {
        nav.handle_key(with_control(KeyCode::Char(c)));
    }

    assert!(nav.plan.is_empty(), "ctrl-c must not stage a copy");
    assert!(matches!(nav.mode, Mode::Normal), "nor open a prompt");
}

#[test]
fn ctrl_and_a_letter_does_not_type_the_letter() {
    let tmp = TempDir::new();

    let mut nav = open(&tmp.path(), None);
    press(&mut nav, 'a');
    type_in(&mut nav, "notes");
    nav.handle_key(with_control(KeyCode::Char('u')));
    type_in(&mut nav, ".txt");
    key(&mut nav, KeyCode::Enter);

    assert_eq!(
        nav.plan.ops().first().unwrap().describe().subject,
        "notes.txt"
    );
}

#[test]
fn escape_from_a_rename_goes_back_to_the_review() {
    let tmp = TempDir::new();
    tmp.file("a.txt", "");
    tmp.dir("dest");

    let mut nav = open(&tmp.path(), Some("a.txt"));
    press(&mut nav, ' ');
    nav.go_to(tmp.path().join("dest")).unwrap();
    press(&mut nav, 'c');
    press(&mut nav, 'p');
    press(&mut nav, 'r');
    key(&mut nav, KeyCode::Esc);

    assert!(
        matches!(nav.mode, Mode::Review),
        "cancelling a rename should not also leave the review"
    );
    assert_eq!(nav.plan.len(), 1);
}

#[test]
fn navigating_away_drops_the_cached_preview() {
    let tmp = TempDir::new();
    tmp.dir("sub");
    tmp.file("a.txt", "");

    let mut nav = open(&tmp.path(), Some("sub"));
    nav.cached_image = None;
    nav.enter_selected().unwrap();

    assert!(nav.cached_image.is_none());
    assert_eq!(nav.scroll_offset, 0);
}

#[test]
fn every_screen_survives_a_terminal_of_any_size() {
    let tmp = TempDir::new();
    for i in 0..20 {
        tmp.file(&format!("file{i:02}.txt"), "");
    }

    // A floating terminal is whatever size the window is, and drawing a row
    // that is not there is a panic rather than a smaller screen.
    for (width, height) in [(1, 1), (2, 2), (4, 3), (12, 5), (200, 1), (3, 40), (80, 24)] {
        let mut nav = open(&tmp.path(), Some("file19.txt"));
        mark(&mut nav, "file01.txt");
        press(&mut nav, 'd');
        render_to_string(&mut nav, width, height);

        press(&mut nav, '/');
        type_in(&mut nav, "file1");
        render_to_string(&mut nav, width, height);
        key(&mut nav, KeyCode::Esc);

        press(&mut nav, 'L');
        render_to_string(&mut nav, width, height);
        press(&mut nav, 'L');

        press(&mut nav, '?');
        render_to_string(&mut nav, width, height);
        press(&mut nav, '?');

        press(&mut nav, 'p');
        render_to_string(&mut nav, width, height);
    }
}

#[test]
fn an_empty_directory_still_lists_the_dots() {
    let tmp = TempDir::new();

    let mut nav = open(&tmp.path(), None);
    let out = render_to_string(&mut nav, 40, 10);

    assert_eq!(nav.entries.len(), 2);
    assert!(out.contains('.'), "missing dot entries in:\n{out}");
}

#[test]
fn a_directory_preview_lists_its_contents() {
    let tmp = TempDir::new();
    tmp.file("sub/nested.txt", "");

    let mut nav = open(&tmp.path(), Some("sub"));
    let out = render_to_string(&mut nav, 80, 24);

    assert!(out.contains("nested.txt"), "missing preview in:\n{out}");
}

#[test]
fn a_binary_file_preview_says_so() {
    let tmp = TempDir::new();
    tmp.file("app.bin", [0x00, 0x01, 0x02, 0x03]);

    let mut nav = open(&tmp.path(), Some("app.bin"));
    let out = render_to_string(&mut nav, 80, 24);

    assert!(out.contains("(binary file)"), "in:\n{out}");
}

#[test]
fn a_broken_image_preview_says_so() {
    let tmp = TempDir::new();
    tmp.file("broken.png", "not actually a png");

    let mut nav = open(&tmp.path(), Some("broken.png"));
    let out = render_to_string(&mut nav, 80, 24);

    assert!(out.contains("(cannot load image)"), "in:\n{out}");
}

fn output(success: bool, stdout: &str) -> Output {
    Output { stdout: stdout.as_bytes().to_vec(), stderr: vec![], success, code: Some(0) }
}

fn said(nav: &Session) -> Vec<&str> {
    nav.told.iter().map(|notice| notice.text.as_str()).collect()
}

#[test]
fn a_file_that_neovim_took_ends_the_session() {
    let tmp = TempDir::new();
    tmp.file("a.txt", "");

    let mut nav = open(&tmp.path(), Some("a.txt"));
    nav.socket = Some("/run/nvim.sock".to_string());
    nav.ran = Ok(output(true, ""));

    assert_eq!(nav.handle_key(bare(KeyCode::Enter)), Outcome::Quit);
    assert_eq!(
        nav.commands,
        [[
            "--server",
            "/run/nvim.sock",
            "--remote-expr",
            "execute('edit ' . fnameescape('/tmp/nav-test/a.txt'))"
        ]]
    );
}

#[test]
fn a_file_that_neovim_refused_keeps_the_session() {
    let tmp = TempDir::new();
    tmp.file("a.txt", "");

    let mut nav = open(&tmp.path(), Some("a.txt"));
    nav.socket = Some("/run/nvim.sock".to_string());
    nav.ran = Ok(output(false, ""));
    assert_eq!(nav.handle_key(bare(KeyCode::Enter)), Outcome::Stay);

    nav.ran = Err(missing());
    assert_eq!(nav.handle_key(bare(KeyCode::Enter)), Outcome::Stay);
    assert!(said(&nav).contains(&"IO: running nvim --server"));
}

#[test]
fn without_neovim_a_file_is_not_opened() {
    let tmp = TempDir::new();
    tmp.file("a.txt", "");

    let mut nav = open(&tmp.path(), Some("a.txt"));

    assert_eq!(nav.handle_key(bare(KeyCode::Enter)), Outcome::Stay);
    assert!(nav.commands.is_empty());
    assert_eq!(said(&nav), ["NVIM is not set - not running inside a neovim terminal"]);
}

#[test]
fn a_jump_goes_where_zoxide_says() {
    let tmp = TempDir::new();
    tmp.file("far/away/inside.txt", "");

    let mut nav = open(&tmp.path(), None);
    nav.ran = Ok(output(true, "/tmp/nav-test/far/away\n"));
    press(&mut nav, 'z');
    type_in(&mut nav, "far aw");
    key(&mut nav, KeyCode::Enter);

    assert_eq!(nav.commands, [["query", "--", "far", "aw"]]);
    assert_eq!(nav.current_dir, tmp.path().join("far/away"));
    assert!(said(&nav).contains(&"Jumping to /tmp/nav-test/far/away"));
}

#[test]
fn a_jump_that_finds_nothing_names_what_was_typed() {
    let tmp = TempDir::new();

    let mut nav = open(&tmp.path(), None);
    nav.ran = Ok(output(false, ""));
    press(&mut nav, 'z');
    type_in(&mut nav, "no \"such\"");
    key(&mut nav, KeyCode::Enter);

    assert!(said(&nav).contains(&"Any: zoxide knows nowhere matching \"no \\\"such\\\"\""));
}

#[test]
fn a_file_is_yanked_whole() {
    let tmp = TempDir::new();
    tmp.file("a.txt", "foo");
    tmp.file("b.bin", [0u8]);

    let mut nav = open(&tmp.path(), Some("a.txt"));
    press(&mut nav, 'y');
    assert_eq!(nav.sent, ["\x1b]52;c;Zm9v\x07"]);
    assert_eq!(said(&nav), ["Copied 3 bytes to the clipboard"]);

    nav.selected = index_of(&nav.entries, "b.bin").unwrap();
    press(&mut nav, 'y');
    assert_eq!(nav.sent.len(), 1);
    assert_eq!(said(&nav), ["Any: b.bin is not a text file"]);
}

#[test]
fn a_cleared_search_is_named() {
    let tmp = searchable();

    let mut nav = open(&tmp.path(), None);
    press(&mut nav, '/');
    type_in(&mut nav, "m1");
    key(&mut nav, KeyCode::Enter);
    key(&mut nav, KeyCode::Esc);

    assert_eq!(said(&nav), ["Cleared the search for \"m1\""]);
}

#[test]
fn the_listing_and_the_preview_keep_to_their_columns() {
    let tmp = TempDir::new();
    tmp.file("a.txt", "preview");

    let mut nav = open(&tmp.path(), Some("a.txt"));
    let out = render_to_string(&mut nav, 100, 24);
    let rows: Vec<Vec<char>> = out.lines().map(|line| line.chars().collect()).collect();

    // The title takes the top row, so the entries start below it.
    assert!(rows[0].iter().collect::<String>().starts_with(" /tmp/nav-test "), "in:\n{out}");
    assert!(rows[1].iter().collect::<String>().contains(" ."), "in:\n{out}");
    assert_eq!(rows[5][39], '│', "in:\n{out}");
    let preview: String = rows[0][41..48].iter().collect();
    assert_eq!(preview, "preview", "in:\n{out}");
    assert_eq!(rows[0][40], ' ');
}

#[test]
fn the_log_is_shown_and_walked() {
    let tmp = TempDir::new();

    let mut nav = open(&tmp.path(), None);
    for i in 0..40 {
        nav.log.log(LogLevel::Info, format!("entry {i:02}"), 0);
    }
    press(&mut nav, 'L');
    let out = render_to_string(&mut nav, 80, 24);
    assert!(out.contains("entry 39"), "in:\n{out}");
    assert!(!out.contains("entry 00"), "in:\n{out}");

    for _ in 0..60 {
        press(&mut nav, 'k');
    }
    let out = render_to_string(&mut nav, 80, 24);
    assert!(out.contains("entry 00"), "in:\n{out}");
}

#[test]
fn the_plan_panel_stops_growing() {
    let tmp = TempDir::new();
    for i in 0..9 {
        tmp.file(&format!("file{i}.txt"), "");
    }

    let mut nav = open(&tmp.path(), None);
    assert_eq!(nav.plan_panel_rows(), 0);
    for i in 0..9 {
        nav.selected = index_of(&nav.entries, &format!("file{i}.txt")).unwrap();
        press(&mut nav, 'd');
        assert_eq!(nav.plan_panel_rows(), (i + 2).min(7) as u16);
    }
}

#[test]
fn the_cursor_is_always_in_sight() {
    let tmp = TempDir::new();
    for i in 0..60 {
        tmp.file(&format!("file{i:02}.txt"), "");
    }

    let mut nav = open(&tmp.path(), None);
    for height in [3, 9, 24] {
        for i in (0..60).chain((0..60).rev()) {
            let name = format!("file{i:02}.txt");
            nav.selected = index_of(&nav.entries, &name).unwrap();
            let buf = nav.draw(80, height);
            let shown = (0..height).any(|y| {
                let row: String = (0..40).map(|x| buf[(x, y)].symbol()).collect();
                row.contains(&name)
            });
            assert!(shown || height < 4, "{name} is out of sight of {height} rows");
        }
    }
}

#[test]
fn a_directory_gone_with_those_above_it_backs_out_to_what_is_left() {
    let tmp = TempDir::new();
    let leaf = tmp.dir("a/b/c");
    tmp.file("x.txt", "");

    let mut nav = open(&tmp.path(), Some("x.txt"));
    press(&mut nav, ' ');
    nav.go_to(leaf.clone()).unwrap();
    press(&mut nav, 'd');
    leaf.remove();
    tmp.path().join("a/b").remove();
    tmp.path().join("a").remove();
    apply(&mut nav);

    assert_eq!(nav.current_dir, tmp.path());
}

#[test]
fn quitting_leaves_the_work_as_it_is() {
    let tmp = TempDir::new();
    tmp.file("a.txt", "");

    let mut nav = open(&tmp.path(), Some("a.txt"));
    press(&mut nav, ' ');
    press(&mut nav, 'd');
    press(&mut nav, 'q');

    assert_eq!(nav.marks.len(), 1);
    assert_eq!(nav.plan.len(), 1);
    assert!(tmp.path().join("a.txt").is_there());
}

#[test]
fn only_the_answer_that_was_asked_for_is_taken() {
    let tmp = TempDir::new();
    tmp.dir("sub");

    let mut nav = open(&tmp.path(), Some("sub"));
    assert!(!nav.nav.expects(&Reply::Socket(None)));

    let step = nav.nav.enter_selected();
    assert!(matches!(step.next, Next::Ask(Request::ListDir(_))));
    assert!(!nav.nav.expects(&Reply::Socket(None)));
    assert!(nav.nav.expects(&Reply::Listed(Ok(vec![]))));
}

#[test]
fn the_page_keys_move_by_more_than_one_row() {
    let tmp = TempDir::new();
    for i in 0..30 {
        tmp.file(&format!("file{i:02}.txt"), "");
    }

    let mut nav = open(&tmp.path(), None);
    press(&mut nav, 'J');
    let after_jump = nav.selected;
    press(&mut nav, 'j');
    assert_eq!(nav.selected, after_jump + 1);
    key(&mut nav, KeyCode::Up);
    key(&mut nav, KeyCode::Down);
    assert_eq!(nav.selected, after_jump + 1);
    press(&mut nav, 'K');
    press(&mut nav, 'k');
    assert_eq!(nav.selected, 0);
}

#[test]
fn the_help_never_leaves_a_key_out() {
    for height in 1..60 {
        let lines: usize = help_columns(height).iter().map(|column| column.len()).sum();
        let keys: usize = help().iter().map(|section| section.keys.len() + 1).sum();
        assert!(lines >= keys, "{lines} of {keys} at {height}");
    }
}

#[test]
fn no_column_of_the_help_is_empty_or_too_tall() {
    for height in 0..60 {
        let columns = help_columns(height);
        assert!(!columns.is_empty(), "at {height}");
        for column in &columns {
            assert!(!column.is_empty() && column.len() <= height.max(1), "at {height}");
        }
    }
}

fn inside(part: Rect, area: Rect) -> bool {
    part.x >= area.x
        && part.y >= area.y
        && part.x + part.width <= area.x + area.width
        && part.y + part.height <= area.y + area.height
}

#[test]
fn the_screen_is_divided_without_gaps_or_overlaps() {
    let tmp = TempDir::new();
    tmp.file("a.txt", "");

    for staged in [false, true] {
        for log in [false, true] {
            let mut nav = open(&tmp.path(), Some("a.txt"));
            if staged {
                press(&mut nav, 'd');
            }
            if log {
                press(&mut nav, 'L');
            }
            for width in 0..120 {
                for height in (0..40).step_by(3) {
                    let area = Rect { x: 3, y: 5, width, height };
                    let Areas::Normal { list, side, plan, bottom } = nav.arrange(area) else {
                        panic!("the listing is shown");
                    };
                    assert!([list, side, plan, bottom].iter().all(|part| inside(*part, area)));
                    assert_eq!((list.x, list.y), (3, 5));
                    if log {
                        assert_eq!(side.y, list.y + list.height);
                        assert!(side.y + side.height <= plan.y);
                    } else {
                        assert_eq!(side.x, list.x + list.width);
                        assert_eq!(plan.y, list.y + list.height);
                    }
                    assert_eq!(bottom.y, plan.y + plan.height);
                }
            }
        }
    }
}

#[test]
fn the_pages_are_divided_from_top_to_bottom() {
    let tmp = TempDir::new();

    let mut nav = open(&tmp.path(), None);
    press(&mut nav, '?');
    for height in 0..60 {
        let area = Rect { x: 0, y: 1, width: 77, height };
        let Areas::Help { title, body, footer, columns } = nav.arrange(area) else {
            panic!("the help is shown");
        };
        assert_eq!(title.y, 1);
        assert_eq!(body.y, title.y + title.height);
        assert_eq!(footer.y, body.y + body.height);
        assert!(inside(footer, area));
        assert_eq!(columns[0].x, 0);
        assert!(columns.windows(2).all(|pair| pair[1].x == pair[0].x + pair[0].width));
        assert!(columns.iter().all(|column| inside(*column, body)));
    }
}

#[test]
fn each_screen_asks_for_its_own_division() {
    let tmp = TempDir::new();
    tmp.file("a.txt", "");
    let area = Rect { x: 0, y: 0, width: 100, height: 24 };

    let mut nav = open(&tmp.path(), Some("a.txt"));
    let cut = nav.frame_cut(area);
    assert_eq!(cut.along, Direction::Down);
    assert_eq!(
        cut.constraints,
        [Constraint::Min(1), Constraint::Length(0), Constraint::Length(2)]
    );
    let across = nav.listing_cut(area);
    assert_eq!(across.along, Direction::Across);
    assert_eq!(across.constraints, [Constraint::Percentage(40), Constraint::Percentage(60)]);
    let halves = parts_of(&across);
    assert_eq!((halves[0].width, halves[1].width), (40, 60));

    press(&mut nav, 'L');
    let down = nav.listing_cut(area);
    assert_eq!(down.along, Direction::Down);
    assert_eq!(down.constraints, [Constraint::Percentage(30), Constraint::Percentage(70)]);

    press(&mut nav, '?');
    assert_eq!(
        nav.frame_cut(area).constraints,
        [Constraint::Length(2), Constraint::Min(1), Constraint::Length(1)]
    );
    assert!(column_cut(area).constraints.len() > 0);
}

#[test]
fn every_part_has_its_place() {
    let part = |y: u16| Rect { x: 0, y, width: 1, height: 1 };
    let chunks = vec![part(0), part(1), part(2)];
    let halves = vec![part(3), part(4)];

    match placed(&chunks, &halves) {
        Areas::Normal { list, side, plan, bottom } => {
            assert_eq!((list.y, side.y, plan.y, bottom.y), (3, 4, 1, 2));
        }
        other => panic!("{other:?}"),
    }
}

#[test]
fn a_warning_of_the_preview_stands_in_the_same_frame() {
    let tmp = TempDir::new();
    tmp.file("liar.png", "just some words");
    let mut nav = open(&tmp.path(), Some("liar.png"));

    let shown = render_to_string(&mut nav, 100, 20);

    assert!(shown.contains("(cannot load image)"), "{shown}");
    let last = shown.trim_end().lines().last().unwrap().to_string();
    assert!(last.contains("decoding"), "{last}");
}

#[test]
fn what_is_said_of_a_preview_is_what_reading_it_says() {
    let tmp = TempDir::new();
    tmp.file("a.txt", "words");
    let nav = open(&tmp.path(), Some("a.txt"));

    assert!(nav.preview_notices(&Preview::Text(Ok(b"words".to_vec()))).is_empty());
    let opening = nav.preview_notices(&Preview::Text(Err(HeadFault::Opening(missing()))));
    assert_eq!(opening.len(), 1);
    assert_eq!(opening[0].level, LogLevel::Warn);
    assert!(opening[0].text.starts_with("IO: opening "), "{}", opening[0].text);
    let reading = nav.preview_notices(&Preview::Text(Err(HeadFault::Reading(missing()))));
    assert!(reading[0].text.starts_with("IO: reading "), "{}", reading[0].text);
    // What was not asked for says nothing.
    assert!(nav.preview_notices(&Preview::Dir(Err(missing()))).is_empty());
    assert!(nav.preview_notices(&Preview::Nothing).is_empty());
}

/// Where a share of `size` cells ends, counted in hundredths first.
fn share(size: u32, part: u32, of: u32) -> u16 {
    let hundredths = (200 * size * part + of) / (2 * of);
    ((hundredths + 50) / 100) as u16
}

#[test]
fn everything_is_in_its_place_where_there_is_room() {
    let tmp = TempDir::new();
    tmp.file("a.txt", "");

    for staged in [0, 2] {
        for log in [false, true] {
            let mut nav = open(&tmp.path(), Some("a.txt"));
            if staged > 0 {
                press(&mut nav, 'd');
            }
            if log {
                press(&mut nav, 'L');
            }
            for width in (0..130).step_by(3).chain([65532]) {
                for height in (staged + 3..60).step_by(4).chain([65530]) {
                    let area = Rect { x: 3, y: 5, width, height };
                    let Areas::Normal { list, side, plan, bottom } = nav.arrange(area) else {
                        panic!("the listing is shown");
                    };
                    let rest = height - staged - 2;
                    let (across, down) = if log {
                        (width, share(rest as u32, 30, 100))
                    } else {
                        (share(width as u32, 40, 100), rest)
                    };
                    assert_eq!(list, Rect { x: 3, y: 5, width: across, height: down });
                    if log {
                        assert_eq!(side, Rect { x: 3, y: 5 + down, width, height: rest - down });
                    } else {
                        let beside = Rect { x: 3 + across, y: 5, width: width - across, height: rest };
                        assert_eq!(side, beside);
                    }
                    assert_eq!(plan, Rect { x: 3, y: 5 + rest, width, height: staged });
                    assert_eq!(bottom, Rect { x: 3, y: 5 + rest + staged, width, height: 2 });
                }
            }
        }
    }
}

#[test]
fn a_page_has_its_title_its_body_and_its_footer() {
    let tmp = TempDir::new();
    let mut nav = open(&tmp.path(), None);
    press(&mut nav, '?');

    for width in (0..200).step_by(9).chain([65535]) {
        for height in (4..50).step_by(5) {
            let area = Rect { x: 0, y: 2, width, height };
            let Areas::Help { title, body, footer, columns } = nav.arrange(area) else {
                panic!("the help is shown");
            };
            assert_eq!(title, Rect { x: 0, y: 2, width, height: 2 });
            assert_eq!(body, Rect { x: 0, y: 4, width, height: height - 3 });
            assert_eq!(footer, Rect { x: 0, y: height + 1, width, height: 1 });
            let count = columns.len() as u32;
            for (i, column) in columns.iter().enumerate() {
                let left = share(width as u32, i as u32, count);
                let right = share(width as u32, i as u32 + 1, count);
                assert_eq!((column.x, column.width), (left, right - left), "{count} in {width}");
            }
        }
    }
}

#[test]
fn shares_and_cells_are_as_asked() {
    for count in [1u32, 2, 3, 5, 7, 8, 16] {
        for size in (0u16..120).step_by(7).chain([1999, 65535]) {
            let area = Rect { x: 0, y: 0, width: size, height: 1 };
            let constraints = (0..count).map(|_| Constraint::Ratio(1, count)).collect();
            let parts = parts_of(&Cut { area, along: Direction::Across, constraints });
            for (i, part) in parts.iter().enumerate() {
                let left = share(size as u32, i as u32, count);
                let right = share(size as u32, i as u32 + 1, count);
                assert_eq!((part.x, part.width), (left, right - left), "{count} in {size}");
            }
        }
    }
    for first in (0u16..=100).step_by(5).chain([33, 57]) {
        for size in (0u16..150).step_by(7).chain([65535]) {
            let area = Rect { x: 0, y: 0, width: 1, height: size };
            let constraints =
                vec![Constraint::Percentage(first), Constraint::Percentage(100 - first)];
            let parts = parts_of(&Cut { area, along: Direction::Down, constraints });
            let edge = share(size as u32, first as u32, 100);
            assert_eq!((parts[0].y, parts[0].height), (0, edge), "{first} of {size}");
            assert_eq!((parts[1].y, parts[1].height), (edge, size - edge), "{first} of {size}");
        }
    }
    let area = Rect { x: 10, y: 0, width: 30, height: 1 };
    let constraints = vec![
        Constraint::Length(4),
        Constraint::Length(0),
        Constraint::Min(11),
        Constraint::Length(15),
    ];
    let parts = parts_of(&Cut { area, along: Direction::Across, constraints });
    let widths: Vec<u16> = parts.iter().map(|part| part.width).collect();
    assert_eq!(widths, [4, 0, 11, 15]);
    assert_eq!(parts[3].x + parts[3].width, 40);
}
