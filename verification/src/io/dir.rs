//! Directory listings.
use crate::error::{self, Errx, ErrxView, Fault, FaultView, Resultx};
use crate::logging::store::LogLevel;
use crate::notice::{self, say, Notice, NoticeView};
use crate::path::{self, sort_bytes, FilePath, Sorted};
use crate::text::{self, cat, cat3, lossy};
use vstd::prelude::*;
use vstd::string::StringExecFns;

verus! {

broadcast use {
    vstd::seq::group_seq_axioms,
    vstd::seq_lib::group_seq_properties,
    vstd::seq_lib::group_to_multiset_ensures,
    vstd::multiset::group_multiset_axioms,
};

#[derive(Debug)]
pub struct DirEntry {
    pub name: String,
    pub is_dir: bool,
}

/// An entry over its name.
pub struct EntryView {
    pub name: Seq<char>,
    pub is_dir: bool,
}

impl View for DirEntry {
    type V = EntryView;

    open spec fn view(&self) -> EntryView {
        EntryView { name: self.name@, is_dir: self.is_dir }
    }
}

impl Clone for DirEntry {
    fn clone(&self) -> (copy: Self)
        ensures
            copy@ == self@,
    {
        DirEntry { name: self.name.clone(), is_dir: self.is_dir }
    }
}

impl PartialEq for DirEntry {
    fn eq(&self, other: &Self) -> (same: bool) {
        self.name == other.name && self.is_dir == other.is_dir
    }
}

impl vstd::std_specs::cmp::PartialEqSpecImpl for DirEntry {
    open spec fn obeys_eq_spec() -> bool {
        true
    }

    open spec fn eq_spec(&self, other: &Self) -> bool {
        self@ == other@
    }
}

/// The entries over their names.
pub open spec fn entry_views(entries: Seq<DirEntry>) -> Seq<EntryView> {
    Seq::new(entries.len(), |i: int| entries[i]@)
}

/// What kind of thing an entry is, links not followed.
#[derive(Debug, Clone, Copy)]
pub struct FileType {
    pub symlink: bool,
    pub dir: bool,
}

/// An entry as the filesystem gives it.
#[derive(Debug)]
pub struct RawEntry {
    pub name: Vec<u8>,
    /// What kind of thing it is, when that could be read.
    pub file_type: Option<FileType>,
    /// Whether a directory is found there, links followed.
    pub leads_to_dir: bool,
}

/// An entry as the filesystem gives it, over its name.
pub struct RawView {
    pub name: Seq<u8>,
    pub file_type: Option<FileType>,
    pub leads_to_dir: bool,
}

impl View for RawEntry {
    type V = RawView;

    open spec fn view(&self) -> RawView {
        RawView {
            name: self.name@,
            file_type: self.file_type,
            leads_to_dir: self.leads_to_dir,
        }
    }
}

/// What came back when a directory was read: its entries, `None` for one that
/// could not be read, or the fault that kept it from being read at all.
pub type RawListing = Result<Vec<Option<RawEntry>>, Fault>;

/// What came back, over the names.
pub type RawListingView = Result<Seq<Option<RawView>>, FaultView>;

pub open spec fn raw_views(found: Seq<Option<RawEntry>>) -> Seq<Option<RawView>> {
    Seq::new(
        found.len(),
        |i: int|
            match found[i] {
                Some(raw) => Some(raw@),
                None => None,
            },
    )
}

pub open spec fn raw_listing_view(answer: RawListing) -> RawListingView {
    match answer {
        Ok(found) => Ok(raw_views(found@)),
        Err(fault) => Err(fault@),
    }
}

/// A directory's listing over its names.
pub open spec fn listing_view(listing: Resultx<Vec<DirEntry>>) -> Result<
    Seq<EntryView>,
    ErrxView,
> {
    match listing {
        Ok(entries) => Ok(entry_views(entries@)),
        Err(errx) => Err(errx@),
    }
}

/// Whether an entry leads to a directory. The kind of thing it is does not follow
/// links, so a link to a directory would look like a file and refuse to open.
pub open spec fn leads_to_dir(raw: RawView) -> bool {
    match raw.file_type {
        Some(file_type) => if file_type.symlink {
            raw.leads_to_dir
        } else {
            file_type.dir
        },
        None => false,
    }
}

/// The entries that could be read, in the order they came.
pub open spec fn readable(found: Seq<Option<RawView>>) -> Seq<EntryView>
    decreases found.len(),
{
    if found.len() == 0 {
        Seq::empty()
    } else {
        let rest = readable(found.drop_last());
        match found.last() {
            Some(raw) => rest.push(
                EntryView { name: text::lossy_text(raw.name), is_dir: leads_to_dir(raw) },
            ),
            None => rest,
        }
    }
}

/// Whether `a` may stand before `b` in a listing: directories first, and
/// alphabetical within each group.
pub open spec fn may_precede(a: EntryView, b: EntryView) -> bool {
    if a.is_dir != b.is_dir {
        a.is_dir
    } else {
        a.name == b.name || path::bytes_before(
            vstd::utf8::encode_utf8(a.name),
            vstd::utf8::encode_utf8(b.name),
        )
    }
}

/// The order of a listing.
pub open spec fn listing_order() -> spec_fn(EntryView, EntryView) -> bool {
    |a: EntryView, b: EntryView| may_precede(a, b)
}

/// A directory's listing: the entries that could be read, directories first and
/// alphabetical within each group.
pub open spec fn listing(path: Seq<u8>, answer: RawListingView) -> Result<
    Seq<EntryView>,
    ErrxView,
> {
    match answer {
        Ok(found) => Ok(readable(found).sort_by(listing_order())),
        Err(fault) => Err(error::io_error(fault, "reading "@ + text::lossy_text(path))),
    }
}

/// What is said when a directory has been read.
pub open spec fn listing_told(path: Seq<u8>, answer: RawListingView) -> Seq<NoticeView> {
    let reading = notice::debug("Reading directory: "@ + text::lossy_text(path));
    match answer {
        Ok(_) => seq![reading],
        Err(fault) => seq![
            reading,
            notice::error(
                "Failed to read directory "@ + text::lossy_text(path) + ": "@ + fault.text,
            ),
        ],
    }
}

/// The two entries every listing starts with.
pub open spec fn dots() -> Seq<EntryView> {
    seq![EntryView { name: "."@, is_dir: true }, EntryView { name: ".."@, is_dir: true }]
}

/// A listing with the two navigation entries in front.
pub open spec fn dotted_listing(path: Seq<u8>, answer: RawListingView) -> Result<
    Seq<EntryView>,
    ErrxView,
> {
    match listing(path, answer) {
        Ok(entries) => Ok(dots() + entries),
        Err(errx) => Err(errx),
    }
}

/// The order of a listing leaves no two different entries unordered.
pub proof fn lemma_listing_order()
    ensures
        vstd::relations::total_ordering(listing_order()),
{
    let order = listing_order();
    assert forall|a: EntryView, b: EntryView| #[trigger] order(a, b) && #[trigger] order(
        b,
        a,
    ) implies a == b by {
        if a.name != b.name {
            path::lemma_bytes_before_strict(
                vstd::utf8::encode_utf8(a.name),
                vstd::utf8::encode_utf8(b.name),
            );
        }
    }
    assert forall|a: EntryView, b: EntryView, c: EntryView| #[trigger] order(a, b)
        && #[trigger] order(b, c) implies order(a, c) by {
        if a.is_dir == b.is_dir && b.is_dir == c.is_dir && a.name != b.name && b.name != c.name {
            path::lemma_bytes_before_transitive(
                vstd::utf8::encode_utf8(a.name),
                vstd::utf8::encode_utf8(b.name),
                vstd::utf8::encode_utf8(c.name),
            );
        }
    }
    assert forall|a: EntryView, b: EntryView| #[trigger] order(a, b) || #[trigger] order(b, a) by {
        lemma_one_precedes(a, b);
    }
}

proof fn lemma_one_precedes(a: EntryView, b: EntryView)
    ensures
        may_precede(a, b) || may_precede(b, a),
{
    let coded_a = vstd::utf8::encode_utf8(a.name);
    let coded_b = vstd::utf8::encode_utf8(b.name);
    if a.is_dir == b.is_dir && a.name != b.name {
        vstd::utf8::encode_utf8_decode_utf8(a.name);
        vstd::utf8::encode_utf8_decode_utf8(b.name);
        assert(coded_a != coded_b);
        path::lemma_bytes_before_total(coded_a, coded_b, 0);
    }
}

/// `may_precede` one way round or the other.
pub open spec fn ordered(ascending: bool, a: EntryView, b: EntryView) -> bool {
    if ascending {
        may_precede(a, b)
    } else {
        may_precede(b, a)
    }
}

/// All of `entries` in order, one way round or the other.
pub open spec fn all_ordered(ascending: bool, entries: Seq<EntryView>) -> bool {
    forall|i: int, j: int|
        0 <= i < j < entries.len() ==> ordered(
            ascending,
            #[trigger] entries[i],
            #[trigger] entries[j],
        )
}

/// Whether `a` may stand before `b` in a listing.
fn precedes(a: &DirEntry, b: &DirEntry) -> (may: bool)
    ensures
        may == may_precede(a@, b@),
{
    if a.is_dir != b.is_dir {
        return a.is_dir;
    }
    match sort_bytes(a.name.as_str().as_bytes(), b.name.as_str().as_bytes()) {
        Sorted::Before => true,
        Sorted::Same => {
            proof {
                vstd::utf8::encode_utf8_decode_utf8(a.name@);
                vstd::utf8::encode_utf8_decode_utf8(b.name@);
            }
            true
        },
        Sorted::After => {
            proof {
                path::lemma_bytes_before_strict(
                    vstd::utf8::encode_utf8(b.name@),
                    vstd::utf8::encode_utf8(a.name@),
                );
            }
            false
        },
    }
}

/// Puts two lists that are in one order together into one that is in the other.
fn merged(left: Vec<DirEntry>, right: Vec<DirEntry>, ascending: bool) -> (all: Vec<DirEntry>)
    requires
        all_ordered(!ascending, entry_views(left@)),
        all_ordered(!ascending, entry_views(right@)),
    ensures
        all_ordered(ascending, entry_views(all@)),
        entry_views(all@).to_multiset() == entry_views(left@).to_multiset().add(
            entry_views(right@).to_multiset(),
        ),
{
    let mut left = left;
    let mut right = right;
    let mut all: Vec<DirEntry> = Vec::new();
    let ghost total = entry_views(left@).to_multiset().add(entry_views(right@).to_multiset());
    proof {
        assert(entry_views(all@) =~= Seq::empty());
    }
    while left.len() > 0 || right.len() > 0
        invariant
            all_ordered(!ascending, entry_views(left@)),
            all_ordered(!ascending, entry_views(right@)),
            all_ordered(ascending, entry_views(all@)),
            forall|i: int, k: int|
                0 <= i < all@.len() && 0 <= k < left@.len() ==> ordered(
                    ascending,
                    #[trigger] entry_views(all@)[i],
                    #[trigger] entry_views(left@)[k],
                ),
            forall|i: int, k: int|
                0 <= i < all@.len() && 0 <= k < right@.len() ==> ordered(
                    ascending,
                    #[trigger] entry_views(all@)[i],
                    #[trigger] entry_views(right@)[k],
                ),
            total == entry_views(all@).to_multiset().add(
                entry_views(left@).to_multiset().add(entry_views(right@).to_multiset()),
            ),
        decreases left.len() + right.len(),
    {
        let ghost left_before = entry_views(left@);
        let ghost right_before = entry_views(right@);
        let ghost before = entry_views(all@);
        let from_left = if left.len() == 0 {
            false
        } else if right.len() == 0 {
            true
        } else {
            let a = &left[left.len() - 1];
            let b = &right[right.len() - 1];
            if ascending {
                precedes(a, b)
            } else {
                precedes(b, a)
            }
        };
        proof {
            if left_before.len() > 0 && right_before.len() > 0 {
                lemma_one_precedes(left_before.last(), right_before.last());
                if from_left {
                    lemma_last_is_first(ascending, right_before, left_before.last());
                } else {
                    lemma_last_is_first(ascending, left_before, right_before.last());
                }
            }
        }
        let next = if from_left {
            left.pop()
        } else {
            right.pop()
        };
        match next {
            Some(entry) => {
                let ghost one = entry@;
                all.push(entry);
                proof {
                    assert(entry_views(all@) =~= before.push(one));
                    if from_left {
                        assert(left_before.last() == one);
                        assert(entry_views(left@) =~= left_before.drop_last());
                        assert(left_before =~= entry_views(left@).push(one));
                    } else {
                        assert(right_before.last() == one);
                        assert(entry_views(right@) =~= right_before.drop_last());
                        assert(right_before =~= entry_views(right@).push(one));
                    }
                    assert(entry_views(all@).to_multiset().add(
                        entry_views(left@).to_multiset().add(entry_views(right@).to_multiset()),
                    ) =~= total);
                }
            },
            None => {},
        }
    }
    proof {
        assert(entry_views(left@) =~= Seq::empty());
        assert(entry_views(right@) =~= Seq::empty());
        assert(entry_views(all@).to_multiset() =~= total);
    }
    all
}

/// What goes before the end of a list in the other order goes before all of it.
proof fn lemma_last_is_first(ascending: bool, entries: Seq<EntryView>, one: EntryView)
    requires
        all_ordered(!ascending, entries),
        entries.len() > 0,
        ordered(ascending, one, entries.last()),
    ensures
        forall|k: int| 0 <= k < entries.len() ==> ordered(ascending, one, #[trigger] entries[k]),
{
    let order = listing_order();
    lemma_listing_order();
    assert forall|k: int| 0 <= k < entries.len() implies ordered(
        ascending,
        one,
        #[trigger] entries[k],
    ) by {
        let end = entries.len() - 1;
        if k < end {
            assert(ordered(!ascending, entries[k], entries[end]));
            if ascending {
                assert(order(one, entries[end]) && order(entries[end], entries[k]));
                assert(order(one, entries[k]));
            } else {
                assert(order(entries[k], entries[end]) && order(entries[end], one));
                assert(order(entries[k], one));
            }
        }
    }
}

/// The entries in order, one way round or the other.
fn arranged(entries: Vec<DirEntry>, ascending: bool) -> (all: Vec<DirEntry>)
    ensures
        all_ordered(ascending, entry_views(all@)),
        entry_views(all@).to_multiset() == entry_views(entries@).to_multiset(),
    decreases entries@.len(),
{
    if entries.len() < 2 {
        return entries;
    }
    let mut left = entries;
    let ghost whole = entry_views(left@);
    let middle: usize = left.len() / 2;
    let right = left.split_off(middle);
    proof {
        assert(entry_views(left@) + entry_views(right@) =~= whole);
        vstd::seq_lib::lemma_multiset_commutative(entry_views(left@), entry_views(right@));
    }
    let left = arranged(left, !ascending);
    let right = arranged(right, !ascending);
    merged(left, right, ascending)
}

/// Whether an entry leads to a directory.
fn is_dir(raw: &RawEntry) -> (is: bool)
    ensures
        is == leads_to_dir(raw@),
{
    match raw.file_type {
        Some(file_type) => {
            if file_type.symlink {
                raw.leads_to_dir
            } else {
                file_type.dir
            }
        },
        None => false,
    }
}

/// The absolute, symlink-free form of `path`, where the filesystem gave one.
///
/// Navigation needs this: a relative path runs out of components immediately, so
/// `.` has no parent to go up to.
pub fn resolve(path: &FilePath, answer: Result<FilePath, Fault>) -> (resolved: Resultx<FilePath>)
    ensures
        match (answer, resolved) {
            (Ok(found), Ok(given)) => given@ == found@,
            (Err(fault), Err(errx)) => {
                &&& errx@ == error::io_error(fault@, "resolving "@ + text::lossy_text(path@))
                &&& errx.traced()
            },
            _ => false,
        },
{
    match answer {
        Ok(found) => Ok(found),
        Err(fault) => Err(Errx::e_io(fault, cat("resolving ", path.display().as_str()))),
    }
}

/// Says that a directory has been read, and whether that failed.
pub fn say_listing(path: &FilePath, answer: &RawListing, notices: &mut Vec<Notice>)
    ensures
        notice::notice_views(final(notices)@) == notice::notice_views(old(notices)@)
            + listing_told(path@, raw_listing_view(*answer)),
{
    let ghost told = notice::notice_views(notices@);
    let shown = path.display();
    say(notices, LogLevel::Debug, cat("Reading directory: ", shown.as_str()));
    if let Err(fault) = answer {
        let mut text = cat3("Failed to read directory ", shown.as_str(), ": ");
        text.append(fault.text.as_str());
        say(notices, LogLevel::Error, text);
    }
    proof {
        assert(notice::notice_views(notices@) =~= told + listing_told(
            path@,
            raw_listing_view(*answer),
        ));
    }
}

/// Directory listing, directories first and alphabetical within each group.
///
/// Entries that cannot be read are skipped rather than failing the whole listing.
pub fn read_dir(path: &FilePath, answer: RawListing, notices: &mut Vec<Notice>) -> (found: Resultx<
    Vec<DirEntry>,
>)
    ensures
        listing_view(found) == listing(path@, raw_listing_view(answer)),
        notice::notice_views(final(notices)@) == notice::notice_views(old(notices)@)
            + listing_told(path@, raw_listing_view(answer)),
        found matches Err(errx) ==> errx.traced(),
{
    say_listing(path, &answer, notices);
    listed(path, answer)
}

/// The listing that [`read_dir`] gives, with nothing said.
pub fn listed(path: &FilePath, answer: RawListing) -> (found: Resultx<Vec<DirEntry>>)
    ensures
        listing_view(found) == listing(path@, raw_listing_view(answer)),
        found matches Err(errx) ==> errx.traced(),
{
    match answer {
        Err(fault) => Err(Errx::e_io(fault, cat("reading ", path.display().as_str()))),
        Ok(found) => {
            let ghost raws = raw_views(found@);
            let mut entries: Vec<DirEntry> = Vec::new();
            let mut i: usize = 0;
            proof {
                assert(entry_views(entries@) =~= readable(raws.take(0)));
            }
            while i < found.len()
                invariant
                    i <= found@.len() == raws.len(),
                    raws == raw_views(found@),
                    entry_views(entries@) == readable(raws.take(i as int)),
                decreases found.len() - i,
            {
                let ghost before = entry_views(entries@);
                proof {
                    assert(raws.take(i as int + 1).drop_last() =~= raws.take(i as int));
                }
                match &found[i] {
                    Some(raw) => {
                        let entry = DirEntry {
                            name: lossy(raw.name.as_slice()),
                            is_dir: is_dir(raw),
                        };
                        let ghost one = entry@;
                        entries.push(entry);
                        proof {
                            assert(entry_views(entries@) =~= before.push(one));
                        }
                    },
                    None => {},
                }
                i = i + 1;
            }
            proof {
                assert(raws.take(i as int) =~= raws);
            }
            let ghost unordered = entry_views(entries@);
            let entries = arranged(entries, true);
            proof {
                let order = listing_order();
                lemma_listing_order();
                unordered.lemma_sort_by_ensures(order);
                assert(vstd::relations::sorted_by(entry_views(entries@), order)) by {
                    assert forall|i: int, j: int|
                        0 <= i < j < entry_views(entries@).len() implies #[trigger] order(
                        entry_views(entries@)[i],
                        entry_views(entries@)[j],
                    ) by {
                        assert(ordered(true, entry_views(entries@)[i], entry_views(entries@)[j]));
                    }
                }
                vstd::seq_lib::lemma_sorted_unique(
                    entry_views(entries@),
                    unordered.sort_by(order),
                    order,
                );
            }
            Ok(entries)
        },
    }
}

/// [`read_dir`] prefixed with the `.` and `..` navigation entries.
pub fn read_dir_with_dots(
    path: &FilePath,
    answer: RawListing,
    notices: &mut Vec<Notice>,
) -> (found: Resultx<Vec<DirEntry>>)
    ensures
        listing_view(found) == dotted_listing(path@, raw_listing_view(answer)),
        notice::notice_views(final(notices)@) == notice::notice_views(old(notices)@)
            + listing_told(path@, raw_listing_view(answer)),
        found matches Err(errx) ==> errx.traced(),
{
    match read_dir(path, answer, notices) {
        Err(errx) => Err(errx),
        Ok(listed) => {
            let mut listed = listed;
            let mut entries: Vec<DirEntry> = Vec::new();
            entries.push(DirEntry { name: ".".to_owned(), is_dir: true });
            entries.push(DirEntry { name: "..".to_owned(), is_dir: true });
            let ghost below = entry_views(listed@);
            entries.append(&mut listed);
            proof {
                assert(entry_views(entries@) =~= dots() + below);
            }
            Ok(entries)
        },
    }
}

} // verus!
