//! The file picker: which entries of a directory are offered to the web client,
//! and in which form.

use vstd::prelude::*;

use crate::json;
use crate::json::{
    bool_field, json_array, json_number, json_object, json_text, new_entries, new_items, push_item,
    put, Json, JsonTree,
};
use crate::remote::listing_order;
use crate::remote::listing_order::{listing_order, KeyView, SortKey};
use crate::selection;
use crate::text;
use crate::text::{
    chars_of, joined, split, starts_with, text_eq, text_of, to_ascii_lowercase, trim,
};

verus! {

/// What is to be picked.
#[derive(Debug, Clone, Copy, PartialEq, Eq, Structural)]
pub enum WebFilePickerMode {
    Directory,
    File,
}

/// What an entry of a directory is.
#[derive(Debug, Clone, Copy, PartialEq, Eq, Structural)]
pub enum WebFilePickerEntryKind {
    Directory,
    File,
}

/// What the file system says of the type of an entry.
#[derive(Debug, Clone, Copy, PartialEq, Eq, Structural)]
pub enum EntryType {
    Directory,
    File,
    Symlink,
    Other,
    Unknown,
}

/// What the file system says further of an entry.
#[derive(Debug, Clone, Copy, PartialEq, Eq, Structural)]
pub struct EntryMetadata {
    pub is_dir: bool,
    pub is_file: bool,
    pub len: u64,
}

/// An entry as the file system has it.
pub struct DirectoryEntry {
    pub entry_type: EntryType,
    pub metadata: Option<EntryMetadata>,
    pub name: String,
    pub path: String,
}

/// What came of reading a directory: the reason why it could not be opened or
/// read, or its entries, where one that could not be read is missing.
pub enum Listing {
    CannotOpen(String),
    NotADirectory,
    CannotRead(String),
    Entries(Vec<Option<DirectoryEntry>>),
}

/// A directory that was looked at.
pub struct Directory {
    pub path: String,
    pub parent: Option<String>,
    pub listing: Listing,
}

/// An entry that is offered.
#[derive(Debug)]
pub struct WebFilePickerEntry {
    pub hidden: bool,
    pub kind: WebFilePickerEntryKind,
    pub name: String,
    pub path: String,
    pub size_bytes: Option<u64>,
}

/// The mathematical view of an entry that is offered.
#[verifier::ext_equal]
pub struct EntryView {
    pub hidden: bool,
    pub kind: WebFilePickerEntryKind,
    pub name: Seq<char>,
    pub path: Seq<char>,
    pub size_bytes: Option<u64>,
}

impl View for WebFilePickerEntry {
    type V = EntryView;

    open spec fn view(&self) -> EntryView {
        EntryView {
            hidden: self.hidden,
            kind: self.kind,
            name: self.name@,
            path: self.path@,
            size_bytes: self.size_bytes,
        }
    }
}

/// The views of some entries.
pub open spec fn entry_views(entries: Seq<WebFilePickerEntry>) -> Seq<EntryView> {
    entries.map_values(|entry: WebFilePickerEntry| entry@)
}

/// What `str::to_lowercase` makes of a text that is not ASCII.
pub uninterp spec fn unicode_lowered(s: Seq<char>) -> Seq<char>;

/// A text in small letters.
pub open spec fn lowered(s: Seq<char>) -> Seq<char> {
    if vstd::utf8::is_ascii_chars(s) {
        text::ascii_lowered(s)
    } else {
        unicode_lowered(s)
    }
}

/// Calls `str::to_lowercase`: an ASCII text has its capital letters replaced. What
/// becomes of another text is only named here.
#[verifier::external_body]
fn lowercase(s: &str) -> (r: String)
    ensures
        vstd::utf8::is_ascii_chars(s@) ==> r@ == text::ascii_lowered(s@),
        !vstd::utf8::is_ascii_chars(s@) ==> r@ == unicode_lowered(s@),
{
    s.to_lowercase()
}

/// What is to be picked according to a message.
pub open spec fn message_mode(message: JsonTree) -> WebFilePickerMode {
    if json::text_field(message, "mode"@) == Some("file"@) {
        WebFilePickerMode::File
    } else {
        WebFilePickerMode::Directory
    }
}

impl WebFilePickerMode {
    /// What is to be picked according to a message.
    pub fn from_message(message: &Json) -> (r: WebFilePickerMode)
        ensures
            r == message_mode(message@),
    {
        match message.get_str("mode") {
            Some(mode) => if text_eq(mode, "file") {
                WebFilePickerMode::File
            } else {
                WebFilePickerMode::Directory
            },
            None => WebFilePickerMode::Directory,
        }
    }
}

/// The name of a kind.
pub open spec fn kind_text(kind: WebFilePickerEntryKind) -> Seq<char> {
    match kind {
        WebFilePickerEntryKind::Directory => "directory"@,
        WebFilePickerEntryKind::File => "file"@,
    }
}

/// The place of a kind among the kinds.
pub open spec fn kind_rank(kind: WebFilePickerEntryKind) -> u8 {
    match kind {
        WebFilePickerEntryKind::Directory => 0,
        WebFilePickerEntryKind::File => 1,
    }
}

impl WebFilePickerEntryKind {
    /// The name of a kind.
    pub fn as_str(self) -> (r: &'static str)
        ensures
            r@ == kind_text(self),
    {
        match self {
            WebFilePickerEntryKind::Directory => "directory",
            WebFilePickerEntryKind::File => "file",
        }
    }

    /// The place of a kind among the kinds.
    pub fn sort_rank(self) -> (r: u8)
        ensures
            r == kind_rank(self),
    {
        match self {
            WebFilePickerEntryKind::Directory => 0,
            WebFilePickerEntryKind::File => 1,
        }
    }
}

/// What an entry is, and how large, as far as the file system says. A symbolic
/// link is what the file system says further of it.
pub open spec fn entry_kind(entry_type: EntryType, metadata: Option<EntryMetadata>) -> Option<
    (WebFilePickerEntryKind, Option<u64>),
> {
    match entry_type {
        EntryType::Directory => Some((WebFilePickerEntryKind::Directory, None)),
        EntryType::File => Some(
            (
                WebFilePickerEntryKind::File,
                match metadata {
                    Some(found) => Some(found.len),
                    None => None,
                },
            ),
        ),
        EntryType::Symlink => match metadata {
            Some(found) => if found.is_dir {
                Some((WebFilePickerEntryKind::Directory, None))
            } else if found.is_file {
                Some((WebFilePickerEntryKind::File, Some(found.len)))
            } else {
                None
            },
            None => None,
        },
        _ => None,
    }
}

/// What an entry is, and how large.
pub fn web_file_picker_entry_kind(entry: &DirectoryEntry) -> (r: Option<
    (WebFilePickerEntryKind, Option<u64>),
>)
    ensures
        r == entry_kind(entry.entry_type, entry.metadata),
{
    match entry.entry_type {
        EntryType::Directory => Some((WebFilePickerEntryKind::Directory, None)),
        EntryType::File => {
            let size_bytes = match entry.metadata {
                Some(metadata) => Some(metadata.len),
                None => None,
            };
            Some((WebFilePickerEntryKind::File, size_bytes))
        },
        EntryType::Symlink => match entry.metadata {
            Some(metadata) => {
                if metadata.is_dir {
                    Some((WebFilePickerEntryKind::Directory, None))
                } else if metadata.is_file {
                    Some((WebFilePickerEntryKind::File, Some(metadata.len)))
                } else {
                    None
                }
            },
            None => None,
        },
        _ => None,
    }
}

/// The last of the pieces of a path between its slashes, where empty ones and those
/// that are a dot do not count; none where there is no other, or where it leads to
/// the parent directory.
pub open spec fn last_name(pieces: Seq<Seq<char>>) -> Option<Seq<char>>
    decreases pieces.len(),
{
    if pieces.len() == 0 {
        None
    } else if pieces.last().len() == 0 || pieces.last() == "."@ {
        last_name(pieces.drop_last())
    } else if pieces.last() == ".."@ {
        None
    } else {
        Some(pieces.last())
    }
}

/// The file name at the end of a path.
pub open spec fn file_name(path: Seq<char>) -> Option<Seq<char>> {
    last_name(text::split_on(path, '/'))
}

/// The extension of a path: what stands behind the last dot of its file name, where
/// something stands before that dot.
pub open spec fn extension(path: Seq<char>) -> Option<Seq<char>> {
    match file_name(path) {
        Some(name) => if exists|i: int| is_last_dot(name, i) {
            Some(name.skip((choose|i: int| is_last_dot(name, i)) + 1))
        } else {
            None
        },
        None => None,
    }
}

/// The last dot of a file name stands at `i`, and not at its start.
pub open spec fn is_last_dot(name: Seq<char>, i: int) -> bool {
    &&& 0 < i < name.len()
    &&& name[i] == '.'
    &&& forall|j: int| i < j < name.len() ==> name[j] != '.'
}

/// The extensions of images.
pub open spec fn is_image_extension(s: Seq<char>) -> bool {
    ||| s == "avif"@
    ||| s == "bmp"@
    ||| s == "gif"@
    ||| s == "heic"@
    ||| s == "heif"@
    ||| s == "jpeg"@
    ||| s == "jpg"@
    ||| s == "png"@
    ||| s == "svg"@
    ||| s == "tif"@
    ||| s == "tiff"@
    ||| s == "webp"@
}

/// A path of an image.
pub open spec fn is_image(path: Seq<char>) -> bool {
    extension(path) matches Some(s) && is_image_extension(text::ascii_lowered(s))
}

proof fn lemma_extension(path: Seq<char>, name: Seq<char>, dot: int)
    requires
        file_name(path) == Some(name),
        is_last_dot(name, dot),
    ensures
        extension(path) == Some(name.skip(dot + 1)),
{
    let found = file_name(path)->Some_0;
    let i = choose|i: int| is_last_dot(found, i);
    assert(is_last_dot(found, dot));
    assert(i == dot) by {
        if i < dot {
            assert(name[dot] != '.');
        } else if i > dot {
            assert(name[i] != '.');
        }
    }
}

/// The file name at the end of a path.
fn path_file_name(path: &str) -> (r: Option<String>)
    ensures
        text::opt_string(r) == file_name(path@),
{
    let pieces = split(path, '/');
    let mut end: usize = pieces.len();
    proof {
        assert(text::texts(pieces@).take(end as int) =~= text::texts(pieces@));
    }
    while 0 < end
        invariant
            end <= pieces.len(),
            text::texts(pieces@) == text::split_on(path@, '/'),
            file_name(path@) == last_name(text::texts(pieces@).take(end as int)),
        decreases end,
    {
        let piece = pieces[end - 1].as_str();
        proof {
            let start = text::texts(pieces@).take(end as int);
            assert(start.last() == piece@);
            assert(start.drop_last() =~= text::texts(pieces@).take(end - 1));
        }
        if !piece.is_empty() && !text_eq(piece, ".") {
            return if text_eq(piece, "..") {
                None
            } else {
                Some(piece.to_owned())
            };
        }
        end = end - 1;
    }
    None
}

/// Whether a path is one of an image. Slashes stand between the names of a path.
pub fn web_file_picker_path_is_image(path: &str) -> (r: bool)
    ensures
        r == is_image(path@),
{
    let name = match path_file_name(path) {
        Some(name) => name,
        None => return false,
    };
    let chars = chars_of(name.as_str());
    let mut dot: usize = chars.len();
    while 0 < dot && chars[dot - 1] != '.'
        invariant
            dot <= chars.len(),
            forall|j: int| dot <= j < chars.len() ==> chars@[j] != '.',
        ensures
            dot <= chars.len(),
            forall|j: int| dot <= j < chars.len() ==> chars@[j] != '.',
            dot > 0 ==> chars@[dot - 1] == '.',
        decreases dot,
    {
        dot = dot - 1;
    }
    if dot < 2 {
        proof {
            assert forall|i: int| !is_last_dot(name@, i) by {}
        }
        return false;
    }
    proof {
        lemma_extension(path@, name@, dot - 1);
    }
    let s = to_ascii_lowercase(text_of(&chars, dot, chars.len()).as_str());
    proof {
        assert(chars@.subrange(dot as int, chars@.len() as int) =~= name@.skip(dot as int));
    }
    text_eq(s.as_str(), "avif") || text_eq(s.as_str(), "bmp") || text_eq(s.as_str(), "gif")
        || text_eq(s.as_str(), "heic") || text_eq(s.as_str(), "heif") || text_eq(
        s.as_str(),
        "jpeg",
    ) || text_eq(s.as_str(), "jpg") || text_eq(s.as_str(), "png") || text_eq(s.as_str(), "svg")
        || text_eq(s.as_str(), "tif") || text_eq(s.as_str(), "tiff") || text_eq(s.as_str(), "webp")
}

/// The entry that is offered for one of a directory, where one is. Files are
/// offered only where a file is to be picked, and then only images where nothing
/// else will do; an entry without a name is never offered.
pub open spec fn offered(
    entry: Option<DirectoryEntry>,
    mode: WebFilePickerMode,
    images_only: bool,
) -> Option<EntryView> {
    match entry {
        Some(found) => match entry_kind(found.entry_type, found.metadata) {
            Some((kind, size_bytes)) => {
                let name = found.name@;
                let wanted = match kind {
                    WebFilePickerEntryKind::Directory => true,
                    WebFilePickerEntryKind::File => mode == WebFilePickerMode::File && (
                    images_only ==> is_image(name)),
                };
                if wanted && name.len() > 0 {
                    Some(
                        EntryView {
                            hidden: name[0] == '.',
                            kind,
                            name,
                            path: found.path@,
                            size_bytes,
                        },
                    )
                } else {
                    None
                }
            },
            None => None,
        },
        None => None,
    }
}

/// The entries that are offered for those of a directory, one behind the other.
pub open spec fn all_offered(
    entries: Seq<Option<DirectoryEntry>>,
    mode: WebFilePickerMode,
    images_only: bool,
) -> Seq<EntryView>
    decreases entries.len(),
{
    if entries.len() == 0 {
        Seq::empty()
    } else {
        let before = all_offered(entries.drop_last(), mode, images_only);
        match offered(entries.last(), mode, images_only) {
            Some(entry) => before.push(entry),
            None => before,
        }
    }
}

/// The keys by which entries are listed.
pub open spec fn sort_keys(entries: Seq<EntryView>) -> Seq<KeyView> {
    entries.map_values(
        |entry: EntryView|
            KeyView { rank: kind_rank(entry.kind), lowered: lowered(entry.name), name: entry.name },
    )
}

/// The order in which entries are listed.
pub open spec fn order_of(entries: Seq<EntryView>) -> Seq<usize> {
    choose|order: Seq<usize>|
        listing_order::orders(sort_keys(entries), order, 0, entries.len() as int)
}

/// Entries in the order in which they are listed.
pub open spec fn listed(entries: Seq<EntryView>) -> Seq<EntryView> {
    Seq::new(entries.len(), |i: int| entries[order_of(entries)[i] as int])
}

/// The first entries, no more than `limit`.
pub open spec fn limited(entries: Seq<EntryView>, limit: nat) -> Seq<EntryView> {
    if entries.len() > limit {
        entries.take(limit as int)
    } else {
        entries
    }
}

/// The fields of an entry for the client. The size stands there where it is known.
pub open spec fn entry_fields(entry: EntryView) -> Seq<(Seq<char>, JsonTree)> {
    let fields = Seq::empty().push(("hidden"@, JsonTree::Bool(entry.hidden))).push(
        ("kind"@, JsonTree::String(kind_text(entry.kind))),
    ).push(("name"@, JsonTree::String(entry.name))).push(("path"@, JsonTree::String(entry.path)));
    match entry.size_bytes {
        Some(size) => fields.push(("sizeBytes"@, json::unsigned(size))),
        None => fields,
    }
}

/// An entry for the client.
pub open spec fn entry_tree(entry: EntryView) -> JsonTree {
    json::object_tree(entry_fields(entry))
}

/// The fields of a listing for the client.
pub open spec fn listing_fields(
    entries: Seq<EntryView>,
    parent: Option<Seq<char>>,
    path: Seq<char>,
    limit: nat,
) -> Seq<(Seq<char>, JsonTree)> {
    let shown = limited(listed(entries), limit);
    let parent_tree = match parent {
        Some(p) => JsonTree::String(p),
        None => JsonTree::Null,
    };
    Seq::empty().push(
        ("entries"@, JsonTree::Array(shown.map_values(|entry: EntryView| entry_tree(entry)))),
    ).push(("parent"@, parent_tree)).push(("path"@, JsonTree::String(path))).push(
        ("truncated"@, JsonTree::Bool(entries.len() > limit)),
    )
}

/// What the client is told of a directory.
pub open spec fn payload(
    directory: Directory,
    mode: WebFilePickerMode,
    images_only: bool,
    limit: nat,
) -> Result<JsonTree, Seq<char>> {
    let path = directory.path@;
    match directory.listing {
        Listing::CannotOpen(reason) => Err("cannot open "@ + path + ": "@ + reason@),
        Listing::NotADirectory => Err("not a directory: "@ + path),
        Listing::CannotRead(reason) => Err("cannot read "@ + path + ": "@ + reason@),
        Listing::Entries(entries) => Ok(
            json::object_tree(
                listing_fields(
                    all_offered(entries@, mode, images_only),
                    text::opt_string(directory.parent),
                    path,
                    limit,
                ),
            ),
        ),
    }
}

/// The tree of a value, or the message that stands in its place.
pub open spec fn result_tree(result: Result<Json, String>) -> Result<JsonTree, Seq<char>> {
    match result {
        Ok(value) => Ok(value@),
        Err(message) => Err(message@),
    }
}

/// The view of an entry that may be missing.
pub open spec fn opt_entry(entry: Option<WebFilePickerEntry>) -> Option<EntryView> {
    match entry {
        Some(found) => Some(found@),
        None => None,
    }
}

/// The entry that is offered for one of a directory, where one is.
pub fn web_file_picker_entry(
    entry: &Option<DirectoryEntry>,
    mode: WebFilePickerMode,
    images_only: bool,
) -> (r: Option<WebFilePickerEntry>)
    ensures
        opt_entry(r) == offered(*entry, mode, images_only),
{
    let found = match entry {
        Some(found) => found,
        None => return None,
    };
    let (kind, size_bytes) = match web_file_picker_entry_kind(found) {
        Some(known) => known,
        None => return None,
    };
    if mode == WebFilePickerMode::Directory && kind != WebFilePickerEntryKind::Directory {
        return None;
    }
    if mode == WebFilePickerMode::File && kind == WebFilePickerEntryKind::File && images_only
        && !web_file_picker_path_is_image(found.name.as_str()) {
        return None;
    }
    if found.name.as_str().is_empty() {
        return None;
    }
    proof {
        reveal_strlit(".");
        assert("."@[0] == '.');
        assert(found.name@.subrange(0, 1)[0] == found.name@[0]);
        if found.name@[0] == '.' {
            assert("."@ =~= found.name@.subrange(0, 1));
        }
    }
    Some(
        WebFilePickerEntry {
            hidden: starts_with(found.name.as_str(), "."),
            kind,
            name: found.name.as_str().to_owned(),
            path: found.path.as_str().to_owned(),
            size_bytes,
        },
    )
}

/// The entries that are offered for those of a directory.
fn offered_entries(
    entries: &Vec<Option<DirectoryEntry>>,
    mode: WebFilePickerMode,
    images_only: bool,
) -> (r: Vec<WebFilePickerEntry>)
    ensures
        entry_views(r@) == all_offered(entries@, mode, images_only),
{
    let mut out: Vec<WebFilePickerEntry> = Vec::new();
    let mut i: usize = 0;
    proof {
        assert(entry_views(out@) =~= Seq::empty());
    }
    while i < entries.len()
        invariant
            i <= entries.len(),
            entry_views(out@) == all_offered(entries@.take(i as int), mode, images_only),
        decreases entries.len() - i,
    {
        proof {
            assert(entries@.take(i + 1).drop_last() =~= entries@.take(i as int));
            assert(entries@.take(i + 1).last() == entries@[i as int]);
        }
        let ghost before = out@;
        if let Some(entry) = web_file_picker_entry(&entries[i], mode, images_only) {
            out.push(entry);
            proof {
                assert(entry_views(out@) =~= entry_views(before).push(entry@));
            }
        }
        i = i + 1;
    }
    proof {
        assert(entries@.take(i as int) =~= entries@);
    }
    out
}

/// The order in which entries are listed.
fn entry_order(entries: &Vec<WebFilePickerEntry>) -> (r: Vec<usize>)
    ensures
        r@ == order_of(entry_views(entries@)),
        r@.len() == entries@.len(),
        forall|i: int| 0 <= i < r@.len() ==> #[trigger] r@[i] < entries@.len(),
{
    let ghost views = entry_views(entries@);
    let mut keys: Vec<SortKey> = Vec::new();
    let mut i: usize = 0;
    proof {
        assert(listing_order::key_views(keys@) =~= sort_keys(views).take(0));
    }
    while i < entries.len()
        invariant
            i <= entries.len(),
            views == entry_views(entries@),
            listing_order::key_views(keys@) == sort_keys(views).take(i as int),
        decreases entries.len() - i,
    {
        let entry = &entries[i];
        let key = SortKey {
            rank: entry.kind.sort_rank(),
            lowered: lowercase(entry.name.as_str()),
            name: entry.name.as_str().to_owned(),
        };
        let ghost before = keys@;
        keys.push(key);
        proof {
            assert(views[i as int] == entry@);
            assert(key@ =~= sort_keys(views)[i as int]);
            assert(listing_order::key_views(keys@) =~= listing_order::key_views(before).push(key@));
            assert(sort_keys(views).take(i + 1) =~= sort_keys(views).take(i as int).push(
                sort_keys(views)[i as int],
            ));
        }
        i = i + 1;
    }
    let order = listing_order(&keys);
    proof {
        assert(sort_keys(views).take(i as int) =~= sort_keys(views));
        assert(keys@.len() == listing_order::key_views(keys@).len());
        assert(listing_order::orders(sort_keys(views), order@, 0, views.len() as int));
        listing_order::law_one_listing_order(
            sort_keys(views),
            order@,
            order_of(views),
            0,
            views.len() as int,
        );
    }
    order
}

/// An entry for the client.
fn entry_json(entry: &WebFilePickerEntry) -> (r: Json)
    ensures
        r@ == entry_tree(entry@),
{
    let mut fields = new_entries();
    put(&mut fields, "hidden", Json::Bool(entry.hidden));
    put(&mut fields, "kind", json_text(entry.kind.as_str()));
    put(&mut fields, "name", json_text(entry.name.as_str()));
    put(&mut fields, "path", json_text(entry.path.as_str()));
    if let Some(size) = entry.size_bytes {
        put(&mut fields, "sizeBytes", json_number(size));
    }
    proof {
        assert(json::entries_tree(fields@) =~= entry_fields(entry@));
    }
    json_object(fields)
}

/// What the client is told of a directory: the entries that it is offered, in
/// order and no more than `limit`, and where they stand; or why there are none.
pub fn web_file_picker_payload(
    directory: &Directory,
    mode: WebFilePickerMode,
    images_only: bool,
    limit: usize,
) -> (r: Result<Json, String>)
    ensures
        result_tree(r) == payload(*directory, mode, images_only, limit as nat),
{
    let path = directory.path.as_str();
    let entries = match &directory.listing {
        Listing::CannotOpen(reason) => {
            let start = joined(joined("cannot open ", path).as_str(), ": ");
            return Err(joined(start.as_str(), reason.as_str()));
        },
        Listing::NotADirectory => {
            return Err(joined("not a directory: ", path));
        },
        Listing::CannotRead(reason) => {
            let start = joined(joined("cannot read ", path).as_str(), ": ");
            return Err(joined(start.as_str(), reason.as_str()));
        },
        Listing::Entries(entries) => offered_entries(entries, mode, images_only),
    };
    let ghost views = entry_views(entries@);
    let order = entry_order(&entries);
    let shown: usize = if order.len() > limit {
        limit
    } else {
        order.len()
    };
    let mut items = new_items();
    let mut i: usize = 0;
    let ghost trees = limited(listed(views), limit as nat).map_values(
        |entry: EntryView| entry_tree(entry),
    );
    while i < shown
        invariant
            i <= shown,
            shown <= order.len(),
            shown == trees.len(),
            order@ == order_of(views),
            views == entry_views(entries@),
            forall|k: int| 0 <= k < order@.len() ==> #[trigger] order@[k] < entries@.len(),
            trees == limited(listed(views), limit as nat).map_values(
                |entry: EntryView| entry_tree(entry),
            ),
            order@.len() == views.len(),
            json::items_tree(items@) == trees.take(i as int),
        decreases shown - i,
    {
        let entry = &entries[order[i]];
        push_item(&mut items, entry_json(entry));
        proof {
            assert(listed(views)[i as int] == entry@);
            assert(trees[i as int] == entry_tree(entry@));
            assert(trees.take(i + 1) =~= trees.take(i as int).push(trees[i as int]));
        }
        i = i + 1;
    }
    proof {
        assert(trees.take(i as int) =~= trees);
    }
    let parent = match &directory.parent {
        Some(parent) => json_text(parent.as_str()),
        None => Json::Null,
    };
    let mut fields = new_entries();
    put(&mut fields, "entries", json_array(items));
    put(&mut fields, "parent", parent);
    put(&mut fields, "path", json_text(path));
    put(&mut fields, "truncated", Json::Bool(order.len() > limit));
    proof {
        assert(json::entries_tree(fields@) =~= listing_fields(
            views,
            text::opt_string(directory.parent),
            path@,
            limit as nat,
        ));
    }
    Ok(json_object(fields))
}

/// What the client is told of a directory where a directory is to be picked.
pub fn web_file_picker_directory_payload(directory: &Directory, limit: usize) -> (r: Result<
    Json,
    String,
>)
    ensures
        result_tree(r) == payload(
            *directory,
            WebFilePickerMode::Directory,
            false,
            limit as nat,
        ),
{
    web_file_picker_payload(directory, WebFilePickerMode::Directory, false, limit)
}

/// A message by which the client asks for a listing.
pub open spec fn is_list_message(message: JsonTree, list_message: Seq<char>) -> bool {
    json::text_field(message, "type"@) == Some(list_message)
}

/// Whether a message is one for the file picker. Messages that ask for a listing
/// have the type `list_message`.
pub fn is_web_file_picker_message(message: &Json, list_message: &str) -> (r: bool)
    ensures
        r == is_list_message(message@, list_message@),
{
    match message.get_str("type") {
        Some(message_type) => text_eq(message_type, list_message),
        None => false,
    }
}

/// What the client asks for.
#[derive(Debug)]
pub struct WebFilePickerRequest {
    pub path: Option<String>,
    pub mode: WebFilePickerMode,
    pub images_only: bool,
}

/// What the client asks for in a message, or why it cannot be answered.
pub fn dispatch_web_file_picker_message(message: &Json, list_message: &str) -> (r: Result<
    WebFilePickerRequest,
    String,
>)
    ensures
        match r {
            Ok(request) => {
                &&& is_list_message(message@, list_message@)
                &&& text::opt_string(request.path) == json::text_field(message@, "path"@)
                &&& request.mode == message_mode(message@)
                &&& request.images_only == json::bool_field_value(message@, "imagesOnly"@)
            },
            Err(reason) => match json::text_field(message@, "type"@) {
                Some(message_type) => message_type != list_message@ && reason@
                    == "unsupported web file picker request: "@ + message_type,
                None => reason@ == "missing web file picker request type"@,
            },
        },
{
    match message.get_str("type") {
        Some(message_type) => {
            if text_eq(message_type, list_message) {
                let path = match message.get_str("path") {
                    Some(path) => Some(path.to_owned()),
                    None => None,
                };
                Ok(
                    WebFilePickerRequest {
                        path,
                        mode: WebFilePickerMode::from_message(message),
                        images_only: bool_field(message, "imagesOnly"),
                    },
                )
            } else {
                Err(joined("unsupported web file picker request: ", message_type))
            }
        },
        None => Err("missing web file picker request type".to_owned()),
    }
}

/// The fields of the answer to a message.
pub open spec fn answer_fields(value: JsonTree) -> Seq<(Seq<char>, JsonTree)> {
    Seq::empty().push(("messages"@, JsonTree::Array(Seq::empty()))).push(("value"@, value))
}

/// The answer to a message that asks for a listing, with what the client is told.
pub fn web_file_picker_answer(payload: Result<Json, String>) -> (r: Result<Json, String>)
    ensures
        result_tree(r) == match result_tree(payload) {
            Ok(value) => Ok::<JsonTree, Seq<char>>(json::object_tree(answer_fields(value))),
            Err(reason) => Err(reason),
        },
{
    let value = match payload {
        Ok(value) => value,
        Err(reason) => return Err(reason),
    };
    let mut fields = new_entries();
    put(&mut fields, "messages", json_array(new_items()));
    put(&mut fields, "value", value);
    proof {
        assert(json::entries_tree(fields@) =~= answer_fields(value@));
    }
    Ok(json_object(fields))
}

/// Where the directory is that is to be listed.
pub enum WebFilePickerPath {
    Home,
    Root,
    InHome(String),
    Literal(String),
}

/// Where the client starts: in the user's home, where that is known.
pub fn default_web_file_picker_path(home_known: bool) -> (r: WebFilePickerPath)
    ensures
        home_known ==> r == WebFilePickerPath::Home,
        !home_known ==> r == WebFilePickerPath::Root,
{
    if home_known {
        WebFilePickerPath::Home
    } else {
        WebFilePickerPath::Root
    }
}

/// The path of the root directory.
pub fn web_file_picker_root(windows: bool) -> (r: &'static str)
    ensures
        windows ==> r@ == "C:\\"@,
        !windows ==> r@ == "/"@,
{
    if windows {
        "C:\\"
    } else {
        "/"
    }
}

/// Where the directory is that a path speaks of. An empty path speaks of the place
/// where the client starts, as does `~`; a path that starts with `~/` leads from
/// the user's home on, where that is known.
pub fn normalize_web_file_picker_path(path: Option<&str>, home_known: bool) -> (r: WebFilePickerPath)
    ensures
        ({
            let trimmed = match path {
                Some(p) => text::trimmed(p@),
                None => Seq::empty(),
            };
            if trimmed.len() == 0 || trimmed == "~"@ {
                r == if home_known {
                    WebFilePickerPath::Home
                } else {
                    WebFilePickerPath::Root
                }
            } else if "~/"@.is_prefix_of(trimmed) && home_known {
                r matches WebFilePickerPath::InHome(rest) && rest@ == trimmed.skip(2)
            } else {
                r matches WebFilePickerPath::Literal(p) && p@ == trimmed
            }
        }),
{
    proof {
        reveal_strlit("");
        reveal_strlit("~/");
    }
    let trimmed = match path {
        Some(path) => trim(path),
        None => "",
    };
    proof {
        assert(path is None ==> trimmed@ =~= Seq::empty());
    }
    if trimmed.is_empty() || text_eq(trimmed, "~") {
        return default_web_file_picker_path(home_known);
    }
    if home_known && starts_with(trimmed, "~/") {
        let chars = chars_of(trimmed);
        let rest = text_of(&chars, 2, chars.len());
        proof {
            assert(rest@ =~= trimmed@.skip(2));
        }
        return WebFilePickerPath::InHome(rest);
    }
    WebFilePickerPath::Literal(trimmed.to_owned())
}

/// `order` holds the numbers below `n`, each once.
spec fn is_permutation(order: Seq<usize>, n: int) -> bool {
    &&& order.len() == n
    &&& forall|i: int| 0 <= i < n ==> 0 <= #[trigger] order[i] < n
    &&& forall|k: int| 0 <= k < n ==> #[trigger] order.contains(k as usize)
    &&& forall|i: int, j: int|
        0 <= i < j < n ==> #[trigger] order[i] != #[trigger] order[j]
}

proof fn lemma_permuted_multiset(entries: Seq<EntryView>, order: Seq<usize>)
    requires
        entries.len() <= usize::MAX,
        is_permutation(order, entries.len() as int),
    ensures
        Seq::new(entries.len(), |i: int| entries[order[i] as int]).to_multiset()
            == entries.to_multiset(),
    decreases entries.len(),
{
    let n = entries.len() as int;
    let mapped = Seq::new(entries.len(), |i: int| entries[order[i] as int]);
    if n == 0 {
        assert(mapped =~= entries);
    } else {
        let last = entries.last();
        let shorter = entries.drop_last();
        assert(order.contains((n - 1) as usize));
        let p = choose|p: int| 0 <= p < order.len() && order[p] == (n - 1) as usize;
        let rest = order.remove(p);
        assert forall|i: int| 0 <= i < n - 1 implies 0 <= #[trigger] rest[i] < n - 1 by {
            let at = if i < p { i } else { i + 1 };
            assert(rest[i] == order[at]);
            assert(at < p ==> order[at] != order[p]);
            assert(p < at ==> order[p] != order[at]);
        }
        assert forall|k: int| 0 <= k < n - 1 implies #[trigger] rest.contains(k as usize) by {
            assert(order.contains(k as usize));
            let i = choose|i: int| 0 <= i < order.len() && order[i] == k as usize;
            assert(rest[if i < p { i } else { i - 1 }] == k as usize);
        }
        assert forall|i: int, j: int| 0 <= i < j < n - 1 implies #[trigger] rest[i]
            != #[trigger] rest[j] by {
            assert(rest[i] == order[if i < p { i } else { i + 1 }]);
            assert(rest[j] == order[if j < p { j } else { j + 1 }]);
        }
        lemma_permuted_multiset(shorter, rest);
        let shorter_mapped = Seq::new(shorter.len(), |i: int| shorter[rest[i] as int]);
        assert(mapped.remove(p) =~= shorter_mapped) by {
            assert forall|i: int| 0 <= i < n - 1 implies mapped.remove(p)[i]
                == shorter_mapped[i] by {
                assert(rest[i] == order[if i < p { i } else { i + 1 }]);
            }
        }
        mapped.to_multiset_ensures();
        shorter.to_multiset_ensures();
        vstd::seq_lib::to_multiset_remove(mapped, p);
        vstd::seq_lib::to_multiset_contains(mapped, last);
        assert(mapped[p] == last);
        assert(mapped.contains(last));
        assert(shorter.push(last) =~= entries);
        assert(mapped.to_multiset().remove(last).insert(last) =~= mapped.to_multiset());
    }
}

/// A listing holds the entries that are offered, each once, with the directories
/// before the files.
pub proof fn law_directories_first(entries: Seq<EntryView>)
    requires
        entries.len() <= usize::MAX,
    ensures
        listed(entries).len() == entries.len(),
        listed(entries).to_multiset() == entries.to_multiset(),
        forall|i: int, j: int|
            0 <= i < j < entries.len() && (#[trigger] listed(entries)[j]).kind
                == WebFilePickerEntryKind::Directory ==> (#[trigger] listed(entries)[i]).kind
                == WebFilePickerEntryKind::Directory,
{
    let keys = sort_keys(entries);
    listing_order::law_listing_order_exists(keys);
    let order = order_of(entries);
    assert(listing_order::orders(keys, order, 0, entries.len() as int));
    assert forall|i: int, j: int|
        0 <= i < j < entries.len() && (#[trigger] listed(entries)[j]).kind
            == WebFilePickerEntryKind::Directory implies (#[trigger] listed(entries)[i]).kind
        == WebFilePickerEntryKind::Directory by {
        assert(listing_order::listed_before(keys, order[i] as int, order[j] as int));
        assert(keys[order[i] as int].rank <= keys[order[j] as int].rank);
    }
    assert forall|i: int, j: int| 0 <= i < j < order.len() implies #[trigger] order[i]
        != #[trigger] order[j] by {
        assert(listing_order::listed_before(keys, order[i] as int, order[j] as int));
        listing_order::law_listing_order(keys, order[i] as int, order[i] as int, order[i] as int);
    }
    lemma_permuted_multiset(entries, order);
}

/// No more than `limit` entries are shown, the first ones of the listing, and all
/// of them where it is no longer.
pub proof fn law_listing_is_limited(entries: Seq<EntryView>, limit: nat)
    ensures
        limited(entries, limit).len() <= limit,
        limited(entries, limit).is_prefix_of(entries),
        entries.len() <= limit <==> limited(entries, limit) == entries,
{
    assert(entries.take(entries.len() as int) =~= entries);
}

/// Every entry that is offered has a name, and is hidden exactly where that starts
/// with a dot. Where a directory is to be picked, only directories are offered, and
/// where an image is, no file that is not one.
pub proof fn law_offered_entries(
    entries: Seq<Option<DirectoryEntry>>,
    mode: WebFilePickerMode,
    images_only: bool,
    i: int,
)
    requires
        0 <= i < all_offered(entries, mode, images_only).len(),
    ensures
        ({
            let entry = all_offered(entries, mode, images_only)[i];
            &&& entry.name.len() > 0
            &&& entry.hidden == (entry.name[0] == '.')
            &&& mode == WebFilePickerMode::Directory ==> entry.kind
                == WebFilePickerEntryKind::Directory
            &&& images_only && entry.kind == WebFilePickerEntryKind::File ==> is_image(entry.name)
            &&& entry.kind == WebFilePickerEntryKind::Directory ==> entry.size_bytes is None
        }),
    decreases entries.len(),
{
    if entries.len() > 0 {
        let before = all_offered(entries.drop_last(), mode, images_only);
        if i < before.len() {
            law_offered_entries(entries.drop_last(), mode, images_only, i);
        }
    }
}

/// A directory entry leads to a directory: it is one, or a link to one.
pub open spec fn leads_to_directory(found: DirectoryEntry) -> bool {
    ||| found.entry_type == EntryType::Directory
    ||| found.entry_type == EntryType::Symlink && (found.metadata matches Some(data) && data.is_dir)
}

/// A directory entry leads to a file: it is one, or a link to one.
pub open spec fn leads_to_file(found: DirectoryEntry) -> bool {
    ||| found.entry_type == EntryType::File
    ||| found.entry_type == EntryType::Symlink && (found.metadata matches Some(data) && !data.is_dir
        && data.is_file)
}

/// A directory entry is one that the client wants: it has a name, and leads to a
/// directory or, where a file is to be picked, to a file that will do.
pub open spec fn is_wanted(
    found: DirectoryEntry,
    mode: WebFilePickerMode,
    images_only: bool,
) -> bool {
    &&& found.name@.len() > 0
    &&& leads_to_directory(found) || leads_to_file(found) && mode == WebFilePickerMode::File && (
    images_only ==> is_image(found.name@))
}

/// What is offered for a directory entry carries the path and the name of that entry,
/// and its kind; a file carries its size, where that is known. It is hidden exactly
/// where the name starts with a dot. Exactly the entries that are wanted are offered.
pub proof fn law_offered_entry(
    found: DirectoryEntry,
    mode: WebFilePickerMode,
    images_only: bool,
)
    ensures
        offered(Some(found), mode, images_only) is Some <==> is_wanted(found, mode, images_only),
        offered(Some(found), mode, images_only) matches Some(entry) ==> {
            &&& entry.path == found.path@
            &&& entry.name == found.name@
            &&& entry.hidden <==> found.name@[0] == '.'
            &&& entry.kind == WebFilePickerEntryKind::Directory <==> leads_to_directory(found)
            &&& entry.kind == WebFilePickerEntryKind::File <==> leads_to_file(found)
            &&& leads_to_directory(found) ==> entry.size_bytes is None
            &&& leads_to_file(found) && found.metadata is Some ==> entry.size_bytes == Some(
                found.metadata->Some_0.len,
            )
            &&& found.metadata is None ==> entry.size_bytes is None
        },
        offered(None, mode, images_only) is None,
{
}

proof fn lemma_all_offered(
    entries: Seq<Option<DirectoryEntry>>,
    mode: WebFilePickerMode,
    images_only: bool,
)
    ensures
        selection::selects(
            entries.map_values(|entry: Option<DirectoryEntry>| offered(entry, mode, images_only)),
            all_offered(entries, mode, images_only),
        ),
    decreases entries.len(),
{
    let all = entries.map_values(
        |entry: Option<DirectoryEntry>| offered(entry, mode, images_only),
    );
    if entries.len() == 0 {
        selection::lemma_selects_empty::<EntryView>();
        assert(all =~= Seq::empty());
    } else {
        let before = entries.drop_last();
        lemma_all_offered(before, mode, images_only);
        let all_before = before.map_values(
            |entry: Option<DirectoryEntry>| offered(entry, mode, images_only),
        );
        let last = offered(entries.last(), mode, images_only);
        selection::lemma_selects_push(all_before, all_offered(before, mode, images_only), last);
        assert(all =~= all_before.push(last));
    }
}

/// The offered entries are made from the directory entries at `places`, one from
/// each: each carries the path and the name of the one that it is made from.
pub open spec fn are_made_from(
    shown: Seq<EntryView>,
    entries: Seq<Option<DirectoryEntry>>,
    places: Seq<int>,
) -> bool {
    &&& places.len() == shown.len()
    &&& forall|k: int|
        0 <= k < places.len() ==> 0 <= #[trigger] places[k] < entries.len() && (
        entries[places[k]] matches Some(found) && shown[k].path == found.path@ && shown[k].name
            == found.name@)
    &&& forall|k: int, l: int|
        0 <= k < l < places.len() ==> #[trigger] places[k] < #[trigger] places[l]
}

/// One entry is offered for every directory entry that is wanted, in the order of the
/// directory, and no other: each carries the path and the name of the directory entry
/// that it was made from.
pub proof fn law_all_wanted_are_offered(
    entries: Seq<Option<DirectoryEntry>>,
    mode: WebFilePickerMode,
    images_only: bool,
)
    ensures
        ({
            let shown = all_offered(entries, mode, images_only);
            exists|places: Seq<int>| #[trigger]
                are_made_from(shown, entries, places) && (forall|i: int|
                    0 <= i < entries.len() && (#[trigger] entries[i] matches Some(found)
                        && is_wanted(found, mode, images_only)) <==> places.contains(i)) && (
                forall|k: int|
                    0 <= k < places.len() ==> Some(shown[k]) == offered(
                        entries[#[trigger] places[k]],
                        mode,
                        images_only,
                    ))
        }),
{
    let shown = all_offered(entries, mode, images_only);
    let all = entries.map_values(
        |entry: Option<DirectoryEntry>| offered(entry, mode, images_only),
    );
    lemma_all_offered(entries, mode, images_only);
    let places = choose|places: Seq<int>| selection::is_selection(all, shown, places);
    assert forall|k: int| 0 <= k < places.len() implies 0 <= #[trigger] places[k] < entries.len()
        && (entries[places[k]] matches Some(found) && shown[k].path == found.path@ && shown[k].name
        == found.name@ && is_wanted(found, mode, images_only) && Some(shown[k]) == offered(
        entries[places[k]],
        mode,
        images_only,
    )) by {
        assert(all[places[k]] == Some(shown[k]));
        law_offered_entry(entries[places[k]]->Some_0, mode, images_only);
    }
    assert forall|i: int|
        0 <= i < entries.len() && (#[trigger] entries[i] matches Some(found) && is_wanted(
            found,
            mode,
            images_only,
        )) <==> places.contains(i) by {
        if 0 <= i < entries.len() && (entries[i] matches Some(found) && is_wanted(
            found,
            mode,
            images_only,
        )) {
            law_offered_entry(entries[i]->Some_0, mode, images_only);
            assert(all[i] is Some);
        }
        if places.contains(i) {
            let k = choose|k: int| 0 <= k < places.len() && places[k] == i;
            assert(entries[places[k]] is Some);
        }
    }
    assert(are_made_from(shown, entries, places));
}

/// `tree` tells the client of an entry: whether it is hidden, its kind, its name, its
/// path, and its size where that is known, and nothing else.
pub open spec fn tells_of(tree: JsonTree, entry: EntryView) -> bool {
    &&& json::field(tree, "hidden"@) == Some(JsonTree::Bool(entry.hidden))
    &&& entry.kind == WebFilePickerEntryKind::Directory ==> json::text_field(tree, "kind"@) == Some(
        "directory"@,
    )
    &&& entry.kind == WebFilePickerEntryKind::File ==> json::text_field(tree, "kind"@) == Some(
        "file"@,
    )
    &&& json::text_field(tree, "name"@) == Some(entry.name)
    &&& json::text_field(tree, "path"@) == Some(entry.path)
    &&& entry.size_bytes matches Some(size) ==> json::field(tree, "sizeBytes"@) == Some(
        json::unsigned(size),
    )
    &&& entry.size_bytes is None ==> json::field(tree, "sizeBytes"@) is None
    &&& tree->Object_0.dom().len() == if entry.size_bytes is Some { 5nat } else { 4nat }
}

/// What the client is told of an entry is what the entry is.
pub proof fn law_entry_tree(entry: EntryView)
    ensures
        ({
            let tree = entry_tree(entry);
            let directory = entry.kind == WebFilePickerEntryKind::Directory;
            &&& json::field(tree, "hidden"@) == Some(JsonTree::Bool(entry.hidden))
            &&& json::text_field(tree, "kind"@) == Some(
                if directory {
                    "directory"@
                } else {
                    "file"@
                },
            )
            &&& json::text_field(tree, "name"@) == Some(entry.name)
            &&& json::text_field(tree, "path"@) == Some(entry.path)
            &&& json::field(tree, "sizeBytes"@) == match entry.size_bytes {
                Some(size) => Some(json::unsigned(size)),
                None => None,
            }
            &&& tree->Object_0.dom().len() == if entry.size_bytes is Some { 5nat } else { 4nat }
        }),
        tells_of(entry_tree(entry), entry),
{
    reveal_strlit("hidden");
    reveal_strlit("kind");
    reveal_strlit("name");
    reveal_strlit("path");
    reveal_strlit("sizeBytes");
    assert("hidden"@.len() == 6 && "sizeBytes"@.len() == 9);
    assert("kind"@.len() == 4 && "name"@.len() == 4 && "path"@.len() == 4);
    assert("kind"@[0] == 'k' && "name"@[0] == 'n' && "path"@[0] == 'p');
    let none = Seq::<(Seq<char>, JsonTree)>::empty();
    let one = none.push(("hidden"@, JsonTree::Bool(entry.hidden)));
    let two = one.push(("kind"@, JsonTree::String(kind_text(entry.kind))));
    let three = two.push(("name"@, JsonTree::String(entry.name)));
    let four = three.push(("path"@, JsonTree::String(entry.path)));
    json::lemma_no_entries();
    json::lemma_entry_put(none, "hidden"@, JsonTree::Bool(entry.hidden));
    json::lemma_entry_put(one, "kind"@, JsonTree::String(kind_text(entry.kind)));
    json::lemma_entry_put(two, "name"@, JsonTree::String(entry.name));
    json::lemma_entry_put(three, "path"@, JsonTree::String(entry.path));
    if let Some(size) = entry.size_bytes {
        json::lemma_entry_put(four, "sizeBytes"@, json::unsigned(size));
    }
}

/// The entry at `i` comes before the one at `j`: directories before files, then by the
/// names in small letters, then by the names, then by the place.
pub open spec fn comes_before(entries: Seq<EntryView>, i: int, j: int) -> bool {
    let a = entries[i];
    let b = entries[j];
    if a.kind != b.kind {
        a.kind == WebFilePickerEntryKind::Directory
    } else if lowered(a.name) != lowered(b.name) {
        text::text_before(lowered(a.name), lowered(b.name))
    } else if a.name != b.name {
        text::text_before(a.name, b.name)
    } else {
        i < j
    }
}

/// `order` names every place among `entries` once, in the order of the listing.
pub open spec fn is_listing_order(entries: Seq<EntryView>, order: Seq<int>) -> bool {
    &&& order.len() == entries.len()
    &&& forall|i: int| 0 <= i < order.len() ==> 0 <= #[trigger] order[i] < entries.len()
    &&& forall|i: int, j: int|
        0 <= i < j < order.len() ==> #[trigger] order[i] != #[trigger] order[j] && comes_before(
            entries,
            order[i],
            order[j],
        )
}

/// A text in small letters has every capital letter replaced by the small one, where
/// it is ASCII.
pub proof fn law_lowered(s: Seq<char>)
    ensures
        (forall|i: int| 0 <= i < s.len() ==> '\0' <= #[trigger] s[i] <= '\u{7f}') ==> lowered(s)
            == text::ascii_lowered(s),
{
    if forall|i: int| 0 <= i < s.len() ==> '\0' <= #[trigger] s[i] <= '\u{7f}' {
        assert(vstd::utf8::is_ascii_chars(s));
    }
}

/// The entries that the client is told of are the first ones of the listing, no more
/// than `limit`: directories before files, and both by their names.
pub proof fn law_shown_entries(entries: Seq<EntryView>, limit: nat) -> (order: Seq<int>)
    requires
        entries.len() <= usize::MAX,
    ensures
        is_listing_order(entries, order),
        limited(listed(entries), limit).len() == if entries.len() <= limit {
            entries.len()
        } else {
            limit
        },
        forall|i: int|
            0 <= i < limited(listed(entries), limit).len() ==> #[trigger] limited(
                listed(entries),
                limit,
            )[i] == entries[order[i]],
{
    let keys = sort_keys(entries);
    listing_order::law_listing_order_exists(keys);
    let found = order_of(entries);
    assert(listing_order::orders(keys, found, 0, entries.len() as int));
    let order = Seq::new(found.len(), |i: int| found[i] as int);
    assert forall|i: int| 0 <= i < order.len() implies 0 <= #[trigger] order[i]
        < entries.len() by {
        assert(0 <= found[i] < entries.len());
    }
    assert forall|i: int, j: int| 0 <= i < j < order.len() implies #[trigger] order[i]
        != #[trigger] order[j] && comes_before(entries, order[i], order[j]) by {
        let (p, q) = (found[i] as int, found[j] as int);
        assert(listing_order::listed_before(keys, p, q));
        listing_order::law_listing_order(keys, p, p, p);
        let (a, b) = (keys[p], keys[q]);
        if entries[p].kind == entries[q].kind && a.lowered == b.lowered && a.name == b.name {
            assert(a =~= b);
            assert(!listing_order::key_before(a, b)) by {
                if listing_order::key_before(a, b) {
                    assert(listing_order::listed_before(keys, p, p));
                }
            }
        }
    }
    order
}

/// What the client is told of a directory that could be read: the entries that are
/// shown, one behind the other, each with what it is; the paths of the directory and
/// of its parent; and whether entries were left out.
pub proof fn law_payload(
    directory: Directory,
    entries: Vec<Option<DirectoryEntry>>,
    mode: WebFilePickerMode,
    images_only: bool,
    limit: nat,
)
    requires
        directory.listing == Listing::Entries(entries),
    ensures
        ({
            let all = all_offered(entries@, mode, images_only);
            let shown = limited(listed(all), limit);
            &&& payload(directory, mode, images_only, limit) matches Ok(tree)
            &&& json::text_field(tree, "path"@) == Some(directory.path@)
            &&& directory.parent matches Some(parent) ==> json::text_field(tree, "parent"@) == Some(
                parent@,
            )
            &&& directory.parent is None ==> json::field(tree, "parent"@) == Some(JsonTree::Null)
            &&& json::field(tree, "truncated"@) == Some(JsonTree::Bool(limit < all.len()))
            &&& tree->Object_0.dom().len() == 4
            &&& json::array_field(tree, "entries"@) matches Some(items)
            &&& items.len() == shown.len()
            &&& forall|i: int| 0 <= i < items.len() ==> tells_of(#[trigger] items[i], shown[i])
        }),
{
    let all = all_offered(entries@, mode, images_only);
    let shown = limited(listed(all), limit);
    let items = shown.map_values(|entry: EntryView| entry_tree(entry));
    let parent = match text::opt_string(directory.parent) {
        Some(p) => JsonTree::String(p),
        None => JsonTree::Null,
    };
    reveal_strlit("entries");
    reveal_strlit("parent");
    reveal_strlit("path");
    reveal_strlit("truncated");
    assert("entries"@.len() == 7 && "parent"@.len() == 6 && "path"@.len() == 4
        && "truncated"@.len() == 9);
    let none = Seq::<(Seq<char>, JsonTree)>::empty();
    let one = none.push(("entries"@, JsonTree::Array(items)));
    let two = one.push(("parent"@, parent));
    let three = two.push(("path"@, JsonTree::String(directory.path@)));
    json::lemma_no_entries();
    json::lemma_entry_put(none, "entries"@, JsonTree::Array(items));
    json::lemma_entry_put(one, "parent"@, parent);
    json::lemma_entry_put(two, "path"@, JsonTree::String(directory.path@));
    json::lemma_entry_put(three, "truncated"@, JsonTree::Bool(all.len() > limit));
    assert(payload(directory, mode, images_only, limit) == Ok::<JsonTree, Seq<char>>(
        json::object_tree(three.push(("truncated"@, JsonTree::Bool(all.len() > limit)))),
    ));
    assert forall|i: int| 0 <= i < items.len() implies tells_of(#[trigger] items[i], shown[i]) by {
        law_entry_tree(shown[i]);
    }
}

/// The item of the payload at `i` tells of the directory entry at `k`.
pub open spec fn item_tells_of_place(
    items: Seq<JsonTree>,
    i: int,
    entries: Seq<Option<DirectoryEntry>>,
    k: int,
) -> bool {
    &&& 0 <= i < items.len()
    &&& 0 <= k < entries.len()
    &&& entries[k] matches Some(found)
    &&& json::text_field(items[i], "path"@) == Some(found.path@)
    &&& json::text_field(items[i], "name"@) == Some(found.name@)
}

/// Every item of the payload carries the path and the name of a directory entry that
/// is wanted. Where nothing is left out, there is an item with the path and the name
/// of every directory entry that is wanted.
pub proof fn law_payload_paths(
    directory: Directory,
    entries: Vec<Option<DirectoryEntry>>,
    mode: WebFilePickerMode,
    images_only: bool,
    limit: nat,
    i: int,
    k: int,
)
    requires
        directory.listing == Listing::Entries(entries),
        entries@.len() <= usize::MAX,
    ensures
        payload(directory, mode, images_only, limit) matches Ok(tree) && json::array_field(
            tree,
            "entries"@,
        ) matches Some(items) && {
            &&& 0 <= i < items.len() ==> exists|from: int| #[trigger]
                item_tells_of_place(items, i, entries@, from) && is_wanted(
                    entries@[from]->Some_0,
                    mode,
                    images_only,
                )
            &&& json::field(tree, "truncated"@) == Some(JsonTree::Bool(false)) && 0 <= k
                < entries@.len() && (entries@[k] matches Some(found) && is_wanted(
                found,
                mode,
                images_only,
            )) ==> exists|at: int| #[trigger] item_tells_of_place(items, at, entries@, k)
        },
{
    let all = all_offered(entries@, mode, images_only);
    let shown = limited(listed(all), limit);
    law_payload(directory, entries, mode, images_only, limit);
    let tree = payload(directory, mode, images_only, limit)->Ok_0;
    let items = json::array_field(tree, "entries"@)->Some_0;
    law_all_wanted_are_offered(entries@, mode, images_only);
    let places = choose|places: Seq<int>| #[trigger]
        are_made_from(all, entries@, places) && (forall|i: int|
            0 <= i < entries@.len() && (#[trigger] entries@[i] matches Some(found) && is_wanted(
                found,
                mode,
                images_only,
            )) <==> places.contains(i)) && (forall|k: int|
            0 <= k < places.len() ==> Some(all[k]) == offered(
                entries@[#[trigger] places[k]],
                mode,
                images_only,
            ));
    lemma_fewer_offered(entries@, mode, images_only);
    let order = law_shown_entries(all, limit);
    if 0 <= i < items.len() {
        assert(tells_of(items[i], shown[i]));
        assert(shown[i] == all[order[i]]);
        let from = places[order[i]];
        assert(places.contains(from));
        assert(entries@[from] is Some);
        assert(item_tells_of_place(items, i, entries@, from));
    }
    if json::field(tree, "truncated"@) == Some(JsonTree::Bool(false)) && 0 <= k < entries@.len()
        && (entries@[k] matches Some(found) && is_wanted(found, mode, images_only)) {
        assert(places.contains(k));
        let p = choose|p: int| 0 <= p < places.len() && places[p] == k;
        lemma_in_order(all, order, p);
        let at = choose|at: int| 0 <= at < order.len() && order[at] == p;
        assert(shown[at] == all[order[at]]);
        assert(tells_of(items[at], shown[at]));
        assert(item_tells_of_place(items, at, entries@, k));
    }
}

proof fn lemma_fewer_offered(
    entries: Seq<Option<DirectoryEntry>>,
    mode: WebFilePickerMode,
    images_only: bool,
)
    ensures
        all_offered(entries, mode, images_only).len() <= entries.len(),
    decreases entries.len(),
{
    if entries.len() > 0 {
        lemma_fewer_offered(entries.drop_last(), mode, images_only);
    }
}

proof fn lemma_in_order(entries: Seq<EntryView>, order: Seq<int>, p: int)
    requires
        is_listing_order(entries, order),
        0 <= p < entries.len(),
    ensures
        exists|i: int| 0 <= i < order.len() && order[i] == p,
{
    if !(exists|i: int| 0 <= i < order.len() && order[i] == p) {
        let n = entries.len() as int;
        let numbers = vstd::set_lib::set_int_range(0, n).remove(p);
        vstd::set_lib::lemma_int_range(0, n);
        order.unique_seq_to_set();
        assert(order.to_set().subset_of(numbers)) by {
            assert forall|x: int| order.to_set().contains(x) implies numbers.contains(x) by {
                let i = choose|i: int| 0 <= i < order.len() && order[i] == x;
                assert(order[i] == x);
            }
        }
        vstd::set_lib::lemma_len_subset(order.to_set(), numbers);
    }
}

/// Why a directory could not be listed is told with its path.
pub proof fn law_payload_errors(
    directory: Directory,
    mode: WebFilePickerMode,
    images_only: bool,
    limit: nat,
)
    ensures
        ({
            let told = payload(directory, mode, images_only, limit);
            let path = directory.path@;
            &&& directory.listing matches Listing::CannotOpen(reason) ==> told == Err::<
                JsonTree,
                Seq<char>,
            >("cannot open "@ + path + ": "@ + reason@)
            &&& directory.listing is NotADirectory ==> told == Err::<JsonTree, Seq<char>>(
                "not a directory: "@ + path,
            )
            &&& directory.listing matches Listing::CannotRead(reason) ==> told == Err::<
                JsonTree,
                Seq<char>,
            >("cannot read "@ + path + ": "@ + reason@)
            &&& told is Ok <==> directory.listing is Entries
        }),
{
}

/// The answer holds the value and no messages.
pub proof fn law_answer(value: JsonTree)
    ensures
        ({
            let answer = json::object_tree(answer_fields(value));
            &&& json::field(answer, "value"@) == Some(value)
            &&& json::array_field(answer, "messages"@) == Some(Seq::<JsonTree>::empty())
            &&& answer->Object_0.dom().len() == 2
        }),
{
    reveal_strlit("messages");
    reveal_strlit("value");
    assert("messages"@.len() == 8 && "value"@.len() == 5);
    let none = Seq::<(Seq<char>, JsonTree)>::empty();
    let one = none.push(("messages"@, JsonTree::Array(Seq::empty())));
    json::lemma_no_entries();
    json::lemma_entry_put(none, "messages"@, JsonTree::Array(Seq::empty()));
    json::lemma_entry_put(one, "value"@, value);
}

/// A file is to be picked where the mode says so, and a directory otherwise.
pub proof fn law_message_mode(message: JsonTree)
    ensures
        json::text_field(message, "mode"@) == Some("file"@) <==> message_mode(message)
            == WebFilePickerMode::File,
        json::text_field(message, "mode"@) != Some("file"@) <==> message_mode(message)
            == WebFilePickerMode::Directory,
{
}

/// A message asks for a listing exactly where its type is the one for that.
pub proof fn law_list_message(message: JsonTree, list_message: Seq<char>)
    ensures
        is_list_message(message, list_message) <==> json::text_field(message, "type"@) == Some(
            list_message,
        ),
{
}

/// A name that is something, a dot and an extension is that of an image exactly where
/// the extension, in small letters, is one of images. A name without a dot behind its
/// first character is never that of an image.
pub proof fn law_image_name(stem: Seq<char>, ending: Seq<char>)
    requires
        stem.len() > 0,
        !stem.contains('/'),
        !ending.contains('/'),
        !ending.contains('.'),
    ensures
        is_image(stem + "."@ + ending) <==> is_image_extension(text::ascii_lowered(ending)),
        !stem.skip(1).contains('.') ==> !is_image(stem),
{
    let name = stem + "."@ + ending;
    reveal_strlit(".");
    reveal_strlit("..");
    let dot = stem.len() as int;
    assert(name[dot] == '.');
    assert forall|j: int| 0 <= j < name.len() implies name[j] != '/' by {
        if j < dot {
            assert(stem.contains(stem[j]));
        } else if j > dot {
            assert(ending.contains(ending[j - dot - 1]));
        }
    }
    text::lemma_split_one(name, '/');
    text::lemma_split_one(stem, '/');
    lemma_one_name(name);
    lemma_one_name(stem);
    assert forall|j: int| dot < j < name.len() implies name[j] != '.' by {
        assert(ending.contains(ending[j - dot - 1]));
    }
    assert(is_last_dot(name, dot));
    if name == ".."@ {
        assert(ending.len() == 0);
        lemma_no_empty_extension();
        assert(text::ascii_lowered(ending) =~= Seq::empty());
    } else {
        lemma_extension(name, name, dot);
        assert(name.skip(dot + 1) =~= ending);
    }
    if !stem.skip(1).contains('.') {
        assert forall|i: int| !is_last_dot(stem, i) by {
            if 0 < i < stem.len() {
                assert(stem.skip(1)[i - 1] == stem[i]);
            }
        }
    }
}

proof fn lemma_one_name(name: Seq<char>)
    requires
        name.len() > 0,
        !name.contains('/'),
    ensures
        file_name(name) == if name == "."@ || name == ".."@ {
            None::<Seq<char>>
        } else {
            Some(name)
        },
{
    text::lemma_split_one(name, '/');
    let pieces = text::split_on(name, '/');
    assert(pieces.last() == name);
    assert(pieces.drop_last() =~= Seq::empty());
    reveal_with_fuel(last_name, 2);
}

proof fn lemma_no_empty_extension()
    ensures
        !is_image_extension(Seq::empty()),
{
    reveal_strlit("avif");
    reveal_strlit("bmp");
    reveal_strlit("gif");
    reveal_strlit("heic");
    reveal_strlit("heif");
    reveal_strlit("jpeg");
    reveal_strlit("jpg");
    reveal_strlit("png");
    reveal_strlit("svg");
    reveal_strlit("tif");
    reveal_strlit("tiff");
    reveal_strlit("webp");
    assert("avif"@.len() == 4 && "bmp"@.len() == 3 && "gif"@.len() == 3 && "heic"@.len() == 4
        && "heif"@.len() == 4 && "jpeg"@.len() == 4);
    assert("jpg"@.len() == 3 && "png"@.len() == 3 && "svg"@.len() == 3 && "tif"@.len() == 3
        && "tiff"@.len() == 4 && "webp"@.len() == 4);
}

/// Whether a path is that of an image is a matter of its last name: where that stands
/// in the tree, and slashes behind it, do not matter.
pub proof fn law_image_path(front: Seq<char>, name: Seq<char>)
    requires
        name.len() > 0,
        !name.contains('/'),
        name != "."@,
    ensures
        is_image(front + "/"@ + name) <==> is_image(name),
        is_image(name + "/"@) <==> is_image(name),
{
    reveal_strlit("/");
    assert("/"@ =~= seq!['/']);
    lemma_one_name(name);
    text::lemma_split_last(front, name, '/');
    let pieces = text::split_on(front + seq!['/'] + name, '/');
    assert(pieces.last() == name);
    text::lemma_split_first(name, Seq::empty(), '/');
    text::lemma_split_one(Seq::empty(), '/');
    assert(name + seq!['/'] + Seq::empty() =~= name + "/"@);
    let two = text::split_on(name + "/"@, '/');
    assert(two =~= seq![name, Seq::empty()]);
    assert(two.drop_last() =~= seq![name]);
    text::lemma_split_one(name, '/');
    reveal_with_fuel(last_name, 3);
}

/// A slash, or a slash and a dot, behind a path does not change whether it is that of an
/// image; a path that ends with a step to the parent directory is never one.
pub proof fn law_path_endings(path: Seq<char>)
    ensures
        is_image(path + "/"@) <==> is_image(path),
        is_image(path + "/."@) <==> is_image(path),
        !is_image(path + "/.."@),
{
    reveal_strlit("/");
    reveal_strlit(".");
    reveal_strlit("..");
    reveal_strlit("/.");
    reveal_strlit("/..");
    assert(path + "/"@ =~= path + seq!['/'] + Seq::empty());
    assert(path + "/."@ =~= path + seq!['/'] + "."@);
    assert(path + "/.."@ =~= path + seq!['/'] + ".."@);
    text::lemma_split_last(path, Seq::empty(), '/');
    text::lemma_split_last(path, "."@, '/');
    text::lemma_split_last(path, ".."@, '/');
    let pieces = text::split_on(path, '/');
    assert((pieces + seq![Seq::<char>::empty()]).drop_last() =~= pieces);
    assert((pieces + seq!["."@]).drop_last() =~= pieces);
    assert((pieces + seq![".."@]).last() == ".."@);
    assert(".."@.len() == 2 && "."@.len() == 1);
}

/// The extensions of images are twelve.
pub proof fn law_image_extensions(s: Seq<char>)
    ensures
        is_image_extension(s) <==> seq![
            "jpg"@,
            "jpeg"@,
            "png"@,
            "gif"@,
            "webp"@,
            "svg"@,
            "bmp"@,
            "tif"@,
            "tiff"@,
            "avif"@,
            "heic"@,
            "heif"@,
        ].contains(s),
{
    let all = seq![
        "jpg"@,
        "jpeg"@,
        "png"@,
        "gif"@,
        "webp"@,
        "svg"@,
        "bmp"@,
        "tif"@,
        "tiff"@,
        "avif"@,
        "heic"@,
        "heif"@,
    ];
    assert(all[0] == "jpg"@ && all[1] == "jpeg"@ && all[2] == "png"@ && all[3] == "gif"@);
    assert(all[4] == "webp"@ && all[5] == "svg"@ && all[6] == "bmp"@ && all[7] == "tif"@);
    assert(all[8] == "tiff"@ && all[9] == "avif"@ && all[10] == "heic"@ && all[11] == "heif"@);
}

/// The entries of a listing stand in the order of their kinds, then of their names
/// in small letters, then of their names.
pub proof fn law_listing_is_sorted(entries: Seq<EntryView>, i: int, j: int)
    requires
        entries.len() <= usize::MAX,
        0 <= i < j < entries.len(),
    ensures
        ({
            let a = sort_keys(listed(entries))[i];
            let b = sort_keys(listed(entries))[j];
            listing_order::key_before(a, b) || a == b
        }),
{
    let keys = sort_keys(entries);
    listing_order::law_listing_order_exists(keys);
    let order = order_of(entries);
    assert(listing_order::orders(keys, order, 0, entries.len() as int));
    assert(listing_order::listed_before(keys, order[i] as int, order[j] as int));
    assert(sort_keys(listed(entries))[i] == keys[order[i] as int]);
    assert(sort_keys(listed(entries))[j] == keys[order[j] as int]);
}

/// The view of an entry, and of a result, keeps all of it.
pub proof fn law_entry_views(
    entries: Seq<WebFilePickerEntry>,
    i: int,
    result: Result<Json, String>,
)
    ensures
        entry_views(entries).len() == entries.len(),
        0 <= i < entries.len() ==> {
            let view = entry_views(entries)[i];
            &&& opt_entry(Some(entries[i])) == Some(view)
            &&& view.hidden == entries[i].hidden
            &&& view.kind == entries[i].kind
            &&& view.name == entries[i].name@
            &&& view.path == entries[i].path@
            &&& view.size_bytes == entries[i].size_bytes
        },
        opt_entry(None) is None,
        result matches Ok(value) ==> result_tree(result) == Ok::<JsonTree, Seq<char>>(value@),
        result matches Err(message) ==> result_tree(result) == Err::<JsonTree, Seq<char>>(message@),
{
}

/// A directory entry is wanted where it has a name and is a directory, or a link to one,
/// and, where a file is to be picked, also where it is a file, or a link to one, that
/// will do. What it is rests on what the file system says, and nothing else is wanted.
pub proof fn law_wanted_entries(
    found: DirectoryEntry,
    data: EntryMetadata,
    mode: WebFilePickerMode,
    images_only: bool,
)
    requires
        found.name@.len() > 0,
    ensures
        ({
            let wanted = is_wanted(found, mode, images_only);
            let file_wanted = mode == WebFilePickerMode::File && (!images_only || is_image(
                found.name@,
            ));
            &&& found.entry_type is Directory ==> wanted
            &&& found.entry_type is File ==> wanted == file_wanted
            &&& found.entry_type is Symlink && found.metadata == Some(data) && data.is_dir ==> wanted
            &&& found.entry_type is Symlink && found.metadata == Some(data) && !data.is_dir
                && data.is_file ==> wanted == file_wanted
            &&& found.entry_type is Symlink && found.metadata == Some(data) && !data.is_dir
                && !data.is_file ==> !wanted
            &&& found.entry_type is Symlink && found.metadata is None ==> !wanted
            &&& found.entry_type is Other || found.entry_type is Unknown ==> !wanted
        }),
{
}

/// What the file system says of an entry decides its kind and its size.
pub proof fn law_entry_kinds(data: EntryMetadata)
    ensures
        entry_kind(EntryType::Directory, Some(data)) == Some(
            (WebFilePickerEntryKind::Directory, None::<u64>),
        ),
        entry_kind(EntryType::Directory, None) == Some(
            (WebFilePickerEntryKind::Directory, None::<u64>),
        ),
        entry_kind(EntryType::File, Some(data)) == Some(
            (WebFilePickerEntryKind::File, Some(data.len)),
        ),
        entry_kind(EntryType::File, None) == Some((WebFilePickerEntryKind::File, None::<u64>)),
        data.is_dir ==> entry_kind(EntryType::Symlink, Some(data)) == Some(
            (WebFilePickerEntryKind::Directory, None::<u64>),
        ),
        !data.is_dir && data.is_file ==> entry_kind(EntryType::Symlink, Some(data)) == Some(
            (WebFilePickerEntryKind::File, Some(data.len)),
        ),
        !data.is_dir && !data.is_file ==> entry_kind(EntryType::Symlink, Some(data)) is None,
        entry_kind(EntryType::Symlink, None) is None,
        entry_kind(EntryType::Other, Some(data)) is None,
        entry_kind(EntryType::Unknown, Some(data)) is None,
{
}

/// The kinds have names, and directories come first.
pub proof fn law_kinds()
    ensures
        kind_text(WebFilePickerEntryKind::Directory) == "directory"@,
        kind_text(WebFilePickerEntryKind::File) == "file"@,
        kind_rank(WebFilePickerEntryKind::Directory) == 0,
        kind_rank(WebFilePickerEntryKind::File) == 1,
{
}

/// Of two entries in a listing, the first is no file where the second is a directory.
/// Where they are of one kind, the name of the second, in small letters, does not come
/// before that of the first, and where these are the same, neither do the names
/// themselves.
pub proof fn law_listed_names(entries: Seq<EntryView>, i: int, j: int)
    requires
        entries.len() <= usize::MAX,
        0 <= i < j < entries.len(),
    ensures
        ({
            let a = listed(entries)[i];
            let b = listed(entries)[j];
            &&& b.kind == WebFilePickerEntryKind::Directory ==> a.kind
                == WebFilePickerEntryKind::Directory
            &&& a.kind == b.kind ==> lowered(a.name) == lowered(b.name) || text::text_before(
                lowered(a.name),
                lowered(b.name),
            )
            &&& a.kind == b.kind && lowered(a.name) == lowered(b.name) ==> a.name == b.name
                || text::text_before(a.name, b.name)
        }),
{
    law_listing_is_sorted(entries, i, j);
}

} // verus!
