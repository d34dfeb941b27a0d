//! The loader: turns an abstract file source into a [`Directory`], rejecting
//! malformed input eagerly — the first error aborts the whole load and no
//! partial directory is ever returned.
//!
//! The file source is a plain value: how records are embedded, fetched or
//! packaged, and how their text is parsed into typed records, is the caller's
//! business. The loader consumes, per file, its name and the outcome of
//! reading and parsing it.

use vstd::prelude::*;

verus! {

use crate::directory::{
    Directory, DirectoryError, DirectoryErrorView, DirectoryView, Item, ItemView, Tag, TagView,
    tag_keys_of, item_keys_of,
};
use crate::naming::{
    get_file_stem, is_yaml, check_filename_and_key, spec_check_filename_and_key, spec_file_stem,
    spec_is_yaml, str_eq,
};

/// The outcome of reading one tag record file: its text could not be read,
/// its text did not parse as a tag document, or it parsed into a [`Tag`].
pub enum TagRecord {
    Unreadable,
    Malformed,
    Parsed(Tag),
}

/// The mathematical view of a [`TagRecord`].
pub enum TagRecordView {
    Unreadable,
    Malformed,
    Parsed(TagView),
}

impl View for TagRecord {
    type V = TagRecordView;

    open spec fn view(&self) -> TagRecordView {
        match self {
            TagRecord::Unreadable => TagRecordView::Unreadable,
            TagRecord::Malformed => TagRecordView::Malformed,
            TagRecord::Parsed(t) => TagRecordView::Parsed(t@),
        }
    }
}

/// One file of the `tags` sub-collection: its name and its parse outcome.
pub struct TagSourceFile {
    /// The file's name, extension included (e.g. `b2b.yaml`).
    pub name: String,
    /// What reading and parsing the file yielded.
    pub record: TagRecord,
}

/// The mathematical view of a [`TagSourceFile`].
pub struct TagSourceFileView {
    pub name: Seq<char>,
    pub record: TagRecordView,
}

impl View for TagSourceFile {
    type V = TagSourceFileView;

    open spec fn view(&self) -> TagSourceFileView {
        TagSourceFileView { name: self.name@, record: self.record@ }
    }
}

impl DeepView for TagSourceFile {
    type V = TagSourceFileView;

    open spec fn deep_view(&self) -> TagSourceFileView {
        self.view()
    }
}

/// The outcome of reading one top-level record file, as for [`TagRecord`].
pub enum ItemRecord {
    Unreadable,
    Malformed,
    Parsed(Item),
}

/// The mathematical view of an [`ItemRecord`].
pub enum ItemRecordView {
    Unreadable,
    Malformed,
    Parsed(ItemView),
}

impl View for ItemRecord {
    type V = ItemRecordView;

    open spec fn view(&self) -> ItemRecordView {
        match self {
            ItemRecord::Unreadable => ItemRecordView::Unreadable,
            ItemRecord::Malformed => ItemRecordView::Malformed,
            ItemRecord::Parsed(t) => ItemRecordView::Parsed(t@),
        }
    }
}

/// One top-level file of the source: its name and its parse outcome.
pub struct ItemSourceFile {
    /// The file's name, extension included (e.g. `wymmo.yaml`).
    pub name: String,
    /// What reading and parsing the file yielded.
    pub record: ItemRecord,
}

/// The mathematical view of an [`ItemSourceFile`].
pub struct ItemSourceFileView {
    pub name: Seq<char>,
    pub record: ItemRecordView,
}

impl View for ItemSourceFile {
    type V = ItemSourceFileView;

    open spec fn view(&self) -> ItemSourceFileView {
        ItemSourceFileView { name: self.name@, record: self.record@ }
    }
}

impl DeepView for ItemSourceFile {
    type V = ItemSourceFileView;

    open spec fn deep_view(&self) -> ItemSourceFileView {
        self.view()
    }
}

/// A read-only snapshot of the record store the loader consumes: the files of
/// the `tags` sub-collection, the file names of the `icons` sub-collection,
/// and the top-level files. A missing sub-collection is `None`.
pub struct FileSource {
    /// The files of the `tags` sub-collection, or `None` when that
    /// sub-collection does not exist.
    pub tag_files: Option<Vec<TagSourceFile>>,
    /// The names of the files of the `icons` sub-collection, or `None` when
    /// that sub-collection does not exist.
    pub icon_files: Option<Vec<String>>,
    /// All top-level files; item records live here.
    pub root_files: Vec<ItemSourceFile>,
}

/// The mathematical view of a [`FileSource`].
pub struct FileSourceView {
    pub tag_files: Option<Seq<TagSourceFileView>>,
    pub icon_files: Option<Seq<Seq<char>>>,
    pub root_files: Seq<ItemSourceFileView>,
}

impl View for FileSource {
    type V = FileSourceView;

    open spec fn view(&self) -> FileSourceView {
        FileSourceView {
            tag_files: match self.tag_files {
                Some(files) => Some(files.deep_view()),
                None => None,
            },
            icon_files: match self.icon_files {
                Some(names) => Some(names.deep_view()),
                None => None,
            },
            root_files: self.root_files.deep_view(),
        }
    }
}

/// Whether some tag in `tags` carries `key`.
pub open spec fn tags_have_key(tags: Seq<TagView>, key: Seq<char>) -> bool {
    tag_keys_of(tags).contains(key)
}

/// Whether some item in `items` carries `key`.
pub open spec fn items_have_key(items: Seq<ItemView>, key: Seq<char>) -> bool {
    item_keys_of(items).contains(key)
}

/// The tag a parsed record resolves to: the record itself, or, when it leaves
/// `key` empty, the record with the file's stem as its key.
pub open spec fn spec_resolved_tag(parsed: TagView, name: Seq<char>) -> TagView {
    if parsed.key.len() == 0 {
        TagView { key: spec_file_stem(name), ..parsed }
    } else {
        parsed
    }
}

/// The item a parsed record resolves to, as for [`spec_resolved_tag`].
pub open spec fn spec_resolved_item(parsed: ItemView, name: Seq<char>) -> ItemView {
    if parsed.key.len() == 0 {
        ItemView { key: spec_file_stem(name), ..parsed }
    } else {
        parsed
    }
}

/// What loading one tag file adds to the tags loaded so far: a file without a
/// record extension is skipped; otherwise the record must have been read and
/// parsed, its resolved key must match the file name, and the key must not
/// already be taken.
pub open spec fn spec_load_tag_file(acc: Seq<TagView>, f: TagSourceFileView) -> Result<
    Seq<TagView>,
    DirectoryErrorView,
> {
    if !spec_is_yaml(f.name) {
        Ok(acc)
    } else {
        match f.record {
            TagRecordView::Unreadable => Err(DirectoryErrorView::CouldNotReadFile),
            TagRecordView::Malformed => Err(DirectoryErrorView::YamlDeserialization),
            TagRecordView::Parsed(parsed) => {
                let tag = spec_resolved_tag(parsed, f.name);
                match spec_check_filename_and_key(f.name, tag.key) {
                    Err(e) => Err(e),
                    Ok(u) => if tags_have_key(acc, tag.key) {
                        Err(DirectoryErrorView::TagIsNotUnique(tag.key))
                    } else {
                        Ok(acc.push(tag))
                    },
                }
            },
        }
    }
}

/// What loading one top-level file adds, as for [`spec_load_tag_file`].
pub open spec fn spec_load_item_file(acc: Seq<ItemView>, f: ItemSourceFileView) -> Result<
    Seq<ItemView>,
    DirectoryErrorView,
> {
    if !spec_is_yaml(f.name) {
        Ok(acc)
    } else {
        match f.record {
            ItemRecordView::Unreadable => Err(DirectoryErrorView::CouldNotReadFile),
            ItemRecordView::Malformed => Err(DirectoryErrorView::YamlDeserialization),
            ItemRecordView::Parsed(parsed) => {
                let item = spec_resolved_item(parsed, f.name);
                match spec_check_filename_and_key(f.name, item.key) {
                    Err(e) => Err(e),
                    Ok(u) => if items_have_key(acc, item.key) {
                        Err(DirectoryErrorView::ItemIsNotUnique(item.key))
                    } else {
                        Ok(acc.push(item))
                    },
                }
            },
        }
    }
}

/// The tags that loading `files` in order yields, or the first error raised.
pub open spec fn spec_load_tags(files: Seq<TagSourceFileView>) -> Result<
    Seq<TagView>,
    DirectoryErrorView,
>
    decreases files.len(),
{
    if files.len() == 0 {
        Ok(Seq::empty())
    } else {
        match spec_load_tags(files.drop_last()) {
            Err(e) => Err(e),
            Ok(acc) => spec_load_tag_file(acc, files.last()),
        }
    }
}

/// The items that loading `files` in order yields, or the first error raised.
pub open spec fn spec_load_items(files: Seq<ItemSourceFileView>) -> Result<
    Seq<ItemView>,
    DirectoryErrorView,
>
    decreases files.len(),
{
    if files.len() == 0 {
        Ok(Seq::empty())
    } else {
        match spec_load_items(files.drop_last()) {
            Err(e) => Err(e),
            Ok(acc) => spec_load_item_file(acc, files.last()),
        }
    }
}

/// The directory that loading `source` yields: both sub-collections must
/// exist, then the tag files load, then the top-level files.
pub open spec fn spec_load_directory(source: FileSourceView) -> Result<
    DirectoryView,
    DirectoryErrorView,
> {
    match source.tag_files {
        None => Err(DirectoryErrorView::TagsDirNotFound),
        Some(tag_files) => match source.icon_files {
            None => Err(DirectoryErrorView::IconsDirNotFound),
            Some(icon_files) => match spec_load_tags(tag_files) {
                Err(e) => Err(e),
                Ok(tags) => match spec_load_items(source.root_files) {
                    Err(e) => Err(e),
                    Ok(items) => Ok(DirectoryView { tags, items }),
                },
            },
        },
    }
}

/// An error raised by some prefix of the files settles the whole load.
proof fn lemma_load_tags_err_prefix(files: Seq<TagSourceFileView>, k: int)
    requires
        0 <= k <= files.len(),
        spec_load_tags(files.take(k)) is Err,
    ensures
        spec_load_tags(files) == spec_load_tags(files.take(k)),
    decreases files.len(),
{
    if k == files.len() {
        assert(files.take(k) =~= files);
    } else {
        assert(files.drop_last().take(k) =~= files.take(k));
        lemma_load_tags_err_prefix(files.drop_last(), k);
    }
}

/// An error raised by some prefix of the files settles the whole load.
proof fn lemma_load_items_err_prefix(files: Seq<ItemSourceFileView>, k: int)
    requires
        0 <= k <= files.len(),
        spec_load_items(files.take(k)) is Err,
    ensures
        spec_load_items(files) == spec_load_items(files.take(k)),
    decreases files.len(),
{
    if k == files.len() {
        assert(files.take(k) =~= files);
    } else {
        assert(files.drop_last().take(k) =~= files.take(k));
        lemma_load_items_err_prefix(files.drop_last(), k);
    }
}

/// A copy of `v` whose strings are equal, character for character.
fn duplicate_string_vec(v: &Vec<String>) -> (r: Vec<String>)
    ensures
        r.deep_view() == v.deep_view(),
{
    let mut out: Vec<String> = Vec::new();
    proof {
        assert(out.deep_view() =~= v.deep_view().take(0));
    }
    let mut i: usize = 0;
    while i < v.len()
        invariant
            i <= v.len(),
            out.deep_view() == v.deep_view().take(i as int),
        decreases v.len() - i,
    {
        let ghost pre = out;
        let copy = v[i].clone();
        let ghost x = copy;
        out.push(copy);
        proof {
            crate::directory::lemma_deep_view_push(pre, out, x);
            assert(v.deep_view()[i as int] == v@[i as int].deep_view());
            assert(out.deep_view() =~= v.deep_view().take(i as int + 1));
        }
        i += 1;
    }
    proof {
        assert(v.deep_view().take(v.len() as int) =~= v.deep_view());
    }
    out
}

/// A copy of `v` with an equal view.
fn duplicate_opt_string(v: &Option<String>) -> (r: Option<String>)
    ensures
        r.deep_view() == v.deep_view(),
{
    match v {
        Some(s) => Some(s.clone()),
        None => None,
    }
}

/// A copy of `t` with an equal view.
fn duplicate_tag(t: &Tag) -> (r: Tag)
    ensures
        r@ == t@,
{
    Tag {
        key: t.key.clone(),
        title: t.title.clone(),
        description: duplicate_string_vec(&t.description),
        color: duplicate_opt_string(&t.color),
        icon: duplicate_opt_string(&t.icon),
        resize_icon: t.resize_icon,
    }
}

/// A copy of `l` with an equal view.
fn duplicate_link(l: &crate::directory::DirectoryLink) -> (r: crate::directory::DirectoryLink)
    ensures
        r@ == l@,
{
    crate::directory::DirectoryLink {
        target_key: l.target_key.clone(),
        begin_in: l.begin_in,
        end_in: l.end_in,
        description: l.description.clone(),
    }
}

/// A copy of `v` whose links have equal views.
fn duplicate_links(v: &Vec<crate::directory::DirectoryLink>) -> (r: Vec<
    crate::directory::DirectoryLink,
>)
    ensures
        r.deep_view() == v.deep_view(),
{
    let mut out: Vec<crate::directory::DirectoryLink> = Vec::new();
    proof {
        assert(out.deep_view() =~= v.deep_view().take(0));
    }
    let mut i: usize = 0;
    while i < v.len()
        invariant
            i <= v.len(),
            out.deep_view() == v.deep_view().take(i as int),
        decreases v.len() - i,
    {
        let copy = duplicate_link(&v[i]);
        let ghost pre = out;
        let ghost x = copy;
        out.push(copy);
        proof {
            crate::directory::lemma_deep_view_push(pre, out, x);
            assert(v.deep_view()[i as int] == v@[i as int].deep_view());
            assert(out.deep_view() =~= v.deep_view().take(i as int + 1));
        }
        i += 1;
    }
    proof {
        assert(v.deep_view().take(v.len() as int) =~= v.deep_view());
    }
    out
}

/// A copy of `e` with an equal view.
fn duplicate_event(e: &crate::directory::DirectoryEvent) -> (r: crate::directory::DirectoryEvent)
    ensures
        r@ == e@,
{
    crate::directory::DirectoryEvent {
        happened_in: e.happened_in,
        description: e.description.clone(),
    }
}

/// A copy of `v` whose events have equal views.
fn duplicate_events(v: &Vec<crate::directory::DirectoryEvent>) -> (r: Vec<
    crate::directory::DirectoryEvent,
>)
    ensures
        r.deep_view() == v.deep_view(),
{
    let mut out: Vec<crate::directory::DirectoryEvent> = Vec::new();
    proof {
        assert(out.deep_view() =~= v.deep_view().take(0));
    }
    let mut i: usize = 0;
    while i < v.len()
        invariant
            i <= v.len(),
            out.deep_view() == v.deep_view().take(i as int),
        decreases v.len() - i,
    {
        let copy = duplicate_event(&v[i]);
        let ghost pre = out;
        let ghost x = copy;
        out.push(copy);
        proof {
            crate::directory::lemma_deep_view_push(pre, out, x);
            assert(v.deep_view()[i as int] == v@[i as int].deep_view());
            assert(out.deep_view() =~= v.deep_view().take(i as int + 1));
        }
        i += 1;
    }
    proof {
        assert(v.deep_view().take(v.len() as int) =~= v.deep_view());
    }
    out
}

/// A copy of `item` with an equal view.
fn duplicate_item(item: &Item) -> (r: Item)
    ensures
        r@ == item@,
{
    Item {
        key: item.key.clone(),
        name: item.name.clone(),
        title: item.title.clone(),
        tags: duplicate_string_vec(&item.tags),
        created_in: item.created_in,
        concluded_in: item.concluded_in,
        description: duplicate_string_vec(&item.description),
        url: item.url.clone(),
        backlink: duplicate_opt_string(&item.backlink),
        icon: duplicate_opt_string(&item.icon),
        resize_icon: item.resize_icon,
        no_icon: item.no_icon,
        links: duplicate_links(&item.links),
        events: duplicate_events(&item.events),
    }
}

/// Whether some already-loaded tag carries `key`.
pub(crate) fn tags_contain_key(tags: &Vec<Tag>, key: &str) -> (r: bool)
    ensures
        r == tags_have_key(tags.deep_view(), key@),
{
    let mut i: usize = 0;
    while i < tags.len()
        invariant
            i <= tags.len(),
            forall|j: int| 0 <= j < i ==> tags.deep_view()[j].key != key@,
        decreases tags.len() - i,
    {
        if str_eq(tags[i].key.as_str(), key) {
            proof {
                assert(tag_keys_of(tags.deep_view())[i as int] == key@);
            }
            return true;
        }
        i += 1;
    }
    proof {
        assert forall|j: int|
            0 <= j < tag_keys_of(tags.deep_view()).len() implies tag_keys_of(tags.deep_view())[j]
            != key@ by {
            assert(tag_keys_of(tags.deep_view())[j] == tags.deep_view()[j].key);
        }
    }
    false
}

/// Whether some already-loaded item carries `key`.
pub(crate) fn items_contain_key(items: &Vec<Item>, key: &str) -> (r: bool)
    ensures
        r == items_have_key(items.deep_view(), key@),
{
    let mut i: usize = 0;
    while i < items.len()
        invariant
            i <= items.len(),
            forall|j: int| 0 <= j < i ==> items.deep_view()[j].key != key@,
        decreases items.len() - i,
    {
        if str_eq(items[i].key.as_str(), key) {
            proof {
                assert(item_keys_of(items.deep_view())[i as int] == key@);
            }
            return true;
        }
        i += 1;
    }
    proof {
        assert forall|j: int|
            0 <= j < item_keys_of(items.deep_view()).len() implies item_keys_of(items.deep_view())[j]
            != key@ by {
            assert(item_keys_of(items.deep_view())[j] == items.deep_view()[j].key);
        }
    }
    false
}

/// Loads every record file of the `tags` sub-collection, in order.
fn load_tags(files: &Vec<TagSourceFile>) -> (r: Result<Vec<Tag>, DirectoryError>)
    ensures
        match r {
            Ok(tags) => spec_load_tags(files.deep_view()) == Ok::<_, DirectoryErrorView>(
                tags.deep_view(),
            ),
            Err(e) => spec_load_tags(files.deep_view()) == Err::<Seq<TagView>, _>(e@),
        },
{
    let mut tags: Vec<Tag> = Vec::new();
    proof {
        assert(files.deep_view().take(0) =~= Seq::<TagSourceFileView>::empty());
        assert(tags.deep_view() =~= Seq::<TagView>::empty());
    }
    let mut i: usize = 0;
    while i < files.len()
        invariant
            i <= files.len(),
            spec_load_tags(files.deep_view().take(i as int)) == Ok::<_, DirectoryErrorView>(
                tags.deep_view(),
            ),
        decreases files.len() - i,
    {
        proof {
            assert(files.deep_view().take(i as int + 1).drop_last() =~= files.deep_view().take(
                i as int,
            ));
            assert(files.deep_view().take(i as int + 1).last() == files.deep_view()[i as int]);
            assert(files.deep_view()[i as int] == files@[i as int].deep_view());
        }
        let f = &files[i];
        if is_yaml(f.name.as_str()) {
            match &f.record {
                TagRecord::Unreadable => {
                    proof {
                        lemma_load_tags_err_prefix(files.deep_view(), i as int + 1);
                    }
                    return Err(DirectoryError::CouldNotReadFile);
                },
                TagRecord::Malformed => {
                    proof {
                        lemma_load_tags_err_prefix(files.deep_view(), i as int + 1);
                    }
                    return Err(DirectoryError::YamlDeserialization);
                },
                TagRecord::Parsed(parsed) => {
                    let resolved: Tag = if parsed.key.as_str().is_empty() {
                        match get_file_stem(f.name.as_str()) {
                            Ok(stem) => {
                                let mut t = duplicate_tag(parsed);
                                t.key = stem;
                                t
                            },
                            Err(_) => {
                                // a record file's name carries an extension,
                                // so it is non-empty and always has a stem
                                proof {
                                    assert(false);
                                }
                                duplicate_tag(parsed)
                            },
                        }
                    } else {
                        duplicate_tag(parsed)
                    };
                    proof {
                        assert(resolved@ == spec_resolved_tag(parsed@, f.name@));
                    }
                    if let Err(e) = check_filename_and_key(f.name.as_str(), resolved.key.as_str()) {
                        proof {
                            lemma_load_tags_err_prefix(files.deep_view(), i as int + 1);
                        }
                        return Err(e);
                    }
                    if tags_contain_key(&tags, resolved.key.as_str()) {
                        proof {
                            lemma_load_tags_err_prefix(files.deep_view(), i as int + 1);
                        }
                        return Err(DirectoryError::TagIsNotUnique(resolved.key));
                    }
                    let ghost pre = tags;
                    let ghost x = resolved;
                    tags.push(resolved);
                    proof {
                        crate::directory::lemma_deep_view_push(pre, tags, x);
                    }
                },
            }
        }
        i += 1;
    }
    proof {
        assert(files.deep_view().take(files.len() as int) =~= files.deep_view());
    }
    Ok(tags)
}

/// Loads every top-level record file, in order.
fn load_items(files: &Vec<ItemSourceFile>) -> (r: Result<Vec<Item>, DirectoryError>)
    ensures
        match r {
            Ok(items) => spec_load_items(files.deep_view()) == Ok::<_, DirectoryErrorView>(
                items.deep_view(),
            ),
            Err(e) => spec_load_items(files.deep_view()) == Err::<Seq<ItemView>, _>(e@),
        },
{
    let mut items: Vec<Item> = Vec::new();
    proof {
        assert(files.deep_view().take(0) =~= Seq::<ItemSourceFileView>::empty());
        assert(items.deep_view() =~= Seq::<ItemView>::empty());
    }
    let mut i: usize = 0;
    while i < files.len()
        invariant
            i <= files.len(),
            spec_load_items(files.deep_view().take(i as int)) == Ok::<_, DirectoryErrorView>(
                items.deep_view(),
            ),
        decreases files.len() - i,
    {
        proof {
            assert(files.deep_view().take(i as int + 1).drop_last() =~= files.deep_view().take(
                i as int,
            ));
            assert(files.deep_view().take(i as int + 1).last() == files.deep_view()[i as int]);
            assert(files.deep_view()[i as int] == files@[i as int].deep_view());
        }
        let f = &files[i];
        if is_yaml(f.name.as_str()) {
            match &f.record {
                ItemRecord::Unreadable => {
                    proof {
                        lemma_load_items_err_prefix(files.deep_view(), i as int + 1);
                    }
                    return Err(DirectoryError::CouldNotReadFile);
                },
                ItemRecord::Malformed => {
                    proof {
                        lemma_load_items_err_prefix(files.deep_view(), i as int + 1);
                    }
                    return Err(DirectoryError::YamlDeserialization);
                },
                ItemRecord::Parsed(parsed) => {
                    let resolved: Item = if parsed.key.as_str().is_empty() {
                        match get_file_stem(f.name.as_str()) {
                            Ok(stem) => {
                                let mut it = duplicate_item(parsed);
                                it.key = stem;
                                it
                            },
                            Err(_) => {
                                // a record file's name carries an extension,
                                // so it is non-empty and always has a stem
                                proof {
                                    assert(false);
                                }
                                duplicate_item(parsed)
                            },
                        }
                    } else {
                        duplicate_item(parsed)
                    };
                    proof {
                        assert(resolved@ == spec_resolved_item(parsed@, f.name@));
                    }
                    if let Err(e) = check_filename_and_key(f.name.as_str(), resolved.key.as_str()) {
                        proof {
                            lemma_load_items_err_prefix(files.deep_view(), i as int + 1);
                        }
                        return Err(e);
                    }
                    if items_contain_key(&items, resolved.key.as_str()) {
                        proof {
                            lemma_load_items_err_prefix(files.deep_view(), i as int + 1);
                        }
                        return Err(DirectoryError::ItemIsNotUnique(resolved.key));
                    }
                    let ghost pre = items;
                    let ghost x = resolved;
                    items.push(resolved);
                    proof {
                        crate::directory::lemma_deep_view_push(pre, items, x);
                    }
                },
            }
        }
        i += 1;
    }
    proof {
        assert(files.deep_view().take(files.len() as int) =~= files.deep_view());
    }
    Ok(items)
}

/// Loads a whole directory from `source`: both sub-collections must exist,
/// then every tag file and every top-level record file is loaded in order.
/// The first error aborts the load; on success the directory holds exactly
/// the loaded tags and items.
pub fn load_directory(source: &FileSource) -> (r: Result<Directory, DirectoryError>)
    ensures
        match r {
            Ok(d) => spec_load_directory(source@) == Ok::<_, DirectoryErrorView>(d@),
            Err(e) => spec_load_directory(source@) == Err::<DirectoryView, _>(e@),
        },
{
    let tag_files = match &source.tag_files {
        Some(files) => files,
        None => {
            return Err(DirectoryError::TagsDirNotFound);
        },
    };
    if source.icon_files.is_none() {
        return Err(DirectoryError::IconsDirNotFound);
    }
    let tags = match load_tags(tag_files) {
        Ok(tags) => tags,
        Err(e) => {
            return Err(e);
        },
    };
    let items = match load_items(&source.root_files) {
        Ok(items) => items,
        Err(e) => {
            return Err(e);
        },
    };
    Ok(Directory { tags, items })
}

} // verus!
