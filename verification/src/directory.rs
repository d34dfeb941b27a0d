//! The data model: a directory of tags and items, the entities they own, and
//! the errors the loader can report.
//!
//! Every entity type has a mathematical view (`...View`) over sequences of
//! characters; all contracts in this crate speak about those views.

use vstd::prelude::*;

verus! {

/// A fatal error raised while loading a directory from its file source.
///
/// Each variant carries the offending identifiers as structured fields rather
/// than a pre-formatted message, so callers can render or test them directly.
#[derive(Clone, Debug, PartialEq, Eq)]
pub enum DirectoryError {
    /// The `tags` sub-collection is missing from the file source.
    TagsDirNotFound,
    /// The `icons` sub-collection is missing from the file source.
    IconsDirNotFound,
    /// Two tag files resolved to the same key (e.g. `foo.yaml` and `foo.yml`).
    TagIsNotUnique(String),
    /// Two item files resolved to the same key (e.g. `foo.yaml` and `foo.yml`).
    ItemIsNotUnique(String),
    /// A file could not be read, or its name has no stem.
    CouldNotReadFile,
    /// A record file did not parse as the expected document shape.
    YamlDeserialization,
    /// The file stem and the record's key disagree: `(stem, key)`.
    FileNameAndKeyDoNotMatch(String, String),
    /// The file stem or the key is not a lowercase `a-z0-9_` identifier.
    ShouldMatchNamingConventions(String),
}

/// The mathematical view of a [`DirectoryError`].
pub enum DirectoryErrorView {
    TagsDirNotFound,
    IconsDirNotFound,
    TagIsNotUnique(Seq<char>),
    ItemIsNotUnique(Seq<char>),
    CouldNotReadFile,
    YamlDeserialization,
    FileNameAndKeyDoNotMatch(Seq<char>, Seq<char>),
    ShouldMatchNamingConventions(Seq<char>),
}

impl View for DirectoryError {
    type V = DirectoryErrorView;

    open spec fn view(&self) -> DirectoryErrorView {
        match self {
            DirectoryError::TagsDirNotFound => DirectoryErrorView::TagsDirNotFound,
            DirectoryError::IconsDirNotFound => DirectoryErrorView::IconsDirNotFound,
            DirectoryError::TagIsNotUnique(k) => DirectoryErrorView::TagIsNotUnique(k@),
            DirectoryError::ItemIsNotUnique(k) => DirectoryErrorView::ItemIsNotUnique(k@),
            DirectoryError::CouldNotReadFile => DirectoryErrorView::CouldNotReadFile,
            DirectoryError::YamlDeserialization => DirectoryErrorView::YamlDeserialization,
            DirectoryError::FileNameAndKeyDoNotMatch(stem, key) => DirectoryErrorView::FileNameAndKeyDoNotMatch(
                stem@,
                key@,
            ),
            DirectoryError::ShouldMatchNamingConventions(s) => DirectoryErrorView::ShouldMatchNamingConventions(s@),
        }
    }
}

/// A category label attachable to items.
#[derive(Clone, Debug, PartialEq, Eq)]
pub struct Tag {
    /// Unique identifier; must equal the stem of the file it was read from.
    pub key: String,
    /// Short display label.
    pub title: String,
    /// Text paragraphs; a valid directory requires at least one.
    pub description: Vec<String>,
    /// Optional cosmetic attribute.
    pub color: Option<String>,
    /// Optional icon file name; must exist in the icon sub-collection.
    pub icon: Option<String>,
    /// Whether the icon should be resized when rendered.
    pub resize_icon: bool,
}

/// The mathematical view of a [`Tag`].
pub struct TagView {
    pub key: Seq<char>,
    pub title: Seq<char>,
    pub description: Seq<Seq<char>>,
    pub color: Option<Seq<char>>,
    pub icon: Option<Seq<char>>,
    pub resize_icon: bool,
}

impl View for Tag {
    type V = TagView;

    open spec fn view(&self) -> TagView {
        TagView {
            key: self.key@,
            title: self.title@,
            description: self.description.deep_view(),
            color: self.color.deep_view(),
            icon: self.icon.deep_view(),
            resize_icon: self.resize_icon,
        }
    }
}

impl DeepView for Tag {
    type V = TagView;

    open spec fn deep_view(&self) -> TagView {
        self.view()
    }
}

/// A directed, dated reference from one item to another.
#[derive(Clone, Debug, PartialEq, Eq)]
pub struct DirectoryLink {
    /// Key of the item the link points at; must exist and differ from the
    /// owning item's own key.
    pub target_key: String,
    /// Year the relationship began.
    pub begin_in: usize,
    /// Year the relationship ended, if it has.
    pub end_in: Option<usize>,
    /// Explanation of the relationship; a valid directory requires it
    /// non-empty.
    pub description: String,
}

/// The mathematical view of a [`DirectoryLink`].
pub struct DirectoryLinkView {
    pub target_key: Seq<char>,
    pub begin_in: usize,
    pub end_in: Option<usize>,
    pub description: Seq<char>,
}

impl View for DirectoryLink {
    type V = DirectoryLinkView;

    open spec fn view(&self) -> DirectoryLinkView {
        DirectoryLinkView {
            target_key: self.target_key@,
            begin_in: self.begin_in,
            end_in: self.end_in,
            description: self.description@,
        }
    }
}

impl DeepView for DirectoryLink {
    type V = DirectoryLinkView;

    open spec fn deep_view(&self) -> DirectoryLinkView {
        self.view()
    }
}

/// A dated timeline entry attached to an item.
#[derive(Clone, Debug, PartialEq, Eq)]
pub struct DirectoryEvent {
    /// Year the event happened.
    pub happened_in: usize,
    /// What happened; a valid directory requires it non-empty.
    pub description: String,
}

/// The mathematical view of a [`DirectoryEvent`].
pub struct DirectoryEventView {
    pub happened_in: usize,
    pub description: Seq<char>,
}

impl View for DirectoryEvent {
    type V = DirectoryEventView;

    open spec fn view(&self) -> DirectoryEventView {
        DirectoryEventView { happened_in: self.happened_in, description: self.description@ }
    }
}

impl DeepView for DirectoryEvent {
    type V = DirectoryEventView;

    open spec fn deep_view(&self) -> DirectoryEventView {
        self.view()
    }
}

/// A single directory entry (e.g. a company) with descriptive metadata.
#[derive(Clone, Debug, PartialEq, Eq)]
pub struct Item {
    /// Unique identifier; must equal the stem of the file it was read from.
    pub key: String,
    /// Display name.
    pub name: String,
    /// Display title.
    pub title: String,
    /// Keys of the tags this item belongs to; each must name an existing tag.
    pub tags: Vec<String>,
    /// Year the item came into existence, where known.
    pub created_in: Option<usize>,
    /// Year the item ceased to exist, if it has.
    pub concluded_in: Option<usize>,
    /// Text paragraphs; a valid directory requires at least one.
    pub description: Vec<String>,
    /// Absolute URL of the item's own site.
    pub url: String,
    /// Optional URL pointing back at this directory.
    pub backlink: Option<String>,
    /// Optional icon file name; must exist in the icon sub-collection.
    pub icon: Option<String>,
    /// Whether the icon should be resized when rendered.
    pub resize_icon: bool,
    /// Whether the item deliberately has no icon.
    pub no_icon: bool,
    /// References to other items.
    pub links: Vec<DirectoryLink>,
    /// Timeline entries.
    pub events: Vec<DirectoryEvent>,
}

/// The mathematical view of an [`Item`].
pub struct ItemView {
    pub key: Seq<char>,
    pub name: Seq<char>,
    pub title: Seq<char>,
    pub tags: Seq<Seq<char>>,
    pub created_in: Option<usize>,
    pub concluded_in: Option<usize>,
    pub description: Seq<Seq<char>>,
    pub url: Seq<char>,
    pub backlink: Option<Seq<char>>,
    pub icon: Option<Seq<char>>,
    pub resize_icon: bool,
    pub no_icon: bool,
    pub links: Seq<DirectoryLinkView>,
    pub events: Seq<DirectoryEventView>,
}

impl View for Item {
    type V = ItemView;

    open spec fn view(&self) -> ItemView {
        ItemView {
            key: self.key@,
            name: self.name@,
            title: self.title@,
            tags: self.tags.deep_view(),
            created_in: self.created_in,
            concluded_in: self.concluded_in,
            description: self.description.deep_view(),
            url: self.url@,
            backlink: self.backlink.deep_view(),
            icon: self.icon.deep_view(),
            resize_icon: self.resize_icon,
            no_icon: self.no_icon,
            links: self.links.deep_view(),
            events: self.events.deep_view(),
        }
    }
}

impl DeepView for Item {
    type V = ItemView;

    open spec fn deep_view(&self) -> ItemView {
        self.view()
    }
}

/// The root in-memory aggregate: the tags and the items of one content
/// directory, each entity carrying its own key.
///
/// Built once by the loader, read-only thereafter. The loader guarantees that
/// keys are unique within each collection; global uniqueness across both is
/// the validator's first check.
#[derive(Clone, Debug, PartialEq, Eq)]
pub struct Directory {
    pub tags: Vec<Tag>,
    pub items: Vec<Item>,
}

/// The mathematical view of a [`Directory`].
pub struct DirectoryView {
    pub tags: Seq<TagView>,
    pub items: Seq<ItemView>,
}

impl View for Directory {
    type V = DirectoryView;

    open spec fn view(&self) -> DirectoryView {
        DirectoryView { tags: self.tags.deep_view(), items: self.items.deep_view() }
    }
}

impl DeepView for Directory {
    type V = DirectoryView;

    open spec fn deep_view(&self) -> DirectoryView {
        self.view()
    }
}

/// The keys of a sequence of tags, in order.
pub open spec fn tag_keys_of(tags: Seq<TagView>) -> Seq<Seq<char>> {
    Seq::new(tags.len(), |i: int| tags[i].key)
}

/// The keys of a sequence of items, in order.
pub open spec fn item_keys_of(items: Seq<ItemView>) -> Seq<Seq<char>> {
    Seq::new(items.len(), |i: int| items[i].key)
}

/// All keys of a directory: tag keys first, then item keys.
pub open spec fn all_keys_of(d: DirectoryView) -> Seq<Seq<char>> {
    tag_keys_of(d.tags) + item_keys_of(d.items)
}

/// Pushing onto a vector pushes the element's view onto the vector's deep
/// view.
pub proof fn lemma_deep_view_push<T: DeepView>(pre: Vec<T>, post: Vec<T>, x: T)
    requires
        post@ == pre@.push(x),
    ensures
        post.deep_view() == pre.deep_view().push(x.deep_view()),
{
    assert forall|j: int| 0 <= j < post@.len() implies #[trigger] post.deep_view()[j]
        == pre.deep_view().push(x.deep_view())[j] by {
        if j < pre@.len() {
            assert(post@[j] == pre@[j]);
            assert(pre.deep_view()[j] == pre@[j].deep_view());
        } else {
            assert(post@[j] == x);
        }
    }
    assert(post.deep_view() =~= pre.deep_view().push(x.deep_view()));
}

/// A concatenation contains an element exactly when one of its parts does.
pub proof fn lemma_concat_contains<A>(a: Seq<A>, b: Seq<A>, x: A)
    ensures
        (a + b).contains(x) <==> a.contains(x) || b.contains(x),
{
    if a.contains(x) {
        let i = choose|i: int| 0 <= i < a.len() && a[i] == x;
        assert((a + b)[i] == x);
    }
    if b.contains(x) {
        let i = choose|i: int| 0 <= i < b.len() && b[i] == x;
        assert((a + b)[a.len() + i] == x);
    }
    if (a + b).contains(x) {
        let i = choose|i: int| 0 <= i < (a + b).len() && (a + b)[i] == x;
        if i < a.len() {
            assert(a[i] == x);
        } else {
            assert(b[i - a.len()] == x);
        }
    }
}

} // verus!
