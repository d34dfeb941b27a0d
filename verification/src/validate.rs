//! The validator: a pure pass over a loaded [`Directory`] that reports every
//! consistency violation found, never stopping at the first one, so a content
//! author gets full feedback in one run.
//!
//! The checks run in a fixed order: global key uniqueness over tags then
//! items; per tag, usage, description content and icon existence; per item,
//! tag references, description content, links, events and icon existence.
//! The directory is valid exactly when the reported list is empty.

use vstd::prelude::*;

verus! {

use crate::directory::{
    Directory, DirectoryView, Item, ItemView, Tag, TagView, DirectoryLinkView, DirectoryEventView,
    all_keys_of, item_keys_of, lemma_concat_contains, lemma_deep_view_push, tag_keys_of,
};
use crate::loader::{items_have_key, tags_have_key};
use crate::naming::str_eq;

/// One consistency violation found in a loaded directory. Each variant
/// carries the identifiers of the entities at fault.
#[derive(Clone, Debug, PartialEq, Eq)]
pub enum Violation {
    /// A key is carried by more than one entity across tags and items.
    KeyConflict { key: String },
    /// No item's `tags` list references this tag.
    UnusedTag { tag_key: String },
    /// A tag's description has no paragraphs.
    EmptyTagDescription { tag_key: String },
    /// A tag names an icon file that the icon sub-collection does not hold.
    MissingTagIcon { tag_key: String, icon: String },
    /// An item references a tag key that no tag carries.
    UnknownItemTag { item_key: String, tag_key: String },
    /// An item's description has no paragraphs.
    EmptyItemDescription { item_key: String },
    /// A link points at a key that no item carries.
    UnknownLinkTarget { item_key: String, target_key: String },
    /// A link points at its own item.
    SelfLink { item_key: String },
    /// A link's description is empty.
    EmptyLinkDescription { item_key: String, target_key: String },
    /// An event's description is empty.
    EmptyEventDescription { item_key: String },
    /// An item names an icon file that the icon sub-collection does not hold.
    MissingItemIcon { item_key: String, icon: String },
}

/// The mathematical view of a [`Violation`].
pub enum ViolationView {
    KeyConflict { key: Seq<char> },
    UnusedTag { tag_key: Seq<char> },
    EmptyTagDescription { tag_key: Seq<char> },
    MissingTagIcon { tag_key: Seq<char>, icon: Seq<char> },
    UnknownItemTag { item_key: Seq<char>, tag_key: Seq<char> },
    EmptyItemDescription { item_key: Seq<char> },
    UnknownLinkTarget { item_key: Seq<char>, target_key: Seq<char> },
    SelfLink { item_key: Seq<char> },
    EmptyLinkDescription { item_key: Seq<char>, target_key: Seq<char> },
    EmptyEventDescription { item_key: Seq<char> },
    MissingItemIcon { item_key: Seq<char>, icon: Seq<char> },
}

impl View for Violation {
    type V = ViolationView;

    open spec fn view(&self) -> ViolationView {
        match self {
            Violation::KeyConflict { key } => ViolationView::KeyConflict { key: key@ },
            Violation::UnusedTag { tag_key } => ViolationView::UnusedTag { tag_key: tag_key@ },
            Violation::EmptyTagDescription { tag_key } => ViolationView::EmptyTagDescription {
                tag_key: tag_key@,
            },
            Violation::MissingTagIcon { tag_key, icon } => ViolationView::MissingTagIcon {
                tag_key: tag_key@,
                icon: icon@,
            },
            Violation::UnknownItemTag { item_key, tag_key } => ViolationView::UnknownItemTag {
                item_key: item_key@,
                tag_key: tag_key@,
            },
            Violation::EmptyItemDescription { item_key } => ViolationView::EmptyItemDescription {
                item_key: item_key@,
            },
            Violation::UnknownLinkTarget { item_key, target_key } => ViolationView::UnknownLinkTarget {
                item_key: item_key@,
                target_key: target_key@,
            },
            Violation::SelfLink { item_key } => ViolationView::SelfLink { item_key: item_key@ },
            Violation::EmptyLinkDescription { item_key, target_key } => ViolationView::EmptyLinkDescription {
                item_key: item_key@,
                target_key: target_key@,
            },
            Violation::EmptyEventDescription { item_key } => ViolationView::EmptyEventDescription {
                item_key: item_key@,
            },
            Violation::MissingItemIcon { item_key, icon } => ViolationView::MissingItemIcon {
                item_key: item_key@,
                icon: icon@,
            },
        }
    }
}

impl DeepView for Violation {
    type V = ViolationView;

    open spec fn deep_view(&self) -> ViolationView {
        self.view()
    }
}

/// Whether some item's `tags` list references `key`.
pub open spec fn tag_is_used(items: Seq<ItemView>, key: Seq<char>) -> bool {
    exists|i: int| 0 <= i < items.len() && items[i].tags.contains(key)
}

/// The key-uniqueness violations over `keys`, in order: one conflict for
/// every position whose key already occurred earlier.
pub open spec fn spec_key_conflicts(keys: Seq<Seq<char>>) -> Seq<ViolationView>
    decreases keys.len(),
{
    if keys.len() == 0 {
        Seq::empty()
    } else {
        spec_key_conflicts(keys.drop_last()) + (if keys.drop_last().contains(keys.last()) {
            seq![ViolationView::KeyConflict { key: keys.last() }]
        } else {
            Seq::empty()
        })
    }
}

/// The violations one tag contributes: unused, empty description, missing
/// icon — in that order.
pub open spec fn spec_tag_checks(d: DirectoryView, icons: Seq<Seq<char>>, tag: TagView) -> Seq<
    ViolationView,
> {
    (if !tag_is_used(d.items, tag.key) {
        seq![ViolationView::UnusedTag { tag_key: tag.key }]
    } else {
        Seq::empty()
    }) + (if tag.description.len() == 0 {
        seq![ViolationView::EmptyTagDescription { tag_key: tag.key }]
    } else {
        Seq::empty()
    }) + (match tag.icon {
        Some(icon) => if !icons.contains(icon) {
            seq![ViolationView::MissingTagIcon { tag_key: tag.key, icon }]
        } else {
            Seq::empty()
        },
        None => Seq::empty(),
    })
}

/// The violations all tags contribute, in order.
pub open spec fn spec_tags_checks(d: DirectoryView, icons: Seq<Seq<char>>, tags: Seq<TagView>) -> Seq<
    ViolationView,
>
    decreases tags.len(),
{
    if tags.len() == 0 {
        Seq::empty()
    } else {
        spec_tags_checks(d, icons, tags.drop_last()) + spec_tag_checks(d, icons, tags.last())
    }
}

/// The dangling-tag-reference violations of one item's `tags` list, in order.
pub open spec fn spec_tag_ref_checks(
    tags: Seq<TagView>,
    item_key: Seq<char>,
    refs: Seq<Seq<char>>,
) -> Seq<ViolationView>
    decreases refs.len(),
{
    if refs.len() == 0 {
        Seq::empty()
    } else {
        spec_tag_ref_checks(tags, item_key, refs.drop_last()) + (if !tags_have_key(
            tags,
            refs.last(),
        ) {
            seq![ViolationView::UnknownItemTag { item_key, tag_key: refs.last() }]
        } else {
            Seq::empty()
        })
    }
}

/// The violations one link contributes: dangling target, self reference,
/// empty description — in that order.
pub open spec fn spec_link_checks(
    items: Seq<ItemView>,
    item_key: Seq<char>,
    link: DirectoryLinkView,
) -> Seq<ViolationView> {
    (if !items_have_key(items, link.target_key) {
        seq![ViolationView::UnknownLinkTarget { item_key, target_key: link.target_key }]
    } else {
        Seq::empty()
    }) + (if link.target_key == item_key {
        seq![ViolationView::SelfLink { item_key }]
    } else {
        Seq::empty()
    }) + (if link.description.len() == 0 {
        seq![ViolationView::EmptyLinkDescription { item_key, target_key: link.target_key }]
    } else {
        Seq::empty()
    })
}

/// The violations all links of one item contribute, in order.
pub open spec fn spec_links_checks(
    items: Seq<ItemView>,
    item_key: Seq<char>,
    links: Seq<DirectoryLinkView>,
) -> Seq<ViolationView>
    decreases links.len(),
{
    if links.len() == 0 {
        Seq::empty()
    } else {
        spec_links_checks(items, item_key, links.drop_last()) + spec_link_checks(
            items,
            item_key,
            links.last(),
        )
    }
}

/// The violation one event contributes when its description is empty.
pub open spec fn spec_event_checks(item_key: Seq<char>, event: DirectoryEventView) -> Seq<
    ViolationView,
> {
    if event.description.len() == 0 {
        seq![ViolationView::EmptyEventDescription { item_key }]
    } else {
        Seq::empty()
    }
}

/// The violations all events of one item contribute, in order.
pub open spec fn spec_events_checks(item_key: Seq<char>, events: Seq<DirectoryEventView>) -> Seq<
    ViolationView,
>
    decreases events.len(),
{
    if events.len() == 0 {
        Seq::empty()
    } else {
        spec_events_checks(item_key, events.drop_last()) + spec_event_checks(
            item_key,
            events.last(),
        )
    }
}

/// The violations one item contributes: dangling tag references, empty
/// description, link checks, event checks, missing icon — in that order.
pub open spec fn spec_item_checks(d: DirectoryView, icons: Seq<Seq<char>>, item: ItemView) -> Seq<
    ViolationView,
> {
    spec_tag_ref_checks(d.tags, item.key, item.tags) + (if item.description.len() == 0 {
        seq![ViolationView::EmptyItemDescription { item_key: item.key }]
    } else {
        Seq::empty()
    }) + spec_links_checks(d.items, item.key, item.links) + spec_events_checks(
        item.key,
        item.events,
    ) + (match item.icon {
        Some(icon) => if !icons.contains(icon) {
            seq![ViolationView::MissingItemIcon { item_key: item.key, icon }]
        } else {
            Seq::empty()
        },
        None => Seq::empty(),
    })
}

/// The violations all items contribute, in order.
pub open spec fn spec_items_checks(d: DirectoryView, icons: Seq<Seq<char>>, items: Seq<ItemView>) -> Seq<
    ViolationView,
>
    decreases items.len(),
{
    if items.len() == 0 {
        Seq::empty()
    } else {
        spec_items_checks(d, icons, items.drop_last()) + spec_item_checks(d, icons, items.last())
    }
}

/// Every violation the validator reports for directory `d` against the icon
/// file names `icons`, in report order.
pub open spec fn spec_validate(d: DirectoryView, icons: Seq<Seq<char>>) -> Seq<ViolationView> {
    spec_key_conflicts(all_keys_of(d)) + spec_tags_checks(d, icons, d.tags) + spec_items_checks(
        d,
        icons,
        d.items,
    )
}

/// Whether some string of `v` equals `s`, character for character.
#[verifier::loop_isolation(false)]
pub(crate) fn string_vec_contains(v: &Vec<String>, s: &str) -> (r: bool)
    ensures
        r == v.deep_view().contains(s@),
{
    let mut i: usize = 0;
    while i < v.len()
        invariant
            i <= v.len(),
            forall|j: int| 0 <= j < i ==> v.deep_view()[j] != s@,
        decreases v.len() - i,
    {
        proof {
            assert(v.deep_view()[i as int] == v@[i as int].deep_view());
        }
        if str_eq(v[i].as_str(), s) {
            return true;
        }
        i += 1;
    }
    false
}

/// Whether some item's `tags` list references `key`.
#[verifier::loop_isolation(false)]
fn tag_used_by_any_item(items: &Vec<Item>, key: &str) -> (r: bool)
    ensures
        r == tag_is_used(items.deep_view(), key@),
{
    let mut i: usize = 0;
    while i < items.len()
        invariant
            i <= items.len(),
            forall|j: int| 0 <= j < i ==> !items.deep_view()[j].tags.contains(key@),
        decreases items.len() - i,
    {
        proof {
            assert(items.deep_view()[i as int] == items@[i as int].deep_view());
        }
        if string_vec_contains(&items[i].tags, key) {
            return true;
        }
        i += 1;
    }
    false
}

/// Whether `key` occurs among the first `end` tag keys.
#[verifier::loop_isolation(false)]
fn tag_key_in_prefix(tags: &Vec<Tag>, end: usize, key: &str) -> (r: bool)
    requires
        end <= tags.len(),
    ensures
        r == tag_keys_of(tags.deep_view()).take(end as int).contains(key@),
{
    let ghost prefix = tag_keys_of(tags.deep_view()).take(end as int);
    let mut i: usize = 0;
    while i < end
        invariant
            i <= end,
            forall|j: int| 0 <= j < i ==> prefix[j] != key@,
        decreases end - i,
    {
        proof {
            assert(prefix[i as int] == tags.deep_view()[i as int].key);
            assert(tags.deep_view()[i as int] == tags@[i as int].deep_view());
        }
        if str_eq(tags[i].key.as_str(), key) {
            return true;
        }
        i += 1;
    }
    false
}

/// Whether `key` occurs among the first `end` item keys.
#[verifier::loop_isolation(false)]
fn item_key_in_prefix(items: &Vec<Item>, end: usize, key: &str) -> (r: bool)
    requires
        end <= items.len(),
    ensures
        r == item_keys_of(items.deep_view()).take(end as int).contains(key@),
{
    let ghost prefix = item_keys_of(items.deep_view()).take(end as int);
    let mut i: usize = 0;
    while i < end
        invariant
            i <= end,
            forall|j: int| 0 <= j < i ==> prefix[j] != key@,
        decreases end - i,
    {
        proof {
            assert(prefix[i as int] == items.deep_view()[i as int].key);
            assert(items.deep_view()[i as int] == items@[i as int].deep_view());
        }
        if str_eq(items[i].key.as_str(), key) {
            return true;
        }
        i += 1;
    }
    false
}

/// Reports one key-uniqueness violation for every key that occurs twice
/// across the tag keys followed by the item keys.
#[verifier::loop_isolation(false)]
fn check_key_conflicts(directory: &Directory, out: &mut Vec<Violation>)
    ensures
        final(out).deep_view() == old(out).deep_view() + spec_key_conflicts(
            all_keys_of(directory@),
        ),
{
    let ghost base = out.deep_view();
    let ghost keys = all_keys_of(directory@);
    let ghost tag_count = directory@.tags.len() as int;
    proof {
        assert(base + spec_key_conflicts(keys.take(0)) =~= base);
    }
    let mut i: usize = 0;
    while i < directory.tags.len()
        invariant
            i <= directory.tags.len(),
            out.deep_view() == base + spec_key_conflicts(keys.take(i as int)),
        decreases directory.tags.len() - i,
    {
        proof {
            assert(keys.take(i as int + 1).drop_last() =~= keys.take(i as int));
            assert(keys[i as int] == tag_keys_of(directory@.tags)[i as int]);
            assert(directory@.tags[i as int] == directory.tags@[i as int]@);
            assert(keys.take(i as int) =~= tag_keys_of(directory@.tags).take(i as int));
        }
        if tag_key_in_prefix(&directory.tags, i, directory.tags[i].key.as_str()) {
            let v = Violation::KeyConflict { key: directory.tags[i].key.clone() };
            let ghost x = v;
            let ghost pre = *out;
            out.push(v);
            proof {
                lemma_deep_view_push(pre, *out, x);
                assert(out.deep_view() =~= base + spec_key_conflicts(keys.take(i as int + 1)));
            }
        } else {
            proof {
                assert(out.deep_view() =~= base + spec_key_conflicts(keys.take(i as int + 1)));
            }
        }
        i += 1;
    }
    let mut k: usize = 0;
    while k < directory.items.len()
        invariant
            k <= directory.items.len(),
            out.deep_view() == base + spec_key_conflicts(keys.take(tag_count + k as int)),
        decreases directory.items.len() - k,
    {
        let ghost g = tag_count + k as int;
        proof {
            assert(keys.take(g + 1).drop_last() =~= keys.take(g));
            assert(keys[g] == item_keys_of(directory@.items)[k as int]);
            assert(directory@.items[k as int] == directory.items@[k as int]@);
            assert(keys.take(g) =~= tag_keys_of(directory@.tags) + item_keys_of(
                directory@.items,
            ).take(k as int));
            lemma_concat_contains(
                tag_keys_of(directory@.tags),
                item_keys_of(directory@.items).take(k as int),
                keys[g],
            );
        }
        let key_ref = directory.items[k].key.as_str();
        let conflict = tags_key_lookup(directory, key_ref) || item_key_in_prefix(
            &directory.items,
            k,
            key_ref,
        );
        if conflict {
            let v = Violation::KeyConflict { key: directory.items[k].key.clone() };
            let ghost x = v;
            let ghost pre = *out;
            out.push(v);
            proof {
                lemma_deep_view_push(pre, *out, x);
                assert(out.deep_view() =~= base + spec_key_conflicts(keys.take(g + 1)));
            }
        } else {
            proof {
                assert(out.deep_view() =~= base + spec_key_conflicts(keys.take(g + 1)));
            }
        }
        k += 1;
    }
    proof {
        assert(keys.take(tag_count + directory.items.len() as int) =~= keys);
    }
}

/// Whether some tag of the directory carries `key`.
fn tags_key_lookup(directory: &Directory, key: &str) -> (r: bool)
    ensures
        r == tags_have_key(directory@.tags, key@),
{
    crate::loader::tags_contain_key(&directory.tags, key)
}

/// Whether some item of the directory carries `key`.
fn items_key_lookup(directory: &Directory, key: &str) -> (r: bool)
    ensures
        r == items_have_key(directory@.items, key@),
{
    crate::loader::items_contain_key(&directory.items, key)
}

/// Runs the per-tag checks over every tag, in order.
#[verifier::loop_isolation(false)]
fn check_tags(directory: &Directory, icons: &Vec<String>, out: &mut Vec<Violation>)
    ensures
        final(out).deep_view() == old(out).deep_view() + spec_tags_checks(
            directory@,
            icons.deep_view(),
            directory@.tags,
        ),
{
    let ghost base = out.deep_view();
    let ghost dv = directory@;
    let ghost iv = icons.deep_view();
    proof {
        assert(base + spec_tags_checks(dv, iv, dv.tags.take(0)) =~= base);
    }
    let mut i: usize = 0;
    while i < directory.tags.len()
        invariant
            i <= directory.tags.len(),
            out.deep_view() == base + spec_tags_checks(dv, iv, dv.tags.take(i as int)),
        decreases directory.tags.len() - i,
    {
        proof {
            assert(dv.tags.take(i as int + 1).drop_last() =~= dv.tags.take(i as int));
            assert(dv.tags[i as int] == directory.tags@[i as int]@);
        }
        let tag = &directory.tags[i];
        let ghost tag_start = out.deep_view();
        if !tag_used_by_any_item(&directory.items, tag.key.as_str()) {
            let v = Violation::UnusedTag { tag_key: tag.key.clone() };
            let ghost x = v;
            let ghost pre = *out;
            out.push(v);
            proof {
                lemma_deep_view_push(pre, *out, x);
            }
        }
        if tag.description.len() == 0 {
            let v = Violation::EmptyTagDescription { tag_key: tag.key.clone() };
            let ghost x = v;
            let ghost pre = *out;
            out.push(v);
            proof {
                lemma_deep_view_push(pre, *out, x);
            }
        }
        match &tag.icon {
            Some(icon_name) => {
                if !string_vec_contains(icons, icon_name.as_str()) {
                    let v = Violation::MissingTagIcon {
                        tag_key: tag.key.clone(),
                        icon: icon_name.clone(),
                    };
                    let ghost x = v;
                    let ghost pre = *out;
                    out.push(v);
                    proof {
                        lemma_deep_view_push(pre, *out, x);
                    }
                }
            },
            None => {},
        }
        proof {
            assert(out.deep_view() =~= tag_start + spec_tag_checks(dv, iv, dv.tags[i as int]));
            assert(out.deep_view() =~= base + spec_tags_checks(dv, iv, dv.tags.take(i as int + 1)));
        }
        i += 1;
    }
    proof {
        assert(dv.tags.take(directory.tags.len() as int) =~= dv.tags);
    }
}

/// Runs the dangling-tag-reference check over one item's `tags` list.
#[verifier::loop_isolation(false)]
fn check_item_tag_refs(directory: &Directory, item: &Item, out: &mut Vec<Violation>)
    ensures
        final(out).deep_view() == old(out).deep_view() + spec_tag_ref_checks(
            directory@.tags,
            item@.key,
            item@.tags,
        ),
{
    let ghost base = out.deep_view();
    let ghost refs = item@.tags;
    proof {
        assert(base + spec_tag_ref_checks(directory@.tags, item@.key, refs.take(0)) =~= base);
    }
    let mut j: usize = 0;
    while j < item.tags.len()
        invariant
            j <= item.tags.len(),
            out.deep_view() == base + spec_tag_ref_checks(
                directory@.tags,
                item@.key,
                refs.take(j as int),
            ),
        decreases item.tags.len() - j,
    {
        proof {
            assert(refs.take(j as int + 1).drop_last() =~= refs.take(j as int));
            assert(refs[j as int] == item.tags@[j as int]@);
        }
        if !tags_key_lookup(directory, item.tags[j].as_str()) {
            let v = Violation::UnknownItemTag {
                item_key: item.key.clone(),
                tag_key: item.tags[j].clone(),
            };
            let ghost x = v;
            let ghost pre = *out;
            out.push(v);
            proof {
                lemma_deep_view_push(pre, *out, x);
                assert(out.deep_view() =~= base + spec_tag_ref_checks(
                    directory@.tags,
                    item@.key,
                    refs.take(j as int + 1),
                ));
            }
        } else {
            proof {
                assert(out.deep_view() =~= base + spec_tag_ref_checks(
                    directory@.tags,
                    item@.key,
                    refs.take(j as int + 1),
                ));
            }
        }
        j += 1;
    }
    proof {
        assert(refs.take(item.tags.len() as int) =~= refs);
    }
}

/// Runs the three link checks over one item's links, in order.
#[verifier::loop_isolation(false)]
fn check_item_links(directory: &Directory, item: &Item, out: &mut Vec<Violation>)
    ensures
        final(out).deep_view() == old(out).deep_view() + spec_links_checks(
            directory@.items,
            item@.key,
            item@.links,
        ),
{
    let ghost base = out.deep_view();
    let ghost links = item@.links;
    proof {
        assert(base + spec_links_checks(directory@.items, item@.key, links.take(0)) =~= base);
    }
    let mut j: usize = 0;
    while j < item.links.len()
        invariant
            j <= item.links.len(),
            out.deep_view() == base + spec_links_checks(
                directory@.items,
                item@.key,
                links.take(j as int),
            ),
        decreases item.links.len() - j,
    {
        proof {
            assert(links.take(j as int + 1).drop_last() =~= links.take(j as int));
            assert(links[j as int] == item.links@[j as int]@);
        }
        let link = &item.links[j];
        let ghost link_start = out.deep_view();
        if !items_key_lookup(directory, link.target_key.as_str()) {
            let v = Violation::UnknownLinkTarget {
                item_key: item.key.clone(),
                target_key: link.target_key.clone(),
            };
            let ghost x = v;
            let ghost pre = *out;
            out.push(v);
            proof {
                lemma_deep_view_push(pre, *out, x);
            }
        }
        if str_eq(link.target_key.as_str(), item.key.as_str()) {
            let v = Violation::SelfLink { item_key: item.key.clone() };
            let ghost x = v;
            let ghost pre = *out;
            out.push(v);
            proof {
                lemma_deep_view_push(pre, *out, x);
            }
        }
        if link.description.as_str().is_empty() {
            let v = Violation::EmptyLinkDescription {
                item_key: item.key.clone(),
                target_key: link.target_key.clone(),
            };
            let ghost x = v;
            let ghost pre = *out;
            out.push(v);
            proof {
                lemma_deep_view_push(pre, *out, x);
            }
        }
        proof {
            assert(out.deep_view() =~= link_start + spec_link_checks(
                directory@.items,
                item@.key,
                links[j as int],
            ));
            assert(out.deep_view() =~= base + spec_links_checks(
                directory@.items,
                item@.key,
                links.take(j as int + 1),
            ));
        }
        j += 1;
    }
    proof {
        assert(links.take(item.links.len() as int) =~= links);
    }
}

/// Runs the empty-description check over one item's events, in order.
#[verifier::loop_isolation(false)]
fn check_item_events(item: &Item, out: &mut Vec<Violation>)
    ensures
        final(out).deep_view() == old(out).deep_view() + spec_events_checks(
            item@.key,
            item@.events,
        ),
{
    let ghost base = out.deep_view();
    let ghost events = item@.events;
    proof {
        assert(base + spec_events_checks(item@.key, events.take(0)) =~= base);
    }
    let mut j: usize = 0;
    while j < item.events.len()
        invariant
            j <= item.events.len(),
            out.deep_view() == base + spec_events_checks(item@.key, events.take(j as int)),
        decreases item.events.len() - j,
    {
        proof {
            assert(events.take(j as int + 1).drop_last() =~= events.take(j as int));
            assert(events[j as int] == item.events@[j as int]@);
        }
        if item.events[j].description.as_str().is_empty() {
            let v = Violation::EmptyEventDescription { item_key: item.key.clone() };
            let ghost x = v;
            let ghost pre = *out;
            out.push(v);
            proof {
                lemma_deep_view_push(pre, *out, x);
                assert(out.deep_view() =~= base + spec_events_checks(
                    item@.key,
                    events.take(j as int + 1),
                ));
            }
        } else {
            proof {
                assert(out.deep_view() =~= base + spec_events_checks(
                    item@.key,
                    events.take(j as int + 1),
                ));
            }
        }
        j += 1;
    }
    proof {
        assert(events.take(item.events.len() as int) =~= events);
    }
}

/// Runs every per-item check over every item, in order.
#[verifier::loop_isolation(false)]
fn check_items(directory: &Directory, icons: &Vec<String>, out: &mut Vec<Violation>)
    ensures
        final(out).deep_view() == old(out).deep_view() + spec_items_checks(
            directory@,
            icons.deep_view(),
            directory@.items,
        ),
{
    let ghost base = out.deep_view();
    let ghost dv = directory@;
    let ghost iv = icons.deep_view();
    proof {
        assert(base + spec_items_checks(dv, iv, dv.items.take(0)) =~= base);
    }
    let mut i: usize = 0;
    while i < directory.items.len()
        invariant
            i <= directory.items.len(),
            out.deep_view() == base + spec_items_checks(dv, iv, dv.items.take(i as int)),
        decreases directory.items.len() - i,
    {
        proof {
            assert(dv.items.take(i as int + 1).drop_last() =~= dv.items.take(i as int));
            assert(dv.items[i as int] == directory.items@[i as int]@);
        }
        let item = &directory.items[i];
        check_one_item(directory, icons, item, out);
        proof {
            assert(out.deep_view() =~= base + spec_items_checks(
                dv,
                iv,
                dv.items.take(i as int + 1),
            ));
        }
        i += 1;
    }
    proof {
        assert(dv.items.take(directory.items.len() as int) =~= dv.items);
    }
}

/// Runs every per-item check over one item, in order.
fn check_one_item(directory: &Directory, icons: &Vec<String>, item: &Item, out: &mut Vec<Violation>)
    ensures
        final(out).deep_view() == old(out).deep_view() + spec_item_checks(
            directory@,
            icons.deep_view(),
            item@,
        ),
{
    let ghost item_start = out.deep_view();
    let ghost dv = directory@;
    let ghost iv = icons.deep_view();
    check_item_tag_refs(directory, item, out);
    if item.description.len() == 0 {
        let v = Violation::EmptyItemDescription { item_key: item.key.clone() };
        let ghost x = v;
        let ghost pre = *out;
        out.push(v);
        proof {
            lemma_deep_view_push(pre, *out, x);
        }
    }
    check_item_links(directory, item, out);
    check_item_events(item, out);
    match &item.icon {
        Some(icon_name) => {
            if !string_vec_contains(icons, icon_name.as_str()) {
                let v = Violation::MissingItemIcon {
                    item_key: item.key.clone(),
                    icon: icon_name.clone(),
                };
                let ghost x = v;
                let ghost pre = *out;
                out.push(v);
                proof {
                    lemma_deep_view_push(pre, *out, x);
                }
            }
        },
        None => {},
    }
    proof {
        assert(out.deep_view() =~= item_start + spec_item_checks(dv, iv, item@));
    }
}

/// Whether no key occurs twice in `keys`.
pub open spec fn keys_distinct(keys: Seq<Seq<char>>) -> bool {
    forall|i: int, j: int| 0 <= i < j < keys.len() ==> keys[i] != keys[j]
}

/// Whether one tag passes its three checks: it is used by some item, its
/// description has a paragraph, and its icon, if named, exists.
pub open spec fn spec_tag_ok(d: DirectoryView, icons: Seq<Seq<char>>, tag: TagView) -> bool {
    &&& tag_is_used(d.items, tag.key)
    &&& tag.description.len() > 0
    &&& (tag.icon matches Some(icon) ==> icons.contains(icon))
}

/// Whether one link passes its three checks: its target exists, is not the
/// owning item itself, and the link's description is non-empty.
pub open spec fn spec_link_ok(
    items: Seq<ItemView>,
    item_key: Seq<char>,
    link: DirectoryLinkView,
) -> bool {
    &&& items_have_key(items, link.target_key)
    &&& link.target_key != item_key
    &&& link.description.len() > 0
}

/// Whether one item passes all its checks: every referenced tag exists, the
/// description has a paragraph, every link and event is well-formed, and the
/// icon, if named, exists.
pub open spec fn spec_item_ok(d: DirectoryView, icons: Seq<Seq<char>>, item: ItemView) -> bool {
    &&& forall|j: int| 0 <= j < item.tags.len() ==> tags_have_key(d.tags, #[trigger] item.tags[j])
    &&& item.description.len() > 0
    &&& forall|j: int|
        0 <= j < item.links.len() ==> spec_link_ok(d.items, item.key, #[trigger] item.links[j])
    &&& forall|j: int| 0 <= j < item.events.len() ==> (#[trigger] item.events[j]).description.len() > 0
    &&& (item.icon matches Some(icon) ==> icons.contains(icon))
}

/// Whether a directory is consistent against the icon file names `icons`:
/// all keys are unique across tags and items, every tag and every item
/// passes its checks. The validator reports no violation exactly on such
/// directories.
pub open spec fn spec_directory_valid(d: DirectoryView, icons: Seq<Seq<char>>) -> bool {
    &&& keys_distinct(all_keys_of(d))
    &&& forall|i: int| 0 <= i < d.tags.len() ==> spec_tag_ok(d, icons, #[trigger] d.tags[i])
    &&& forall|i: int| 0 <= i < d.items.len() ==> spec_item_ok(d, icons, #[trigger] d.items[i])
}

/// Validates a loaded directory against the icon file names `icons`: runs
/// all consistency checks over all entities unconditionally and returns every
/// violation found, in report order. The directory is valid exactly when the
/// returned list is empty.
pub fn validate_directory(directory: &Directory, icons: &Vec<String>) -> (violations: Vec<
    Violation,
>)
    ensures
        violations.deep_view() == spec_validate(directory@, icons.deep_view()),
{
    let mut out: Vec<Violation> = Vec::new();
    proof {
        assert(out.deep_view() =~= Seq::<ViolationView>::empty());
    }
    check_key_conflicts(directory, &mut out);
    check_tags(directory, icons, &mut out);
    check_items(directory, icons, &mut out);
    proof {
        assert(out.deep_view() =~= spec_validate(directory@, icons.deep_view()));
    }
    out
}

} // verus!
