//! The laws of the library, stated and proved once for all inputs: what an
//! empty validation report means, and what the loader guarantees about every
//! directory it returns.

use vstd::prelude::*;

verus! {

use crate::directory::{DirectoryErrorView, DirectoryView, ItemView, TagView, all_keys_of};
use crate::loader::{
    FileSourceView, ItemSourceFileView, TagSourceFileView, items_have_key, spec_load_directory,
    spec_load_items, spec_load_tags, spec_resolved_item, spec_resolved_tag, tags_have_key,
};
use crate::naming::{spec_file_stem, spec_is_yaml};
use crate::validate::{
    keys_distinct, spec_directory_valid, spec_event_checks, spec_item_checks, spec_item_ok,
    spec_items_checks, spec_key_conflicts, spec_link_checks, spec_link_ok, spec_links_checks,
    spec_tag_checks, spec_tag_ok, spec_tag_ref_checks, spec_tags_checks, spec_validate,
    tag_is_used,
};

#[verifier::rlimit(50)]
proof fn lemma_key_conflicts_empty(keys: Seq<Seq<char>>)
    ensures
        spec_key_conflicts(keys).len() == 0 <==> keys_distinct(keys),
    decreases keys.len(),
{
    if keys.len() > 0 {
        let pre = keys.drop_last();
        lemma_key_conflicts_empty(pre);
        assert(forall|i: int| 0 <= i < pre.len() ==> pre[i] == keys[i]);
        if spec_key_conflicts(keys).len() == 0 {
            assert(spec_key_conflicts(pre).len() == 0);
            assert(!pre.contains(keys.last()));
            assert forall|i: int, j: int| 0 <= i < j < keys.len() implies keys[i] != keys[j] by {
                if j < keys.len() - 1 {
                    assert(pre[i] != pre[j]);
                } else {
                    if keys[i] == keys.last() {
                        assert(pre[i] == keys.last());
                        assert(pre.contains(keys.last()));
                    }
                }
            }
        }
        if keys_distinct(keys) {
            assert forall|i: int, j: int| 0 <= i < j < pre.len() implies pre[i] != pre[j] by {
                assert(keys[i] != keys[j]);
            }
            if pre.contains(keys.last()) {
                let i = choose|i: int| 0 <= i < pre.len() && pre[i] == keys.last();
                assert(keys[i] == keys[keys.len() - 1]);
                assert(false);
            }
            assert(spec_key_conflicts(keys).len() == 0);
        }
    }
}

proof fn lemma_tag_checks_empty(d: DirectoryView, icons: Seq<Seq<char>>, tag: TagView)
    ensures
        spec_tag_checks(d, icons, tag).len() == 0 <==> spec_tag_ok(d, icons, tag),
{
}

#[verifier::rlimit(50)]
proof fn lemma_tags_checks_empty(d: DirectoryView, icons: Seq<Seq<char>>, tags: Seq<TagView>)
    ensures
        spec_tags_checks(d, icons, tags).len() == 0 <==> (forall|i: int|
            0 <= i < tags.len() ==> spec_tag_ok(d, icons, #[trigger] tags[i])),
    decreases tags.len(),
{
    if tags.len() > 0 {
        let pre = tags.drop_last();
        lemma_tags_checks_empty(d, icons, pre);
        lemma_tag_checks_empty(d, icons, tags.last());
        assert(forall|i: int| 0 <= i < pre.len() ==> pre[i] == tags[i]);
        if spec_tags_checks(d, icons, tags).len() == 0 {
            assert forall|i: int| 0 <= i < tags.len() implies spec_tag_ok(d, icons, tags[i]) by {
                if i < tags.len() - 1 {
                    assert(spec_tag_ok(d, icons, pre[i]));
                } else {
                    assert(spec_tag_ok(d, icons, tags.last()));
                }
            }
        }
        if forall|i: int| 0 <= i < tags.len() ==> spec_tag_ok(d, icons, #[trigger] tags[i]) {
            assert forall|i: int| 0 <= i < pre.len() implies spec_tag_ok(d, icons, pre[i]) by {
                assert(spec_tag_ok(d, icons, tags[i]));
            }
            assert(spec_tag_ok(d, icons, tags[tags.len() - 1]));
            assert(spec_tags_checks(d, icons, tags).len() == 0);
        }
    }
}

#[verifier::rlimit(50)]
proof fn lemma_tag_ref_checks_empty(tags: Seq<TagView>, item_key: Seq<char>, refs: Seq<Seq<char>>)
    ensures
        spec_tag_ref_checks(tags, item_key, refs).len() == 0 <==> (forall|j: int|
            0 <= j < refs.len() ==> tags_have_key(tags, #[trigger] refs[j])),
    decreases refs.len(),
{
    if refs.len() > 0 {
        let pre = refs.drop_last();
        lemma_tag_ref_checks_empty(tags, item_key, pre);
        assert(forall|j: int| 0 <= j < pre.len() ==> pre[j] == refs[j]);
        if spec_tag_ref_checks(tags, item_key, refs).len() == 0 {
            assert forall|j: int| 0 <= j < refs.len() implies tags_have_key(tags, refs[j]) by {
                if j < refs.len() - 1 {
                    assert(tags_have_key(tags, pre[j]));
                } else {
                    assert(tags_have_key(tags, refs.last()));
                }
            }
        }
        if forall|j: int| 0 <= j < refs.len() ==> tags_have_key(tags, #[trigger] refs[j]) {
            assert forall|j: int| 0 <= j < pre.len() implies tags_have_key(tags, pre[j]) by {
                assert(tags_have_key(tags, refs[j]));
            }
            assert(tags_have_key(tags, refs[refs.len() - 1]));
            assert(spec_tag_ref_checks(tags, item_key, refs).len() == 0);
        }
    }
}

proof fn lemma_link_checks_empty(
    items: Seq<ItemView>,
    item_key: Seq<char>,
    link: crate::directory::DirectoryLinkView,
)
    ensures
        spec_link_checks(items, item_key, link).len() == 0 <==> spec_link_ok(
            items,
            item_key,
            link,
        ),
{
}

#[verifier::rlimit(50)]
proof fn lemma_links_checks_empty(
    items: Seq<ItemView>,
    item_key: Seq<char>,
    links: Seq<crate::directory::DirectoryLinkView>,
)
    ensures
        spec_links_checks(items, item_key, links).len() == 0 <==> (forall|j: int|
            0 <= j < links.len() ==> spec_link_ok(items, item_key, #[trigger] links[j])),
    decreases links.len(),
{
    if links.len() > 0 {
        let pre = links.drop_last();
        lemma_links_checks_empty(items, item_key, pre);
        lemma_link_checks_empty(items, item_key, links.last());
        assert(forall|j: int| 0 <= j < pre.len() ==> pre[j] == links[j]);
        if spec_links_checks(items, item_key, links).len() == 0 {
            assert forall|j: int| 0 <= j < links.len() implies spec_link_ok(
                items,
                item_key,
                links[j],
            ) by {
                if j < links.len() - 1 {
                    assert(spec_link_ok(items, item_key, pre[j]));
                } else {
                    assert(spec_link_ok(items, item_key, links.last()));
                }
            }
        }
        if forall|j: int| 0 <= j < links.len() ==> spec_link_ok(items, item_key, #[trigger] links[j]) {
            assert forall|j: int| 0 <= j < pre.len() implies spec_link_ok(
                items,
                item_key,
                pre[j],
            ) by {
                assert(spec_link_ok(items, item_key, links[j]));
            }
            assert(spec_link_ok(items, item_key, links[links.len() - 1]));
            assert(spec_links_checks(items, item_key, links).len() == 0);
        }
    }
}

#[verifier::rlimit(50)]
proof fn lemma_events_checks_empty(
    item_key: Seq<char>,
    events: Seq<crate::directory::DirectoryEventView>,
)
    ensures
        crate::validate::spec_events_checks(item_key, events).len() == 0 <==> (forall|j: int|
            0 <= j < events.len() ==> (#[trigger] events[j]).description.len() > 0),
    decreases events.len(),
{
    if events.len() > 0 {
        let pre = events.drop_last();
        lemma_events_checks_empty(item_key, pre);
        assert(forall|j: int| 0 <= j < pre.len() ==> pre[j] == events[j]);
        if crate::validate::spec_events_checks(item_key, events).len() == 0 {
            assert(spec_event_checks(item_key, events.last()).len() == 0);
            assert forall|j: int| 0 <= j < events.len() implies events[j].description.len() > 0 by {
                if j < events.len() - 1 {
                    assert(pre[j].description.len() > 0);
                } else {
                    assert(events.last().description.len() > 0);
                }
            }
        }
        if forall|j: int| 0 <= j < events.len() ==> (#[trigger] events[j]).description.len() > 0 {
            assert forall|j: int| 0 <= j < pre.len() implies pre[j].description.len() > 0 by {
                assert(events[j].description.len() > 0);
            }
            assert(events[events.len() - 1].description.len() > 0);
            assert(crate::validate::spec_events_checks(item_key, events).len() == 0);
        }
    }
}

proof fn lemma_item_checks_empty(d: DirectoryView, icons: Seq<Seq<char>>, item: ItemView)
    ensures
        spec_item_checks(d, icons, item).len() == 0 <==> spec_item_ok(d, icons, item),
{
    lemma_tag_ref_checks_empty(d.tags, item.key, item.tags);
    lemma_links_checks_empty(d.items, item.key, item.links);
    lemma_events_checks_empty(item.key, item.events);
}

#[verifier::rlimit(50)]
proof fn lemma_items_checks_empty(d: DirectoryView, icons: Seq<Seq<char>>, items: Seq<ItemView>)
    ensures
        spec_items_checks(d, icons, items).len() == 0 <==> (forall|i: int|
            0 <= i < items.len() ==> spec_item_ok(d, icons, #[trigger] items[i])),
    decreases items.len(),
{
    if items.len() > 0 {
        let pre = items.drop_last();
        lemma_items_checks_empty(d, icons, pre);
        lemma_item_checks_empty(d, icons, items.last());
        assert(forall|i: int| 0 <= i < pre.len() ==> pre[i] == items[i]);
        if spec_items_checks(d, icons, items).len() == 0 {
            assert forall|i: int| 0 <= i < items.len() implies spec_item_ok(d, icons, items[i]) by {
                if i < items.len() - 1 {
                    assert(spec_item_ok(d, icons, pre[i]));
                } else {
                    assert(spec_item_ok(d, icons, items.last()));
                }
            }
        }
        if forall|i: int| 0 <= i < items.len() ==> spec_item_ok(d, icons, #[trigger] items[i]) {
            assert forall|i: int| 0 <= i < pre.len() implies spec_item_ok(d, icons, pre[i]) by {
                assert(spec_item_ok(d, icons, items[i]));
            }
            assert(spec_item_ok(d, icons, items[items.len() - 1]));
            assert(spec_items_checks(d, icons, items).len() == 0);
        }
    }
}

/// The validator accepts exactly the consistent directories: its report is
/// empty if and only if the directory is valid against the given icon names.
pub proof fn lemma_validate_empty_iff_valid(d: DirectoryView, icons: Seq<Seq<char>>)
    ensures
        spec_validate(d, icons).len() == 0 <==> spec_directory_valid(d, icons),
{
    lemma_key_conflicts_empty(all_keys_of(d));
    lemma_tags_checks_empty(d, icons, d.tags);
    lemma_items_checks_empty(d, icons, d.items);
}

/// Round-trip: loading twice from the same file source yields structurally
/// equal directories — the loader is a function of the source alone.
pub proof fn lemma_load_round_trip(source: FileSourceView, d1: DirectoryView, d2: DirectoryView)
    requires
        spec_load_directory(source) == Ok::<DirectoryView, DirectoryErrorView>(d1),
        spec_load_directory(source) == Ok::<DirectoryView, DirectoryErrorView>(d2),
    ensures
        d1 == d2,
{
}

/// Whether some record file of `files` is a yaml file whose stem is `tag`'s
/// key.
pub open spec fn tag_key_is_a_stem(files: Seq<TagSourceFileView>, tag: TagView) -> bool {
    exists|i: int|
        0 <= i < files.len() && spec_is_yaml(#[trigger] files[i].name) && tag.key == spec_file_stem(
            files[i].name,
        )
}

/// Whether some record file of `files` is a yaml file whose stem is `item`'s
/// key.
pub open spec fn item_key_is_a_stem(files: Seq<ItemSourceFileView>, item: ItemView) -> bool {
    exists|i: int|
        0 <= i < files.len() && spec_is_yaml(#[trigger] files[i].name) && item.key
            == spec_file_stem(files[i].name)
}

proof fn lemma_load_tags_keys_are_stems(files: Seq<TagSourceFileView>, tags: Seq<TagView>)
    requires
        spec_load_tags(files) == Ok::<Seq<TagView>, DirectoryErrorView>(tags),
    ensures
        forall|j: int| 0 <= j < tags.len() ==> tag_key_is_a_stem(files, #[trigger] tags[j]),
    decreases files.len(),
{
    if files.len() > 0 {
        let pre = files.drop_last();
        let acc = spec_load_tags(pre)->Ok_0;
        lemma_load_tags_keys_are_stems(pre, acc);
        let f = files.last();
        assert(forall|i: int| 0 <= i < pre.len() ==> pre[i] == files[i]);
        assert forall|j: int| 0 <= j < tags.len() implies tag_key_is_a_stem(files, tags[j]) by {
            if j < acc.len() {
                assert(tag_key_is_a_stem(pre, acc[j]));
                let i = choose|i: int|
                    0 <= i < pre.len() && spec_is_yaml(#[trigger] pre[i].name) && acc[j].key
                        == spec_file_stem(pre[i].name);
                assert(spec_is_yaml(files[i].name) && tags[j].key == spec_file_stem(files[i].name));
            } else {
                let parsed = f.record->Parsed_0;
                let t = spec_resolved_tag(parsed, f.name);
                assert(tags[j] == t);
                assert(t.key == spec_file_stem(f.name));
                assert(spec_is_yaml(files[files.len() - 1].name) && tags[j].key == spec_file_stem(
                    files[files.len() - 1].name,
                ));
            }
        }
    }
}

proof fn lemma_load_items_keys_are_stems(files: Seq<ItemSourceFileView>, items: Seq<ItemView>)
    requires
        spec_load_items(files) == Ok::<Seq<ItemView>, DirectoryErrorView>(items),
    ensures
        forall|j: int| 0 <= j < items.len() ==> item_key_is_a_stem(files, #[trigger] items[j]),
    decreases files.len(),
{
    if files.len() > 0 {
        let pre = files.drop_last();
        let acc = spec_load_items(pre)->Ok_0;
        lemma_load_items_keys_are_stems(pre, acc);
        let f = files.last();
        assert(forall|i: int| 0 <= i < pre.len() ==> pre[i] == files[i]);
        assert forall|j: int| 0 <= j < items.len() implies item_key_is_a_stem(files, items[j]) by {
            if j < acc.len() {
                assert(item_key_is_a_stem(pre, acc[j]));
                let i = choose|i: int|
                    0 <= i < pre.len() && spec_is_yaml(#[trigger] pre[i].name) && acc[j].key
                        == spec_file_stem(pre[i].name);
                assert(spec_is_yaml(files[i].name) && items[j].key == spec_file_stem(
                    files[i].name,
                ));
            } else {
                let parsed = f.record->Parsed_0;
                let it = spec_resolved_item(parsed, f.name);
                assert(items[j] == it);
                assert(it.key == spec_file_stem(f.name));
                assert(spec_is_yaml(files[files.len() - 1].name) && items[j].key == spec_file_stem(
                    files[files.len() - 1].name,
                ));
            }
        }
    }
}

/// Key monotonicity: every entity of a loaded directory takes its key from
/// the stem of one of the source's record files.
pub proof fn lemma_loaded_keys_are_file_stems(source: FileSourceView, d: DirectoryView)
    requires
        spec_load_directory(source) == Ok::<DirectoryView, DirectoryErrorView>(d),
    ensures
        forall|j: int|
            0 <= j < d.tags.len() ==> tag_key_is_a_stem(source.tag_files->Some_0, #[trigger] d.tags[j]),
        forall|j: int|
            0 <= j < d.items.len() ==> item_key_is_a_stem(source.root_files, #[trigger] d.items[j]),
{
    lemma_load_tags_keys_are_stems(source.tag_files->Some_0, d.tags);
    lemma_load_items_keys_are_stems(source.root_files, d.items);
}

proof fn lemma_load_tags_keys_distinct(files: Seq<TagSourceFileView>, tags: Seq<TagView>)
    requires
        spec_load_tags(files) == Ok::<Seq<TagView>, DirectoryErrorView>(tags),
    ensures
        forall|i: int, j: int|
            0 <= i < j < tags.len() ==> (#[trigger] tags[i]).key != (#[trigger] tags[j]).key,
    decreases files.len(),
{
    if files.len() > 0 {
        let pre = files.drop_last();
        let acc = spec_load_tags(pre)->Ok_0;
        lemma_load_tags_keys_distinct(pre, acc);
        let f = files.last();
        if spec_is_yaml(f.name) {
            let parsed = f.record->Parsed_0;
            let t = spec_resolved_tag(parsed, f.name);
            if tags != acc {
                assert(tags == acc.push(t));
                assert(!tags_have_key(acc, t.key));
                assert forall|i: int, j: int| 0 <= i < j < tags.len() implies tags[i].key
                    != tags[j].key by {
                    if j < acc.len() {
                        assert(acc[i].key != acc[j].key);
                    } else {
                        assert(tags[j] == t);
                        if acc[i].key == t.key {
                            assert(crate::directory::tag_keys_of(acc)[i] == t.key);
                            assert(tags_have_key(acc, t.key));
                        }
                    }
                }
            }
        }
    }
}

proof fn lemma_load_items_keys_distinct(files: Seq<ItemSourceFileView>, items: Seq<ItemView>)
    requires
        spec_load_items(files) == Ok::<Seq<ItemView>, DirectoryErrorView>(items),
    ensures
        forall|i: int, j: int|
            0 <= i < j < items.len() ==> (#[trigger] items[i]).key != (#[trigger] items[j]).key,
    decreases files.len(),
{
    if files.len() > 0 {
        let pre = files.drop_last();
        let acc = spec_load_items(pre)->Ok_0;
        lemma_load_items_keys_distinct(pre, acc);
        let f = files.last();
        if spec_is_yaml(f.name) {
            let parsed = f.record->Parsed_0;
            let it = spec_resolved_item(parsed, f.name);
            if items != acc {
                assert(items == acc.push(it));
                assert(!items_have_key(acc, it.key));
                assert forall|i: int, j: int| 0 <= i < j < items.len() implies items[i].key
                    != items[j].key by {
                    if j < acc.len() {
                        assert(acc[i].key != acc[j].key);
                    } else {
                        assert(items[j] == it);
                        if acc[i].key == it.key {
                            assert(crate::directory::item_keys_of(acc)[i] == it.key);
                            assert(items_have_key(acc, it.key));
                        }
                    }
                }
            }
        }
    }
}

/// The loader never returns a directory with a duplicated key inside either
/// collection: the insertion-time uniqueness check catches such sources.
pub proof fn lemma_loaded_keys_distinct_within(source: FileSourceView, d: DirectoryView)
    requires
        spec_load_directory(source) == Ok::<DirectoryView, DirectoryErrorView>(d),
    ensures
        forall|i: int, j: int|
            0 <= i < j < d.tags.len() ==> (#[trigger] d.tags[i]).key != (#[trigger] d.tags[j]).key,
        forall|i: int, j: int|
            0 <= i < j < d.items.len() ==> (#[trigger] d.items[i]).key != (#[trigger] d.items[j]).key,
{
    lemma_load_tags_keys_distinct(source.tag_files->Some_0, d.tags);
    lemma_load_items_keys_distinct(source.root_files, d.items);
}

/// Uniqueness invariant: in a directory the validator accepts, no key is
/// shared between tags and items, nor duplicated within either collection.
proof fn lemma_all_keys_index_tag(d: DirectoryView, i: int)
    requires
        0 <= i < d.tags.len(),
    ensures
        all_keys_of(d)[i] == d.tags[i].key,
{
}

proof fn lemma_all_keys_index_item(d: DirectoryView, j: int)
    requires
        0 <= j < d.items.len(),
    ensures
        all_keys_of(d)[d.tags.len() + j] == d.items[j].key,
{
}

pub proof fn lemma_valid_keys_unique(d: DirectoryView, icons: Seq<Seq<char>>)
    requires
        spec_validate(d, icons).len() == 0,
    ensures
        forall|i: int, j: int|
            0 <= i < j < d.tags.len() ==> (#[trigger] d.tags[i]).key != (#[trigger] d.tags[j]).key,
        forall|i: int, j: int|
            0 <= i < j < d.items.len() ==> (#[trigger] d.items[i]).key != (#[trigger] d.items[j]).key,
        forall|i: int, j: int|
            0 <= i < d.tags.len() && 0 <= j < d.items.len() ==> (#[trigger] d.tags[i]).key != (
            #[trigger] d.items[j]).key,
{
    lemma_validate_empty_iff_valid(d, icons);
    let keys = all_keys_of(d);
    let tag_count = d.tags.len() as int;
    assert(keys_distinct(keys));
    assert forall|i: int, j: int| 0 <= i < j < d.tags.len() implies (#[trigger] d.tags[i]).key != (
    #[trigger] d.tags[j]).key by {
        lemma_all_keys_index_tag(d, i);
        lemma_all_keys_index_tag(d, j);
        assert(keys[i] != keys[j]);
    }
    assert forall|i: int, j: int| 0 <= i < j < d.items.len() implies (#[trigger] d.items[i]).key
        != (#[trigger] d.items[j]).key by {
        lemma_all_keys_index_item(d, i);
        lemma_all_keys_index_item(d, j);
        assert(keys[tag_count + i] != keys[tag_count + j]);
    }
    assert forall|i: int, j: int|
        0 <= i < d.tags.len() && 0 <= j < d.items.len() implies (#[trigger] d.tags[i]).key != (
    #[trigger] d.items[j]).key by {
        lemma_all_keys_index_tag(d, i);
        lemma_all_keys_index_item(d, j);
        assert(keys[i] != keys[tag_count + j]);
    }
}

/// Tag liveness: in a directory the validator accepts, every tag is
/// referenced by at least one item's `tags` list.
pub proof fn lemma_valid_tags_used(d: DirectoryView, icons: Seq<Seq<char>>)
    requires
        spec_validate(d, icons).len() == 0,
    ensures
        forall|i: int| 0 <= i < d.tags.len() ==> tag_is_used(d.items, (#[trigger] d.tags[i]).key),
{
    lemma_validate_empty_iff_valid(d, icons);
    assert forall|i: int| 0 <= i < d.tags.len() implies tag_is_used(d.items, d.tags[i].key) by {
        assert(spec_tag_ok(d, icons, d.tags[i]));
    }
}

/// Referential closure: in a directory the validator accepts, every tag key
/// an item references exists, and every link's target exists and differs
/// from the owning item's own key.
pub proof fn lemma_valid_references_closed(d: DirectoryView, icons: Seq<Seq<char>>)
    requires
        spec_validate(d, icons).len() == 0,
    ensures
        forall|i: int, j: int|
            0 <= i < d.items.len() && 0 <= j < d.items[i].tags.len() ==> tags_have_key(
                d.tags,
                #[trigger] d.items[i].tags[j],
            ),
        forall|i: int, j: int|
            0 <= i < d.items.len() && 0 <= j < d.items[i].links.len() ==> items_have_key(
                d.items,
                (#[trigger] d.items[i].links[j]).target_key,
            ) && d.items[i].links[j].target_key != d.items[i].key,
{
    lemma_validate_empty_iff_valid(d, icons);
    assert forall|i: int, j: int|
        0 <= i < d.items.len() && 0 <= j < d.items[i].tags.len() implies tags_have_key(
        d.tags,
        d.items[i].tags[j],
    ) by {
        assert(spec_item_ok(d, icons, d.items[i]));
    }
    assert forall|i: int, j: int|
        0 <= i < d.items.len() && 0 <= j < d.items[i].links.len() implies items_have_key(
        d.items,
        d.items[i].links[j].target_key,
    ) && d.items[i].links[j].target_key != d.items[i].key by {
        assert(spec_item_ok(d, icons, d.items[i]));
        assert(spec_link_ok(d.items, d.items[i].key, d.items[i].links[j]));
    }
}

/// Non-emptiness: in a directory the validator accepts, every tag's and
/// item's description holds a paragraph, and every link's and event's
/// description is non-empty.
pub proof fn lemma_valid_descriptions_nonempty(d: DirectoryView, icons: Seq<Seq<char>>)
    requires
        spec_validate(d, icons).len() == 0,
    ensures
        forall|i: int| 0 <= i < d.tags.len() ==> (#[trigger] d.tags[i]).description.len() > 0,
        forall|i: int| 0 <= i < d.items.len() ==> (#[trigger] d.items[i]).description.len() > 0,
        forall|i: int, j: int|
            0 <= i < d.items.len() && 0 <= j < d.items[i].links.len() ==> (#[trigger] d.items[i].links[j]).description.len() > 0,
        forall|i: int, j: int|
            0 <= i < d.items.len() && 0 <= j < d.items[i].events.len() ==> (#[trigger] d.items[i].events[j]).description.len() > 0,
{
    lemma_validate_empty_iff_valid(d, icons);
    assert forall|i: int| 0 <= i < d.tags.len() implies d.tags[i].description.len() > 0 by {
        assert(spec_tag_ok(d, icons, d.tags[i]));
    }
    assert forall|i: int| 0 <= i < d.items.len() implies d.items[i].description.len() > 0 by {
        assert(spec_item_ok(d, icons, d.items[i]));
    }
    assert forall|i: int, j: int|
        0 <= i < d.items.len() && 0 <= j < d.items[i].links.len() implies d.items[i].links[j].description.len()
        > 0 by {
        assert(spec_item_ok(d, icons, d.items[i]));
        assert(spec_link_ok(d.items, d.items[i].key, d.items[i].links[j]));
    }
    assert forall|i: int, j: int|
        0 <= i < d.items.len() && 0 <= j < d.items[i].events.len() implies d.items[i].events[j].description.len()
        > 0 by {
        assert(spec_item_ok(d, icons, d.items[i]));
        assert(d.items[i].events[j].description.len() > 0);
    }
}

} // verus!
