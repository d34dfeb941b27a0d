use content_directory::directory::{
    Directory, DirectoryError, DirectoryEvent, DirectoryLink, Item, Tag,
};
use content_directory::loader::{
    load_directory, FileSource, ItemRecord, ItemSourceFile, TagRecord, TagSourceFile,
};
use content_directory::naming::check_filename_and_key;
use content_directory::validate::{validate_directory, Violation};

fn simple_tag(key: &str) -> Tag {
    Tag {
        key: key.to_string(),
        title: key.to_string(),
        description: vec!["description".to_string()],
        color: None,
        icon: None,
        resize_icon: false,
    }
}

fn simple_item(key: &str, tags: Vec<&str>) -> Item {
    Item {
        key: key.to_string(),
        name: key.to_string(),
        title: key.to_string(),
        tags: tags.into_iter().map(|t| t.to_string()).collect(),
        created_in: Some(2005),
        concluded_in: None,
        description: vec!["description".to_string()],
        url: "https://example.com/".to_string(),
        backlink: None,
        icon: None,
        resize_icon: false,
        no_icon: true,
        links: vec![],
        events: vec![],
    }
}

fn wymmo_directory() -> Directory {
    Directory {
        tags: vec![Tag {
            key: "b2b".to_string(),
            title: "Business to consumer".to_string(),
            description: vec!["Le B2B,".to_string(), "c'est la vie".to_string()],
            color: None,
            icon: None,
            resize_icon: false,
        }],
        items: vec![
            Item {
                key: "wymmo".to_string(),
                name: "Wymmo".to_string(),
                title: "Où voudriez-vous habiter ?".to_string(),
                tags: vec!["b2b".to_string()],
                created_in: Some(2005),
                concluded_in: None,
                description: vec!["Où !! Mais où ! Parles !".to_string()],
                url: "https://wymmo.com".to_string(),
                backlink: None,
                icon: None,
                resize_icon: false,
                no_icon: true,
                links: vec![],
                events: vec![],
            },
            Item {
                key: "lbc".to_string(),
                name: "Vendre n'importe quoi, n'importe comment !".to_string(),
                title: "LBC".to_string(),
                tags: vec!["b2b".to_string()],
                created_in: Some(2006),
                concluded_in: None,
                description: vec!["Le Bon Canard".to_string()],
                url: "https://wymmo.com".to_string(),
                backlink: None,
                icon: None,
                resize_icon: false,
                no_icon: false,
                links: vec![DirectoryLink {
                    target_key: "wymmo".to_string(),
                    begin_in: 2026,
                    end_in: None,
                    description: "Wymmo rachète LBC, ils supportaient pas la compétition"
                        .to_string(),
                }],
                events: vec![],
            },
        ],
    }
}

fn no_icons() -> Vec<String> {
    vec![]
}

#[test]
fn test_check_filename_and_key() {
    assert!(matches!(check_filename_and_key("plop", "plop"), Ok(())));
    assert!(
        matches!(check_filename_and_key("PLOP", "plop"), Err(DirectoryError::ShouldMatchNamingConventions(s)) if s == "PLOP")
    );
    assert!(
        matches!(check_filename_and_key("plop .txt", "plop"), Err(DirectoryError::ShouldMatchNamingConventions(s)) if s == "plop ")
    );
    assert!(
        matches!(check_filename_and_key("plop", "PLOP"), Err(DirectoryError::ShouldMatchNamingConventions(s)) if s == "PLOP")
    );
    assert!(matches!(
        check_filename_and_key("plop.txt", "plop.txt"),
        Err(DirectoryError::ShouldMatchNamingConventions(s)) if s == "plop.txt"
    ));
    assert!(matches!(check_filename_and_key("pl_0_p.yaml", "pl_0_p"), Ok(())));
    assert!(matches!(check_filename_and_key("pl_0_p.md", "pl_0_p"), Ok(())));
    assert!(matches!(check_filename_and_key("pl_0_p.txt", "pl_0_p"), Ok(())));

    assert!(matches!(check_filename_and_key("pl0p", "pl0p"), Ok(())));
    assert!(matches!(
        check_filename_and_key("pl0p", "plop"),
        Err(DirectoryError::FileNameAndKeyDoNotMatch(file, key)) if file == "pl0p" && key == "plop"
    ));
}

#[test]
fn assert_validations() {
    let directory = Directory { tags: vec![], items: vec![] };
    assert!(validate_directory(&directory, &no_icons()).is_empty());

    let directory = wymmo_directory();
    assert!(validate_directory(&directory, &no_icons()).is_empty());

    // empty tag description is forbidden
    let mut wrong_directory = directory.clone();
    wrong_directory.tags[0].description = vec![];
    assert!(!validate_directory(&wrong_directory, &no_icons()).is_empty());

    // empty item description is forbidden
    let mut wrong_directory = directory.clone();
    wrong_directory.items[0].description = vec![];
    assert!(!validate_directory(&wrong_directory, &no_icons()).is_empty());

    // adds a tag with the same key than an item
    let mut wrong_directory = directory.clone();
    wrong_directory.tags.push(Tag {
        key: "wymmo".to_string(),
        title: "Wymmo".to_string(),
        description: vec!["description".to_string()],
        color: None,
        icon: None,
        resize_icon: false,
    });
    assert!(!validate_directory(&wrong_directory, &no_icons()).is_empty());

    // adds a tag with a key that is use by no item
    let mut wrong_directory = directory.clone();
    wrong_directory.tags.push(Tag {
        key: "not_used".to_string(),
        title: "This tag is not used".to_string(),
        description: vec!["description".to_string()],
        color: None,
        icon: None,
        resize_icon: false,
    });
    assert!(!validate_directory(&wrong_directory, &no_icons()).is_empty());

    // adds a non exising tag to an item
    let mut wrong_directory = directory.clone();
    wrong_directory.items[0].tags.push("not_existing_tag".to_string());
    assert!(!validate_directory(&wrong_directory, &no_icons()).is_empty());

    // adds a link to itself
    let mut wrong_directory = directory.clone();
    wrong_directory.items[0].links.push(DirectoryLink {
        target_key: "wymmo".to_string(),
        begin_in: 2020,
        end_in: None,
        description: "description".to_string(),
    });
    assert!(!validate_directory(&wrong_directory, &no_icons()).is_empty());

    // adds a link to an item that does not exist
    let mut wrong_directory = directory.clone();
    wrong_directory.items[0].links.push(DirectoryLink {
        target_key: "does_not_exists".to_string(),
        begin_in: 2020,
        end_in: None,
        description: "description".to_string(),
    });
    assert!(!validate_directory(&wrong_directory, &no_icons()).is_empty());
}

fn wymmo_source() -> FileSource {
    FileSource {
        tag_files: Some(vec![TagSourceFile {
            name: "b2b.yaml".to_string(),
            record: TagRecord::Parsed(simple_tag("b2b")),
        }]),
        icon_files: Some(vec![]),
        root_files: vec![ItemSourceFile {
            name: "wymmo.yaml".to_string(),
            record: ItemRecord::Parsed(simple_item("wymmo", vec!["b2b"])),
        }],
    }
}

#[test]
fn validate_current_directory_files() {
    let directory = load_directory(&wymmo_source()).unwrap();
    assert!(validate_directory(&directory, &no_icons()).is_empty());
}

#[test]
fn load_reports_missing_tags_dir() {
    let mut source = wymmo_source();
    source.tag_files = None;
    assert!(matches!(load_directory(&source), Err(DirectoryError::TagsDirNotFound)));
}

#[test]
fn load_reports_missing_icons_dir() {
    let mut source = wymmo_source();
    source.icon_files = None;
    assert!(matches!(load_directory(&source), Err(DirectoryError::IconsDirNotFound)));
}

#[test]
fn load_skips_files_without_record_extension() {
    let mut source = wymmo_source();
    source.root_files.push(ItemSourceFile {
        name: "notes.txt".to_string(),
        record: ItemRecord::Malformed,
    });
    source.root_files.push(ItemSourceFile {
        name: "readme".to_string(),
        record: ItemRecord::Unreadable,
    });
    let directory = load_directory(&source).unwrap();
    assert_eq!(directory.items.len(), 1);
    assert_eq!(directory.tags.len(), 1);
}

#[test]
fn load_reports_unreadable_record() {
    let mut source = wymmo_source();
    source.root_files.push(ItemSourceFile {
        name: "broken.yaml".to_string(),
        record: ItemRecord::Unreadable,
    });
    assert!(matches!(load_directory(&source), Err(DirectoryError::CouldNotReadFile)));
}

#[test]
fn load_reports_malformed_record() {
    let mut source = wymmo_source();
    source.tag_files.as_mut().unwrap().push(TagSourceFile {
        name: "bad.yml".to_string(),
        record: TagRecord::Malformed,
    });
    assert!(matches!(load_directory(&source), Err(DirectoryError::YamlDeserialization)));
}

#[test]
fn load_defaults_empty_key_to_file_stem() {
    let mut source = wymmo_source();
    let mut tag = simple_tag("ignored");
    tag.key = String::new();
    source.tag_files = Some(vec![TagSourceFile { name: "fintech.yaml".to_string(), record: TagRecord::Parsed(tag) }]);
    let directory = load_directory(&source).unwrap();
    assert_eq!(directory.tags[0].key, "fintech");
}

#[test]
fn load_rejects_filename_key_mismatch() {
    let mut source = wymmo_source();
    source.tag_files.as_mut().unwrap().push(TagSourceFile {
        name: "saas.yaml".to_string(),
        record: TagRecord::Parsed(simple_tag("cloud")),
    });
    assert!(matches!(
        load_directory(&source),
        Err(DirectoryError::FileNameAndKeyDoNotMatch(stem, key)) if stem == "saas" && key == "cloud"
    ));
}

#[test]
fn load_rejects_bad_naming() {
    let mut source = wymmo_source();
    source.tag_files.as_mut().unwrap().push(TagSourceFile {
        name: "Saas.yaml".to_string(),
        record: TagRecord::Parsed(simple_tag("Saas")),
    });
    assert!(matches!(
        load_directory(&source),
        Err(DirectoryError::ShouldMatchNamingConventions(s)) if s == "Saas"
    ));
}

#[test]
fn load_rejects_duplicate_tag_key() {
    let mut source = wymmo_source();
    let files = source.tag_files.as_mut().unwrap();
    files.push(TagSourceFile { name: "b2b.yml".to_string(), record: TagRecord::Parsed(simple_tag("b2b")) });
    assert!(matches!(
        load_directory(&source),
        Err(DirectoryError::TagIsNotUnique(k)) if k == "b2b"
    ));
}

#[test]
fn load_rejects_duplicate_item_key() {
    let mut source = wymmo_source();
    source.root_files.push(ItemSourceFile {
        name: "wymmo.yml".to_string(),
        record: ItemRecord::Parsed(simple_item("wymmo", vec!["b2b"])),
    });
    assert!(matches!(
        load_directory(&source),
        Err(DirectoryError::ItemIsNotUnique(k)) if k == "wymmo"
    ));
}

#[test]
fn hidden_file_is_not_a_record() {
    // a leading dot with no other dot gives no extension, so the file is
    // skipped without its record ever being read
    let mut source = wymmo_source();
    source.root_files.push(ItemSourceFile {
        name: ".yaml".to_string(),
        record: ItemRecord::Unreadable,
    });
    let directory = load_directory(&source).unwrap();
    assert_eq!(directory.items.len(), 1);
}

#[test]
fn dotted_stem_fails_naming() {
    assert!(matches!(
        check_filename_and_key("a.tar.yaml", "a.tar"),
        Err(DirectoryError::ShouldMatchNamingConventions(s)) if s == "a.tar"
    ));
}

#[test]
fn load_twice_yields_equal_directories() {
    let source = wymmo_source();
    let first = load_directory(&source).unwrap();
    let second = load_directory(&source).unwrap();
    assert_eq!(first, second);
}

#[test]
fn loaded_keys_equal_file_stems() {
    let directory = load_directory(&wymmo_source()).unwrap();
    assert_eq!(directory.tags[0].key, "b2b");
    assert_eq!(directory.items[0].key, "wymmo");
}

#[test]
fn validate_reports_key_conflict_variant() {
    let mut directory = wymmo_directory();
    directory.tags.push(simple_tag("wymmo"));
    let violations = validate_directory(&directory, &no_icons());
    assert!(violations
        .iter()
        .any(|v| matches!(v, Violation::KeyConflict { key } if key == "wymmo")));
}

#[test]
fn validate_reports_unused_tag_variant() {
    let mut directory = wymmo_directory();
    directory.tags.push(simple_tag("not_used"));
    let violations = validate_directory(&directory, &no_icons());
    assert!(violations
        .iter()
        .any(|v| matches!(v, Violation::UnusedTag { tag_key } if tag_key == "not_used")));
}

#[test]
fn validate_reports_empty_tag_description_variant() {
    let mut directory = wymmo_directory();
    directory.tags[0].description = vec![];
    let violations = validate_directory(&directory, &no_icons());
    assert!(violations
        .iter()
        .any(|v| matches!(v, Violation::EmptyTagDescription { tag_key } if tag_key == "b2b")));
}

#[test]
fn validate_reports_missing_tag_icon_variant() {
    let mut directory = wymmo_directory();
    directory.tags[0].icon = Some("b2b.png".to_string());
    let violations = validate_directory(&directory, &no_icons());
    assert!(violations
        .iter()
        .any(|v| matches!(v, Violation::MissingTagIcon { tag_key, icon } if tag_key == "b2b" && icon == "b2b.png")));
    // with the icon present the directory validates again
    let icons = vec!["b2b.png".to_string()];
    assert!(validate_directory(&directory, &icons).is_empty());
}

#[test]
fn validate_reports_unknown_item_tag_variant() {
    let mut directory = wymmo_directory();
    directory.items[0].tags.push("not_existing_tag".to_string());
    let violations = validate_directory(&directory, &no_icons());
    assert!(violations
        .iter()
        .any(|v| matches!(v, Violation::UnknownItemTag { item_key, tag_key } if item_key == "wymmo" && tag_key == "not_existing_tag")));
}

#[test]
fn validate_reports_empty_item_description_variant() {
    let mut directory = wymmo_directory();
    directory.items[1].description = vec![];
    let violations = validate_directory(&directory, &no_icons());
    assert!(violations
        .iter()
        .any(|v| matches!(v, Violation::EmptyItemDescription { item_key } if item_key == "lbc")));
}

#[test]
fn validate_reports_unknown_link_target_variant() {
    let mut directory = wymmo_directory();
    directory.items[0].links.push(DirectoryLink {
        target_key: "does_not_exists".to_string(),
        begin_in: 2020,
        end_in: None,
        description: "description".to_string(),
    });
    let violations = validate_directory(&directory, &no_icons());
    assert!(violations
        .iter()
        .any(|v| matches!(v, Violation::UnknownLinkTarget { item_key, target_key } if item_key == "wymmo" && target_key == "does_not_exists")));
}

#[test]
fn validate_reports_self_link_variant() {
    let mut directory = wymmo_directory();
    directory.items[0].links.push(DirectoryLink {
        target_key: "wymmo".to_string(),
        begin_in: 2020,
        end_in: None,
        description: "description".to_string(),
    });
    let violations = validate_directory(&directory, &no_icons());
    assert!(violations
        .iter()
        .any(|v| matches!(v, Violation::SelfLink { item_key } if item_key == "wymmo")));
}

#[test]
fn validate_reports_empty_link_description_variant() {
    let mut directory = wymmo_directory();
    directory.items[0].links.push(DirectoryLink {
        target_key: "lbc".to_string(),
        begin_in: 2020,
        end_in: None,
        description: String::new(),
    });
    let violations = validate_directory(&directory, &no_icons());
    assert!(violations
        .iter()
        .any(|v| matches!(v, Violation::EmptyLinkDescription { item_key, target_key } if item_key == "wymmo" && target_key == "lbc")));
}

#[test]
fn validate_reports_empty_event_description_variant() {
    let mut directory = wymmo_directory();
    directory.items[0].events.push(DirectoryEvent {
        happened_in: 2010,
        description: String::new(),
    });
    let violations = validate_directory(&directory, &no_icons());
    assert!(violations
        .iter()
        .any(|v| matches!(v, Violation::EmptyEventDescription { item_key } if item_key == "wymmo")));
    // a dated event with text is fine
    let mut good = wymmo_directory();
    good.items[0].events.push(DirectoryEvent {
        happened_in: 2010,
        description: "launched".to_string(),
    });
    assert!(validate_directory(&good, &no_icons()).is_empty());
}

#[test]
fn validate_reports_missing_item_icon_variant() {
    let mut directory = wymmo_directory();
    directory.items[0].icon = Some("wymmo.svg".to_string());
    let violations = validate_directory(&directory, &no_icons());
    assert!(violations
        .iter()
        .any(|v| matches!(v, Violation::MissingItemIcon { item_key, icon } if item_key == "wymmo" && icon == "wymmo.svg")));
    let icons = vec!["wymmo.svg".to_string()];
    assert!(validate_directory(&directory, &icons).is_empty());
}

#[test]
fn validate_reports_every_violation_not_just_the_first() {
    let mut directory = wymmo_directory();
    directory.tags[0].description = vec![];
    directory.tags.push(simple_tag("not_used"));
    directory.items[0].tags.push("ghost".to_string());
    let violations = validate_directory(&directory, &no_icons());
    assert_eq!(violations.len(), 3);
    assert!(matches!(&violations[0], Violation::EmptyTagDescription { tag_key } if tag_key == "b2b"));
    assert!(matches!(&violations[1], Violation::UnusedTag { tag_key } if tag_key == "not_used"));
    assert!(matches!(&violations[2], Violation::UnknownItemTag { item_key, tag_key } if item_key == "wymmo" && tag_key == "ghost"));
}
