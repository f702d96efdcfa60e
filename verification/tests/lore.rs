use melon::hashing::string_hash;
use melon::json::Json;
use melon::lore::{
    bodies, sources, LoreEntry, LoreError, LoreFile, LoreRecord, LoreType, Lorebook,
    LorebookBuilder, Tags,
};
use melon::resource::{Resource, ResourceRequest};
use melon::entity_id::EntityId;

struct TestLore {
    value: i32,
}

impl LoreType for TestLore {
    fn registered_name() -> &'static str {
        "lore::TestLore"
    }

    fn read(body: &Vec<u8>) -> Option<Self> {
        let json: serde_json::Value = serde_json::from_slice(body).ok()?;
        let value = json.get("value")?.as_i64()?;
        Some(TestLore {
            value: value as i32,
        })
    }
}

struct OtherLore {}

impl LoreType for OtherLore {
    fn registered_name() -> &'static str {
        "lore::OtherLore"
    }

    fn read(_body: &Vec<u8>) -> Option<Self> {
        Some(OtherLore {})
    }
}

fn record(tags: &[&str], tp: &str, body: &str) -> LoreRecord {
    LoreRecord {
        tags: tags.iter().map(|tag| tag.to_string()).collect(),
        tp: tp.to_string(),
        body: body.as_bytes().to_vec(),
    }
}

/// The records that the directory of the given name holds.
fn records_of(directory: &str) -> Vec<LoreRecord> {
    assert_eq!(directory, "./tests/lore");
    vec![
        record(
            &["tag3", "tag1", "tag2"],
            "lore::TestLore",
            "{\"tags\": [\"tag3\", \"tag1\", \"tag2\"], \"tp\": \"lore::TestLore\", \"value\": 32}",
        ),
        record(
            &["tag2", "tag4"],
            "lore::TestLore",
            "{\"tags\": [\"tag2\", \"tag4\"], \"tp\": \"lore::TestLore\", \"value\": 7}",
        ),
        record(&["tag5"], "lore::TestLore", "{\"value\": 1}"),
    ]
}

fn book() -> Lorebook {
    LorebookBuilder::new()
        .register::<TestLore>()
        .build(records_of("./tests/lore"))
        .unwrap()
}

#[test]
fn lore_build() {
    LorebookBuilder::new()
        .register::<TestLore>()
        .build(records_of("./tests/lore"))
        .unwrap();
}

#[test]
fn lore_get() {
    let x = book();
    assert_eq!(
        x.get::<TestLore>(Tags::new().with("tag1").with("tag2").with("tag3"))
            .unwrap()
            .value,
        32
    );
}

#[test]
fn lore_get_all() {
    let x = book();
    assert_eq!(
        2,
        x.get_all_with_tag::<TestLore>(&Tags::new().with("tag2"))
            .unwrap()
            .len()
    );
}

#[test]
fn tags_are_a_set() {
    let tags = Tags::new().with("a").with("b").with("a");
    let mut read = tags.read();
    read.sort();
    assert_eq!(read, vec!["a".to_string(), "b".to_string()]);
    assert!(tags.has("a") && tags.has("b") && !tags.has("c"));
    let more = Tags::new().with_all(vec![
        "b".to_string(),
        "a".to_string(),
        "b".to_string(),
    ]);
    assert_eq!(more.read().len(), 2);
    assert_eq!(tags.hash(), more.hash());
    assert_eq!(
        tags.hash(),
        string_hash("a").wrapping_add(string_hash("b"))
    );
    let swapped = Tags::new().with("b").with("a");
    assert_eq!(tags.hash(), swapped.hash());
    assert_eq!(Tags::new().hash(), 0);
    assert_eq!(Tags::default().read().len(), 0);
}

#[test]
fn lookups_follow_the_tags() {
    let x = book();
    let found = x
        .get_all_with_tag::<TestLore>(&Tags::new().with("tag2").with("tag4"))
        .unwrap();
    assert_eq!(found.len(), 1);
    assert_eq!(found[0].value, 7);
    assert_eq!(
        x.get_all_with_tag::<TestLore>(&Tags::new().with("tag2").with("nothing"))
            .unwrap()
            .len(),
        0
    );
    assert_eq!(
        x.get_all_with_tag::<TestLore>(&Tags::new())
            .unwrap()
            .len(),
        0
    );
    assert_eq!(
        x.get_all_with_tag::<OtherLore>(&Tags::new().with("tag2"))
            .unwrap()
            .len(),
        0
    );
    assert_eq!(
        x.get::<TestLore>(Tags::new().with("tag4").with("tag2"))
            .unwrap()
            .value,
        7
    );
}

#[test]
fn lookups_fail_with_their_errors() {
    let x = book();
    match x.get::<TestLore>(Tags::new().with("tag1")) {
        Err(LoreError::EntryNotFound(text)) => {
            assert_eq!(text, "Could not find entry with tags")
        }
        _ => panic!("expected that no entry is found"),
    }
    match x.get::<OtherLore>(Tags::new().with("tag5")) {
        Err(LoreError::InvalidLoreEntry(text)) => assert_eq!(text, "Could not downcast entry"),
        _ => panic!("expected an entry of another type"),
    }
    let mut builder = LorebookBuilder::new().register::<TestLore>();
    let unreadable = LoreEntry {
        kind: string_hash("lore::TestLore"),
        body: "no json".as_bytes().to_vec(),
    };
    builder
        .insert_lorebook_entry(unreadable, &Tags::new().with("x"))
        .unwrap();
    let x = builder.build(Vec::new()).unwrap();
    assert!(matches!(
        x.get::<TestLore>(Tags::new().with("x")),
        Err(LoreError::InvalidLoreEntry(_))
    ));
}

#[test]
fn a_build_turns_down_what_its_type_cannot_read() {
    let unreadable = vec![
        record(&["a"], "lore::TestLore", "{\"value\": 1}"),
        record(&["x"], "lore::TestLore", "no json"),
    ];
    match LorebookBuilder::new().register::<TestLore>().build(unreadable) {
        Err(LoreError::InvalidLoreEntry(text)) => assert_eq!(text, "Could not read entry"),
        _ => panic!("expected an entry that cannot be read"),
    }
    let other = vec![record(&["x"], "lore::OtherLore", "no json")];
    assert!(LorebookBuilder::new()
        .register::<TestLore>()
        .register::<OtherLore>()
        .build(other)
        .is_ok());
    let missing = vec![record(&["x"], "lore::OtherLore", "no json")];
    assert!(matches!(
        LorebookBuilder::new().register::<TestLore>().build(missing),
        Err(LoreError::TypeNotRegistered(_))
    ));
}

#[test]
fn builds_fail_with_their_errors() {
    match LorebookBuilder::new().build(records_of("./tests/lore")) {
        Err(LoreError::TypeNotRegistered(text)) => assert_eq!(text, "type"),
        _ => panic!("expected an unregistered type"),
    }
    let twice = vec![
        record(&["a", "b"], "lore::TestLore", "{\"value\": 1}"),
        record(&["b", "a", "b"], "lore::TestLore", "{\"value\": 2}"),
    ];
    let hash = Tags::new().with("a").with("b").hash();
    match LorebookBuilder::new().register::<TestLore>().build(twice) {
        Err(LoreError::EntryAlreadyExists(text)) => {
            assert_eq!(text, format!("Entry with hash {} already exists", hash))
        }
        _ => panic!("expected a duplicate entry"),
    }
    let mut builder = LorebookBuilder::new();
    let tags = Tags::new().with("a");
    let entry = |body: &str| LoreEntry {
        kind: string_hash("lore::TestLore"),
        body: body.as_bytes().to_vec(),
    };
    assert!(builder.insert_lorebook_entry(entry("{\"value\": 3}"), &tags).is_ok());
    assert!(matches!(
        builder.insert_lorebook_entry(entry("{\"value\": 4}"), &tags),
        Err(LoreError::EntryAlreadyExists(_))
    ));
    assert_eq!(
        entry("{\"value\": 3}").get::<TestLore>().unwrap().value,
        3
    );
    assert!(entry("{\"value\": 3}").get::<OtherLore>().is_none());
}

#[test]
fn a_lorebook_is_a_read_only_resource() {
    let mut x = book();
    let hash = Tags::new().with("tag5").hash();
    let request = ResourceRequest {
        key: x.key(),
        operation: 0,
        entity: EntityId(0),
        arguments: vec![hash as i64],
    };
    assert_eq!(x.read(&request), vec![12]);
    x.write(&request);
    assert_eq!(x.read(&request), vec![12]);
    let missing = ResourceRequest {
        key: x.key(),
        operation: 0,
        entity: EntityId(0),
        arguments: vec![1],
    };
    assert_eq!(x.read(&missing), Vec::<i64>::new());
}

fn file(tags: &[&str], merge: Option<&[&str]>) -> LoreFile {
    LoreFile {
        tags: tags.iter().map(|tag| tag.to_string()).collect(),
        tp: "lore::TestLore".to_string(),
        merge: merge.map(|tags| tags.iter().map(|tag| tag.to_string()).collect()),
        body: object(vec![("of", Json::Text(tags.join(",")))]),
    }
}

fn object(members: Vec<(&str, Json)>) -> Json {
    Json::Object(
        members
            .into_iter()
            .map(|(key, value)| (key.to_string(), value))
            .collect(),
    )
}

fn number(text: &str) -> Json {
    Json::Number(text.to_string())
}

#[test]
fn records_take_their_bodies_from_the_last_file_under_the_tags() {
    assert_eq!(sources(&Vec::new()), Vec::<Option<usize>>::new());
    let files = vec![
        file(&["a"], None),
        file(&["b", "c"], Some(&["a"])),
        file(&["d"], Some(&["nothing"])),
        file(&["a", "a"], None),
        file(&["e"], Some(&["c", "b"])),
        file(&["f"], Some(&["f"])),
    ];
    assert_eq!(
        sources(&files),
        vec![None, Some(3), None, Some(3), Some(1), Some(5)]
    );
    let of = |tags: &str| Some(object(vec![("of", Json::Text(tags.to_string()))]));
    assert_eq!(
        bodies(&files),
        vec![None, of("a,a"), None, of("a,a"), of("b,c"), of("f")]
    );
}

#[test]
fn an_object_is_merged_member_by_member() {
    let mut mine = object(vec![
        ("a", number("1")),
        ("b", object(vec![("c", number("2")), ("d", Json::Null)])),
        ("f", Json::List(vec![number("1")])),
    ]);
    let theirs = object(vec![
        ("b", object(vec![("d", number("3")), ("e", Json::Bool(true))])),
        ("g", number("4")),
        ("f", Json::List(vec![number("2"), number("3")])),
        ("a", object(vec![("h", Json::Null)])),
    ]);
    mine.merge(&theirs);
    assert_eq!(
        mine,
        object(vec![
            ("a", object(vec![("h", Json::Null)])),
            (
                "b",
                object(vec![
                    ("c", number("2")),
                    ("d", number("3")),
                    ("e", Json::Bool(true)),
                ])
            ),
            ("f", Json::List(vec![number("2"), number("3")])),
            ("g", number("4")),
        ])
    );
}

#[test]
fn any_other_value_is_replaced_by_a_merge() {
    let theirs = object(vec![("a", number("1"))]);
    assert_eq!(Json::Null.merged_with(&theirs), theirs);
    assert_eq!(number("7").merged_with(&Json::Text("x".to_string())), Json::Text("x".to_string()));
    assert_eq!(theirs.copy().merged_with(&Json::Null), Json::Null);
    assert_eq!(
        Json::List(vec![number("1")]).merged_with(&Json::List(Vec::new())),
        Json::List(Vec::new())
    );
    assert_eq!(theirs.copy().merged_with(&theirs), theirs);
    assert_eq!(theirs.copy(), theirs);
}
