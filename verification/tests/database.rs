use clogwench::db::{merge_objects, process_obj_values, JObj, JQuery, RawObj, JDB};
use clogwench::central::CentralState;
use clogwench::color::PixelLayout;
use clogwench::graphics::GFXBuffer;

fn make_test_db() -> JDB {
    let mut jdb = JDB { data: vec![], base_path: None, save_path: None };
    let mut song = JObj::make();
    song.data.insert("title".to_string(), "Catch Me I'm Falling".to_string());
    song.data.insert("artist".to_string(), "Pretty Poison".to_string());
    song.data.insert("album".to_string(), "Catch Me I'm Falling".to_string());
    jdb.data.push(song);

    let mut song = JObj::make();
    song.data.insert("title".to_string(), "Nightime".to_string());
    song.data.insert("artist".to_string(), "Pretty Poison".to_string());
    song.data.insert("album".to_string(), "Catch Me I'm Falling".to_string());
    jdb.data.push(song);

    let mut song = JObj::make();
    song.data.insert("title".to_string(), "Closer".to_string());
    song.data.insert("artist".to_string(), "Pretty Poison".to_string());
    song.data.insert("album".to_string(), "Catch Me I'm Falling".to_string());
    jdb.data.push(song);

    jdb
}

fn contact(id: &str, first: &str, last: &str) -> JObj {
    let mut obj = JObj::make();
    obj.id = id.to_string();
    obj.add_field("type", "person-contact");
    obj.add_field("first", first);
    obj.add_field("last", last);
    obj
}

fn contacts_db() -> JDB {
    let mut jdb = JDB::make_empty();
    jdb.add_object(contact("some-unique-id-04", "Josh", "Marinacci"));
    jdb.add_object(contact("some-unique-id-05", "Jesse", "Jones"));
    let mut song = JObj::make();
    song.id = "song-1".to_string();
    song.add_field("type", "song-track");
    song.add_field("title", "Closer");
    jdb.add_object(song);
    jdb
}

#[test]
fn find_by_field_counts() {
    let db = make_test_db();

    let objs = db.find_by_field("title", "Catch Me I'm Falling");
    assert_eq!(objs.len(), 1);

    let objs = db.find_by_field("title", "madeup");
    assert_eq!(objs.len(), 0);

    let objs = db.find_by_field("artist", "Pretty Poison");
    assert_eq!(objs.len(), 3);

    let objs = db.find_by_field("title", "Catch Me I'm Falling");
    assert_eq!(objs.len(), 1);
    assert_eq!(objs[0].field("title").unwrap(), "Catch Me I'm Falling");
    assert_eq!(objs[0].field("artist").unwrap(), "Pretty Poison");
    assert_eq!(objs[0].field("album").unwrap(), "Catch Me I'm Falling");
}

#[test]
fn query_clauses() {
    let jdb = contacts_db();
    let mut query = JQuery::new();
    query.add_equal("type", "person-contact");
    assert_eq!(jdb.process_query(&query).len(), 2);

    let mut query = JQuery::new();
    query.add_equal("type", "person-contact");
    query.add_equal("first", "Josh");
    assert_eq!(jdb.process_query(&query).len(), 1);

    let mut query = JQuery::new();
    query.add_equal("type", "person-contact");
    query.add_equal("first", "josh");
    assert_eq!(jdb.process_query(&query).len(), 0);

    let mut query = JQuery::new();
    query.add_equal("type", "person-contact");
    query.add_equal_ci("first", "josh");
    let res = jdb.process_query(&query);
    assert_eq!(res.len(), 1);
    assert_eq!(res[0].id, "some-unique-id-04");

    let mut query = JQuery::new();
    query.add_equal("type", "person-contact");
    query.add_substring("first", "osh");
    assert_eq!(jdb.process_query(&query).len(), 1);

    let mut query = JQuery::new();
    query.add_substringi("first", "JE");
    let res = jdb.process_query(&query);
    assert_eq!(res.len(), 1);
    assert_eq!(res[0].id, "some-unique-id-05");

    let mut query = JQuery::new();
    query.add_equal("missing", "x");
    assert_eq!(jdb.process_query(&query).len(), 0);

    let query = JQuery::new();
    assert_eq!(jdb.process_query(&query).len(), 3);
}

#[test]
fn later_clause_on_a_field_replaces_earlier() {
    let jdb = contacts_db();
    let mut query = JQuery::new();
    query.add_equal("first", "Nobody");
    query.add_equal("first", "Josh");
    assert_eq!(jdb.process_query(&query).len(), 1);
}

#[test]
fn add_then_query() {
    let mut jdb = contacts_db();
    let mut query = JQuery::new();
    query.add_equal("type", "person-contact");
    assert_eq!(jdb.process_query(&query).len(), 2);
    let mut obj = JObj::make();
    obj.add_field("type", "person-contact");
    obj.add_field("first", "Waylon");
    obj.add_field("last", "Smithers");
    jdb.add_object(obj);
    assert_eq!(jdb.process_query(&query).len(), 3);
}

#[test]
fn update_then_find() {
    let mut jdb = contacts_db();
    let mut obj = jdb.find_by_id("some-unique-id-05").unwrap().clone();
    obj.set_field("first", "Bart");
    obj.set_field("last", "Simpson");
    obj.add_field("animated", "true");
    obj.remove_field("last");
    jdb.update_object(obj);
    assert_eq!(jdb.data.len(), 3);
    let found = jdb.find_by_id("some-unique-id-05").unwrap();
    assert_eq!(found.id, "some-unique-id-05");
    assert!(found.has_field("first"));
    assert!(found.field_matches("first", "Bart"));
    assert!(found.field_matches("animated", "true"));
    assert!(!found.has_field("last"));
    assert_eq!(jdb.data.last().unwrap().id, "some-unique-id-05");
}

#[test]
fn delete_then_find() {
    let mut jdb = contacts_db();
    let obj = jdb.find_by_id("some-unique-id-05").unwrap().clone();
    jdb.delete(&obj);
    assert!(jdb.find_by_id("some-unique-id-05").is_none());
    assert_eq!(jdb.data.len(), 3);
    assert!(jdb.data[1].deleted);
    let mut query = JQuery::new();
    query.add_equal("type", "person-contact");
    assert_eq!(jdb.process_query(&query).len(), 1);
    let returned = jdb.process_delete(contact("no-such-id", "a", "b"));
    assert_eq!(returned.id, "no-such-id");
    assert_eq!(jdb.data.len(), 3);
}

#[test]
fn process_add_gives_fresh_id() {
    let mut jdb = contacts_db();
    let mut obj = JObj::make();
    obj.set_field("type", "person-contact");
    obj.set_field("first", "Michael");
    let added = jdb.process_add(obj);
    assert!(added.id.starts_with("obj_$"));
    assert_eq!(added.id.len(), 35);
    assert!(added.id[5..].chars().all(|c| c.is_ascii_alphanumeric()));
    let found = jdb.find_by_id(&added.id).unwrap();
    assert!(found.field_matches("first", "Michael"));
    let other = jdb.process_add(JObj::make());
    assert_ne!(other.id, added.id);
}

#[test]
fn add_with_suffix_names_the_object() {
    let mut jdb = JDB::make_empty();
    let added = jdb.add_with_suffix(contact("", "A", "B"), "abc");
    assert_eq!(added.id, "obj_$abc");
    assert_eq!(jdb.objects().len(), 1);
}

#[test]
fn process_update_returns_copy() {
    let mut jdb = contacts_db();
    let obj = contact("some-unique-id-04", "Joshua", "M");
    let r = jdb.process_update(obj);
    assert_eq!(r.id, "some-unique-id-04");
    assert_eq!(jdb.find_by_id("some-unique-id-04").unwrap().field("first").unwrap(), "Joshua");
}

#[test]
fn raw_objects_become_objects() {
    let raw = vec![
        RawObj {
            id: "a".to_string(),
            deleted: None,
            fields: vec![
                ("title".to_string(), Some("One".to_string())),
                ("count".to_string(), None),
                ("title".to_string(), Some("Two".to_string())),
            ],
        },
        RawObj { id: "b".to_string(), deleted: Some(true), fields: vec![] },
    ];
    let objs = process_obj_values(&raw);
    assert_eq!(objs.len(), 2);
    assert_eq!(objs[0].id, "a");
    assert!(!objs[0].deleted);
    assert_eq!(objs[0].field("title").unwrap(), "Two");
    assert!(!objs[0].has_field("count"));
    assert!(objs[1].deleted);
}

#[test]
fn merge_keeps_last_of_each_id() {
    let items = vec![
        contact("x", "first", "1"),
        contact("y", "other", "1"),
        contact("x", "second", "2"),
    ];
    let merged = merge_objects(items);
    assert_eq!(merged.len(), 2);
    let x = merged.iter().find(|o| o.id == "x").unwrap();
    assert!(x.field_matches("first", "second"));
    assert!(merged.iter().any(|o| o.id == "y"));
}

#[test]
fn fresh_ids_are_version_four_uuids() {
    let mut st = CentralState::init(JDB::make_empty());
    let a = st.add_app();
    let b = st.add_wm();
    let c = st.add_debugger();
    for id in [a, b, c] {
        assert_eq!((id >> 76) & 0xf, 4);
        assert_eq!((id >> 62) & 0x3, 2);
    }
    assert_ne!(a, b);
    assert_ne!(b, c);
    let buf = GFXBuffer::new(1, 1, &PixelLayout::ARGB());
    assert_eq!((buf.id >> 76) & 0xf, 4);
    assert_ne!(buf.id, GFXBuffer::new(1, 1, &PixelLayout::ARGB()).id);
}

#[test]
fn random_suffixes_differ() {
    let mut jdb = JDB::make_empty();
    let a = jdb.process_add(JObj::make());
    let b = jdb.process_add(JObj::make());
    assert_ne!(a.id, b.id);
    assert!(b.id[5..].chars().all(|c| c.is_ascii_alphanumeric()));
    assert_eq!(b.id.chars().count(), 35);
}
