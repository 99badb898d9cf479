use clogwench::db::{process_obj_values, JObj, JQuery, RawObj, JDB};

fn raw(id: &str, fields: &[(&str, &str)]) -> RawObj {
    RawObj {
        id: id.to_string(),
        deleted: None,
        fields: fields.iter().map(|(k, v)| (k.to_string(), Some(v.to_string()))).collect(),
    }
}

/// The five stored objects of the sample data file: two contacts and three songs.
fn stored_test_data() -> Vec<RawObj> {
    vec![
        raw(
            "some-unique-id-04",
            &[("type", "person-contact"), ("first", "Josh"), ("last", "Marinacci"), ("email", "josh@example.com")],
        ),
        raw(
            "some-unique-id-05",
            &[("type", "person-contact"), ("first", "Jesse"), ("last", "Jones"), ("email", "jesse@example.com")],
        ),
        raw("song-01", &[("type", "song-track"), ("title", "Catch Me I'm Falling"), ("artist", "Pretty Poison")]),
        raw("song-02", &[("type", "song-track"), ("title", "Nightime"), ("artist", "Pretty Poison")]),
        raw("song-03", &[("type", "song-track"), ("title", "Closer"), ("artist", "Pretty Poison")]),
    ]
}

fn test_data_db() -> JDB {
    JDB { data: process_obj_values(&stored_test_data()), base_path: Some("./test_data.json".to_string()), save_path: None }
}

#[test]
fn query_test() {
    let jdb = test_data_db();
    assert_eq!(jdb.data.len(), 5);
    {
        let mut query = JQuery::new();
        query.add_equal("type", "person-contact");
        let res = jdb.process_query(&query);
        assert_eq!(res.len(), 2);
    }
    {
        let mut query = JQuery::new();
        query.add_equal("type", "person-contact");
        query.add_equal("first", "Josh");
        let res = jdb.process_query(&query);
        assert_eq!(res.len(), 1);
    }
    {
        let mut query = JQuery::new();
        query.add_equal("type", "person-contact");
        query.add_equal_ci("first", "josh");
        let res = jdb.process_query(&query);
        assert_eq!(res.len(), 1);
    }
    {
        let mut query = JQuery::new();
        query.add_equal("type", "person-contact");
        query.add_substring("first", "osh");
        let res = jdb.process_query(&query);
        assert_eq!(res.len(), 1);
    }
}

#[test]
fn create_object_test() {
    let mut jdb = test_data_db();
    {
        let mut query = JQuery::new();
        query.add_equal("type", "person-contact");
        let res = jdb.process_query(&query);
        assert_eq!(res.len(), 2);
    }
    {
        let mut obj = JObj::make();
        obj.add_field("type", "person-contact");
        obj.add_field("first", "Waylon");
        obj.add_field("last", "Smithers");
        jdb.add_object(obj)
    }
    {
        let mut query = JQuery::new();
        query.add_equal("type", "person-contact");
        let res = jdb.process_query(&query);
        assert_eq!(res.len(), 3);
    }
}

#[test]
fn edit_object_test() {
    let mut jdb = test_data_db();
    {
        if let Some(obj) = jdb.find_by_id("some-unique-id-05") {
            let mut obj: JObj = obj.clone();
            obj.set_field("first", "Bart");
            obj.set_field("last", "Simpson");
            obj.add_field("animated", "true");
            obj.remove_field("email");
            jdb.update_object(obj)
        } else {
            assert!(false, "couldnt find it anymore");
        }
    }
    {
        if let Some(obj) = jdb.find_by_id("some-unique-id-05") {
            assert_eq!(obj.id, "some-unique-id-05");
            assert!(obj.has_field("first"));
            assert!(obj.field_matches("first", "Bart"));
            assert!(obj.field_matches("last", "Simpson"));
            assert!(obj.field_matches("animated", "true"));
            assert!(!obj.has_field("email"));
        } else {
            assert!(false, "couldnt find it anymore");
        }
    }
}

#[test]
fn delete_object_test() {
    let mut jdb = test_data_db();
    {
        if let Some(obj) = jdb.find_by_id("some-unique-id-05") {
            let obj: JObj = obj.clone();
            jdb.delete(&obj);
        } else {
            assert!(false, "couldnt find it anymore");
        }
    }
    {
        if let Some(_obj) = jdb.find_by_id("some-unique-id-05") {
            assert!(false, "wasn't deleted!");
        } else {
            assert!(true, "fully deleted");
        }
    }
}

#[test]
fn repeated_update_leaves_database_unchanged() {
    let mut jdb = test_data_db();
    let mut obj = jdb.find_by_id("some-unique-id-04").unwrap().clone();
    obj.set_field("first", "Joshua");
    let first = jdb.process_update(obj.clone());
    let ids_once: Vec<String> = jdb.data.iter().map(|o| o.id.clone()).collect();
    let second = jdb.process_update(obj.clone());
    let ids_twice: Vec<String> = jdb.data.iter().map(|o| o.id.clone()).collect();
    assert_eq!(first.id, second.id);
    assert_eq!(ids_once, ids_twice);
    assert_eq!(jdb.data.len(), 5);
    assert_eq!(jdb.data[4].id, "some-unique-id-04");
    assert!(jdb.data[4].field_matches("first", "Joshua"));
}

#[test]
fn saved_objects_reload_the_same() {
    let base = stored_test_data();
    let mut jdb = JDB::from_stored(&base, None, Some("./test_data.json".to_string()), Some("./test_data_append.json".to_string()));
    let mut query = JQuery::new();
    query.add_equal("type", "person-contact");
    assert_eq!(jdb.process_query(&query).len(), 2);

    let mut obj1 = jdb.find_by_id("some-unique-id-04").unwrap().clone();
    assert!(obj1.field_matches("first", "Josh"));
    obj1.set_field("first", "Joshua");
    jdb.update_object(obj1);
    let obj2 = jdb.find_by_id("some-unique-id-05").unwrap().clone();
    jdb.delete(&obj2);
    let mut obj3 = JObj::make();
    obj3.set_field("type", "person-contact");
    obj3.set_field("first", "Michael");
    let obj3 = jdb.process_add(obj3);

    let saved = jdb.stored_objects();
    assert_eq!(saved.len(), 6);
    let jdb2 = JDB::from_stored(&base, Some(&saved), Some("./test_data.json".to_string()), Some("./test_data_append.json".to_string()));
    assert_eq!(jdb2.data.len(), 6);
    assert!(jdb2.find_by_id("some-unique-id-04").unwrap().field_matches("first", "Joshua"));
    assert!(jdb2.find_by_id("some-unique-id-05").is_none());
    assert!(jdb2.find_by_id(&obj3.id).unwrap().field_matches("first", "Michael"));
    assert_eq!(jdb2.process_query(&query).len(), 2);
    assert_eq!(jdb2.save_path, Some("./test_data_append.json".to_string()));
}

#[test]
fn stored_object_keeps_fields_and_mark() {
    let mut obj = JObj::make();
    obj.id = "x".to_string();
    obj.deleted = true;
    obj.set_field("a", "1");
    obj.set_field("b", "2");
    let r = obj.to_raw();
    assert_eq!(r.id, "x");
    assert_eq!(r.deleted, Some(true));
    assert_eq!(r.fields.len(), 2);
    let back = process_obj_values(&vec![r]);
    assert_eq!(back[0].id, "x");
    assert!(back[0].deleted);
    assert!(back[0].field_matches("a", "1"));
    assert!(back[0].field_matches("b", "2"));
}
