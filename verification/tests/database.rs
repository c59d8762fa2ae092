use polodb_core::db::{Database, Reply};
use polodb_core::commands::{
    CommandMessage, CountDocumentsCommand, CreateCollectionCommand, DeleteCommand,
    DropCollectionCommand, FindCommand, InsertCommand, StartTransactionCommand, UpdateCommand,
};
use polodb_core::error::DbErr;
use polodb_core::value::{values_equal, Document, Value};

const TEST_SIZE: usize = 1000;

fn doc(fields: Vec<(&str, Value)>) -> Document {
    let mut d = Document::new();
    for (k, v) in fields {
        d.insert(k.to_string(), v);
    }
    d
}

fn s(text: &str) -> Value {
    Value::String(text.to_string())
}

fn get_str<'a>(d: &'a Document, key: &str) -> &'a str {
    match d.get(key) {
        Some(Value::String(x)) => x.as_str(),
        other => panic!("not a string: {:?}", other),
    }
}

fn insert_items_to_db(mut db: Database, size: usize) -> Database {
    let mut data: Vec<Document> = vec![];
    for i in 0..size {
        data.push(doc(vec![("content", s(&i.to_string()))]));
    }
    db.insert_many("test", data, None).unwrap();
    db
}

fn create_memory_and_return_db_with_items(size: usize) -> Database {
    let db = Database::open_memory().unwrap();
    insert_items_to_db(db, size)
}

#[test]
fn test_create_collection_and_find_all() {
    let mut db = create_memory_and_return_db_with_items(TEST_SIZE);
    let all = db.find_many("test", None, None).unwrap();

    let second = db.find_one("test", Some(doc(vec![("content", s("1"))])), None).unwrap().unwrap();
    assert_eq!(get_str(&second, "content"), "1");
    assert!(second.get("content").is_some());

    assert_eq!(TEST_SIZE, all.len())
}

#[test]
fn test_create_collection_and_drop() {
    let mut db = Database::open_memory().unwrap();
    let names = db.list_collection_names().unwrap();
    assert_eq!(names.len(), 0);

    let insert_result = db
        .insert_many("test", vec![doc(vec![("name", s("Apple"))]), doc(vec![("name", s("Banana"))])], None)
        .unwrap();
    assert_eq!(insert_result.inserted_ids.len(), 2);

    let names = db.list_collection_names().unwrap();
    assert_eq!(names.len(), 1);
    assert_eq!(names[0], "test");

    db.drop("test", None).unwrap();

    let names = db.list_collection_names().unwrap();
    assert_eq!(names.len(), 0);
}

#[test]
fn test_insert_struct() {
    let mut db = Database::open_memory().unwrap();
    let books = vec![
        doc(vec![("title", s("The Grapes of Wrath")), ("author", s("John Steinbeck"))]),
        doc(vec![("title", s("To Kill a Mockingbird")), ("author", s("Harper Lee"))]),
    ];
    db.insert_many("books", books, None).unwrap();

    let result = db.find_one("books", Some(doc(vec![("title", s("The Grapes of Wrath"))])), None).unwrap();
    let book = result.unwrap();
    assert_eq!(get_str(&book, "author"), "John Steinbeck");

    let either = Value::Array(vec![
        Value::Document(doc(vec![("title", s("The Grapes of Wrath"))])),
        Value::Document(doc(vec![("title", s("To Kill a Mockingbird"))])),
    ]);
    let result = db.find_many("books", Some(doc(vec![("$or", either)])), None).unwrap();
    assert_eq!(result.len(), 2);
}

#[test]
fn test_multiple_find_one() {
    let mut db = Database::open_memory().unwrap();
    db.insert_one("config", doc(vec![("_id", s("c1")), ("value", s("c1"))]), None).unwrap();
    db.insert_one("config", doc(vec![("_id", s("c2")), ("value", s("c2"))]), None).unwrap();
    db.insert_one("config", doc(vec![("_id", s("c3")), ("value", s("c3"))]), None).unwrap();
    assert_eq!(db.count_documents("config", None).unwrap(), 3);

    db.update_many(
        "config",
        doc(vec![("_id", s("c2"))]),
        doc(vec![("$set", Value::Document(doc(vec![("value", s("c33"))])))]),
        None,
    )
    .unwrap();
    db.update_many(
        "config",
        doc(vec![("_id", s("c2"))]),
        doc(vec![("$set", Value::Document(doc(vec![("value", s("c22"))])))]),
        None,
    )
    .unwrap();

    let doc1 = db.find_one("config", Some(doc(vec![("_id", s("c1"))])), None).unwrap().unwrap();
    assert_eq!(get_str(&doc1, "value"), "c1");

    let doc1 = db.find_one("config", Some(doc(vec![("_id", s("c2"))])), None).unwrap().unwrap();
    assert_eq!(get_str(&doc1, "value"), "c22");
}

#[test]
fn test_create_collection_with_number_pkey() {
    let mut db = Database::open_memory().unwrap();
    let mut data: Vec<Document> = vec![];
    for i in 0..TEST_SIZE {
        data.push(doc(vec![("_id", Value::Int64(i as i64)), ("content", s(&i.to_string()))]));
    }
    db.insert_many("test", data, None).unwrap();

    let count = db.count_documents("test", None).unwrap();
    assert_eq!(TEST_SIZE, count as usize);

    let all = db.find_many("test", None, None).unwrap();
    assert_eq!(TEST_SIZE, all.len())
}

#[test]
fn test_find() {
    let mut db = create_memory_and_return_db_with_items(TEST_SIZE);
    let result = db.find_many("test", Some(doc(vec![("content", s("3"))])), None).unwrap();
    assert_eq!(result.len(), 1);
    assert_eq!(get_str(&result[0], "content"), "3");
}

#[test]
fn test_create_collection_and_find_by_pkey() {
    let mut db = create_memory_and_return_db_with_items(10);
    let all = db.find_many("test", None, None).unwrap();
    assert_eq!(all.len(), 10);

    let first_key = all[0].get("_id").unwrap().duplicate();
    let result = db.find_many("test", Some(doc(vec![("_id", first_key)])), None).unwrap();
    assert_eq!(result.len(), 1);
}

#[test]
fn test_pkey_type_check() {
    let mut db = create_memory_and_return_db_with_items(TEST_SIZE);
    let d = doc(vec![("_id", Value::Int32(10)), ("value", s("something"))]);
    db.insert_one("test", d, None).expect_err("should not success");
}

#[test]
fn test_insert_bigger_key() {
    let mut db = Database::open_memory().unwrap();
    let mut new_str: String = String::new();
    for _i in 0..32 {
        new_str.push('0');
    }
    let d = doc(vec![("_id", Value::String(new_str.clone()))]);
    let _ = db.insert_one("test", d, None).unwrap();
}

#[test]
fn test_update_one() {
    let mut db = Database::open_memory().unwrap();
    let result = db
        .insert_many(
            "test",
            vec![
                doc(vec![("name", s("Vincent")), ("age", Value::Int32(17))]),
                doc(vec![("name", s("Vincent")), ("age", Value::Int32(18))]),
            ],
            None,
        )
        .unwrap();
    assert_eq!(result.inserted_ids.len(), 2);

    let result = db
        .update_one(
            "test",
            doc(vec![("name", s("Vincent"))]),
            doc(vec![("$set", Value::Document(doc(vec![("name", s("Steve"))])))]),
            None,
        )
        .unwrap();
    assert_eq!(result.modified_count, 1);
}

#[test]
fn test_delete_one() {
    let mut db = Database::open_memory().unwrap();
    let result = db
        .insert_many(
            "test",
            vec![
                doc(vec![("name", s("Vincent")), ("age", Value::Int32(17))]),
                doc(vec![("name", s("Vincent")), ("age", Value::Int32(18))]),
            ],
            None,
        )
        .unwrap();
    assert_eq!(result.inserted_ids.len(), 2);

    let result = db.delete_one("test", doc(vec![("name", s("Vincent"))]), None).unwrap();
    assert_eq!(result.deleted_count, 1);

    let remain = db.count_documents("test", None).unwrap();
    assert_eq!(remain, 1);
}

#[test]
fn test_one_delete_item() {
    let mut db = Database::open_memory().unwrap();
    let mut doc_collection = vec![];
    for i in 0..100 {
        doc_collection.push(doc(vec![("content", s(&i.to_string()))]));
    }
    let result = db.insert_many("test", doc_collection, None).unwrap();

    let third_key = result.inserted_ids.get(3).unwrap().duplicate();
    let delete_doc = doc(vec![("_id", third_key)]);
    assert_eq!(db.delete_many("test", delete_doc.duplicate(), None).unwrap().deleted_count, 1);
    assert_eq!(db.delete_many("test", delete_doc, None).unwrap().deleted_count, 0);
}

#[test]
fn test_delete_all_items() {
    let mut db = Database::open_memory().unwrap();
    let mut doc_collection = vec![];
    for i in 0..1000 {
        doc_collection.push(doc(vec![("_id", Value::Int32(i)), ("content", s(&i.to_string()))]));
    }
    let copies: Vec<Document> = doc_collection.iter().map(|d| d.duplicate()).collect();
    db.insert_many("test", doc_collection, None).unwrap();

    for d in &copies {
        let key = d.get("_id").unwrap();
        let deleted_result = db.delete_many("test", doc(vec![("_id", key.duplicate())]), None).unwrap();
        assert!(deleted_result.deleted_count > 0, "delete nothing with key: {:?}", key);
        let result = db.find_many("test", Some(doc(vec![("_id", key.duplicate())])), None).unwrap();
        assert_eq!(result.len(), 0, "item with key: {:?}", key);
    }
}

// ---------------------------------------------------------------- further cases

#[test]
fn create_twice_is_refused() {
    let mut db = Database::open_memory().unwrap();
    db.create_collection("a").unwrap();
    match db.create_collection("a") {
        Err(DbErr::CollectionAlreadyExits(name)) => assert_eq!(name, "a"),
        other => panic!("unexpected: {:?}", other),
    }
    assert_eq!(db.list_collection_names().unwrap(), vec!["a".to_string()]);
}

#[test]
fn generated_id_comes_first() {
    let mut db = Database::open_memory().unwrap();
    let r = db.insert_one("c", doc(vec![("x", Value::Int32(1))]), None).unwrap();
    assert!(matches!(r.inserted_id, Value::ObjectId(_)));
    let all = db.find_many("c", None, None).unwrap();
    assert_eq!(all.len(), 1);
    assert_eq!(all[0].fields[0].0, "_id");
    assert!(values_equal(&all[0].fields[0].1, &r.inserted_id));
    assert_eq!(all[0].fields[1].0, "x");
}

#[test]
fn given_id_is_kept() {
    let mut db = Database::open_memory().unwrap();
    let r = db.insert_one("c", doc(vec![("_id", Value::Int64(5)), ("x", Value::Int32(1))]), None).unwrap();
    assert!(values_equal(&r.inserted_id, &Value::Int64(5)));
}

#[test]
fn duplicate_key_is_refused_and_nothing_changes() {
    let mut db = Database::open_memory().unwrap();
    db.insert_one("c", doc(vec![("_id", Value::Int64(1))]), None).unwrap();
    let r = db.insert_many(
        "c",
        vec![doc(vec![("_id", Value::Int64(2))]), doc(vec![("_id", Value::Int64(1))])],
        None,
    );
    assert!(matches!(r, Err(DbErr::DuplicateKey)));
    assert_eq!(db.count_documents("c", None).unwrap(), 1);
}

#[test]
fn failed_insert_many_does_not_create_collection() {
    let mut db = Database::open_memory().unwrap();
    let r = db.insert_many(
        "fresh",
        vec![doc(vec![("_id", Value::Int64(2))]), doc(vec![("_id", Value::Int64(2))])],
        None,
    );
    assert!(matches!(r, Err(DbErr::DuplicateKey)));
    assert_eq!(db.list_collection_names().unwrap().len(), 0);
}

#[test]
fn missing_collection_reads_as_empty() {
    let mut db = Database::open_memory().unwrap();
    assert_eq!(db.count_documents("none", None).unwrap(), 0);
    assert!(db.find_one("none", None, None).unwrap().is_none());
    assert_eq!(db.find_many("none", Some(doc(vec![("$bad", Value::Null)])), None).unwrap().len(), 0);
    assert_eq!(db.delete_many("none", Document::new(), None).unwrap().deleted_count, 0);
    assert_eq!(
        db.update_many("none", Document::new(), doc(vec![("$set", Value::Document(Document::new()))]), None)
            .unwrap()
            .modified_count,
        0
    );
    db.drop("none", None).unwrap();
}

#[test]
fn invalid_query_is_refused() {
    let mut db = create_memory_and_return_db_with_items(3);
    let r = db.find_many("test", Some(doc(vec![("$where", s("x"))])), None);
    assert!(matches!(r, Err(DbErr::InvalidQuery)));
    let r = db.find_many("test", Some(doc(vec![("$or", Value::Array(vec![]))])), None);
    assert!(matches!(r, Err(DbErr::InvalidQuery)));
    let r = db.delete_one("test", doc(vec![("$or", s("x"))]), None);
    assert!(matches!(r, Err(DbErr::InvalidQuery)));
    assert_eq!(db.count_documents("test", None).unwrap(), 3);
}

#[test]
fn invalid_update_is_refused() {
    let mut db = create_memory_and_return_db_with_items(3);
    let r = db.update_many("test", Document::new(), doc(vec![("$inc", Value::Document(Document::new()))]), None);
    assert!(matches!(r, Err(DbErr::InvalidUpdate)));
    let r = db.update_many("test", Document::new(), doc(vec![("$set", Value::Int32(1))]), None);
    assert!(matches!(r, Err(DbErr::InvalidUpdate)));
    let r = db.update_many(
        "test",
        Document::new(),
        doc(vec![("$set", Value::Document(doc(vec![("_id", Value::Int32(1))])))]),
        None,
    );
    assert!(matches!(r, Err(DbErr::UnableToUpdatePrimaryKey)));
}

#[test]
fn unset_removes_field_and_and_filter_selects() {
    let mut db = Database::open_memory().unwrap();
    db.insert_one("p", doc(vec![("_id", Value::Int32(1)), ("a", Value::Int32(1)), ("b", Value::Int32(2))]), None).unwrap();
    db.insert_one("p", doc(vec![("_id", Value::Int32(2)), ("a", Value::Int32(1)), ("b", Value::Int32(3))]), None).unwrap();
    let both = Value::Array(vec![
        Value::Document(doc(vec![("a", Value::Int32(1))])),
        Value::Document(doc(vec![("b", Value::Int32(3))])),
    ]);
    let r = db
        .update_many("p", doc(vec![("$and", both)]), doc(vec![("$unset", Value::Document(doc(vec![("a", Value::Null)])))]), None)
        .unwrap();
    assert_eq!(r.modified_count, 1);
    let d = db.find_one("p", Some(doc(vec![("_id", Value::Int32(2))])), None).unwrap().unwrap();
    assert!(d.get("a").is_none());
    assert!(values_equal(d.get("b").unwrap(), &Value::Int32(3)));
    let d = db.find_one("p", Some(doc(vec![("_id", Value::Int32(1))])), None).unwrap().unwrap();
    assert!(values_equal(d.get("a").unwrap(), &Value::Int32(1)));
}

#[test]
fn rollback_restores_and_commit_keeps() {
    let mut db = create_memory_and_return_db_with_items(2);
    let session = db.start_session().unwrap();
    db.start_transaction(&session.id, None).unwrap();
    assert!(matches!(db.start_transaction(&session.id, None), Err(DbErr::StartTransactionInAnotherTransaction)));
    db.insert_one("test", doc(vec![("content", s("x"))]), None).unwrap();
    db.create_collection("other").unwrap();
    assert_eq!(db.count_documents("test", None).unwrap(), 3);
    db.rollback(&session.id).unwrap();
    assert_eq!(db.count_documents("test", None).unwrap(), 2);
    assert_eq!(db.list_collection_names().unwrap(), vec!["test".to_string()]);
    assert!(matches!(db.rollback(&session.id), Err(DbErr::NoTransactionStarted)));

    db.start_transaction(&session.id, None).unwrap();
    db.insert_one("test", doc(vec![("content", s("y"))]), None).unwrap();
    db.commit(&session.id).unwrap();
    assert_eq!(db.count_documents("test", None).unwrap(), 3);
    assert!(matches!(db.commit(&session.id), Err(DbErr::NoTransactionStarted)));
}

#[test]
fn unknown_session_is_refused() {
    let mut db = Database::open_memory().unwrap();
    let mut session = db.start_session().unwrap();
    db.create_collection_with_session("a", &mut session).unwrap();
    let id = session.id;
    db.drop_session(&id).unwrap();
    assert!(matches!(db.create_collection_with_session("b", &mut session), Err(DbErr::SessionOutdated)));
    assert!(matches!(db.count_documents("a", Some(&id)), Err(DbErr::SessionOutdated)));
}

#[test]
fn index_is_recorded_on_created_collection() {
    let mut db = Database::open_memory().unwrap();
    db.create_index("idx", &doc(vec![("name", Value::Int32(1))]), None, None).unwrap();
    let dump = db.dump().unwrap();
    assert_eq!(dump.collections.len(), 1);
    assert_eq!(dump.collections[0].name, "idx");
    assert_eq!(dump.collections[0].indexes.len(), 1);
}

#[test]
fn binary_round_trip() {
    let mut db = Database::open_memory().unwrap();
    let data: Vec<u8> = (0..5000u32).map(|i| (i % 251) as u8).collect();
    let r = db
        .insert_one("bin", doc(vec![("content", Value::Binary { subtype: 0, bytes: data.clone() })]), None)
        .unwrap();
    let back = db.find_one("bin", Some(doc(vec![("_id", r.inserted_id)])), None).unwrap().unwrap();
    match back.get("content").unwrap() {
        Value::Binary { subtype, bytes } => {
            assert_eq!(*subtype, 0);
            assert_eq!(bytes, &data);
        },
        _ => panic!("type unmatched"),
    }
}

#[test]
fn requests_are_answered() {
    let mut db = Database::open_memory().unwrap();
    let r = db
        .handle_request_doc(CommandMessage::CreateCollection(CreateCollectionCommand { ns: "c".to_string(), options: None }))
        .unwrap();
    assert!(!r.is_quit);
    assert!(matches!(r.value, Reply::Created(true)));
    let r = db
        .handle_request_doc(CommandMessage::CreateCollection(CreateCollectionCommand { ns: "c".to_string(), options: None }))
        .unwrap();
    assert!(matches!(r.value, Reply::Created(false)));

    let r = db
        .handle_request_doc(CommandMessage::Insert(InsertCommand {
            ns: "c".to_string(),
            documents: vec![doc(vec![("k", Value::Int32(1))]), doc(vec![("k", Value::Int32(2))])],
            options: None,
        }))
        .unwrap();
    match r.value {
        Reply::Inserted(res) => assert_eq!(res.inserted_ids.len(), 2),
        other => panic!("unexpected: {:?}", other),
    }

    let r = db
        .handle_request_doc(CommandMessage::Find(FindCommand {
            ns: "c".to_string(),
            filter: Some(doc(vec![("k", Value::Int32(2))])),
            multi: true,
            options: None,
        }))
        .unwrap();
    match r.value {
        Reply::Documents(v) => assert_eq!(v.len(), 1),
        other => panic!("unexpected: {:?}", other),
    }

    let r = db
        .handle_request_doc(CommandMessage::Update(UpdateCommand {
            ns: "c".to_string(),
            filter: Document::new(),
            update: doc(vec![("$set", Value::Document(doc(vec![("z", Value::Boolean(true))])))]),
            multi: true,
            options: None,
        }))
        .unwrap();
    assert!(matches!(r.value, Reply::Updated(ref u) if u.modified_count == 2));

    let r = db
        .handle_request_doc(CommandMessage::CountDocuments(CountDocumentsCommand { ns: "c".to_string(), options: None }))
        .unwrap();
    assert!(matches!(r.value, Reply::Count(2)));

    let r = db
        .handle_request_doc(CommandMessage::Delete(DeleteCommand {
            ns: "c".to_string(),
            filter: doc(vec![("k", Value::Int32(1))]),
            multi: false,
            options: None,
        }))
        .unwrap();
    assert!(matches!(r.value, Reply::Deleted(ref d) if d.deleted_count == 1));

    let r = db.handle_request_doc(CommandMessage::StartTransaction(StartTransactionCommand { ty: None })).unwrap();
    assert!(matches!(r.value, Reply::Null));
    let r = db.handle_request_doc(CommandMessage::Rollback).unwrap();
    assert!(matches!(r.value, Reply::Null));
    assert!(matches!(db.handle_request_doc(CommandMessage::Commit), Err(DbErr::NoTransactionStarted)));

    let r = db
        .handle_request_doc(CommandMessage::DropCollection(DropCollectionCommand { ns: "c".to_string(), options: None }))
        .unwrap();
    assert!(matches!(r.value, Reply::Null));
    let r = db
        .handle_request_doc(CommandMessage::DropCollection(DropCollectionCommand { ns: "c".to_string(), options: None }))
        .unwrap();
    assert!(matches!(r.value, Reply::Null));
    assert_eq!(db.list_collection_names().unwrap().len(), 0);

    let r = db.handle_request_doc(CommandMessage::SafelyQuit).unwrap();
    assert!(r.is_quit);
}

#[test]
fn binary_subtype_takes_part_in_equality() {
    let a = Value::Binary { subtype: 0, bytes: vec![1, 2] };
    let b = Value::Binary { subtype: 4, bytes: vec![1, 2] };
    assert!(!values_equal(&a, &b));
    let mut db = Database::open_memory().unwrap();
    db.insert_one("b", doc(vec![("v", a)]), None).unwrap();
    assert_eq!(db.find_many("b", Some(doc(vec![("v", b)])), None).unwrap().len(), 0);
    let c = Value::Binary { subtype: 0, bytes: vec![1, 2] };
    assert_eq!(db.find_many("b", Some(doc(vec![("v", c)])), None).unwrap().len(), 1);
}

#[test]
fn further_kinds_are_stored_and_compared() {
    let mut db = Database::open_memory().unwrap();
    let scope = doc(vec![("x", Value::Int32(1))]);
    let d = doc(vec![
        ("t", Value::DateTime(1_700_000_000_000)),
        ("ts", Value::Timestamp { time: 5, increment: 6 }),
        ("dec", Value::Decimal128([7u8; 16])),
        ("re", Value::RegularExpression { pattern: "a+".to_string(), options: "i".to_string() }),
        ("js", Value::JavaScriptCode("f()".to_string())),
        ("jss", Value::JavaScriptCodeWithScope { code: "g()".to_string(), scope }),
        ("sym", Value::Symbol("s".to_string())),
        ("u", Value::Undefined),
        ("max", Value::MaxKey),
        ("min", Value::MinKey),
    ]);
    db.insert_one("k", d, None).unwrap();
    let found = db
        .find_many(
            "k",
            Some(doc(vec![
                ("ts", Value::Timestamp { time: 5, increment: 6 }),
                ("jss", Value::JavaScriptCodeWithScope {
                    code: "g()".to_string(),
                    scope: doc(vec![("x", Value::Int32(1))]),
                }),
            ])),
            None,
        )
        .unwrap();
    assert_eq!(found.len(), 1);
    assert!(values_equal(found[0].get("dec").unwrap(), &Value::Decimal128([7u8; 16])));
    assert!(!values_equal(found[0].get("dec").unwrap(), &Value::Decimal128([8u8; 16])));
    let none = db.find_many("k", Some(doc(vec![("t", Value::DateTime(1))])), None).unwrap();
    assert_eq!(none.len(), 0);
}

#[test]
fn insert_many_ids_are_distinct_and_findable() {
    let mut db = create_memory_and_return_db_with_items(3);
    let docs: Vec<Document> = (0..5).map(|i| doc(vec![("n", Value::Int32(i))])).collect();
    let r = db.insert_many("test", docs, None).unwrap();
    assert_eq!(r.inserted_ids.len(), 5);
    for i in 0..5 {
        for j in (i + 1)..5 {
            assert!(!values_equal(&r.inserted_ids[i], &r.inserted_ids[j]));
        }
        let found = db.find_many("test", Some(doc(vec![("_id", r.inserted_ids[i].duplicate())])), None).unwrap();
        assert_eq!(found.len(), 1);
        assert!(values_equal(found[0].get("n").unwrap(), &Value::Int32(i as i32)));
    }
    assert_eq!(db.count_documents("test", None).unwrap(), 8);
}

#[test]
fn drop_keeps_other_collections() {
    let mut db = Database::open_memory().unwrap();
    db.insert_one("a", doc(vec![("x", Value::Int32(1))]), None).unwrap();
    db.insert_one("b", doc(vec![("x", Value::Int32(2))]), None).unwrap();
    db.drop("a", None).unwrap();
    assert_eq!(db.list_collection_names().unwrap(), vec!["b".to_string()]);
    assert_eq!(db.count_documents("b", None).unwrap(), 1);
    db.drop("a", None).unwrap();
    assert_eq!(db.list_collection_names().unwrap(), vec!["b".to_string()]);
}
