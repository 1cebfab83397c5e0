use king::access_control::AccessControl;
use king::db::{
    add_grade, get_student_grades, parse_records_text, read_grades_db, read_usr_db,
    render_records_text, render_users_text, save_db, user_exits, GradeDb, UserDb,
};
use king::encryption::{create_encryption_key, create_nonce};
use king::policy_writer::CasbinPolicy;
use king::user::{Role, User};

fn seeded_world() -> (UserDb, AccessControl) {
    let mut users = UserDb::new();
    users.insert(User { name: "prof1".to_string(), pwd_hash: String::new(), role: Role::PROF });
    users.insert(User { name: "alice".to_string(), pwd_hash: String::new(), role: Role::STUDENT });
    users.insert(User { name: "bob".to_string(), pwd_hash: String::new(), role: Role::STUDENT });
    let table = CasbinPolicy::write_to_csv(&users);
    let ac = AccessControl::new(table.as_str());
    (users, ac)
}

fn account(users: &UserDb, name: &str) -> User {
    users.get(name).expect("seeded account").clone()
}

#[test]
fn records_serialize_to_expected_text() {
    let mut db = GradeDb::new();
    db.entries.push(("alice".to_string(), vec![45, 60]));
    db.entries.push(("bob".to_string(), Vec::new()));
    db.entries.push(("charlie".to_string(), vec![0, 7, 9]));
    assert_eq!(render_records_text(&db).as_str(), "alice:45,60\nbob:\ncharlie:00,07,09\n");
}

#[test]
fn records_text_parses_back() {
    let db = parse_records_text("alice:45,60\nbob:\ncharlie:00,07,09\n").unwrap();
    assert_eq!(
        db.entries,
        vec![
            ("alice".to_string(), vec![45, 60]),
            ("bob".to_string(), Vec::new()),
            ("charlie".to_string(), vec![0, 7, 9]),
        ]
    );
}

#[test]
fn bad_record_text_is_rejected() {
    // score out of range
    assert!(parse_records_text("alice:99\n").is_none());
    // missing line break
    assert!(parse_records_text("alice:45").is_none());
    // empty name
    assert!(parse_records_text(":45\n").is_none());
    // one-digit score
    assert!(parse_records_text("alice:4\n").is_none());
    // duplicate subject
    assert!(parse_records_text("alice:45\nalice:50\n").is_none());
    // empty text is the empty store
    assert!(parse_records_text("").is_some());
}

// Round trip: an arbitrary well-formed record map survives serialization,
// encryption, decryption and parsing unchanged.
#[test]
fn saved_records_load_back_unchanged() {
    let mut db = GradeDb::new();
    db.entries.push(("alice".to_string(), vec![0, 60, 33]));
    db.entries.push(("bob".to_string(), Vec::new()));
    db.entries.push(("stu2021xyz".to_string(), vec![12]));
    let users = UserDb::new();
    let (key, key_file) = create_encryption_key();
    let (nonce, nonce_file) = create_nonce();
    let (cipher, _) = save_db(&db, &users, &key, &nonce).unwrap();
    let loaded = read_grades_db(&cipher, None, Some(&key_file), Some(&nonce_file)).unwrap();
    assert_eq!(loaded.entries, db.entries);
}

// The legacy transition path: a plaintext store file loads directly, without
// key material.
#[test]
fn legacy_plaintext_store_loads() {
    let text = "alice:45\n".to_string();
    let loaded = read_grades_db(&text.clone().into_bytes(), Some(&text), None, None).unwrap();
    assert_eq!(loaded.entries, vec![("alice".to_string(), vec![45])]);
}

#[test]
fn users_serialize_and_parse_back() {
    let mut users = UserDb::new();
    users.insert(User {
        name: "prof1".to_string(),
        pwd_hash: "$argon2id$v=19$m=19456,t=2,p=1$c2FsdA$aGFzaA".to_string(),
        role: Role::PROF,
    });
    users.insert(User { name: "alice".to_string(), pwd_hash: "h".to_string(), role: Role::STUDENT });
    let text = render_users_text(&users);
    assert_eq!(
        text.as_str(),
        "prof1:P:$argon2id$v=19$m=19456,t=2,p=1$c2FsdA$aGFzaA\nalice:S:h\n"
    );
    let loaded = read_usr_db(text.as_str()).unwrap();
    assert_eq!(loaded.users.len(), 2);
    assert_eq!(loaded.users[0].name, "prof1");
    assert_eq!(loaded.users[0].role, Role::PROF);
    assert_eq!(loaded.users[1].pwd_hash, "h");
    assert_eq!(loaded.users[1].role, Role::STUDENT);
}

#[test]
fn bad_user_text_is_rejected() {
    assert!(read_usr_db("alice:X:h\n").is_err());
    assert!(read_usr_db("alice:S:h").is_err());
    assert!(read_usr_db("alice:S:h\nalice:P:g\n").is_err());
    assert!(read_usr_db(":S:h\n").is_err());
}

#[test]
fn user_exits_finds_known_names() {
    let (users, _) = seeded_world();
    assert!(user_exits(&users, "alice"));
    assert!(user_exits(&users, "prof1"));
    assert!(!user_exits(&users, "mallory"));
}

#[test]
fn professor_writes_and_reads_student_records() {
    let (users, ac) = seeded_world();
    let prof = account(&users, "prof1");
    let mut db = GradeDb::new();
    assert!(add_grade("alice", &prof, 45, &mut db, &ac).is_some());
    assert!(add_grade("alice", &prof, 60, &mut db, &ac).is_some());
    assert!(add_grade("bob", &prof, 30, &mut db, &ac).is_some());
    let grades = get_student_grades("alice", &prof, &db, &ac).unwrap();
    assert_eq!(grades, vec![45, 60]);
    let grades = get_student_grades("bob", &prof, &db, &ac).unwrap();
    assert_eq!(grades, vec![30]);
}

#[test]
fn student_cannot_write_or_read_others() {
    let (users, ac) = seeded_world();
    let prof = account(&users, "prof1");
    let alice = account(&users, "alice");
    let bob = account(&users, "bob");
    let mut db = GradeDb::new();
    assert!(add_grade("alice", &prof, 45, &mut db, &ac).is_some());
    // a student may read their own records
    assert_eq!(get_student_grades("alice", &alice, &db, &ac).unwrap(), vec![45]);
    // but not another student's, and the store stays untouched on denial
    assert!(get_student_grades("alice", &bob, &db, &ac).is_none());
    assert!(add_grade("alice", &alice, 60, &mut db, &ac).is_none());
    assert!(add_grade("bob", &bob, 60, &mut db, &ac).is_none());
    assert_eq!(db.entries, vec![("alice".to_string(), vec![45])]);
}

#[test]
fn unknown_subject_reads_nothing() {
    let (users, ac) = seeded_world();
    let prof = account(&users, "prof1");
    let db = GradeDb::new();
    assert!(get_student_grades("ghost", &prof, &db, &ac).is_none());
}
