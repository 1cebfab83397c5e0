use king::db::{login, UserDb};
use king::hashing::{compare_pwd_with_hash, new_hash_from_pwd};
use king::input_validation::is_usr_n_valid;
use king::mocking::add_users;
use king::state::State;
use king::user::Role;

// A password verifies against its own fresh hash; a different password does
// not; a missing record never verifies.
#[test]
fn verify_against_own_and_foreign_hash() {
    let h_p = new_hash_from_pwd("correct horse").unwrap();
    let h_q = new_hash_from_pwd("battery staple").unwrap();
    assert!(compare_pwd_with_hash("correct horse", h_p.as_str()));
    assert!(!compare_pwd_with_hash("correct horse", h_q.as_str()));
    assert!(!compare_pwd_with_hash("correct horse", ""));
}

#[test]
fn malformed_stored_hash_verifies_as_false() {
    assert!(!compare_pwd_with_hash("1234", "not a hash record"));
    assert!(!compare_pwd_with_hash("1234", "$argon2id$damaged"));
}

#[test]
fn two_hashes_of_one_password_differ_but_both_verify() {
    let h1 = new_hash_from_pwd("1234").unwrap();
    let h2 = new_hash_from_pwd("1234").unwrap();
    // a fresh random salt every call
    assert_ne!(h1, h2);
    assert!(compare_pwd_with_hash("1234", h1.as_str()));
    assert!(compare_pwd_with_hash("1234", h2.as_str()));
}

#[test]
fn login_accepts_only_the_right_password() {
    let mut users = UserDb::new();
    add_users(&mut users).unwrap();
    let found = login(&users, "alice", "1234").expect("seeded credentials must log in");
    assert_eq!(found.name, "alice");
    assert_eq!(found.role, Role::STUDENT);
    let prof = login(&users, "prof1", "1234").unwrap();
    assert_eq!(prof.role, Role::PROF);
    assert!(login(&users, "alice", "4321").is_none());
    assert!(login(&users, "mallory", "1234").is_none());
}

#[test]
fn seeded_directory_holds_all_nine_accounts() {
    let mut users = UserDb::new();
    add_users(&mut users).unwrap();
    assert_eq!(users.len(), 9);
    for name in ["prof1", "prof2", "prof3"] {
        assert_eq!(users.get(name).unwrap().role, Role::PROF);
    }
    for name in ["alice", "bob", "charlie", "jeff", "student1", "student2"] {
        assert_eq!(users.get(name).unwrap().role, Role::STUDENT);
    }
}

#[test]
fn username_rule_is_three_to_twelve_letters() {
    assert!(is_usr_n_valid(&"alice".to_string()));
    assert!(is_usr_n_valid(&"abc".to_string()));
    assert!(is_usr_n_valid(&"ABCdefGHIjkl".to_string()));
    // too short, too long
    assert!(!is_usr_n_valid(&"ab".to_string()));
    assert!(!is_usr_n_valid(&"abcdefghijklm".to_string()));
    // digits and punctuation are not letters
    assert!(!is_usr_n_valid(&"prof1".to_string()));
    assert!(!is_usr_n_valid(&"al ice".to_string()));
    assert!(!is_usr_n_valid(&"".to_string()));
}

#[test]
fn fresh_session_is_unauthenticated() {
    let s = State::new();
    assert!(!s.authenticated);
    assert_eq!(s.grades_res_prefix, "records/");
}
