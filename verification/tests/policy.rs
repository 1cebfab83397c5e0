use king::access_control::AccessControl;
use king::db::UserDb;
use king::policy_writer::{compile, parse_rules_text, render_rules_text, CasbinPolicy};
use king::user::{Action, Role, User};

fn directory(entries: &[(&str, Role)]) -> UserDb {
    let mut db = UserDb::new();
    for (name, role) in entries {
        db.insert(User { name: name.to_string(), pwd_hash: String::new(), role: *role });
    }
    db
}

fn enforcer_for(entries: &[(&str, Role)]) -> AccessControl {
    let db = directory(entries);
    let table = CasbinPolicy::write_to_csv(&db);
    AccessControl::new(table.as_str())
}

// Scenario: {prof1: Professor, alice: Student} compiles to exactly the five
// expected rows, and the four sample queries answer as specified.
#[test]
fn small_directory_compiles_to_expected_rules() {
    let db = directory(&[("prof1", Role::PROF), ("alice", Role::STUDENT)]);
    let table = CasbinPolicy::write_to_csv(&db);
    assert_eq!(
        table.as_str(),
        "p,Prof,records/all,Read\np,Prof,records/all,Write\np,alice,records/alice,Read\n\
         g2,records/alice,records/all\ng,prof1,Prof\n"
    );
    let ac = AccessControl::new(table.as_str());
    assert!(ac.check_authorization("alice", "records/alice", Action::Read));
    assert!(!ac.check_authorization("alice", "records/bob", Action::Read));
    assert!(ac.check_authorization("prof1", "records/alice", Action::Write));
    assert!(ac.check_authorization("prof1", "records/alice", Action::Read));
}

// Group coverage: a professor can write the record group and read any
// student's records.
#[test]
fn professor_covers_every_student() {
    let ac = enforcer_for(&[
        ("prof1", Role::PROF),
        ("alice", Role::STUDENT),
        ("bob", Role::STUDENT),
    ]);
    assert!(ac.check_authorization("prof1", "records/all", Action::Write));
    assert!(ac.check_authorization("prof1", "records/all", Action::Read));
    assert!(ac.check_authorization("prof1", "records/alice", Action::Read));
    assert!(ac.check_authorization("prof1", "records/bob", Action::Write));
}

// Ownership: students read their own records and nobody else's.
#[test]
fn student_reads_only_own_records() {
    let ac = enforcer_for(&[
        ("prof1", Role::PROF),
        ("alice", Role::STUDENT),
        ("bob", Role::STUDENT),
    ]);
    assert!(ac.check_authorization("alice", "records/alice", Action::Read));
    assert!(!ac.check_authorization("alice", "records/bob", Action::Read));
    assert!(!ac.check_authorization("bob", "records/alice", Action::Read));
    assert!(!ac.check_authorization("alice", "records/alice", Action::Write));
    assert!(!ac.check_authorization("alice", "records/all", Action::Read));
}

// A request for the NONE action is always denied.
#[test]
fn none_action_is_always_denied() {
    let ac = enforcer_for(&[("prof1", Role::PROF), ("alice", Role::STUDENT)]);
    assert!(!ac.check_authorization("prof1", "records/all", Action::NONE));
    assert!(!ac.check_authorization("alice", "records/alice", Action::NONE));
    assert!(!ac.check_authorization("nobody", "anything", Action::NONE));
}

// Unknown subjects and resources are denied by default.
#[test]
fn default_deny_for_strangers() {
    let ac = enforcer_for(&[("prof1", Role::PROF), ("alice", Role::STUDENT)]);
    assert!(!ac.check_authorization("mallory", "records/alice", Action::Read));
    assert!(!ac.check_authorization("alice", "users/alice", Action::Read));
    assert!(!ac.check_authorization("", "records/alice", Action::Read));
}

// A rule table that does not parse yields a fail-closed enforcer.
#[test]
fn malformed_table_fails_closed() {
    let ac = AccessControl::new("p,broken row without enough fields\n");
    assert!(!ac.loaded);
    assert!(!ac.check_authorization("prof1", "records/all", Action::Read));
    let ac = AccessControl::new("x,who,what\n");
    assert!(!ac.check_authorization("prof1", "records/all", Action::Read));
}

// An empty directory compiles to an empty table, which loads and denies.
#[test]
fn empty_directory_denies_everything() {
    let db = UserDb::new();
    let table = CasbinPolicy::write_to_csv(&db);
    assert_eq!(table.as_str(), "");
    let ac = AccessControl::new(table.as_str());
    assert!(ac.loaded);
    assert!(!ac.check_authorization("prof1", "records/all", Action::Read));
}

// Idempotent compilation: compiling and publishing the same directory twice
// yields the very same rule set, with no duplicated grants.
#[test]
fn compiling_twice_changes_nothing() {
    let db = directory(&[
        ("prof1", Role::PROF),
        ("prof2", Role::PROF),
        ("alice", Role::STUDENT),
        ("bob", Role::STUDENT),
    ]);
    let first = CasbinPolicy::write_to_csv(&db);
    let second = CasbinPolicy::write_to_csv(&db);
    assert_eq!(first, second);

    // publishing replaces the table, so loading what was published and
    // rendering it again reproduces the same text
    let rules = parse_rules_text(first.as_str()).expect("a published table must load");
    assert_eq!(render_rules_text(&rules), first);

    // no duplicate grants anywhere
    let compiled = compile(&db);
    for i in 0..compiled.policies.len() {
        for j in 0..i {
            let a = &compiled.policies[i];
            let b = &compiled.policies[j];
            assert!(a.subject != b.subject || a.object != b.object || a.actions != b.actions);
        }
    }
    for i in 0..compiled.groups.len() {
        for j in 0..i {
            let a = &compiled.groups[i];
            let b = &compiled.groups[j];
            assert!(a.g != b.g || a.subject != b.subject || a.group != b.group);
        }
    }
}

// The two-hop resource lookup is exact: an unrelated group name that merely
// shares a prefix with a student's resource grants nothing.
#[test]
fn no_prefix_matching_on_resources() {
    let ac = enforcer_for(&[("prof1", Role::PROF), ("alice", Role::STUDENT)]);
    assert!(!ac.check_authorization("alice", "records/alicex", Action::Read));
    assert!(!ac.check_authorization("alice", "records/alic", Action::Read));
    assert!(!ac.check_authorization("prof1", "recordsxall", Action::Read));
}
