use vstd::prelude::*;

verus! {

use crate::codec::name_ok;
use crate::db::{dir_wf, UserDb};
use crate::hashing::{new_hash_from_pwd, PwdHasherError};
use crate::user::{Role, User, UserV};

/// The directory holds an account of this name and role.
pub open spec fn has_account(d: Seq<UserV>, name: Seq<char>, role: Role) -> bool {
    exists|v: UserV| d.contains(v) && v.name == name && v.role == role
}

/// Seed one account with the fixed demonstration password.
fn add_mock_user(user_db: &mut UserDb, name: &str, role: Role) -> (r: Result<(), PwdHasherError>)
    requires
        dir_wf(old(user_db)@),
        name_ok(name@),
        role != Role::NONE,
    ensures
        dir_wf(final(user_db)@),
        r is Ok ==> has_account(final(user_db)@, name@, role),
        forall|v: UserV|
            v.name != name@ ==> (final(user_db)@.contains(v) <==> old(user_db)@.contains(v)),
{
    let pwd_hash = match new_hash_from_pwd("1234") {
        Ok(h) => h,
        Err(e) => {
            return Err(e);
        },
    };
    let u = User { name: name.to_owned(), pwd_hash, role };
    let ghost uv = u@;
    user_db.insert(u);
    proof {
        let i = choose|i: int| 0 <= i < user_db@.len() && user_db@[i] == uv;
        assert(user_db@.contains(uv));
    }
    Ok(())
}

proof fn lemma_account_kept(
    pre: Seq<UserV>,
    post: Seq<UserV>,
    name: Seq<char>,
    role: Role,
    added: Seq<char>,
)
    requires
        has_account(pre, name, role),
        name != added,
        forall|v: UserV| v.name != added ==> (post.contains(v) <==> pre.contains(v)),
    ensures
        has_account(post, name, role),
{
    let v = choose|v: UserV| pre.contains(v) && v.name == name && v.role == role;
    assert(post.contains(v));
}

/// Seed the demonstration directory: three professors and six students, each
/// with a hash of the fixed demonstration password.  On success every seeded
/// account is present under its role; accounts under other names are kept.
pub fn add_users(user_db: &mut UserDb) -> (r: Result<(), PwdHasherError>)
    requires
        dir_wf(old(user_db)@),
    ensures
        dir_wf(final(user_db)@),
        r is Ok ==> {
            &&& has_account(final(user_db)@, "prof1"@, Role::PROF)
            &&& has_account(final(user_db)@, "prof2"@, Role::PROF)
            &&& has_account(final(user_db)@, "prof3"@, Role::PROF)
            &&& has_account(final(user_db)@, "alice"@, Role::STUDENT)
            &&& has_account(final(user_db)@, "bob"@, Role::STUDENT)
            &&& has_account(final(user_db)@, "charlie"@, Role::STUDENT)
            &&& has_account(final(user_db)@, "jeff"@, Role::STUDENT)
            &&& has_account(final(user_db)@, "student1"@, Role::STUDENT)
            &&& has_account(final(user_db)@, "student2"@, Role::STUDENT)
        },
{
    proof {
        reveal_strlit("prof1");
        reveal_strlit("prof2");
        reveal_strlit("prof3");
        reveal_strlit("alice");
        reveal_strlit("bob");
        reveal_strlit("charlie");
        reveal_strlit("jeff");
        reveal_strlit("student1");
        reveal_strlit("student2");
        assert("prof1"@ != "prof2"@) by {
            assert("prof1"@[4] != "prof2"@[4]);
        }
        assert("prof1"@ != "prof3"@) by {
            assert("prof1"@[4] != "prof3"@[4]);
        }
        assert("prof2"@ != "prof3"@) by {
            assert("prof2"@[4] != "prof3"@[4]);
        }
        assert("prof1"@ != "alice"@) by {
            assert("prof1"@[0] != "alice"@[0]);
        }
        assert("prof2"@ != "alice"@) by {
            assert("prof2"@[0] != "alice"@[0]);
        }
        assert("prof3"@ != "alice"@) by {
            assert("prof3"@[0] != "alice"@[0]);
        }
        assert("student1"@ != "student2"@) by {
            assert("student1"@[7] != "student2"@[7]);
        }
    }
    let r1 = add_mock_user(user_db, "prof1", Role::PROF);
    if r1.is_err() {
        return r1;
    }
    let ghost s1 = user_db@;
    let r2 = add_mock_user(user_db, "prof2", Role::PROF);
    if r2.is_err() {
        return r2;
    }
    proof {
        lemma_account_kept(s1, user_db@, "prof1"@, Role::PROF, "prof2"@);
    }
    let ghost s2 = user_db@;
    let r3 = add_mock_user(user_db, "prof3", Role::PROF);
    if r3.is_err() {
        return r3;
    }
    proof {
        lemma_account_kept(s2, user_db@, "prof1"@, Role::PROF, "prof3"@);
        lemma_account_kept(s2, user_db@, "prof2"@, Role::PROF, "prof3"@);
    }
    let ghost s3 = user_db@;
    let r4 = add_mock_user(user_db, "alice", Role::STUDENT);
    if r4.is_err() {
        return r4;
    }
    proof {
        lemma_account_kept(s3, user_db@, "prof1"@, Role::PROF, "alice"@);
        lemma_account_kept(s3, user_db@, "prof2"@, Role::PROF, "alice"@);
        lemma_account_kept(s3, user_db@, "prof3"@, Role::PROF, "alice"@);
    }
    let ghost s4 = user_db@;
    let r5 = add_mock_user(user_db, "bob", Role::STUDENT);
    if r5.is_err() {
        return r5;
    }
    proof {
        lemma_account_kept(s4, user_db@, "prof1"@, Role::PROF, "bob"@);
        lemma_account_kept(s4, user_db@, "prof2"@, Role::PROF, "bob"@);
        lemma_account_kept(s4, user_db@, "prof3"@, Role::PROF, "bob"@);
        lemma_account_kept(s4, user_db@, "alice"@, Role::STUDENT, "bob"@);
    }
    let ghost s5 = user_db@;
    let r6 = add_mock_user(user_db, "charlie", Role::STUDENT);
    if r6.is_err() {
        return r6;
    }
    proof {
        lemma_account_kept(s5, user_db@, "prof1"@, Role::PROF, "charlie"@);
        lemma_account_kept(s5, user_db@, "prof2"@, Role::PROF, "charlie"@);
        lemma_account_kept(s5, user_db@, "prof3"@, Role::PROF, "charlie"@);
        lemma_account_kept(s5, user_db@, "alice"@, Role::STUDENT, "charlie"@);
        lemma_account_kept(s5, user_db@, "bob"@, Role::STUDENT, "charlie"@);
    }
    let ghost s6 = user_db@;
    let r7 = add_mock_user(user_db, "jeff", Role::STUDENT);
    if r7.is_err() {
        return r7;
    }
    proof {
        lemma_account_kept(s6, user_db@, "prof1"@, Role::PROF, "jeff"@);
        lemma_account_kept(s6, user_db@, "prof2"@, Role::PROF, "jeff"@);
        lemma_account_kept(s6, user_db@, "prof3"@, Role::PROF, "jeff"@);
        lemma_account_kept(s6, user_db@, "alice"@, Role::STUDENT, "jeff"@);
        lemma_account_kept(s6, user_db@, "bob"@, Role::STUDENT, "jeff"@);
        lemma_account_kept(s6, user_db@, "charlie"@, Role::STUDENT, "jeff"@);
    }
    let ghost s7 = user_db@;
    let r8 = add_mock_user(user_db, "student1", Role::STUDENT);
    if r8.is_err() {
        return r8;
    }
    proof {
        lemma_account_kept(s7, user_db@, "prof1"@, Role::PROF, "student1"@);
        lemma_account_kept(s7, user_db@, "prof2"@, Role::PROF, "student1"@);
        lemma_account_kept(s7, user_db@, "prof3"@, Role::PROF, "student1"@);
        lemma_account_kept(s7, user_db@, "alice"@, Role::STUDENT, "student1"@);
        lemma_account_kept(s7, user_db@, "bob"@, Role::STUDENT, "student1"@);
        lemma_account_kept(s7, user_db@, "charlie"@, Role::STUDENT, "student1"@);
        lemma_account_kept(s7, user_db@, "jeff"@, Role::STUDENT, "student1"@);
    }
    let ghost s8 = user_db@;
    let r9 = add_mock_user(user_db, "student2", Role::STUDENT);
    if r9.is_err() {
        return r9;
    }
    proof {
        lemma_account_kept(s8, user_db@, "prof1"@, Role::PROF, "student2"@);
        lemma_account_kept(s8, user_db@, "prof2"@, Role::PROF, "student2"@);
        lemma_account_kept(s8, user_db@, "prof3"@, Role::PROF, "student2"@);
        lemma_account_kept(s8, user_db@, "alice"@, Role::STUDENT, "student2"@);
        lemma_account_kept(s8, user_db@, "bob"@, Role::STUDENT, "student2"@);
        lemma_account_kept(s8, user_db@, "charlie"@, Role::STUDENT, "student2"@);
        lemma_account_kept(s8, user_db@, "jeff"@, Role::STUDENT, "student2"@);
        lemma_account_kept(s8, user_db@, "student1"@, Role::STUDENT, "student2"@);
    }
    Ok(())
}

} // verus!
