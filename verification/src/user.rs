use vstd::prelude::*;

verus! {

/// Role of an account.  `NONE` is a sentinel for "no authenticated identity"
/// and is never assigned to a real account.
#[derive(Debug, Copy, Clone, PartialEq, Eq, Structural)]
pub enum Role {
    STUDENT,
    PROF,
    NONE,
}

/// The two tables the application protects.
#[derive(Debug, Copy, Clone, PartialEq, Eq, Structural)]
pub enum Resource {
    GRADES,
    USERS,
}

/// Action requested on a resource.  `NONE` denotes "no action requested" and
/// is never a granted action.
#[derive(Debug, Copy, Clone, PartialEq, Eq, Structural)]
pub enum Action {
    Write,
    Read,
    NONE,
}

/// Subject-group label under which a role appears in the rule table.
pub open spec fn spec_role_label(r: Role) -> Seq<char> {
    match r {
        Role::STUDENT => "Student"@,
        Role::PROF => "Prof"@,
        Role::NONE => "NONE"@,
    }
}

/// Label under which an action appears in the rule table.
pub open spec fn spec_action_label(a: Action) -> Seq<char> {
    match a {
        Action::Write => "Write"@,
        Action::Read => "Read"@,
        Action::NONE => "NONE"@,
    }
}

impl Role {
    /// The textual label written to the rule table for this role.
    pub fn label(&self) -> (r: &'static str)
        ensures
            r@ == spec_role_label(*self),
    {
        match self {
            Role::STUDENT => "Student",
            Role::PROF => "Prof",
            Role::NONE => "NONE",
        }
    }
}

impl Action {
    /// The textual label written to the rule table for this action.
    pub fn label(&self) -> (r: &'static str)
        ensures
            r@ == spec_action_label(*self),
    {
        match self {
            Action::Write => "Write",
            Action::Read => "Read",
            Action::NONE => "NONE",
        }
    }
}

/// Mathematical image of a [`User`].
pub struct UserV {
    pub name: Seq<char>,
    pub pwd_hash: Seq<char>,
    pub role: Role,
}

/// One account of the directory: a unique name, the password hash in encoded
/// text form, and exactly one role.
#[derive(Debug)]
pub struct User {
    pub name: String,
    pub pwd_hash: String,
    pub role: Role,
}

impl View for User {
    type V = UserV;

    open spec fn view(&self) -> UserV {
        UserV { name: self.name@, pwd_hash: self.pwd_hash@, role: self.role }
    }
}

impl Clone for User {
    fn clone(&self) -> (r: User)
        ensures
            r@ == self@,
    {
        User { name: self.name.clone(), pwd_hash: self.pwd_hash.clone(), role: self.role }
    }
}

} // verus!
