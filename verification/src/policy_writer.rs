use vstd::prelude::*;

verus! {

use crate::codec::matches_at;
use crate::db::UserDb;
use crate::user::{spec_action_label, spec_role_label, Action, Role, UserV};

/// Mathematical image of a [`CasbinPolicy`] row.
pub struct PolicyV {
    pub p: Seq<char>,
    pub subject: Seq<char>,
    pub object: Seq<char>,
    pub actions: Action,
}

/// One permission row of the rule table: marker `p`, then the subject (a user
/// name or a role label), the object (a resource path), and the granted action.
#[derive(Debug)]
pub struct CasbinPolicy {
    pub p: String,
    pub subject: String,
    pub object: String,
    pub actions: Action,
}

impl View for CasbinPolicy {
    type V = PolicyV;

    open spec fn view(&self) -> PolicyV {
        PolicyV { p: self.p@, subject: self.subject@, object: self.object@, actions: self.actions }
    }
}

/// Mathematical image of a [`CasbinGroupingPolicy`] row.
pub struct GroupV {
    pub g: Seq<char>,
    pub subject: Seq<char>,
    pub group: Seq<char>,
}

/// One grouping row of the rule table: marker `g` links a user name to a role
/// label, marker `g2` links a resource to its containing resource group.
#[derive(Debug)]
pub struct CasbinGroupingPolicy {
    pub g: String,
    pub subject: String,
    pub group: String,
}

impl View for CasbinGroupingPolicy {
    type V = GroupV;

    open spec fn view(&self) -> GroupV {
        GroupV { g: self.g@, subject: self.subject@, group: self.group@ }
    }
}

/// Mathematical image of a [`RuleSet`].
pub struct RuleSetV {
    pub policies: Seq<PolicyV>,
    pub groups: Seq<GroupV>,
}

/// A compiled rule set: the permission rows followed by the grouping rows.
#[derive(Debug)]
pub struct RuleSet {
    pub policies: Vec<CasbinPolicy>,
    pub groups: Vec<CasbinGroupingPolicy>,
}

/// The views of a vector of permission rows.
pub open spec fn policies_view(v: Seq<CasbinPolicy>) -> Seq<PolicyV> {
    v.map_values(|p: CasbinPolicy| p@)
}

/// The views of a vector of grouping rows.
pub open spec fn groups_view(v: Seq<CasbinGroupingPolicy>) -> Seq<GroupV> {
    v.map_values(|g: CasbinGroupingPolicy| g@)
}

impl View for RuleSet {
    type V = RuleSetV;

    open spec fn view(&self) -> RuleSetV {
        RuleSetV { policies: policies_view(self.policies@), groups: groups_view(self.groups@) }
    }
}

/// The resource that holds one subject's records.
pub open spec fn res_of(name: Seq<char>) -> Seq<char> {
    "records/"@ + name
}

/// The resource group containing every subject's records.
pub open spec fn res_all() -> Seq<char> {
    "records/all"@
}

/// Blanket grant for the professor role on the record group.
pub open spec fn prof_policy(a: Action) -> PolicyV {
    PolicyV { p: "p"@, subject: spec_role_label(Role::PROF), object: res_all(), actions: a }
}

/// A student's grant to read their own records.
pub open spec fn student_policy(name: Seq<char>) -> PolicyV {
    PolicyV { p: "p"@, subject: name, object: res_of(name), actions: Action::Read }
}

/// Membership of a student's resource in the record group.
pub open spec fn student_group(name: Seq<char>) -> GroupV {
    GroupV { g: "g2"@, subject: res_of(name), group: res_all() }
}

/// Membership of a professor in the professor role group.
pub open spec fn prof_group(name: Seq<char>) -> GroupV {
    GroupV { g: "g"@, subject: name, group: spec_role_label(Role::PROF) }
}

/// Does the directory hold at least one professor?
pub open spec fn has_prof(users: Seq<UserV>) -> bool {
    exists|i: int| 0 <= i < users.len() && users[i].role == Role::PROF
}

/// The per-student permission rows, in directory order.
pub open spec fn student_policies(users: Seq<UserV>) -> Seq<PolicyV>
    decreases users.len(),
{
    if users.len() == 0 {
        Seq::empty()
    } else {
        student_policies(users.drop_last()) + if users.last().role == Role::STUDENT {
            seq![student_policy(users.last().name)]
        } else {
            Seq::empty()
        }
    }
}

/// The per-student resource-group rows, in directory order.
pub open spec fn student_groups(users: Seq<UserV>) -> Seq<GroupV>
    decreases users.len(),
{
    if users.len() == 0 {
        Seq::empty()
    } else {
        student_groups(users.drop_last()) + if users.last().role == Role::STUDENT {
            seq![student_group(users.last().name)]
        } else {
            Seq::empty()
        }
    }
}

/// The per-professor role-membership rows, in directory order.
pub open spec fn prof_groups(users: Seq<UserV>) -> Seq<GroupV>
    decreases users.len(),
{
    if users.len() == 0 {
        Seq::empty()
    } else {
        prof_groups(users.drop_last()) + if users.last().role == Role::PROF {
            seq![prof_group(users.last().name)]
        } else {
            Seq::empty()
        }
    }
}

/// What compiling a directory yields: the professor role's blanket grants
/// (present exactly when a professor exists), one read grant per student, one
/// resource-group row per student, and one role row per professor.
pub open spec fn spec_compile(users: Seq<UserV>) -> RuleSetV {
    RuleSetV {
        policies: (if has_prof(users) {
            seq![prof_policy(Action::Read), prof_policy(Action::Write)]
        } else {
            Seq::empty()
        }) + student_policies(users),
        groups: student_groups(users) + prof_groups(users),
    }
}

proof fn lemma_policies_view_push(v: Seq<CasbinPolicy>, x: CasbinPolicy)
    ensures
        policies_view(v.push(x)) == policies_view(v).push(x@),
{
    assert(policies_view(v.push(x)) =~= policies_view(v).push(x@));
}

proof fn lemma_student_policies_snoc(users: Seq<UserV>, i: int)
    requires
        0 <= i < users.len(),
    ensures
        student_policies(users.take(i + 1)) == student_policies(users.take(i)) + (
        if users[i].role == Role::STUDENT {
            seq![student_policy(users[i].name)]
        } else {
            Seq::<PolicyV>::empty()
        }),
{
    assert(users.take(i + 1).drop_last() =~= users.take(i));
    assert(users.take(i + 1).last() == users[i]);
}

proof fn lemma_student_groups_snoc(users: Seq<UserV>, i: int)
    requires
        0 <= i < users.len(),
    ensures
        student_groups(users.take(i + 1)) == student_groups(users.take(i)) + (
        if users[i].role == Role::STUDENT {
            seq![student_group(users[i].name)]
        } else {
            Seq::<GroupV>::empty()
        }),
{
    assert(users.take(i + 1).drop_last() =~= users.take(i));
    assert(users.take(i + 1).last() == users[i]);
}

proof fn lemma_prof_groups_snoc(users: Seq<UserV>, i: int)
    requires
        0 <= i < users.len(),
    ensures
        prof_groups(users.take(i + 1)) == prof_groups(users.take(i)) + (
        if users[i].role == Role::PROF {
            seq![prof_group(users[i].name)]
        } else {
            Seq::<GroupV>::empty()
        }),
{
    assert(users.take(i + 1).drop_last() =~= users.take(i));
    assert(users.take(i + 1).last() == users[i]);
}

/// Derive the rule set from the user directory.  The result is a pure,
/// deterministic function of the directory, so recompiling an unchanged
/// directory yields the same rules.
pub fn compile(db: &UserDb) -> (r: RuleSet)
    ensures
        r@ == spec_compile(db@),
{
    let ghost dv = db@;
    let n = db.users.len();

    let mut any_prof = false;
    let mut i: usize = 0;
    while i < n
        invariant
            0 <= i <= n,
            n == dv.len(),
            dv == db@,
            any_prof == has_prof(dv.take(i as int)),
        decreases n - i,
    {
        let is_p = match db.users[i].role {
            Role::PROF => true,
            _ => false,
        };
        proof {
            assert(dv.take(i + 1) =~= dv.take(i as int).push(dv[i as int]));
            if is_p {
                assert(dv.take(i + 1)[i as int].role == Role::PROF);
                assert(has_prof(dv.take(i + 1)));
            } else {
                if has_prof(dv.take(i + 1)) {
                    let k = choose|k: int|
                        0 <= k < dv.take(i + 1).len() && (#[trigger] dv.take(i + 1)[k]).role
                            == Role::PROF;
                    assert(k < i);
                    assert(dv.take(i as int)[k].role == Role::PROF);
                }
                if has_prof(dv.take(i as int)) {
                    let k = choose|k: int|
                        0 <= k < dv.take(i as int).len() && (#[trigger] dv.take(i as int)[k]).role
                            == Role::PROF;
                    assert(dv.take(i + 1)[k].role == Role::PROF);
                }
            }
        }
        if is_p {
            any_prof = true;
        }
        i += 1;
    }
    proof {
        assert(dv.take(n as int) =~= dv);
    }

    let mut policies: Vec<CasbinPolicy> = Vec::new();
    if any_prof {
        policies.push(
            CasbinPolicy {
                p: String::from_str("p"),
                subject: String::from_str("Prof"),
                object: String::from_str("records/all"),
                actions: Action::Read,
            },
        );
        policies.push(
            CasbinPolicy {
                p: String::from_str("p"),
                subject: String::from_str("Prof"),
                object: String::from_str("records/all"),
                actions: Action::Write,
            },
        );
    }
    let ghost base: Seq<PolicyV> = policies_view(policies@);
    proof {
        if has_prof(dv) {
            assert(base =~= seq![prof_policy(Action::Read), prof_policy(Action::Write)]);
        } else {
            assert(base =~= Seq::<PolicyV>::empty());
        }
    }

    let mut groups_s: Vec<CasbinGroupingPolicy> = Vec::new();
    let mut groups_p: Vec<CasbinGroupingPolicy> = Vec::new();
    let mut i: usize = 0;
    while i < n
        invariant
            0 <= i <= n,
            n == dv.len(),
            dv == db@,
            policies_view(policies@) == base + student_policies(
                dv.take(i as int),
            ),
            groups_view(groups_s@) == student_groups(
                dv.take(i as int),
            ),
            groups_view(groups_p@) == prof_groups(dv.take(i as int)),
        decreases n - i,
    {
        let u = &db.users[i];
        proof {
            assert(dv[i as int] == u@);
            lemma_student_policies_snoc(dv, i as int);
            lemma_student_groups_snoc(dv, i as int);
            lemma_prof_groups_snoc(dv, i as int);
        }
        match u.role {
            Role::STUDENT => {
                let ghost pv0 = policies@;
                let mut obj = String::from_str("records/");
                obj.append(u.name.as_str());
                let row = CasbinPolicy {
                    p: String::from_str("p"),
                    subject: u.name.clone(),
                    object: obj,
                    actions: Action::Read,
                };
                proof {
                    assert(row@ == student_policy(u@.name));
                    lemma_policies_view_push(pv0, row);
                }
                policies.push(row);
                let mut member = String::from_str("records/");
                member.append(u.name.as_str());
                groups_s.push(
                    CasbinGroupingPolicy {
                        g: String::from_str("g2"),
                        subject: member,
                        group: String::from_str("records/all"),
                    },
                );
                proof {
                    assert(policies_view(policies@) =~= base + student_policies(dv.take(i + 1)));
                    assert(groups_view(groups_s@) =~= student_groups(dv.take(i + 1)));
                    assert(groups_view(groups_p@) =~= prof_groups(dv.take(i + 1)));
                }
            },
            Role::PROF => {
                groups_p.push(
                    CasbinGroupingPolicy {
                        g: String::from_str("g"),
                        subject: u.name.clone(),
                        group: String::from_str("Prof"),
                    },
                );
                proof {
                    assert(policies_view(policies@) =~= base + student_policies(dv.take(i + 1)));
                    assert(groups_view(groups_s@) =~= student_groups(dv.take(i + 1)));
                    assert(groups_view(groups_p@) =~= prof_groups(dv.take(i + 1)));
                }
            },
            Role::NONE => {
                proof {
                    assert(policies_view(policies@) =~= base + student_policies(dv.take(i + 1)));
                    assert(groups_view(groups_s@) =~= student_groups(dv.take(i + 1)));
                    assert(groups_view(groups_p@) =~= prof_groups(dv.take(i + 1)));
                }
            },
        }
        i += 1;
    }
    proof {
        assert(dv.take(n as int) =~= dv);
    }

    let mut groups = groups_s;
    groups.append(&mut groups_p);
    let r = RuleSet { policies, groups };
    proof {
        assert(r@.policies =~= spec_compile(dv).policies);
        assert(r@.groups =~= student_groups(dv) + prof_groups(dv));
        assert(r@.groups =~= spec_compile(dv).groups);
    }
    r
}


/// Textual form of one permission row.
pub open spec fn render_policy_row(p: PolicyV) -> Seq<char> {
    "p,"@ + p.subject + ","@ + p.object + ","@ + spec_action_label(p.actions) + "\n"@
}

/// Textual form of one grouping row.
pub open spec fn render_group_row(g: GroupV) -> Seq<char> {
    g.g + ","@ + g.subject + ","@ + g.group + "\n"@
}

/// Textual form of a sequence of permission rows.
pub open spec fn render_policies(ps: Seq<PolicyV>) -> Seq<char>
    decreases ps.len(),
{
    if ps.len() == 0 {
        Seq::empty()
    } else {
        render_policy_row(ps[0]) + render_policies(ps.skip(1))
    }
}

/// Textual form of a sequence of grouping rows.
pub open spec fn render_groups(gs: Seq<GroupV>) -> Seq<char>
    decreases gs.len(),
{
    if gs.len() == 0 {
        Seq::empty()
    } else {
        render_group_row(gs[0]) + render_groups(gs.skip(1))
    }
}

/// Textual form of the whole rule table: permission rows, then grouping rows.
pub open spec fn render_rules(rs: RuleSetV) -> Seq<char> {
    render_policies(rs.policies) + render_groups(rs.groups)
}

proof fn lemma_render_policies_concat(a: Seq<PolicyV>, b: Seq<PolicyV>)
    ensures
        render_policies(a + b) == render_policies(a) + render_policies(b),
    decreases a.len(),
{
    if a.len() == 0 {
        assert(a + b =~= b);
        assert(render_policies(a) + render_policies(b) =~= render_policies(b));
    } else {
        assert((a + b).len() > 0);
        assert((a + b)[0] == a[0]);
        assert((a + b).skip(1) =~= a.skip(1) + b);
        lemma_render_policies_concat(a.skip(1), b);
        assert(render_policy_row(a[0]) + (render_policies(a.skip(1)) + render_policies(b))
            =~= (render_policy_row(a[0]) + render_policies(a.skip(1))) + render_policies(b));
    }
}

proof fn lemma_render_groups_concat(a: Seq<GroupV>, b: Seq<GroupV>)
    ensures
        render_groups(a + b) == render_groups(a) + render_groups(b),
    decreases a.len(),
{
    if a.len() == 0 {
        assert(a + b =~= b);
        assert(render_groups(a) + render_groups(b) =~= render_groups(b));
    } else {
        assert((a + b).len() > 0);
        assert((a + b)[0] == a[0]);
        assert((a + b).skip(1) =~= a.skip(1) + b);
        lemma_render_groups_concat(a.skip(1), b);
        assert(render_group_row(a[0]) + (render_groups(a.skip(1)) + render_groups(b))
            =~= (render_group_row(a[0]) + render_groups(a.skip(1))) + render_groups(b));
    }
}

proof fn lemma_render_policies_one(x: PolicyV)
    ensures
        render_policies(seq![x]) == render_policy_row(x),
{
    assert(seq![x].skip(1) =~= Seq::<PolicyV>::empty());
    assert(render_policy_row(x) + render_policies(seq![x].skip(1)) =~= render_policy_row(x));
}

proof fn lemma_render_groups_one(x: GroupV)
    ensures
        render_groups(seq![x]) == render_group_row(x),
{
    assert(seq![x].skip(1) =~= Seq::<GroupV>::empty());
    assert(render_group_row(x) + render_groups(seq![x].skip(1)) =~= render_group_row(x));
}

/// Render one rule set as the rule-table text the enforcer loads.
pub fn render_rules_text(rs: &RuleSet) -> (r: String)
    ensures
        r@ == render_rules(rs@),
{
    let mut out = String::new();
    let n = rs.policies.len();
    let mut i: usize = 0;
    while i < n
        invariant
            0 <= i <= n,
            n == rs.policies@.len(),
            out@ == render_policies(policies_view(rs.policies@).take(i as int)),
        decreases n - i,
    {
        let ghost pre = out@;
        let ghost pv = policies_view(rs.policies@);
        let p = &rs.policies[i];
        out.append("p,");
        out.append(p.subject.as_str());
        out.append(",");
        out.append(p.object.as_str());
        out.append(",");
        out.append(p.actions.label());
        out.append("\n");
        proof {
            assert(out@ =~= pre + render_policy_row(pv[i as int]));
            assert(pv.take(i + 1) =~= pv.take(i as int) + seq![pv[i as int]]);
            lemma_render_policies_concat(pv.take(i as int), seq![pv[i as int]]);
            lemma_render_policies_one(pv[i as int]);
            assert(out@ =~= render_policies(pv.take(i + 1)));
        }
        i += 1;
    }
    proof {
        assert(policies_view(rs.policies@).take(n as int) =~= policies_view(rs.policies@));
    }
    let m = rs.groups.len();
    let mut i: usize = 0;
    while i < m
        invariant
            0 <= i <= m,
            m == rs.groups@.len(),
            out@ == render_policies(policies_view(rs.policies@)) + render_groups(
                groups_view(rs.groups@).take(i as int),
            ),
        decreases m - i,
    {
        let ghost pre = out@;
        let ghost gv = groups_view(rs.groups@);
        let g = &rs.groups[i];
        out.append(g.g.as_str());
        out.append(",");
        out.append(g.subject.as_str());
        out.append(",");
        out.append(g.group.as_str());
        out.append("\n");
        proof {
            assert(out@ =~= pre + render_group_row(gv[i as int]));
            assert(gv.take(i + 1) =~= gv.take(i as int) + seq![gv[i as int]]);
            lemma_render_groups_concat(gv.take(i as int), seq![gv[i as int]]);
            lemma_render_groups_one(gv[i as int]);
            assert(out@ =~= render_policies(policies_view(rs.policies@)) + render_groups(
                gv.take(i + 1),
            ));
        }
        i += 1;
    }
    proof {
        assert(groups_view(rs.groups@).take(m as int) =~= groups_view(rs.groups@));
        assert(out@ =~= render_rules(rs@));
    }
    out
}

impl CasbinPolicy {
    /// Compile the directory and render the rule table in one step: the text
    /// that replaces (never extends) the published rule storage.
    pub fn write_to_csv(user_db: &UserDb) -> (r: String)
        ensures
            r@ == render_rules(spec_compile(user_db@)),
    {
        let rules = compile(user_db);
        render_rules_text(&rules)
    }
}


/// A character that may stand in a subject, object, member or group field:
/// letters, digits, and the path separator.
pub open spec fn is_field_char(c: char) -> bool {
    crate::codec::is_alnum(c) || c == '/'
}

/// A well-formed field: non-empty, field characters only.
pub open spec fn field_ok(s: Seq<char>) -> bool {
    &&& s.len() > 0
    &&& forall|i: int| 0 <= i < s.len() ==> is_field_char(#[trigger] s[i])
}

/// A permission row the table may hold: correct marker, plain fields, and an
/// action that is actually grantable.
pub open spec fn policy_row_wf(p: PolicyV) -> bool {
    &&& p.p == "p"@
    &&& field_ok(p.subject)
    &&& field_ok(p.object)
    &&& p.actions != Action::NONE
}

/// A grouping row the table may hold.
pub open spec fn group_row_wf(g: GroupV) -> bool {
    &&& (g.g == "g"@ || g.g == "g2"@)
    &&& field_ok(g.subject)
    &&& field_ok(g.group)
}

/// A rule set fit for publishing and loading.
pub open spec fn rules_wf(rs: RuleSetV) -> bool {
    &&& forall|i: int| 0 <= i < rs.policies.len() ==> policy_row_wf(#[trigger] rs.policies[i])
    &&& forall|i: int| 0 <= i < rs.groups.len() ==> group_row_wf(#[trigger] rs.groups[i])
}

/// First position at or after `i` that does not hold a field character.
pub open spec fn scan_field(s: Seq<char>, i: int) -> int
    decreases s.len() - i,
{
    if i < 0 || i >= s.len() || !is_field_char(s[i]) {
        i
    } else {
        scan_field(s, i + 1)
    }
}

proof fn lemma_scan_field_props(s: Seq<char>, i: int)
    requires
        0 <= i <= s.len(),
    ensures
        i <= scan_field(s, i) <= s.len(),
        forall|k: int| i <= k < scan_field(s, i) ==> is_field_char(#[trigger] s[k]),
        scan_field(s, i) == s.len() || !is_field_char(s[scan_field(s, i)]),
    decreases s.len() - i,
{
    if i >= s.len() || !is_field_char(s[i]) {
    } else {
        lemma_scan_field_props(s, i + 1);
    }
}

proof fn lemma_scan_field_stops(s: Seq<char>, i: int, j: int)
    requires
        0 <= i <= j <= s.len(),
        forall|k: int| i <= k < j ==> is_field_char(#[trigger] s[k]),
        j == s.len() || !is_field_char(s[j]),
    ensures
        scan_field(s, i) == j,
    decreases j - i,
{
    if i == j {
    } else {
        assert(is_field_char(s[i]));
        lemma_scan_field_stops(s, i + 1, j);
    }
}

/// Read one permission row starting at `i`: `Some` holds the row and the
/// position just past its line break.
pub open spec fn parse_policy_row(s: Seq<char>, i: int) -> Option<(PolicyV, int)> {
    if !matches_at(s, i, "p,"@) {
        None
    } else {
        let j1 = i + 2;
        let j2 = scan_field(s, j1);
        if !(j1 < j2 && j2 < s.len() && s[j2] == ',') {
            None
        } else {
            let j3 = j2 + 1;
            let j4 = scan_field(s, j3);
            if !(j3 < j4 && j4 < s.len() && s[j4] == ',') {
                None
            } else {
                let j5 = j4 + 1;
                if matches_at(s, j5, "Read\n"@) {
                    Some(
                        (
                            PolicyV {
                                p: "p"@,
                                subject: s.subrange(j1, j2),
                                object: s.subrange(j3, j4),
                                actions: Action::Read,
                            },
                            j5 + 5,
                        ),
                    )
                } else if matches_at(s, j5, "Write\n"@) {
                    Some(
                        (
                            PolicyV {
                                p: "p"@,
                                subject: s.subrange(j1, j2),
                                object: s.subrange(j3, j4),
                                actions: Action::Write,
                            },
                            j5 + 6,
                        ),
                    )
                } else {
                    None
                }
            }
        }
    }
}

/// Read one grouping row starting at `i`.
pub open spec fn parse_group_row(s: Seq<char>, i: int) -> Option<(GroupV, int)> {
    let (marker, j1): (Seq<char>, int) = if matches_at(s, i, "g2,"@) {
        ("g2"@, i + 3)
    } else if matches_at(s, i, "g,"@) {
        ("g"@, i + 2)
    } else {
        (Seq::empty(), -1)
    };
    if j1 < 0 {
        None
    } else {
        let j2 = scan_field(s, j1);
        if !(j1 < j2 && j2 < s.len() && s[j2] == ',') {
            None
        } else {
            let j3 = j2 + 1;
            let j4 = scan_field(s, j3);
            if !(j3 < j4 && j4 < s.len() && s[j4] == '\n') {
                None
            } else {
                Some(
                    (
                        GroupV { g: marker, subject: s.subrange(j1, j2), group: s.subrange(j3, j4) },
                        j4 + 1,
                    ),
                )
            }
        }
    }
}

/// Read permission rows until a line that does not start with `p`.
pub open spec fn parse_policy_rows(s: Seq<char>, i: int) -> Option<(Seq<PolicyV>, int)>
    decreases s.len() - i,
{
    if i < 0 || i >= s.len() || s[i] != 'p' {
        Some((Seq::empty(), i))
    } else {
        match parse_policy_row(s, i) {
            Option::None => None,
            Option::Some((p, k)) => if !(i < k <= s.len()) {
                None
            } else {
                match parse_policy_rows(s, k) {
                    Option::None => None,
                    Option::Some((ps, j)) => Some((seq![p] + ps, j)),
                }
            },
        }
    }
}

/// Read grouping rows up to the end of the table.
pub open spec fn parse_group_rows(s: Seq<char>, i: int) -> Option<(Seq<GroupV>, int)>
    decreases s.len() - i,
{
    if i < 0 {
        None
    } else if i >= s.len() {
        Some((Seq::empty(), i))
    } else {
        match parse_group_row(s, i) {
            Option::None => None,
            Option::Some((g, k)) => if !(i < k <= s.len()) {
                None
            } else {
                match parse_group_rows(s, k) {
                    Option::None => None,
                    Option::Some((gs, j)) => Some((seq![g] + gs, j)),
                }
            },
        }
    }
}

/// Read a whole rule table: permission rows, then grouping rows, nothing else.
pub open spec fn spec_parse_rules(s: Seq<char>) -> Option<RuleSetV> {
    match parse_policy_rows(s, 0) {
        Option::None => None,
        Option::Some((ps, i)) => match parse_group_rows(s, i) {
            Option::None => None,
            Option::Some((gs, j)) => if j == s.len() {
                Some(RuleSetV { policies: ps, groups: gs })
            } else {
                None
            },
        },
    }
}


proof fn lemma_parse_policy_row_render(s: Seq<char>, i: int, p: PolicyV)
    requires
        policy_row_wf(p),
        matches_at(s, i, render_policy_row(p)),
    ensures
        parse_policy_row(s, i) == Some((p, i + render_policy_row(p).len() as int)),
{
    reveal_strlit("p,");
    reveal_strlit(",");
    reveal_strlit("\n");
    reveal_strlit("p");
    reveal_strlit("Read");
    reveal_strlit("Write");
    reveal_strlit("Read\n");
    reveal_strlit("Write\n");
    let row = render_policy_row(p);
    let ns = p.subject.len() as int;
    let no = p.object.len() as int;
    let nl = spec_action_label(p.actions).len() as int;
    assert(nl == if p.actions == Action::Read { 4int } else { 5int });
    assert(row.len() == 5 + ns + no + nl);
    assert forall|m: int| 0 <= m < row.len() implies s[i + m] == row[m] by {
        assert(s.subrange(i, i + row.len()) == row);
        assert(s.subrange(i, i + row.len())[m] == s[i + m]);
    }
    // the layout of the row
    assert(row[0] == 'p' && row[1] == ',');
    assert forall|t: int| 0 <= t < ns implies row[2 + t] == p.subject[t] by {}
    assert(row[2 + ns] == ',');
    assert forall|t: int| 0 <= t < no implies row[3 + ns + t] == p.object[t] by {}
    assert(row[3 + ns + no] == ',');
    assert forall|t: int| 0 <= t < nl implies row[4 + ns + no + t] == spec_action_label(
        p.actions,
    )[t] by {}
    assert(row[4 + ns + no + nl] == '\n');

    // marker
    assert(s.subrange(i, i + 2) =~= "p,"@);
    assert(matches_at(s, i, "p,"@));

    // subject field
    let j1 = i + 2;
    let j2 = j1 + ns;
    assert(!is_field_char(','));
    assert(!is_field_char('\n'));
    assert forall|k: int| j1 <= k < j2 implies is_field_char(#[trigger] s[k]) by {
        assert(s[k] == row[2 + (k - i - 2)]);
        assert(row[2 + (k - i - 2)] == p.subject[k - i - 2]);
    }
    assert(s[j2] == ',');
    lemma_scan_field_stops(s, j1, j2);
    assert(s.subrange(j1, j2) =~= p.subject);

    // object field
    let j3 = j2 + 1;
    let j4 = j3 + no;
    assert forall|k: int| j3 <= k < j4 implies is_field_char(#[trigger] s[k]) by {
        assert(s[k] == row[3 + ns + (k - j3)]);
        assert(row[3 + ns + (k - j3)] == p.object[k - j3]);
    }
    assert(s[j4] == ',');
    lemma_scan_field_stops(s, j3, j4);
    assert(s.subrange(j3, j4) =~= p.object);

    // action label and line break
    assert forall|k: int| i <= k < i + row.len() implies #[trigger] s[k] == row[k - i] by {
        assert(s.subrange(i, i + row.len())[k - i] == s[k]);
    }
    let j5 = j4 + 1;
    assert(j5 == i + 4 + ns + no);
    if p.actions == Action::Read {
        assert forall|m: int| 0 <= m < 5 implies s.subrange(j5, j5 + 5)[m] == "Read\n"@[m] by {
            assert(s.subrange(j5, j5 + 5)[m] == s[j5 + m]);
            assert(s[j5 + m] == row[j5 + m - i]);
            assert(j5 + m - i == 4 + ns + no + m);
            if m < 4 {
                assert(row[4 + ns + no + m] == spec_action_label(p.actions)[m]);
            } else {
                assert(row[4 + ns + no + nl] == '\n');
            }
        }
        assert(s.subrange(j5, j5 + 5) =~= "Read\n"@);
        assert(matches_at(s, j5, "Read\n"@));
        assert(parse_policy_row(s, i) == Some((p, j5 + 5)));
    } else {
        assert(s[j5] == row[j5 - i]);
        assert(row[4 + ns + no] == spec_action_label(p.actions)[0]);
        assert(s[j5] == 'W');
        assert(!matches_at(s, j5, "Read\n"@)) by {
            if matches_at(s, j5, "Read\n"@) {
                assert(s.subrange(j5, j5 + 5)[0] == s[j5]);
            }
        }
        assert forall|m: int| 0 <= m < 6 implies s.subrange(j5, j5 + 6)[m] == "Write\n"@[m] by {
            assert(s.subrange(j5, j5 + 6)[m] == s[j5 + m]);
            assert(s[j5 + m] == row[j5 + m - i]);
            assert(j5 + m - i == 4 + ns + no + m);
            if m < 5 {
                assert(row[4 + ns + no + m] == spec_action_label(p.actions)[m]);
            } else {
                assert(row[4 + ns + no + nl] == '\n');
            }
        }
        assert(s.subrange(j5, j5 + 6) =~= "Write\n"@);
        assert(matches_at(s, j5, "Write\n"@));
        assert(parse_policy_row(s, i) == Some((p, j5 + 6)));
    }
}

proof fn lemma_parse_group_row_render(s: Seq<char>, i: int, g: GroupV)
    requires
        group_row_wf(g),
        matches_at(s, i, render_group_row(g)),
    ensures
        parse_group_row(s, i) == Some((g, i + render_group_row(g).len() as int)),
{
    reveal_strlit("g");
    reveal_strlit("g2");
    reveal_strlit("g,");
    reveal_strlit("g2,");
    reveal_strlit(",");
    reveal_strlit("\n");
    let row = render_group_row(g);
    let nm = g.g.len() as int;
    let ns = g.subject.len() as int;
    let no = g.group.len() as int;
    assert(nm == if g.g == "g"@ { 1int } else { 2int });
    assert(row.len() == nm + 3 + ns + no);
    assert forall|m: int| 0 <= m < row.len() implies s[i + m] == row[m] by {
        assert(s.subrange(i, i + row.len()) == row);
        assert(s.subrange(i, i + row.len())[m] == s[i + m]);
    }
    assert forall|t: int| 0 <= t < nm implies row[t] == g.g[t] by {}
    assert(row[nm] == ',');
    assert forall|t: int| 0 <= t < ns implies row[nm + 1 + t] == g.subject[t] by {}
    assert(row[nm + 1 + ns] == ',');
    assert forall|t: int| 0 <= t < no implies row[nm + 2 + ns + t] == g.group[t] by {}
    assert(row[nm + 2 + ns + no] == '\n');

    assert(!is_field_char(','));
    assert(!is_field_char('\n'));

    let j1 = i + nm + 1;
    if g.g == "g2"@ {
        assert(s.subrange(i, i + 3) =~= "g2,"@);
        assert(matches_at(s, i, "g2,"@));
    } else {
        assert(!matches_at(s, i, "g2,"@)) by {
            if matches_at(s, i, "g2,"@) {
                assert(s.subrange(i, i + 3)[1] == s[i + 1]);
                assert(s[i + 1] == ',');
            }
        }
        assert(s.subrange(i, i + 2) =~= "g,"@);
        assert(matches_at(s, i, "g,"@));
    }

    let j2 = j1 + ns;
    assert forall|k: int| j1 <= k < j2 implies is_field_char(#[trigger] s[k]) by {
        assert(s[k] == row[nm + 1 + (k - j1)]);
        assert(row[nm + 1 + (k - j1)] == g.subject[k - j1]);
    }
    assert(s[j2] == ',');
    lemma_scan_field_stops(s, j1, j2);
    assert(s.subrange(j1, j2) =~= g.subject);

    let j3 = j2 + 1;
    let j4 = j3 + no;
    assert forall|k: int| j3 <= k < j4 implies is_field_char(#[trigger] s[k]) by {
        assert(s[k] == row[nm + 2 + ns + (k - j3)]);
        assert(row[nm + 2 + ns + (k - j3)] == g.group[k - j3]);
    }
    assert(s[j4] == '\n');
    lemma_scan_field_stops(s, j3, j4);
    assert(s.subrange(j3, j4) =~= g.group);

    assert(parse_group_row(s, i) == Some((g, j4 + 1)));
}

proof fn lemma_parse_policy_rows_render(s: Seq<char>, i: int, ps: Seq<PolicyV>)
    requires
        forall|t: int| 0 <= t < ps.len() ==> policy_row_wf(#[trigger] ps[t]),
        0 <= i,
        i + render_policies(ps).len() <= s.len(),
        s.subrange(i, i + render_policies(ps).len()) == render_policies(ps),
        i + render_policies(ps).len() == s.len() || s[i + render_policies(ps).len()] != 'p',
    ensures
        parse_policy_rows(s, i) == Some((ps, i + render_policies(ps).len() as int)),
    decreases ps.len(),
{
    reveal_strlit("p,");
    reveal_strlit("p");
    reveal_strlit(",");
    reveal_strlit("\n");
    if ps.len() == 0 {
        assert(render_policies(ps).len() == 0);
        assert(parse_policy_rows(s, i) == Some((Seq::<PolicyV>::empty(), i)));
        assert(Seq::<PolicyV>::empty() =~= ps);
    } else {
        let row = render_policy_row(ps[0]);
        let rest = render_policies(ps.skip(1));
        assert(render_policies(ps) == row + rest);
        assert(row.len() >= 5) by {
            assert(policy_row_wf(ps[0]));
            if ps[0].actions == Action::Read {
                reveal_strlit("Read");
            } else {
                reveal_strlit("Write");
            }
        }
        assert forall|m: int| 0 <= m < render_policies(ps).len() implies s[i + m]
            == render_policies(ps)[m] by {
            assert(s.subrange(i, i + render_policies(ps).len())[m] == s[i + m]);
        }
        assert(matches_at(s, i, row)) by {
            assert(s.subrange(i, i + row.len()) =~= row);
        }
        assert(s[i] == 'p') by {
            assert(row[0] == 'p');
        }
        lemma_parse_policy_row_render(s, i, ps[0]);
        let k = i + row.len();
        assert(parse_policy_row(s, i) == Some((ps[0], k)));
        assert(i < k <= s.len());
        assert(s.subrange(k, k + rest.len()) =~= rest) by {
            assert forall|m: int| 0 <= m < rest.len() implies s.subrange(k, k + rest.len())[m]
                == rest[m] by {
                assert(s.subrange(k, k + rest.len())[m] == s[k + m]);
                assert(s[k + m] == render_policies(ps)[row.len() + m]);
                assert(render_policies(ps)[row.len() + m] == rest[m]);
            }
        }
        assert(forall|t: int| 0 <= t < ps.skip(1).len() ==> policy_row_wf(#[trigger] ps.skip(1)[t]));
        lemma_parse_policy_rows_render(s, k, ps.skip(1));
        assert(seq![ps[0]] + ps.skip(1) =~= ps);
    }
}

proof fn lemma_parse_group_rows_render(s: Seq<char>, i: int, gs: Seq<GroupV>)
    requires
        forall|t: int| 0 <= t < gs.len() ==> group_row_wf(#[trigger] gs[t]),
        0 <= i,
        i + render_groups(gs).len() == s.len(),
        s.subrange(i, i + render_groups(gs).len()) == render_groups(gs),
    ensures
        parse_group_rows(s, i) == Some((gs, s.len() as int)),
    decreases gs.len(),
{
    reveal_strlit("g");
    reveal_strlit("g2");
    reveal_strlit(",");
    reveal_strlit("\n");
    if gs.len() == 0 {
        assert(render_groups(gs).len() == 0);
        assert(parse_group_rows(s, i) == Some((Seq::<GroupV>::empty(), i)));
        assert(Seq::<GroupV>::empty() =~= gs);
    } else {
        let row = render_group_row(gs[0]);
        let rest = render_groups(gs.skip(1));
        assert(render_groups(gs) == row + rest);
        assert(row.len() >= 3) by {
            assert(group_row_wf(gs[0]));
        }
        assert forall|m: int| 0 <= m < render_groups(gs).len() implies s[i + m] == render_groups(
            gs,
        )[m] by {
            assert(s.subrange(i, i + render_groups(gs).len())[m] == s[i + m]);
        }
        assert(matches_at(s, i, row)) by {
            assert(s.subrange(i, i + row.len()) =~= row);
        }
        assert(i < s.len());
        lemma_parse_group_row_render(s, i, gs[0]);
        let k = i + row.len();
        assert(parse_group_row(s, i) == Some((gs[0], k)));
        assert(i < k <= s.len());
        assert(s.subrange(k, k + rest.len()) =~= rest) by {
            assert forall|m: int| 0 <= m < rest.len() implies s.subrange(k, k + rest.len())[m]
                == rest[m] by {
                assert(s.subrange(k, k + rest.len())[m] == s[k + m]);
                assert(s[k + m] == render_groups(gs)[row.len() + m]);
                assert(render_groups(gs)[row.len() + m] == rest[m]);
            }
        }
        assert(forall|t: int| 0 <= t < gs.skip(1).len() ==> group_row_wf(#[trigger] gs.skip(1)[t]));
        lemma_parse_group_rows_render(s, k, gs.skip(1));
        assert(seq![gs[0]] + gs.skip(1) =~= gs);
    }
}

/// Publishing is idempotent and lossless: rendering a well-formed rule set and
/// loading the text back yields exactly the same rule set, so replacing the
/// rule storage with a fresh compilation can never duplicate or accumulate
/// rules.
pub proof fn lemma_rules_round_trip(rs: RuleSetV)
    requires
        rules_wf(rs),
    ensures
        spec_parse_rules(render_rules(rs)) == Some(rs),
{
    reveal_strlit("g");
    reveal_strlit("g2");
    reveal_strlit("p");
    let s = render_rules(rs);
    let np = render_policies(rs.policies).len() as int;
    assert(s.subrange(0, np) =~= render_policies(rs.policies));
    if rs.groups.len() == 0 {
        assert(render_groups(rs.groups).len() == 0);
        assert(np == s.len());
    } else {
        let row = render_group_row(rs.groups[0]);
        assert(render_groups(rs.groups) == row + render_groups(rs.groups.skip(1)));
        assert(row[0] == rs.groups[0].g[0]);
        assert(s[np] == render_groups(rs.groups)[0]);
        assert(render_groups(rs.groups)[0] == row[0]);
        assert(group_row_wf(rs.groups[0]));
        assert(rs.groups[0].g[0] == 'g');
        assert(s[np] != 'p');
    }
    lemma_parse_policy_rows_render(s, 0, rs.policies);
    assert(s.subrange(np, np + render_groups(rs.groups).len()) =~= render_groups(rs.groups));
    lemma_parse_group_rows_render(s, np, rs.groups);
}


proof fn lemma_parse_policy_row_sound(s: Seq<char>, i: int)
    ensures
        match parse_policy_row(s, i) {
            Option::Some((p, k)) => i < k <= s.len() && policy_row_wf(p),
            Option::None => true,
        },
{
    reveal_strlit("p,");
    reveal_strlit("p");
    reveal_strlit("Read\n");
    reveal_strlit("Write\n");
    if parse_policy_row(s, i) is Some {
        assert(matches_at(s, i, "p,"@));
        let j1 = i + 2;
        lemma_scan_field_props(s, j1);
        let j2 = scan_field(s, j1);
        let j3 = j2 + 1;
        lemma_scan_field_props(s, j3);
        let j4 = scan_field(s, j3);
        let j5 = j4 + 1;
        assert forall|t: int| 0 <= t < s.subrange(j1, j2).len() implies is_field_char(
            #[trigger] s.subrange(j1, j2)[t],
        ) by {
            assert(s.subrange(j1, j2)[t] == s[j1 + t]);
        }
        assert forall|t: int| 0 <= t < s.subrange(j3, j4).len() implies is_field_char(
            #[trigger] s.subrange(j3, j4)[t],
        ) by {
            assert(s.subrange(j3, j4)[t] == s[j3 + t]);
        }
    }
}

proof fn lemma_parse_group_row_sound(s: Seq<char>, i: int)
    ensures
        match parse_group_row(s, i) {
            Option::Some((g, k)) => i < k <= s.len() && group_row_wf(g),
            Option::None => true,
        },
{
    reveal_strlit("g,");
    reveal_strlit("g2,");
    reveal_strlit("g");
    reveal_strlit("g2");
    if parse_group_row(s, i) is Some {
        let j1: int = if matches_at(s, i, "g2,"@) {
            i + 3
        } else {
            i + 2
        };
        lemma_scan_field_props(s, j1);
        let j2 = scan_field(s, j1);
        let j3 = j2 + 1;
        lemma_scan_field_props(s, j3);
        let j4 = scan_field(s, j3);
        assert forall|t: int| 0 <= t < s.subrange(j1, j2).len() implies is_field_char(
            #[trigger] s.subrange(j1, j2)[t],
        ) by {
            assert(s.subrange(j1, j2)[t] == s[j1 + t]);
        }
        assert forall|t: int| 0 <= t < s.subrange(j3, j4).len() implies is_field_char(
            #[trigger] s.subrange(j3, j4)[t],
        ) by {
            assert(s.subrange(j3, j4)[t] == s[j3 + t]);
        }
    }
}

proof fn lemma_parse_policy_rows_sound(s: Seq<char>, i: int)
    requires
        0 <= i <= s.len(),
    ensures
        match parse_policy_rows(s, i) {
            Option::Some((ps, j)) => i <= j <= s.len() && forall|t: int|
                0 <= t < ps.len() ==> policy_row_wf(#[trigger] ps[t]),
            Option::None => true,
        },
    decreases s.len() - i,
{
    if i >= s.len() || s[i] != 'p' {
    } else {
        lemma_parse_policy_row_sound(s, i);
        match parse_policy_row(s, i) {
            Option::None => {},
            Option::Some((p, k)) => {
                if i < k <= s.len() {
                    lemma_parse_policy_rows_sound(s, k);
                    match parse_policy_rows(s, k) {
                        Option::None => {},
                        Option::Some((ps, j)) => {
                            assert(forall|t: int|
                                0 <= t < (seq![p] + ps).len() ==> policy_row_wf(
                                    #[trigger] (seq![p] + ps)[t],
                                ));
                        },
                    }
                }
            },
        }
    }
}

proof fn lemma_parse_group_rows_sound(s: Seq<char>, i: int)
    requires
        0 <= i <= s.len(),
    ensures
        match parse_group_rows(s, i) {
            Option::Some((gs, j)) => i <= j <= s.len() && forall|t: int|
                0 <= t < gs.len() ==> group_row_wf(#[trigger] gs[t]),
            Option::None => true,
        },
    decreases s.len() - i,
{
    if i >= s.len() {
    } else {
        lemma_parse_group_row_sound(s, i);
        match parse_group_row(s, i) {
            Option::None => {},
            Option::Some((g, k)) => {
                if i < k <= s.len() {
                    lemma_parse_group_rows_sound(s, k);
                    match parse_group_rows(s, k) {
                        Option::None => {},
                        Option::Some((gs, j)) => {
                            assert(forall|t: int|
                                0 <= t < (seq![g] + gs).len() ==> group_row_wf(
                                    #[trigger] (seq![g] + gs)[t],
                                ));
                        },
                    }
                }
            },
        }
    }
}

/// Every rule set the loader accepts is well-formed: correct markers, plain
/// non-empty fields, and no row grants the `NONE` action.
pub proof fn lemma_parse_rules_wf(s: Seq<char>)
    ensures
        match spec_parse_rules(s) {
            Option::Some(rs) => rules_wf(rs),
            Option::None => true,
        },
{
    lemma_parse_policy_rows_sound(s, 0);
    if parse_policy_rows(s, 0) is Some {
        let (ps, i) = parse_policy_rows(s, 0)->Some_0;
        lemma_parse_group_rows_sound(s, i);
    }
}

fn is_field_char_exec(c: char) -> (r: bool)
    ensures
        r == is_field_char(c),
{
    let n = c as u32;
    (48 <= n && n <= 57) || (65 <= n && n <= 90) || (97 <= n && n <= 122) || n == 47
}

fn scan_field_exec(v: &Vec<char>, i: usize) -> (r: usize)
    requires
        i <= v@.len(),
    ensures
        r == scan_field(v@, i as int),
        i <= r <= v@.len(),
{
    let n = v.len();
    let mut k: usize = i;
    while k < n && is_field_char_exec(v[k])
        invariant
            i <= k <= n,
            n == v@.len(),
            scan_field(v@, i as int) == scan_field(v@, k as int),
        decreases n - k,
    {
        k += 1;
    }
    k
}

fn parse_policy_row_exec(v: &Vec<char>, i: usize) -> (r: Option<(CasbinPolicy, usize)>)
    requires
        i <= v@.len(),
    ensures
        match r {
            Option::Some((p, k)) => parse_policy_row(v@, i as int) == Some((p@, k as int)) && i < k
                <= v@.len(),
            Option::None => parse_policy_row(v@, i as int) is None,
        },
{
    proof {
        reveal_strlit("p,");
        reveal_strlit("Read\n");
        reveal_strlit("Write\n");
        reveal_strlit("p");
    }
    if !crate::codec::matches_lit(v, i, "p,") {
        return None;
    }
    let n = v.len();
    proof {
        assert(i + 2 <= n);
    }
    let j1 = i + 2;
    let j2 = scan_field_exec(v, j1);
    if !(j1 < j2 && j2 < v.len() && v[j2] == ',') {
        return None;
    }
    let j3 = j2 + 1;
    let j4 = scan_field_exec(v, j3);
    if !(j3 < j4 && j4 < v.len() && v[j4] == ',') {
        return None;
    }
    let j5 = j4 + 1;
    if crate::codec::matches_lit(v, j5, "Read\n") {
        let subject = crate::codec::extract_string(v, j1, j2);
        let object = crate::codec::extract_string(v, j3, j4);
        let row = CasbinPolicy { p: String::from_str("p"), subject, object, actions: Action::Read };
        return Some((row, j5 + 5));
    }
    if crate::codec::matches_lit(v, j5, "Write\n") {
        let subject = crate::codec::extract_string(v, j1, j2);
        let object = crate::codec::extract_string(v, j3, j4);
        let row = CasbinPolicy {
            p: String::from_str("p"),
            subject,
            object,
            actions: Action::Write,
        };
        return Some((row, j5 + 6));
    }
    None
}

fn parse_group_row_exec(v: &Vec<char>, i: usize) -> (r: Option<(CasbinGroupingPolicy, usize)>)
    requires
        i <= v@.len(),
    ensures
        match r {
            Option::Some((g, k)) => parse_group_row(v@, i as int) == Some((g@, k as int)) && i < k
                <= v@.len(),
            Option::None => parse_group_row(v@, i as int) is None,
        },
{
    proof {
        reveal_strlit("g,");
        reveal_strlit("g2,");
        reveal_strlit("g");
        reveal_strlit("g2");
    }
    let n = v.len();
    let m2 = crate::codec::matches_lit(v, i, "g2,");
    let m1 = crate::codec::matches_lit(v, i, "g,");
    if !m2 && !m1 {
        return None;
    }
    let marker: &str = if m2 {
        "g2"
    } else {
        "g"
    };
    let j1: usize = if m2 {
        proof {
            assert(i + 3 <= n);
        }
        i + 3
    } else {
        proof {
            assert(i + 2 <= n);
        }
        i + 2
    };
    let j2 = scan_field_exec(v, j1);
    if !(j1 < j2 && j2 < v.len() && v[j2] == ',') {
        return None;
    }
    let j3 = j2 + 1;
    let j4 = scan_field_exec(v, j3);
    if !(j3 < j4 && j4 < v.len() && v[j4] == '\n') {
        return None;
    }
    let subject = crate::codec::extract_string(v, j1, j2);
    let group = crate::codec::extract_string(v, j3, j4);
    let row = CasbinGroupingPolicy { g: marker.to_owned(), subject, group };
    Some((row, j4 + 1))
}

fn parse_policy_rows_exec(v: &Vec<char>, i: usize) -> (r: Option<(Vec<CasbinPolicy>, usize)>)
    requires
        i <= v@.len(),
    ensures
        match r {
            Option::Some((ps, j)) => parse_policy_rows(v@, i as int) == Some(
                (policies_view(ps@), j as int),
            ) && i <= j <= v@.len(),
            Option::None => parse_policy_rows(v@, i as int) is None,
        },
    decreases v@.len() - i,
{
    if i >= v.len() || v[i] != 'p' {
        let e: Vec<CasbinPolicy> = Vec::new();
        assert(policies_view(e@) =~= Seq::<PolicyV>::empty());
        return Some((e, i));
    }
    match parse_policy_row_exec(v, i) {
        Option::None => None,
        Option::Some((p, k)) => {
            let ghost pv = p@;
            match parse_policy_rows_exec(v, k) {
                Option::None => None,
                Option::Some((mut ps, j)) => {
                    let ghost tailv = policies_view(ps@);
                    ps.insert(0, p);
                    proof {
                        assert(policies_view(ps@) =~= seq![pv] + tailv);
                    }
                    Some((ps, j))
                },
            }
        },
    }
}

fn parse_group_rows_exec(v: &Vec<char>, i: usize) -> (r: Option<(Vec<CasbinGroupingPolicy>, usize)>)
    requires
        i <= v@.len(),
    ensures
        match r {
            Option::Some((gs, j)) => parse_group_rows(v@, i as int) == Some(
                (groups_view(gs@), j as int),
            ) && i <= j <= v@.len(),
            Option::None => parse_group_rows(v@, i as int) is None,
        },
    decreases v@.len() - i,
{
    if i >= v.len() {
        let e: Vec<CasbinGroupingPolicy> = Vec::new();
        assert(groups_view(e@) =~= Seq::<GroupV>::empty());
        return Some((e, i));
    }
    match parse_group_row_exec(v, i) {
        Option::None => None,
        Option::Some((g, k)) => {
            let ghost gv = g@;
            match parse_group_rows_exec(v, k) {
                Option::None => None,
                Option::Some((mut gs, j)) => {
                    let ghost tailv = groups_view(gs@);
                    gs.insert(0, g);
                    proof {
                        assert(groups_view(gs@) =~= seq![gv] + tailv);
                    }
                    Some((gs, j))
                },
            }
        },
    }
}

/// Load a rule table from its textual form.  `None` means the table is
/// malformed and must be treated as fatal by the caller.
pub fn parse_rules_text(table: &str) -> (r: Option<RuleSet>)
    ensures
        match r {
            Option::Some(rs) => spec_parse_rules(table@) == Some(rs@),
            Option::None => spec_parse_rules(table@) is None,
        },
{
    let v = crate::codec::str_chars(table);
    match parse_policy_rows_exec(&v, 0) {
        Option::None => None,
        Option::Some((ps, i)) => {
            match parse_group_rows_exec(&v, i) {
                Option::None => None,
                Option::Some((gs, j)) => {
                    if j == v.len() {
                        Some(RuleSet { policies: ps, groups: gs })
                    } else {
                        None
                    }
                },
            }
        },
    }
}


/// Two subjects have the same record resource only if they are the same
/// subject.
pub proof fn lemma_res_of_injective(a: Seq<char>, b: Seq<char>)
    requires
        res_of(a) == res_of(b),
    ensures
        a == b,
{
    reveal_strlit("records/");
    assert(res_of(a).len() == res_of(b).len());
    assert(res_of(a).len() == 8 + a.len());
    assert(res_of(b).len() == 8 + b.len());
    assert(a.len() == b.len());
    assert forall|t: int| 0 <= t < a.len() implies a[t] == b[t] by {
        assert(res_of(a)[8 + t] == a[t]);
        assert(res_of(b)[8 + t] == b[t]);
    }
    assert(a =~= b);
}

/// The record group is the record resource of exactly the name `all`.
pub proof fn lemma_res_all_decomp(x: Seq<char>)
    requires
        res_all() == res_of(x),
    ensures
        x == "all"@,
{
    reveal_strlit("records/");
    reveal_strlit("records/all");
    reveal_strlit("all");
    assert(res_all().len() == res_of(x).len());
    assert(res_all().len() == 11);
    assert(res_of(x).len() == 8 + x.len());
    assert(x.len() == 3);
    assert forall|t: int| 0 <= t < 3 implies x[t] == "all"@[t] by {
        assert(res_of(x)[8 + t] == x[t]);
    }
    assert(x =~= "all"@);
}

proof fn lemma_field_ok_res_of(name: Seq<char>)
    requires
        crate::codec::name_ok(name),
    ensures
        field_ok(res_of(name)),
{
    reveal_strlit("records/");
    assert forall|t: int| 0 <= t < res_of(name).len() implies is_field_char(
        #[trigger] res_of(name)[t],
    ) by {
        if t < 8 {
            assert(res_of(name)[t] == "records/"@[t]);
        } else {
            assert(res_of(name)[t] == name[t - 8]);
        }
    }
}

pub proof fn lemma_student_policies_contains(users: Seq<UserV>, i: int)
    requires
        0 <= i < users.len(),
        users[i].role == Role::STUDENT,
    ensures
        student_policies(users).contains(student_policy(users[i].name)),
    decreases users.len(),
{
    let sp = student_policies(users);
    let pre = student_policies(users.drop_last());
    if i == users.len() - 1 {
        assert(sp[pre.len() as int] == student_policy(users[i].name));
    } else {
        assert(users.drop_last()[i] == users[i]);
        lemma_student_policies_contains(users.drop_last(), i);
        let k = choose|k: int|
            0 <= k < pre.len() && pre[k] == student_policy(users.drop_last()[i].name);
        assert(sp[k] == student_policy(users[i].name));
    }
}

pub proof fn lemma_student_groups_contains(users: Seq<UserV>, i: int)
    requires
        0 <= i < users.len(),
        users[i].role == Role::STUDENT,
    ensures
        student_groups(users).contains(student_group(users[i].name)),
    decreases users.len(),
{
    let sg = student_groups(users);
    let pre = student_groups(users.drop_last());
    if i == users.len() - 1 {
        assert(sg[pre.len() as int] == student_group(users[i].name));
    } else {
        assert(users.drop_last()[i] == users[i]);
        lemma_student_groups_contains(users.drop_last(), i);
        let k = choose|k: int|
            0 <= k < pre.len() && pre[k] == student_group(users.drop_last()[i].name);
        assert(sg[k] == student_group(users[i].name));
    }
}

pub proof fn lemma_prof_groups_contains(users: Seq<UserV>, i: int)
    requires
        0 <= i < users.len(),
        users[i].role == Role::PROF,
    ensures
        prof_groups(users).contains(prof_group(users[i].name)),
    decreases users.len(),
{
    let pg = prof_groups(users);
    let pre = prof_groups(users.drop_last());
    if i == users.len() - 1 {
        assert(pg[pre.len() as int] == prof_group(users[i].name));
    } else {
        assert(users.drop_last()[i] == users[i]);
        lemma_prof_groups_contains(users.drop_last(), i);
        let k = choose|k: int|
            0 <= k < pre.len() && pre[k] == prof_group(users.drop_last()[i].name);
        assert(pg[k] == prof_group(users[i].name));
    }
}

pub proof fn lemma_student_policies_shape(users: Seq<UserV>, j: int)
    requires
        0 <= j < student_policies(users).len(),
    ensures
        exists|i: int|
            0 <= i < users.len() && (#[trigger] users[i]).role == Role::STUDENT
                && student_policies(users)[j] == student_policy(users[i].name),
    decreases users.len(),
{
    let pre = student_policies(users.drop_last());
    if j < pre.len() {
        lemma_student_policies_shape(users.drop_last(), j);
        let i = choose|i: int|
            0 <= i < users.drop_last().len() && (#[trigger] users.drop_last()[i]).role
                == Role::STUDENT && student_policies(users.drop_last())[j] == student_policy(
                users.drop_last()[i].name,
            );
        assert(users[i] == users.drop_last()[i]);
        assert(student_policies(users)[j] == pre[j]);
    } else {
        assert(users.last().role == Role::STUDENT);
        assert(student_policies(users)[j] == student_policy(users[users.len() - 1].name));
    }
}

pub proof fn lemma_student_groups_shape(users: Seq<UserV>, j: int)
    requires
        0 <= j < student_groups(users).len(),
    ensures
        exists|i: int|
            0 <= i < users.len() && (#[trigger] users[i]).role == Role::STUDENT
                && student_groups(users)[j] == student_group(users[i].name),
    decreases users.len(),
{
    let pre = student_groups(users.drop_last());
    if j < pre.len() {
        lemma_student_groups_shape(users.drop_last(), j);
        let i = choose|i: int|
            0 <= i < users.drop_last().len() && (#[trigger] users.drop_last()[i]).role
                == Role::STUDENT && student_groups(users.drop_last())[j] == student_group(
                users.drop_last()[i].name,
            );
        assert(users[i] == users.drop_last()[i]);
        assert(student_groups(users)[j] == pre[j]);
    } else {
        assert(users.last().role == Role::STUDENT);
        assert(student_groups(users)[j] == student_group(users[users.len() - 1].name));
    }
}

pub proof fn lemma_prof_groups_shape(users: Seq<UserV>, j: int)
    requires
        0 <= j < prof_groups(users).len(),
    ensures
        exists|i: int|
            0 <= i < users.len() && (#[trigger] users[i]).role == Role::PROF && prof_groups(
                users,
            )[j] == prof_group(users[i].name),
    decreases users.len(),
{
    let pre = prof_groups(users.drop_last());
    if j < pre.len() {
        lemma_prof_groups_shape(users.drop_last(), j);
        let i = choose|i: int|
            0 <= i < users.drop_last().len() && (#[trigger] users.drop_last()[i]).role == Role::PROF
                && prof_groups(users.drop_last())[j] == prof_group(users.drop_last()[i].name);
        assert(users[i] == users.drop_last()[i]);
        assert(prof_groups(users)[j] == pre[j]);
    } else {
        assert(users.last().role == Role::PROF);
        assert(prof_groups(users)[j] == prof_group(users[users.len() - 1].name));
    }
}

/// Every row of the compiled table, by shape: the two blanket grants, a
/// student's read grant, a student's resource membership, or a professor's
/// role membership.
pub proof fn lemma_compile_shape(users: Seq<UserV>)
    ensures
        forall|j: int|
            0 <= j < spec_compile(users).policies.len() ==> (#[trigger] spec_compile(
                users,
            ).policies[j] == prof_policy(Action::Read) || spec_compile(users).policies[j]
                == prof_policy(Action::Write) || exists|i: int|
                0 <= i < users.len() && (#[trigger] users[i]).role == Role::STUDENT && spec_compile(
                    users,
                ).policies[j] == student_policy(users[i].name)),
        forall|j: int|
            0 <= j < spec_compile(users).groups.len() ==> ((exists|i: int|
                0 <= i < users.len() && (#[trigger] users[i]).role == Role::STUDENT
                    && #[trigger] spec_compile(users).groups[j] == student_group(users[i].name))
                || (exists|i: int|
                0 <= i < users.len() && (#[trigger] users[i]).role == Role::PROF && spec_compile(
                    users,
                ).groups[j] == prof_group(users[i].name))),
{
    let rs = spec_compile(users);
    let base: Seq<PolicyV> = if has_prof(users) {
        seq![prof_policy(Action::Read), prof_policy(Action::Write)]
    } else {
        Seq::empty()
    };
    assert forall|j: int| 0 <= j < rs.policies.len() implies (#[trigger] rs.policies[j]
        == prof_policy(Action::Read) || rs.policies[j] == prof_policy(Action::Write) || exists|
        i: int,
    |
        0 <= i < users.len() && (#[trigger] users[i]).role == Role::STUDENT && rs.policies[j]
            == student_policy(users[i].name)) by {
        if j >= base.len() {
            assert(rs.policies[j] == student_policies(users)[j - base.len()]);
            lemma_student_policies_shape(users, j - base.len());
        }
    }
    assert forall|j: int| 0 <= j < rs.groups.len() implies ((exists|i: int|
        0 <= i < users.len() && (#[trigger] users[i]).role == Role::STUDENT
            && #[trigger] rs.groups[j] == student_group(users[i].name)) || (exists|i: int|
        0 <= i < users.len() && (#[trigger] users[i]).role == Role::PROF && rs.groups[j]
            == prof_group(users[i].name))) by {
        let sg = student_groups(users);
        if j < sg.len() {
            assert(rs.groups[j] == sg[j]);
            lemma_student_groups_shape(users, j);
        } else {
            assert(rs.groups[j] == prof_groups(users)[j - sg.len()]);
            lemma_prof_groups_shape(users, j - sg.len());
        }
    }
}

/// The compiled table is well-formed: it can be published and loaded back.
pub proof fn lemma_compile_wf(users: Seq<UserV>)
    requires
        crate::db::dir_wf(users),
    ensures
        rules_wf(spec_compile(users)),
{
    reveal_strlit("p");
    reveal_strlit("g");
    reveal_strlit("g2");
    reveal_strlit("Prof");
    reveal_strlit("records/all");
    lemma_compile_shape(users);
    let rs = spec_compile(users);
    assert(field_ok(spec_role_label(Role::PROF)));
    assert(field_ok(res_all()));
    assert forall|j: int| 0 <= j < rs.policies.len() implies policy_row_wf(
        #[trigger] rs.policies[j],
    ) by {
        let r = rs.policies[j];
        if r == prof_policy(Action::Read) || r == prof_policy(Action::Write) {
        } else {
            let i = choose|i: int|
                0 <= i < users.len() && (#[trigger] users[i]).role == Role::STUDENT && rs.policies[j]
                    == student_policy(users[i].name);
            assert(crate::codec::name_ok(users[i].name));
            lemma_field_ok_res_of(users[i].name);
        }
    }
    assert forall|j: int| 0 <= j < rs.groups.len() implies group_row_wf(#[trigger] rs.groups[j]) by {
        let r = rs.groups[j];
        if exists|i: int|
            0 <= i < users.len() && (#[trigger] users[i]).role == Role::STUDENT && rs.groups[j]
                == student_group(users[i].name) {
            let i = choose|i: int|
                0 <= i < users.len() && (#[trigger] users[i]).role == Role::STUDENT && rs.groups[j]
                    == student_group(users[i].name);
            lemma_field_ok_res_of(users[i].name);
        } else {
            let i = choose|i: int|
                0 <= i < users.len() && (#[trigger] users[i]).role == Role::PROF && rs.groups[j]
                    == prof_group(users[i].name);
            assert(crate::codec::name_ok(users[i].name));
        }
    }
}

/// No two rows of a rule set are the same: the "no duplicate grants" half of
/// idempotent publishing.
pub open spec fn rules_no_dup(rs: RuleSetV) -> bool {
    &&& forall|i: int, j: int|
        0 <= i < j < rs.policies.len() ==> rs.policies[i] != rs.policies[j]
    &&& forall|i: int, j: int| 0 <= i < j < rs.groups.len() ==> rs.groups[i] != rs.groups[j]
}

proof fn lemma_student_policies_no_dup(users: Seq<UserV>)
    requires
        forall|i: int, j: int| 0 <= i < j < users.len() ==> users[i].name != users[j].name,
    ensures
        forall|j1: int, j2: int|
            0 <= j1 < j2 < student_policies(users).len() ==> student_policies(users)[j1]
                != student_policies(users)[j2],
    decreases users.len(),
{
    if users.len() == 0 {
    } else {
        let dl = users.drop_last();
        assert(forall|i: int, j: int| 0 <= i < j < dl.len() ==> dl[i].name != dl[j].name);
        lemma_student_policies_no_dup(dl);
        let pre = student_policies(dl);
        assert forall|j1: int, j2: int|
            0 <= j1 < j2 < student_policies(users).len() implies student_policies(users)[j1]
            != student_policies(users)[j2] by {
            if j2 < pre.len() {
                assert(student_policies(users)[j1] == pre[j1]);
                assert(student_policies(users)[j2] == pre[j2]);
            } else {
                assert(users.last().role == Role::STUDENT);
                assert(student_policies(users)[j2] == student_policy(users.last().name));
                assert(student_policies(users)[j1] == pre[j1]);
                lemma_student_policies_shape(dl, j1);
                let i = choose|i: int|
                    0 <= i < dl.len() && (#[trigger] dl[i]).role == Role::STUDENT && pre[j1]
                        == student_policy(dl[i].name);
                assert(users[i].name != users[users.len() - 1].name);
            }
        }
    }
}

proof fn lemma_student_groups_no_dup(users: Seq<UserV>)
    requires
        forall|i: int, j: int| 0 <= i < j < users.len() ==> users[i].name != users[j].name,
    ensures
        forall|j1: int, j2: int|
            0 <= j1 < j2 < student_groups(users).len() ==> student_groups(users)[j1]
                != student_groups(users)[j2],
    decreases users.len(),
{
    if users.len() == 0 {
    } else {
        let dl = users.drop_last();
        assert(forall|i: int, j: int| 0 <= i < j < dl.len() ==> dl[i].name != dl[j].name);
        lemma_student_groups_no_dup(dl);
        let pre = student_groups(dl);
        assert forall|j1: int, j2: int|
            0 <= j1 < j2 < student_groups(users).len() implies student_groups(users)[j1]
            != student_groups(users)[j2] by {
            if j2 < pre.len() {
                assert(student_groups(users)[j1] == pre[j1]);
                assert(student_groups(users)[j2] == pre[j2]);
            } else {
                assert(users.last().role == Role::STUDENT);
                assert(student_groups(users)[j2] == student_group(users.last().name));
                assert(student_groups(users)[j1] == pre[j1]);
                lemma_student_groups_shape(dl, j1);
                let i = choose|i: int|
                    0 <= i < dl.len() && (#[trigger] dl[i]).role == Role::STUDENT && pre[j1]
                        == student_group(dl[i].name);
                assert(users[i].name != users[users.len() - 1].name);
                if student_groups(users)[j1] == student_groups(users)[j2] {
                    lemma_res_of_injective(users[i].name, users.last().name);
                }
            }
        }
    }
}

proof fn lemma_prof_groups_no_dup(users: Seq<UserV>)
    requires
        forall|i: int, j: int| 0 <= i < j < users.len() ==> users[i].name != users[j].name,
    ensures
        forall|j1: int, j2: int|
            0 <= j1 < j2 < prof_groups(users).len() ==> prof_groups(users)[j1] != prof_groups(
                users,
            )[j2],
    decreases users.len(),
{
    if users.len() == 0 {
    } else {
        let dl = users.drop_last();
        assert(forall|i: int, j: int| 0 <= i < j < dl.len() ==> dl[i].name != dl[j].name);
        lemma_prof_groups_no_dup(dl);
        let pre = prof_groups(dl);
        assert forall|j1: int, j2: int|
            0 <= j1 < j2 < prof_groups(users).len() implies prof_groups(users)[j1] != prof_groups(
            users,
        )[j2] by {
            if j2 < pre.len() {
                assert(prof_groups(users)[j1] == pre[j1]);
                assert(prof_groups(users)[j2] == pre[j2]);
            } else {
                assert(users.last().role == Role::PROF);
                assert(prof_groups(users)[j2] == prof_group(users.last().name));
                assert(prof_groups(users)[j1] == pre[j1]);
                lemma_prof_groups_shape(dl, j1);
                let i = choose|i: int|
                    0 <= i < dl.len() && (#[trigger] dl[i]).role == Role::PROF && pre[j1]
                        == prof_group(dl[i].name);
                assert(users[i].name != users[users.len() - 1].name);
            }
        }
    }
}

/// Compilation never emits the same grant or grouping twice.
pub proof fn lemma_compile_no_dup(users: Seq<UserV>)
    requires
        crate::db::dir_wf(users),
    ensures
        rules_no_dup(spec_compile(users)),
{
    reveal_strlit("g");
    reveal_strlit("g2");
    reveal_strlit("Prof");
    reveal_strlit("records/all");
    reveal_strlit("records/");
    let rs = spec_compile(users);
    let base: Seq<PolicyV> = if has_prof(users) {
        seq![prof_policy(Action::Read), prof_policy(Action::Write)]
    } else {
        Seq::empty()
    };
    lemma_student_policies_no_dup(users);
    lemma_student_groups_no_dup(users);
    lemma_prof_groups_no_dup(users);
    assert forall|i: int, j: int| 0 <= i < j < rs.policies.len() implies rs.policies[i]
        != rs.policies[j] by {
        if i < base.len() && j >= base.len() {
            // a blanket grant on the record group never equals a student's
            // grant on their own records: that would force the student's
            // resource to be the group and their name to be the role label
            assert(rs.policies[j] == student_policies(users)[j - base.len()]);
            lemma_student_policies_shape(users, j - base.len());
            let w = choose|w: int|
                0 <= w < users.len() && (#[trigger] users[w]).role == Role::STUDENT
                    && student_policies(users)[j - base.len()] == student_policy(users[w].name);
            if rs.policies[i] == rs.policies[j] {
                assert(users[w].name == spec_role_label(Role::PROF));
                lemma_res_all_decomp(users[w].name);
                reveal_strlit("all");
                assert(users[w].name[0] == 'P');
                assert(users[w].name[0] == 'a');
            }
        } else if i >= base.len() {
            assert(rs.policies[i] == student_policies(users)[i - base.len()]);
            assert(rs.policies[j] == student_policies(users)[j - base.len()]);
        }
    }
    assert forall|i: int, j: int| 0 <= i < j < rs.groups.len() implies rs.groups[i]
        != rs.groups[j] by {
        let sg = student_groups(users);
        if i < sg.len() && j >= sg.len() {
            // markers differ: `g2` rows precede `g` rows
            lemma_student_groups_shape(users, i);
            lemma_prof_groups_shape(users, j - sg.len());
            assert(rs.groups[i] == sg[i]);
            assert(rs.groups[j] == prof_groups(users)[j - sg.len()]);
            if rs.groups[i] == rs.groups[j] {
                assert(rs.groups[i].g == "g2"@ && rs.groups[j].g == "g"@);
                assert("g2"@.len() == 2 && "g"@.len() == 1);
            }
        } else if i < sg.len() && j < sg.len() {
            assert(rs.groups[i] == sg[i]);
            assert(rs.groups[j] == sg[j]);
        } else {
            assert(rs.groups[i] == prof_groups(users)[i - sg.len()]);
            assert(rs.groups[j] == prof_groups(users)[j - sg.len()]);
        }
    }
}

/// Idempotent compilation: the compiled table is a pure function of the
/// directory, holds no duplicate rows, and publishing it (replacing the rule
/// storage with its text) and loading it back yields exactly the same rules.
pub proof fn lemma_compile_publish_idempotent(users: Seq<UserV>)
    requires
        crate::db::dir_wf(users),
    ensures
        rules_wf(spec_compile(users)),
        rules_no_dup(spec_compile(users)),
        spec_parse_rules(render_rules(spec_compile(users))) == Some(spec_compile(users)),
{
    lemma_compile_wf(users);
    lemma_compile_no_dup(users);
    lemma_rules_round_trip(spec_compile(users));
}

} // verus!
