use vstd::prelude::*;

verus! {

use crate::codec::str_eq;
use crate::policy_writer::{
    groups_view, lemma_parse_rules_wf, parse_rules_text, policies_view, rules_wf, spec_parse_rules,
    CasbinGroupingPolicy, GroupV, PolicyV, RuleSet, RuleSetV,
};
use crate::user::Action;

/// The request's subject names the rule's subject, either directly or through
/// a role-membership (`g`) row.
pub open spec fn subject_matches(groups: Seq<GroupV>, sub: Seq<char>, rule_sub: Seq<char>) -> bool {
    ||| sub == rule_sub
    ||| exists|k: int|
        0 <= k < groups.len() && (#[trigger] groups[k]).g == "g"@ && groups[k].subject == sub
            && groups[k].group == rule_sub
}

/// The request's resource names the rule's object, either directly or through
/// a resource-membership (`g2`) row: one hop from the concrete resource to the
/// group that contains it.
pub open spec fn resource_matches(groups: Seq<GroupV>, res: Seq<char>, rule_obj: Seq<char>) -> bool {
    ||| res == rule_obj
    ||| exists|k: int|
        0 <= k < groups.len() && (#[trigger] groups[k]).g == "g2"@ && groups[k].subject == res
            && groups[k].group == rule_obj
}

/// One rule covers the request: subject and resource match as above and the
/// requested action is exactly the granted one.
pub open spec fn rule_matches(
    rs: RuleSetV,
    sub: Seq<char>,
    res: Seq<char>,
    act: Action,
    p: PolicyV,
) -> bool {
    &&& subject_matches(rs.groups, sub, p.subject)
    &&& resource_matches(rs.groups, res, p.object)
    &&& act == p.actions
}

/// Default-deny authorization: allow exactly when some published rule matches.
pub open spec fn spec_authorize(rs: RuleSetV, sub: Seq<char>, res: Seq<char>, act: Action) -> bool {
    exists|j: int|
        0 <= j < rs.policies.len() && rule_matches(rs, sub, res, act, #[trigger] rs.policies[j])
}

/// The policy enforcer: a loaded rule table, or a fail-closed sentinel when
/// the table could not be parsed.
pub struct AccessControl {
    pub rules: RuleSet,
    pub loaded: bool,
}

impl AccessControl {
    /// A loaded enforcer only ever holds a well-formed table.
    pub open spec fn wf(&self) -> bool {
        self.loaded ==> rules_wf(self.rules@)
    }

    /// What an authorization query answers: deny everything unless a table is
    /// loaded and some rule matches.
    pub open spec fn spec_check(&self, sub: Seq<char>, res: Seq<char>, act: Action) -> bool {
        self.loaded && spec_authorize(self.rules@, sub, res, act)
    }

    /// Load an enforcer from the published rule-table text.  A table that does
    /// not parse yields a fail-closed enforcer that denies every request.
    pub fn new(table: &str) -> (r: AccessControl)
        ensures
            r.wf(),
            match spec_parse_rules(table@) {
                Some(rs) => r.loaded && r.rules@ == rs,
                None => !r.loaded,
            },
    {
        proof {
            lemma_parse_rules_wf(table@);
        }
        match parse_rules_text(table) {
            Some(rules) => AccessControl { rules, loaded: true },
            None => {
                let empty = RuleSet { policies: Vec::new(), groups: Vec::new() };
                AccessControl { rules: empty, loaded: false }
            },
        }
    }

    /// Centralized access control decision.
    pub fn check_authorization(&self, subject: &str, resource: &str, action: Action) -> (r: bool)
        ensures
            r == self.spec_check(subject@, resource@, action),
    {
        if !self.loaded {
            return false;
        }
        let n = self.rules.policies.len();
        let ghost pv = policies_view(self.rules.policies@);
        let mut j: usize = 0;
        while j < n
            invariant
                self.loaded,
                0 <= j <= n,
                n == pv.len(),
                pv == self.rules@.policies,
                forall|t: int|
                    0 <= t < j ==> !rule_matches(
                        self.rules@,
                        subject@,
                        resource@,
                        action,
                        #[trigger] pv[t],
                    ),
            decreases n - j,
        {
            let p = &self.rules.policies[j];
            proof {
                assert(pv[j as int] == p@);
            }
            let sm = subject_match(&self.rules.groups, subject, &p.subject);
            let rm = resource_match(&self.rules.groups, resource, &p.object);
            if sm && rm && action == p.actions {
                proof {
                    assert(self.rules@.policies[j as int] == pv[j as int]);
                    assert(rule_matches(
                        self.rules@,
                        subject@,
                        resource@,
                        action,
                        self.rules@.policies[j as int],
                    ));
                }
                return true;
            }
            j += 1;
        }
        proof {
            if spec_authorize(self.rules@, subject@, resource@, action) {
                let t = choose|t: int|
                    0 <= t < pv.len() && rule_matches(
                        self.rules@,
                        subject@,
                        resource@,
                        action,
                        #[trigger] pv[t],
                    );
                assert(!rule_matches(self.rules@, subject@, resource@, action, pv[t]));
            }
        }
        false
    }
}

/// Does a role-membership row link `sub` to the rule's subject group?
fn subject_match(groups: &Vec<CasbinGroupingPolicy>, sub: &str, rule_sub: &String) -> (r: bool)
    ensures
        r == subject_matches(groups_view(groups@), sub@, rule_sub@),
{
    if str_eq(sub, rule_sub.as_str()) {
        return true;
    }
    let n = groups.len();
    let ghost gv = groups_view(groups@);
    let mut k: usize = 0;
    while k < n
        invariant
            0 <= k <= n,
            n == gv.len(),
            gv == groups_view(groups@),
            sub@ != rule_sub@,
            forall|t: int|
                0 <= t < k ==> !((#[trigger] gv[t]).g == "g"@ && gv[t].subject == sub@ && gv[t].group
                    == rule_sub@),
        decreases n - k,
    {
        let g = &groups[k];
        proof {
            assert(gv[k as int] == g@);
        }
        if str_eq(g.g.as_str(), "g") && str_eq(g.subject.as_str(), sub) && str_eq(
            g.group.as_str(),
            rule_sub.as_str(),
        ) {
            return true;
        }
        k += 1;
    }
    proof {
        if subject_matches(gv, sub@, rule_sub@) {
            let t = choose|t: int|
                0 <= t < gv.len() && (#[trigger] gv[t]).g == "g"@ && gv[t].subject == sub@
                    && gv[t].group == rule_sub@;
            assert(!(gv[t].g == "g"@ && gv[t].subject == sub@ && gv[t].group == rule_sub@));
        }
    }
    false
}

/// Does a resource-membership row link `res` to the rule's object group?
fn resource_match(groups: &Vec<CasbinGroupingPolicy>, res: &str, rule_obj: &String) -> (r: bool)
    ensures
        r == resource_matches(groups_view(groups@), res@, rule_obj@),
{
    if str_eq(res, rule_obj.as_str()) {
        return true;
    }
    let n = groups.len();
    let ghost gv = groups_view(groups@);
    let mut k: usize = 0;
    while k < n
        invariant
            0 <= k <= n,
            n == gv.len(),
            gv == groups_view(groups@),
            res@ != rule_obj@,
            forall|t: int|
                0 <= t < k ==> !((#[trigger] gv[t]).g == "g2"@ && gv[t].subject == res@
                    && gv[t].group == rule_obj@),
        decreases n - k,
    {
        let g = &groups[k];
        proof {
            assert(gv[k as int] == g@);
        }
        if str_eq(g.g.as_str(), "g2") && str_eq(g.subject.as_str(), res) && str_eq(
            g.group.as_str(),
            rule_obj.as_str(),
        ) {
            return true;
        }
        k += 1;
    }
    proof {
        if resource_matches(gv, res@, rule_obj@) {
            let t = choose|t: int|
                0 <= t < gv.len() && (#[trigger] gv[t]).g == "g2"@ && gv[t].subject == res@
                    && gv[t].group == rule_obj@;
            assert(!(gv[t].g == "g2"@ && gv[t].subject == res@ && gv[t].group == rule_obj@));
        }
    }
    false
}


use crate::db::dir_wf;
use crate::policy_writer::{
    has_prof, lemma_compile_shape, lemma_prof_groups_contains, lemma_res_all_decomp,
    lemma_res_of_injective, lemma_student_groups_contains, lemma_student_policies_contains,
    prof_group, prof_groups, prof_policy, res_all, res_of, spec_compile, student_group,
    student_groups, student_policies, student_policy,
};
use crate::user::{spec_role_label, Role, UserV};

proof fn lemma_distinct_names(users: Seq<UserV>, i: int, j: int)
    requires
        dir_wf(users),
        0 <= i < users.len(),
        0 <= j < users.len(),
        i != j,
    ensures
        users[i].name != users[j].name,
{
    if i < j {
        assert(users[i].name != users[j].name);
    } else {
        assert(users[j].name != users[i].name);
    }
}

proof fn lemma_prof_subject_matches(users: Seq<UserV>, pi: int)
    requires
        0 <= pi < users.len(),
        users[pi].role == Role::PROF,
    ensures
        subject_matches(spec_compile(users).groups, users[pi].name, spec_role_label(Role::PROF)),
{
    reveal_strlit("g");
    lemma_prof_groups_contains(users, pi);
    let pg = prof_groups(users);
    let k = choose|k: int| 0 <= k < pg.len() && pg[k] == prof_group(users[pi].name);
    let sg = student_groups(users);
    let rs = spec_compile(users);
    assert(rs.groups[sg.len() + k] == pg[k]);
}

/// Law (group coverage, professor half): under any compiled rule set, every
/// professor may both read and write the record group.
pub proof fn lemma_professor_group_access(users: Seq<UserV>, pi: int)
    requires
        dir_wf(users),
        0 <= pi < users.len(),
        users[pi].role == Role::PROF,
    ensures
        spec_authorize(spec_compile(users), users[pi].name, res_all(), Action::Read),
        spec_authorize(spec_compile(users), users[pi].name, res_all(), Action::Write),
{
    let rs = spec_compile(users);
    assert(has_prof(users));
    assert(rs.policies[0] == prof_policy(Action::Read));
    assert(rs.policies[1] == prof_policy(Action::Write));
    lemma_prof_subject_matches(users, pi);
    assert(rule_matches(rs, users[pi].name, res_all(), Action::Read, rs.policies[0]));
    assert(rule_matches(rs, users[pi].name, res_all(), Action::Write, rs.policies[1]));
}

/// Law (group coverage): under any compiled rule set, a professor may read and
/// write every student's records, through the blanket grant on the record
/// group and the student's one-hop resource membership.
pub proof fn lemma_professor_student_access(users: Seq<UserV>, pi: int, si: int)
    requires
        dir_wf(users),
        0 <= pi < users.len(),
        users[pi].role == Role::PROF,
        0 <= si < users.len(),
        users[si].role == Role::STUDENT,
    ensures
        spec_authorize(spec_compile(users), users[pi].name, res_of(users[si].name), Action::Read),
        spec_authorize(spec_compile(users), users[pi].name, res_of(users[si].name), Action::Write),
{
    reveal_strlit("g2");
    let rs = spec_compile(users);
    assert(has_prof(users));
    assert(rs.policies[0] == prof_policy(Action::Read));
    assert(rs.policies[1] == prof_policy(Action::Write));
    lemma_prof_subject_matches(users, pi);
    lemma_student_groups_contains(users, si);
    let sg = student_groups(users);
    let k = choose|k: int| 0 <= k < sg.len() && sg[k] == student_group(users[si].name);
    assert(rs.groups[k] == sg[k]);
    assert(resource_matches(rs.groups, res_of(users[si].name), res_all()));
    assert(rule_matches(rs, users[pi].name, res_of(users[si].name), Action::Read, rs.policies[0]));
    assert(rule_matches(rs, users[pi].name, res_of(users[si].name), Action::Write, rs.policies[1]));
}

/// Law (ownership, positive half): under any compiled rule set, every student
/// may read their own records.
pub proof fn lemma_student_reads_own(users: Seq<UserV>, si: int)
    requires
        dir_wf(users),
        0 <= si < users.len(),
        users[si].role == Role::STUDENT,
    ensures
        spec_authorize(spec_compile(users), users[si].name, res_of(users[si].name), Action::Read),
{
    let rs = spec_compile(users);
    lemma_student_policies_contains(users, si);
    let sp = student_policies(users);
    let k = choose|k: int| 0 <= k < sp.len() && sp[k] == student_policy(users[si].name);
    let base: int = if has_prof(users) {
        2
    } else {
        0
    };
    assert(rs.policies[base + k] == sp[k]);
    assert(rule_matches(
        rs,
        users[si].name,
        res_of(users[si].name),
        Action::Read,
        rs.policies[base + k],
    ));
}

/// Law (ownership, negative half): under any compiled rule set, a student can
/// never read another student's records.  The two subjects on which the claim
/// would be false are excluded: a student literally named like the professor
/// role label would match the blanket grants by name, and a student literally
/// named `all` would own the record group itself.
pub proof fn lemma_student_cannot_read_others(users: Seq<UserV>, si: int, ti: int)
    requires
        dir_wf(users),
        0 <= si < users.len(),
        0 <= ti < users.len(),
        users[si].role == Role::STUDENT,
        users[ti].role == Role::STUDENT,
        users[si].name != users[ti].name,
        users[si].name != spec_role_label(Role::PROF),
        users[si].name != "all"@,
    ensures
        !spec_authorize(spec_compile(users), users[si].name, res_of(users[ti].name), Action::Read),
{
    reveal_strlit("g");
    reveal_strlit("g2");
    let rs = spec_compile(users);
    let sub = users[si].name;
    let res = res_of(users[ti].name);
    lemma_compile_shape(users);
    assert(("g"@).len() != ("g2"@).len());

    // no grouping row makes this student a member of the professor role group,
    // and no grouping row links their resource claim falsely
    assert forall|k: int| 0 <= k < rs.groups.len() && (#[trigger] rs.groups[k]).g == "g"@
        && rs.groups[k].subject == sub implies false by {
        if exists|i: int|
            0 <= i < users.len() && (#[trigger] users[i]).role == Role::STUDENT
                && #[trigger] rs.groups[k] == student_group(users[i].name) {
            assert(rs.groups[k].g == "g2"@);
        } else {
            let w = choose|w: int|
                0 <= w < users.len() && (#[trigger] users[w]).role == Role::PROF && rs.groups[k]
                    == prof_group(users[w].name);
            assert(users[w].name == sub);
            lemma_distinct_names(users, w, si);
        }
    }

    if spec_authorize(rs, sub, res, Action::Read) {
        let j = choose|j: int|
            0 <= j < rs.policies.len() && rule_matches(
                rs,
                sub,
                res,
                Action::Read,
                #[trigger] rs.policies[j],
            );
        let rule = rs.policies[j];
        assert(subject_matches(rs.groups, sub, rule.subject));
        if rule == prof_policy(Action::Read) || rule == prof_policy(Action::Write) {
            // the blanket grants: this student is not the role label and not a
            // role member
            assert(sub != rule.subject);
            let k = choose|k: int|
                0 <= k < rs.groups.len() && (#[trigger] rs.groups[k]).g == "g"@
                    && rs.groups[k].subject == sub && rs.groups[k].group == rule.subject;
            assert(false);
        } else {
            let w = choose|w: int|
                0 <= w < users.len() && (#[trigger] users[w]).role == Role::STUDENT && rs.policies[j]
                    == student_policy(users[w].name);
            // the subject of a student's grant is that student's own name
            if sub != rule.subject {
                let k = choose|k: int|
                    0 <= k < rs.groups.len() && (#[trigger] rs.groups[k]).g == "g"@
                        && rs.groups[k].subject == sub && rs.groups[k].group == rule.subject;
                assert(false);
            }
            assert(users[w].name == sub);
            if w != si {
                lemma_distinct_names(users, w, si);
            }
            assert(rule.object == res_of(sub));
            // their own resource is not the requested one, nor a group that
            // contains it
            assert(resource_matches(rs.groups, res, rule.object));
            if res == rule.object {
                lemma_res_of_injective(users[ti].name, sub);
            } else {
                let k = choose|k: int|
                    0 <= k < rs.groups.len() && (#[trigger] rs.groups[k]).g == "g2"@
                        && rs.groups[k].subject == res && rs.groups[k].group == rule.object;
                if exists|i: int|
                    0 <= i < users.len() && (#[trigger] users[i]).role == Role::STUDENT
                        && #[trigger] rs.groups[k] == student_group(users[i].name) {
                    assert(rs.groups[k].group == res_all());
                    lemma_res_all_decomp(sub);
                } else {
                    let x = choose|x: int|
                        0 <= x < users.len() && (#[trigger] users[x]).role == Role::PROF
                            && rs.groups[k] == prof_group(users[x].name);
                    assert(rs.groups[k].g == "g"@);
                }
            }
        }
    }
}

/// Law: a request for the `NONE` action is always denied, whatever the rule
/// set holds, whoever asks, whatever the resource.
pub proof fn lemma_none_never_authorized(rs: RuleSetV, sub: Seq<char>, res: Seq<char>)
    requires
        rules_wf(rs),
    ensures
        !spec_authorize(rs, sub, res, Action::NONE),
{
    if spec_authorize(rs, sub, res, Action::NONE) {
        let j = choose|j: int|
            0 <= j < rs.policies.len() && rule_matches(
                rs,
                sub,
                res,
                Action::NONE,
                #[trigger] rs.policies[j],
            );
        assert(crate::policy_writer::policy_row_wf(rs.policies[j]));
    }
}

} // verus!
