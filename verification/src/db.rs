use vstd::prelude::*;

verus! {

use crate::access_control::AccessControl;
use crate::codec::{hash_ok, name_ok};
use crate::encryption::{b64_of, cipher_of, encrypt_string, ConversionError};
use crate::policy_writer::res_of;
use crate::user::{Action, Role, User, UserV};
use dryoc::classic::crypto_secretbox::{Key, Nonce};

/// The user directory: a mapping from name to account, held as a vector whose
/// names are unique.
#[derive(Debug)]
pub struct UserDb {
    pub users: Vec<User>,
}

impl View for UserDb {
    type V = Seq<UserV>;

    open spec fn view(&self) -> Seq<UserV> {
        self.users@.map_values(|u: User| u@)
    }
}

/// Well-formed directory: names are unique, every name is a plain stored name,
/// every hash is separator-free, and no account carries the `NONE` sentinel.
pub open spec fn dir_wf(d: Seq<UserV>) -> bool {
    &&& forall|i: int, j: int| 0 <= i < j < d.len() ==> d[i].name != d[j].name
    &&& forall|i: int| 0 <= i < d.len() ==> name_ok((#[trigger] d[i]).name)
    &&& forall|i: int| 0 <= i < d.len() ==> hash_ok((#[trigger] d[i]).pwd_hash)
    &&& forall|i: int| 0 <= i < d.len() ==> (#[trigger] d[i]).role != Role::NONE
}

impl UserDb {
    /// An empty directory.
    pub fn new() -> (r: UserDb)
        ensures
            r@ == Seq::<UserV>::empty(),
            dir_wf(r@),
    {
        let r = UserDb { users: Vec::new() };
        assert(r@ =~= Seq::<UserV>::empty());
        r
    }

    /// Index of the account named `name`, if any.
    pub fn find(&self, name: &str) -> (r: Option<usize>)
        ensures
            match r {
                Some(i) => 0 <= i < self@.len() && self@[i as int].name == name@,
                None => forall|i: int| 0 <= i < self@.len() ==> (#[trigger] self@[i]).name != name@,
            },
    {
        let mut i: usize = 0;
        let n = self.users.len();
        while i < n
            invariant
                0 <= i <= n,
                n == self@.len(),
                forall|j: int| 0 <= j < i ==> (#[trigger] self@[j]).name != name@,
            decreases n - i,
        {
            if crate::codec::str_eq(self.users[i].name.as_str(), name) {
                return Some(i);
            }
            i += 1;
        }
        None
    }

    /// The account named `name`, if any.
    pub fn get(&self, name: &str) -> (r: Option<&User>)
        ensures
            match r {
                Some(u) => exists|i: int|
                    0 <= i < self@.len() && self@[i] == u@ && u@.name == name@,
                None => forall|i: int| 0 <= i < self@.len() ==> (#[trigger] self@[i]).name != name@,
            },
    {
        match self.find(name) {
            Some(i) => {
                let u = &self.users[i];
                assert(self@[i as int] == u@);
                Some(u)
            },
            None => None,
        }
    }

    /// Insert `u`, replacing any account of the same name.
    pub fn insert(&mut self, u: User)
        requires
            dir_wf(old(self)@),
            name_ok(u@.name),
            hash_ok(u@.pwd_hash),
            u@.role != Role::NONE,
        ensures
            dir_wf(final(self)@),
            // the inserted account is present
            exists|i: int| 0 <= i < final(self)@.len() && final(self)@[i] == u@,
            // every other account is kept unchanged
            forall|v: UserV|
                v.name != u@.name ==> (final(self)@.contains(v) <==> old(self)@.contains(v)),
            final(self)@.len() <= old(self)@.len() + 1,
    {
        let ghost pre = self@;
        match self.find(u.name.as_str()) {
            Some(i) => {
                let ghost uv = u@;
                self.users[i] = u;
                assert(self@ =~= pre.update(i as int, uv));
                assert(self@[i as int] == uv);
                assert forall|v: UserV| v.name != uv.name implies (self@.contains(v) <==> pre.contains(
                    v,
                )) by {
                    if self@.contains(v) {
                        let k = choose|k: int| 0 <= k < self@.len() && self@[k] == v;
                        assert(pre[k] == v);
                    }
                    if pre.contains(v) {
                        let k = choose|k: int| 0 <= k < pre.len() && pre[k] == v;
                        assert(self@[k] == v);
                    }
                }
            },
            None => {
                let ghost uv = u@;
                self.users.push(u);
                assert(self@ =~= pre.push(uv));
                assert(self@[pre.len() as int] == uv);
                assert forall|v: UserV| v.name != uv.name implies (self@.contains(v) <==> pre.contains(
                    v,
                )) by {
                    if self@.contains(v) {
                        let k = choose|k: int| 0 <= k < self@.len() && self@[k] == v;
                        if k < pre.len() {
                            assert(pre[k] == v);
                        }
                    }
                    if pre.contains(v) {
                        let k = choose|k: int| 0 <= k < pre.len() && pre[k] == v;
                        assert(self@[k] == v);
                    }
                }
            },
        }
    }

    /// Number of accounts.
    pub fn len(&self) -> (r: usize)
        ensures
            r == self@.len(),
    {
        self.users.len()
    }
}

/// Is an account of this name present in the directory?
pub fn user_exits(db: &UserDb, username: &str) -> (r: bool)
    ensures
        r == exists|i: int| 0 <= i < db@.len() && (#[trigger] db@[i]).name == username@,
{
    match db.find(username) {
        Some(_) => true,
        None => false,
    }
}


/// Why a stored table could not be loaded or saved.
#[derive(Debug, Copy, Clone, PartialEq, Eq, Structural)]
pub enum StoreError {
    /// The store is encrypted but no key file was found: fatal.
    MissingKey,
    /// The store is encrypted but no nonce file was found: fatal.
    MissingNonce,
    /// A key or nonce file holds something that is not key material: fatal.
    BadKeyMaterial,
    /// The store is neither readable plaintext nor a ciphertext that passes
    /// its integrity check: fatal, never an empty table.
    Corrupt,
}

/// The in-memory record store: each subject's ordered, append-only scores.
#[derive(Debug)]
pub struct GradeDb {
    pub entries: Vec<(String, Vec<u32>)>,
}

/// The views of the record entries.
pub open spec fn entries_view(v: Seq<(String, Vec<u32>)>) -> Seq<(Seq<char>, Seq<u32>)> {
    v.map_values(|e: (String, Vec<u32>)| (e.0@, e.1@))
}

impl View for GradeDb {
    type V = Seq<(Seq<char>, Seq<u32>)>;

    open spec fn view(&self) -> Seq<(Seq<char>, Seq<u32>)> {
        entries_view(self.entries@)
    }
}

impl GradeDb {
    /// An empty record store.
    pub fn new() -> (r: GradeDb)
        ensures
            r@ == Seq::<(Seq<char>, Seq<u32>)>::empty(),
            crate::codec::records_wf(r@),
    {
        let r = GradeDb { entries: Vec::new() };
        proof {
            assert(r@ =~= Seq::<(Seq<char>, Seq<u32>)>::empty());
        }
        r
    }

    /// Index of the entry for `name`, if any.
    pub fn find(&self, name: &str) -> (r: Option<usize>)
        ensures
            match r {
                Some(i) => 0 <= i < self@.len() && self@[i as int].0 == name@,
                None => forall|i: int| 0 <= i < self@.len() ==> (#[trigger] self@[i]).0 != name@,
            },
    {
        let mut i: usize = 0;
        let n = self.entries.len();
        while i < n
            invariant
                0 <= i <= n,
                n == self@.len(),
                forall|j: int| 0 <= j < i ==> (#[trigger] self@[j]).0 != name@,
            decreases n - i,
        {
            if crate::codec::str_eq(self.entries[i].0.as_str(), name) {
                proof {
                    assert(self@[i as int].0 == self.entries@[i as int].0@);
                }
                return Some(i);
            }
            i += 1;
        }
        None
    }
}

proof fn lemma_render_grades_snoc(gs: Seq<u32>, t: int)
    requires
        0 <= t < gs.len(),
    ensures
        crate::codec::render_grades(gs.take(t + 1)) == crate::codec::render_grades(gs.take(t)) + (
        if t == 0 {
            crate::codec::render_grade(gs[0])
        } else {
            seq![','] + crate::codec::render_grade(gs[t])
        }),
    decreases t,
{
    if t == 0 {
        assert(gs.take(1).len() == 1);
        assert(gs.take(1)[0] == gs[0]);
        assert(crate::codec::render_grades(gs.take(0)) =~= Seq::<char>::empty());
        assert(crate::codec::render_grades(gs.take(1)) =~= Seq::<char>::empty()
            + crate::codec::render_grade(gs[0]));
    } else {
        let a = gs.take(t + 1);
        let b = gs.take(t);
        assert(a.len() >= 2);
        assert(b.len() >= 1);
        assert(a[0] == gs[0]);
        assert(b[0] == gs[0]);
        assert(a.skip(1) =~= gs.skip(1).take(t));
        assert(b.skip(1) =~= gs.skip(1).take(t - 1));
        lemma_render_grades_snoc(gs.skip(1), t - 1);
        assert(gs.skip(1)[t - 1] == gs[t]);
        if t == 1 {
            assert(crate::codec::render_grades(b) == crate::codec::render_grade(gs[0]));
            assert(crate::codec::render_grades(a) == crate::codec::render_grade(gs[0]) + seq![',']
                + crate::codec::render_grades(gs.skip(1).take(1)));
            assert(gs.skip(1).take(1).len() == 1);
            assert(gs.skip(1).take(1)[0] == gs[1]);
            assert(crate::codec::render_grades(gs.skip(1).take(1)) == crate::codec::render_grade(
                gs[1],
            ));
            assert(crate::codec::render_grades(a) =~= crate::codec::render_grades(b) + (seq![',']
                + crate::codec::render_grade(gs[t])));
        } else {
            assert(crate::codec::render_grades(a) == crate::codec::render_grade(gs[0]) + seq![',']
                + crate::codec::render_grades(gs.skip(1).take(t)));
            assert(crate::codec::render_grades(b) == crate::codec::render_grade(gs[0]) + seq![',']
                + crate::codec::render_grades(gs.skip(1).take(t - 1)));
            assert(crate::codec::render_grades(a) =~= crate::codec::render_grades(b) + (seq![',']
                + crate::codec::render_grade(gs[t])));
        }
    }
}

/// The two digit characters of one score.
fn push_grade(out: &mut Vec<char>, g: u32)
    requires
        g <= crate::codec::GRADE_MAX,
    ensures
        final(out)@ == old(out)@ + crate::codec::render_grade(g),
{
    let d1 = ((48 + g / 10) as u8) as char;
    let d2 = ((48 + g % 10) as u8) as char;
    out.push(d1);
    out.push(d2);
    proof {
        assert(final(out)@ =~= old(out)@ + crate::codec::render_grade(g));
    }
}

/// The characters of one score list.
fn push_grades(out: &mut Vec<char>, gs: &Vec<u32>)
    requires
        forall|t: int| 0 <= t < gs@.len() ==> gs@[t] <= crate::codec::GRADE_MAX,
    ensures
        final(out)@ == old(out)@ + crate::codec::render_grades(gs@),
{
    let n = gs.len();
    let mut t: usize = 0;
    while t < n
        invariant
            0 <= t <= n,
            n == gs@.len(),
            forall|u: int| 0 <= u < gs@.len() ==> gs@[u] <= crate::codec::GRADE_MAX,
            out@ == old(out)@ + crate::codec::render_grades(gs@.take(t as int)),
        decreases n - t,
    {
        let ghost pre = out@;
        if t > 0 {
            out.push(',');
        }
        push_grade(out, gs[t]);
        proof {
            lemma_render_grades_snoc(gs@, t as int);
            if t == 0 {
                assert(out@ =~= pre + crate::codec::render_grade(gs@[0]));
            } else {
                assert(out@ =~= pre + (seq![','] + crate::codec::render_grade(gs@[t as int])));
            }
            assert(out@ =~= old(out)@ + crate::codec::render_grades(gs@.take(t + 1)));
        }
        t += 1;
    }
    proof {
        assert(gs@.take(n as int) =~= gs@);
    }
}

proof fn lemma_render_records_concat(a: Seq<(Seq<char>, Seq<u32>)>, b: Seq<(Seq<char>, Seq<u32>)>)
    ensures
        crate::codec::render_records(a + b) == crate::codec::render_records(a)
            + crate::codec::render_records(b),
    decreases a.len(),
{
    if a.len() == 0 {
        assert(a + b =~= b);
        assert(crate::codec::render_records(a) + crate::codec::render_records(b)
            =~= crate::codec::render_records(b));
    } else {
        assert((a + b).len() > 0);
        assert((a + b)[0] == a[0]);
        assert((a + b).skip(1) =~= a.skip(1) + b);
        lemma_render_records_concat(a.skip(1), b);
        assert(crate::codec::render_record_line(a[0].0, a[0].1) + (crate::codec::render_records(
            a.skip(1),
        ) + crate::codec::render_records(b)) =~= (crate::codec::render_record_line(a[0].0, a[0].1)
            + crate::codec::render_records(a.skip(1))) + crate::codec::render_records(b));
    }
}

/// The canonical text of the record store.
pub fn render_records_text(db: &GradeDb) -> (r: String)
    requires
        crate::codec::records_wf(db@),
    ensures
        r@ == crate::codec::render_records(db@),
{
    let mut out: Vec<char> = Vec::new();
    let n = db.entries.len();
    let mut i: usize = 0;
    while i < n
        invariant
            0 <= i <= n,
            n == db@.len(),
            crate::codec::records_wf(db@),
            out@ == crate::codec::render_records(db@.take(i as int)),
        decreases n - i,
    {
        let ghost pre = out@;
        let name_chars = crate::codec::str_chars(db.entries[i].0.as_str());
        let mut t: usize = 0;
        let m = name_chars.len();
        while t < m
            invariant
                0 <= t <= m,
                m == name_chars@.len(),
                out@ == pre + name_chars@.take(t as int),
            decreases m - t,
        {
            out.push(name_chars[t]);
            proof {
                assert(out@ =~= pre + name_chars@.take(t + 1));
            }
            t += 1;
        }
        proof {
            assert(name_chars@.take(m as int) =~= name_chars@);
        }
        out.push(':');
        proof {
            assert(db@[i as int].1 == db.entries@[i as int].1@);
        }
        push_grades(&mut out, &db.entries[i].1);
        out.push('\n');
        proof {
            let e = db@[i as int];
            assert(out@ =~= pre + crate::codec::render_record_line(e.0, e.1));
            assert(db@.take(i + 1) =~= db@.take(i as int) + seq![e]);
            lemma_render_records_concat(db@.take(i as int), seq![e]);
            assert(seq![e].skip(1) =~= Seq::<(Seq<char>, Seq<u32>)>::empty());
            assert(seq![e].len() == 1 && seq![e][0] == e);
            assert(crate::codec::render_records(seq![e]) == crate::codec::render_record_line(
                e.0,
                e.1,
            ) + crate::codec::render_records(seq![e].skip(1)));
            assert(crate::codec::render_records(Seq::<(Seq<char>, Seq<u32>)>::empty())
                == Seq::<char>::empty());
            assert(crate::codec::render_records(seq![e]) =~= crate::codec::render_record_line(
                e.0,
                e.1,
            ));
            assert(out@ =~= crate::codec::render_records(db@.take(i + 1)));
        }
        i += 1;
    }
    proof {
        assert(db@.take(n as int) =~= db@);
    }
    crate::codec::chars_to_string(&out)
}


fn is_alnum_exec(c: char) -> (r: bool)
    ensures
        r == crate::codec::is_alnum(c),
{
    let n = c as u32;
    (48 <= n && n <= 57) || (65 <= n && n <= 90) || (97 <= n && n <= 122)
}

fn is_hash_char_exec(c: char) -> (r: bool)
    ensures
        r == crate::codec::is_hash_char(c),
{
    let n = c as u32;
    33 <= n && n <= 126 && c != ':'
}

fn scan_name_exec(v: &Vec<char>, i: usize) -> (r: usize)
    requires
        i <= v@.len(),
    ensures
        r == crate::codec::scan_name(v@, i as int),
        i <= r <= v@.len(),
{
    let n = v.len();
    let mut k: usize = i;
    while k < n && is_alnum_exec(v[k])
        invariant
            i <= k <= n,
            n == v@.len(),
            crate::codec::scan_name(v@, i as int) == crate::codec::scan_name(v@, k as int),
        decreases n - k,
    {
        k += 1;
    }
    k
}

fn scan_hash_exec(v: &Vec<char>, i: usize) -> (r: usize)
    requires
        i <= v@.len(),
    ensures
        r == crate::codec::scan_hash(v@, i as int),
        i <= r <= v@.len(),
{
    let n = v.len();
    let mut k: usize = i;
    while k < n && is_hash_char_exec(v[k])
        invariant
            i <= k <= n,
            n == v@.len(),
            crate::codec::scan_hash(v@, i as int) == crate::codec::scan_hash(v@, k as int),
        decreases n - k,
    {
        k += 1;
    }
    k
}

fn parse_grade_list_exec(v: &Vec<char>, i: usize) -> (r: Option<(Vec<u32>, usize)>)
    ensures
        match r {
            Option::Some((gs, k)) => crate::codec::parse_grade_list(v@, i as int) == Some(
                (gs@, k as int),
            ) && i < k <= v@.len(),
            Option::None => crate::codec::parse_grade_list(v@, i as int) is None,
        },
    decreases v@.len() - i,
{
    let n = v.len();
    if i >= n || n - i <= 2 {
        return None;
    }
    let c0 = v[i] as u32;
    let c1 = v[i + 1] as u32;
    if !(48 <= c0 && c0 <= 57 && 48 <= c1 && c1 <= 57) {
        return None;
    }
    let g = 10 * (c0 - 48) + (c1 - 48);
    if g > crate::codec::GRADE_MAX {
        return None;
    }
    if v[i + 2] == '\n' {
        let mut out: Vec<u32> = Vec::new();
        out.push(g);
        proof {
            assert(out@ =~= seq![g]);
        }
        return Some((out, i + 3));
    }
    if v[i + 2] == ',' {
        match parse_grade_list_exec(v, i + 3) {
            Option::None => None,
            Option::Some((mut gs, k)) => {
                let ghost tail = gs@;
                gs.insert(0, g);
                proof {
                    assert(gs@ =~= seq![g] + tail);
                }
                Some((gs, k))
            },
        }
    } else {
        None
    }
}

fn parse_grades_exec(v: &Vec<char>, i: usize) -> (r: Option<(Vec<u32>, usize)>)
    ensures
        match r {
            Option::Some((gs, k)) => crate::codec::parse_grades(v@, i as int) == Some(
                (gs@, k as int),
            ) && i < k <= v@.len(),
            Option::None => crate::codec::parse_grades(v@, i as int) is None,
        },
{
    if i < v.len() && v[i] == '\n' {
        let out: Vec<u32> = Vec::new();
        proof {
            assert(out@ =~= Seq::<u32>::empty());
        }
        Some((out, i + 1))
    } else {
        parse_grade_list_exec(v, i)
    }
}

fn parse_records_exec(v: &Vec<char>, i: usize) -> (r: Option<(Vec<(String, Vec<u32>)>, usize)>)
    requires
        i <= v@.len(),
    ensures
        match r {
            Option::Some((m, e)) => crate::codec::parse_records(v@, i as int) == Some(
                (entries_view(m@), e as int),
            ) && i <= e <= v@.len(),
            Option::None => crate::codec::parse_records(v@, i as int) is None,
        },
    decreases v@.len() - i,
{
    let n = v.len();
    if i >= n {
        let e: Vec<(String, Vec<u32>)> = Vec::new();
        proof {
            assert(entries_view(e@) =~= Seq::<(Seq<char>, Seq<u32>)>::empty());
        }
        return Some((e, i));
    }
    let j = scan_name_exec(v, i);
    if !(i < j && j < n && v[j] == ':') {
        return None;
    }
    let name = crate::codec::extract_string(v, i, j);
    match parse_grades_exec(v, j + 1) {
        Option::None => None,
        Option::Some((gs, k)) => {
            let ghost gsv = gs@;
            match parse_records_exec(v, k) {
                Option::None => None,
                Option::Some((mut m, e)) => {
                    let ghost tail = entries_view(m@);
                    let ghost namev = name@;
                    m.insert(0, (name, gs));
                    proof {
                        assert(entries_view(m@) =~= seq![(namev, gsv)] + tail);
                    }
                    Some((m, e))
                },
            }
        },
    }
}

fn entry_names_unique(entries: &Vec<(String, Vec<u32>)>) -> (r: bool)
    ensures
        r == crate::codec::names_unique(entries_view(entries@)),
{
    let n = entries.len();
    let ghost ev = entries_view(entries@);
    let mut i: usize = 0;
    while i < n
        invariant
            0 <= i <= n,
            n == ev.len(),
            ev == entries_view(entries@),
            forall|a: int, b: int| 0 <= a < b < i ==> ev[a].0 != ev[b].0,
        decreases n - i,
    {
        let mut j: usize = 0;
        while j < i
            invariant
                0 <= j <= i < n,
                n == ev.len(),
                ev == entries_view(entries@),
                forall|a: int, b: int| 0 <= a < b < i ==> ev[a].0 != ev[b].0,
                forall|a: int| 0 <= a < j ==> ev[a].0 != ev[i as int].0,
            decreases i - j,
        {
            if crate::codec::str_eq(entries[j].0.as_str(), entries[i].0.as_str()) {
                proof {
                    assert(ev[j as int].0 == ev[i as int].0);
                }
                return false;
            }
            j += 1;
        }
        i += 1;
    }
    true
}

/// Load a record table from its canonical text: `None` when the text is
/// malformed or names a subject twice.
pub fn parse_records_text(t: &str) -> (r: Option<GradeDb>)
    ensures
        match r {
            Option::Some(db) => crate::codec::spec_parse_records(t@) == Some(db@)
                && crate::codec::records_wf(db@),
            Option::None => crate::codec::spec_parse_records(t@) is None,
        },
{
    proof {
        crate::codec::lemma_parse_records_sound(t@);
    }
    let v = crate::codec::str_chars(t);
    match parse_records_exec(&v, 0) {
        Option::None => None,
        Option::Some((entries, _e)) => {
            if entry_names_unique(&entries) {
                Some(GradeDb { entries })
            } else {
                None
            }
        },
    }
}

fn role_char_exec(r: Role) -> (c: char)
    ensures
        c == crate::codec::role_char(r),
{
    match r {
        Role::STUDENT => 'S',
        Role::PROF => 'P',
        Role::NONE => 'N',
    }
}

proof fn lemma_render_users_concat(a: Seq<UserV>, b: Seq<UserV>)
    ensures
        crate::codec::render_users(a + b) == crate::codec::render_users(a)
            + crate::codec::render_users(b),
    decreases a.len(),
{
    if a.len() == 0 {
        assert(a + b =~= b);
        assert(crate::codec::render_users(a) + crate::codec::render_users(b)
            =~= crate::codec::render_users(b));
    } else {
        assert((a + b).len() > 0);
        assert((a + b)[0] == a[0]);
        assert((a + b).skip(1) =~= a.skip(1) + b);
        lemma_render_users_concat(a.skip(1), b);
        assert(crate::codec::render_user_line(a[0]) + (crate::codec::render_users(a.skip(1))
            + crate::codec::render_users(b)) =~= (crate::codec::render_user_line(a[0])
            + crate::codec::render_users(a.skip(1))) + crate::codec::render_users(b));
    }
}

/// The canonical text of the user directory.
pub fn render_users_text(db: &UserDb) -> (r: String)
    ensures
        r@ == crate::codec::render_users(db@),
{
    let mut out: Vec<char> = Vec::new();
    let n = db.users.len();
    let mut i: usize = 0;
    while i < n
        invariant
            0 <= i <= n,
            n == db@.len(),
            out@ == crate::codec::render_users(db@.take(i as int)),
        decreases n - i,
    {
        let ghost pre = out@;
        let u = &db.users[i];
        proof {
            assert(db@[i as int] == u@);
        }
        let name_chars = crate::codec::str_chars(u.name.as_str());
        let mut t: usize = 0;
        let m = name_chars.len();
        while t < m
            invariant
                0 <= t <= m,
                m == name_chars@.len(),
                out@ == pre + name_chars@.take(t as int),
            decreases m - t,
        {
            out.push(name_chars[t]);
            proof {
                assert(out@ =~= pre + name_chars@.take(t + 1));
            }
            t += 1;
        }
        proof {
            assert(name_chars@.take(m as int) =~= name_chars@);
        }
        out.push(':');
        out.push(role_char_exec(u.role));
        out.push(':');
        let ghost mid = out@;
        let hash_chars = crate::codec::str_chars(u.pwd_hash.as_str());
        let mut t: usize = 0;
        let m2 = hash_chars.len();
        while t < m2
            invariant
                0 <= t <= m2,
                m2 == hash_chars@.len(),
                out@ == mid + hash_chars@.take(t as int),
            decreases m2 - t,
        {
            out.push(hash_chars[t]);
            proof {
                assert(out@ =~= mid + hash_chars@.take(t + 1));
            }
            t += 1;
        }
        proof {
            assert(hash_chars@.take(m2 as int) =~= hash_chars@);
        }
        out.push('\n');
        proof {
            let uv = db@[i as int];
            assert(out@ =~= pre + crate::codec::render_user_line(uv));
            assert(db@.take(i + 1) =~= db@.take(i as int) + seq![uv]);
            lemma_render_users_concat(db@.take(i as int), seq![uv]);
            assert(seq![uv].skip(1) =~= Seq::<UserV>::empty());
            assert(seq![uv].len() == 1 && seq![uv][0] == uv);
            assert(crate::codec::render_users(seq![uv]) == crate::codec::render_user_line(uv)
                + crate::codec::render_users(seq![uv].skip(1)));
            assert(crate::codec::render_users(Seq::<UserV>::empty()) == Seq::<char>::empty());
            assert(out@ =~= crate::codec::render_users(db@.take(i + 1)));
        }
        i += 1;
    }
    proof {
        assert(db@.take(n as int) =~= db@);
    }
    crate::codec::chars_to_string(&out)
}

fn parse_users_exec(v: &Vec<char>, i: usize) -> (r: Option<(Vec<User>, usize)>)
    requires
        i <= v@.len(),
    ensures
        match r {
            Option::Some((d, e)) => crate::codec::parse_users(v@, i as int) == Some(
                (d@.map_values(|u: User| u@), e as int),
            ) && i <= e <= v@.len(),
            Option::None => crate::codec::parse_users(v@, i as int) is None,
        },
    decreases v@.len() - i,
{
    let n = v.len();
    if i >= n {
        let e: Vec<User> = Vec::new();
        proof {
            assert(e@.map_values(|u: User| u@) =~= Seq::<UserV>::empty());
        }
        return Some((e, i));
    }
    let j = scan_name_exec(v, i);
    if !(i < j && j < n && n - j > 3 && v[j] == ':' && v[j + 2] == ':') {
        return None;
    }
    let role = if v[j + 1] == 'S' {
        Role::STUDENT
    } else if v[j + 1] == 'P' {
        Role::PROF
    } else {
        return None;
    };
    let h = scan_hash_exec(v, j + 3);
    if !(h < n && v[h] == '\n') {
        return None;
    }
    let name = crate::codec::extract_string(v, i, j);
    let pwd_hash = crate::codec::extract_string(v, j + 3, h);
    let user = User { name, pwd_hash, role };
    let ghost uv = user@;
    match parse_users_exec(v, h + 1) {
        Option::None => None,
        Option::Some((mut d, e)) => {
            let ghost tail = d@.map_values(|u: User| u@);
            d.insert(0, user);
            proof {
                assert(d@.map_values(|u: User| u@) =~= seq![uv] + tail);
            }
            Some((d, e))
        },
    }
}

fn user_names_unique_exec(users: &Vec<User>) -> (r: bool)
    ensures
        r == crate::codec::user_names_unique(users@.map_values(|u: User| u@)),
{
    let n = users.len();
    let ghost uvs = users@.map_values(|u: User| u@);
    let mut i: usize = 0;
    while i < n
        invariant
            0 <= i <= n,
            n == uvs.len(),
            uvs == users@.map_values(|u: User| u@),
            forall|a: int, b: int| 0 <= a < b < i ==> uvs[a].name != uvs[b].name,
        decreases n - i,
    {
        let mut j: usize = 0;
        while j < i
            invariant
                0 <= j <= i < n,
                n == uvs.len(),
                uvs == users@.map_values(|u: User| u@),
                forall|a: int, b: int| 0 <= a < b < i ==> uvs[a].name != uvs[b].name,
                forall|a: int| 0 <= a < j ==> uvs[a].name != uvs[i as int].name,
            decreases i - j,
        {
            if crate::codec::str_eq(users[j].name.as_str(), users[i].name.as_str()) {
                proof {
                    assert(uvs[j as int].name == uvs[i as int].name);
                }
                return false;
            }
            j += 1;
        }
        i += 1;
    }
    true
}

/// Load the user directory from its plaintext form.  A malformed directory is
/// a fatal configuration error, never an empty directory.
pub fn read_usr_db(contents: &str) -> (r: Result<UserDb, StoreError>)
    ensures
        match r {
            Result::Ok(db) => crate::codec::spec_parse_users(contents@) == Some(db@) && dir_wf(db@),
            Result::Err(e) => crate::codec::spec_parse_users(contents@) is None && e
                == StoreError::Corrupt,
        },
{
    proof {
        crate::codec::lemma_parse_users_sound(contents@);
    }
    let v = crate::codec::str_chars(contents);
    match parse_users_exec(&v, 0) {
        Option::None => Err(StoreError::Corrupt),
        Option::Some((users, _e)) => {
            if user_names_unique_exec(&users) {
                Ok(UserDb { users })
            } else {
                Err(StoreError::Corrupt)
            }
        },
    }
}


/// The resource path that guards one subject's records.
pub fn resource_for(name: &str) -> (r: String)
    ensures
        r@ == res_of(name@),
{
    let mut r = String::from_str("records/");
    r.append(name);
    r
}

/// The scores of `student_name`, if the requester is authorized to read them
/// and the subject has an entry; `None` otherwise, with nothing disclosed
/// about which of the two failed.
pub fn get_student_grades(
    student_name: &str,
    requester: &User,
    db: &GradeDb,
    access: &AccessControl,
) -> (r: Option<Vec<u32>>)
    ensures
        match r {
            Option::Some(gs) => access.spec_check(requester@.name, res_of(student_name@), Action::Read)
                && exists|i: int|
                0 <= i < db@.len() && (#[trigger] db@[i]).0 == student_name@ && gs@ == db@[i].1,
            Option::None => !access.spec_check(requester@.name, res_of(student_name@), Action::Read)
                || forall|i: int| 0 <= i < db@.len() ==> (#[trigger] db@[i]).0 != student_name@,
        },
{
    let resource = resource_for(student_name);
    let is_authorized = access.check_authorization(
        requester.name.as_str(),
        resource.as_str(),
        Action::Read,
    );
    if is_authorized {
        match db.find(student_name) {
            Option::Some(i) => {
                let gs = db.entries[i].1.clone();
                proof {
                    assert(db@[i as int].1 == db.entries@[i as int].1@);
                    assert(gs@ =~= db.entries@[i as int].1@);
                }
                Some(gs)
            },
            Option::None => None,
        }
    } else {
        None
    }
}

/// Append a score to `student_name`'s records, if the requester is authorized
/// to write them; an unauthorized request leaves the store untouched.
pub fn add_grade(
    student_name: &str,
    requester: &User,
    grade: u32,
    db: &mut GradeDb,
    access: &AccessControl,
) -> (r: Option<()>)
    requires
        crate::codec::records_wf(old(db)@),
        grade <= crate::codec::GRADE_MAX,
        name_ok(student_name@),
    ensures
        crate::codec::records_wf(final(db)@),
        !access.spec_check(requester@.name, res_of(student_name@), Action::Write) ==> r is None
            && final(db)@ == old(db)@,
        access.spec_check(requester@.name, res_of(student_name@), Action::Write) ==> r is Some && (
        (exists|i: int|
            0 <= i < old(db)@.len() && (#[trigger] old(db)@[i]).0 == student_name@ && final(db)@
                == old(db)@.update(i, (old(db)@[i].0, old(db)@[i].1.push(grade as u32)))) || ((
        forall|i: int| 0 <= i < old(db)@.len() ==> (#[trigger] old(db)@[i]).0 != student_name@)
            && final(db)@ == old(db)@.push((student_name@, seq![grade as u32])))),
{
    let ghost pre = db@;
    let resource = resource_for(student_name);
    let is_authorized = access.check_authorization(
        requester.name.as_str(),
        resource.as_str(),
        Action::Write,
    );
    if !is_authorized {
        return None;
    }
    match db.find(student_name) {
        Option::Some(i) => {
            let mut entry = db.entries.remove(i);
            entry.1.push(grade);
            let ghost ev = (entry.0@, entry.1@);
            db.entries.insert(i, entry);
            proof {
                assert(db@ =~= pre.update(i as int, ev));
                assert(ev == (pre[i as int].0, pre[i as int].1.push(grade as u32)));
                assert forall|a: int, b: int| 0 <= a < b < db@.len() implies db@[a].0 != db@[b].0 by {
                    assert(pre[a].0 == db@[a].0 || a == i);
                    assert(pre[b].0 == db@[b].0 || b == i);
                }
            }
            Some(())
        },
        Option::None => {
            let name = student_name.to_owned();
            let mut gs: Vec<u32> = Vec::new();
            gs.push(grade);
            let ghost ev = (name@, gs@);
            db.entries.push((name, gs));
            proof {
                assert(ev.1 =~= seq![grade as u32]);
                assert(db@ =~= pre.push((student_name@, seq![grade as u32])));
                assert forall|a: int, b: int| 0 <= a < b < db@.len() implies db@[a].0 != db@[b].0 by {
                    if b < pre.len() {
                        assert(db@[a] == pre[a] && db@[b] == pre[b]);
                    } else {
                        assert(db@[a] == pre[a]);
                        assert(db@[b].0 == student_name@);
                    }
                }
            }
            Some(())
        },
    }
}

/// Authenticate a user: look the name up, then run exactly one full credential
/// check — against the stored record when the account exists, against nothing
/// (the verifier's decoy path) when it does not.
pub fn login(db: &UserDb, username: &str, password: &str) -> (r: Option<User>)
    requires
        dir_wf(db@),
    ensures
        match r {
            Option::Some(u) => exists|i: int|
                0 <= i < db@.len() && (#[trigger] db@[i]) == u@ && u@.name == username@
                    && crate::hashing::spec_verify_outcome(password@, u@.pwd_hash),
            Option::None => forall|i: int|
                0 <= i < db@.len() && (#[trigger] db@[i]).name == username@
                    ==> !crate::hashing::spec_verify_outcome(password@, db@[i].pwd_hash),
        },
{
    match db.get(username) {
        Option::Some(u) => {
            if crate::hashing::compare_pwd_with_hash(password, u.pwd_hash.as_str()) {
                let found = u.clone();
                Some(found)
            } else {
                proof {
                    let w = choose|w: int|
                        0 <= w < db@.len() && db@[w] == u@ && u@.name == username@;
                    assert forall|i: int|
                        0 <= i < db@.len() && (#[trigger] db@[i]).name == username@
                            implies !crate::hashing::spec_verify_outcome(
                            password@,
                            db@[i].pwd_hash,
                        ) by {
                        if i != w {
                            assert(db@[i].name != db@[w].name);
                        }
                    }
                }
                None
            }
        },
        Option::None => {
            // the account does not exist: still pay for one full hash cycle
            let _ = crate::hashing::compare_pwd_with_hash(password, "");
            None
        },
    }
}

/// Serialize and encrypt the record store and serialize the user directory:
/// what the two table files must be replaced with at the explicit save point.
/// The record text is sealed under `key` and `nonce`; the directory stays
/// plaintext.
pub fn save_db(grades: &GradeDb, users: &UserDb, key: &Key, nonce: &Nonce) -> (r: Result<
    (Vec<u8>, String),
    ConversionError,
>)
    requires
        crate::codec::records_wf(grades@),
    ensures
        r is Ok,
        r matches Ok(out) ==> out.0@ == cipher_of(
            crate::codec::render_records(grades@),
            key@,
            nonce@,
        ) && out.1@ == crate::codec::render_users(users@),
{
    let clear = render_records_text(grades);
    let cipher = match encrypt_string(&clear, key, nonce) {
        Ok(c) => c,
        Err(e) => {
            return Err(e);
        },
    };
    let users_text = render_users_text(users);
    Ok((cipher, users_text))
}

/// Load the record store from the bytes of its file.
///
/// The file is first taken for canonical plaintext (`file_text` is the file
/// decoded as text, where that was possible): the one-time transition path
/// from an unencrypted legacy store.  Failing that, the file is taken for
/// ciphertext: the key and nonce files are required (missing material is
/// fatal), and a ciphertext that does not decrypt and parse back is reported
/// as corruption, never as an empty store.
pub fn read_grades_db(
    file_bytes: &Vec<u8>,
    file_text: Option<&String>,
    key_text: Option<&String>,
    nonce_text: Option<&String>,
) -> (r: Result<GradeDb, StoreError>)
    ensures
        (file_text matches Some(t) && crate::codec::spec_parse_records(t@) is Some) ==> r is Ok
            && Some(r->Ok_0@) == crate::codec::spec_parse_records(file_text->0@),
        r is Ok ==> crate::codec::records_wf(r->Ok_0@),
        forall|m: Seq<(Seq<char>, Seq<u32>)>, k: Seq<u8>, n: Seq<u8>|
            {
                &&& (match file_text {
                    Option::Some(t) => crate::codec::spec_parse_records(t@) is None,
                    Option::None => true,
                })
                &&& (key_text matches Some(ks) && ks@ == b64_of(k) && k.len() == 32)
                &&& (nonce_text matches Some(ns) && ns@ == b64_of(n) && n.len() == 24)
                &&& crate::codec::records_wf(m)
                &&& file_bytes@ == #[trigger] cipher_of(crate::codec::render_records(m), k, n)
            } ==> r is Ok && r->Ok_0@ == m,
        ((match file_text {
            Option::Some(t) => crate::codec::spec_parse_records(t@) is None,
            Option::None => true,
        }) && key_text is None) ==> r == Err::<GradeDb, StoreError>(StoreError::MissingKey),
        ((match file_text {
            Option::Some(t) => crate::codec::spec_parse_records(t@) is None,
            Option::None => true,
        }) && key_text is Some && nonce_text is None) ==> r == Err::<GradeDb, StoreError>(
            StoreError::MissingNonce,
        ),
{
    if let Some(t) = file_text {
        if let Some(db) = parse_records_text(t.as_str()) {
            return Ok(db);
        }
    }
    let ks = match key_text {
        Option::Some(ks) => ks,
        Option::None => {
            return Err(StoreError::MissingKey);
        },
    };
    let ns = match nonce_text {
        Option::Some(ns) => ns,
        Option::None => {
            return Err(StoreError::MissingNonce);
        },
    };
    let key_bytes = match crate::encryption::read_b64_from_file(ks.as_str()) {
        Ok(v) => v,
        Err(_) => {
            return Err(StoreError::BadKeyMaterial);
        },
    };
    let key = match crate::encryption::vec_to_key(key_bytes) {
        Option::Some(k) => k,
        Option::None => {
            return Err(StoreError::BadKeyMaterial);
        },
    };
    let nonce_bytes = match crate::encryption::read_b64_from_file(ns.as_str()) {
        Ok(v) => v,
        Err(_) => {
            return Err(StoreError::BadKeyMaterial);
        },
    };
    let nonce = match crate::encryption::vec_to_nonce(nonce_bytes) {
        Option::Some(n) => n,
        Option::None => {
            return Err(StoreError::BadKeyMaterial);
        },
    };
    let clear = match crate::encryption::decrypt_to_string(file_bytes, &key, &nonce) {
        Ok(s) => s,
        Err(_) => {
            return Err(StoreError::Corrupt);
        },
    };
    match parse_records_text(clear.as_str()) {
        Option::Some(db) => {
            proof {
                assert forall|m: Seq<(Seq<char>, Seq<u32>)>, k: Seq<u8>, n: Seq<u8>|
                    crate::codec::records_wf(m) && k == key@ && n == nonce@ && file_bytes@
                        == #[trigger] cipher_of(crate::codec::render_records(m), k, n) implies db@
                    == m by {
                    assert(clear@ == crate::codec::render_records(m));
                    crate::codec::lemma_records_round_trip(m);
                }
            }
            Ok(db)
        },
        Option::None => {
            proof {
                assert forall|m: Seq<(Seq<char>, Seq<u32>)>, k: Seq<u8>, n: Seq<u8>|
                    crate::codec::records_wf(m) && k == key@ && n == nonce@ && file_bytes@
                        == #[trigger] cipher_of(crate::codec::render_records(m), k, n) implies false by {
                    assert(clear@ == crate::codec::render_records(m));
                    crate::codec::lemma_records_round_trip(m);
                }
            }
            Err(StoreError::Corrupt)
        },
    }
}

} // verus!
