use vstd::prelude::*;

verus! {

use crate::input_validation::is_letter;
use crate::user::{Role, UserV};

/// An ASCII decimal digit.
pub open spec fn is_digit(c: char) -> bool {
    48 <= c as u32 <= 57
}

/// An ASCII letter or digit: the alphabet of stored names.
pub open spec fn is_alnum(c: char) -> bool {
    is_digit(c) || is_letter(c)
}

/// A name that may appear as a key of a stored table or as a field of a rule
/// row: non-empty, letters and digits only.
pub open spec fn name_ok(s: Seq<char>) -> bool {
    &&& s.len() > 0
    &&& forall|i: int| 0 <= i < s.len() ==> is_alnum(#[trigger] s[i])
}

/// `pat` occurs in `s` starting at position `i`.
pub open spec fn matches_at(s: Seq<char>, i: int, pat: Seq<char>) -> bool {
    &&& 0 <= i
    &&& i + pat.len() <= s.len()
    &&& s.subrange(i, i + pat.len()) == pat
}

/// Character-for-character equality of two string slices.
pub fn str_eq(a: &str, b: &str) -> (r: bool)
    ensures
        r == (a@ == b@),
{
    let sa = a.to_owned();
    let sb = b.to_owned();
    sa == sb
}

/// The characters of a string slice, as a vector.
pub fn str_chars(s: &str) -> (r: Vec<char>)
    ensures
        r@ == s@,
{
    let n = s.unicode_len();
    let mut r: Vec<char> = Vec::new();
    let mut i: usize = 0;
    while i < n
        invariant
            0 <= i <= n,
            n == s@.len(),
            r@ == s@.subrange(0, i as int),
        decreases n - i,
    {
        r.push(s.get_char(i));
        i += 1;
    }
    assert(r@ =~= s@);
    r
}

/// Relies on `String: FromIterator<char>`: collecting a sequence of characters
/// yields the string of exactly those characters, in order.
#[verifier::external_body]
pub fn chars_to_string(v: &Vec<char>) -> (r: String)
    ensures
        r@ == v@,
{
    v.iter().collect()
}

/// Copy the characters `i..j` of `v` into a fresh vector.
pub fn copy_range(v: &Vec<char>, i: usize, j: usize) -> (r: Vec<char>)
    requires
        i <= j <= v@.len(),
    ensures
        r@ == v@.subrange(i as int, j as int),
{
    let mut r: Vec<char> = Vec::new();
    let mut k: usize = i;
    while k < j
        invariant
            i <= k <= j <= v@.len(),
            r@ == v@.subrange(i as int, k as int),
        decreases j - k,
    {
        r.push(v[k]);
        assert(r@ =~= v@.subrange(i as int, k + 1 as int));
        k += 1;
    }
    r
}

/// The characters `i..j` of `v`, as a string.
pub fn extract_string(v: &Vec<char>, i: usize, j: usize) -> (r: String)
    requires
        i <= j <= v@.len(),
    ensures
        r@ == v@.subrange(i as int, j as int),
{
    let part = copy_range(v, i, j);
    chars_to_string(&part)
}

/// Does `pat` occur in `v` starting at position `i`?
pub fn matches_lit(v: &Vec<char>, i: usize, pat: &str) -> (r: bool)
    ensures
        r == matches_at(v@, i as int, pat@),
{
    let m = pat.unicode_len();
    let n = v.len();
    if m > n || i > n - m {
        return false;
    }
    let mut k: usize = 0;
    while k < m
        invariant
            0 <= k <= m,
            m == pat@.len(),
            n == v@.len(),
            i + m <= n,
            forall|q: int| 0 <= q < k ==> v@[i + q] == pat@[q],
        decreases m - k,
    {
        let idx = i + k;
        if v[idx] != pat.get_char(k) {
            return false;
        }
        k += 1;
    }
    assert(v@.subrange(i as int, i + pat@.len()) =~= pat@);
    true
}


/// Largest storable score, in tenths of a grade point.
pub const GRADE_MAX: u32 = 60;

/// The digit character for one decimal digit.
pub open spec fn digit_char(d: u32) -> char
    recommends
        d < 10,
{
    ((48 + d) as u8) as char
}

/// Numeric value of one digit character.
pub open spec fn digit_val(c: char) -> u32
    recommends
        is_digit(c),
{
    (c as u32 - 48) as u32
}

/// A score as exactly two digits.
pub open spec fn render_grade(g: u32) -> Seq<char>
    recommends
        g <= 99,
{
    seq![digit_char(g / 10), digit_char(g % 10)]
}

/// A comma-separated score list.
pub open spec fn render_grades(gs: Seq<u32>) -> Seq<char>
    decreases gs.len(),
{
    if gs.len() == 0 {
        Seq::empty()
    } else if gs.len() == 1 {
        render_grade(gs[0])
    } else {
        render_grade(gs[0]) + seq![','] + render_grades(gs.skip(1))
    }
}

/// One line of the record store: the subject's name, a colon, the scores,
/// a line break.
pub open spec fn render_record_line(name: Seq<char>, gs: Seq<u32>) -> Seq<char> {
    name + seq![':'] + render_grades(gs) + seq!['\n']
}

/// The canonical text of a whole record table.
pub open spec fn render_records(m: Seq<(Seq<char>, Seq<u32>)>) -> Seq<char>
    decreases m.len(),
{
    if m.len() == 0 {
        Seq::empty()
    } else {
        render_record_line(m[0].0, m[0].1) + render_records(m.skip(1))
    }
}

/// First position at or after `i` that does not hold a letter or digit.
pub open spec fn scan_name(s: Seq<char>, i: int) -> int
    decreases s.len() - i,
{
    if i < 0 || i >= s.len() || !is_alnum(s[i]) {
        i
    } else {
        scan_name(s, i + 1)
    }
}

/// Read a non-empty score list followed by its line break.
pub open spec fn parse_grade_list(s: Seq<char>, i: int) -> Option<(Seq<u32>, int)>
    decreases s.len() - i,
{
    if !(0 <= i && i + 2 < s.len() && is_digit(s[i]) && is_digit(s[i + 1])) {
        None
    } else {
        let g = (10 * digit_val(s[i]) + digit_val(s[i + 1])) as u32;
        if g > GRADE_MAX {
            None
        } else if s[i + 2] == '\n' {
            Some((seq![g], i + 3))
        } else if s[i + 2] == ',' {
            match parse_grade_list(s, i + 3) {
                Option::None => None,
                Option::Some((gs, j)) => Some((seq![g] + gs, j)),
            }
        } else {
            None
        }
    }
}

/// Read a (possibly empty) score list followed by its line break.
pub open spec fn parse_grades(s: Seq<char>, i: int) -> Option<(Seq<u32>, int)> {
    if 0 <= i && i < s.len() && s[i] == '\n' {
        Some((Seq::empty(), i + 1))
    } else {
        parse_grade_list(s, i)
    }
}

/// Read record lines up to the end of the text.
pub open spec fn parse_records(s: Seq<char>, i: int) -> Option<(Seq<(Seq<char>, Seq<u32>)>, int)>
    decreases s.len() - i,
{
    if i < 0 {
        None
    } else if i >= s.len() {
        Some((Seq::empty(), i))
    } else {
        let j = scan_name(s, i);
        if !(i < j && j < s.len() && s[j] == ':') {
            None
        } else {
            match parse_grades(s, j + 1) {
                Option::None => None,
                Option::Some((gs, k)) => if !(i < k <= s.len()) {
                    None
                } else {
                    match parse_records(s, k) {
                        Option::None => None,
                        Option::Some((m, e)) => Some(
                            (seq![(s.subrange(i, j), gs)] + m, e),
                        ),
                    }
                },
            }
        }
    }
}

/// No two entries of the table name the same subject.
pub open spec fn names_unique(m: Seq<(Seq<char>, Seq<u32>)>) -> bool {
    forall|i: int, j: int| 0 <= i < j < m.len() ==> m[i].0 != m[j].0
}

/// A record table fit for storing: plain unique names, scores in range.
pub open spec fn records_wf(m: Seq<(Seq<char>, Seq<u32>)>) -> bool {
    &&& names_unique(m)
    &&& forall|i: int| 0 <= i < m.len() ==> name_ok((#[trigger] m[i]).0)
    &&& forall|i: int, t: int|
        0 <= i < m.len() && 0 <= t < m[i].1.len() ==> m[i].1[t] <= GRADE_MAX
}

/// Read a whole record table: lines to the end, names unique.
pub open spec fn spec_parse_records(s: Seq<char>) -> Option<Seq<(Seq<char>, Seq<u32>)>> {
    match parse_records(s, 0) {
        Option::None => None,
        Option::Some((m, e)) => if names_unique(m) {
            Some(m)
        } else {
            None
        },
    }
}


proof fn lemma_scan_name_stops(s: Seq<char>, i: int, j: int)
    requires
        0 <= i <= j <= s.len(),
        forall|k: int| i <= k < j ==> is_alnum(#[trigger] s[k]),
        j == s.len() || !is_alnum(s[j]),
    ensures
        scan_name(s, i) == j,
    decreases j - i,
{
    if i == j {
    } else {
        assert(is_alnum(s[i]));
        lemma_scan_name_stops(s, i + 1, j);
    }
}

proof fn lemma_digit_char_val(d: u32)
    requires
        d < 10,
    ensures
        is_digit(digit_char(d)),
        digit_val(digit_char(d)) == d,
        digit_char(d) != '\n',
        digit_char(d) != ',',
        digit_char(d) != ':',
{
    assert(digit_char(d) as u32 == 48 + d);
}

proof fn lemma_parse_grades_render(s: Seq<char>, i: int, gs: Seq<u32>)
    requires
        forall|t: int| 0 <= t < gs.len() ==> gs[t] <= GRADE_MAX,
        matches_at(s, i, render_grades(gs) + seq!['\n']),
    ensures
        parse_grades(s, i) == Some((gs, i + render_grades(gs).len() + 1)),
    decreases gs.len(),
{
    let total = render_grades(gs) + seq!['\n'];
    assert forall|k: int| i <= k < i + total.len() implies #[trigger] s[k] == total[k - i] by {
        assert(s.subrange(i, i + total.len())[k - i] == s[k]);
    }
    if gs.len() == 0 {
        assert(s[i] == '\n');
    } else {
        let g = gs[0];
        lemma_digit_char_val(g / 10);
        lemma_digit_char_val(g % 10);
        assert(render_grades(gs)[0] == digit_char(g / 10));
        assert(render_grades(gs)[1] == digit_char(g % 10));
        assert(s[i] == digit_char(g / 10));
        assert(s[i + 1] == digit_char(g % 10));
        assert(10 * digit_val(s[i]) + digit_val(s[i + 1]) == g);
        if gs.len() == 1 {
            assert(s[i + 2] == '\n');
            assert(parse_grade_list(s, i) == Some((seq![g], i + 3)));
            assert(seq![g] =~= gs);
        } else {
            assert(render_grades(gs)[2] == ',');
            assert(s[i + 2] == ',');
            let rest = render_grades(gs.skip(1)) + seq!['\n'];
            assert forall|t: int| 0 <= t < rest.len() implies s.subrange(
                i + 3,
                i + 3 + rest.len(),
            )[t] == rest[t] by {
                assert(s.subrange(i + 3, i + 3 + rest.len())[t] == s[i + 3 + t]);
                assert(total[3 + t] == rest[t]);
            }
            assert(s.subrange(i + 3, i + 3 + rest.len()) =~= rest);
            assert(matches_at(s, i + 3, rest));
            assert(forall|t: int| 0 <= t < gs.skip(1).len() ==> gs.skip(1)[t] <= GRADE_MAX);
            lemma_parse_grades_render(s, i + 3, gs.skip(1));
            assert(s[i + 3] == rest[0]);
            assert(gs.skip(1).len() > 0);
            lemma_digit_char_val(gs.skip(1)[0] / 10);
            assert(rest[0] == digit_char(gs.skip(1)[0] / 10));
            assert(s[i + 3] != '\n');
            assert(parse_grade_list(s, i + 3) == Some(
                (gs.skip(1), i + 3 + render_grades(gs.skip(1)).len() + 1),
            ));
            assert(seq![g] + gs.skip(1) =~= gs);
            assert(total.len() == 3 + rest.len());
        }
    }
}

#[verifier::rlimit(60)]
proof fn lemma_parse_records_render(s: Seq<char>, i: int, m: Seq<(Seq<char>, Seq<u32>)>)
    requires
        forall|t: int| 0 <= t < m.len() ==> name_ok((#[trigger] m[t]).0),
        forall|t: int, u: int| 0 <= t < m.len() && 0 <= u < m[t].1.len() ==> m[t].1[u] <= GRADE_MAX,
        0 <= i,
        i + render_records(m).len() == s.len(),
        s.subrange(i, i + render_records(m).len()) == render_records(m),
    ensures
        parse_records(s, i) == Some((m, s.len() as int)),
    decreases m.len(),
{
    if m.len() == 0 {
        assert(render_records(m).len() == 0);
        assert(Seq::<(Seq<char>, Seq<u32>)>::empty() =~= m);
    } else {
        let name = m[0].0;
        let gs = m[0].1;
        let line = render_record_line(name, gs);
        let rest = render_records(m.skip(1));
        assert(render_records(m) == line + rest);
        assert forall|k: int| i <= k < i + render_records(m).len() implies #[trigger] s[k]
            == render_records(m)[k - i] by {
            assert(s.subrange(i, i + render_records(m).len())[k - i] == s[k]);
        }
        assert(name_ok(m[0].0));
        let nn = name.len() as int;
        assert forall|k: int| i <= k < i + nn implies is_alnum(#[trigger] s[k]) by {
            assert(s[k] == render_records(m)[k - i]);
            assert(line[k - i] == name[k - i]);
        }
        assert(line[nn] == ':');
        assert(s[i + nn] == ':');
        assert(!is_alnum(':'));
        assert(i < s.len());
        lemma_scan_name_stops(s, i, i + nn);
        let j = i + nn;
        assert(s.subrange(i, j) =~= name) by {
            assert forall|t: int| 0 <= t < nn implies s.subrange(i, j)[t] == name[t] by {
                assert(s.subrange(i, j)[t] == s[i + t]);
                assert(line[t] == name[t]);
            }
        }
        // the score list with its line break sits right after the colon
        let seg = render_grades(gs) + seq!['\n'];
        assert(line =~= name + seq![':'] + seg);
        assert forall|t: int| 0 <= t < seg.len() implies s.subrange(j + 1, j + 1 + seg.len())[t]
            == seg[t] by {
            assert(s.subrange(j + 1, j + 1 + seg.len())[t] == s[j + 1 + t]);
            assert(render_records(m)[nn + 1 + t] == line[nn + 1 + t]);
            assert(line[nn + 1 + t] == seg[t]);
        }
        assert(s.subrange(j + 1, j + 1 + seg.len()) =~= seg);
        assert(matches_at(s, j + 1, seg));
        assert(forall|t: int| 0 <= t < gs.len() ==> gs[t] <= GRADE_MAX);
        lemma_parse_grades_render(s, j + 1, gs);
        let k = j + 1 + render_grades(gs).len() + 1;
        assert(k == i + line.len());
        assert forall|t: int| 0 <= t < rest.len() implies s.subrange(k, k + rest.len())[t]
            == rest[t] by {
            assert(s.subrange(k, k + rest.len())[t] == s[k + t]);
            assert(render_records(m)[line.len() + t] == rest[t]);
        }
        assert(s.subrange(k, k + rest.len()) =~= rest);
        assert(forall|t: int| 0 <= t < m.skip(1).len() ==> name_ok((#[trigger] m.skip(1)[t]).0));
        assert(forall|t: int, u: int|
            0 <= t < m.skip(1).len() && 0 <= u < m.skip(1)[t].1.len() ==> m.skip(1)[t].1[u]
                <= GRADE_MAX);
        lemma_parse_records_render(s, k, m.skip(1));
        assert((s.subrange(i, j), gs) == m[0]);
        assert(seq![m[0]] + m.skip(1) =~= m);
    }
}

/// Serialization fidelity: the canonical text of a well-formed record table
/// reads back as exactly that table.
pub proof fn lemma_records_round_trip(m: Seq<(Seq<char>, Seq<u32>)>)
    requires
        records_wf(m),
    ensures
        spec_parse_records(render_records(m)) == Some(m),
{
    let s = render_records(m);
    assert(s.subrange(0, s.len() as int) =~= s);
    lemma_parse_records_render(s, 0, m);
}


/// A character a stored password hash may hold: printable ASCII other than the
/// field separator.
pub open spec fn is_hash_char(c: char) -> bool {
    33 <= c as u32 <= 126 && c != ':'
}

/// A stored password hash: separator-free printable ASCII.
pub open spec fn hash_ok(s: Seq<char>) -> bool {
    forall|i: int| 0 <= i < s.len() ==> is_hash_char(#[trigger] s[i])
}

/// The letter under which a role is stored.
pub open spec fn role_char(r: Role) -> char {
    match r {
        Role::STUDENT => 'S',
        Role::PROF => 'P',
        Role::NONE => 'N',
    }
}

/// One line of the user directory: name, role letter, hash.
pub open spec fn render_user_line(u: UserV) -> Seq<char> {
    u.name + seq![':', role_char(u.role), ':'] + u.pwd_hash + seq!['\n']
}

/// The canonical text of a whole user directory.
pub open spec fn render_users(d: Seq<UserV>) -> Seq<char>
    decreases d.len(),
{
    if d.len() == 0 {
        Seq::empty()
    } else {
        render_user_line(d[0]) + render_users(d.skip(1))
    }
}

/// First position at or after `i` that does not hold a hash character.
pub open spec fn scan_hash(s: Seq<char>, i: int) -> int
    decreases s.len() - i,
{
    if i < 0 || i >= s.len() || !is_hash_char(s[i]) {
        i
    } else {
        scan_hash(s, i + 1)
    }
}

/// Read directory lines up to the end of the text.  Only the two real roles
/// are accepted: a directory never stores the sentinel.
pub open spec fn parse_users(s: Seq<char>, i: int) -> Option<(Seq<UserV>, int)>
    decreases s.len() - i,
{
    if i < 0 {
        None
    } else if i >= s.len() {
        Some((Seq::empty(), i))
    } else {
        let j = scan_name(s, i);
        if !(i < j && j + 3 < s.len() && s[j] == ':' && s[j + 2] == ':') {
            None
        } else {
            let role = if s[j + 1] == 'S' {
                Role::STUDENT
            } else if s[j + 1] == 'P' {
                Role::PROF
            } else {
                Role::NONE
            };
            if role == Role::NONE {
                None
            } else {
                let h = scan_hash(s, j + 3);
                if !(h < s.len() && s[h] == '\n') {
                    None
                } else {
                    let k = h + 1;
                    if !(i < k <= s.len()) {
                        None
                    } else {
                        match parse_users(s, k) {
                        Option::None => None,
                        Option::Some((d, e)) => Some(
                            (
                                seq![
                                    UserV {
                                        name: s.subrange(i, j),
                                        pwd_hash: s.subrange(j + 3, h),
                                        role,
                                    },
                                ] + d,
                                e,
                            ),
                        ),
                        }
                    }
                }
            }
        }
    }
}

/// No two directory entries share a name.
pub open spec fn user_names_unique(d: Seq<UserV>) -> bool {
    forall|i: int, j: int| 0 <= i < j < d.len() ==> d[i].name != d[j].name
}

/// Read a whole user directory: lines to the end, names unique.
pub open spec fn spec_parse_users(s: Seq<char>) -> Option<Seq<UserV>> {
    match parse_users(s, 0) {
        Option::None => None,
        Option::Some((d, e)) => if user_names_unique(d) {
            Some(d)
        } else {
            None
        },
    }
}

proof fn lemma_scan_hash_stops(s: Seq<char>, i: int, j: int)
    requires
        0 <= i <= j <= s.len(),
        forall|k: int| i <= k < j ==> is_hash_char(#[trigger] s[k]),
        j == s.len() || !is_hash_char(s[j]),
    ensures
        scan_hash(s, i) == j,
    decreases j - i,
{
    if i == j {
    } else {
        assert(is_hash_char(s[i]));
        lemma_scan_hash_stops(s, i + 1, j);
    }
}

#[verifier::rlimit(60)]
proof fn lemma_parse_users_render(s: Seq<char>, i: int, d: Seq<UserV>)
    requires
        forall|t: int| 0 <= t < d.len() ==> name_ok((#[trigger] d[t]).name),
        forall|t: int| 0 <= t < d.len() ==> hash_ok((#[trigger] d[t]).pwd_hash),
        forall|t: int| 0 <= t < d.len() ==> (#[trigger] d[t]).role != Role::NONE,
        0 <= i,
        i + render_users(d).len() == s.len(),
        s.subrange(i, i + render_users(d).len()) == render_users(d),
    ensures
        parse_users(s, i) == Some((d, s.len() as int)),
    decreases d.len(),
{
    if d.len() == 0 {
        assert(render_users(d).len() == 0);
        assert(Seq::<UserV>::empty() =~= d);
    } else {
        let u = d[0];
        let line = render_user_line(u);
        let rest = render_users(d.skip(1));
        assert(render_users(d) == line + rest);
        assert forall|k: int| i <= k < i + render_users(d).len() implies #[trigger] s[k]
            == render_users(d)[k - i] by {
            assert(s.subrange(i, i + render_users(d).len())[k - i] == s[k]);
        }
        let nn = u.name.len() as int;
        let nh = u.pwd_hash.len() as int;
        assert(line.len() == nn + 4 + nh);
        assert forall|k: int| i <= k < i + nn implies is_alnum(#[trigger] s[k]) by {
            assert(s[k] == render_users(d)[k - i]);
            assert(line[k - i] == u.name[k - i]);
        }
        assert(line[nn] == ':');
        assert(line[nn + 1] == role_char(u.role));
        assert(line[nn + 2] == ':');
        assert(line[nn + 3 + nh] == '\n');
        let j = i + nn;
        assert(s[j] == ':');
        assert(!is_alnum(':'));
        lemma_scan_name_stops(s, i, j);
        assert(s[j + 1] == role_char(u.role));
        assert(s[j + 2] == ':');
        assert forall|k: int| j + 3 <= k < j + 3 + nh implies is_hash_char(#[trigger] s[k]) by {
            assert(s[k] == render_users(d)[k - i]);
            assert(line[k - i] == u.pwd_hash[k - i - nn - 3]);
        }
        assert(s[j + 3 + nh] == '\n');
        assert(!is_hash_char('\n'));
        lemma_scan_hash_stops(s, j + 3, j + 3 + nh);
        let h = j + 3 + nh;
        assert(s.subrange(i, j) =~= u.name) by {
            assert forall|t: int| 0 <= t < nn implies s.subrange(i, j)[t] == u.name[t] by {
                assert(s.subrange(i, j)[t] == s[i + t]);
                assert(line[t] == u.name[t]);
            }
        }
        assert(s.subrange(j + 3, h) =~= u.pwd_hash) by {
            assert forall|t: int| 0 <= t < nh implies s.subrange(j + 3, h)[t] == u.pwd_hash[t] by {
                assert(s.subrange(j + 3, h)[t] == s[j + 3 + t]);
                assert(line[nn + 3 + t] == u.pwd_hash[t]);
            }
        }
        let k = h + 1;
        assert(k == i + line.len());
        assert forall|t: int| 0 <= t < rest.len() implies s.subrange(k, k + rest.len())[t]
            == rest[t] by {
            assert(s.subrange(k, k + rest.len())[t] == s[k + t]);
            assert(render_users(d)[line.len() + t] == rest[t]);
        }
        assert(s.subrange(k, k + rest.len()) =~= rest);
        assert(forall|t: int| 0 <= t < d.skip(1).len() ==> name_ok((#[trigger] d.skip(1)[t]).name));
        assert(forall|t: int|
            0 <= t < d.skip(1).len() ==> hash_ok((#[trigger] d.skip(1)[t]).pwd_hash));
        assert(forall|t: int| 0 <= t < d.skip(1).len() ==> (#[trigger] d.skip(1)[t]).role
            != Role::NONE);
        lemma_parse_users_render(s, k, d.skip(1));
        // the role letter decodes back to the role
        assert(role_char(u.role) != 'N');
        assert(UserV { name: s.subrange(i, j), pwd_hash: s.subrange(j + 3, h), role: u.role }
            == d[0]);
        assert(seq![d[0]] + d.skip(1) =~= d);
    }
}

/// Serialization fidelity for the user directory: the canonical text of a
/// well-formed directory reads back as exactly that directory.
pub proof fn lemma_users_round_trip(d: Seq<UserV>)
    requires
        user_names_unique(d),
        forall|t: int| 0 <= t < d.len() ==> name_ok((#[trigger] d[t]).name),
        forall|t: int| 0 <= t < d.len() ==> hash_ok((#[trigger] d[t]).pwd_hash),
        forall|t: int| 0 <= t < d.len() ==> (#[trigger] d[t]).role != Role::NONE,
    ensures
        spec_parse_users(render_users(d)) == Some(d),
{
    let s = render_users(d);
    assert(s.subrange(0, s.len() as int) =~= s);
    lemma_parse_users_render(s, 0, d);
}

proof fn lemma_scan_name_props(s: Seq<char>, i: int)
    requires
        0 <= i <= s.len(),
    ensures
        i <= scan_name(s, i) <= s.len(),
        forall|k: int| i <= k < scan_name(s, i) ==> is_alnum(#[trigger] s[k]),
    decreases s.len() - i,
{
    if i >= s.len() || !is_alnum(s[i]) {
    } else {
        lemma_scan_name_props(s, i + 1);
    }
}

proof fn lemma_scan_hash_props(s: Seq<char>, i: int)
    requires
        0 <= i <= s.len(),
    ensures
        i <= scan_hash(s, i) <= s.len(),
        forall|k: int| i <= k < scan_hash(s, i) ==> is_hash_char(#[trigger] s[k]),
    decreases s.len() - i,
{
    if i >= s.len() || !is_hash_char(s[i]) {
    } else {
        lemma_scan_hash_props(s, i + 1);
    }
}

/// Whatever record table the loader accepts is fit for storing.
pub proof fn lemma_parse_records_sound(s: Seq<char>)
    ensures
        match spec_parse_records(s) {
            Option::Some(m) => records_wf(m),
            Option::None => true,
        },
{
    lemma_parse_records_entries_sound(s, 0);
}

proof fn lemma_parse_records_entries_sound(s: Seq<char>, i: int)
    ensures
        match parse_records(s, i) {
            Option::Some((m, e)) => (forall|t: int|
                0 <= t < m.len() ==> name_ok((#[trigger] m[t]).0)) && (forall|t: int, u: int|
                0 <= t < m.len() && 0 <= u < m[t].1.len() ==> m[t].1[u] <= GRADE_MAX),
            Option::None => true,
        },
    decreases s.len() - i,
{
    if i < 0 || i >= s.len() {
    } else {
        let j = scan_name(s, i);
        if i < j && j < s.len() && s[j] == ':' {
            lemma_scan_name_props(s, i);
            assert forall|t: int| 0 <= t < s.subrange(i, j).len() implies is_alnum(
                #[trigger] s.subrange(i, j)[t],
            ) by {
                assert(s.subrange(i, j)[t] == s[i + t]);
            }
            match parse_grades(s, j + 1) {
                Option::None => {},
                Option::Some((gs, k)) => {
                    lemma_parse_grade_list_sound(s, j + 1);
                    if i < k <= s.len() {
                        lemma_parse_records_entries_sound(s, k);
                        match parse_records(s, k) {
                            Option::None => {},
                            Option::Some((m, e)) => {
                                let full = seq![(s.subrange(i, j), gs)] + m;
                                assert(forall|t: int|
                                    0 <= t < full.len() ==> name_ok((#[trigger] full[t]).0));
                                assert(forall|t: int, u: int|
                                    0 <= t < full.len() && 0 <= u < full[t].1.len() ==> full[t].1[u]
                                        <= GRADE_MAX);
                            },
                        }
                    }
                },
            }
        }
    }
}

proof fn lemma_parse_grade_list_sound(s: Seq<char>, i: int)
    ensures
        match parse_grades(s, i) {
            Option::Some((gs, k)) => forall|t: int| 0 <= t < gs.len() ==> gs[t] <= GRADE_MAX,
            Option::None => true,
        },
    decreases s.len() - i + 1,
{
    if 0 <= i && i < s.len() && s[i] == '\n' {
    } else {
        lemma_grade_list_only_sound(s, i);
    }
}

proof fn lemma_grade_list_only_sound(s: Seq<char>, i: int)
    ensures
        match parse_grade_list(s, i) {
            Option::Some((gs, k)) => forall|t: int| 0 <= t < gs.len() ==> gs[t] <= GRADE_MAX,
            Option::None => true,
        },
    decreases s.len() - i,
{
    if 0 <= i && i + 2 < s.len() && is_digit(s[i]) && is_digit(s[i + 1]) {
        let g = (10 * digit_val(s[i]) + digit_val(s[i + 1])) as u32;
        if g <= GRADE_MAX && s[i + 2] == ',' {
            lemma_grade_list_only_sound(s, i + 3);
            match parse_grade_list(s, i + 3) {
                Option::None => {},
                Option::Some((gs, j)) => {
                    assert(forall|t: int|
                        0 <= t < (seq![g] + gs).len() ==> (seq![g] + gs)[t] <= GRADE_MAX);
                },
            }
        }
    }
}

/// Whatever user directory the loader accepts is well-formed: unique plain
/// names, separator-free hashes, and no account with the `NONE` sentinel.
pub proof fn lemma_parse_users_sound(s: Seq<char>)
    ensures
        match spec_parse_users(s) {
            Option::Some(d) => user_names_unique(d) && (forall|t: int|
                0 <= t < d.len() ==> name_ok((#[trigger] d[t]).name)) && (forall|t: int|
                0 <= t < d.len() ==> hash_ok((#[trigger] d[t]).pwd_hash)) && (forall|t: int|
                0 <= t < d.len() ==> (#[trigger] d[t]).role != Role::NONE),
            Option::None => true,
        },
{
    lemma_parse_users_entries_sound(s, 0);
}

proof fn lemma_parse_users_entries_sound(s: Seq<char>, i: int)
    ensures
        match parse_users(s, i) {
            Option::Some((d, e)) => (forall|t: int|
                0 <= t < d.len() ==> name_ok((#[trigger] d[t]).name)) && (forall|t: int|
                0 <= t < d.len() ==> hash_ok((#[trigger] d[t]).pwd_hash)) && (forall|t: int|
                0 <= t < d.len() ==> (#[trigger] d[t]).role != Role::NONE),
            Option::None => true,
        },
    decreases s.len() - i,
{
    if i < 0 || i >= s.len() {
    } else {
        let j = scan_name(s, i);
        if i < j && j + 3 < s.len() && s[j] == ':' && s[j + 2] == ':' {
            lemma_scan_name_props(s, i);
            assert forall|t: int| 0 <= t < s.subrange(i, j).len() implies is_alnum(
                #[trigger] s.subrange(i, j)[t],
            ) by {
                assert(s.subrange(i, j)[t] == s[i + t]);
            }
            let h = scan_hash(s, j + 3);
            lemma_scan_hash_props(s, j + 3);
            assert forall|t: int| 0 <= t < s.subrange(j + 3, h).len() implies is_hash_char(
                #[trigger] s.subrange(j + 3, h)[t],
            ) by {
                assert(s.subrange(j + 3, h)[t] == s[j + 3 + t]);
            }
            if h < s.len() && s[h] == '\n' {
                lemma_parse_users_entries_sound(s, h + 1);
            }
        }
    }
}

} // verus!
