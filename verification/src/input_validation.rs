use vstd::prelude::*;

verus! {

/// An upper- or lower-case ASCII letter.
pub open spec fn is_letter(c: char) -> bool {
    (65 <= c as u32 <= 90) || (97 <= c as u32 <= 122)
}

/// A user name typed at the prompt must be 3 to 12 ASCII letters.
pub open spec fn valid_username(s: Seq<char>) -> bool {
    &&& 3 <= s.len() <= 12
    &&& forall|i: int| 0 <= i < s.len() ==> is_letter(#[trigger] s[i])
}

/// Input validator for user names: 3 to 12 ASCII letters, nothing else.
pub fn is_usr_n_valid(input: &String) -> (r: bool)
    ensures
        r == valid_username(input@),
{
    let s = input.as_str();
    let n = s.unicode_len();
    if n < 3 || n > 12 {
        return false;
    }
    let mut i: usize = 0;
    while i < n
        invariant
            0 <= i <= n,
            n == s@.len(),
            s@ == input@,
            forall|j: int| 0 <= j < i ==> is_letter(#[trigger] s@[j]),
        decreases n - i,
    {
        let c = s.get_char(i);
        let v = c as u32;
        if !((65 <= v && v <= 90) || (97 <= v && v <= 122)) {
            return false;
        }
        i += 1;
    }
    true
}

} // verus!
