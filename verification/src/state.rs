use vstd::prelude::*;

verus! {

/// Session state handed to the console layer: whether a login succeeded and
/// the path prefix under which record resources are named.
pub struct State {
    pub authenticated: bool,
    pub grades_res_prefix: String,
}

impl State {
    /// A fresh, unauthenticated session.
    pub fn new() -> (r: State)
        ensures
            !r.authenticated,
            r.grades_res_prefix@ == "records/"@,
    {
        State { authenticated: false, grades_res_prefix: String::from_str("records/") }
    }
}

} // verus!
