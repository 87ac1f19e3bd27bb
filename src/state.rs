//! The wiki's configuration, read once at start-up.
use vstd::prelude::*;

verus! {

/// What `str::trim` returns: it depends on the characters alone.
pub uninterp spec fn trim_of(s: Seq<char>) -> Seq<char>;

/// Relies on `str::trim`: `s` without leading and trailing white space.
#[verifier::external_body]
fn trimmed(s: &str) -> (r: String)
    ensures
        r@ == trim_of(s@),
{
    s.trim().to_string()
}

/// The wiki's name and the access code that unlocks it.
#[derive(Debug, Clone)]
pub struct State {
    name: String,
    access_code: String,
}

impl State {
    /// The name and the access code of a wiki.
    pub closed spec fn view(&self) -> (Seq<char>, Seq<char>) {
        (self.name@, self.access_code@)
    }

    /// A wiki named `name`, unlocked by `access_code`.
    pub fn new(name: String, access_code: String) -> (r: State)
        ensures
            r@ == (name@, access_code@),
    {
        State { name, access_code }
    }

    /// The wiki's name.
    pub fn name(&self) -> (r: &str)
        ensures
            r@ == self@.0,
    {
        self.name.as_str()
    }

    /// Whether `password`, without surrounding white space, is the access code.
    pub fn is_access_code_correct(&self, password: &str) -> (r: bool)
        ensures
            r == (self@.1 == trim_of(password@)),
    {
        let given = trimmed(password);
        self.access_code == given
    }
}

} // verus!
