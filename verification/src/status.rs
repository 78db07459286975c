//! The last operation outcome, kept as a value for the presentation
//! layer to read back, never as process-wide shared state.

use vstd::prelude::*;

verus! {

/// The most recent outcome text, if any was reported yet.
pub struct Status {
    last_result: Option<String>,
}

impl View for Status {
    type V = Option<Seq<char>>;

    closed spec fn view(&self) -> Option<Seq<char>> {
        match self.last_result {
            Some(s) => Some(s@),
            None => None,
        }
    }
}

impl Status {
    /// A status that has had no outcome reported yet.
    pub fn new() -> (r: Status)
        ensures
            r@ is None,
    {
        Status { last_result: None }
    }

    /// Record an outcome text.
    pub fn set_status(&mut self, msg: &str)
        ensures
            final(self)@ == Some(msg@),
    {
        self.last_result = Some(String::from_str(msg));
    }

    /// The recorded outcome text; when none was recorded yet, the neutral
    /// text `Ok` is recorded and returned.
    pub fn status(&mut self) -> (r: String)
        ensures
            old(self)@ is None ==> r@ == "Ok"@,
            old(self)@ matches Some(s) ==> r@ == s && final(self)@ == old(self)@,
            final(self)@ == Some(r@),
    {
        if self.last_result.is_none() {
            self.last_result = Some(String::from_str("Ok"));
        }
        match &self.last_result {
            Some(s) => s.clone(),
            None => {
                proof {
                    assert(false);
                }
                String::new()
            },
        }
    }
}

} // verus!
