//! Terminal sessions. A session has an identifier; it carries no terminal
//! yet, so nothing is written and nothing is read.

use vstd::prelude::*;

verus! {

/// Makes a random identifier with `uuid::Uuid::new_v4` and writes it in the
/// hyphenated form, which is 36 characters long. Two calls differ. Where the
/// system's source of randomness fails, `uuid::Uuid::new_v4` panics.
#[verifier::external_body]
fn new_session_id() -> (id: String)
    ensures
        id@.len() == 36,
{
    uuid::Uuid::new_v4().to_string()
}

pub struct PTYSession {
    master: Vec<u8>,
    session_id: String,
}

impl PTYSession {
    /// The identifier of the session.
    pub closed spec fn id(&self) -> Seq<char> {
        self.session_id@
    }

    /// A new session with a fresh identifier.
    pub fn new() -> (s: Self)
        ensures
            s.id().len() == 36,
    {
        PTYSession { master: Vec::new(), session_id: new_session_id() }
    }

    /// Takes input for the terminal. There is none: the input is dropped.
    pub fn write(&self, data: &[u8]) {
    }

    /// Reads what the terminal wrote into `buf`. There is none: the buffer
    /// is zeroed and nothing is read.
    pub fn read(&self, buf: &mut Vec<u8>) -> (n: usize)
        ensures
            n == 0,
            final(buf)@.len() == old(buf)@.len(),
            forall|i: int| 0 <= i < final(buf)@.len() ==> final(buf)@[i] == 0,
    {
        let mut i: usize = 0;
        while i < buf.len()
            invariant
                i <= buf@.len(),
                buf@.len() == old(buf)@.len(),
                forall|j: int| 0 <= j < i ==> buf@[j] == 0,
            decreases buf.len() - i,
        {
            buf.set(i, 0);
            i += 1;
        }
        0
    }

    /// The identifier of the session.
    pub fn session_id(&self) -> (id: &str)
        ensures
            id@ == self.id(),
    {
        self.session_id.as_str()
    }

    /// Takes the size of the terminal's window. There is no terminal: the
    /// size is dropped.
    pub fn resize(&self, rows: u16, cols: u16) {
    }
}

} // verus!
