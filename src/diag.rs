//! Non-fatal, attributable failures collected during one build pass.

use vstd::prelude::*;
use crate::paths::{file_name, file_name_of};

verus! {

/// One failure, with the file it concerns named in its message.
pub struct Diagnostic {
    pub message: String,
}

/// The name under which a diagnostic cites `path`.
pub open spec fn cited_name(path: Seq<char>) -> Seq<char> {
    match file_name_of(path) {
        Some(n) => n,
        None => "<unknown>"@,
    }
}

/// The message of a diagnostic on the file at `path` for `error`.
pub open spec fn error_message(path: Seq<char>, error: Seq<char>) -> Seq<char> {
    "Error in file "@ + cited_name(path) + ": "@ + error + "\n"@
}

/// The diagnostics of one build pass, in the order they were reported.
pub struct Diagnostics {
    pub items: Vec<Diagnostic>,
}

impl Diagnostics {
    pub open spec fn messages(&self) -> Seq<Seq<char>> {
        self.items@.map_values(|d: Diagnostic| d.message@)
    }

    /// An empty log, as each pass starts with.
    pub fn new() -> (r: Diagnostics)
        ensures
            r.messages() == Seq::<Seq<char>>::empty(),
    {
        let r = Diagnostics { items: Vec::new() };
        assert(r.messages() =~= Seq::<Seq<char>>::empty());
        r
    }

    pub fn is_empty(&self) -> (r: bool)
        ensures
            r == (self.messages().len() == 0),
    {
        self.items.len() == 0
    }

    pub fn len(&self) -> (r: usize)
        ensures
            r == self.messages().len(),
    {
        self.items.len()
    }

    /// The message of the `i`-th diagnostic.
    pub fn message(&self, i: usize) -> (r: &String)
        requires
            i < self.messages().len(),
        ensures
            r@ == self.messages()[i as int],
    {
        &self.items[i].message
    }

    /// Appends a diagnostic with `message`.
    pub fn push(&mut self, message: String)
        ensures
            final(self).messages() == old(self).messages().push(message@),
    {
        let ghost m = message@;
        self.items.push(Diagnostic { message });
        assert(self.messages() =~= old(self).messages().push(m));
    }

    /// Empties the log, so that the next pass starts from no diagnostics.
    pub fn clear(&mut self)
        ensures
            final(self).messages() == Seq::<Seq<char>>::empty(),
    {
        self.items.clear();
        assert(self.messages() =~= Seq::<Seq<char>>::empty());
    }
}

impl Diagnostic {
    /// Reports `error` against the file at `file`, without interrupting the pass.
    pub fn push_error(log: &mut Diagnostics, file: &str, error: &str)
        ensures
            final(log).messages() == old(log).messages().push(error_message(file@, error@)),
    {
        let mut m = String::from_str("Error in file ");
        match file_name(file) {
            Some(n) => m.append(n.as_str()),
            None => m.append("<unknown>"),
        }
        m.append(": ");
        m.append(error);
        m.append("\n");
        proof {
            reveal_strlit("Error in file ");
            reveal_strlit("<unknown>");
            reveal_strlit(": ");
            reveal_strlit("\n");
        }
        assert(m@ =~= error_message(file@, error@));
        log.push(m);
    }
}

} // verus!
