//! Questions about names, put to whoever can answer them.
use vstd::prelude::*;
use crate::collections::NameSet;

verus! {

/// A question can be asked of every name, and the answer depends on the name alone.
pub open spec fn steady<F: Fn(&str) -> bool>(f: F) -> bool {
    &&& forall|s: &str| #[trigger] f.requires((s,))
    &&& forall|a: &str, b: &str, x: bool, y: bool|
        #[trigger] f.ensures((a,), x) && #[trigger] f.ensures((b,), y) && a@ == b@ ==> x == y
}

/// The answer to a question is yes.
pub open spec fn says<F: Fn(&str) -> bool>(f: F, name: Seq<char>) -> bool {
    exists|s: &str| s@ == name && #[trigger] f.ensures((s,), true)
}

/// A question, as the set of names for which the answer is yes.
pub open spec fn answers<F: Fn(&str) -> bool>(f: F) -> spec_fn(Seq<char>) -> bool {
    |name: Seq<char>| says(f, name)
}

/// Something that a question about a name can be put to.
pub trait Question {
    /// The question can be put.
    spec fn open_to_all(&self) -> bool;

    /// The names for which the answer is yes.
    spec fn yes(&self) -> spec_fn(Seq<char>) -> bool;

    /// Puts the question.
    fn put(&self, name: &str) -> (r: bool)
        requires
            self.open_to_all(),
        ensures
            r == self.yes()(name@),
    ;
}

/// A function that answers questions.
pub struct Asking<'a, F: Fn(&str) -> bool>(pub &'a F);

impl<'a, F: Fn(&str) -> bool> Question for Asking<'a, F> {
    open spec fn open_to_all(&self) -> bool {
        steady(*self.0)
    }

    open spec fn yes(&self) -> spec_fn(Seq<char>) -> bool {
        answers(*self.0)
    }

    fn put(&self, name: &str) -> (r: bool) {
        let f = self.0;
        let r: bool = f(name);
        r
    }
}

/// The names in a set.
pub open spec fn among(names: Set<Seq<char>>) -> spec_fn(Seq<char>) -> bool {
    |name: Seq<char>| names.contains(name)
}

impl Question for NameSet {
    open spec fn open_to_all(&self) -> bool {
        true
    }

    open spec fn yes(&self) -> spec_fn(Seq<char>) -> bool {
        among(self@)
    }

    fn put(&self, name: &str) -> (r: bool) {
        self.contains(name)
    }
}

} // verus!
