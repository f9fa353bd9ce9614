//! A snapshot of environment variables, as the caller read them.

use vstd::prelude::*;
use crate::table::{keys_sorted, lookup, Table};

verus! {

/// Environment variables by name.
#[derive(Clone, Debug)]
pub struct Environment {
    vars: Table<String>,
}

impl View for Environment {
    type V = Seq<(Seq<char>, Seq<char>)>;

    closed spec fn view(&self) -> Self::V {
        self.vars@
    }
}

impl Environment {
    /// Names are held in order, each once.
    pub open spec fn wf(&self) -> bool {
        keys_sorted(self@)
    }

    /// The value of `name`, if it is defined.
    pub open spec fn value_of(&self, name: Seq<char>) -> Option<Seq<char>> {
        lookup(self@, name)
    }

    /// An environment in which nothing is defined.
    pub fn new() -> (r: Environment)
        ensures
            r@ == Seq::<(Seq<char>, Seq<char>)>::empty(),
            r.wf(),
    {
        Environment { vars: Table::new() }
    }

    /// Defines `name` as `value`, replacing an earlier value.
    pub fn set(&mut self, name: String, value: String)
        requires
            old(self).wf(),
        ensures
            final(self).wf(),
            forall|n: Seq<char>| #[trigger] final(self).value_of(n) == if n == name@ {
                Some(value@)
            } else {
                old(self).value_of(n)
            },
    {
        let ghost s = self.vars@;
        self.vars.insert(name, value);
        proof {
            crate::table::lemma_sorted_insert_lookup(s, name@, value@);
        }
    }

    /// The value of `name`.
    pub fn get(&self, name: &str) -> (r: Option<&String>)
        ensures
            r is Some == self.value_of(name@) is Some,
            r is Some ==> r->0@ == self.value_of(name@)->0,
    {
        self.vars.get(name)
    }
}

} // verus!
