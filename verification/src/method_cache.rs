use vstd::prelude::*;

use crate::code::CompiledMethod;
use crate::text::str_eq;

verus! {

/// Compiled methods by name; a later method of a name stands in front of an earlier one.
pub struct MethodCache {
    entries: Vec<(String, CompiledMethod)>,
}

/// The method stored under `name`: that of the first entry of the name.
pub open spec fn method_of(entries: Seq<(String, CompiledMethod)>, name: Seq<char>) -> Option<CompiledMethod>
    decreases entries.len(),
{
    if entries.len() == 0 {
        None
    } else if entries[0].0@ == name {
        Some(entries[0].1)
    } else {
        method_of(entries.drop_first(), name)
    }
}

impl MethodCache {
    /// The method stored under `name`, if any.
    pub closed spec fn spec_get(&self, name: Seq<char>) -> Option<CompiledMethod> {
        method_of(self.entries@, name)
    }

    /// A cache without methods.
    pub fn new() -> (c: Self)
        ensures
            forall|n: Seq<char>| c.spec_get(n) is None,
    {
        MethodCache { entries: Vec::new() }
    }

    /// Stores `meth` under `name`, in place of any method stored under it before.
    pub fn add(&mut self, name: &str, meth: CompiledMethod)
        ensures
            final(self).spec_get(name@) == Some(meth),
            forall|n: Seq<char>| n != name@ ==> #[trigger] final(self).spec_get(n) == old(self).spec_get(n),
    {
        let ghost old_entries = self.entries@;
        self.entries.insert(0, (name.to_owned(), meth));
        proof {
            assert(self.entries@.drop_first() =~= old_entries);
        }
    }

    /// The method stored under `name`, if any.
    pub fn get(&self, name: &str) -> (r: Option<&CompiledMethod>)
        ensures
            match r {
                Some(m) => self.spec_get(name@) == Some(*m),
                None => self.spec_get(name@) is None,
            },
    {
        let mut i: usize = 0;
        proof {
            assert(self.entries@.skip(0) =~= self.entries@);
        }
        while i < self.entries.len()
            invariant
                i <= self.entries@.len(),
                method_of(self.entries@, name@) == method_of(self.entries@.skip(i as int), name@),
            decreases self.entries.len() - i,
        {
            proof {
                assert(self.entries@.skip(i as int).drop_first() =~= self.entries@.skip(i + 1));
            }
            if str_eq(self.entries[i].0.as_str(), name) {
                return Some(&self.entries[i].1);
            }
            i = i + 1;
        }
        None
    }
}

} // verus!
