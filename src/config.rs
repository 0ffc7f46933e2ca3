//! The settings of the outputs, as the library reads them.
use vstd::prelude::*;

use crate::notify;

verus! {

/// Settings of every output.
pub struct Config {
    /// Desktop notifications.
    pub notify: notify::Config,
}

/// Settings kept per key, in order.
pub struct ConfigMap<V> {
    pub inner: Vec<(String, V)>,
}

/// The value of the first entry with `key`, if any.
pub open spec fn lookup<V>(entries: Seq<(String, V)>, key: Seq<char>) -> Option<V>
    decreases entries.len(),
{
    if entries.len() == 0 {
        None
    } else if entries[0].0@ == key {
        Some(entries[0].1)
    } else {
        lookup(entries.drop_first(), key)
    }
}

impl<V> ConfigMap<V> {
    /// The value of the first entry with `key`, if any.
    pub fn get(&self, key: &String) -> (r: Option<&V>)
        ensures
            r is None <==> lookup(self.inner@, key@) is None,
            r matches Some(v) ==> lookup(self.inner@, key@) == Some(*v),
    {
        let mut i: usize = 0;
        assert(self.inner@.subrange(0, self.inner@.len() as int) =~= self.inner@);
        while i < self.inner.len()
            invariant
                i <= self.inner@.len(),
                lookup(self.inner@, key@) == lookup(
                    self.inner@.subrange(i as int, self.inner@.len() as int),
                    key@,
                ),
            decreases self.inner.len() - i,
        {
            let ghost rest = self.inner@.subrange(i as int, self.inner@.len() as int);
            assert(rest[0] == self.inner@[i as int]);
            if self.inner[i].0 == *key {
                return Some(&self.inner[i].1);
            }
            assert(rest.drop_first() =~= self.inner@.subrange(i + 1, self.inner@.len() as int));
            i += 1;
        }
        None
    }
}

} // verus!
