use vstd::prelude::*;

verus! {

/// The identifier that the last entry for `name` gives, if any.
pub open spec fn lookup_name(e: Seq<(String, u128)>, name: Seq<char>) -> Option<u128>
    decreases e.len(),
{
    if e.len() == 0 {
        None
    } else if e.last().0@ == name {
        Some(e.last().1)
    } else {
        lookup_name(e.drop_last(), name)
    }
}

/// The mapping from a file's name to its identifier. A later entry for a
/// name replaces an earlier one.
pub struct NameIndex {
    entries: Vec<(String, u128)>,
}

impl NameIndex {
    /// The identifier that `name` maps to, if any.
    pub closed spec fn get_spec(&self, name: Seq<char>) -> Option<u128> {
        lookup_name(self.entries@, name)
    }

    /// An empty index.
    pub fn new() -> (r: Self)
        ensures
            forall|n: Seq<char>| r.get_spec(n) is None,
    {
        NameIndex { entries: Vec::new() }
    }

    /// An index of the given pairs; a later pair for a name wins.
    pub fn from_entries(entries: Vec<(String, u128)>) -> (r: Self)
        ensures
            forall|n: Seq<char>| r.get_spec(n) == lookup_name(entries@, n),
    {
        NameIndex { entries }
    }

    /// The pairs of the index, one per name.
    pub fn entries(&self) -> (r: Vec<(String, u128)>)
        ensures
            forall|n: Seq<char>| lookup_name(r@, n) == self.get_spec(n),
    {
        let mut out: Vec<(String, u128)> = Vec::new();
        let mut i: usize = 0;
        while i < self.entries.len()
            invariant
                i <= self.entries@.len(),
                forall|n: Seq<char>| lookup_name(out@, n) == lookup_name(self.entries@.subrange(0, i as int), n),
            decreases self.entries@.len() - i,
        {
            let (name, id) = (self.entries[i].0.clone(), self.entries[i].1);
            let ghost before = out@;
            out.push((name, id));
            proof {
                let s = self.entries@.subrange(0, i + 1);
                assert(s.drop_last() == self.entries@.subrange(0, i as int));
                assert(out@.drop_last() == before);
                assert(out@.last() == s.last());
                assert forall|n: Seq<char>| lookup_name(out@, n) == lookup_name(s, n) by {
                    if s.last().0@ != n {
                        assert(lookup_name(out@, n) == lookup_name(before, n));
                    }
                }
            }
            i = i + 1;
        }
        proof {
            assert(self.entries@.subrange(0, self.entries@.len() as int) == self.entries@);
        }
        out
    }

    /// Maps `name` to `id`, replacing any earlier entry for `name`.
    pub fn put(&mut self, name: &str, id: u128)
        ensures
            forall|n: Seq<char>|
                final(self).get_spec(n) == if n == name@ {
                    Some(id)
                } else {
                    old(self).get_spec(n)
                },
    {
        let key = String::from_str(name);
        let mut kept: Vec<(String, u128)> = Vec::new();
        let mut i: usize = 0;
        while i < self.entries.len()
            invariant
                i <= self.entries@.len(),
                key@ == name@,
                forall|n: Seq<char>|
                    n != name@ ==> lookup_name(kept@, n) == lookup_name(
                        self.entries@.subrange(0, i as int),
                        n,
                    ),
            decreases self.entries@.len() - i,
        {
            let ghost s = self.entries@.subrange(0, i + 1);
            proof {
                assert(s.drop_last() == self.entries@.subrange(0, i as int));
            }
            if self.entries[i].0 != key {
                let pair = (self.entries[i].0.clone(), self.entries[i].1);
                let ghost before = kept@;
                kept.push(pair);
                proof {
                    assert(kept@.drop_last() == before);
                    assert(kept@.last() == s.last());
                    assert forall|n: Seq<char>| n != name@ implies lookup_name(kept@, n) == lookup_name(s, n) by {
                        if s.last().0@ != n {
                            assert(lookup_name(kept@, n) == lookup_name(before, n));
                            assert(lookup_name(s, n) == lookup_name(s.drop_last(), n));
                        }
                    }
                }
            } else {
                proof {
                    assert forall|n: Seq<char>| n != name@ implies lookup_name(kept@, n) == lookup_name(s, n) by {
                        assert(s.last().0@ == name@);
                        assert(lookup_name(s, n) == lookup_name(s.drop_last(), n));
                    }
                }
            }
            i = i + 1;
        }
        proof {
            assert(self.entries@.subrange(0, self.entries@.len() as int) == self.entries@);
        }
        let ghost before = kept@;
        let ghost old_entries = self.entries@;
        kept.push((key, id));
        proof {
            assert(kept@.drop_last() == before);
            assert forall|n: Seq<char>| #![auto] n != name@ implies lookup_name(kept@, n) == lookup_name(old_entries, n) by {
                assert(lookup_name(kept@, n) == lookup_name(before, n));
            }
            assert(lookup_name(kept@, name@) == Some(id));
        }
        self.entries = kept;
    }

    /// The identifier that `name` maps to, if any.
    pub fn lookup(&self, name: &str) -> (r: Option<u128>)
        ensures
            r == self.get_spec(name@),
    {
        let key = String::from_str(name);
        let mut i: usize = self.entries.len();
        proof {
            assert(self.entries@.subrange(0, self.entries@.len() as int) == self.entries@);
        }
        while i > 0
            invariant
                i <= self.entries@.len(),
                key@ == name@,
                lookup_name(self.entries@, name@) == lookup_name(self.entries@.subrange(0, i as int), name@),
            decreases i,
        {
            let ghost s = self.entries@.subrange(0, i as int);
            proof {
                assert(s.drop_last() == self.entries@.subrange(0, i - 1));
            }
            if self.entries[i - 1].0 == key {
                return Some(self.entries[i - 1].1);
            }
            i = i - 1;
        }
        None
    }
}

} // verus!
