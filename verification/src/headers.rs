//! An insertion-ordered header table.
//!
//! Both requests and responses carry one. Its view is the sequence of
//! (name, value) pairs of character sequences, in storage order; setting a
//! name that is already present replaces the first occurrence's value in
//! place, and lookup returns the first occurrence, so a table built only by
//! `new` and `set` never holds a name twice.

use vstd::prelude::*;

verus! {

/// First-match lookup in a sequence of (name, value) pairs.
pub open spec fn lookup_pair(s: Seq<(Seq<char>, Seq<char>)>, name: Seq<char>) -> Option<Seq<char>>
    decreases s.len(),
{
    if s.len() == 0 {
        None
    } else if s[0].0 == name {
        Some(s[0].1)
    } else {
        lookup_pair(s.drop_first(), name)
    }
}

/// Upsert into a sequence of (name, value) pairs: replace the value of the
/// first occurrence in place if the name is present, append otherwise.
pub open spec fn set_pair(
    s: Seq<(Seq<char>, Seq<char>)>,
    name: Seq<char>,
    value: Seq<char>,
) -> Seq<(Seq<char>, Seq<char>)>
    decreases s.len(),
{
    if s.len() == 0 {
        seq![(name, value)]
    } else if s[0].0 == name {
        seq![(name, value)] + s.drop_first()
    } else {
        seq![s[0]] + set_pair(s.drop_first(), name, value)
    }
}

/// An insertion-ordered header table.
pub struct Headers {
    entries: Vec<(String, String)>,
}

impl View for Headers {
    type V = Seq<(Seq<char>, Seq<char>)>;

    closed spec fn view(&self) -> Seq<(Seq<char>, Seq<char>)> {
        Seq::new(self.entries@.len(), |i: int| (self.entries@[i].0@, self.entries@[i].1@))
    }
}

impl Headers {
    /// An empty table.
    pub fn new() -> (h: Headers)
        ensures
            h@ == Seq::<(Seq<char>, Seq<char>)>::empty(),
    {
        let h = Headers { entries: Vec::new() };
        proof {
            assert(h@ =~= Seq::<(Seq<char>, Seq<char>)>::empty());
        }
        h
    }

    /// How many headers are stored.
    pub fn len(&self) -> (n: usize)
        ensures
            n == self@.len(),
    {
        self.entries.len()
    }

    /// The pair at a position, in storage order.
    pub fn pair_at(&self, i: usize) -> (p: &(String, String))
        requires
            i < self@.len(),
        ensures
            (p.0@, p.1@) == self@[i as int],
    {
        &self.entries[i]
    }

    /// The value stored under a name, if any.
    pub fn get(&self, name: &str) -> (r: Option<&String>)
        ensures
            match r {
                Some(v) => lookup_pair(self@, name@) == Some(v@),
                None => lookup_pair(self@, name@) is None,
            },
    {
        let n = self.entries.len();
        let key = name.to_owned();
        let mut i: usize = 0;
        while i < n
            invariant
                n == self@.len(),
                i <= n,
                key@ == name@,
                forall|j: int| 0 <= j < i ==> self@[j].0 != name@,
            decreases n - i,
        {
            if self.entries[i].0 == key {
                proof {
                    lemma_lookup_found(self@, name@, i as int);
                }
                return Some(&self.entries[i].1);
            }
            i += 1;
        }
        proof {
            lemma_lookup_missing(self@, name@);
        }
        None
    }

    /// A copy with the same contents.
    pub fn duplicate(&self) -> (h: Headers)
        ensures
            h@ == self@,
    {
        let n = self.entries.len();
        let mut out: Vec<(String, String)> = Vec::new();
        let mut i: usize = 0;
        while i < n
            invariant
                n == self@.len(),
                i <= n,
                out@.len() == i,
                forall|j: int| 0 <= j < i ==> ((#[trigger] out@[j]).0@, out@[j].1@) == self@[j],
            decreases n - i,
        {
            let p = &self.entries[i];
            out.push((p.0.clone(), p.1.clone()));
            i += 1;
        }
        let h = Headers { entries: out };
        proof {
            assert(h@ =~= self@);
        }
        h
    }

    /// Store a value under a name, replacing any previous value in place.
    pub fn set(&mut self, name: &str, value: &str)
        ensures
            final(self)@ == set_pair(old(self)@, name@, value@),
    {
        let n = self.entries.len();
        let key = name.to_owned();
        let mut i: usize = 0;
        while i < n
            invariant
                n == self@.len(),
                i <= n,
                key@ == name@,
                *self == *old(self),
                forall|j: int| 0 <= j < i ==> self@[j].0 != name@,
            decreases n - i,
        {
            if self.entries[i].0 == key {
                self.entries.remove(i);
                self.entries.insert(i, (key, value.to_owned()));
                proof {
                    assert(self@ =~= old(self)@.update(i as int, (name@, value@)));
                    lemma_set_found(old(self)@, name@, value@, i as int);
                }
                return ;
            }
            i += 1;
        }
        self.entries.push((key, value.to_owned()));
        proof {
            assert(self@ =~= old(self)@.push((name@, value@)));
            lemma_set_missing(old(self)@, name@, value@);
        }
    }
}

/// If the first occurrence of `name` is at `i`, lookup returns the value at `i`.
proof fn lemma_lookup_found(s: Seq<(Seq<char>, Seq<char>)>, name: Seq<char>, i: int)
    requires
        0 <= i < s.len(),
        s[i].0 == name,
        forall|j: int| 0 <= j < i ==> s[j].0 != name,
    ensures
        lookup_pair(s, name) == Some(s[i].1),
    decreases i,
{
    if i > 0 {
        lemma_lookup_found(s.drop_first(), name, i - 1);
    }
}

/// If `name` occurs nowhere, lookup returns nothing.
proof fn lemma_lookup_missing(s: Seq<(Seq<char>, Seq<char>)>, name: Seq<char>)
    requires
        forall|j: int| 0 <= j < s.len() ==> s[j].0 != name,
    ensures
        lookup_pair(s, name) is None,
    decreases s.len(),
{
    if s.len() > 0 {
        lemma_lookup_missing(s.drop_first(), name);
    }
}

/// If the first occurrence of `name` is at `i`, upserting replaces the pair at `i`.
proof fn lemma_set_found(s: Seq<(Seq<char>, Seq<char>)>, name: Seq<char>, value: Seq<char>, i: int)
    requires
        0 <= i < s.len(),
        s[i].0 == name,
        forall|j: int| 0 <= j < i ==> s[j].0 != name,
    ensures
        set_pair(s, name, value) =~= s.update(i, (name, value)),
    decreases i,
{
    if i > 0 {
        lemma_set_found(s.drop_first(), name, value, i - 1);
        assert(set_pair(s, name, value) =~= seq![s[0]] + set_pair(s.drop_first(), name, value));
    }
}

/// If `name` occurs nowhere, upserting appends the pair.
proof fn lemma_set_missing(s: Seq<(Seq<char>, Seq<char>)>, name: Seq<char>, value: Seq<char>)
    requires
        forall|j: int| 0 <= j < s.len() ==> s[j].0 != name,
    ensures
        set_pair(s, name, value) =~= s.push((name, value)),
    decreases s.len(),
{
    if s.len() > 0 {
        lemma_set_missing(s.drop_first(), name, value);
    }
}

/// Upserting makes the name present with the given value.
pub proof fn lemma_lookup_after_set(s: Seq<(Seq<char>, Seq<char>)>, name: Seq<char>, value: Seq<char>)
    ensures
        lookup_pair(set_pair(s, name, value), name) == Some(value),
    decreases s.len(),
{
    if s.len() > 0 && s[0].0 != name {
        lemma_lookup_after_set(s.drop_first(), name, value);
        assert(set_pair(s, name, value).drop_first() =~= set_pair(s.drop_first(), name, value));
    }
}

/// Upserting one name leaves every other name's value unchanged.
pub proof fn lemma_lookup_after_set_other(
    s: Seq<(Seq<char>, Seq<char>)>,
    name: Seq<char>,
    value: Seq<char>,
    other: Seq<char>,
)
    requires
        other != name,
    ensures
        lookup_pair(set_pair(s, name, value), other) == lookup_pair(s, other),
    decreases s.len(),
{
    let t = set_pair(s, name, value);
    if s.len() == 0 {
        assert(t.drop_first() =~= Seq::<(Seq<char>, Seq<char>)>::empty());
        assert(lookup_pair(t.drop_first(), other) is None);
        assert(lookup_pair(s, other) is None);
    } else if s[0].0 == name {
        assert(t.drop_first() =~= s.drop_first());
        assert(lookup_pair(t, other) == lookup_pair(t.drop_first(), other));
        assert(lookup_pair(s, other) == lookup_pair(s.drop_first(), other));
    } else {
        lemma_lookup_after_set_other(s.drop_first(), name, value, other);
        assert(t[0] == s[0]);
        assert(t.drop_first() =~= set_pair(s.drop_first(), name, value));
        if s[0].0 == other {
            assert(lookup_pair(t, other) == Some(t[0].1));
        } else {
            assert(lookup_pair(t, other) == lookup_pair(t.drop_first(), other));
        }
    }
}

} // verus!
