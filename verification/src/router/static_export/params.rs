//! One complete set of path parameters a page is exported for.

use vstd::prelude::*;

use crate::text::str_eq;

verus! {

/// The value the first pair named `name` holds, if any pair is named so.
pub open spec fn lookup(pairs: Seq<(Seq<char>, Seq<char>)>, name: Seq<char>) -> Option<Seq<char>>
    decreases pairs.len(),
{
    if pairs.len() == 0 {
        None
    } else if pairs[0].0 == name {
        Some(pairs[0].1)
    } else {
        lookup(pairs.drop_first(), name)
    }
}

/// Pairs that do not bear `name` can be skipped when looking it up.
pub proof fn lemma_lookup_skip(pairs: Seq<(Seq<char>, Seq<char>)>, name: Seq<char>, i: int)
    requires
        0 <= i <= pairs.len(),
        forall|k: int| 0 <= k < i ==> (#[trigger] pairs[k]).0 != name,
    ensures
        lookup(pairs, name) == lookup(pairs.skip(i), name),
    decreases i,
{
    if i > 0 {
        lemma_lookup_skip(pairs.drop_first(), name, i - 1);
        assert(pairs.drop_first().skip(i - 1) =~= pairs.skip(i));
    } else {
        assert(pairs.skip(0) =~= pairs);
    }
}

/// A name is found exactly when some pair bears it.
pub proof fn lemma_lookup_some(pairs: Seq<(Seq<char>, Seq<char>)>, name: Seq<char>)
    ensures
        lookup(pairs, name) is Some <==> exists|k: int| 0 <= k < pairs.len() && (#[trigger] pairs[k]).0 == name,
    decreases pairs.len(),
{
    if pairs.len() > 0 {
        lemma_lookup_some(pairs.drop_first(), name);
        if pairs[0].0 != name {
            if exists|k: int| 0 <= k < pairs.len() && (#[trigger] pairs[k]).0 == name {
                let k = choose|k: int| 0 <= k < pairs.len() && (#[trigger] pairs[k]).0 == name;
                assert(pairs.drop_first()[k - 1] == pairs[k]);
            }
        }
    }
}

/// Looking a name up after appending a pair finds the earlier value, or the
/// appended one when no earlier pair bore the name.
pub proof fn lemma_lookup_push(pairs: Seq<(Seq<char>, Seq<char>)>, pair: (Seq<char>, Seq<char>), name: Seq<char>)
    ensures
        lookup(pairs.push(pair), name) == (if lookup(pairs, name) is Some {
            lookup(pairs, name)
        } else if pair.0 == name {
            Some(pair.1)
        } else {
            None
        }),
    decreases pairs.len(),
{
    if pairs.len() > 0 {
        lemma_lookup_push(pairs.drop_first(), pair, name);
        assert(pairs.push(pair).drop_first() =~= pairs.drop_first().push(pair));
        assert(pairs.push(pair)[0] == pairs[0]);
        if pairs[0].0 != name {
            assert(lookup(pairs.push(pair), name) == lookup(pairs.drop_first().push(pair), name));
        }
    } else {
        assert(pairs.push(pair)[0] == pair);
        assert(lookup(pairs.push(pair).drop_first(), name) is None);
        assert(pairs.push(pair).drop_first() =~= Seq::<(Seq<char>, Seq<char>)>::empty());
    }
}

/// The views of borrowed `(name, value)` pairs.
pub open spec fn str_pair_views<'a>(v: Seq<(&'a str, &'a str)>) -> Seq<(Seq<char>, Seq<char>)> {
    v.map_values(|p: (&'a str, &'a str)| (p.0@, p.1@))
}

/// One complete set of path parameters a page is exported for.
///
/// Each set must name every dynamic segment in the page's path, including the
/// segments contributed by parent modules. Values are rendered into the URL
/// as given: a `{name}` parameter takes a single non-empty URL segment, so its
/// value must not contain `/`; a `{*name}` catch-all may.
///
/// The pairs are kept in insertion order, so a name given twice is reported
/// when the set is expanded rather than silently overwritten.
#[derive(Debug, Clone, Default, PartialEq, Eq)]
pub struct StaticParams {
    params: Vec<(String, String)>,
}

impl View for StaticParams {
    type V = Seq<(Seq<char>, Seq<char>)>;

    closed spec fn view(&self) -> Seq<(Seq<char>, Seq<char>)> {
        self.params@.map_values(|p: (String, String)| (p.0@, p.1@))
    }
}

impl StaticParams {
    /// Creates an empty parameter set.
    pub fn new() -> (r: Self)
        ensures
            r@ == Seq::<(Seq<char>, Seq<char>)>::empty(),
    {
        let r = StaticParams { params: Vec::new() };
        assert(r@ =~= Seq::<(Seq<char>, Seq<char>)>::empty());
        r
    }

    /// Adds a parameter, returning the set, for building one in an expression.
    pub fn with(self, name: &str, value: &str) -> (r: Self)
        ensures
            r@ == self@.push((name@, value@)),
    {
        let mut s = self;
        s.insert(name, value);
        s
    }

    /// Adds a parameter to this set, returning the set for further
    /// additions.
    pub fn insert(&mut self, name: &str, value: &str) -> (r: &mut Self)
        ensures
            (*r)@ == old(self)@.push((name@, value@)),
            *final(self) == *final(r),
    {
        let ghost before = self.params@;
        self.params.push((name.to_owned(), value.to_owned()));
        assert(self.params@.map_values(|p: (String, String)| (p.0@, p.1@)) =~= before.map_values(
            |p: (String, String)| (p.0@, p.1@),
        ).push((name@, value@)));
        self
    }

    /// Builds a set from `(name, value)` pairs, in order.
    pub fn from_pairs(pairs: &[(&str, &str)]) -> (r: Self)
        ensures
            r@ == str_pair_views(pairs@),
    {
        let mut r = StaticParams::new();
        let mut i: usize = 0;
        while i < pairs.len()
            invariant
                i <= pairs@.len(),
                r@ == str_pair_views(pairs@.take(i as int)),
            decreases pairs@.len() - i,
        {
            let (name, value) = pairs[i];
            r.insert(name, value);
            i = i + 1;
            assert(r@ =~= str_pair_views(pairs@.take(i as int)));
        }
        assert(pairs@.take(i as int) =~= pairs@);
        r
    }

    /// Returns the value of `name`, or `None` when the set does not name it.
    pub fn get(&self, name: &str) -> (r: Option<&str>)
        ensures
            r matches Some(v) ==> lookup(self@, name@) == Some(v@),
            r is None ==> lookup(self@, name@) is None,
    {
        let mut i: usize = 0;
        while i < self.params.len()
            invariant
                i <= self.params@.len(),
                forall|k: int| 0 <= k < i ==> (#[trigger] self@[k]).0 != name@,
            decreases self.params@.len() - i,
        {
            assert(self@[i as int] == (self.params@[i as int].0@, self.params@[i as int].1@));
            if str_eq(self.params[i].0.as_str(), name) {
                proof {
                    lemma_lookup_skip(self@, name@, i as int);
                }
                return Some(self.params[i].1.as_str());
            }
            i = i + 1;
        }
        proof {
            lemma_lookup_skip(self@, name@, i as int);
        }
        None
    }

    /// The `(name, value)` pairs, in insertion order.
    pub fn iter(&self) -> (r: Vec<(&str, &str)>)
        ensures
            str_pair_views(r@) == self@,
    {
        let mut r: Vec<(&str, &str)> = Vec::new();
        let mut i: usize = 0;
        while i < self.params.len()
            invariant
                i <= self.params@.len(),
                str_pair_views(r@) == self@.take(i as int),
            decreases self.params@.len() - i,
        {
            assert(self@[i as int] == (self.params@[i as int].0@, self.params@[i as int].1@));
            let ghost before = r@;
            r.push((self.params[i].0.as_str(), self.params[i].1.as_str()));
            assert(str_pair_views(r@) =~= str_pair_views(before).push(self@[i as int]));
            i = i + 1;
            assert(str_pair_views(r@) =~= self@.take(i as int));
        }
        assert(self@.take(i as int) =~= self@);
        r
    }

    /// The number of parameters in this set.
    pub fn len(&self) -> (n: usize)
        ensures
            n == self@.len(),
    {
        self.params.len()
    }

    /// Returns `true` if this set names no parameters.
    pub fn is_empty(&self) -> (b: bool)
        ensures
            b == (self@.len() == 0),
    {
        self.params.len() == 0
    }
}

} // verus!
