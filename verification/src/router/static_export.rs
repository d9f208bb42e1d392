//! Selecting the concrete URLs of a static export.
//!
//! Every page a router can render statically contributes URLs: a page with a
//! fixed path contributes that path; a page derived from modules expands each
//! dynamic segment with the values its segment generator yields; a page with
//! an explicit path expands it with the complete parameter sets its
//! `generate_static` function yields. The URLs of all pages are then sorted,
//! and no two pages may generate the same one.
//!
//! Running a generator is the application's own asynchronous work, done
//! outside this module: [`ModuleExpansion`] says which generator to run for
//! which partial URL and takes back what it returned.

pub mod params;
pub mod error;
pub mod route;

use vstd::prelude::*;

use crate::percent::{lemma_encoded_nonempty, lemma_encoded_segment_lacks_slash, percent_encode, percent_encoded};
use crate::router::path::{declares, lemma_static_segments_lack_slash, route_matches, route_segments, segment_views, Path, PathSegment, SegmentView};
use crate::text::{
    components, lemma_components_after_sep, lemma_components_of_nothing, lemma_components_plain, join, lemma_lex_irreflexive, lemma_lex_total, lemma_lex_transitive, lex_lt, prefix_join, push_char,
    push_str, str_eq, str_lt, string_views,
};
use route::{
    catch_all_last, collect_paths, expanded_views, first_conflict, flatten, flatten_entries, lemma_first_conflict_skip, path_seen_before,
    path_views, sorted_by_path,
};

verus! {

/// Marks a request context created while statically exporting a page.
#[derive(Debug, Clone, Copy)]
pub struct StaticExportMarker;

/// The message of a parameter set naming `name` twice.
pub open spec fn duplicate_message(route: Seq<char>, name: Seq<char>) -> Seq<char> {
    "static parameters for route `"@ + route + "` contain duplicate `"@ + name + "` values"@
}

/// The message of a parameter set missing `name`.
pub open spec fn missing_message(route: Seq<char>, name: Seq<char>) -> Seq<char> {
    "static parameters for route `"@ + route + "` are missing `"@ + name + "`"@
}

/// The message of a parameter set naming `name`, which the route lacks.
pub open spec fn unknown_message(route: Seq<char>, name: Seq<char>) -> Seq<char> {
    "static parameters for route `"@ + route + "` contain unknown parameter `"@ + name + "`"@
}

/// How many components a value for a parameter (or a catch-all) must have.
pub open spec fn expected_count(catch_all: bool) -> Seq<char> {
    if catch_all {
        "one or more"@
    } else {
        "exactly one"@
    }
}

/// The message of a value with the wrong number of components.
pub open spec fn length_message(route: Seq<char>, name: Seq<char>, catch_all: bool) -> Seq<char> {
    "static value for `"@ + name + "` in route `"@ + route + "` must contain "@ + expected_count(catch_all)
        + " path component"@
}

/// The message of a value with an empty component.
pub open spec fn empty_message(route: Seq<char>, name: Seq<char>) -> Seq<char> {
    "static value for `"@ + name + "` in route `"@ + route + "` contains an empty path component"@
}

/// The message of a URL that its own route does not match.
pub open spec fn mismatch_message(route: Seq<char>, url: Seq<char>) -> Seq<char> {
    "generated URL `"@ + url + "` does not match route `"@ + route + "`"@
}

/// The message of a dynamic segment of a page without a generator of
/// parameter sets.
pub open spec fn automatic_message(route: Seq<char>, name: Seq<char>) -> Seq<char> {
    "dynamic segment `"@ + name + "` in explicit route `"@ + route
        + "` requires `generate_static` on `#[page]`"@
}

/// The message of a dynamic segment without a segment generator.
pub open spec fn no_generator_message(route: Seq<char>, name: Seq<char>) -> Seq<char> {
    "dynamic segment `"@ + name + "` in route `"@ + route + "` has no `generate_static` function"@
}

/// The message of a segment generator that failed with `error`.
pub open spec fn values_failure_message(route: Seq<char>, name: Seq<char>, error: Seq<char>) -> Seq<char> {
    "failed to generate static values for `"@ + name + "` in route `"@ + route + "`: "@ + error
}

/// The message of a parameter-set generator that failed with `error`.
pub open spec fn params_failure_message(route: Seq<char>, error: Seq<char>) -> Seq<char> {
    "failed to generate static parameters for route `"@ + route + "`: "@ + error
}

/// The message of a URL generated more than once.
pub open spec fn duplicate_url_message(url: Seq<char>) -> Seq<char> {
    "multiple pages generate the static URL `"@ + url + "`"@
}

/// An error encountered while selecting the URLs of a static export.
#[derive(Debug)]
pub struct StaticExportError {
    message: String,
}

impl View for StaticExportError {
    type V = Seq<char>;

    closed spec fn view(&self) -> Seq<char> {
        self.message@
    }
}

impl StaticExportError {
    fn new(message: String) -> (e: Self)
        ensures
            e@ == message@,
    {
        StaticExportError { message }
    }

    /// The text the error is reported with.
    pub fn to_string(&self) -> (m: String)
        ensures
            m@ == self@,
    {
        self.message.clone()
    }

    fn duplicate(route: &Path, name: &str) -> (e: Self)
        ensures
            e@ == duplicate_message(route@, name@),
    {
        let mut m = String::new();
        push_str(&mut m, "static parameters for route `");
        push_str(&mut m, route.as_str());
        push_str(&mut m, "` contain duplicate `");
        push_str(&mut m, name);
        push_str(&mut m, "` values");
        StaticExportError::new(m)
    }

    fn missing(route: &Path, name: &str) -> (e: Self)
        ensures
            e@ == missing_message(route@, name@),
    {
        let mut m = String::new();
        push_str(&mut m, "static parameters for route `");
        push_str(&mut m, route.as_str());
        push_str(&mut m, "` are missing `");
        push_str(&mut m, name);
        push_str(&mut m, "`");
        StaticExportError::new(m)
    }

    fn unknown(route: &Path, name: &str) -> (e: Self)
        ensures
            e@ == unknown_message(route@, name@),
    {
        let mut m = String::new();
        push_str(&mut m, "static parameters for route `");
        push_str(&mut m, route.as_str());
        push_str(&mut m, "` contain unknown parameter `");
        push_str(&mut m, name);
        push_str(&mut m, "`");
        StaticExportError::new(m)
    }

    fn length(route: &Path, name: &str, catch_all: bool) -> (e: Self)
        ensures
            e@ == length_message(route@, name@, catch_all),
    {
        let mut m = String::new();
        push_str(&mut m, "static value for `");
        push_str(&mut m, name);
        push_str(&mut m, "` in route `");
        push_str(&mut m, route.as_str());
        push_str(&mut m, "` must contain ");
        if catch_all {
            push_str(&mut m, "one or more");
        } else {
            push_str(&mut m, "exactly one");
        }
        push_str(&mut m, " path component");
        StaticExportError::new(m)
    }

    fn empty(route: &Path, name: &str) -> (e: Self)
        ensures
            e@ == empty_message(route@, name@),
    {
        let mut m = String::new();
        push_str(&mut m, "static value for `");
        push_str(&mut m, name);
        push_str(&mut m, "` in route `");
        push_str(&mut m, route.as_str());
        push_str(&mut m, "` contains an empty path component");
        StaticExportError::new(m)
    }

    fn mismatch(route: &Path, url: &str) -> (e: Self)
        ensures
            e@ == mismatch_message(route@, url@),
    {
        let mut m = String::new();
        push_str(&mut m, "generated URL `");
        push_str(&mut m, url);
        push_str(&mut m, "` does not match route `");
        push_str(&mut m, route.as_str());
        push_str(&mut m, "`");
        StaticExportError::new(m)
    }

    fn automatic(route: &Path, name: &str) -> (e: Self)
        ensures
            e@ == automatic_message(route@, name@),
    {
        let mut m = String::new();
        push_str(&mut m, "dynamic segment `");
        push_str(&mut m, name);
        push_str(&mut m, "` in explicit route `");
        push_str(&mut m, route.as_str());
        push_str(&mut m, "` requires `generate_static` on `#[page]`");
        StaticExportError::new(m)
    }

    fn no_generator(route: &Path, name: &str) -> (e: Self)
        ensures
            e@ == no_generator_message(route@, name@),
    {
        let mut m = String::new();
        push_str(&mut m, "dynamic segment `");
        push_str(&mut m, name);
        push_str(&mut m, "` in route `");
        push_str(&mut m, route.as_str());
        push_str(&mut m, "` has no `generate_static` function");
        StaticExportError::new(m)
    }

    fn values_failure(route: &Path, name: &str, error: &str) -> (e: Self)
        ensures
            e@ == values_failure_message(route@, name@, error@),
    {
        let mut m = String::new();
        push_str(&mut m, "failed to generate static values for `");
        push_str(&mut m, name);
        push_str(&mut m, "` in route `");
        push_str(&mut m, route.as_str());
        push_str(&mut m, "`: ");
        push_str(&mut m, error);
        StaticExportError::new(m)
    }

    fn params_failure(route: &Path, error: &str) -> (e: Self)
        ensures
            e@ == params_failure_message(route@, error@),
    {
        let mut m = String::new();
        push_str(&mut m, "failed to generate static parameters for route `");
        push_str(&mut m, route.as_str());
        push_str(&mut m, "`: ");
        push_str(&mut m, error);
        StaticExportError::new(m)
    }

    fn duplicate_url(url: &str) -> (e: Self)
        ensures
            e@ == duplicate_url_message(url@),
    {
        let mut m = String::new();
        push_str(&mut m, "multiple pages generate the static URL `");
        push_str(&mut m, url);
        push_str(&mut m, "`");
        StaticExportError::new(m)
    }
}

/// One generated value for a dynamic route segment: the URL path components
/// it stands for.
#[derive(Debug, Clone, PartialEq, Eq)]
pub struct StaticSegmentValue {
    components: Vec<String>,
}

impl View for StaticSegmentValue {
    type V = Seq<Seq<char>>;

    closed spec fn view(&self) -> Seq<Seq<char>> {
        string_views(self.components@)
    }
}

impl StaticSegmentValue {
    /// Creates a value for an ordinary one-component path parameter.
    pub fn param(value: &str) -> (v: Self)
        ensures
            v@ == seq![value@],
    {
        let v = StaticSegmentValue { components: vec![value.to_owned()] };
        assert(v@ =~= seq![value@]);
        v
    }

    /// Creates a value for a catch-all parameter, one component per element
    /// of `values`.
    pub fn catch_all(values: &[&str]) -> (v: Self)
        ensures
            v@ == values@.map_values(|s: &str| s@),
    {
        let mut components: Vec<String> = Vec::new();
        let mut i: usize = 0;
        while i < values.len()
            invariant
                i <= values@.len(),
                string_views(components@) == values@.take(i as int).map_values(|s: &str| s@),
            decreases values@.len() - i,
        {
            let ghost before = components@;
            let c = values[i].to_owned();
            assert(c@ == values@[i as int]@);
            components.push(c);
            assert(components@ == before.push(c));
            assert(string_views(components@) =~= string_views(before).push(c@));
            assert(values@.take(i + 1 as int) =~= values@.take(i as int).push(values@[i as int]));
            i = i + 1;
            assert(string_views(components@) =~= values@.take(i as int).map_values(|s: &str| s@));
        }
        assert(values@.take(i as int) =~= values@);
        StaticSegmentValue { components }
    }

    /// The path components of the value.
    pub fn components(&self) -> (c: &Vec<String>)
        ensures
            string_views(c@) == self@,
    {
        &self.components
    }

    /// A copy of the value.
    pub fn duplicate(&self) -> (v: Self)
        ensures
            v@ == self@,
    {
        let mut components: Vec<String> = Vec::new();
        let mut i: usize = 0;
        while i < self.components.len()
            invariant
                i <= self.components@.len(),
                string_views(components@) == string_views(self.components@).take(i as int),
            decreases self.components@.len() - i,
        {
            let ghost before = components@;
            let c = self.components[i].clone();
            components.push(c);
            assert(components@ == before.push(c));
            assert(string_views(components@) =~= string_views(before).push(c@));
            assert(string_views(self.components@)[i as int] == self.components@[i as int]@);
            i = i + 1;
            assert(string_views(components@) =~= string_views(self.components@).take(i as int));
        }
        assert(string_views(self.components@).take(i as int) =~= string_views(self.components@));
        StaticSegmentValue { components }
    }
}

/// The abstract form of a parameter set: each name with the components of
/// its value, in the order they were added.
pub type ParamsView = Seq<(Seq<char>, Seq<Seq<char>>)>;

/// A named collection of values used to expand an explicitly pathed page.
#[derive(Debug, Clone, PartialEq, Eq)]
pub struct StaticParams {
    values: Vec<(String, StaticSegmentValue)>,
}

/// The views of a list of named values.
pub open spec fn named_views(v: Seq<(String, StaticSegmentValue)>) -> ParamsView {
    v.map_values(|x: (String, StaticSegmentValue)| (x.0@, x.1@))
}

impl View for StaticParams {
    type V = ParamsView;

    closed spec fn view(&self) -> ParamsView {
        named_views(self.values@)
    }
}

impl StaticParams {
    /// Creates an empty parameter collection.
    pub fn new() -> (p: Self)
        ensures
            p@ == Seq::<(Seq<char>, Seq<Seq<char>>)>::empty(),
    {
        let p = StaticParams { values: Vec::new() };
        assert(p@ =~= Seq::<(Seq<char>, Seq<Seq<char>>)>::empty());
        p
    }

    fn push(self, name: &str, value: StaticSegmentValue) -> (p: Self)
        ensures
            p@ == self@.push((name@, value@)),
    {
        let mut values = self.values;
        let ghost before = values@;
        let x = (name.to_owned(), value);
        values.push(x);
        assert(values@ == before.push(x));
        assert(named_views(values@) =~= named_views(before).push((name@, x.1@)));
        StaticParams { values }
    }

    /// Adds an ordinary one-component path parameter.
    pub fn param(self, name: &str, value: &str) -> (p: Self)
        ensures
            p@ == self@.push((name@, seq![value@])),
    {
        self.push(name, StaticSegmentValue::param(value))
    }

    /// Adds a catch-all path parameter, one component per element of
    /// `values`.
    pub fn catch_all(self, name: &str, values: &[&str]) -> (p: Self)
        ensures
            p@ == self@.push((name@, values@.map_values(|s: &str| s@))),
    {
        self.push(name, StaticSegmentValue::catch_all(values))
    }

    /// The values, checked to name each parameter once.
    #[verifier::loop_isolation(false)]
    fn into_map(&self, route: &Path) -> (r: Result<Vec<(String, StaticSegmentValue)>, StaticExportError>)
        ensures
            ({
                match r {
                    Ok(v) => first_duplicate(self@, 0) is None && named_views(v@) == self@,
                    Err(e) => first_duplicate(self@, 0) is Some && e@ == duplicate_message(
                        route@,
                        first_duplicate(self@, 0)->0,
                    ),
                }
            }),
    {
        let ghost pv = self@;
        let values = &self.values;
        let mut i: usize = 0;
        while i < values.len()
            invariant
                i <= values@.len(),
                pv == named_views(values@),
                forall|m: int| 0 <= m < i ==> !named_earlier(pv, m),
            decreases values@.len() - i,
        {
            let mut j: usize = 0;
            while j < i
                invariant
                    j <= i < values@.len(),
                    pv == named_views(values@),
                    forall|m: int| 0 <= m < j ==> (#[trigger] pv[m]).0 != pv[i as int].0,
                    forall|m: int| 0 <= m < i ==> !named_earlier(pv, m),
                decreases i - j,
            {
                assert(pv[j as int] == (values@[j as int].0@, values@[j as int].1@));
                assert(pv[i as int] == (values@[i as int].0@, values@[i as int].1@));
                if str_eq(values[j].0.as_str(), values[i].0.as_str()) {
                    proof {
                        assert(named_earlier(pv, i as int));
                        lemma_first_duplicate_skip(pv, i as int);
                    }
                    return Err(StaticExportError::duplicate(route, values[i].0.as_str()));
                }
                j = j + 1;
            }
            assert(!named_earlier(pv, i as int));
            i = i + 1;
        }
        proof {
            lemma_first_duplicate_skip(pv, i as int);
        }
        Ok(self.copy_values())
    }

    fn copy_values(&self) -> (v: Vec<(String, StaticSegmentValue)>)
        ensures
            named_views(v@) == self@,
    {
        let ghost pv = self@;
        let mut v: Vec<(String, StaticSegmentValue)> = Vec::new();
        let mut i: usize = 0;
        while i < self.values.len()
            invariant
                i <= self.values@.len(),
                pv == named_views(self.values@),
                named_views(v@) == pv.take(i as int),
            decreases self.values@.len() - i,
        {
            let ghost before = v@;
            let x = (self.values[i].0.clone(), self.values[i].1.duplicate());
            v.push(x);
            assert(named_views(v@) =~= named_views(before).push((x.0@, x.1@)));
            assert(pv[i as int] == (self.values@[i as int].0@, self.values@[i as int].1@));
            i = i + 1;
            assert(named_views(v@) =~= pv.take(i as int));
        }
        assert(pv.take(i as int) =~= pv);
        v
    }
}

/// Whether the `i`-th value's name was already given by an earlier one.
pub open spec fn named_earlier(pairs: ParamsView, i: int) -> bool {
    exists|k: int| 0 <= k < i && (#[trigger] pairs[k]).0 == pairs[i].0
}

/// The first name, from position `i` on, that an earlier value already gave.
pub open spec fn first_duplicate(pairs: ParamsView, i: int) -> Option<Seq<char>>
    decreases pairs.len() - i,
{
    if i < 0 || i >= pairs.len() {
        None
    } else if named_earlier(pairs, i) {
        Some(pairs[i].0)
    } else {
        first_duplicate(pairs, i + 1)
    }
}

proof fn lemma_first_duplicate_skip(pairs: ParamsView, k: int)
    requires
        0 <= k <= pairs.len(),
        forall|m: int| 0 <= m < k ==> !named_earlier(pairs, m),
    ensures
        first_duplicate(pairs, 0) == first_duplicate(pairs, k),
    decreases k,
{
    if k > 0 {
        lemma_first_duplicate_skip(pairs, k - 1);
    }
}

/// The value first given for `name`, if any.
pub open spec fn find_value(pairs: ParamsView, name: Seq<char>) -> Option<Seq<Seq<char>>>
    decreases pairs.len(),
{
    if pairs.len() == 0 {
        None
    } else {
        match find_value(pairs.drop_last(), name) {
            Some(v) => Some(v),
            None => if pairs.last().0 == name {
                Some(pairs.last().1)
            } else {
                None
            },
        }
    }
}

/// The values naming anything but `name`, in order.
pub open spec fn without(pairs: ParamsView, name: Seq<char>) -> ParamsView
    decreases pairs.len(),
{
    if pairs.len() == 0 {
        pairs
    } else if pairs.last().0 == name {
        without(pairs.drop_last(), name)
    } else {
        without(pairs.drop_last(), name).push(pairs.last())
    }
}

/// The problem with `value` as the value of the parameter (or catch-all,
/// when `catch_all` holds) `name`, if any: a parameter takes exactly one
/// component, a catch-all one or more, and no component may be empty.
pub open spec fn value_problem(route: Seq<char>, name: Seq<char>, value: Seq<Seq<char>>, catch_all: bool) -> Option<
    Seq<char>,
> {
    let valid_len = if catch_all {
        value.len() > 0
    } else {
        value.len() == 1
    };
    if !valid_len {
        Some(length_message(route, name, catch_all))
    } else if exists|i: int| 0 <= i < value.len() && (#[trigger] value[i]).len() == 0 {
        Some(empty_message(route, name))
    } else {
        None
    }
}

/// The URL path of a list of components: `/` for none, and otherwise each
/// component percent-encoded as one segment and prefixed with `/`.
pub open spec fn url_of(components: Seq<Seq<char>>) -> Seq<char> {
    if components.len() == 0 {
        seq!['/']
    } else {
        prefix_join(components.map_values(|c: Seq<char>| percent_encoded(c, false)), '/')
    }
}

#[verifier::loop_isolation(false)]
fn validate_segment_value(route: &Path, name: &str, value: &StaticSegmentValue, catch_all: bool) -> (r: Result<
    (),
    StaticExportError,
>)
    ensures
        match r {
            Ok(()) => value_problem(route@, name@, value@, catch_all) is None,
            Err(e) => value_problem(route@, name@, value@, catch_all) == Some(e@),
        },
{
    let comps = value.components();
    let valid_len = if catch_all {
        comps.len() > 0
    } else {
        comps.len() == 1
    };
    if !valid_len {
        return Err(StaticExportError::length(route, name, catch_all));
    }
    let mut i: usize = 0;
    while i < comps.len()
        invariant
            i <= comps@.len(),
            string_views(comps@) == value@,
            forall|k: int| 0 <= k < i ==> (#[trigger] value@[k]).len() != 0,
        decreases comps@.len() - i,
    {
        assert(value@[i as int] == comps@[i as int]@);
        if comps[i].as_str().is_empty() {
            assert(value@[i as int].len() == 0);
            return Err(StaticExportError::empty(route, name));
        }
        i = i + 1;
    }
    Ok(())
}

/// Removes the value of `name` from `values`, or reports it missing.
fn take_param(route: &Path, values: &mut Vec<(String, StaticSegmentValue)>, name: &str) -> (r: Result<
    StaticSegmentValue,
    StaticExportError,
>)
    ensures
        match r {
            Ok(v) => find_value(named_views(old(values)@), name@) == Some(v@) && named_views(final(values)@)
                == without(named_views(old(values)@), name@),
            Err(e) => find_value(named_views(old(values)@), name@) is None && e@ == missing_message(
                route@,
                name@,
            ),
        },
{
    let ghost start = named_views(values@);
    let mut kept: Vec<(String, StaticSegmentValue)> = Vec::new();
    let mut found: Option<StaticSegmentValue> = None;
    let mut i: usize = 0;
    while i < values.len()
        invariant
            i <= values@.len(),
            start == named_views(values@),
            named_views(kept@) == without(start.take(i as int), name@),
            match found {
                Some(v) => find_value(start.take(i as int), name@) == Some(v@),
                None => find_value(start.take(i as int), name@) is None,
            },
        decreases values@.len() - i,
    {
        assert(start.take(i + 1 as int).drop_last() =~= start.take(i as int));
        assert(start[i as int] == (values@[i as int].0@, values@[i as int].1@));
        if str_eq(values[i].0.as_str(), name) {
            if found.is_none() {
                found = Some(values[i].1.duplicate());
            }
        } else {
            let ghost before = kept@;
            let x = (values[i].0.clone(), values[i].1.duplicate());
            kept.push(x);
            assert(kept@ == before.push(x));
            assert(named_views(kept@) =~= named_views(before).push(start[i as int]));
        }
        i = i + 1;
    }
    assert(start.take(i as int) =~= start);
    match found {
        Some(v) => {
            *values = kept;
            Ok(v)
        },
        None => Err(StaticExportError::missing(route, name)),
    }
}

/// A partial URL on the way to a concrete page URL: the path components
/// chosen so far, and each dynamic segment's name with its value joined by
/// `/`.
#[derive(Debug)]
pub struct Candidate {
    components: Vec<String>,
    params: Vec<(String, String)>,
}

/// The abstract form of a [`Candidate`].
pub type CandidateView = (Seq<Seq<char>>, Seq<(Seq<char>, Seq<char>)>);

/// The views of a list of string pairs.
pub open spec fn pair_views(v: Seq<(String, String)>) -> Seq<(Seq<char>, Seq<char>)> {
    v.map_values(|x: (String, String)| (x.0@, x.1@))
}

impl View for Candidate {
    type V = CandidateView;

    closed spec fn view(&self) -> CandidateView {
        (string_views(self.components@), pair_views(self.params@))
    }
}

impl Candidate {
    /// The candidate with no component and no parameter: the root URL.
    pub fn root() -> (c: Self)
        ensures
            c@ == (Seq::<Seq<char>>::empty(), Seq::<(Seq<char>, Seq<char>)>::empty()),
    {
        let c = Candidate { components: Vec::new(), params: Vec::new() };
        assert(c@.0 =~= Seq::<Seq<char>>::empty());
        assert(c@.1 =~= Seq::<(Seq<char>, Seq<char>)>::empty());
        c
    }

    /// The URL path of the candidate, as [`url_of`] writes it.
    pub fn url_path(&self) -> (u: String)
        ensures
            u@ == url_of(self@.0),
    {
        let ghost cv = self@.0;
        if self.components.len() == 0 {
            let mut u = String::new();
            push_char(&mut u, '/');
            assert(u@ =~= seq!['/']);
            return u;
        }
        let ghost enc = cv.map_values(|c: Seq<char>| percent_encoded(c, false));
        let mut u = String::new();
        let mut i: usize = 0;
        while i < self.components.len()
            invariant
                i <= self.components@.len(),
                cv == string_views(self.components@),
                enc == cv.map_values(|c: Seq<char>| percent_encoded(c, false)),
                u@ == prefix_join(enc.take(i as int), '/'),
            decreases self.components@.len() - i,
        {
            assert(enc.take(i + 1 as int).drop_last() =~= enc.take(i as int));
            assert(cv[i as int] == self.components@[i as int]@);
            push_char(&mut u, '/');
            let piece = percent_encode(self.components[i].as_str(), false);
            push_str(&mut u, piece.as_str());
            i = i + 1;
        }
        assert(enc.take(i as int) =~= enc);
        u
    }

    /// The parameters chosen so far: each dynamic segment's name with its
    /// value, the components joined by `/`.
    pub fn params(&self) -> (p: &Vec<(String, String)>)
        ensures
            pair_views(p@) == self@.1,
    {
        &self.params
    }

    /// A copy of the candidate.
    pub fn duplicate(&self) -> (c: Self)
        ensures
            c@ == self@,
    {
        let mut components: Vec<String> = Vec::new();
        let mut i: usize = 0;
        while i < self.components.len()
            invariant
                i <= self.components@.len(),
                string_views(components@) == string_views(self.components@).take(i as int),
            decreases self.components@.len() - i,
        {
            let ghost before = components@;
            let c = self.components[i].clone();
            components.push(c);
            assert(string_views(components@) =~= string_views(before).push(c@));
            assert(string_views(self.components@)[i as int] == self.components@[i as int]@);
            i = i + 1;
            assert(string_views(components@) =~= string_views(self.components@).take(i as int));
        }
        let mut params: Vec<(String, String)> = Vec::new();
        let mut j: usize = 0;
        while j < self.params.len()
            invariant
                j <= self.params@.len(),
                pair_views(params@) == pair_views(self.params@).take(j as int),
            decreases self.params@.len() - j,
        {
            let ghost before = params@;
            let x = (self.params[j].0.clone(), self.params[j].1.clone());
            params.push(x);
            assert(pair_views(params@) =~= pair_views(before).push((x.0@, x.1@)));
            assert(pair_views(self.params@)[j as int] == (self.params@[j as int].0@, self.params@[j as int].1@));
            j = j + 1;
            assert(pair_views(params@) =~= pair_views(self.params@).take(j as int));
        }
        assert(string_views(self.components@).take(i as int) =~= string_views(self.components@));
        assert(pair_views(self.params@).take(j as int) =~= pair_views(self.params@));
        Candidate { components, params }
    }

    fn push_component(&mut self, c: &str)
        ensures
            final(self)@ == (old(self)@.0.push(c@), old(self)@.1),
    {
        let ghost before = self.components@;
        let s = c.to_owned();
        self.components.push(s);
        assert(string_views(self.components@) =~= string_views(before).push(c@));
    }

    fn push_param(&mut self, name: &str, value: String)
        ensures
            final(self)@ == (old(self)@.0, old(self)@.1.push((name@, value@))),
    {
        let ghost before = self.params@;
        let x = (name.to_owned(), value);
        self.params.push(x);
        assert(pair_views(self.params@) =~= pair_views(before).push((name@, x.1@)));
    }

    fn extend_components(&mut self, more: &Vec<String>)
        ensures
            final(self)@ == (old(self)@.0 + string_views(more@), old(self)@.1),
    {
        let ghost start = self@.0;
        let mut i: usize = 0;
        while i < more.len()
            invariant
                i <= more@.len(),
                self@.0 == start + string_views(more@).take(i as int),
                self@.1 == old(self)@.1,
            decreases more@.len() - i,
        {
            assert(string_views(more@)[i as int] == more@[i as int]@);
            self.push_component(more[i].as_str());
            i = i + 1;
            assert(start + string_views(more@).take(i as int) =~= (start + string_views(more@).take(
                i - 1 as int,
            )).push(more@[i - 1]@));
        }
        assert(string_views(more@).take(i as int) =~= string_views(more@));
    }
}

/// Takes the value of the parameter (or catch-all) `name` out of the state
/// `st` of a walk: the components chosen so far and the values not yet used.
pub open spec fn take_value(
    route: Seq<char>,
    name: Seq<char>,
    catch_all: bool,
    st: (Seq<Seq<char>>, ParamsView),
) -> Result<(Seq<Seq<char>>, ParamsView), Seq<char>> {
    match find_value(st.1, name) {
        None => Err(missing_message(route, name)),
        Some(v) => match value_problem(route, name, v, catch_all) {
            Some(e) => Err(e),
            None => Ok((st.0 + v, without(st.1, name))),
        },
    }
}

/// The walk of the first `n` segments of `segs` with the values `pairs`:
/// literal segments add themselves, groups nothing, and a dynamic segment
/// the components of its value, which it uses up.
pub open spec fn explicit_walk(route: Seq<char>, segs: Seq<SegmentView>, pairs: ParamsView, n: int) -> Result<
    (Seq<Seq<char>>, ParamsView),
    Seq<char>,
>
    decreases n,
{
    if n <= 0 {
        Ok((Seq::<Seq<char>>::empty(), pairs))
    } else {
        match explicit_walk(route, segs, pairs, n - 1) {
            Err(e) => Err(e),
            Ok(st) => match segs[n - 1] {
                SegmentView::Static(s) => Ok((st.0.push(s), st.1)),
                SegmentView::Group(_) => Ok(st),
                SegmentView::Param(name) => take_value(route, name, false, st),
                SegmentView::CatchAll(name) => take_value(route, name, true, st),
            },
        }
    }
}

/// The URL an explicitly pathed page renders for one parameter set, or the
/// message of what is wrong with the set: a name given twice, a missing or
/// malformed value, a value the route does not use, or a URL the route
/// does not match.
pub open spec fn explicit_url(route: Seq<char>, pairs: ParamsView) -> Result<Seq<char>, Seq<char>> {
    let segs = route_segments(route);
    if first_duplicate(pairs, 0) is Some {
        Err(duplicate_message(route, first_duplicate(pairs, 0)->0))
    } else {
        match explicit_walk(route, segs, pairs, segs.len() as int) {
            Err(e) => Err(e),
            Ok(st) => if st.1.len() > 0 {
                Err(unknown_message(route, st.1[0].0))
            } else if route_matches(segs, components(url_of(st.0), '/')) {
                Ok(url_of(st.0))
            } else {
                Err(mismatch_message(route, url_of(st.0)))
            },
        }
    }
}

/// Expands the route of an explicitly pathed page with one parameter set.
#[verifier::loop_isolation(false)]
pub fn expand_explicit_params(route: &Path, params: &StaticParams) -> (r: Result<String, StaticExportError>)
    ensures
        ({
            match r {
                Ok(u) => explicit_url(route@, params@) == Ok::<Seq<char>, Seq<char>>(u@),
                Err(e) => explicit_url(route@, params@) == Err::<Seq<char>, Seq<char>>(e@),
            }
        }),
{
    let ghost pv = params@;
    let mut values = match params.into_map(route) {
        Ok(v) => v,
        Err(e) => return Err(e),
    };
    let segs = route.segments();
    let ghost sv = segment_views(segs@);
    let mut candidate = Candidate::root();
    let mut i: usize = 0;
    while i < segs.len()
        invariant
            i <= segs@.len(),
            sv == segment_views(segs@),
            sv == route_segments(route@),
            candidate@.1 == Seq::<(Seq<char>, Seq<char>)>::empty(),
            explicit_walk(route@, sv, pv, i as int) == Ok::<(Seq<Seq<char>>, ParamsView), Seq<char>>(
                (candidate@.0, named_views(values@)),
            ),
        decreases segs@.len() - i,
    {
        assert(sv[i as int] == segs@[i as int]@);
        match &segs[i] {
            PathSegment::Static(value) => {
                candidate.push_component(value.as_str());
            },
            PathSegment::Group(_) => {},
            PathSegment::Param(name) => {
                let value = match take_param(route, &mut values, name.as_str()) {
                    Ok(v) => v,
                    Err(e) => {
                        proof {
                            lemma_explicit_walk_err(route@, sv, pv, i + 1, sv.len() as int);
                        }
                        return Err(e);
                    },
                };
                match validate_segment_value(route, name.as_str(), &value, false) {
                    Ok(()) => {},
                    Err(e) => {
                        proof {
                            lemma_explicit_walk_err(route@, sv, pv, i + 1, sv.len() as int);
                        }
                        return Err(e);
                    },
                }
                candidate.extend_components(value.components());
            },
            PathSegment::CatchAll(name) => {
                let value = match take_param(route, &mut values, name.as_str()) {
                    Ok(v) => v,
                    Err(e) => {
                        proof {
                            lemma_explicit_walk_err(route@, sv, pv, i + 1, sv.len() as int);
                        }
                        return Err(e);
                    },
                };
                match validate_segment_value(route, name.as_str(), &value, true) {
                    Ok(()) => {},
                    Err(e) => {
                        proof {
                            lemma_explicit_walk_err(route@, sv, pv, i + 1, sv.len() as int);
                        }
                        return Err(e);
                    },
                }
                candidate.extend_components(value.components());
            },
        }
        i = i + 1;
    }
    if values.len() > 0 {
        assert(named_views(values@)[0] == (values@[0].0@, values@[0].1@));
        return Err(StaticExportError::unknown(route, values[0].0.as_str()));
    }
    let url_path = candidate.url_path();
    if !route.matches(url_path.as_str()) {
        return Err(StaticExportError::mismatch(route, url_path.as_str()));
    }
    Ok(url_path)
}

/// The literal components of the first `n` segments of `segs`, or the name
/// of the first dynamic segment among them.
pub open spec fn fixed_walk(segs: Seq<SegmentView>, n: int) -> Result<Seq<Seq<char>>, Seq<char>>
    decreases n,
{
    if n <= 0 {
        Ok(Seq::<Seq<char>>::empty())
    } else {
        match fixed_walk(segs, n - 1) {
            Err(name) => Err(name),
            Ok(c) => match segs[n - 1] {
                SegmentView::Static(s) => Ok(c.push(s)),
                SegmentView::Group(_) => Ok(c),
                SegmentView::Param(name) => Err(name),
                SegmentView::CatchAll(name) => Err(name),
            },
        }
    }
}

/// The URL of a page exported without a generator: its route with the
/// groups left out, when the route has no dynamic segment.
pub open spec fn automatic_url(route: Seq<char>) -> Result<Seq<char>, Seq<char>> {
    let segs = route_segments(route);
    match fixed_walk(segs, segs.len() as int) {
        Err(name) => Err(automatic_message(route, name)),
        Ok(c) => Ok(url_of(c)),
    }
}

/// The one URL of a page exported without a generator: its route, which
/// must have no dynamic segment, with the groups left out.
pub fn expand_automatic_page(route: &Path) -> (r: Result<Vec<String>, StaticExportError>)
    ensures
        ({
            match r {
                Ok(v) => v@.len() == 1 && automatic_url(route@) == Ok::<Seq<char>, Seq<char>>(v@[0]@),
                Err(e) => automatic_url(route@) == Err::<Seq<char>, Seq<char>>(e@),
            }
        }),
{
    let segs = route.segments();
    let ghost sv = segment_views(segs@);
    let mut candidate = Candidate::root();
    let mut i: usize = 0;
    while i < segs.len()
        invariant
            i <= segs@.len(),
            sv == segment_views(segs@),
            sv == route_segments(route@),
            fixed_walk(sv, i as int) == Ok::<Seq<Seq<char>>, Seq<char>>(candidate@.0),
        decreases segs@.len() - i,
    {
        assert(sv[i as int] == segs@[i as int]@);
        match &segs[i] {
            PathSegment::Static(value) => {
                candidate.push_component(value.as_str());
            },
            PathSegment::Group(_) => {},
            PathSegment::Param(name) => {
                proof {
                    lemma_fixed_walk_err(sv, i + 1, sv.len() as int);
                }
                return Err(StaticExportError::automatic(route, name.as_str()));
            },
            PathSegment::CatchAll(name) => {
                proof {
                    lemma_fixed_walk_err(sv, i + 1, sv.len() as int);
                }
                return Err(StaticExportError::automatic(route, name.as_str()));
            },
        }
        i = i + 1;
    }
    let url = candidate.url_path();
    let v = vec![url];
    assert(v@[0] == url);
    Ok(v)
}

/// Once a walk fails, walking further segments fails the same way.
proof fn lemma_explicit_walk_err(route: Seq<char>, segs: Seq<SegmentView>, pairs: ParamsView, n: int, m: int)
    requires
        n <= m,
        explicit_walk(route, segs, pairs, n) is Err,
    ensures
        explicit_walk(route, segs, pairs, m) == explicit_walk(route, segs, pairs, n),
    decreases m - n,
{
    if n < m {
        lemma_explicit_walk_err(route, segs, pairs, n, m - 1);
    }
}

/// Once a fixed walk meets a dynamic segment, it reports that one.
proof fn lemma_fixed_walk_err(segs: Seq<SegmentView>, n: int, m: int)
    requires
        n <= m,
        fixed_walk(segs, n) is Err,
    ensures
        fixed_walk(segs, m) == fixed_walk(segs, n),
    decreases m - n,
{
    if n < m {
        lemma_fixed_walk_err(segs, n, m - 1);
    }
}

/// The URLs of the first `n` parameter sets of `sets`, or the message of the
/// first set that fails to expand.
pub open spec fn explicit_urls(route: Seq<char>, sets: Seq<ParamsView>, n: int) -> Result<Seq<Seq<char>>, Seq<char>>
    decreases n,
{
    if n <= 0 {
        Ok(Seq::<Seq<char>>::empty())
    } else {
        match explicit_urls(route, sets, n - 1) {
            Err(e) => Err(e),
            Ok(us) => match explicit_url(route, sets[n - 1]) {
                Err(e) => Err(e),
                Ok(u) => Ok(us.push(u)),
            },
        }
    }
}

/// The URLs of an explicitly pathed page whose generator returned
/// `generated`: one per parameter set, in order, unless the generator
/// failed or a set does not expand.
pub open spec fn explicit_page_urls(route: Seq<char>, generated: Result<Seq<ParamsView>, Seq<char>>) -> Result<
    Seq<Seq<char>>,
    Seq<char>,
> {
    match generated {
        Err(message) => Err(params_failure_message(route, message)),
        Ok(sets) => explicit_urls(route, sets, sets.len() as int),
    }
}

/// The views of a list of parameter sets.
pub open spec fn params_views(v: Seq<StaticParams>) -> Seq<ParamsView> {
    v.map_values(|p: StaticParams| p@)
}

/// The view of what a parameter-set generator returned.
pub open spec fn generated_view(g: Result<Vec<StaticParams>, String>) -> Result<Seq<ParamsView>, Seq<char>> {
    match g {
        Ok(v) => Ok(params_views(v@)),
        Err(m) => Err(m@),
    }
}

proof fn lemma_explicit_urls_err(route: Seq<char>, sets: Seq<ParamsView>, n: int, m: int)
    requires
        n <= m,
        explicit_urls(route, sets, n) is Err,
    ensures
        explicit_urls(route, sets, m) == explicit_urls(route, sets, n),
    decreases m - n,
{
    if n < m {
        lemma_explicit_urls_err(route, sets, n, m - 1);
    }
}

/// The URLs of an explicitly pathed page, given what its generator of
/// parameter sets returned: one URL per set, in order.
#[verifier::loop_isolation(false)]
pub fn expand_explicit_page(route: &Path, generated: Result<Vec<StaticParams>, String>) -> (r: Result<
    Vec<String>,
    StaticExportError,
>)
    ensures
        ({
            match r {
                Ok(v) => explicit_page_urls(route@, generated_view(generated)) == Ok::<
                    Seq<Seq<char>>,
                    Seq<char>,
                >(string_views(v@)),
                Err(e) => explicit_page_urls(route@, generated_view(generated)) == Err::<
                    Seq<Seq<char>>,
                    Seq<char>,
                >(e@),
            }
        }),
{
    let sets = match generated {
        Ok(sets) => sets,
        Err(message) => return Err(StaticExportError::params_failure(route, message.as_str())),
    };
    let ghost sv = params_views(sets@);
    let mut urls: Vec<String> = Vec::new();
    assert(string_views(urls@) =~= Seq::<Seq<char>>::empty());
    let mut i: usize = 0;
    while i < sets.len()
        invariant
            i <= sets@.len(),
            sv == params_views(sets@),
            explicit_urls(route@, sv, i as int) == Ok::<Seq<Seq<char>>, Seq<char>>(string_views(urls@)),
        decreases sets@.len() - i,
    {
        assert(sv[i as int] == sets@[i as int]@);
        match expand_explicit_params(route, &sets[i]) {
            Ok(u) => {
                let ghost before = urls@;
                urls.push(u);
                assert(string_views(urls@) =~= string_views(before).push(u@));
            },
            Err(e) => {
                proof {
                    lemma_explicit_urls_err(route@, sv, i + 1, sv.len() as int);
                }
                return Err(e);
            },
        }
        i = i + 1;
    }
    Ok(urls)
}

/// A segment in the static expansion plan of a module-derived page. A
/// dynamic segment names the segment generator that yields its values, by
/// an identity the router gives each generator, if it has one.
#[derive(Debug, Clone)]
pub enum StaticPageSegment {
    /// A literal segment.
    Static(String),
    /// A group, which adds nothing to a URL.
    Group,
    /// A parameter standing for one URL segment.
    Param { name: String, generator: Option<usize> },
    /// A catch-all standing for one or more URL segments.
    CatchAll { name: String, generator: Option<usize> },
}

/// The abstract form of a [`StaticPageSegment`].
pub enum PageSegmentView {
    Static(Seq<char>),
    Group,
    Param(Seq<char>, Option<usize>),
    CatchAll(Seq<char>, Option<usize>),
}

impl View for StaticPageSegment {
    type V = PageSegmentView;

    open spec fn view(&self) -> PageSegmentView {
        match self {
            StaticPageSegment::Static(s) => PageSegmentView::Static(s@),
            StaticPageSegment::Group => PageSegmentView::Group,
            StaticPageSegment::Param { name, generator } => PageSegmentView::Param(name@, *generator),
            StaticPageSegment::CatchAll { name, generator } => PageSegmentView::CatchAll(name@, *generator),
        }
    }
}

/// The views of a list of plan segments.
pub open spec fn page_segment_views(v: Seq<StaticPageSegment>) -> Seq<PageSegmentView> {
    v.map_values(|s: StaticPageSegment| s@)
}

/// The views of a list of candidates.
pub open spec fn candidate_views(v: Seq<Candidate>) -> Seq<CandidateView> {
    v.map_values(|c: Candidate| c@)
}

/// The views of a list of generated values.
pub open spec fn value_views(v: Seq<StaticSegmentValue>) -> Seq<Seq<Seq<char>>> {
    v.map_values(|x: StaticSegmentValue| x@)
}

/// The candidates `cand` grows into, one per value of `values` in order,
/// each value adding its components and the parameter `name` joined by `/`;
/// or the problem with the first malformed value.
pub open spec fn extend_candidate(
    route: Seq<char>,
    name: Seq<char>,
    catch_all: bool,
    cand: CandidateView,
    values: Seq<Seq<Seq<char>>>,
) -> Result<Seq<CandidateView>, Seq<char>>
    decreases values.len(),
{
    if values.len() == 0 {
        Ok(Seq::<CandidateView>::empty())
    } else {
        match extend_candidate(route, name, catch_all, cand, values.drop_last()) {
            Err(e) => Err(e),
            Ok(cs) => match value_problem(route, name, values.last(), catch_all) {
                Some(e) => Err(e),
                None => Ok(cs.push((cand.0 + values.last(), cand.1.push((name, join(values.last(), '/')))))),
            },
        }
    }
}

/// A dynamic segment being expanded: its generator, name and kind, how many
/// candidates have had their values, and what they grew into.
pub struct PendingView {
    pub generator: usize,
    pub name: Seq<char>,
    pub catch_all: bool,
    pub done: nat,
    pub expanded: Seq<CandidateView>,
}

/// The abstract state of a [`ModuleExpansion`].
pub struct ExpansionView {
    pub route: Seq<char>,
    pub segments: Seq<PageSegmentView>,
    pub next: nat,
    pub candidates: Seq<CandidateView>,
    pub pending: Option<PendingView>,
}

/// What a module-derived page's expansion needs or gives, abstractly.
pub enum StepView {
    Generate { generator: usize, candidate: CandidateView },
    Done(Seq<Seq<char>>),
    Failed(Seq<char>),
}

/// The abstract form of a [`SegmentCache`]: the values each generator gave
/// for each partial URL it ran for.
pub type CacheView = Map<(usize, Seq<char>), Seq<Seq<Seq<char>>>>;

/// Whether a candidate of the segment being expanded awaits its values.
pub open spec fn awaiting(s: ExpansionView) -> bool {
    s.pending is Some && s.pending->Some_0.done < s.candidates.len()
}

/// The key the values for the candidate awaiting them are kept under: the
/// generator and the candidate's URL.
pub open spec fn awaiting_key(s: ExpansionView) -> (usize, Seq<char>) {
    (s.pending->Some_0.generator, url_of(s.candidates[s.pending->Some_0.done as int].0))
}

/// One move of the expansion from `s`: the state it leaves, and what it
/// asks for or gives, if anything (`None` when it just moved on). A
/// candidate whose values `cache` already holds takes them from there;
/// only one whose values it lacks asks for its generator to run.
pub open spec fn transition(s: ExpansionView, cache: CacheView) -> (ExpansionView, Option<StepView>) {
    match s.pending {
        Some(p) => if p.done < s.candidates.len() {
            if cache.contains_key(awaiting_key(s)) {
                match supplied(s, Ok(cache[awaiting_key(s)])) {
                    (t, Some(e)) => (t, Some(StepView::Failed(e))),
                    (t, None) => (t, None),
                }
            } else {
                (s, Some(StepView::Generate { generator: p.generator, candidate: s.candidates[p.done as int] }))
            }
        } else {
            (ExpansionView { next: s.next + 1, candidates: p.expanded, pending: None, ..s }, None)
        },
        None => if s.next >= s.segments.len() {
            (s, Some(StepView::Done(s.candidates.map_values(|c: CandidateView| url_of(c.0)))))
        } else {
            match s.segments[s.next as int] {
                PageSegmentView::Static(v) => (
                    ExpansionView {
                        next: s.next + 1,
                        candidates: s.candidates.map_values(|c: CandidateView| (c.0.push(v), c.1)),
                        ..s
                    },
                    None,
                ),
                PageSegmentView::Group => (ExpansionView { next: s.next + 1, ..s }, None),
                PageSegmentView::Param(name, g) => match g {
                    None => (s, Some(StepView::Failed(no_generator_message(s.route, name)))),
                    Some(generator) => (
                        ExpansionView {
                            pending: Some(
                                PendingView {
                                    generator,
                                    name,
                                    catch_all: false,
                                    done: 0,
                                    expanded: Seq::<CandidateView>::empty(),
                                },
                            ),
                            ..s
                        },
                        None,
                    ),
                },
                PageSegmentView::CatchAll(name, g) => match g {
                    None => (s, Some(StepView::Failed(no_generator_message(s.route, name)))),
                    Some(generator) => (
                        ExpansionView {
                            pending: Some(
                                PendingView {
                                    generator,
                                    name,
                                    catch_all: true,
                                    done: 0,
                                    expanded: Seq::<CandidateView>::empty(),
                                },
                            ),
                            ..s
                        },
                        None,
                    ),
                },
            }
        },
    }
}

/// How far the expansion from `s` is from its end.
pub open spec fn remaining(s: ExpansionView) -> int {
    2 * (s.segments.len() - s.next) + if s.pending is None {
        1int
    } else {
        0int
    }
}

/// How many candidates of the segment being expanded still await values.
pub open spec fn left(s: ExpansionView) -> int {
    match s.pending {
        Some(p) => s.candidates.len() - p.done,
        None => 0,
    }
}

/// Whether `t` is nearer the end of an expansion than `s`: fewer segments
/// to go, or as many and fewer candidates awaiting values.
pub open spec fn nearer(t: ExpansionView, s: ExpansionView) -> bool {
    ||| 0 <= remaining(t) < remaining(s)
    ||| remaining(t) == remaining(s) && 0 <= left(t) < left(s)
}

/// Whether `s` is a state an expansion can be in.
pub open spec fn expansion_wf(s: ExpansionView) -> bool {
    &&& s.next <= s.segments.len()
    &&& s.pending matches Some(p) ==> s.next < s.segments.len() && p.done <= s.candidates.len()
}

/// The moves of the expansion from `s` until it asks for or gives
/// something: the state it then stands in, and what it asks or gives.
///
/// From a state an expansion can be in ([`expansion_wf`]), every move that
/// asks and gives nothing brings the end closer, so the last branch, which
/// stops the recursion otherwise, is never taken from such a state.
pub open spec fn advance(s: ExpansionView, cache: CacheView) -> (ExpansionView, StepView)
    decreases remaining(s), left(s),
{
    let (t, a) = transition(s, cache);
    match a {
        Some(step) => (t, step),
        None => if nearer(t, s) {
            advance(t, cache)
        } else {
            (t, StepView::Failed(Seq::<char>::empty()))
        },
    }
}

/// From a state an expansion can be in, a move that asks and gives nothing
/// brings the end closer and leaves a state it can be in.
pub proof fn lemma_moves_approach_the_end(s: ExpansionView, cache: CacheView)
    requires
        expansion_wf(s),
        transition(s, cache).1 is None,
    ensures
        nearer(transition(s, cache).0, s),
        expansion_wf(transition(s, cache).0),
{
}

/// The expansion asks for a generator to run only for a candidate whose
/// values the cache lacks.
pub proof fn lemma_cached_values_are_reused(s: ExpansionView, cache: CacheView)
    ensures
        advance(s, cache).1 matches StepView::Generate { generator, candidate } ==> !cache.contains_key(
            (generator, url_of(candidate.0)),
        ),
    decreases remaining(s), left(s),
{
    let (t, a) = transition(s, cache);
    if a is None && nearer(t, s) {
        lemma_cached_values_are_reused(t, cache);
    }
}

/// The map a list of cache entries stands for: a later entry for a key
/// overrides an earlier one.
pub open spec fn cache_map(v: Seq<((usize, Seq<char>), Seq<Seq<Seq<char>>>)>) -> CacheView
    decreases v.len(),
{
    if v.len() == 0 {
        Map::<(usize, Seq<char>), Seq<Seq<Seq<char>>>>::empty()
    } else {
        cache_map(v.drop_last()).insert(v.last().0, v.last().1)
    }
}

/// The views of a list of cache entries.
pub open spec fn entry_views(v: Seq<((usize, String), Vec<StaticSegmentValue>)>) -> Seq<
    ((usize, Seq<char>), Seq<Seq<Seq<char>>>),
> {
    v.map_values(|e: ((usize, String), Vec<StaticSegmentValue>)| ((e.0.0, e.0.1@), value_views(e.1@)))
}

/// Entries after position `i` that do not hold `k` leave what the map says
/// of `k` to the first `i`.
proof fn lemma_cache_map_prefix(v: Seq<((usize, Seq<char>), Seq<Seq<Seq<char>>>)>, i: int, k: (usize, Seq<char>))
    requires
        0 <= i <= v.len(),
        forall|m: int| i <= m < v.len() ==> (#[trigger] v[m]).0 != k,
    ensures
        cache_map(v).contains_key(k) == cache_map(v.take(i)).contains_key(k),
        cache_map(v).contains_key(k) ==> cache_map(v)[k] == cache_map(v.take(i))[k],
    decreases v.len(),
{
    if v.len() == i {
        assert(v.take(i) =~= v);
    } else {
        assert(v[v.len() - 1] == v.last());
        assert forall|m: int| i <= m < v.drop_last().len() implies (#[trigger] v.drop_last()[m]).0 != k by {
            assert(v.drop_last()[m] == v[m]);
        }
        lemma_cache_map_prefix(v.drop_last(), i, k);
        assert(v.drop_last().take(i) =~= v.take(i));
    }
}

/// The values segment generators gave, kept by generator and by the partial
/// URL they ran for, so that a generator shared by several pages runs once
/// per URL.
#[derive(Debug)]
pub struct SegmentCache {
    entries: Vec<((usize, String), Vec<StaticSegmentValue>)>,
}

impl View for SegmentCache {
    type V = CacheView;

    closed spec fn view(&self) -> CacheView {
        cache_map(entry_views(self.entries@))
    }
}

/// A copy of a list of values.
fn copy_values(v: &Vec<StaticSegmentValue>) -> (r: Vec<StaticSegmentValue>)
    ensures
        value_views(r@) == value_views(v@),
{
    let mut r: Vec<StaticSegmentValue> = Vec::new();
    let mut i: usize = 0;
    while i < v.len()
        invariant
            i <= v@.len(),
            value_views(r@) == value_views(v@).take(i as int),
        decreases v@.len() - i,
    {
        let ghost before = r@;
        let x = v[i].duplicate();
        r.push(x);
        assert(value_views(r@) =~= value_views(before).push(x@));
        assert(value_views(v@)[i as int] == v@[i as int]@);
        i = i + 1;
        assert(value_views(r@) =~= value_views(v@).take(i as int));
    }
    assert(value_views(v@).take(i as int) =~= value_views(v@));
    r
}

impl SegmentCache {
    /// An empty cache.
    pub fn new() -> (c: Self)
        ensures
            c@ == Map::<(usize, Seq<char>), Seq<Seq<Seq<char>>>>::empty(),
    {
        let c = SegmentCache { entries: Vec::new() };
        assert(entry_views(c.entries@) =~= Seq::<((usize, Seq<char>), Seq<Seq<Seq<char>>>)>::empty());
        c
    }

    /// The values `generator` gave for `url`, if it ran for it.
    pub fn lookup(&self, generator: usize, url: &str) -> (r: Option<Vec<StaticSegmentValue>>)
        ensures
            match r {
                Some(values) => self@.contains_key((generator, url@)) && self@[(generator, url@)] == value_views(
                    values@,
                ),
                None => !self@.contains_key((generator, url@)),
            },
    {
        let ghost ev = entry_views(self.entries@);
        let ghost k = (generator, url@);
        let mut i: usize = self.entries.len();
        while i > 0
            invariant
                i <= self.entries@.len(),
                ev == entry_views(self.entries@),
                k == (generator, url@),
                forall|m: int| i <= m < ev.len() ==> (#[trigger] ev[m]).0 != k,
            decreases i,
        {
            let j = i - 1;
            assert(ev[j as int] == ((self.entries@[j as int].0.0, self.entries@[j as int].0.1@), value_views(
                self.entries@[j as int].1@,
            )));
            if self.entries[j].0.0 == generator && str_eq(self.entries[j].0.1.as_str(), url) {
                proof {
                    assert(ev[j as int].0 == k);
                    lemma_cache_map_prefix(ev, j + 1, k);
                    assert(ev.take(j + 1).drop_last() =~= ev.take(j as int));
                    assert(ev.take(j + 1).last() == ev[j as int]);
                }
                return Some(copy_values(&self.entries[j].1));
            }
            assert(ev[j as int].0 != k);
            i = j;
        }
        proof {
            lemma_cache_map_prefix(ev, 0, k);
            assert(ev.take(0) =~= Seq::<((usize, Seq<char>), Seq<Seq<Seq<char>>>)>::empty());
        }
        None
    }

    /// Keeps `values` as what `generator` gave for `url`.
    pub fn record(&mut self, generator: usize, url: &str, values: &Vec<StaticSegmentValue>)
        ensures
            final(self)@ == old(self)@.insert((generator, url@), value_views(values@)),
    {
        let ghost before = self.entries@;
        let x = ((generator, url.to_owned()), copy_values(values));
        self.entries.push(x);
        assert(self.entries@.drop_last() == before);
        assert(entry_views(self.entries@) =~= entry_views(before).push(((generator, url@), value_views(values@))));
        assert(entry_views(self.entries@).drop_last() =~= entry_views(before));
    }
}

/// What a module-derived page's expansion asks for or gives.
pub enum ModuleStep {
    /// Run the segment generator `generator` in the context of the partial
    /// URL `candidate`, and hand what it returns to
    /// [`ModuleExpansion::supply`].
    Generate { generator: usize, candidate: Candidate },
    /// Every URL of the page, in order.
    Done(Vec<String>),
    /// The page cannot be expanded.
    Failed(StaticExportError),
}

impl View for ModuleStep {
    type V = StepView;

    open spec fn view(&self) -> StepView {
        match self {
            ModuleStep::Generate { generator, candidate } => StepView::Generate {
                generator: *generator,
                candidate: candidate@,
            },
            ModuleStep::Done(urls) => StepView::Done(string_views(urls@)),
            ModuleStep::Failed(e) => StepView::Failed(e@),
        }
    }
}

/// A dynamic segment being expanded.
#[derive(Debug)]
struct PendingSegment {
    generator: usize,
    name: String,
    catch_all: bool,
    done: usize,
    expanded: Vec<Candidate>,
}

/// The expansion of a module-derived page into its URLs.
///
/// Starting from the root, every literal segment is appended to each
/// candidate URL; every dynamic segment replaces each candidate by one
/// candidate per value its segment generator yields in that candidate's
/// context. [`ModuleExpansion::next`] says which generator to run next, and
/// [`ModuleExpansion::supply`] takes what it returned.
#[derive(Debug)]
pub struct ModuleExpansion {
    route: Path,
    segments: Vec<StaticPageSegment>,
    next: usize,
    candidates: Vec<Candidate>,
    pending: Option<PendingSegment>,
}

impl View for ModuleExpansion {
    type V = ExpansionView;

    closed spec fn view(&self) -> ExpansionView {
        ExpansionView {
            route: self.route@,
            segments: page_segment_views(self.segments@),
            next: self.next as nat,
            candidates: candidate_views(self.candidates@),
            pending: match self.pending {
                None => None,
                Some(p) => Some(
                    PendingView {
                        generator: p.generator,
                        name: p.name@,
                        catch_all: p.catch_all,
                        done: p.done as nat,
                        expanded: candidate_views(p.expanded@),
                    },
                ),
            },
        }
    }
}

impl ModuleExpansion {
    /// Whether the expansion is in a state it can be in.
    pub closed spec fn wf(&self) -> bool {
        expansion_wf(self@)
    }

    /// The expansion of the page at `route` whose plan is `segments`,
    /// starting from the root URL.
    pub fn new(route: &Path, segments: Vec<StaticPageSegment>) -> (e: Self)
        ensures
            e.wf(),
            e@ == (ExpansionView {
                route: route@,
                segments: page_segment_views(segments@),
                next: 0,
                candidates: seq![(Seq::<Seq<char>>::empty(), Seq::<(Seq<char>, Seq<char>)>::empty())],
                pending: None,
            }),
    {
        let root = Candidate::root();
        let candidates = vec![root];
        let e = ModuleExpansion { route: route.duplicate(), segments, next: 0, candidates, pending: None };
        assert(candidate_views(e.candidates@) =~= seq![root@]);
        e
    }

    fn urls(&self) -> (v: Vec<String>)
        ensures
            string_views(v@) == self@.candidates.map_values(|c: CandidateView| url_of(c.0)),
    {
        let ghost target = self@.candidates.map_values(|c: CandidateView| url_of(c.0));
        let mut v: Vec<String> = Vec::new();
        let mut i: usize = 0;
        while i < self.candidates.len()
            invariant
                i <= self.candidates@.len(),
                target == self@.candidates.map_values(|c: CandidateView| url_of(c.0)),
                self@.candidates == candidate_views(self.candidates@),
                string_views(v@) == target.take(i as int),
            decreases self.candidates@.len() - i,
        {
            assert(self@.candidates[i as int] == self.candidates@[i as int]@);
            let u = self.candidates[i].url_path();
            let ghost before = v@;
            v.push(u);
            assert(string_views(v@) =~= string_views(before).push(u@));
            i = i + 1;
            assert(string_views(v@) =~= target.take(i as int));
        }
        assert(target.take(i as int) =~= target);
        v
    }

    /// The generator and URL the candidate awaiting values is keyed by, if a
    /// candidate awaits values.
    fn awaiting_url(&self) -> (r: Option<(usize, String)>)
        ensures
            match r {
                Some((g, u)) => awaiting(self@) && (g, u@) == awaiting_key(self@),
                None => !awaiting(self@),
            },
    {
        match &self.pending {
            Some(p) => {
                if p.done < self.candidates.len() {
                    assert(self@.candidates[p.done as int] == self.candidates@[p.done as int]@);
                    Some((p.generator, self.candidates[p.done].url_path()))
                } else {
                    None
                }
            },
            None => None,
        }
    }

    fn transition_once(&mut self, cache: &SegmentCache) -> (a: Option<ModuleStep>)
        requires
            old(self).wf(),
        ensures
            final(self).wf(),
            (final(self)@, match a {
                Some(step) => Some(step@),
                None => None,
            }) == transition(old(self)@, cache@),
    {
        let ghost s = self@;
        match self.awaiting_url() {
            Some((generator, url)) => {
                match cache.lookup(generator, url.as_str()) {
                    Some(values) => {
                        match self.supply_answer(Ok(values)) {
                            Ok(()) => {
                                return None;
                            },
                            Err(e) => {
                                return Some(ModuleStep::Failed(e));
                            },
                        }
                    },
                    None => {
                        let done = match &self.pending {
                            Some(p) => p.done,
                            None => 0,
                        };
                        assert(self@.candidates[done as int] == self.candidates@[done as int]@);
                        let candidate = self.candidates[done].duplicate();
                        return Some(ModuleStep::Generate { generator, candidate });
                    },
                }
            },
            None => {},
        }
        if self.pending.is_some() {
            let p = self.pending.take().unwrap();
            assert(s.next < s.segments.len());
            let n = self.segments.len();
            assert(self.next < n);
            self.next = self.next + 1;
            self.candidates = p.expanded;
            assert(self@ == ExpansionView { next: s.next + 1, candidates: s.pending->0.expanded, pending: None, ..s });
            return None;
        }
        if self.next >= self.segments.len() {
            return Some(ModuleStep::Done(self.urls()));
        }
        assert(s.segments[s.next as int] == self.segments@[self.next as int]@);
        match &self.segments[self.next] {
            StaticPageSegment::Static(v) => {
                let v = v.clone();
                let mut i: usize = 0;
                while i < self.candidates.len()
                    invariant
                        i <= self.candidates@.len(),
                        self.candidates@.len() == s.candidates.len(),
                        self.route@ == s.route,
                        page_segment_views(self.segments@) == s.segments,
                        self.next == s.next,
                        self.pending is None,
                        forall|k: int| 0 <= k < i ==> (#[trigger] self.candidates@[k])@ == (s.candidates[k].0.push(v@), s.candidates[k].1),
                        forall|k: int| i <= k < self.candidates@.len() ==> (#[trigger] self.candidates@[k])@ == s.candidates[k],
                    decreases self.candidates@.len() - i,
                {
                    let mut c = self.candidates.remove(i);
                    c.push_component(v.as_str());
                    self.candidates.insert(i, c);
                    i = i + 1;
                }
                self.next = self.next + 1;
                assert(candidate_views(self.candidates@) =~= s.candidates.map_values(|c: CandidateView| (c.0.push(v@), c.1)));
                None
            },
            StaticPageSegment::Group => {
                self.next = self.next + 1;
                None
            },
            StaticPageSegment::Param { name, generator } => {
                match generator {
                    None => Some(ModuleStep::Failed(StaticExportError::no_generator(&self.route, name.as_str()))),
                    Some(g) => {
                        let p = PendingSegment {
                            generator: *g,
                            name: name.clone(),
                            catch_all: false,
                            done: 0,
                            expanded: Vec::new(),
                        };
                        assert(candidate_views(p.expanded@) =~= Seq::<CandidateView>::empty());
                        self.pending = Some(p);
                        None
                    },
                }
            },
            StaticPageSegment::CatchAll { name, generator } => {
                match generator {
                    None => Some(ModuleStep::Failed(StaticExportError::no_generator(&self.route, name.as_str()))),
                    Some(g) => {
                        let p = PendingSegment {
                            generator: *g,
                            name: name.clone(),
                            catch_all: true,
                            done: 0,
                            expanded: Vec::new(),
                        };
                        assert(candidate_views(p.expanded@) =~= Seq::<CandidateView>::empty());
                        self.pending = Some(p);
                        None
                    },
                }
            },
        }
    }

    /// Moves the expansion on until it needs a generator run, or is done, or
    /// has failed: what [`advance`] describes.
    ///
    /// A candidate whose values `cache` holds takes them from there, so a
    /// generator is asked to run only for a URL it has not run for.
    pub fn next(&mut self, cache: &SegmentCache) -> (step: ModuleStep)
        requires
            old(self).wf(),
        ensures
            final(self).wf(),
            (final(self)@, step@) == advance(old(self)@, cache@),
            step matches ModuleStep::Generate { generator, candidate } ==> !cache@.contains_key(
                (generator, url_of(candidate@.0)),
            ),
    {
        proof {
            lemma_cached_values_are_reused(self@, cache@);
        }
        loop
            invariant
                self.wf(),
                advance(self@, cache@) == advance(old(self)@, cache@),
            decreases remaining(self@), left(self@),
        {
            let ghost before = self@;
            let a = self.transition_once(cache);
            match a {
                Some(step) => {
                    return step;
                },
                None => {
                    proof {
                        lemma_moves_approach_the_end(before, cache@);
                    }
                },
            }
        }
    }
}

/// The strings of `v` joined with `/` between them.
fn join_with_slash(v: &Vec<String>) -> (s: String)
    ensures
        s@ == join(string_views(v@), '/'),
{
    let ghost pv = string_views(v@);
    let mut s = String::new();
    let mut i: usize = 0;
    while i < v.len()
        invariant
            i <= v@.len(),
            pv == string_views(v@),
            s@ == join(pv.take(i as int), '/'),
        decreases v@.len() - i,
    {
        assert(pv[i as int] == v@[i as int]@);
        assert(pv.take(i + 1 as int).drop_last() =~= pv.take(i as int));
        if i > 0 {
            push_char(&mut s, '/');
        } else {
            assert(s@ =~= Seq::<char>::empty());
        }
        push_str(&mut s, v[i].as_str());
        i = i + 1;
        if i == 1 {
            assert(s@ =~= pv.take(1)[0]);
        }
    }
    assert(pv.take(i as int) =~= pv);
    s
}

/// The view of what a segment generator returned.
pub open spec fn answer_view(answer: Result<Vec<StaticSegmentValue>, String>) -> Result<Seq<Seq<Seq<char>>>, Seq<char>> {
    match answer {
        Ok(v) => Ok(value_views(v@)),
        Err(m) => Err(m@),
    }
}

/// The state the expansion from `s` is in once the candidate awaiting
/// values gets `answer` from its generator, with the message of the failure
/// it causes, if any: a failed generator, or a malformed value.
pub open spec fn supplied(s: ExpansionView, answer: Result<Seq<Seq<Seq<char>>>, Seq<char>>) -> (
    ExpansionView,
    Option<Seq<char>>,
) {
    match s.pending {
        Some(p) => if p.done < s.candidates.len() {
            match answer {
                Err(m) => (s, Some(values_failure_message(s.route, p.name, m))),
                Ok(values) => match extend_candidate(
                    s.route,
                    p.name,
                    p.catch_all,
                    s.candidates[p.done as int],
                    values,
                ) {
                    Err(e) => (s, Some(e)),
                    Ok(more) => (
                        ExpansionView {
                            pending: Some(PendingView { done: p.done + 1, expanded: p.expanded + more, ..p }),
                            ..s
                        },
                        None,
                    ),
                },
            }
        } else {
            (s, None)
        },
        None => (s, None),
    }
}

proof fn lemma_extend_candidate_err(
    route: Seq<char>,
    name: Seq<char>,
    catch_all: bool,
    cand: CandidateView,
    values: Seq<Seq<Seq<char>>>,
    n: int,
)
    requires
        0 <= n <= values.len(),
        extend_candidate(route, name, catch_all, cand, values.take(n)) is Err,
    ensures
        extend_candidate(route, name, catch_all, cand, values) == extend_candidate(
            route,
            name,
            catch_all,
            cand,
            values.take(n),
        ),
    decreases values.len() - n,
{
    if n < values.len() {
        assert(values.take(n + 1).drop_last() =~= values.take(n));
        lemma_extend_candidate_err(route, name, catch_all, cand, values, n + 1);
    } else {
        assert(values.take(n) =~= values);
    }
}

impl ModuleExpansion {
    /// Hands the expansion what the generator it asked for returned for the
    /// candidate awaiting values: what [`supplied`] describes. Values the
    /// generator gave are kept in `cache` under the generator and the
    /// candidate's URL, before they are checked. Nothing changes when no
    /// candidate awaits values.
    pub fn supply(&mut self, cache: &mut SegmentCache, answer: Result<Vec<StaticSegmentValue>, String>) -> (r:
        Result<(), StaticExportError>)
        requires
            old(self).wf(),
        ensures
            final(self).wf(),
            (final(self)@, match r {
                Ok(()) => None,
                Err(e) => Some(e@),
            }) == supplied(old(self)@, answer_view(answer)),
            final(cache)@ == (if awaiting(old(self)@) && answer is Ok {
                old(cache)@.insert(awaiting_key(old(self)@), answer_view(answer)->Ok_0)
            } else {
                old(cache)@
            }),
    {
        match self.awaiting_url() {
            Some((generator, url)) => {
                match &answer {
                    Ok(values) => {
                        cache.record(generator, url.as_str(), values);
                    },
                    Err(_) => {},
                }
            },
            None => {},
        }
        self.supply_answer(answer)
    }

    #[verifier::loop_isolation(false)]
    fn supply_answer(&mut self, answer: Result<Vec<StaticSegmentValue>, String>) -> (r: Result<(), StaticExportError>)
        requires
            old(self).wf(),
        ensures
            final(self).wf(),
            (final(self)@, match r {
                Ok(()) => None,
                Err(e) => Some(e@),
            }) == supplied(old(self)@, answer_view(answer)),
    {
        let ghost s = self@;
        if self.pending.is_none() {
            return Ok(());
        }
        let mut p = self.pending.take().unwrap();
        if p.done >= self.candidates.len() {
            self.pending = Some(p);
            assert(self@ == s);
            return Ok(());
        }
        let values = match answer {
            Ok(values) => values,
            Err(message) => {
                let e = StaticExportError::values_failure(&self.route, p.name.as_str(), message.as_str());
                self.pending = Some(p);
                assert(self@ == s);
                return Err(e);
            },
        };
        let ghost vv = value_views(values@);
        let ghost cand = s.candidates[p.done as int];
        assert(cand == self.candidates@[p.done as int]@);
        let mut more: Vec<Candidate> = Vec::new();
        let mut i: usize = 0;
        assert(vv.take(0) =~= Seq::<Seq<Seq<char>>>::empty());
        assert(candidate_views(more@) =~= Seq::<CandidateView>::empty());
        while i < values.len()
            invariant
                i <= values@.len(),
                vv == value_views(values@),
                p.done < self.candidates@.len(),
                self@ == (ExpansionView { pending: None, ..s }),
                p.generator == s.pending->0.generator,
                p.name@ == s.pending->0.name,
                p.catch_all == s.pending->0.catch_all,
                p.done == s.pending->0.done,
                candidate_views(p.expanded@) == s.pending->0.expanded,
                extend_candidate(s.route, p.name@, p.catch_all, cand, vv.take(i as int)) == Ok::<
                    Seq<CandidateView>,
                    Seq<char>,
                >(candidate_views(more@)),
            decreases values@.len() - i,
        {
            assert(vv.take(i + 1 as int).drop_last() =~= vv.take(i as int));
            assert(vv[i as int] == values@[i as int]@);
            match validate_segment_value(&self.route, p.name.as_str(), &values[i], p.catch_all) {
                Ok(()) => {},
                Err(e) => {
                    proof {
                        lemma_extend_candidate_err(s.route, p.name@, p.catch_all, cand, vv, i + 1);
                    }
                    self.pending = Some(p);
                    assert(self@ == s);
                    return Err(e);
                },
            }
            let mut next = self.candidates[p.done].duplicate();
            next.extend_components(values[i].components());
            let joined = join_with_slash(values[i].components());
            next.push_param(p.name.as_str(), joined);
            let ghost before = more@;
            more.push(next);
            assert(candidate_views(more@) =~= candidate_views(before).push(next@));
            i = i + 1;
        }
        assert(vv.take(i as int) =~= vv);
        let ghost old_expanded = candidate_views(p.expanded@);
        let mut k: usize = 0;
        while k < more.len()
            invariant
                k <= more@.len(),
                candidate_views(p.expanded@) == old_expanded + candidate_views(more@).take(k as int),
                self@ == (ExpansionView { pending: None, ..s }),
                p.generator == s.pending->0.generator,
                p.name@ == s.pending->0.name,
                p.catch_all == s.pending->0.catch_all,
                p.done == s.pending->0.done,
                p.done < self.candidates@.len(),
            decreases more@.len() - k,
        {
            let ghost before = p.expanded@;
            let c = more[k].duplicate();
            p.expanded.push(c);
            assert(candidate_views(more@)[k as int] == more@[k as int]@);
            assert(candidate_views(p.expanded@) =~= candidate_views(before).push(c@));
            k = k + 1;
            assert(candidate_views(p.expanded@) =~= old_expanded + candidate_views(more@).take(k as int));
        }
        assert(candidate_views(more@).take(k as int) =~= candidate_views(more@));
        let n = self.candidates.len();
        assert(p.done < n);
        p.done = p.done + 1;
        self.pending = Some(p);
        Ok(())
    }
}

/// A file copied verbatim into a static export.
#[derive(Debug, Clone)]
pub struct StaticFile {
    url_path: String,
    source_path: String,
}

impl View for StaticFile {
    type V = (Seq<char>, Seq<char>);

    closed spec fn view(&self) -> (Seq<char>, Seq<char>) {
        (self.url_path@, self.source_path@)
    }
}

impl StaticFile {
    /// Creates a static file mounted at `url_path`, copied from
    /// `source_path`.
    pub fn new(url_path: &str, source_path: &str) -> (f: Self)
        ensures
            f@ == (url_path@, source_path@),
    {
        StaticFile { url_path: url_path.to_owned(), source_path: source_path.to_owned() }
    }

    /// Returns the public URL path of the file.
    pub fn url_path(&self) -> (u: &str)
        ensures
            u@ == self@.0,
    {
        self.url_path.as_str()
    }

    /// Returns the source file copied during export.
    pub fn source_path(&self) -> (p: &str)
        ensures
            p@ == self@.1,
    {
        self.source_path.as_str()
    }
}

/// One concrete page URL selected for static rendering.
#[derive(Debug)]
pub struct StaticPath {
    url_path: String,
    route: Path,
}

impl View for StaticPath {
    type V = (Seq<char>, Seq<char>);

    closed spec fn view(&self) -> (Seq<char>, Seq<char>) {
        (self.url_path@, self.route@)
    }
}

/// The views of a list of selected URLs.
pub open spec fn static_path_views(v: Seq<StaticPath>) -> Seq<(Seq<char>, Seq<char>)> {
    v.map_values(|p: StaticPath| p@)
}

impl StaticPath {
    /// Returns the concrete URL path.
    pub fn url_path(&self) -> (u: &str)
        ensures
            u@ == self@.0,
    {
        self.url_path.as_str()
    }

    /// Returns the route pattern that generated the URL.
    pub fn route(&self) -> (r: &Path)
        ensures
            r@ == self@.1,
    {
        &self.route
    }
}

/// Whether the URL of the `k`-th entry is generated more than once.
pub open spec fn repeated_at(entries: Seq<(Seq<char>, Seq<char>)>, k: int) -> bool {
    0 <= k < entries.len() && exists|j: int| 0 <= j < entries.len() && j != k && (#[trigger] entries[j]).0 == entries[k].0
}

/// Sorts the URLs every page generated, given as each page's route with its
/// URLs in the order it generated them, into one list ordered by URL.
///
/// Any URL generated more than once, by two pages or by one, is an error;
/// the one reported is the first such URL in that order.
#[verifier::loop_isolation(false)]
pub fn collect_static_paths(generated: Vec<(String, Vec<String>)>) -> (r: Result<Vec<StaticPath>, StaticExportError>)
    ensures
        ({
            let entries = flatten(expanded_views(generated@));
            match r {
                Ok(paths) => (forall|k: int| !#[trigger] repeated_at(entries, k)) && sorted_by_path(
                    static_path_views(paths@),
                ) && static_path_views(paths@).to_multiset() == entries.to_multiset(),
                Err(e) => exists|k: int|
                    #[trigger] repeated_at(entries, k) && e@ == duplicate_url_message(entries[k].0) && (forall|
                        m: int,
                    | #[trigger] repeated_at(entries, m) ==> !lex_lt(entries[m].0, entries[k].0)),
            }
        }),
{
    let ghost entries = flatten(expanded_views(generated@));
    let flat = flatten_entries(&generated);
    assert(path_views(flat@) == entries);

    // The smallest URL generated more than once.
    let mut smallest: Option<usize> = None;
    let mut k: usize = 0;
    while k < flat.len()
        invariant
            k <= flat@.len(),
            path_views(flat@) == entries,
            match smallest {
                None => forall|m: int| 0 <= m < k ==> !#[trigger] path_seen_before(entries, m),
                Some(s) => s < k && repeated_at(entries, s as int) && forall|m: int|
                    0 <= m < k && #[trigger] path_seen_before(entries, m) ==> !lex_lt(entries[m].0, entries[s as int].0),
            },
        decreases flat@.len() - k,
    {
        let mut j: usize = 0;
        let mut seen = false;
        while j < k
            invariant
                j <= k < flat@.len(),
                path_views(flat@) == entries,
                seen ==> path_seen_before(entries, k as int),
                !seen ==> forall|m: int| 0 <= m < j ==> (#[trigger] entries[m]).0 != entries[k as int].0,
            decreases k - j,
        {
            assert(entries[j as int] == flat@[j as int]@ && entries[k as int] == flat@[k as int]@);
            if str_eq(flat[j].path.as_str(), flat[k].path.as_str()) {
                seen = true;
            }
            j = j + 1;
        }
        assert(entries[k as int] == flat@[k as int]@);
        if seen {
            proof {
                let w = choose|w: int| 0 <= w < k && (#[trigger] entries[w]).0 == entries[k as int].0;
                assert(repeated_at(entries, k as int));
            }
            match smallest {
                None => {
                    proof {
                        lemma_lex_irreflexive(entries[k as int].0);
                        assert forall|m: int| 0 <= m < k + 1 && #[trigger] path_seen_before(entries, m) implies !lex_lt(
                            entries[m].0,
                            entries[k as int].0,
                        ) by {
                            if m < k {
                                assert(!path_seen_before(entries, m));
                            }
                        }
                    }
                    smallest = Some(k);
                },
                Some(s) => {
                    assert(entries[s as int] == flat@[s as int]@);
                    if str_lt(flat[k].path.as_str(), flat[s].path.as_str()) {
                        proof {
                            assert forall|m: int| 0 <= m < k + 1 && #[trigger] path_seen_before(entries, m) implies !lex_lt(
                                entries[m].0,
                                entries[k as int].0,
                            ) by {
                                if m < k {
                                    lemma_lex_total(entries[m].0, entries[s as int].0);
                                    if lex_lt(entries[m].0, entries[k as int].0) {
                                        lemma_lex_transitive(entries[m].0, entries[k as int].0, entries[s as int].0);
                                    }
                                } else {
                                    lemma_lex_irreflexive(entries[k as int].0);
                                }
                            }
                        }
                        smallest = Some(k);
                    } else {
                        proof {
                            lemma_lex_total(entries[k as int].0, entries[s as int].0);
                        }
                    }
                },
            }
        } else {
            assert(!path_seen_before(entries, k as int));
            proof {
                match smallest {
                    None => {
                        assert forall|m: int| 0 <= m < k + 1 implies !#[trigger] path_seen_before(entries, m) by {
                            if m == k {
                                assert(!path_seen_before(entries, k as int));
                            }
                        }
                    },
                    Some(s) => {
                        assert forall|m: int| 0 <= m < k + 1 && #[trigger] path_seen_before(entries, m) implies !lex_lt(
                            entries[m].0,
                            entries[s as int].0,
                        ) by {
                            if m == k {
                                assert(!path_seen_before(entries, k as int));
                            }
                        }
                    },
                }
            }
        }
        k = k + 1;
    }

    match smallest {
        Some(s) => {
            proof {
                assert forall|m: int| #[trigger] repeated_at(entries, m) implies !lex_lt(entries[m].0, entries[s as int].0) by {
                    // Of the two entries sharing that URL, the later one was
                    // seen after the earlier.
                    let j = choose|j: int| 0 <= j < entries.len() && j != m && (#[trigger] entries[j]).0 == entries[m].0;
                    if j < m {
                        assert(path_seen_before(entries, m));
                    } else {
                        assert(entries[m].0 == entries[j].0);
                        assert(path_seen_before(entries, j));
                    }
                }
            }
            Err(StaticExportError::duplicate_url(flat[s].path.as_str()))
        },
        None => {
            proof {
                lemma_first_conflict_skip(entries, k as int);
                assert forall|m: int| !#[trigger] repeated_at(entries, m) by {
                    if repeated_at(entries, m) {
                        let j = choose|j: int| 0 <= j < entries.len() && j != m && (#[trigger] entries[j]).0 == entries[m].0;
                        if j < m {
                            assert(path_seen_before(entries, m));
                        } else {
                            assert(entries[m].0 == entries[j].0);
                            assert(path_seen_before(entries, j));
                        }
                    }
                }
            }
            match collect_paths(generated) {
                Ok(sorted) => {
                    let mut paths: Vec<StaticPath> = Vec::new();
                    let mut i: usize = 0;
                    while i < sorted.len()
                        invariant
                            i <= sorted@.len(),
                            static_path_views(paths@) == path_views(sorted@).take(i as int),
                        decreases sorted@.len() - i,
                    {
                        let ghost before = paths@;
                        let x = StaticPath { url_path: sorted[i].path.clone(), route: Path::new(sorted[i].route.as_str()) };
                        paths.push(x);
                        assert(path_views(sorted@)[i as int] == sorted@[i as int]@);
                        assert(static_path_views(paths@) =~= static_path_views(before).push(x@));
                        i = i + 1;
                        assert(static_path_views(paths@) =~= path_views(sorted@).take(i as int));
                    }
                    assert(path_views(sorted@).take(i as int) =~= path_views(sorted@));
                    Ok(paths)
                },
                Err(e) => Err(StaticExportError::new(e.to_string())),
            }
        },
    }
}

/// How a page's concrete export URLs are generated: by expanding its plan
/// of segments, or by the generator of complete parameter sets declared on
/// the page (named by the identity the router gives it).
#[derive(Debug, Clone)]
pub enum StaticPageSource {
    /// A module-derived page and its plan of segments.
    Module(Vec<StaticPageSegment>),
    /// An explicitly pathed page and its generator of parameter sets.
    Explicit(usize),
}

/// A page retained by the router for static path generation. A page
/// without a source is exported at its route, which must be fixed.
#[derive(Debug, Clone)]
pub struct StaticPage {
    path: Path,
    source: Option<StaticPageSource>,
}

impl StaticPage {
    /// The route of the page.
    pub closed spec fn route_view(&self) -> Seq<char> {
        self.path@
    }

    /// Where the page's URLs come from.
    pub closed spec fn source_view(&self) -> Option<StaticPageSource> {
        self.source
    }

    /// The page at `path` whose URLs come from `source`.
    pub fn new(path: Path, source: Option<StaticPageSource>) -> (p: Self)
        ensures
            p.route_view() == path@,
            p.source_view() == source,
    {
        StaticPage { path, source }
    }

    /// The route of the page.
    pub fn path(&self) -> (p: &Path)
        ensures
            p@ == self.route_view(),
    {
        &self.path
    }

    /// Where the page's URLs come from.
    pub fn source(&self) -> (s: &Option<StaticPageSource>)
        ensures
            *s == self.source_view(),
    {
        &self.source
    }
}

/// The pages and files of a router that a static export covers.
#[derive(Debug)]
pub struct Router {
    static_pages: Vec<StaticPage>,
    static_files: Vec<StaticFile>,
}

impl Router {
    /// The pages the router exports.
    pub closed spec fn pages(&self) -> Seq<StaticPage> {
        self.static_pages@
    }

    /// The files the router exports.
    pub closed spec fn files(&self) -> Seq<StaticFile> {
        self.static_files@
    }

    /// A router exporting `static_pages` and `static_files`.
    pub fn new(static_pages: Vec<StaticPage>, static_files: Vec<StaticFile>) -> (r: Self)
        ensures
            r.pages() == static_pages@,
            r.files() == static_files@,
    {
        Router { static_pages, static_files }
    }

    /// Returns every page retained for static path generation.
    pub fn static_pages(&self) -> (p: &[StaticPage])
        ensures
            p@ == self.pages(),
    {
        self.static_pages.as_slice()
    }

    /// Returns every file registered for copying into a static export.
    pub fn static_files(&self) -> (f: &[StaticFile])
        ensures
            f@ == self.files(),
    {
        self.static_files.as_slice()
    }
}

proof fn lemma_find_without(pairs: ParamsView, name: Seq<char>, x: Seq<char>)
    ensures
        x != name ==> find_value(without(pairs, name), x) == find_value(pairs, x),
        find_value(without(pairs, name), name) is None,
    decreases pairs.len(),
{
    if pairs.len() > 0 {
        lemma_find_without(pairs.drop_last(), name, x);
        if pairs.last().0 != name {
            assert(without(pairs, name).drop_last() =~= without(pairs.drop_last(), name));
        }
    }
}

/// A walk uses up only the values of the dynamic segments it passed, and
/// gains none.
proof fn lemma_walk_keeps(route: Seq<char>, segs: Seq<SegmentView>, pairs: ParamsView, n: int, x: Seq<char>)
    requires
        0 <= n <= segs.len(),
        explicit_walk(route, segs, pairs, n) is Ok,
    ensures
        find_value(pairs, x) is None ==> find_value((explicit_walk(route, segs, pairs, n)->Ok_0).1, x) is None,
        (forall|i: int| 0 <= i < n ==> !((#[trigger] segs[i]).is_dynamic() && segs[i].dynamic_name() == x))
            ==> find_value((explicit_walk(route, segs, pairs, n)->Ok_0).1, x) == find_value(pairs, x),
    decreases n,
{
    if n > 0 {
        lemma_walk_keeps(route, segs, pairs, n - 1, x);
        let st = explicit_walk(route, segs, pairs, n - 1)->Ok_0;
        match segs[n - 1] {
            SegmentView::Param(name) => {
                lemma_find_without(st.1, name, x);
            },
            SegmentView::CatchAll(name) => {
                lemma_find_without(st.1, name, x);
            },
            _ => {},
        }
    }
}

proof fn lemma_walk_missing(route: Seq<char>, segs: Seq<SegmentView>, pairs: ParamsView, i: int)
    requires
        0 <= i < segs.len(),
        segs[i].is_dynamic(),
        find_value(pairs, segs[i].dynamic_name()) is None,
    ensures
        explicit_walk(route, segs, pairs, i + 1) is Err,
{
    if explicit_walk(route, segs, pairs, i) is Ok {
        lemma_walk_keeps(route, segs, pairs, i, segs[i].dynamic_name());
    }
}

proof fn lemma_find_value_some(pairs: ParamsView, k: int)
    requires
        0 <= k < pairs.len(),
    ensures
        find_value(pairs, pairs[k].0) is Some,
    decreases pairs.len(),
{
    if k < pairs.len() - 1 {
        lemma_find_value_some(pairs.drop_last(), k);
    }
}

proof fn lemma_first_duplicate_found(pairs: ParamsView, i: int, j: int)
    requires
        0 <= i <= j < pairs.len(),
        named_earlier(pairs, j),
    ensures
        first_duplicate(pairs, i) is Some,
    decreases j - i,
{
    if i < j && !named_earlier(pairs, i) {
        lemma_first_duplicate_found(pairs, i + 1, j);
    }
}

/// A parameter set that leaves out a dynamic segment of the route fails to
/// expand.
pub proof fn lemma_sets_missing_a_segment_fail(route: Seq<char>, pairs: ParamsView, name: Seq<char>)
    requires
        declares(route_segments(route), name),
        find_value(pairs, name) is None,
    ensures
        explicit_url(route, pairs) is Err,
{
    let segs = route_segments(route);
    let i = choose|i: int| 0 <= i < segs.len() && (#[trigger] segs[i]).is_dynamic() && segs[i].dynamic_name() == name;
    lemma_walk_missing(route, segs, pairs, i);
    lemma_explicit_walk_err(route, segs, pairs, i + 1, segs.len() as int);
}

/// A parameter set naming something the route does not declare fails to
/// expand.
pub proof fn lemma_sets_with_unknown_names_fail(route: Seq<char>, pairs: ParamsView, k: int)
    requires
        0 <= k < pairs.len(),
        !declares(route_segments(route), pairs[k].0),
    ensures
        explicit_url(route, pairs) is Err,
{
    let segs = route_segments(route);
    if first_duplicate(pairs, 0) is None && explicit_walk(route, segs, pairs, segs.len() as int) is Ok {
        lemma_find_value_some(pairs, k);
        lemma_walk_keeps(route, segs, pairs, segs.len() as int, pairs[k].0);
        let rest = (explicit_walk(route, segs, pairs, segs.len() as int)->Ok_0).1;
        assert(find_value(rest, pairs[k].0) is Some);
        assert(rest.len() > 0);
    }
}

/// A parameter set naming one name twice fails to expand.
pub proof fn lemma_sets_repeating_a_name_fail(route: Seq<char>, pairs: ParamsView, i: int, j: int)
    requires
        0 <= i < j < pairs.len(),
        pairs[i].0 == pairs[j].0,
    ensures
        explicit_url(route, pairs) is Err,
{
    assert(named_earlier(pairs, j));
    lemma_first_duplicate_found(pairs, 0, j);
}

/// Every URL an explicitly pathed page expands to is one its route matches.
pub proof fn lemma_expanded_urls_match_their_route(route: Seq<char>, pairs: ParamsView)
    requires
        explicit_url(route, pairs) is Ok,
    ensures
        route_matches(route_segments(route), components(explicit_url(route, pairs)->Ok_0, '/')),
{
}

/// Whether every literal segment of `segs` is written in a URL as it stands,
/// with nothing to escape.
pub open spec fn plain_literals(segs: Seq<SegmentView>) -> bool {
    forall|i: int|
        0 <= i < segs.len() ==> (#[trigger] segs[i] matches SegmentView::Static(s) ==> percent_encoded(s, false) == s)
}

/// Whether no two dynamic segments of `segs` share a name.
pub open spec fn distinct_dynamic_names(segs: Seq<SegmentView>) -> bool {
    forall|i: int, j: int|
        0 <= i < j < segs.len() && (#[trigger] segs[i]).is_dynamic() && (#[trigger] segs[j]).is_dynamic()
            ==> segs[i].dynamic_name() != segs[j].dynamic_name()
}

/// Whether `pairs` gives each dynamic segment of `segs` a value of the shape
/// it takes: one non-empty component for a parameter, and one or more for a
/// catch-all.
pub open spec fn shaped_values(route: Seq<char>, segs: Seq<SegmentView>, pairs: ParamsView) -> bool {
    forall|i: int|
        0 <= i < segs.len() && (#[trigger] segs[i]).is_dynamic() ==> find_value(pairs, segs[i].dynamic_name()) is Some
            && value_problem(
            route,
            segs[i].dynamic_name(),
            find_value(pairs, segs[i].dynamic_name())->Some_0,
            segs[i] is CatchAll,
        ) is None
}

/// The components the segment `seg` adds to a URL with the values `pairs`.
pub open spec fn seg_components(seg: SegmentView, pairs: ParamsView) -> Seq<Seq<char>> {
    match seg {
        SegmentView::Static(s) => seq![s],
        SegmentView::Group(_) => Seq::<Seq<char>>::empty(),
        SegmentView::Param(name) => find_value(pairs, name)->Some_0,
        SegmentView::CatchAll(name) => find_value(pairs, name)->Some_0,
    }
}

/// The components the first `n` segments add.
pub open spec fn comps_upto(segs: Seq<SegmentView>, pairs: ParamsView, n: int) -> Seq<Seq<char>>
    decreases n,
{
    if n <= 0 {
        Seq::<Seq<char>>::empty()
    } else {
        comps_upto(segs, pairs, n - 1) + seg_components(segs[n - 1], pairs)
    }
}

/// The components the segments from position `i` on add.
pub open spec fn comps_from(segs: Seq<SegmentView>, pairs: ParamsView, i: int) -> Seq<Seq<char>>
    decreases segs.len() - i,
{
    if i < 0 || i >= segs.len() {
        Seq::<Seq<char>>::empty()
    } else {
        seg_components(segs[i], pairs) + comps_from(segs, pairs, i + 1)
    }
}

/// Whether a dynamic segment among the first `n` of `segs` is named `x`.
pub open spec fn named_before(segs: Seq<SegmentView>, n: int, x: Seq<char>) -> bool {
    exists|j: int| 0 <= j < n && (#[trigger] segs[j]).is_dynamic() && segs[j].dynamic_name() == x
}

/// The encoded form of each component.
pub open spec fn encoded_all(c: Seq<Seq<char>>) -> Seq<Seq<char>> {
    c.map_values(|x: Seq<char>| percent_encoded(x, false))
}

proof fn lemma_find_value_names(pairs: ParamsView, x: Seq<char>)
    requires
        find_value(pairs, x) is Some,
    ensures
        exists|k: int| 0 <= k < pairs.len() && (#[trigger] pairs[k]).0 == x,
    decreases pairs.len(),
{
    if find_value(pairs.drop_last(), x) is Some {
        lemma_find_value_names(pairs.drop_last(), x);
        let k = choose|k: int| 0 <= k < pairs.drop_last().len() && (#[trigger] pairs.drop_last()[k]).0 == x;
        assert(pairs[k] == pairs.drop_last()[k]);
    } else {
        assert(pairs[pairs.len() - 1] == pairs.last());
    }
}

proof fn lemma_first_duplicate_none(pairs: ParamsView, i: int)
    requires
        0 <= i,
        forall|a: int, b: int| 0 <= a < b < pairs.len() ==> (#[trigger] pairs[a]).0 != (#[trigger] pairs[b]).0,
    ensures
        first_duplicate(pairs, i) is None,
    decreases pairs.len() - i,
{
    if i < pairs.len() {
        assert(!named_earlier(pairs, i));
        lemma_first_duplicate_none(pairs, i + 1);
    }
}

/// The walk of a complete, well-shaped set goes through, adding each
/// segment's components and using up the values of the segments it passed.
proof fn lemma_complete_walk(route: Seq<char>, pairs: ParamsView, n: int)
    requires
        0 <= n <= route_segments(route).len(),
        distinct_dynamic_names(route_segments(route)),
        shaped_values(route, route_segments(route), pairs),
    ensures
        explicit_walk(route, route_segments(route), pairs, n) is Ok,
        explicit_walk(route, route_segments(route), pairs, n)->Ok_0.0 == comps_upto(route_segments(route), pairs, n),
        forall|x: Seq<char>|
            #[trigger] named_before(route_segments(route), n, x) ==> find_value(
                explicit_walk(route, route_segments(route), pairs, n)->Ok_0.1,
                x,
            ) is None,
    decreases n,
{
    let segs = route_segments(route);
    if n > 0 {
        lemma_complete_walk(route, pairs, n - 1);
        let st = explicit_walk(route, segs, pairs, n - 1)->Ok_0;
        let seg = segs[n - 1];
        if seg.is_dynamic() {
            let m = seg.dynamic_name();
            assert forall|i: int| 0 <= i < n - 1 implies !((#[trigger] segs[i]).is_dynamic() && segs[i].dynamic_name() == m) by {
                if segs[i].is_dynamic() && segs[i].dynamic_name() == m {
                    assert(segs[n - 1].is_dynamic());
                }
            }
            lemma_walk_keeps(route, segs, pairs, n - 1, m);
            assert(find_value(st.1, m) == find_value(pairs, m));
            assert(shaped_values(route, segs, pairs));
            assert(find_value(pairs, m) is Some);
            let rest = without(st.1, m);
            assert forall|x: Seq<char>| #[trigger] named_before(segs, n, x) implies find_value(rest, x) is None by {
                lemma_find_without(st.1, m, x);
                if x != m {
                    let j = choose|j: int| 0 <= j < n && (#[trigger] segs[j]).is_dynamic() && segs[j].dynamic_name() == x;
                    assert(j < n - 1);
                    assert(named_before(segs, n - 1, x));
                }
            }
        } else {
            assert forall|x: Seq<char>| #[trigger] named_before(segs, n, x) implies named_before(segs, n - 1, x) by {
                let j = choose|j: int| 0 <= j < n && (#[trigger] segs[j]).is_dynamic() && segs[j].dynamic_name() == x;
                assert(j < n - 1);
            }
        }
    }
}

/// Taking the first `n` segments' components, then the rest's, takes them
/// all.
proof fn lemma_comps_split(segs: Seq<SegmentView>, pairs: ParamsView, n: int)
    requires
        0 <= n <= segs.len(),
    ensures
        comps_upto(segs, pairs, n) + comps_from(segs, pairs, n) == comps_from(segs, pairs, 0),
    decreases n,
{
    if n == 0 {
        assert(Seq::<Seq<char>>::empty() + comps_from(segs, pairs, 0) =~= comps_from(segs, pairs, 0));
    } else {
        lemma_comps_split(segs, pairs, n - 1);
        assert(comps_upto(segs, pairs, n - 1) + seg_components(segs[n - 1], pairs) + comps_from(segs, pairs, n)
            =~= comps_upto(segs, pairs, n - 1) + (seg_components(segs[n - 1], pairs) + comps_from(segs, pairs, n)));
    }
}

/// The components of a URL joined from non-empty, `/`-free pieces are the
/// pieces.
proof fn lemma_prefix_join_components(pieces: Seq<Seq<char>>)
    requires
        forall|i: int| 0 <= i < pieces.len() ==> (#[trigger] pieces[i]).len() > 0 && !pieces[i].contains('/'),
    ensures
        components(prefix_join(pieces, '/'), '/') == pieces,
    decreases pieces.len(),
{
    if pieces.len() == 0 {
        lemma_components_of_nothing('/');
        assert(components(prefix_join(pieces, '/'), '/') =~= pieces);
    } else {
        let init = pieces.drop_last();
        assert forall|i: int| 0 <= i < init.len() implies (#[trigger] init[i]).len() > 0 && !init[i].contains('/') by {
            assert(init[i] == pieces[i]);
        }
        lemma_prefix_join_components(init);
        assert(pieces[pieces.len() - 1] == pieces.last());
        lemma_components_after_sep(prefix_join(init, '/'), pieces.last(), '/');
        lemma_components_plain(pieces.last(), '/');
        assert(init + seq![pieces.last()] =~= pieces);
    }
}

/// The components of the URL of non-empty components are those components,
/// each encoded.
proof fn lemma_url_components(c: Seq<Seq<char>>)
    requires
        forall|i: int| 0 <= i < c.len() ==> (#[trigger] c[i]).len() > 0,
    ensures
        components(url_of(c), '/') == encoded_all(c),
{
    let e = encoded_all(c);
    if c.len() == 0 {
        lemma_components_of_nothing('/');
        assert(components(url_of(c), '/') =~= e);
    } else {
        assert forall|i: int| 0 <= i < e.len() implies (#[trigger] e[i]).len() > 0 && !e[i].contains('/') by {
            assert(e[i] == percent_encoded(c[i], false));
            lemma_encoded_nonempty(c[i], false);
            lemma_encoded_segment_lacks_slash(vstd::utf8::encode_utf8(c[i]));
        }
        lemma_prefix_join_components(e);
    }
}

proof fn lemma_groups_match_empty(segs: Seq<SegmentView>, pairs: ParamsView, i: int)
    requires
        0 <= i <= segs.len(),
        forall|j: int| i <= j < segs.len() ==> (#[trigger] segs[j]) is Group,
    ensures
        comps_from(segs, pairs, i) == Seq::<Seq<char>>::empty(),
        route_matches(segs.skip(i), Seq::<Seq<char>>::empty()),
    decreases segs.len() - i,
{
    if i < segs.len() {
        lemma_groups_match_empty(segs, pairs, i + 1);
        assert(segs.skip(i).drop_first() =~= segs.skip(i + 1));
        assert(segs.skip(i)[0] == segs[i]);
        assert(seg_components(segs[i], pairs) + comps_from(segs, pairs, i + 1) =~= Seq::<Seq<char>>::empty());
    } else {
        assert(segs.skip(i) =~= Seq::<SegmentView>::empty());
    }
}

/// The segments from `i` on match the encoded components they add.
proof fn lemma_encoded_comps_match(route: Seq<char>, pairs: ParamsView, i: int)
    requires
        0 <= i <= route_segments(route).len(),
        catch_all_last(route_segments(route)),
        plain_literals(route_segments(route)),
        shaped_values(route, route_segments(route), pairs),
    ensures
        route_matches(route_segments(route).skip(i), encoded_all(comps_from(route_segments(route), pairs, i))),
    decreases route_segments(route).len() - i,
{
    let segs = route_segments(route);
    if i == segs.len() {
        assert(segs.skip(i) =~= Seq::<SegmentView>::empty());
        assert(encoded_all(comps_from(segs, pairs, i)) =~= Seq::<Seq<char>>::empty());
    } else {
        let here = seg_components(segs[i], pairs);
        let rest = comps_from(segs, pairs, i + 1);
        let p = encoded_all(comps_from(segs, pairs, i));
        assert(p =~= encoded_all(here) + encoded_all(rest));
        assert(segs.skip(i).drop_first() =~= segs.skip(i + 1));
        assert(segs.skip(i)[0] == segs[i]);
        match segs[i] {
            SegmentView::Group(_) => {
                lemma_encoded_comps_match(route, pairs, i + 1);
                assert(p =~= encoded_all(rest));
            },
            SegmentView::Static(s) => {
                lemma_encoded_comps_match(route, pairs, i + 1);
                assert(percent_encoded(s, false) == s);
                assert(p[0] == s);
                assert(p.drop_first() =~= encoded_all(rest));
            },
            SegmentView::Param(name) => {
                lemma_encoded_comps_match(route, pairs, i + 1);
                assert(segs[i].is_dynamic());
                assert(here.len() == 1);
                assert(p.drop_first() =~= encoded_all(rest));
            },
            SegmentView::CatchAll(name) => {
                assert forall|j: int| i + 1 <= j < segs.len() implies (#[trigger] segs[j]) is Group by {
                    assert(segs[i] is CatchAll);
                }
                lemma_groups_match_empty(segs, pairs, i + 1);
                assert(segs[i].is_dynamic());
                assert(here.len() > 0);
                assert(p.len() > 0);
            },
        }
    }
}

/// A parameter set that names each dynamic segment of the route once, with
/// a value of the shape it takes, and names nothing else, expands, when the
/// route's literals need no escaping, its dynamic segments have distinct
/// names, and nothing but groups follows a catch-all.
pub proof fn lemma_complete_parameter_sets_expand(route: Seq<char>, pairs: ParamsView)
    requires
        forall|a: int, b: int| 0 <= a < b < pairs.len() ==> (#[trigger] pairs[a]).0 != (#[trigger] pairs[b]).0,
        forall|k: int| 0 <= k < pairs.len() ==> declares(route_segments(route), (#[trigger] pairs[k]).0),
        shaped_values(route, route_segments(route), pairs),
        distinct_dynamic_names(route_segments(route)),
        plain_literals(route_segments(route)),
        catch_all_last(route_segments(route)),
    ensures
        explicit_url(route, pairs) is Ok,
{
    let segs = route_segments(route);
    let n = segs.len() as int;
    lemma_first_duplicate_none(pairs, 0);
    lemma_complete_walk(route, pairs, n);
    let st = explicit_walk(route, segs, pairs, n)->Ok_0;
    // Nothing is left over: every name given is that of a segment passed.
    if st.1.len() > 0 {
        let x = st.1[0].0;
        lemma_find_value_some(st.1, 0);
        lemma_walk_keeps(route, segs, pairs, n, x);
        lemma_find_value_names(pairs, x);
        let k = choose|k: int| 0 <= k < pairs.len() && (#[trigger] pairs[k]).0 == x;
        assert(declares(segs, pairs[k].0));
        let i = choose|i: int| 0 <= i < segs.len() && (#[trigger] segs[i]).is_dynamic() && segs[i].dynamic_name() == x;
        assert(named_before(segs, n, x));
        assert(false);
    }
    // The URL is made of the encoded components, which the route matches.
    lemma_comps_split(segs, pairs, n);
    assert(comps_from(segs, pairs, n) =~= Seq::<Seq<char>>::empty());
    assert(st.0 =~= comps_from(segs, pairs, 0));
    lemma_static_segments_lack_slash(route);
    assert forall|j: int| 0 <= j < st.0.len() implies (#[trigger] st.0[j]).len() > 0 by {
        lemma_comps_nonempty(route, pairs, 0, j);
    }
    lemma_url_components(st.0);
    lemma_encoded_comps_match(route, pairs, 0);
    assert(segs.skip(0) =~= segs);
}

/// Every component a complete, well-shaped set adds is non-empty.
proof fn lemma_comps_nonempty(route: Seq<char>, pairs: ParamsView, i: int, j: int)
    requires
        0 <= i <= route_segments(route).len(),
        0 <= j < comps_from(route_segments(route), pairs, i).len(),
        shaped_values(route, route_segments(route), pairs),
    ensures
        comps_from(route_segments(route), pairs, i)[j].len() > 0,
    decreases route_segments(route).len() - i,
{
    let segs = route_segments(route);
    let here = seg_components(segs[i], pairs);
    lemma_static_segments_lack_slash(route);
    if j < here.len() {
        assert(comps_from(segs, pairs, i)[j] == here[j]);
        if segs[i].is_dynamic() {
            assert(here[j].len() != 0);
        }
    } else {
        assert(comps_from(segs, pairs, i)[j] == comps_from(segs, pairs, i + 1)[j - here.len()]);
        lemma_comps_nonempty(route, pairs, i + 1, j - here.len());
    }
}

/// The literals among the first `n` segments of a plan, in order.
pub open spec fn plan_literals(segments: Seq<PageSegmentView>, n: int) -> Seq<Seq<char>>
    decreases n,
{
    if n <= 0 {
        Seq::<Seq<char>>::empty()
    } else {
        match segments[n - 1] {
            PageSegmentView::Static(v) => plan_literals(segments, n - 1).push(v),
            _ => plan_literals(segments, n - 1),
        }
    }
}

/// The state of the expansion of a plan of literals and groups after its
/// first `k` segments.
pub open spec fn fixed_state(route: Seq<char>, segments: Seq<PageSegmentView>, k: int) -> ExpansionView {
    ExpansionView {
        route,
        segments,
        next: k as nat,
        candidates: seq![(plan_literals(segments, k), Seq::<(Seq<char>, Seq<char>)>::empty())],
        pending: None,
    }
}

proof fn lemma_fixed_plan_from(route: Seq<char>, segments: Seq<PageSegmentView>, k: int, cache: CacheView)
    requires
        0 <= k <= segments.len(),
        forall|i: int| 0 <= i < segments.len() ==> (#[trigger] segments[i]) is Static || segments[i] is Group,
    ensures
        advance(fixed_state(route, segments, k), cache).1 == StepView::Done(
            seq![url_of(plan_literals(segments, segments.len() as int))],
        ),
    decreases segments.len() - k,
{
    let s = fixed_state(route, segments, k);
    if k == segments.len() {
        assert(s.candidates.map_values(|c: CandidateView| url_of(c.0)) =~= seq![
            url_of(plan_literals(segments, segments.len() as int)),
        ]);
    } else {
        lemma_fixed_plan_from(route, segments, k + 1, cache);
        let t = fixed_state(route, segments, k + 1);
        match segments[k] {
            PageSegmentView::Static(v) => {
                assert(s.candidates.map_values(|c: CandidateView| (c.0.push(v), c.1)) =~= t.candidates);
            },
            _ => {
                assert(s.candidates =~= t.candidates);
            },
        }
        assert(transition(s, cache) == (t, None::<StepView>));
        assert(remaining(t) < remaining(s));
    }
}

/// A module-derived page whose plan holds only literals and groups runs no
/// generator, whatever the cache holds: its expansion is done at once, with
/// the one URL of its literals.
pub proof fn lemma_fixed_module_pages_run_no_generator(
    route: Seq<char>,
    segments: Seq<PageSegmentView>,
    cache: CacheView,
)
    requires
        forall|i: int| 0 <= i < segments.len() ==> (#[trigger] segments[i]) is Static || segments[i] is Group,
    ensures
        advance(
            ExpansionView {
                route,
                segments,
                next: 0,
                candidates: seq![(Seq::<Seq<char>>::empty(), Seq::<(Seq<char>, Seq<char>)>::empty())],
                pending: None,
            },
            cache,
        ).1 == StepView::Done(seq![url_of(plan_literals(segments, segments.len() as int))]),
{
    lemma_fixed_plan_from(route, segments, 0, cache);
    assert(fixed_state(route, segments, 0) == ExpansionView {
        route,
        segments,
        next: 0,
        candidates: seq![(Seq::<Seq<char>>::empty(), Seq::<(Seq<char>, Seq<char>)>::empty())],
        pending: None,
    });
}

} // verus!
