//! Expanding a page's route path into the concrete URLs a static export
//! renders, and the listing of every page and asset an export covers.

use vstd::prelude::*;

use super::error::{StaticExportError, StaticExportErrorView};
use super::params::{lookup, lemma_lookup_some, StaticParams};
use crate::router::path::{
    route_matches, declares, has_dynamic, lemma_static_segments_lack_slash, route_segments, segment_views, Path, PathSegment,
    SegmentView,
};
use crate::text::{
    components, lemma_components_after_sep, lemma_components_nonempty, lemma_components_of_nothing,
    lemma_components_plain, lemma_trim_end_last, trim_start, chars_of, contains_char, lemma_lex_irreflexive, lemma_lex_total, lemma_lex_transitive, lex_lt,
    push_char, push_str, str_eq, str_lt, string_of, string_views, trim, trim_chars,
};

verus! {

/// Whether the `i`-th pair's name was already given by an earlier pair.
pub open spec fn repeats_earlier(pairs: Seq<(Seq<char>, Seq<char>)>, i: int) -> bool {
    exists|k: int| 0 <= k < i && (#[trigger] pairs[k]).0 == pairs[i].0
}

/// The first name, from position `i` on, that an earlier pair already gave.
pub open spec fn first_repeat(pairs: Seq<(Seq<char>, Seq<char>)>, i: int) -> Option<Seq<char>>
    decreases pairs.len() - i,
{
    if i < 0 || i >= pairs.len() {
        None
    } else if repeats_earlier(pairs, i) {
        Some(pairs[i].0)
    } else {
        first_repeat(pairs, i + 1)
    }
}

/// The first name, from position `i` on, that no dynamic segment declares.
pub open spec fn first_undeclared(
    pairs: Seq<(Seq<char>, Seq<char>)>,
    segs: Seq<SegmentView>,
    i: int,
) -> Option<Seq<char>>
    decreases pairs.len() - i,
{
    if i < 0 || i >= pairs.len() {
        None
    } else if !declares(segs, pairs[i].0) {
        Some(pairs[i].0)
    } else {
        first_undeclared(pairs, segs, i + 1)
    }
}

/// The URL the first `n` segments of `segs` render to, or the first problem
/// with the value a dynamic one among them is given.
pub open spec fn expand_segments(
    route: Seq<char>,
    segs: Seq<SegmentView>,
    pairs: Seq<(Seq<char>, Seq<char>)>,
    n: int,
) -> Result<Seq<char>, StaticExportErrorView>
    decreases n,
{
    if n <= 0 {
        Ok(Seq::<char>::empty())
    } else {
        match expand_segments(route, segs, pairs, n - 1) {
            Err(e) => Err(e),
            Ok(url) => match segs[n - 1] {
                SegmentView::Group(_) => Ok(url),
                SegmentView::Static(s) => Ok(url.push('/') + s),
                SegmentView::Param(name) => match lookup(pairs, name) {
                    None => Err(StaticExportErrorView::MissingParam { route, name }),
                    Some(v) => if v.len() == 0 {
                        Err(StaticExportErrorView::EmptyParam { route, name })
                    } else if v.contains('/') {
                        Err(StaticExportErrorView::InvalidParam { route, name, value: v })
                    } else {
                        Ok(url.push('/') + v)
                    },
                },
                SegmentView::CatchAll(name) => match lookup(pairs, name) {
                    None => Err(StaticExportErrorView::MissingParam { route, name }),
                    Some(v) => if v.len() == 0 || trim(v, '/').len() == 0 {
                        Err(StaticExportErrorView::EmptyParam { route, name })
                    } else {
                        Ok(url.push('/') + trim(v, '/'))
                    },
                },
            },
        }
    }
}

/// What [`expand_path`] gives for the pattern `route` and the pairs `pairs`.
pub open spec fn expansion(route: Seq<char>, pairs: Seq<(Seq<char>, Seq<char>)>) -> Result<
    Seq<char>,
    StaticExportErrorView,
> {
    let segs = route_segments(route);
    if first_repeat(pairs, 0) is Some {
        Err(StaticExportErrorView::DuplicateParam { route, name: first_repeat(pairs, 0)->0 })
    } else if first_undeclared(pairs, segs, 0) is Some {
        Err(
            StaticExportErrorView::UnknownParam {
                route,
                name: first_undeclared(pairs, segs, 0)->0,
            },
        )
    } else {
        match expand_segments(route, segs, pairs, segs.len() as int) {
            Err(e) => Err(e),
            Ok(url) => Ok(
                if url.len() == 0 {
                    seq!['/']
                } else {
                    url
                },
            ),
        }
    }
}

/// Once a prefix of the segments fails, every longer prefix fails the same
/// way.
proof fn lemma_expand_segments_err(
    route: Seq<char>,
    segs: Seq<SegmentView>,
    pairs: Seq<(Seq<char>, Seq<char>)>,
    n: int,
    m: int,
)
    requires
        n <= m,
        expand_segments(route, segs, pairs, n) is Err,
    ensures
        expand_segments(route, segs, pairs, m) == expand_segments(route, segs, pairs, n),
    decreases m - n,
{
    if n < m {
        lemma_expand_segments_err(route, segs, pairs, n, m - 1);
    }
}

/// How [`expansion`] unfolds, case by case.
proof fn lemma_expansion_unfold(route: Seq<char>, pairs: Seq<(Seq<char>, Seq<char>)>)
    ensures
        first_repeat(pairs, 0) is Some ==> expansion(route, pairs) == Err::<Seq<char>, StaticExportErrorView>(
            StaticExportErrorView::DuplicateParam { route, name: first_repeat(pairs, 0)->0 },
        ),
        first_repeat(pairs, 0) is None && first_undeclared(pairs, route_segments(route), 0) is Some
            ==> expansion(route, pairs) == Err::<Seq<char>, StaticExportErrorView>(
            StaticExportErrorView::UnknownParam {
                route,
                name: first_undeclared(pairs, route_segments(route), 0)->0,
            },
        ),
        first_repeat(pairs, 0) is None && first_undeclared(pairs, route_segments(route), 0) is None
            ==> expansion(route, pairs) == match expand_segments(
            route,
            route_segments(route),
            pairs,
            route_segments(route).len() as int,
        ) {
            Err(e) => Err(e),
            Ok(url) => Ok(
                if url.len() == 0 {
                    seq!['/']
                } else {
                    url
                },
            ),
        },
{
}

proof fn lemma_first_repeat_found(pairs: Seq<(Seq<char>, Seq<char>)>, i: int, j: int)
    requires
        0 <= i <= j < pairs.len(),
        repeats_earlier(pairs, j),
    ensures
        first_repeat(pairs, i) is Some,
    decreases j - i,
{
    if i < j && !repeats_earlier(pairs, i) {
        lemma_first_repeat_found(pairs, i + 1, j);
    }
}

proof fn lemma_first_repeat_none(pairs: Seq<(Seq<char>, Seq<char>)>, i: int)
    requires
        0 <= i,
        forall|a: int, b: int| 0 <= a < b < pairs.len() ==> (#[trigger] pairs[a]).0 != (#[trigger] pairs[b]).0,
    ensures
        first_repeat(pairs, i) is None,
    decreases pairs.len() - i,
{
    if i < pairs.len() {
        assert(!repeats_earlier(pairs, i));
        lemma_first_repeat_none(pairs, i + 1);
    }
}

proof fn lemma_first_undeclared_found(pairs: Seq<(Seq<char>, Seq<char>)>, segs: Seq<SegmentView>, i: int, k: int)
    requires
        0 <= i <= k < pairs.len(),
        !declares(segs, pairs[k].0),
    ensures
        first_undeclared(pairs, segs, i) is Some,
    decreases k - i,
{
    if i < k && declares(segs, pairs[i].0) {
        lemma_first_undeclared_found(pairs, segs, i + 1, k);
    }
}

proof fn lemma_first_undeclared_none(pairs: Seq<(Seq<char>, Seq<char>)>, segs: Seq<SegmentView>, i: int)
    requires
        0 <= i,
        forall|k: int| 0 <= k < pairs.len() ==> declares(segs, (#[trigger] pairs[k]).0),
    ensures
        first_undeclared(pairs, segs, i) is None,
    decreases pairs.len() - i,
{
    if i < pairs.len() {
        assert(declares(segs, pairs[i].0));
        lemma_first_undeclared_none(pairs, segs, i + 1);
    }
}

/// Whether the value `pairs` gives each dynamic segment of `segs` is one it
/// accepts: a parameter's is non-empty and free of `/`, and a catch-all's is
/// more than `/` alone.
pub open spec fn values_fit(segs: Seq<SegmentView>, pairs: Seq<(Seq<char>, Seq<char>)>) -> bool {
    forall|i: int|
        0 <= i < segs.len() ==> match #[trigger] segs[i] {
            SegmentView::Param(name) => lookup(pairs, name) is Some && lookup(pairs, name)->0.len() > 0
                && !lookup(pairs, name)->0.contains('/'),
            SegmentView::CatchAll(name) => lookup(pairs, name) is Some && lookup(pairs, name)->0.len() > 0
                && trim(lookup(pairs, name)->0, '/').len() > 0,
            _ => true,
        }
}

proof fn lemma_expand_segments_ok(
    route: Seq<char>,
    segs: Seq<SegmentView>,
    pairs: Seq<(Seq<char>, Seq<char>)>,
    n: int,
)
    requires
        0 <= n <= segs.len(),
        values_fit(segs, pairs),
    ensures
        expand_segments(route, segs, pairs, n) is Ok,
    decreases n,
{
    if n > 0 {
        lemma_expand_segments_ok(route, segs, pairs, n - 1);
        assert(0 <= n - 1 < segs.len());
        let s = segs[n - 1];
    }
}

/// A parameter set that names each name once, names only dynamic segments
/// of the route, and gives each dynamic segment a value it accepts, expands.
pub proof fn lemma_complete_sets_expand(route: Seq<char>, pairs: Seq<(Seq<char>, Seq<char>)>)
    requires
        forall|a: int, b: int| 0 <= a < b < pairs.len() ==> (#[trigger] pairs[a]).0 != (#[trigger] pairs[b]).0,
        forall|k: int| 0 <= k < pairs.len() ==> declares(route_segments(route), (#[trigger] pairs[k]).0),
        values_fit(route_segments(route), pairs),
    ensures
        expansion(route, pairs) is Ok,
{
    let segs = route_segments(route);
    lemma_first_repeat_none(pairs, 0);
    lemma_first_undeclared_none(pairs, segs, 0);
    lemma_expand_segments_ok(route, segs, pairs, segs.len() as int);
}

/// A parameter set that leaves out a dynamic segment of the route fails to
/// expand.
pub proof fn lemma_missing_params_fail(route: Seq<char>, pairs: Seq<(Seq<char>, Seq<char>)>, name: Seq<char>)
    requires
        declares(route_segments(route), name),
        lookup(pairs, name) is None,
    ensures
        expansion(route, pairs) is Err,
{
    let segs = route_segments(route);
    if first_repeat(pairs, 0) is None && first_undeclared(pairs, segs, 0) is None {
        let i = choose|i: int| 0 <= i < segs.len() && (#[trigger] segs[i]).is_dynamic() && segs[i].dynamic_name() == name;
        assert(expand_segments(route, segs, pairs, i + 1) is Err);
        lemma_expand_segments_err(route, segs, pairs, i + 1, segs.len() as int);
    }
}

/// A parameter set naming something the route does not declare fails to
/// expand.
pub proof fn lemma_unknown_params_fail(route: Seq<char>, pairs: Seq<(Seq<char>, Seq<char>)>, k: int)
    requires
        0 <= k < pairs.len(),
        !declares(route_segments(route), pairs[k].0),
    ensures
        expansion(route, pairs) is Err,
{
    lemma_first_undeclared_found(pairs, route_segments(route), 0, k);
}

/// A parameter set naming one name twice fails to expand.
pub proof fn lemma_repeated_params_fail(route: Seq<char>, pairs: Seq<(Seq<char>, Seq<char>)>, i: int, j: int)
    requires
        0 <= i < j < pairs.len(),
        pairs[i].0 == pairs[j].0,
    ensures
        expansion(route, pairs) is Err,
{
    assert(repeats_earlier(pairs, j));
    lemma_first_repeat_found(pairs, 0, j);
}

/// Whether nothing but groups follows a catch-all in `segs`.
pub open spec fn catch_all_last(segs: Seq<SegmentView>) -> bool {
    forall|i: int, j: int|
        0 <= i < j < segs.len() && (#[trigger] segs[i]) is CatchAll ==> (#[trigger] segs[j]) is Group
}

/// The URL pieces the segment `seg` renders to with the values `pairs`.
pub open spec fn seg_pieces(seg: SegmentView, pairs: Seq<(Seq<char>, Seq<char>)>) -> Seq<Seq<char>> {
    match seg {
        SegmentView::Group(_) => Seq::<Seq<char>>::empty(),
        SegmentView::Static(s) => seq![s],
        SegmentView::Param(name) => seq![lookup(pairs, name)->0],
        SegmentView::CatchAll(name) => components(trim(lookup(pairs, name)->0, '/'), '/'),
    }
}

/// The URL pieces the first `n` segments render to.
pub open spec fn pieces_upto(segs: Seq<SegmentView>, pairs: Seq<(Seq<char>, Seq<char>)>, n: int) -> Seq<Seq<char>>
    decreases n,
{
    if n <= 0 {
        Seq::<Seq<char>>::empty()
    } else {
        pieces_upto(segs, pairs, n - 1) + seg_pieces(segs[n - 1], pairs)
    }
}

/// The URL pieces the segments from position `i` on render to.
pub open spec fn pieces_from(segs: Seq<SegmentView>, pairs: Seq<(Seq<char>, Seq<char>)>, i: int) -> Seq<Seq<char>>
    decreases segs.len() - i,
{
    if i < 0 || i >= segs.len() {
        Seq::<Seq<char>>::empty()
    } else {
        seg_pieces(segs[i], pairs) + pieces_from(segs, pairs, i + 1)
    }
}

/// Whether the value of the segment `seg` is one it accepts.
pub open spec fn value_fits(seg: SegmentView, pairs: Seq<(Seq<char>, Seq<char>)>) -> bool {
    match seg {
        SegmentView::Param(name) => lookup(pairs, name) is Some && lookup(pairs, name)->0.len() > 0
            && !lookup(pairs, name)->0.contains('/'),
        SegmentView::CatchAll(name) => lookup(pairs, name) is Some && lookup(pairs, name)->0.len() > 0
            && trim(lookup(pairs, name)->0, '/').len() > 0,
        _ => true,
    }
}

/// A prefix of the segments that expands has values that fit, and renders
/// to exactly their pieces.
proof fn lemma_expanded_pieces(
    route: Seq<char>,
    pairs: Seq<(Seq<char>, Seq<char>)>,
    n: int,
)
    requires
        0 <= n <= route_segments(route).len(),
        expand_segments(route, route_segments(route), pairs, n) is Ok,
    ensures
        components(expand_segments(route, route_segments(route), pairs, n)->Ok_0, '/') == pieces_upto(
            route_segments(route),
            pairs,
            n,
        ),
        forall|i: int| 0 <= i < n ==> value_fits(#[trigger] route_segments(route)[i], pairs),
    decreases n,
{
    let segs = route_segments(route);
    if n == 0 {
        lemma_components_of_nothing('/');
    } else {
        if expand_segments(route, segs, pairs, n - 1) is Err {
            assert(expand_segments(route, segs, pairs, n) is Err);
        }
        lemma_expanded_pieces(route, pairs, n - 1);
        let u = expand_segments(route, segs, pairs, n - 1)->Ok_0;
        lemma_static_segments_lack_slash(route);
        match segs[n - 1] {
            SegmentView::Group(_) => {
                assert(pieces_upto(segs, pairs, n) =~= pieces_upto(segs, pairs, n - 1));
            },
            SegmentView::Static(s) => {
                lemma_components_after_sep(u, s, '/');
                lemma_components_plain(s, '/');
            },
            SegmentView::Param(name) => {
                let v = lookup(pairs, name)->0;
                lemma_components_after_sep(u, v, '/');
                lemma_components_plain(v, '/');
            },
            SegmentView::CatchAll(name) => {
                let v = lookup(pairs, name)->0;
                lemma_components_after_sep(u, trim(v, '/'), '/');
            },
        }
    }
}

/// Rendering the first `n` segments, then the rest, renders them all.
proof fn lemma_pieces_split(segs: Seq<SegmentView>, pairs: Seq<(Seq<char>, Seq<char>)>, n: int)
    requires
        0 <= n <= segs.len(),
    ensures
        pieces_upto(segs, pairs, n) + pieces_from(segs, pairs, n) == pieces_from(segs, pairs, 0),
    decreases n,
{
    if n == 0 {
        assert(Seq::<Seq<char>>::empty() + pieces_from(segs, pairs, 0) =~= pieces_from(segs, pairs, 0));
    } else {
        lemma_pieces_split(segs, pairs, n - 1);
        assert(pieces_upto(segs, pairs, n - 1) + seg_pieces(segs[n - 1], pairs) + pieces_from(segs, pairs, n)
            =~= pieces_upto(segs, pairs, n - 1) + (seg_pieces(segs[n - 1], pairs) + pieces_from(segs, pairs, n)));
    }
}

/// Segments that are all groups render to nothing, and match nothing.
proof fn lemma_groups_match_nothing(segs: Seq<SegmentView>, pairs: Seq<(Seq<char>, Seq<char>)>, i: int)
    requires
        0 <= i <= segs.len(),
        forall|j: int| i <= j < segs.len() ==> (#[trigger] segs[j]) is Group,
    ensures
        pieces_from(segs, pairs, i) == Seq::<Seq<char>>::empty(),
        route_matches(segs.skip(i), Seq::<Seq<char>>::empty()),
    decreases segs.len() - i,
{
    if i < segs.len() {
        lemma_groups_match_nothing(segs, pairs, i + 1);
        assert(segs.skip(i).drop_first() =~= segs.skip(i + 1));
        assert(segs.skip(i)[0] == segs[i]);
        assert(seg_pieces(segs[i], pairs) + pieces_from(segs, pairs, i + 1) =~= Seq::<Seq<char>>::empty());
    } else {
        assert(segs.skip(i) =~= Seq::<SegmentView>::empty());
    }
}

/// The segments from `i` on match what they render to, when their values fit
/// and no literal or parameter follows a catch-all.
proof fn lemma_pieces_match(route: Seq<char>, pairs: Seq<(Seq<char>, Seq<char>)>, i: int)
    requires
        0 <= i <= route_segments(route).len(),
        catch_all_last(route_segments(route)),
        forall|k: int| 0 <= k < route_segments(route).len() ==> value_fits(#[trigger] route_segments(route)[k], pairs),
    ensures
        route_matches(route_segments(route).skip(i), pieces_from(route_segments(route), pairs, i)),
    decreases route_segments(route).len() - i,
{
    let segs = route_segments(route);
    if i == segs.len() {
        assert(segs.skip(i) =~= Seq::<SegmentView>::empty());
    } else {
        let rest = pieces_from(segs, pairs, i + 1);
        assert(segs.skip(i).drop_first() =~= segs.skip(i + 1));
        assert(segs.skip(i)[0] == segs[i]);
        assert(value_fits(segs[i], pairs));
        match segs[i] {
            SegmentView::Group(_) => {
                lemma_pieces_match(route, pairs, i + 1);
                assert(pieces_from(segs, pairs, i) =~= rest);
            },
            SegmentView::Static(s) => {
                lemma_pieces_match(route, pairs, i + 1);
                assert(pieces_from(segs, pairs, i).drop_first() =~= rest);
            },
            SegmentView::Param(name) => {
                lemma_pieces_match(route, pairs, i + 1);
                assert(pieces_from(segs, pairs, i).drop_first() =~= rest);
            },
            SegmentView::CatchAll(name) => {
                assert forall|j: int| i + 1 <= j < segs.len() implies (#[trigger] segs[j]) is Group by {
                    assert(segs[i] is CatchAll);
                }
                lemma_groups_match_nothing(segs, pairs, i + 1);
                let t = trim(lookup(pairs, name)->0, '/');
                lemma_trim_end_last(trim_start(lookup(pairs, name)->0, '/'), '/');
                lemma_components_nonempty(t, '/');
                assert(pieces_from(segs, pairs, i) =~= components(t, '/'));
            },
        }
    }
}

/// Every URL a parameter set expands to is one its route matches, when no
/// literal or parameter follows a catch-all in the route: the pieces of the
/// URL are the route's literals and the values of its dynamic segments, in
/// order.
pub proof fn lemma_expansions_match_their_route(route: Seq<char>, pairs: Seq<(Seq<char>, Seq<char>)>)
    requires
        expansion(route, pairs) is Ok,
        catch_all_last(route_segments(route)),
    ensures
        route_matches(route_segments(route), components(expansion(route, pairs)->Ok_0, '/')),
{
    let segs = route_segments(route);
    let n = segs.len() as int;
    lemma_expansion_unfold(route, pairs);
    assert(expand_segments(route, segs, pairs, n) is Ok);
    lemma_expanded_pieces(route, pairs, n);
    lemma_pieces_split(segs, pairs, n);
    assert(pieces_from(segs, pairs, n) =~= Seq::<Seq<char>>::empty());
    assert(pieces_upto(segs, pairs, n) =~= pieces_from(segs, pairs, 0));
    lemma_pieces_match(route, pairs, 0);
    assert(segs.skip(0) =~= segs);
    let u = expand_segments(route, segs, pairs, n)->Ok_0;
    lemma_components_of_nothing('/');
    if u.len() == 0 {
        assert(u =~= Seq::<char>::empty());
        assert(expansion(route, pairs)->Ok_0 == seq!['/']);
        assert(components(expansion(route, pairs)->Ok_0, '/') =~= pieces_from(segs, pairs, 0));
    } else {
        assert(expansion(route, pairs)->Ok_0 == u);
    }
}

/// Reads `name` out of `params`, rejecting a set that omits it or gives it an
/// empty value.
pub fn value_of<'a>(route: &str, params: &'a StaticParams, name: &str) -> (r: Result<
    &'a str,
    StaticExportError,
>)
    ensures
        match lookup(params@, name@) {
            None => r matches Err(e) && e@ == (StaticExportErrorView::MissingParam {
                route: route@,
                name: name@,
            }),
            Some(v) => if v.len() == 0 {
                r matches Err(e) && e@ == (StaticExportErrorView::EmptyParam {
                    route: route@,
                    name: name@,
                })
            } else {
                r matches Ok(s) && s@ == v
            },
        },
{
    match params.get(name) {
        None => Err(StaticExportError::MissingParam { route: route.to_owned(), name: name.to_owned() }),
        Some(value) => {
            if value.is_empty() {
                Err(StaticExportError::EmptyParam { route: route.to_owned(), name: name.to_owned() })
            } else {
                Ok(value)
            }
        },
    }
}

/// Whether a dynamic segment of `segs` is named `name`.
fn declared(segs: &Vec<PathSegment>, name: &str) -> (r: bool)
    ensures
        r == declares(segment_views(segs@), name@),
{
    let ghost views = segment_views(segs@);
    let mut i: usize = 0;
    while i < segs.len()
        invariant
            i <= segs@.len(),
            views == segment_views(segs@),
            forall|k: int| 0 <= k < i ==> !((#[trigger] views[k]).is_dynamic() && views[k].dynamic_name() == name@),
        decreases segs@.len() - i,
    {
        assert(views[i as int] == segs@[i as int]@);
        match &segs[i] {
            PathSegment::Param(n) => {
                if str_eq(n.as_str(), name) {
                    return true;
                }
            },
            PathSegment::CatchAll(n) => {
                if str_eq(n.as_str(), name) {
                    return true;
                }
            },
            _ => {},
        }
        i = i + 1;
    }
    false
}

/// Renders `route` into a concrete URL by substituting `params`, validating
/// that the two describe the same set of dynamic segments.
///
/// A name given twice, or one the path does not declare, is rejected first;
/// then each segment is rendered in order: groups are dropped, literals are
/// kept, a `{name}` takes its value, which must be non-empty and free of `/`,
/// and a `{*name}` takes its value without surrounding `/`, which must leave
/// it non-empty. A path that renders to nothing addresses `/`.
#[verifier::loop_isolation(false)]
pub fn expand_path(route: &Path, params: &StaticParams) -> (r: Result<String, StaticExportError>)
    ensures
        match r {
            Ok(url) => expansion(route@, params@) == Ok::<Seq<char>, StaticExportErrorView>(url@),
            Err(e) => expansion(route@, params@) == Err::<Seq<char>, StaticExportErrorView>(e@),
        },
{
    let route_string = route.to_string();
    let segs = route.segments();
    let pairs = params.iter();
    let ghost ps = params@;
    let ghost views = route_segments(route@);
    assert(ps == super::params::str_pair_views(pairs@));

    // A name given twice is ambiguous, whichever value would win.
    let mut index: usize = 0;
    while index < pairs.len()
        invariant
            index <= pairs@.len(),
            ps == super::params::str_pair_views(pairs@),
            route_string@ == route@,
            first_repeat(ps, 0) == first_repeat(ps, index as int),
        decreases pairs@.len() - index,
    {
        let mut k: usize = 0;
        let mut repeated = false;
        while k < index
            invariant
                k <= index < pairs@.len(),
                ps == super::params::str_pair_views(pairs@),
                repeated == exists|j: int| 0 <= j < k && (#[trigger] ps[j]).0 == ps[index as int].0,
            decreases index - k,
        {
            assert(ps[k as int].0 == pairs@[k as int].0@);
            assert(ps[index as int].0 == pairs@[index as int].0@);
            if str_eq(pairs[k].0, pairs[index].0) {
                repeated = true;
            }
            k = k + 1;
        }
        assert(repeated == repeats_earlier(ps, index as int));
        if repeated {
            assert(ps[index as int].0 == pairs@[index as int].0@);
            assert(first_repeat(ps, index as int) == Some(ps[index as int].0));
            proof {
                lemma_expansion_unfold(route@, ps);
            }
            return Err(StaticExportError::DuplicateParam {
                route: route_string,
                name: pairs[index].0.to_owned(),
            });
        }
        index = index + 1;
    }

    // Anything the path does not declare would silently go nowhere.
    let mut index: usize = 0;
    while index < pairs.len()
        invariant
            index <= pairs@.len(),
            ps == super::params::str_pair_views(pairs@),
            views == segment_views(segs@),
            route_string@ == route@,
            first_repeat(ps, 0) is None,
            first_undeclared(ps, views, 0) == first_undeclared(ps, views, index as int),
        decreases pairs@.len() - index,
    {
        assert(ps[index as int].0 == pairs@[index as int].0@);
        if !declared(&segs, pairs[index].0) {
            proof {
                lemma_expansion_unfold(route@, ps);
            }
            return Err(StaticExportError::UnknownParam {
                route: route_string,
                name: pairs[index].0.to_owned(),
            });
        }
        index = index + 1;
    }

    proof {
        lemma_expansion_unfold(route@, ps);
    }
    let mut url = String::new();
    let mut i: usize = 0;
    while i < segs.len()
        invariant
            i <= segs@.len(),
            views == segment_views(segs@),
            route_string@ == route@,
            expand_segments(route@, views, ps, i as int) == Ok::<Seq<char>, StaticExportErrorView>(url@),
        decreases segs@.len() - i,
    {
        assert(views[i as int] == segs@[i as int]@);
        match &segs[i] {
            PathSegment::Group(_) => {},
            PathSegment::Static(name) => {
                push_char(&mut url, '/');
                push_str(&mut url, name.as_str());
            },
            PathSegment::Param(name) => {
                let value = match value_of(route_string.as_str(), params, name.as_str()) {
                    Ok(v) => v,
                    Err(e) => {
                        proof {
                            lemma_expand_segments_err(route@, views, ps, i + 1, segs@.len() as int);
                        }
                        return Err(e);
                    },
                };
                let chars = chars_of(value);
                // A `{name}` stands for exactly one segment, so a value
                // carrying a separator would address a different URL.
                if contains_char(&chars, '/') {
                    proof {
                        lemma_expand_segments_err(route@, views, ps, i + 1, segs@.len() as int);
                    }
                    return Err(StaticExportError::InvalidParam {
                        route: route_string,
                        name: name.clone(),
                        value: value.to_owned(),
                    });
                }
                push_char(&mut url, '/');
                push_str(&mut url, value);
            },
            PathSegment::CatchAll(name) => {
                let value = match value_of(route_string.as_str(), params, name.as_str()) {
                    Ok(v) => v,
                    Err(e) => {
                        proof {
                            lemma_expand_segments_err(route@, views, ps, i + 1, segs@.len() as int);
                        }
                        return Err(e);
                    },
                };
                // A `{*name}` stands for the whole remainder; surrounding
                // separators would double up against the one written here.
                let trimmed = trim_chars(&chars_of(value), '/');
                if trimmed.len() == 0 {
                    proof {
                        lemma_expand_segments_err(route@, views, ps, i + 1, segs@.len() as int);
                    }
                    return Err(StaticExportError::EmptyParam {
                        route: route_string,
                        name: name.clone(),
                    });
                }
                push_char(&mut url, '/');
                let trimmed = string_of(&trimmed);
                push_str(&mut url, trimmed.as_str());
            },
        }
        i = i + 1;
    }

    // A path made only of groups, or the root itself, addresses `/`.
    if url.as_str().is_empty() {
        let mut root = String::new();
        push_char(&mut root, '/');
        assert(root@ =~= seq!['/']);
        return Ok(root);
    }
    Ok(url)
}


/// One entry of the static route listing: the URL to fetch and the route path
/// it came from.
#[derive(Debug, Clone, PartialEq, Eq)]
pub struct StaticPath {
    /// The concrete URL path to request, e.g. `/blog/hello`.
    pub path: String,
    /// The route path the page is registered at, e.g. `/blog/{slug}`.
    pub route: String,
}

impl View for StaticPath {
    type V = (Seq<char>, Seq<char>);

    open spec fn view(&self) -> (Seq<char>, Seq<char>) {
        (self.path@, self.route@)
    }
}

/// The views of a list of listing entries.
pub open spec fn path_views(v: Seq<StaticPath>) -> Seq<(Seq<char>, Seq<char>)> {
    v.map_values(|p: StaticPath| p@)
}

/// The views of what each page expanded to: its route and its URLs.
pub open spec fn expanded_views(v: Seq<(String, Vec<String>)>) -> Seq<(Seq<char>, Seq<Seq<char>>)> {
    v.map_values(|x: (String, Vec<String>)| (x.0@, string_views(x.1@)))
}

/// The URLs of one page, each paired with the page's route.
pub open spec fn page_entries(route: Seq<char>, urls: Seq<Seq<char>>) -> Seq<(Seq<char>, Seq<char>)> {
    urls.map_values(|u: Seq<char>| (u, route))
}

/// Every `(url, route)` entry the pages generated, page by page, in order.
pub open spec fn flatten(expanded: Seq<(Seq<char>, Seq<Seq<char>>)>) -> Seq<(Seq<char>, Seq<char>)>
    decreases expanded.len(),
{
    if expanded.len() == 0 {
        Seq::<(Seq<char>, Seq<char>)>::empty()
    } else {
        flatten(expanded.drop_last()) + page_entries(expanded.last().0, expanded.last().1)
    }
}

/// Whether the `k`-th entry's URL was already generated by an earlier entry.
pub open spec fn path_seen_before(entries: Seq<(Seq<char>, Seq<char>)>, k: int) -> bool {
    exists|j: int| 0 <= j < k && (#[trigger] entries[j]).0 == entries[k].0
}

/// The first position, from `k` on, whose URL an earlier entry generated.
pub open spec fn first_conflict(entries: Seq<(Seq<char>, Seq<char>)>, k: int) -> Option<int>
    decreases entries.len() - k,
{
    if k < 0 || k >= entries.len() {
        None
    } else if path_seen_before(entries, k) {
        Some(k)
    } else {
        first_conflict(entries, k + 1)
    }
}

/// An earlier entry generating the same URL as the entry at `k`.
pub open spec fn conflict_source(entries: Seq<(Seq<char>, Seq<char>)>, k: int) -> int {
    choose|j: int| 0 <= j < k && (#[trigger] entries[j]).0 == entries[k].0
}

/// The error reported for the entry at `k` repeating an earlier URL: the same
/// page generating it twice, or two pages generating it.
pub open spec fn conflict_error(entries: Seq<(Seq<char>, Seq<char>)>, k: int) -> StaticExportErrorView {
    let j = conflict_source(entries, k);
    if entries[j].1 == entries[k].1 {
        StaticExportErrorView::DuplicatePath { route: entries[k].1, path: entries[k].0 }
    } else {
        StaticExportErrorView::ConflictingPaths {
            first: entries[j].1,
            second: entries[k].1,
            path: entries[k].0,
        }
    }
}

/// Whether the entries are in strictly increasing order of their URLs.
pub open spec fn sorted_by_path(entries: Seq<(Seq<char>, Seq<char>)>) -> bool {
    forall|i: int, j: int| 0 <= i < j < entries.len() ==> lex_lt(#[trigger] entries[i].0, #[trigger] entries[j].0)
}

proof fn lemma_flatten_step(expanded: Seq<(Seq<char>, Seq<Seq<char>>)>, i: int)
    requires
        0 <= i < expanded.len(),
    ensures
        flatten(expanded.take(i + 1)) == flatten(expanded.take(i)) + page_entries(expanded[i].0, expanded[i].1),
{
    assert(expanded.take(i + 1).drop_last() =~= expanded.take(i));
}

pub(crate) proof fn lemma_first_conflict_skip(entries: Seq<(Seq<char>, Seq<char>)>, k: int)
    requires
        0 <= k <= entries.len(),
        forall|m: int| 0 <= m < k ==> !path_seen_before(entries, m),
    ensures
        first_conflict(entries, 0) == first_conflict(entries, k),
    decreases k,
{
    if k > 0 {
        lemma_first_conflict_skip(entries, k - 1);
    }
}

/// Inserts `x` into `sorted`, keeping it in strictly increasing order of URLs.
fn insert_by_path(sorted: &mut Vec<StaticPath>, x: StaticPath)
    requires
        sorted_by_path(path_views(old(sorted)@)),
        forall|i: int| 0 <= i < old(sorted)@.len() ==> (#[trigger] old(sorted)@[i]).path@ != x.path@,
    ensures
        sorted_by_path(path_views(final(sorted)@)),
        path_views(final(sorted)@).to_multiset() == path_views(old(sorted)@).to_multiset().insert(x@),
{
    let ghost before = path_views(sorted@);
    let mut p: usize = 0;
    while p < sorted.len() && !str_lt(x.path.as_str(), sorted[p].path.as_str())
        invariant
            p <= sorted@.len(),
            before == path_views(sorted@),
            sorted_by_path(before),
            forall|i: int| 0 <= i < sorted@.len() ==> (#[trigger] sorted@[i]).path@ != x.path@,
            forall|q: int| 0 <= q < p ==> lex_lt(#[trigger] before[q].0, x.path@),
        decreases sorted@.len() - p,
    {
        proof {
            assert(before[p as int] == sorted@[p as int]@);
            lemma_lex_total(x.path@, sorted@[p as int].path@);
        }
        p = p + 1;
    }
    let ghost xv = x@;
    sorted.insert(p, x);
    proof {
        let after = path_views(sorted@);
        assert(after =~= before.insert(p as int, xv));
        vstd::seq_lib::to_multiset_insert(before, p as int, xv);
        if p < before.len() {
            assert(before[p as int] == sorted@[p as int + 1]@);
        }
        assert forall|i: int, j: int| 0 <= i < j < after.len() implies lex_lt(#[trigger] after[i].0, #[trigger] after[j].0) by {
            if j < p {
                assert(after[i] == before[i] && after[j] == before[j]);
            } else if j == p {
                assert(after[i] == before[i]);
            } else if i == p {
                assert(after[j] == before[j - 1]);
                if j - 1 > p {
                    lemma_lex_transitive(xv.0, before[p as int].0, before[j - 1].0);
                }
            } else if i < p {
                assert(after[i] == before[i] && after[j] == before[j - 1]);
            } else {
                assert(after[i] == before[i - 1] && after[j] == before[j - 1]);
            }
        }
    }
}

/// Every `(url, route)` entry the pages generated, page by page, in order.
#[verifier::loop_isolation(false)]
pub fn flatten_entries(expanded: &Vec<(String, Vec<String>)>) -> (flat: Vec<StaticPath>)
    ensures
        path_views(flat@) == flatten(expanded_views(expanded@)),
{
    let ghost ev = expanded_views(expanded@);

    // Every entry, page by page.
    let mut flat: Vec<StaticPath> = Vec::new();
    let mut i: usize = 0;
    while i < expanded.len()
        invariant
            i <= expanded@.len(),
            ev == expanded_views(expanded@),
            path_views(flat@) == flatten(ev.take(i as int)),
        decreases expanded@.len() - i,
    {
        let route = &expanded[i].0;
        let urls = &expanded[i].1;
        let ghost start = path_views(flat@);
        assert(ev[i as int] == (route@, string_views(urls@)));
        let mut j: usize = 0;
        while j < urls.len()
            invariant
                j <= urls@.len(),
                ev[i as int] == (route@, string_views(urls@)),
                path_views(flat@) == start + page_entries(route@, string_views(urls@).take(j as int)),
            decreases urls@.len() - j,
        {
            let ghost mid = path_views(flat@);
            flat.push(StaticPath { path: urls[j].clone(), route: route.clone() });
            assert(path_views(flat@) =~= mid.push((urls@[j as int]@, route@)));
            j = j + 1;
            assert(page_entries(route@, string_views(urls@).take(j as int)) =~= page_entries(
                route@,
                string_views(urls@).take(j - 1 as int),
            ).push((urls@[j - 1]@, route@)));
        }
        assert(string_views(urls@).take(j as int) =~= string_views(urls@));
        proof {
            lemma_flatten_step(ev, i as int);
        }
        i = i + 1;
    }
    assert(ev.take(i as int) =~= ev);
    flat
}

/// Flattens the URLs every page generated into one listing sorted by URL,
/// rejecting any URL two pages (or one page twice) would write to the same
/// file.
///
/// Each element of `expanded` is a page's route with the URLs it generated.
/// The first URL, in page order, that repeats an earlier one is reported: as
/// a [`StaticExportError::DuplicatePath`] when the same page generated both,
/// and as a [`StaticExportError::ConflictingPaths`] naming both pages
/// otherwise.
#[verifier::loop_isolation(false)]
pub fn collect_paths(expanded: Vec<(String, Vec<String>)>) -> (r: Result<Vec<StaticPath>, StaticExportError>)
    ensures
        ({
            let entries = flatten(expanded_views(expanded@));
            match r {
                Ok(paths) => first_conflict(entries, 0) is None && sorted_by_path(path_views(paths@))
                    && path_views(paths@).to_multiset() == entries.to_multiset(),
                Err(e) => first_conflict(entries, 0) is Some && e@ == conflict_error(
                    entries,
                    first_conflict(entries, 0)->0,
                ),
            }
        }),
{
    let ghost entries = flatten(expanded_views(expanded@));
    let flat = flatten_entries(&expanded);

    // The first URL generated twice.
    let mut k: usize = 0;
    while k < flat.len()
        invariant
            k <= flat@.len(),
            path_views(flat@) == entries,
            forall|m: int| 0 <= m < k ==> !path_seen_before(entries, m),
        decreases flat@.len() - k,
    {
        let mut j: usize = 0;
        while j < k
            invariant
                j <= k < flat@.len(),
                path_views(flat@) == entries,
                forall|m: int| 0 <= m < j ==> (#[trigger] entries[m]).0 != entries[k as int].0,
            decreases k - j,
        {
            assert(entries[j as int] == flat@[j as int]@ && entries[k as int] == flat@[k as int]@);
            if str_eq(flat[j].path.as_str(), flat[k].path.as_str()) {
                proof {
                    lemma_first_conflict_skip(entries, k as int);
                    assert(path_seen_before(entries, k as int));
                    // The earlier entry is the only one with this URL, since
                    // none before `k` repeats another.
                    let c = conflict_source(entries, k as int);
                    if c != j {
                        if c < j {
                            assert(path_seen_before(entries, j as int));
                        } else {
                            assert(entries[j as int].0 == entries[c].0);
                            assert(path_seen_before(entries, c));
                        }
                    }
                }
                let path = flat[k].path.clone();
                if str_eq(flat[j].route.as_str(), flat[k].route.as_str()) {
                    return Err(StaticExportError::DuplicatePath { route: flat[k].route.clone(), path });
                }
                return Err(StaticExportError::ConflictingPaths {
                    first: flat[j].route.clone(),
                    second: flat[k].route.clone(),
                    path,
                });
            }
            j = j + 1;
        }
        k = k + 1;
    }
    proof {
        lemma_first_conflict_skip(entries, k as int);
    }

    // Sorted by URL, which are now known to be distinct.
    let mut paths: Vec<StaticPath> = Vec::new();
    let mut k: usize = 0;
    assert(path_views(paths@) =~= entries.take(0));
    while k < flat.len()
        invariant
            k <= flat@.len(),
            path_views(flat@) == entries,
            forall|m: int| 0 <= m < entries.len() ==> !path_seen_before(entries, m),
            sorted_by_path(path_views(paths@)),
            path_views(paths@).to_multiset() == entries.take(k as int).to_multiset(),
        decreases flat@.len() - k,
    {
        let x = StaticPath { path: flat[k].path.clone(), route: flat[k].route.clone() };
        assert(entries[k as int] == flat@[k as int]@);
        proof {
            assert(x@ == entries[k as int]);
            assert forall|q: int| 0 <= q < paths@.len() implies (#[trigger] paths@[q]).path@ != x.path@ by {
                let pv = path_views(paths@);
                assert(pv[q] == paths@[q]@);
                vstd::seq_lib::to_multiset_contains(pv, pv[q]);
                assert(pv.to_multiset().count(pv[q]) > 0);
                vstd::seq_lib::to_multiset_contains(entries.take(k as int), pv[q]);
                let m = choose|m: int| 0 <= m < k && entries.take(k as int)[m] == pv[q];
                assert(entries[m] == pv[q]);
                if pv[q].0 == x.path@ {
                    assert(path_seen_before(entries, k as int));
                }
            }
        }
        insert_by_path(&mut paths, x);
        proof {
            assert(entries.take(k + 1 as int) =~= entries.take(k as int).push(entries[k as int]));
            vstd::seq_lib::to_multiset_build(entries.take(k as int), entries[k as int]);
        }
        k = k + 1;
    }
    assert(entries.take(k as int) =~= entries);
    Ok(paths)
}


/// Whether the strings are in strictly increasing order.
pub open spec fn strictly_sorted(v: Seq<Seq<char>>) -> bool {
    forall|i: int, j: int| 0 <= i < j < v.len() ==> lex_lt(#[trigger] v[i], #[trigger] v[j])
}

/// Inserts `x` into the strictly increasing `sorted`, unless it is there.
fn insert_string_sorted(sorted: &mut Vec<String>, x: &String)
    requires
        strictly_sorted(string_views(old(sorted)@)),
    ensures
        strictly_sorted(string_views(final(sorted)@)),
        forall|s: Seq<char>| #[trigger] string_views(final(sorted)@).contains(s) <==> (string_views(old(sorted)@).contains(s) || s == x@),
{
    let ghost before = string_views(sorted@);
    let mut p: usize = 0;
    while p < sorted.len() && str_lt(sorted[p].as_str(), x.as_str())
        invariant
            p <= sorted@.len(),
            before == string_views(sorted@),
            strictly_sorted(before),
            forall|q: int| 0 <= q < p ==> lex_lt(#[trigger] before[q], x@),
        decreases sorted@.len() - p,
    {
        assert(before[p as int] == sorted@[p as int]@);
        p = p + 1;
    }
    if p < sorted.len() && str_eq(sorted[p].as_str(), x.as_str()) {
        assert(before[p as int] == x@);
        return;
    }
    proof {
        if p < before.len() {
            assert(before[p as int] == sorted@[p as int]@);
            lemma_lex_total(x@, before[p as int]);
        }
    }
    sorted.insert(p, x.clone());
    proof {
        let after = string_views(sorted@);
        assert(after =~= before.insert(p as int, x@));
        assert forall|i: int, j: int| 0 <= i < j < after.len() implies lex_lt(#[trigger] after[i], #[trigger] after[j]) by {
            if j < p {
                assert(after[i] == before[i] && after[j] == before[j]);
            } else if j == p {
                assert(after[i] == before[i]);
            } else if i == p {
                assert(after[j] == before[j - 1]);
                if j - 1 > p {
                    lemma_lex_transitive(x@, before[p as int], before[j - 1]);
                }
            } else if i < p {
                assert(after[i] == before[i] && after[j] == before[j - 1]);
            } else {
                assert(after[i] == before[i - 1] && after[j] == before[j - 1]);
            }
        }
        assert forall|s: Seq<char>| #[trigger] after.contains(s) <==> (before.contains(s) || s == x@) by {
            if after.contains(s) {
                let i = choose|i: int| 0 <= i < after.len() && after[i] == s;
                if i < p {
                    assert(before[i] == s);
                } else if i > p {
                    assert(before[i - 1] == s);
                }
            }
            if before.contains(s) {
                let i = choose|i: int| 0 <= i < before.len() && before[i] == s;
                if i < p {
                    assert(after[i] == s);
                } else {
                    assert(after[i + 1] == s);
                }
            }
            if s == x@ {
                assert(after[p as int] == s);
            }
        }
    }
}

/// The strings of `v` in strictly increasing order, each once.
pub fn sorted_unique(v: &Vec<String>) -> (r: Vec<String>)
    ensures
        strictly_sorted(string_views(r@)),
        forall|s: Seq<char>| #[trigger] string_views(r@).contains(s) <==> string_views(v@).contains(s),
{
    let mut r: Vec<String> = Vec::new();
    let mut i: usize = 0;
    while i < v.len()
        invariant
            i <= v@.len(),
            strictly_sorted(string_views(r@)),
            forall|s: Seq<char>| #[trigger] string_views(r@).contains(s) <==> string_views(v@).take(i as int).contains(s),
        decreases v@.len() - i,
    {
        insert_string_sorted(&mut r, &v[i]);
        proof {
            let t = string_views(v@).take(i + 1 as int);
            assert(t =~= string_views(v@).take(i as int).push(v@[i as int]@));
            assert forall|s: Seq<char>| #[trigger] t.contains(s) <==> (string_views(v@).take(i as int).contains(s) || s == v@[i as int]@) by {
                if t.contains(s) {
                    let k = choose|k: int| 0 <= k < t.len() && t[k] == s;
                    if k < i {
                        assert(string_views(v@).take(i as int)[k] == s);
                    }
                }
                if string_views(v@).take(i as int).contains(s) {
                    let k = choose|k: int| 0 <= k < i && string_views(v@).take(i as int)[k] == s;
                    assert(t[k] == s);
                }
                if s == v@[i as int]@ {
                    assert(t[i as int] == s);
                }
            }
        }
        i = i + 1;
    }
    assert(string_views(v@).take(i as int) =~= string_views(v@));
    r
}

/// The views of a list of parameter sets.
pub open spec fn param_set_views(v: Seq<StaticParams>) -> Seq<Seq<(Seq<char>, Seq<char>)>> {
    v.map_values(|p: StaticParams| p@)
}

/// The URLs the first `n` parameter sets expand to, or the first set's error.
pub open spec fn expand_sets(route: Seq<char>, sets: Seq<Seq<(Seq<char>, Seq<char>)>>, n: int) -> Result<
    Seq<Seq<char>>,
    StaticExportErrorView,
>
    decreases n,
{
    if n <= 0 {
        Ok(Seq::<Seq<char>>::empty())
    } else {
        match expand_sets(route, sets, n - 1) {
            Err(e) => Err(e),
            Ok(urls) => match expansion(route, sets[n - 1]) {
                Err(e) => Err(e),
                Ok(url) => Ok(urls.push(url)),
            },
        }
    }
}

proof fn lemma_expand_sets_err(route: Seq<char>, sets: Seq<Seq<(Seq<char>, Seq<char>)>>, n: int, m: int)
    requires
        n <= m,
        expand_sets(route, sets, n) is Err,
    ensures
        expand_sets(route, sets, m) == expand_sets(route, sets, n),
    decreases m - n,
{
    if n < m {
        lemma_expand_sets_err(route, sets, n, m - 1);
    }
}

/// The abstract form of a [`StaticPage`]: its route, whether it answers
/// `GET`, and the outcome of its generator when it declares one.
pub type StaticPageView = (Seq<char>, bool, Option<Result<Seq<Seq<(Seq<char>, Seq<char>)>>, Seq<char>>>);

/// The URLs a page contributes to an export, or why it cannot contribute.
///
/// A page without a generator is exported as it stands when it answers `GET`
/// and its path has no dynamic segment, and is left out otherwise. A page
/// with a generator must answer `GET`; its generator's failure is reported
/// with the page's route, and each parameter set it produced is expanded in
/// order.
pub open spec fn page_urls(page: StaticPageView) -> Result<Seq<Seq<char>>, StaticExportErrorView> {
    let (route, serves_get, generated) = page;
    match generated {
        None => if !serves_get || has_dynamic(route_segments(route)) {
            Ok(Seq::<Seq<char>>::empty())
        } else {
            match expansion(route, Seq::<(Seq<char>, Seq<char>)>::empty()) {
                Err(e) => Err(e),
                Ok(url) => Ok(seq![url]),
            }
        },
        Some(outcome) => if !serves_get {
            Err(StaticExportErrorView::NotExportable { route })
        } else {
            match outcome {
                Err(message) => Err(StaticExportErrorView::Generator { route, message }),
                Ok(sets) => expand_sets(route, sets, sets.len() as int),
            }
        },
    }
}

/// A page as the static export sees it: its route path, whether it answers
/// `GET`, and the outcome of the generator that supplies the parameter sets
/// to export it for, when it declares one with
/// `#[page(generate_static = ...)]`.
///
/// A page is exported only if it answers `GET` and either has a fixed path or
/// names a generator. The generator runs inside a request, so the caller runs
/// it and hands its outcome (the sets, or the error's message) to the page.
#[derive(Debug, Clone)]
pub struct StaticPage {
    route: Path,
    serves_get: bool,
    generate_static: Option<Result<Vec<StaticParams>, String>>,
}

impl View for StaticPage {
    type V = StaticPageView;

    closed spec fn view(&self) -> StaticPageView {
        (
            self.route@,
            self.serves_get,
            match &self.generate_static {
                None => None,
                Some(Err(m)) => Some(Err(m@)),
                Some(Ok(sets)) => Some(Ok(param_set_views(sets@))),
            },
        )
    }
}

impl StaticPage {
    /// Creates an entry for a page at `route`.
    pub fn new(route: &str, serves_get: bool, generate_static: Option<Result<Vec<StaticParams>, String>>) -> (p: Self)
        ensures
            p@.0 == route@,
            p@.1 == serves_get,
            p@.2 == match generate_static {
                None => None,
                Some(Err(m)) => Some(Err(m@)),
                Some(Ok(sets)) => Some(Ok::<Seq<Seq<(Seq<char>, Seq<char>)>>, Seq<char>>(param_set_views(sets@))),
            },
    {
        StaticPage { route: Path::new(route), serves_get, generate_static }
    }

    /// The page's route path.
    pub fn route(&self) -> (r: &Path)
        ensures
            r@ == self@.0,
    {
        &self.route
    }

    /// The URLs this page contributes to a static export.
    ///
    /// A page that cannot be exported at all (a dynamic path with no
    /// generator, or a page that does not answer `GET`) yields no URLs.
    #[verifier::loop_isolation(false)]
    pub fn expand(&self) -> (r: Result<Vec<String>, StaticExportError>)
        ensures
            match r {
                Ok(urls) => page_urls(self@) == Ok::<Seq<Seq<char>>, StaticExportErrorView>(string_views(urls@)),
                Err(e) => page_urls(self@) == Err::<Seq<Seq<char>>, StaticExportErrorView>(e@),
            },
    {
        let route = self.route.to_string();
        match &self.generate_static {
            None => {
                // A page with a fixed path needs no parameters and is exported
                // as it stands; a dynamic one that never opted in is left out.
                let segs = self.route.segments();
                let mut dynamic = false;
                let mut i: usize = 0;
                while i < segs.len()
                    invariant
                        i <= segs@.len(),
                        segment_views(segs@) == route_segments(self@.0),
                        dynamic == exists|k: int| 0 <= k < i && (#[trigger] segment_views(segs@)[k]).is_dynamic(),
                    decreases segs@.len() - i,
                {
                    assert(segment_views(segs@)[i as int] == segs@[i as int]@);
                    match &segs[i] {
                        PathSegment::Param(_) => {
                            dynamic = true;
                        },
                        PathSegment::CatchAll(_) => {
                            dynamic = true;
                        },
                        _ => {},
                    }
                    i = i + 1;
                }
                if !self.serves_get || dynamic {
                    let r: Vec<String> = Vec::new();
                    assert(string_views(r@) =~= Seq::<Seq<char>>::empty());
                    return Ok(r);
                }
                let empty = StaticParams::new();
                match expand_path(&self.route, &empty) {
                    Err(e) => Err(e),
                    Ok(url) => {
                        let ghost u = url@;
                        let mut r: Vec<String> = Vec::new();
                        r.push(url);
                        assert(string_views(r@) =~= seq![u]);
                        Ok(r)
                    },
                }
            },
            Some(outcome) => {
                if !self.serves_get {
                    return Err(StaticExportError::NotExportable { route });
                }
                match outcome {
                    Err(message) => Err(StaticExportError::Generator { route, message: message.clone() }),
                    Ok(sets) => {
                        let ghost sv = param_set_views(sets@);
                        assert(self@.2 == Some(Ok::<Seq<Seq<(Seq<char>, Seq<char>)>>, Seq<char>>(sv)));
                        assert(page_urls(self@) == expand_sets(self@.0, sv, sv.len() as int));
                        let mut urls: Vec<String> = Vec::new();
                        assert(string_views(urls@) =~= Seq::<Seq<char>>::empty());
                        let mut i: usize = 0;
                        while i < sets.len()
                            invariant
                                i <= sets@.len(),
                                sv == param_set_views(sets@),
                                expand_sets(self@.0, sv, i as int) == Ok::<Seq<Seq<char>>, StaticExportErrorView>(string_views(urls@)),
                            decreases sets@.len() - i,
                        {
                            assert(sv[i as int] == sets@[i as int]@);
                            match expand_path(&self.route, &sets[i]) {
                                Err(e) => {
                                    proof {
                                        lemma_expand_sets_err(self@.0, sv, i + 1, sv.len() as int);
                                    }
                                    return Err(e);
                                },
                                Ok(url) => {
                                    let ghost before = string_views(urls@);
                                    let ghost u = url@;
                                    urls.push(url);
                                    assert(string_views(urls@) =~= before.push(u));
                                },
                            }
                            i = i + 1;
                        }
                        Ok(urls)
                    },
                }
            },
        }
    }
}

/// What a page's expansion comes to before its generator runs: settled
/// (its URLs, or why it cannot be exported), or waiting on the outcome of
/// its generator, which must then run once.
pub open spec fn page_step_view(route: Seq<char>, serves_get: bool, declares_generator: bool) -> Option<
    Result<Seq<Seq<char>>, StaticExportErrorView>,
> {
    if declares_generator {
        if serves_get {
            None
        } else {
            Some(Err(StaticExportErrorView::NotExportable { route }))
        }
    } else {
        Some(page_urls((route, serves_get, None)))
    }
}

/// The first step of exporting a page: either its expansion is settled
/// without its generator, or the generator has to run.
#[derive(Debug)]
pub enum PageStep {
    /// The page's URLs, or why it cannot be exported; no generator runs.
    Settled(Result<Vec<String>, StaticExportError>),
    /// The page's generator runs once; its outcome goes into
    /// [`StaticPage::new`] and the page is expanded with it.
    RunGenerator,
}

/// Decides whether a page's generator has to run: exactly when the page
/// declares one and answers `GET`. A page without a generator is settled as
/// [`StaticPage::expand`] settles it; a page with a generator that does not
/// answer `GET` cannot be exported, and its generator never runs.
pub fn page_step(route: &str, serves_get: bool, declares_generator: bool) -> (s: PageStep)
    ensures
        match s {
            PageStep::RunGenerator => page_step_view(route@, serves_get, declares_generator) is None,
            PageStep::Settled(Ok(urls)) => page_step_view(route@, serves_get, declares_generator) == Some(
                Ok::<Seq<Seq<char>>, StaticExportErrorView>(string_views(urls@)),
            ),
            PageStep::Settled(Err(e)) => page_step_view(route@, serves_get, declares_generator) == Some(
                Err::<Seq<Seq<char>>, StaticExportErrorView>(e@),
            ),
        },
{
    if declares_generator {
        if serves_get {
            PageStep::RunGenerator
        } else {
            let page = StaticPage::new(route, false, Some(Ok(Vec::new())));
            PageStep::Settled(page.expand())
        }
    } else {
        let page = StaticPage::new(route, serves_get, None);
        PageStep::Settled(page.expand())
    }
}

/// A page whose expansion [`page_step`] settles expands the same way
/// whatever its generator would have produced: the settled result is what
/// [`StaticPage::expand`] gives for the page with any outcome at all.
pub proof fn lemma_settled_pages_ignore_their_generator(
    route: Seq<char>,
    serves_get: bool,
    declares_generator: bool,
    outcome: Result<Seq<Seq<(Seq<char>, Seq<char>)>>, Seq<char>>,
)
    requires
        page_step_view(route, serves_get, declares_generator) is Some,
    ensures
        page_step_view(route, serves_get, declares_generator) == Some(
            page_urls((route, serves_get, if declares_generator { Some(outcome) } else { None })),
        ),
{
}

/// The JSON body of the static route listing: every page URL an export
/// renders, sorted by path, and every URL it copies verbatim (the
/// application's served assets), sorted.
#[derive(Debug, Clone, Default, PartialEq, Eq)]
pub struct StaticRouteListing {
    /// Every page URL the export should render, sorted by path.
    pub pages: Vec<StaticPath>,
    /// Every additional URL the export should copy verbatim, sorted by path.
    pub assets: Vec<String>,
}

/// What every page of a listing expands to, page by page, or the first page's
/// error.
pub open spec fn expand_pages(pages: Seq<StaticPageView>, n: int) -> Result<
    Seq<(Seq<char>, Seq<Seq<char>>)>,
    StaticExportErrorView,
>
    decreases n,
{
    if n <= 0 {
        Ok(Seq::<(Seq<char>, Seq<Seq<char>>)>::empty())
    } else {
        match expand_pages(pages, n - 1) {
            Err(e) => Err(e),
            Ok(done) => match page_urls(pages[n - 1]) {
                Err(e) => Err(e),
                Ok(urls) => Ok(done.push((pages[n - 1].0, urls))),
            },
        }
    }
}

proof fn lemma_expand_pages_err(pages: Seq<StaticPageView>, n: int, m: int)
    requires
        n <= m,
        expand_pages(pages, n) is Err,
    ensures
        expand_pages(pages, m) == expand_pages(pages, n),
    decreases m - n,
{
    if n < m {
        lemma_expand_pages_err(pages, n, m - 1);
    }
}

/// Whether an entry's URL is one of the assets.
pub open spec fn clashes_with_asset(entry: (Seq<char>, Seq<char>), assets: Seq<Seq<char>>) -> bool {
    assets.contains(entry.0)
}

/// The views of a list of pages.
pub open spec fn page_views(v: Seq<StaticPage>) -> Seq<StaticPageView> {
    v.map_values(|p: StaticPage| p@)
}

/// The development-only listing of everything a static export covers: the
/// registered pages, whether or not they end up being exported, and the URLs
/// the router serves that an export copies as-is.
#[derive(Debug, Clone)]
pub struct StaticRoutes {
    pages: Vec<StaticPage>,
    assets: Vec<String>,
}

impl StaticRoutes {
    /// Creates the listing for `pages` and `assets`.
    pub fn new(pages: Vec<StaticPage>, assets: Vec<String>) -> (r: Self)
        ensures
            r.pages_view() == page_views(pages@),
            r.assets_view() == string_views(assets@),
    {
        StaticRoutes { pages, assets }
    }

    /// The registered pages.
    pub closed spec fn pages_view(&self) -> Seq<StaticPageView> {
        page_views(self.pages@)
    }

    /// The URLs an export copies verbatim.
    pub closed spec fn assets_view(&self) -> Seq<Seq<char>> {
        string_views(self.assets@)
    }

    /// Builds the listing from every page's URLs.
    ///
    /// The pages are expanded in order and the first error is reported. Then
    /// the URLs are checked for repeats, as [`collect_paths`] does, and
    /// sorted; the assets are sorted with repeats dropped. A page and an
    /// asset at one URL would be written to the same place, so the page with
    /// the smallest such URL is reported.
    #[verifier::loop_isolation(false)]
    pub fn listing(&self) -> (r: Result<StaticRouteListing, StaticExportError>)
        ensures
            match expand_pages(self.pages_view(), self.pages_view().len() as int) {
                Err(e) => r matches Err(x) && x@ == e,
                Ok(expanded) => {
                    let entries = flatten(expanded);
                    if first_conflict(entries, 0) is Some {
                        r matches Err(x) && x@ == conflict_error(entries, first_conflict(entries, 0)->0)
                    } else if exists|i: int| 0 <= i < entries.len() && clashes_with_asset(#[trigger] entries[i], self.assets_view()) {
                        r matches Err(x) && x@ matches StaticExportErrorView::ConflictsWithStaticFile { route, path }
                            && entries.contains((path, route)) && self.assets_view().contains(path)
                            && forall|i: int| 0 <= i < entries.len() && clashes_with_asset(#[trigger] entries[i], self.assets_view())
                                ==> !lex_lt(entries[i].0, path)
                    } else {
                        r matches Ok(l) && sorted_by_path(path_views(l.pages@))
                            && path_views(l.pages@).to_multiset() == entries.to_multiset()
                            && strictly_sorted(string_views(l.assets@))
                            && forall|s: Seq<char>| #[trigger] string_views(l.assets@).contains(s) <==> self.assets_view().contains(s)
                    }
                },
            },
    {
        let ghost pv = self.pages_view();
        let mut expanded: Vec<(String, Vec<String>)> = Vec::new();
        assert(expanded_views(expanded@) =~= Seq::<(Seq<char>, Seq<Seq<char>>)>::empty());
        let mut i: usize = 0;
        while i < self.pages.len()
            invariant
                i <= self.pages@.len(),
                pv == page_views(self.pages@),
                expand_pages(pv, i as int) == Ok::<Seq<(Seq<char>, Seq<Seq<char>>)>, StaticExportErrorView>(expanded_views(expanded@)),
            decreases self.pages@.len() - i,
        {
            let page = &self.pages[i];
            assert(pv[i as int] == page@);
            match page.expand() {
                Err(e) => {
                    proof {
                        lemma_expand_pages_err(pv, i + 1, pv.len() as int);
                    }
                    return Err(e);
                },
                Ok(urls) => {
                    let ghost before = expanded_views(expanded@);
                    let route = page.route.to_string();
                    let ghost item = (route@, string_views(urls@));
                    expanded.push((route, urls));
                    assert(expanded_views(expanded@) =~= before.push(item));
                },
            }
            i = i + 1;
        }
        let ghost entries = flatten(expanded_views(expanded@));

        let assets = sorted_unique(&self.assets);
        let pages = match collect_paths(expanded) {
            Ok(p) => p,
            Err(e) => {
                return Err(e);
            },
        };

        // A page and a static file at one URL would be written to the same
        // place, with only the order deciding which survived.
        let mut k: usize = 0;
        while k < pages.len()
            invariant
                k <= pages@.len(),
                sorted_by_path(path_views(pages@)),
                path_views(pages@).to_multiset() == entries.to_multiset(),
                forall|s: Seq<char>| #[trigger] string_views(assets@).contains(s) <==> self.assets_view().contains(s),
                forall|q: int| 0 <= q < k ==> !self.assets_view().contains((#[trigger] path_views(pages@)[q]).0),
            decreases pages@.len() - k,
        {
            let mut j: usize = 0;
            let mut found = false;
            while j < assets.len()
                invariant
                    j <= assets@.len(),
                    k < pages@.len(),
                    found == exists|a: int| 0 <= a < j && (#[trigger] string_views(assets@)[a]) == pages@[k as int].path@,
                decreases assets@.len() - j,
            {
                assert(string_views(assets@)[j as int] == assets@[j as int]@);
                if str_eq(assets[j].as_str(), pages[k].path.as_str()) {
                    found = true;
                }
                j = j + 1;
            }
            assert(path_views(pages@)[k as int] == pages@[k as int]@);
            if found {
                proof {
                    let pw = path_views(pages@);
                    let a = choose|a: int| 0 <= a < j && (#[trigger] string_views(assets@)[a]) == pages@[k as int].path@;
                    assert(string_views(assets@).contains(pw[k as int].0));
                    vstd::seq_lib::to_multiset_contains(pw, pw[k as int]);
                    vstd::seq_lib::to_multiset_contains(entries, pw[k as int]);
                    assert forall|i: int| 0 <= i < entries.len() && clashes_with_asset(#[trigger] entries[i], self.assets_view())
                        implies !lex_lt(entries[i].0, pw[k as int].0) by {
                        vstd::seq_lib::to_multiset_contains(entries, entries[i]);
                        vstd::seq_lib::to_multiset_contains(pw, entries[i]);
                        let q = choose|q: int| 0 <= q < pw.len() && pw[q] == entries[i];
                        if q < k {
                        } else if q > k {
                            lemma_lex_total(pw[k as int].0, pw[q].0);
                        } else {
                            lemma_lex_irreflexive(pw[k as int].0);
                        }
                    }
                    assert(exists|i: int| 0 <= i < entries.len() && clashes_with_asset(#[trigger] entries[i], self.assets_view()));
                }
                return Err(StaticExportError::ConflictsWithStaticFile {
                    route: pages[k].route.clone(),
                    path: pages[k].path.clone(),
                });
            }
            proof {
                if self.assets_view().contains(pages@[k as int].path@) {
                    assert(string_views(assets@).contains(pages@[k as int].path@));
                    let a = choose|a: int| 0 <= a < string_views(assets@).len() && string_views(assets@)[a] == pages@[k as int].path@;
                    assert(string_views(assets@)[a] == pages@[k as int].path@);
                }
            }
            k = k + 1;
        }
        proof {
            let pw = path_views(pages@);
            assert forall|i: int| 0 <= i < entries.len() implies !clashes_with_asset(#[trigger] entries[i], self.assets_view()) by {
                vstd::seq_lib::to_multiset_contains(entries, entries[i]);
                vstd::seq_lib::to_multiset_contains(pw, entries[i]);
                let q = choose|q: int| 0 <= q < pw.len() && pw[q] == entries[i];
                assert(!self.assets_view().contains(pw[q].0));
            }
        }
        Ok(StaticRouteListing { pages, assets })
    }
}

/// How a request for the static route listing is answered: `200` with a
/// JSON body for a listing, and `500` with the error's text as a plain-text
/// body otherwise, since only `topcoat export` reads it and it reports the
/// reason. The status, the content type, and the text body of a failure; the
/// listing's JSON encoding is the caller's.
pub fn listing_response_head(listing: &Result<StaticRouteListing, StaticExportError>) -> (r: (
    u16,
    &'static str,
    Option<String>,
))
    ensures
        match listing {
            Ok(_) => r.0 == 200 && r.1@ == "application/json"@ && r.2 is None,
            Err(e) => r.0 == 500 && r.1@ == "text/plain; charset=utf-8"@ && (r.2 matches Some(m) && m@ == e@.message()),
        },
{
    match listing {
        Ok(_) => (200, "application/json", None),
        Err(e) => (500, "text/plain; charset=utf-8", Some(e.to_string())),
    }
}

} // verus!
