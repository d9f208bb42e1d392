//! Route path patterns such as `/blog/{year}/{slug}`.
//!
//! A pattern is a `/`-separated list of segments. A segment written `(name)`
//! is a group, which shapes layouts but never appears in a URL; `{name}` is a
//! parameter standing for exactly one URL segment; `{*name}` is a catch-all
//! standing for the rest of the URL; anything else is matched literally.

use vstd::prelude::*;

use crate::text::{char_views, chars_eq, chars_of, components, components_of, lemma_components, string_of};

verus! {

/// The abstract form of a [`PathSegment`].
pub enum SegmentView {
    Static(Seq<char>),
    Group(Seq<char>),
    Param(Seq<char>),
    CatchAll(Seq<char>),
}

impl SegmentView {
    /// Whether the segment stands for a value supplied at export time.
    pub open spec fn is_dynamic(self) -> bool {
        self is Param || self is CatchAll
    }

    /// The name a dynamic segment is given in the pattern.
    pub open spec fn dynamic_name(self) -> Seq<char> {
        match self {
            SegmentView::Param(n) => n,
            SegmentView::CatchAll(n) => n,
            SegmentView::Static(n) => n,
            SegmentView::Group(n) => n,
        }
    }
}

/// One segment of a route path pattern.
#[derive(Debug, Clone, PartialEq, Eq)]
pub enum PathSegment {
    /// A literal segment, such as `blog`.
    Static(String),
    /// A group, `(name)`, which never appears in a URL.
    Group(String),
    /// A parameter, `{name}`, standing for one URL segment.
    Param(String),
    /// A catch-all, `{*name}`, standing for the rest of the URL.
    CatchAll(String),
}

impl View for PathSegment {
    type V = SegmentView;

    open spec fn view(&self) -> SegmentView {
        match self {
            PathSegment::Static(s) => SegmentView::Static(s@),
            PathSegment::Group(s) => SegmentView::Group(s@),
            PathSegment::Param(s) => SegmentView::Param(s@),
            PathSegment::CatchAll(s) => SegmentView::CatchAll(s@),
        }
    }
}

/// The views of a list of segments.
pub open spec fn segment_views(v: Seq<PathSegment>) -> Seq<SegmentView> {
    v.map_values(|s: PathSegment| s@)
}

/// How one `/`-free piece of a pattern reads.
pub open spec fn classify(p: Seq<char>) -> SegmentView {
    if p.len() >= 2 && p[0] == '(' && p.last() == ')' {
        SegmentView::Group(p.subrange(1, p.len() - 1))
    } else if p.len() >= 3 && p[0] == '{' && p[1] == '*' && p.last() == '}' {
        SegmentView::CatchAll(p.subrange(2, p.len() - 1))
    } else if p.len() >= 2 && p[0] == '{' && p.last() == '}' {
        SegmentView::Param(p.subrange(1, p.len() - 1))
    } else {
        SegmentView::Static(p)
    }
}

/// The segments of a pattern: its non-empty `/`-separated pieces, classified.
pub open spec fn route_segments(route: Seq<char>) -> Seq<SegmentView> {
    components(route, '/').map_values(|p: Seq<char>| classify(p))
}

/// Whether `name` is declared by a dynamic segment of `segs`.
pub open spec fn declares(segs: Seq<SegmentView>, name: Seq<char>) -> bool {
    exists|i: int| 0 <= i < segs.len() && (#[trigger] segs[i]).is_dynamic() && segs[i].dynamic_name() == name
}

/// Whether any segment of `segs` is dynamic.
pub open spec fn has_dynamic(segs: Seq<SegmentView>) -> bool {
    exists|i: int| 0 <= i < segs.len() && (#[trigger] segs[i]).is_dynamic()
}

/// Whether URL path pieces `parts` match the segments `segs`: groups match
/// nothing, a literal matches an equal piece, a parameter matches any one
/// piece, and a catch-all matches one or more remaining pieces.
pub open spec fn route_matches(segs: Seq<SegmentView>, parts: Seq<Seq<char>>) -> bool
    decreases segs.len(),
{
    if segs.len() == 0 {
        parts.len() == 0
    } else {
        match segs[0] {
            SegmentView::Group(_) => route_matches(segs.drop_first(), parts),
            SegmentView::Static(s) => parts.len() > 0 && parts[0] == s && route_matches(
                segs.drop_first(),
                parts.drop_first(),
            ),
            SegmentView::Param(_) => parts.len() > 0 && route_matches(segs.drop_first(), parts.drop_first()),
            SegmentView::CatchAll(_) => parts.len() > 0 && route_matches(
                segs.drop_first(),
                Seq::<Seq<char>>::empty(),
            ),
        }
    }
}

/// A static segment never contains `/`, since patterns are split on it.
pub proof fn lemma_static_segments_lack_slash(route: Seq<char>)
    ensures
        forall|i: int|
            0 <= i < route_segments(route).len() ==> (#[trigger] route_segments(route)[i] matches SegmentView::Static(s) ==> s.len() > 0 && !s.contains('/')),
{
    lemma_components(route, '/');
    assert forall|i: int| 0 <= i < route_segments(route).len() implies (#[trigger] route_segments(route)[i] matches SegmentView::Static(s) ==> s.len() > 0 && !s.contains('/')) by {
        assert(route_segments(route)[i] == classify(components(route, '/')[i]));
    }
}

proof fn lemma_matched_literals(segs: Seq<SegmentView>, parts: Seq<Seq<char>>)
    requires
        route_matches(segs, parts),
    ensures
        forall|i: int|
            0 <= i < segs.len() ==> (#[trigger] segs[i] matches SegmentView::Static(s) ==> parts.contains(s)),
    decreases segs.len(),
{
    if segs.len() > 0 {
        let rest_parts = match segs[0] {
            SegmentView::Group(_) => parts,
            SegmentView::CatchAll(_) => Seq::<Seq<char>>::empty(),
            _ => parts.drop_first(),
        };
        lemma_matched_literals(segs.drop_first(), rest_parts);
        assert forall|i: int| 0 <= i < segs.len() implies (#[trigger] segs[i] matches SegmentView::Static(s)
            ==> parts.contains(s)) by {
            if i == 0 {
                if segs[0] is Static {
                    assert(parts[0] == segs[0]->Static_0);
                }
            } else {
                assert(segs[i] == segs.drop_first()[i - 1]);
                if segs[i] is Static {
                    let s = segs[i]->Static_0;
                    assert(rest_parts.contains(s));
                    let k = choose|k: int| 0 <= k < rest_parts.len() && rest_parts[k] == s;
                    if !(segs[0] is Group) {
                        assert(parts[k + 1] == rest_parts[k]);
                    }
                }
            }
        }
    }
}

/// The literal text of each segment of `segs`.
pub open spec fn literal_texts(segs: Seq<SegmentView>) -> Seq<Seq<char>> {
    segs.map_values(|g: SegmentView| g->Static_0)
}

proof fn lemma_literal_routes(segs: Seq<SegmentView>, parts: Seq<Seq<char>>)
    requires
        forall|i: int| 0 <= i < segs.len() ==> (#[trigger] segs[i]) is Static,
    ensures
        route_matches(segs, parts) <==> parts == literal_texts(segs),
    decreases segs.len(),
{
    if segs.len() == 0 {
        assert(literal_texts(segs) =~= Seq::<Seq<char>>::empty());
        if parts == literal_texts(segs) {
            assert(parts.len() == 0);
        }
        if parts.len() == 0 {
            assert(parts =~= literal_texts(segs));
        }
    } else {
        assert forall|i: int| 0 <= i < segs.drop_first().len() implies (#[trigger] segs.drop_first()[i]) is Static by {
            assert(segs.drop_first()[i] == segs[i + 1]);
        }
        assert(segs[0] is Static);
        let lits = literal_texts(segs);
        assert(lits.len() == segs.len());
        assert(lits.drop_first() =~= literal_texts(segs.drop_first()));
        assert(lits[0] == segs[0]->Static_0);
        if parts.len() > 0 {
            lemma_literal_routes(segs.drop_first(), parts.drop_first());
            if parts == lits {
                assert(parts.drop_first() =~= lits.drop_first());
            }
            if parts[0] == lits[0] && parts.drop_first() == lits.drop_first() {
                assert(parts.len() == lits.len());
                assert forall|k: int| 0 <= k < parts.len() implies parts[k] == lits[k] by {
                    if k > 0 {
                        assert(parts[k] == parts.drop_first()[k - 1]);
                        assert(lits[k] == lits.drop_first()[k - 1]);
                    }
                }
                assert(parts =~= lits);
            }
            assert(route_matches(segs, parts) == (parts[0] == segs[0]->Static_0 && route_matches(
                segs.drop_first(),
                parts.drop_first(),
            )));
        } else {
            assert(parts != lits);
        }
    }
}

/// A route matches a URL only where every literal segment of the route is,
/// character for character, one of the URL's `/`-separated pieces: URL paths
/// compare exactly, so `/blog/{year}` never matches `/Blog/2026`.
pub proof fn lemma_literals_match_exactly(route: Seq<char>, url: Seq<char>)
    requires
        route_matches(route_segments(route), components(url, '/')),
    ensures
        forall|i: int|
            0 <= i < route_segments(route).len() ==> (#[trigger] route_segments(route)[i] matches SegmentView::Static(s)
                ==> components(url, '/').contains(s)),
{
    lemma_matched_literals(route_segments(route), components(url, '/'));
}

/// A route made of literal segments only matches exactly the URLs whose
/// `/`-separated pieces are those literals, in order.
pub proof fn lemma_fixed_routes_match_only_their_own_path(route: Seq<char>, url: Seq<char>)
    requires
        forall|i: int| 0 <= i < route_segments(route).len() ==> (#[trigger] route_segments(route)[i]) is Static,
    ensures
        route_matches(route_segments(route), components(url, '/')) <==> components(url, '/') == literal_texts(
            route_segments(route),
        ),
{
    lemma_literal_routes(route_segments(route), components(url, '/'));
}

/// The characters of `v` from `start` up to `end`.
fn sub_chars(v: &[char], start: usize, end: usize) -> (r: Vec<char>)
    requires
        start <= end <= v@.len(),
    ensures
        r@ == v@.subrange(start as int, end as int),
{
    let mut r: Vec<char> = Vec::new();
    let mut k = start;
    while k < end
        invariant
            start <= k <= end <= v@.len(),
            r@ == v@.subrange(start as int, k as int),
        decreases end - k,
    {
        r.push(v[k]);
        k = k + 1;
        assert(r@ =~= v@.subrange(start as int, k as int));
    }
    r
}

/// Reads one `/`-free piece of a pattern.
fn classify_piece(p: &[char]) -> (s: PathSegment)
    ensures
        s@ == classify(p@),
{
    let n = p.len();
    if n >= 2 && p[0] == '(' && p[n - 1] == ')' {
        PathSegment::Group(string_of(&sub_chars(p, 1, n - 1)))
    } else if n >= 3 && p[0] == '{' && p[1] == '*' && p[n - 1] == '}' {
        PathSegment::CatchAll(string_of(&sub_chars(p, 2, n - 1)))
    } else if n >= 2 && p[0] == '{' && p[n - 1] == '}' {
        PathSegment::Param(string_of(&sub_chars(p, 1, n - 1)))
    } else {
        PathSegment::Static(string_of(p))
    }
}

/// A route path pattern.
#[derive(Debug, Clone, PartialEq, Eq)]
pub struct Path {
    route: String,
}

impl View for Path {
    type V = Seq<char>;

    closed spec fn view(&self) -> Seq<char> {
        self.route@
    }
}

impl Path {
    /// The pattern written as `route`.
    pub fn new(route: &str) -> (p: Path)
        ensures
            p@ == route@,
    {
        Path { route: route.to_owned() }
    }

    /// A copy of the pattern.
    pub fn duplicate(&self) -> (p: Path)
        ensures
            p@ == self@,
    {
        Path { route: self.route.clone() }
    }

    /// The pattern as written.
    pub fn as_str(&self) -> (s: &str)
        ensures
            s@ == self@,
    {
        self.route.as_str()
    }

    /// The pattern as written, as an owned string.
    pub fn to_string(&self) -> (s: String)
        ensures
            s@ == self@,
    {
        self.route.clone()
    }

    /// The segments of the pattern, in order.
    pub fn segments(&self) -> (segs: Vec<PathSegment>)
        ensures
            segment_views(segs@) == route_segments(self@),
    {
        let chars = chars_of(self.route.as_str());
        let pieces = components_of(&chars, '/');
        let mut segs: Vec<PathSegment> = Vec::new();
        let mut i: usize = 0;
        while i < pieces.len()
            invariant
                i <= pieces@.len(),
                char_views(pieces@) == components(self@, '/'),
                segment_views(segs@) == components(self@, '/').take(i as int).map_values(
                    |p: Seq<char>| classify(p),
                ),
            decreases pieces@.len() - i,
        {
            assert(char_views(pieces@)[i as int] == pieces@[i as int]@);
            let seg = classify_piece(&pieces[i]);
            let ghost before = segs@;
            segs.push(seg);
            assert(segs@ == before.push(seg));
            assert(segment_views(segs@) =~= segment_views(before).push(seg@));
            assert(components(self@, '/').take(i + 1 as int) =~= components(self@, '/').take(i as int).push(components(self@, '/')[i as int]));
            i = i + 1;
            assert(segment_views(segs@) =~= components(self@, '/').take(i as int).map_values(
                |p: Seq<char>| classify(p),
            ));
        }
        assert(components(self@, '/').take(i as int) =~= components(self@, '/'));
        segs
    }

    /// Whether the URL path `url` is served by this pattern, its non-empty
    /// `/`-separated pieces matched as [`route_matches`] describes.
    pub fn matches(&self, url: &str) -> (r: bool)
        ensures
            r == route_matches(route_segments(self@), components(url@, '/')),
    {
        let segs = self.segments();
        let parts = components_of(&chars_of(url), '/');
        let ghost sv = segment_views(segs@);
        let ghost pv = char_views(parts@);
        let mut i: usize = 0;
        let mut j: usize = 0;
        assert(sv.skip(0) =~= sv);
        assert(pv.skip(0) =~= pv);
        while i < segs.len()
            invariant
                i <= segs@.len(),
                j <= parts@.len(),
                sv == segment_views(segs@),
                pv == char_views(parts@),
                sv == route_segments(self@),
                pv == components(url@, '/'),
                route_matches(sv, pv) == route_matches(sv.skip(i as int), pv.skip(j as int)),
            decreases segs@.len() - i,
        {
            assert(sv.skip(i as int)[0] == segs@[i as int]@);
            assert(sv.skip(i as int).drop_first() =~= sv.skip(i + 1 as int));
            match &segs[i] {
                PathSegment::Group(_) => {},
                PathSegment::Static(s) => {
                    assert(sv.skip(i as int)[0] == SegmentView::Static(s@));
                    if j >= parts.len() {
                        return false;
                    }
                    assert(pv.skip(j as int)[0] == parts@[j as int]@);
                    assert(pv.skip(j as int).drop_first() =~= pv.skip(j + 1 as int));
                    let lit = chars_of(s.as_str());
                    if !chars_eq(&parts[j], &lit) {
                        return false;
                    }
                    j = j + 1;
                },
                PathSegment::Param(_) => {
                    if j >= parts.len() {
                        return false;
                    }
                    assert(pv.skip(j as int).drop_first() =~= pv.skip(j + 1 as int));
                    j = j + 1;
                },
                PathSegment::CatchAll(_) => {
                    if j >= parts.len() {
                        return false;
                    }
                    assert(pv.skip(parts@.len() as int) =~= Seq::<Seq<char>>::empty());
                    j = parts.len();
                },
            }
            i = i + 1;
        }
        assert(sv.skip(i as int) =~= Seq::<SegmentView>::empty());
        j == parts.len()
    }
}

} // verus!
