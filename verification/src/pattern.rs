//! Route templates: their segments, how a template is compiled, and how a
//! compiled pattern is aligned with the segments of a path.

use crate::params::bindings;
use crate::path::{join, segments, split_segments, texts};
use route_recognizer::Params;
use vstd::prelude::*;

verus! {

broadcast use vstd::string::group_string_axioms;

/// One segment of a compiled route template.
#[derive(Clone, Debug, PartialEq, Eq)]
pub enum Segment {
    /// Matches the path segment that is equal to the literal.
    Static(String),
    /// Binds one path segment to the name.
    Named(String),
    /// Binds the rest of the path to the name.
    Wildcard(String),
}

/// The mathematical value of a [`Segment`].
pub enum SegmentView {
    Static(Seq<char>),
    Named(Seq<char>),
    Wildcard(Seq<char>),
}

impl SegmentView {
    /// Whether the segment binds a name.
    pub open spec fn is_capture(self) -> bool {
        !(self is Static)
    }

    /// The literal of a static segment, the name of a capture.
    pub open spec fn text(self) -> Seq<char> {
        match self {
            SegmentView::Static(t) => t,
            SegmentView::Named(t) => t,
            SegmentView::Wildcard(t) => t,
        }
    }
}

impl View for Segment {
    type V = SegmentView;

    open spec fn view(&self) -> SegmentView {
        match self {
            Segment::Static(t) => SegmentView::Static(t@),
            Segment::Named(t) => SegmentView::Named(t@),
            Segment::Wildcard(t) => SegmentView::Wildcard(t@),
        }
    }
}

/// Why a route template was refused.
#[derive(Clone, Copy, Debug, PartialEq, Eq, Structural)]
pub enum PatternError {
    /// The template is the empty string.
    Empty,
    /// Two separators follow each other, or the template ends in one.
    EmptySegment,
    /// A wildcard stands before the last segment.
    WildcardNotLast,
    /// Two captures have the same name.
    DuplicateName,
}

/// The mathematical value of a [`RoutePattern`].
pub struct PatternView {
    /// The template as it was written.
    pub route: Seq<char>,
    /// Its segments, in order.
    pub segments: Seq<SegmentView>,
}

/// What one piece of a template denotes: `:name` a named capture, `*name` a
/// wildcard, anything else a literal.
pub open spec fn classify(piece: Seq<char>) -> SegmentView {
    if piece.len() > 0 && piece[0] == ':' {
        SegmentView::Named(piece.subrange(1, piece.len() as int))
    } else if piece.len() > 0 && piece[0] == '*' {
        SegmentView::Wildcard(piece.subrange(1, piece.len() as int))
    } else {
        SegmentView::Static(piece)
    }
}

/// What the pieces of a template denote, one by one.
pub open spec fn classify_all(pieces: Seq<Seq<char>>) -> Seq<SegmentView> {
    pieces.map_values(|p: Seq<char>| classify(p))
}

/// The mathematical values of a list of segments.
pub open spec fn segment_views(segs: Seq<Segment>) -> Seq<SegmentView> {
    segs.map_values(|s: Segment| s@)
}

/// A template has an empty piece.
pub open spec fn has_empty_piece(pieces: Seq<Seq<char>>) -> bool {
    exists|i: int| 0 <= i < pieces.len() && #[trigger] pieces[i].len() == 0
}

/// A wildcard stands anywhere but in the last place.
pub open spec fn has_early_wildcard(segs: Seq<SegmentView>) -> bool {
    exists|i: int| 0 <= i < segs.len() - 1 && #[trigger] segs[i] is Wildcard
}

/// Two captures share a name.
pub open spec fn has_repeated_name(segs: Seq<SegmentView>) -> bool {
    exists|i: int, j: int|
        0 <= i < j < segs.len() && (#[trigger] segs[i]).is_capture() && (#[trigger] segs[j]).is_capture()
            && segs[i].text() == segs[j].text()
}

/// The result of compiling a template: its pattern, or the first reason, in
/// the order of [`PatternError`]'s variants, for which it is refused.
pub open spec fn compiled(route: Seq<char>) -> Result<PatternView, PatternError> {
    let pieces = segments(route);
    let segs = classify_all(pieces);
    if route.len() == 0 {
        Err(PatternError::Empty)
    } else if has_empty_piece(pieces) {
        Err(PatternError::EmptySegment)
    } else if has_early_wildcard(segs) {
        Err(PatternError::WildcardNotLast)
    } else if has_repeated_name(segs) {
        Err(PatternError::DuplicateName)
    } else {
        Ok(PatternView { route, segments: segs })
    }
}

/// Whether a pattern is what its own template compiles to.
pub open spec fn is_compiled(pattern: PatternView) -> bool {
    compiled(pattern.route) == Ok::<PatternView, PatternError>(pattern)
}

/// Whether one pattern segment accepts one path segment.
pub open spec fn fits(seg: SegmentView, piece: Seq<char>) -> bool {
    match seg {
        SegmentView::Static(literal) => literal == piece,
        _ => true,
    }
}

/// Whether a pattern accepts a path, given by its segments. The counts are
/// equal, or the pattern ends in a wildcard and has no more segments than the
/// path; and each segment before a trailing wildcard accepts the path segment
/// in its place.
pub open spec fn accepts(segs: Seq<SegmentView>, pieces: Seq<Seq<char>>) -> bool {
    let n = segs.len();
    if n > 0 && segs[n - 1] is Wildcard {
        n <= pieces.len() && forall|i: int| 0 <= i < n - 1 ==> fits(#[trigger] segs[i], pieces[i])
    } else {
        n == pieces.len() && forall|i: int| 0 <= i < n ==> fits(#[trigger] segs[i], pieces[i])
    }
}

/// The bindings that the first `upto` segments of a pattern make on a path: a
/// named capture binds the path segment in its place, a wildcard the path
/// from its place on.
pub open spec fn captures_upto(segs: Seq<SegmentView>, pieces: Seq<Seq<char>>, upto: nat) -> Map<
    Seq<char>,
    Seq<char>,
>
    decreases upto,
{
    if upto == 0 {
        Map::empty()
    } else {
        let k = upto - 1;
        let before = captures_upto(segs, pieces, k as nat);
        match segs[k] {
            SegmentView::Static(_) => before,
            SegmentView::Named(name) => before.insert(name, pieces[k]),
            SegmentView::Wildcard(name) => before.insert(name, join(pieces.skip(k))),
        }
    }
}

/// The bindings that a pattern makes on a path that it accepts.
pub open spec fn captures(segs: Seq<SegmentView>, pieces: Seq<Seq<char>>) -> Map<Seq<char>, Seq<char>> {
    captures_upto(segs, pieces, segs.len())
}

/// A compiled route template.
#[derive(Clone, Debug, PartialEq, Eq)]
pub struct RoutePattern {
    route: String,
    segments: Vec<Segment>,
}

impl View for RoutePattern {
    type V = PatternView;

    closed spec fn view(&self) -> PatternView {
        PatternView { route: self.route@, segments: segment_views(self.segments@) }
    }
}

/// The segment that one non-empty piece of a template denotes.
fn classify_piece(piece: &String) -> (seg: Segment)
    requires
        piece@.len() > 0,
    ensures
        seg@ == classify(piece@),
{
    let text = piece.as_str();
    let first = text.get_char(0);
    if first == ':' {
        Segment::Named(text.substring_char(1, text.unicode_len()).to_owned())
    } else if first == '*' {
        Segment::Wildcard(text.substring_char(1, text.unicode_len()).to_owned())
    } else {
        Segment::Static(piece.clone())
    }
}

/// Whether a segment binds a name.
fn is_capture(seg: &Segment) -> (b: bool)
    ensures
        b == seg@.is_capture(),
{
    match seg {
        Segment::Static(_) => false,
        _ => true,
    }
}

/// The literal or name that a segment holds.
fn text_of(seg: &Segment) -> (text: &String)
    ensures
        text@ == seg@.text(),
{
    match seg {
        Segment::Static(t) => t,
        Segment::Named(t) => t,
        Segment::Wildcard(t) => t,
    }
}

/// The path segments from `from` on, joined by `/`.
fn join_from(pieces: &Vec<String>, from: usize) -> (joined: String)
    requires
        from <= pieces.len(),
    ensures
        joined@ == join(texts(pieces@).skip(from as int)),
{
    let mut joined = String::new();
    let mut j: usize = from;
    let ghost all = texts(pieces@);
    proof {
        reveal_strlit("/");
        assert(all.subrange(from as int, from as int) =~= Seq::<Seq<char>>::empty());
    }
    while j < pieces.len()
        invariant
            from <= j <= pieces.len(),
            all == texts(pieces@),
            "/"@ == seq!['/'],
            joined@ == join(all.subrange(from as int, j as int)),
        decreases pieces.len() - j,
    {
        proof {
            let next = all.subrange(from as int, j + 1);
            assert(next.drop_last() =~= all.subrange(from as int, j as int));
            assert(next.last() == pieces@[j as int]@);
            if j == from {
                assert(joined@ =~= Seq::<char>::empty());
            }
        }
        if j > from {
            joined.append("/");
        }
        joined.append(pieces[j].as_str());
        j = j + 1;
        proof {
            if j - 1 == from {
                assert(joined@ =~= pieces@[j - 1]@);
            }
        }
    }
    proof {
        assert(all.subrange(from as int, pieces.len() as int) =~= all.skip(from as int));
    }
    joined
}

impl RoutePattern {
    /// A pattern is well formed when it is what its own template compiles to.
    pub open spec fn wf(&self) -> bool {
        is_compiled(self@)
    }

    /// Compiles a route template. Fails on the empty template, on an empty
    /// segment, on a wildcard that is not last and on a repeated capture
    /// name, in this order of precedence.
    pub fn compile(route: &str) -> (result: Result<RoutePattern, PatternError>)
        ensures
            match result {
                Ok(pattern) => compiled(route@) == Ok::<PatternView, PatternError>(pattern@)
                    && pattern.wf(),
                Err(e) => compiled(route@) == Err::<PatternView, PatternError>(e),
            },
    {
        if route.unicode_len() == 0 {
            return Err(PatternError::Empty);
        }
        let pieces = split_segments(route);
        let ghost raw = segments(route@);
        let mut segs: Vec<Segment> = Vec::new();
        let mut i: usize = 0;
        while i < pieces.len()
            invariant
                i <= pieces.len(),
                route@.len() > 0,
                raw == segments(route@),
                texts(pieces@) == raw,
                segs.len() == i,
                forall|k: int| 0 <= k < i ==> (#[trigger] raw[k]).len() > 0,
                forall|k: int| 0 <= k < i ==> (#[trigger] segs@[k])@ == classify(raw[k]),
            decreases pieces.len() - i,
        {
            assert(pieces@[i as int]@ == raw[i as int]);
            if pieces[i].as_str().unicode_len() == 0 {
                assert(has_empty_piece(raw));
                return Err(PatternError::EmptySegment);
            }
            let seg = classify_piece(&pieces[i]);
            segs.push(seg);
            i = i + 1;
        }
        assert(!has_empty_piece(raw));
        let ghost views = segment_views(segs@);
        assert(views =~= classify_all(raw));
        let n = segs.len();
        let mut i: usize = 1;
        while i < n
            invariant
                1 <= i,
                n == segs.len(),
                route@.len() > 0,
                raw == segments(route@),
                !has_empty_piece(raw),
                views == classify_all(raw),
                views == segment_views(segs@),
                forall|k: int| 0 <= k < i - 1 && k < n - 1 ==> !(#[trigger] views[k] is Wildcard),
            decreases n - i,
        {
            match &segs[i - 1] {
                Segment::Wildcard(_) => {
                    assert(views[i - 1] is Wildcard);
                    assert(has_early_wildcard(views));
                    return Err(PatternError::WildcardNotLast);
                },
                _ => {},
            }
            i = i + 1;
        }
        assert(!has_early_wildcard(views));
        let mut j: usize = 0;
        while j < n
            invariant
                j <= n,
                n == segs.len(),
                route@.len() > 0,
                raw == segments(route@),
                !has_empty_piece(raw),
                views == classify_all(raw),
                !has_early_wildcard(views),
                views == segment_views(segs@),
                forall|a: int, b: int|
                    0 <= a < b < j && (#[trigger] views[a]).is_capture() && (
                    #[trigger] views[b]).is_capture() ==> views[a].text() != views[b].text(),
            decreases n - j,
        {
            if is_capture(&segs[j]) {
                let mut a: usize = 0;
                while a < j
                    invariant
                        a <= j < n,
                        n == segs.len(),
                        route@.len() > 0,
                        raw == segments(route@),
                        !has_empty_piece(raw),
                        views == classify_all(raw),
                        !has_early_wildcard(views),
                        views == segment_views(segs@),
                        views[j as int].is_capture(),
                        forall|c: int|
                            0 <= c < a && (#[trigger] views[c]).is_capture() ==> views[c].text()
                                != views[j as int].text(),
                    decreases j - a,
                {
                    if is_capture(&segs[a]) && *text_of(&segs[a]) == *text_of(&segs[j]) {
                        assert(views[a as int].is_capture() && views[j as int].is_capture());
                        assert(has_repeated_name(views));
                        return Err(PatternError::DuplicateName);
                    }
                    a = a + 1;
                }
            }
            j = j + 1;
        }
        assert(!has_repeated_name(views));
        Ok(RoutePattern { route: route.to_owned(), segments: segs })
    }

    /// The template that the pattern was compiled from.
    pub fn route(&self) -> (route: &String)
        ensures
            route@ == self@.route,
    {
        &self.route
    }

    /// The segments of the pattern, in order.
    pub fn segments(&self) -> (segs: &Vec<Segment>)
        ensures
            segment_views(segs@) == self@.segments,
    {
        &self.segments
    }

    /// Aligns the pattern with the segments of a path. Returns the bindings
    /// when the pattern accepts the path, and nothing when it does not.
    pub fn match_segments(&self, pieces: &Vec<String>) -> (found: Option<Params>)
        ensures
            found is Some <==> accepts(self@.segments, texts(pieces@)),
            found is Some ==> bindings(found->0) == captures(self@.segments, texts(pieces@)),
    {
        let n = self.segments.len();
        let ghost segs = self@.segments;
        let ghost path = texts(pieces@);
        let ends_wild = n > 0 && match &self.segments[n - 1] {
            Segment::Wildcard(_) => true,
            _ => false,
        };
        if ends_wild {
            if n > pieces.len() {
                return None;
            }
        } else if n != pieces.len() {
            return None;
        }
        let mut params = Params::new();
        let mut i: usize = 0;
        while i < n
            invariant
                i <= n <= pieces.len(),
                n == self.segments.len(),
                segs == self@.segments,
                path == texts(pieces@),
                ends_wild == (n > 0 && segs[n - 1] is Wildcard),
                !ends_wild ==> n == pieces.len(),
                forall|k: int| 0 <= k < i ==> fits(#[trigger] segs[k], path[k]),
                bindings(params) == captures_upto(segs, path, i as nat),
            decreases n - i,
        {
            match &self.segments[i] {
                Segment::Static(literal) => {
                    if *literal != pieces[i] {
                        assert(!fits(segs[i as int], path[i as int]));
                        if ends_wild && i == n - 1 {
                            assert(false);
                        }
                        return None;
                    }
                },
                Segment::Named(name) => {
                    params.insert(name.clone(), pieces[i].clone());
                },
                Segment::Wildcard(name) => {
                    let rest = join_from(pieces, i);
                    params.insert(name.clone(), rest);
                },
            }
            i = i + 1;
        }
        Some(params)
    }
}

} // verus!
