//! What holds of the router as a whole: facts that relate compilation,
//! registration, lookup and dispatch to each other.

use crate::error::RouterError;
use crate::path::{join, segments, split};
use crate::pattern::{
    accepts, captures, captures_upto, classify_all, compiled, fits, has_repeated_name, is_compiled,
    PatternError,
    PatternView, SegmentView,
};
use crate::router::{
    added, best_mount, lemma_best_mount, resolve, rewritten, step, MountView, OutcomeView, RouterView,
    StepView,
};
use crate::table::{first_match, has_route, lemma_first_match, EntryView, PolicyView};
use crate::uri::{is_origin_form, valid_target};
use vstd::prelude::*;

verus! {

/// Whether every segment of a pattern is a literal.
pub open spec fn all_static(segs: Seq<SegmentView>) -> bool {
    forall|i: int| 0 <= i < segs.len() ==> #[trigger] segs[i] is Static
}

/// Whether no route accepts the path and the mounts lead it to no route
/// either: no prefix begins it, or the sub-router of the longest prefix that
/// does is asked, and there the same holds of the rewritten path.
pub open spec fn dead_end<H>(r: RouterView<H>, path: Seq<char>) -> bool
    decreases r,
{
    &&& first_match(r.routes, segments(path)) is None
    &&& match best_mount(r.mounts, path) {
        None => true,
        Some(k) => {
            proof {
                lemma_best_mount(r.mounts, path);
            }
            valid_target(rewritten(path, r.mounts[k].prefix)) && dead_end(
                r.mounts[k].router,
                rewritten(path, r.mounts[k].prefix),
            )
        },
    }
}

/// Compiling is a function of the template: two results for one template are
/// the same, segment by segment.
pub proof fn compile_is_deterministic(
    route: Seq<char>,
    first: Result<PatternView, PatternError>,
    second: Result<PatternView, PatternError>,
)
    requires
        first == compiled(route),
        second == compiled(route),
    ensures
        first == second,
{
}

/// Two compiled patterns with the same template are the same pattern, so
/// that a template identifies its route.
pub proof fn same_template_same_pattern(p: PatternView, q: PatternView)
    requires
        is_compiled(p),
        is_compiled(q),
        p.route == q.route,
    ensures
        p == q,
{
}

/// A route that was added cannot be added again: the second registration of
/// a template is refused as a duplicate, whatever its handler and policy.
pub proof fn second_registration_is_duplicate<H>(
    r: RouterView<H>,
    after: RouterView<H>,
    route: Seq<char>,
    handler: H,
    policy: PolicyView,
    again: H,
    again_policy: PolicyView,
)
    requires
        added(r, route, handler, policy) == Ok::<RouterView<H>, RouterError>(after),
        again_policy.wf(),
    ensures
        added(after, route, again, again_policy) == Err::<RouterView<H>, RouterError>(
            RouterError::DuplicateRoute,
        ),
{
    let pattern = compiled(route)->Ok_0;
    let last = r.routes.len() as int;
    assert(after.routes[last].pattern.route == route);
    assert(has_route(after.routes, route));
}

/// A pattern of literals accepts the path that is written like its template,
/// and binds nothing on it.
pub proof fn static_pattern_accepts_its_template(route: Seq<char>)
    requires
        compiled(route) is Ok,
        all_static(compiled(route)->Ok_0.segments),
    ensures
        accepts(compiled(route)->Ok_0.segments, segments(route)),
        captures(compiled(route)->Ok_0.segments, segments(route)) == Map::<Seq<char>, Seq<char>>::empty(),
{
    let segs = compiled(route)->Ok_0.segments;
    let pieces = segments(route);
    assert(segs == classify_all(pieces));
    assert forall|i: int| 0 <= i < segs.len() implies fits(#[trigger] segs[i], pieces[i]) by {
        assert(segs[i] is Static);
    }
    lemma_static_binds_nothing(segs, pieces, segs.len());
}

/// Literals bind nothing.
proof fn lemma_static_binds_nothing(segs: Seq<SegmentView>, pieces: Seq<Seq<char>>, upto: nat)
    requires
        all_static(segs),
        upto <= segs.len(),
    ensures
        captures_upto(segs, pieces, upto) == Map::<Seq<char>, Seq<char>>::empty(),
    decreases upto,
{
    if upto > 0 {
        lemma_static_binds_nothing(segs, pieces, (upto - 1) as nat);
        assert(segs[upto - 1] is Static);
    }
}

/// Registration order decides: a route that is added later never takes a
/// path away from a route that accepted it before.
pub proof fn earlier_route_wins<H>(table: Seq<EntryView<H>>, entry: EntryView<H>, pieces: Seq<Seq<char>>)
    requires
        first_match(table, pieces) is Some,
    ensures
        first_match(table.push(entry), pieces) == first_match(table, pieces),
{
    assert(table.push(entry).drop_last() =~= table);
}

/// A route of literals, once added, is reached by the request whose path is
/// written like its template, with the handler it was added with and no
/// bindings, provided its policy allows the method and no route added before
/// it accepts that path.
pub proof fn static_route_reaches_its_handler<H>(
    r: RouterView<H>,
    after: RouterView<H>,
    route: Seq<char>,
    handler: H,
    policy: PolicyView,
    method: Seq<char>,
)
    requires
        added(r, route, handler, policy) == Ok::<RouterView<H>, RouterError>(after),
        all_static(compiled(route)->Ok_0.segments),
        policy.allows(method),
        first_match(r.routes, segments(route)) is None,
    ensures
        resolve(after, route, method) == (OutcomeView::Handle {
            handler,
            params: Map::<Seq<char>, Seq<char>>::empty(),
            path: route,
        }),
{
    static_pattern_accepts_its_template(route);
    let pattern = compiled(route)->Ok_0;
    let entry = EntryView { pattern, handler, policy };
    assert(after.routes == r.routes.push(entry));
    assert(after.routes.drop_last() =~= r.routes);
    assert(first_match(after.routes, segments(route)) == Some(r.routes.len() as int));
}

/// Among mounts with distinct prefixes the choice does not depend on their
/// order: the chosen prefix begins the path and is strictly longer than every
/// other prefix that does.
pub proof fn longest_prefix_is_chosen<H>(mounts: Seq<MountView<H>>, path: Seq<char>, k: int)
    requires
        forall|i: int, j: int|
            0 <= i < j < mounts.len() ==> (#[trigger] mounts[i]).prefix != (#[trigger] mounts[j]).prefix,
        best_mount(mounts, path) == Some(k),
    ensures
        0 <= k < mounts.len(),
        mounts[k].prefix.is_prefix_of(path),
        forall|j: int|
            0 <= j < mounts.len() && j != k && (#[trigger] mounts[j]).prefix.is_prefix_of(path)
                ==> mounts[j].prefix.len() < mounts[k].prefix.len(),
{
    lemma_best_mount(mounts, path);
    assert forall|j: int|
        0 <= j < mounts.len() && j != k && (#[trigger] mounts[j]).prefix.is_prefix_of(
            path,
        ) implies mounts[j].prefix.len() < mounts[k].prefix.len() by {
        if mounts[j].prefix.len() == mounts[k].prefix.len() {
            assert(mounts[j].prefix =~= mounts[k].prefix);
            if j < k {
                assert(mounts[j].prefix != mounts[k].prefix);
            } else {
                assert(mounts[k].prefix != mounts[j].prefix);
            }
        }
    }
}

/// Some mounted prefix begins the path exactly when a mount is chosen.
pub proof fn a_matching_prefix_is_never_passed_over<H>(mounts: Seq<MountView<H>>, path: Seq<char>)
    ensures
        best_mount(mounts, path) is Some <==> exists|j: int|
            0 <= j < mounts.len() && (#[trigger] mounts[j]).prefix.is_prefix_of(path),
{
    lemma_best_mount(mounts, path);
}

/// A request ends in "not found" exactly when its path is a dead end: at
/// every router on its way no route accepts it, and at the last one no mounted
/// prefix begins it. The method plays no part.
pub proof fn not_found_iff_dead_end<H>(r: RouterView<H>, path: Seq<char>, method: Seq<char>)
    ensures
        resolve(r, path, method) is NotFound <==> dead_end(r, path),
    decreases r,
{
    lemma_best_mount(r.mounts, path);
    if first_match(r.routes, segments(path)) is None {
        match best_mount(r.mounts, path) {
            None => {},
            Some(k) => {
                let inner = rewritten(path, r.mounts[k].prefix);
                if valid_target(inner) {
                    not_found_iff_dead_end(r.mounts[k].router, inner, method);
                }
            },
        }
    }
}

/// A path that no route accepts and no mounted prefix begins is not found.
pub proof fn unmatched_is_not_found<H>(r: RouterView<H>, path: Seq<char>, method: Seq<char>)
    requires
        forall|i: int| 0 <= i < r.routes.len() ==> !accepts((#[trigger] r.routes[i]).pattern.segments, segments(path)),
        forall|j: int| 0 <= j < r.mounts.len() ==> !(#[trigger] r.mounts[j]).prefix.is_prefix_of(path),
    ensures
        resolve(r, path, method) is NotFound,
{
    lemma_first_match(r.routes, segments(path));
    lemma_best_mount(r.mounts, path);
}

/// A request that is forwarded ends where the sub-router lets it end: the
/// outcome of the router is the outcome of the chosen sub-router on the
/// rewritten path.
pub proof fn forwarded_request_ends_in_the_subrouter<H>(
    r: RouterView<H>,
    path: Seq<char>,
    method: Seq<char>,
    k: int,
)
    requires
        first_match(r.routes, segments(path)) is None,
        best_mount(r.mounts, path) == Some(k),
        valid_target(rewritten(path, r.mounts[k].prefix)),
    ensures
        resolve(r, path, method) == resolve(r.mounts[k].router, rewritten(path, r.mounts[k].prefix), method),
{
}

/// A request for a path below a mounted prefix, such as `/api/ping` under
/// `/api`, goes to the sub-router with the prefix taken off: what is left
/// begins with `/`, and so is always handed on.
pub proof fn path_below_a_mount_is_forwarded<H>(
    r: RouterView<H>,
    prefix: Seq<char>,
    rest: Seq<char>,
    method: Seq<char>,
    k: int,
)
    requires
        is_origin_form(rest),
        first_match(r.routes, segments(prefix + rest)) is None,
        best_mount(r.mounts, prefix + rest) == Some(k),
        r.mounts[k].prefix == prefix,
    ensures
        step(r, prefix + rest, method) == (StepView::<H>::Forward { mount: k, path: rest }),
        resolve(r, prefix + rest, method) == resolve(r.mounts[k].router, rest, method),
{
    assert(rewritten(prefix + rest, prefix) =~= rest);
}

/// A request for exactly a mounted prefix goes to the sub-router as `/`.
pub proof fn mount_point_is_the_root_of_the_subrouter<H>(
    r: RouterView<H>,
    prefix: Seq<char>,
    method: Seq<char>,
    k: int,
)
    requires
        first_match(r.routes, segments(prefix)) is None,
        best_mount(r.mounts, prefix) == Some(k),
        r.mounts[k].prefix == prefix,
    ensures
        step(r, prefix, method) == (StepView::<H>::Forward { mount: k, path: seq!['/'] }),
        resolve(r, prefix, method) == resolve(r.mounts[k].router, seq!['/'], method),
{
}

/// Splitting a text at its separators and joining the pieces again gives the
/// text back, so that a wildcard binds the path as it was written from its
/// place on.
pub proof fn join_undoes_split(s: Seq<char>)
    ensures
        split(s).len() >= 1,
        join(split(s)) == s,
    decreases s.len(),
{
    if s.len() > 0 {
        let t = s.drop_last();
        let c = s.last();
        join_undoes_split(t);
        let before = split(t);
        if c == '/' {
            let now = before.push(Seq::<char>::empty());
            assert(now.drop_last() =~= before);
            assert(join(now) =~= t + seq!['/']);
            assert(t + seq!['/'] =~= s);
        } else {
            let now = before.drop_last().push(before.last().push(c));
            assert(now.drop_last() =~= before.drop_last());
            if before.len() == 1 {
                assert(before.last() == t);
                assert(t.push(c) =~= s);
            } else {
                assert(join(now) =~= join(before.drop_last()) + seq!['/'] + before.last().push(c));
                assert(join(before) =~= join(before.drop_last()) + seq!['/'] + before.last());
                assert(join(now) =~= join(before).push(c));
                assert(t.push(c) =~= s);
            }
        }
    }
}

/// What a pattern binds on a path that it accepts: each named capture the
/// path segment in its place, a trailing wildcard the rest of the path joined
/// by `/`, and nothing else. The names of the pattern must differ, as they do
/// in every compiled pattern.
pub proof fn captures_bind_each_name(segs: Seq<SegmentView>, pieces: Seq<Seq<char>>)
    requires
        !has_repeated_name(segs),
    ensures
        forall|i: int|
            0 <= i < segs.len() && (#[trigger] segs[i]) is Named ==> captures(segs, pieces).contains_pair(
                segs[i].text(),
                pieces[i],
            ),
        forall|i: int|
            0 <= i < segs.len() && (#[trigger] segs[i]) is Wildcard ==> captures(segs, pieces).contains_pair(
                segs[i].text(),
                join(pieces.skip(i)),
            ),
        forall|name: Seq<char>|
            captures(segs, pieces).dom().contains(name) <==> exists|i: int|
                0 <= i < segs.len() && (#[trigger] segs[i]).is_capture() && segs[i].text() == name,
{
    lemma_captures_upto(segs, pieces, segs.len());
}

/// The bindings of the first `upto` segments.
proof fn lemma_captures_upto(segs: Seq<SegmentView>, pieces: Seq<Seq<char>>, upto: nat)
    requires
        !has_repeated_name(segs),
        upto <= segs.len(),
    ensures
        forall|i: int|
            0 <= i < upto && (#[trigger] segs[i]) is Named ==> captures_upto(segs, pieces, upto).contains_pair(
                segs[i].text(),
                pieces[i],
            ),
        forall|i: int|
            0 <= i < upto && (#[trigger] segs[i]) is Wildcard ==> captures_upto(
                segs,
                pieces,
                upto,
            ).contains_pair(segs[i].text(), join(pieces.skip(i))),
        forall|name: Seq<char>|
            captures_upto(segs, pieces, upto).dom().contains(name) <==> exists|i: int|
                0 <= i < upto && (#[trigger] segs[i]).is_capture() && segs[i].text() == name,
    decreases upto,
{
    if upto > 0 {
        let k = upto - 1;
        lemma_captures_upto(segs, pieces, k as nat);
        let before = captures_upto(segs, pieces, k as nat);
        let now = captures_upto(segs, pieces, upto);
        assert forall|i: int| 0 <= i < k && (#[trigger] segs[i]).is_capture() && segs[k].is_capture() implies segs[i].text()
            != segs[k].text() by {
            if segs[i].text() == segs[k].text() {
                assert(has_repeated_name(segs));
            }
        }
        assert forall|name: Seq<char>| now.dom().contains(name) implies exists|i: int|
            0 <= i < upto && (#[trigger] segs[i]).is_capture() && segs[i].text() == name by {
            if before.dom().contains(name) {
                let i = choose|i: int| 0 <= i < k && (#[trigger] segs[i]).is_capture() && segs[i].text() == name;
                assert(0 <= i < upto && segs[i].is_capture() && segs[i].text() == name);
            } else {
                assert(segs[k].is_capture() && segs[k].text() == name);
            }
        }
        assert forall|name: Seq<char>|
            (exists|i: int| 0 <= i < upto && (#[trigger] segs[i]).is_capture() && segs[i].text() == name)
            implies now.dom().contains(name) by {
            let i = choose|i: int| 0 <= i < upto && (#[trigger] segs[i]).is_capture() && segs[i].text() == name;
            if i < k {
                assert(before.dom().contains(name));
            }
        }
    }
}

} // verus!
