//! The router: a route table, sub-routers mounted under prefixes, and the
//! decision that sends a request to a handler, to a sub-router or to an
//! error response.

use crate::error::RouterError;
use crate::params::bindings;
use crate::path::{segments, texts};
use crate::pattern::{captures, compiled, RoutePattern};
use crate::table::{
    first_match, registered, table_wf, EntryView, MethodPolicy, PolicyView, RouteTable,
};
use crate::uri::{is_uri, valid_target};
use route_recognizer::Params;
use vstd::prelude::*;

verus! {

broadcast use vstd::string::group_string_axioms;

/// A sub-router and the prefix under which it is mounted.
pub struct Mount<H> {
    prefix: String,
    router: Router<H>,
}

/// A router: its own routes, and its sub-routers in the order in which they
/// were mounted.
pub struct Router<H> {
    table: RouteTable<H>,
    mounts: Vec<Mount<H>>,
}

/// The mathematical value of a [`Mount`].
pub struct MountView<H> {
    pub prefix: Seq<char>,
    pub router: RouterView<H>,
}

/// The mathematical value of a [`Router`]: a tree.
pub struct RouterView<H> {
    pub routes: Seq<EntryView<H>>,
    pub mounts: Seq<MountView<H>>,
}

/// Whether a prefix is mounted.
pub open spec fn has_mount<H>(mounts: Seq<MountView<H>>, prefix: Seq<char>) -> bool {
    exists|i: int| 0 <= i < mounts.len() && (#[trigger] mounts[i]).prefix == prefix
}

/// The invariant of a router: its table is well formed, no prefix is empty,
/// no prefix is mounted twice, and every sub-router is well formed.
pub open spec fn router_wf<H>(r: RouterView<H>) -> bool
    decreases r,
{
    &&& table_wf(r.routes)
    &&& forall|i: int| 0 <= i < r.mounts.len() ==> (#[trigger] r.mounts[i]).prefix.len() > 0
    &&& forall|i: int, j: int|
        0 <= i < j < r.mounts.len() ==> (#[trigger] r.mounts[i]).prefix != (#[trigger] r.mounts[j]).prefix
    &&& forall|i: int| 0 <= i < r.mounts.len() ==> router_wf((#[trigger] r.mounts[i]).router)
}

/// The mount that a path goes to: the one with the longest prefix among those
/// whose prefix the path starts with, whatever the order of the mounts.
pub open spec fn best_mount<H>(mounts: Seq<MountView<H>>, path: Seq<char>) -> Option<int>
    decreases mounts.len(),
{
    if mounts.len() == 0 {
        None
    } else {
        let before = best_mount(mounts.drop_last(), path);
        let last = mounts.last().prefix;
        if last.is_prefix_of(path) && (before is None || mounts[before->0].prefix.len() < last.len()) {
            Some(mounts.len() - 1)
        } else {
            before
        }
    }
}

/// The path that a sub-router sees: the path without the prefix, or `/`
/// where nothing is left.
pub open spec fn rewritten(path: Seq<char>, prefix: Seq<char>) -> Seq<char> {
    if prefix.len() >= path.len() {
        seq!['/']
    } else {
        path.subrange(prefix.len() as int, path.len() as int)
    }
}

/// What one router decides about a request.
pub enum StepView<H> {
    /// A route accepts the path and the method: the handler is to be called.
    Handle { handler: H, params: Map<Seq<char>, Seq<char>> },
    /// A route accepts the path but not the method.
    MethodNotAllowed,
    /// No route accepts the path, which goes on to a sub-router.
    Forward { mount: int, path: Seq<char> },
    /// No route accepts the path and no mounted prefix begins it.
    NotFound,
}

/// The decision of one router: the table first, then the mounts.
pub open spec fn step<H>(r: RouterView<H>, path: Seq<char>, method: Seq<char>) -> StepView<H> {
    match first_match(r.routes, segments(path)) {
        Some(i) => if r.routes[i].policy.allows(method) {
            StepView::Handle {
                handler: r.routes[i].handler,
                params: captures(r.routes[i].pattern.segments, segments(path)),
            }
        } else {
            StepView::MethodNotAllowed
        },
        None => match best_mount(r.mounts, path) {
            Some(k) => StepView::Forward { mount: k, path: rewritten(path, r.mounts[k].prefix) },
            None => StepView::NotFound,
        },
    }
}

/// Where a request ends.
pub enum OutcomeView<H> {
    /// At a handler, with the bindings of the route and the path as the
    /// router that owns the route saw it.
    Handle { handler: H, params: Map<Seq<char>, Seq<char>>, path: Seq<char> },
    /// At a route that does not accept the method.
    MethodNotAllowed,
    /// Nowhere.
    NotFound,
    /// At a rewritten path that is no valid request target.
    RewriteError,
}

/// `best_mount` names a mount whose prefix begins the path and is as long as
/// any other that does, and names none only if no prefix begins the path.
pub proof fn lemma_best_mount<H>(mounts: Seq<MountView<H>>, path: Seq<char>)
    ensures
        match best_mount(mounts, path) {
            Some(k) => 0 <= k < mounts.len() && mounts[k].prefix.is_prefix_of(path) && forall|j: int|
                0 <= j < mounts.len() && (#[trigger] mounts[j]).prefix.is_prefix_of(path)
                    ==> mounts[j].prefix.len() <= mounts[k].prefix.len(),
            None => forall|j: int|
                0 <= j < mounts.len() ==> !(#[trigger] mounts[j]).prefix.is_prefix_of(path),
        },
    decreases mounts.len(),
{
    if mounts.len() > 0 {
        lemma_best_mount(mounts.drop_last(), path);
        assert(forall|j: int| 0 <= j < mounts.len() - 1 ==> mounts.drop_last()[j] == mounts[j]);
    }
}

/// Where a request ends: the decisions of the routers on its way, from the
/// outermost inwards. Before a sub-router is asked, the rewritten path must
/// be a valid request target.
pub open spec fn resolve<H>(r: RouterView<H>, path: Seq<char>, method: Seq<char>) -> OutcomeView<H>
    decreases r,
{
    match step(r, path, method) {
        StepView::Handle { handler, params } => OutcomeView::Handle { handler, params, path },
        StepView::MethodNotAllowed => OutcomeView::MethodNotAllowed,
        StepView::NotFound => OutcomeView::NotFound,
        StepView::Forward { mount, path: inner } => {
            proof {
                lemma_best_mount(r.mounts, path);
            }
            if valid_target(inner) {
                resolve(r.mounts[mount].router, inner, method)
            } else {
                OutcomeView::RewriteError
            }
        },
    }
}

/// What adding a route makes of a router.
pub open spec fn added<H>(r: RouterView<H>, route: Seq<char>, handler: H, policy: PolicyView) -> Result<
    RouterView<H>,
    RouterError,
> {
    match compiled(route) {
        Err(e) => Err(RouterError::InvalidPattern(e)),
        Ok(pattern) => match registered(r.routes, (EntryView { pattern, handler, policy })) {
            Err(e) => Err(e),
            Ok(routes) => Ok(RouterView { routes, mounts: r.mounts }),
        },
    }
}

/// The policy that allows one method and no other.
pub open spec fn only_method(token: Seq<char>) -> PolicyView {
    PolicyView::AllowOnly(seq![token])
}

/// Whether `result` and `after` are what adding the route to `before` gives:
/// on success the router with the route, on failure the reason and the router
/// as it was.
pub open spec fn is_added<H>(
    before: RouterView<H>,
    after: RouterView<H>,
    result: Result<(), RouterError>,
    route: Seq<char>,
    handler: H,
    policy: PolicyView,
) -> bool {
    match result {
        Ok(()) => added(before, route, handler, policy) == Ok::<RouterView<H>, RouterError>(after),
        Err(e) => added(before, route, handler, policy) == Err::<RouterView<H>, RouterError>(e) && after
            == before,
    }
}

/// What mounting a sub-router makes of a router.
pub open spec fn mounted<H>(r: RouterView<H>, prefix: Seq<char>, sub: RouterView<H>) -> Result<
    RouterView<H>,
    RouterError,
> {
    if prefix.len() == 0 {
        Err(RouterError::EmptyPrefix)
    } else if has_mount(r.mounts, prefix) {
        Err(RouterError::DuplicateMount)
    } else {
        Ok(RouterView { routes: r.routes, mounts: r.mounts.push(MountView { prefix, router: sub }) })
    }
}

/// The decision of one router about a request.
pub enum Step<'a, H> {
    /// Call the handler with these bindings.
    Handle { handler: &'a H, params: Params },
    /// Answer that the method is not allowed.
    MethodNotAllowed,
    /// Hand the request, with this path, to the sub-router at this position.
    Forward { mount: usize, path: String },
    /// Answer that nothing was found.
    NotFound,
}

impl<'a, H> View for Step<'a, H> {
    type V = StepView<H>;

    open spec fn view(&self) -> StepView<H> {
        match self {
            Step::Handle { handler, params } => StepView::Handle {
                handler: **handler,
                params: bindings(*params),
            },
            Step::MethodNotAllowed => StepView::MethodNotAllowed,
            Step::Forward { mount, path } => StepView::Forward { mount: *mount as int, path: path@ },
            Step::NotFound => StepView::NotFound,
        }
    }
}

/// Where a request ends.
pub enum Outcome<'a, H> {
    /// Call the handler with these bindings; `path` is the path as the router
    /// that owns the route saw it.
    Handle { handler: &'a H, params: Params, path: String },
    /// Answer that the method is not allowed.
    MethodNotAllowed,
    /// Answer that nothing was found.
    NotFound,
    /// Answer with an internal error: a rewritten path was no valid target.
    RewriteError,
}

impl<'a, H> View for Outcome<'a, H> {
    type V = OutcomeView<H>;

    open spec fn view(&self) -> OutcomeView<H> {
        match self {
            Outcome::Handle { handler, params, path } => OutcomeView::Handle {
                handler: **handler,
                params: bindings(*params),
                path: path@,
            },
            Outcome::MethodNotAllowed => OutcomeView::MethodNotAllowed,
            Outcome::NotFound => OutcomeView::NotFound,
            Outcome::RewriteError => OutcomeView::RewriteError,
        }
    }
}

impl<'a, H> Outcome<'a, H> {
    /// The status code of the response that the router itself gives; nothing
    /// where the handler is to answer.
    pub fn status(&self) -> (code: Option<u16>)
        ensures
            code == match self@ {
                OutcomeView::Handle { .. } => None::<u16>,
                OutcomeView::MethodNotAllowed => Some(405u16),
                OutcomeView::NotFound => Some(404u16),
                OutcomeView::RewriteError => Some(500u16),
            },
    {
        match self {
            Outcome::Handle { .. } => None,
            Outcome::MethodNotAllowed => Some(405),
            Outcome::NotFound => Some(404),
            Outcome::RewriteError => Some(500),
        }
    }
}

/// The length of the prefix, in characters, if the path starts with it.
fn prefix_len(path: &str, path_len: usize, prefix: &String) -> (len: Option<usize>)
    requires
        path_len == path@.len(),
    ensures
        match len {
            Some(n) => n == prefix@.len() && prefix@.is_prefix_of(path@),
            None => !prefix@.is_prefix_of(path@),
        },
{
    let n = prefix.as_str().unicode_len();
    if n <= path_len && path.substring_char(0, n).to_owned() == *prefix {
        Some(n)
    } else {
        None
    }
}

/// The policy that allows one method and no other.
fn only(token: &str) -> (policy: MethodPolicy)
    ensures
        policy@ == only_method(token@),
{
    let mut tokens: Vec<String> = Vec::new();
    tokens.push(token.to_owned());
    assert(texts(tokens@) =~= seq![token@]);
    MethodPolicy::AllowOnly(tokens)
}

impl<H> View for Router<H> {
    type V = RouterView<H>;

    closed spec fn view(&self) -> RouterView<H> {
        self.tree()
    }
}

impl<H> Router<H> {
    /// The invariant of the router, see [`router_wf`].
    pub open spec fn wf(&self) -> bool {
        router_wf(self@)
    }

    /// The router as a tree of values.
    closed spec fn tree(&self) -> RouterView<H>
        decreases self,
    {
        RouterView { routes: self.table@, mounts: Self::trees(self.mounts@, self.mounts@.len()) }
    }

    /// The values of the first `upto` mounts.
    closed spec fn trees(mounts: Seq<Mount<H>>, upto: nat) -> Seq<MountView<H>>
        decreases mounts, upto,
    {
        if upto == 0 || upto > mounts.len() {
            Seq::empty()
        } else {
            Self::trees(mounts, (upto - 1) as nat).push(
                MountView {
                    prefix: mounts[upto - 1].prefix@,
                    router: mounts[upto - 1].router.tree(),
                },
            )
        }
    }

    /// The values of the first `upto` mounts, one by one.
    proof fn lemma_trees(mounts: Seq<Mount<H>>, upto: nat)
        requires
            upto <= mounts.len(),
        ensures
            Self::trees(mounts, upto).len() == upto,
            forall|i: int|
                0 <= i < upto ==> (#[trigger] Self::trees(mounts, upto)[i]) == (MountView {
                    prefix: mounts[i].prefix@,
                    router: mounts[i].router@,
                }),
        decreases upto,
    {
        if upto > 0 {
            Self::lemma_trees(mounts, (upto - 1) as nat);
        }
    }

    /// The value of a router, one level deep.
    proof fn lemma_view(&self)
        ensures
            self@.routes == self.table@,
            self@.mounts.len() == self.mounts@.len(),
            forall|i: int|
                0 <= i < self.mounts@.len() ==> (#[trigger] self@.mounts[i]) == (MountView {
                    prefix: self.mounts@[i].prefix@,
                    router: self.mounts@[i].router@,
                }),
    {
        Self::lemma_trees(self.mounts@, self.mounts@.len());
    }

    /// A router without routes and without sub-routers.
    pub fn new() -> (router: Router<H>)
        ensures
            router@ == (RouterView { routes: Seq::<EntryView<H>>::empty(), mounts: Seq::<MountView<H>>::empty() }),
            router.wf(),
    {
        let router = Router { table: RouteTable::new(), mounts: Vec::new() };
        proof {
            router.lemma_view();
            assert(router@.mounts =~= Seq::<MountView<H>>::empty());
        }
        router
    }

    /// Compiles the template and appends the route with the given policy.
    fn add(&mut self, route: &str, handler: H, policy: MethodPolicy) -> (result: Result<(), RouterError>)
        ensures
            old(self).wf() ==> final(self).wf(),
            is_added(old(self)@, final(self)@, result, route@, handler, policy@),
    {
        match RoutePattern::compile(route) {
            Err(e) => Err(RouterError::InvalidPattern(e)),
            Ok(pattern) => {
                let ghost before = self@;
                proof {
                    self.lemma_view();
                }
                let result = self.table.register(pattern, handler, policy);
                proof {
                    self.lemma_view();
                    assert(self@.mounts =~= before.mounts);
                }
                result
            },
        }
    }

    /// Adds a route that accepts every method. Fails if the template does not
    /// compile or is registered already; the router is then unchanged.
    pub fn any(&mut self, route: &str, handler: H) -> (result: Result<(), RouterError>)
        ensures
            old(self).wf() ==> final(self).wf(),
            is_added(old(self)@, final(self)@, result, route@, handler, PolicyView::AllowAny),
    {
        self.add(route, handler, MethodPolicy::AllowAny)
    }

    /// Adds a route that accepts `GET` only.
    pub fn get(&mut self, route: &str, handler: H) -> (result: Result<(), RouterError>)
        ensures
            old(self).wf() ==> final(self).wf(),
            is_added(old(self)@, final(self)@, result, route@, handler, only_method("GET"@)),
    {
        self.add(route, handler, only("GET"))
    }

    /// Adds a route that accepts `POST` only.
    pub fn post(&mut self, route: &str, handler: H) -> (result: Result<(), RouterError>)
        ensures
            old(self).wf() ==> final(self).wf(),
            is_added(old(self)@, final(self)@, result, route@, handler, only_method("POST"@)),
    {
        self.add(route, handler, only("POST"))
    }

    /// Adds a route that accepts `PUT` only.
    pub fn put(&mut self, route: &str, handler: H) -> (result: Result<(), RouterError>)
        ensures
            old(self).wf() ==> final(self).wf(),
            is_added(old(self)@, final(self)@, result, route@, handler, only_method("PUT"@)),
    {
        self.add(route, handler, only("PUT"))
    }

    /// Adds a route that accepts `OPTIONS` only.
    pub fn options(&mut self, route: &str, handler: H) -> (result: Result<(), RouterError>)
        ensures
            old(self).wf() ==> final(self).wf(),
            is_added(old(self)@, final(self)@, result, route@, handler, only_method("OPTIONS"@)),
    {
        self.add(route, handler, only("OPTIONS"))
    }

    /// Adds a route that accepts `HEAD` only.
    pub fn head(&mut self, route: &str, handler: H) -> (result: Result<(), RouterError>)
        ensures
            old(self).wf() ==> final(self).wf(),
            is_added(old(self)@, final(self)@, result, route@, handler, only_method("HEAD"@)),
    {
        self.add(route, handler, only("HEAD"))
    }

    /// Adds a route that accepts `DELETE` only.
    pub fn delete(&mut self, route: &str, handler: H) -> (result: Result<(), RouterError>)
        ensures
            old(self).wf() ==> final(self).wf(),
            is_added(old(self)@, final(self)@, result, route@, handler, only_method("DELETE"@)),
    {
        self.add(route, handler, only("DELETE"))
    }

    /// Adds a route that accepts `CONNECT` only.
    pub fn connect(&mut self, route: &str, handler: H) -> (result: Result<(), RouterError>)
        ensures
            old(self).wf() ==> final(self).wf(),
            is_added(old(self)@, final(self)@, result, route@, handler, only_method("CONNECT"@)),
    {
        self.add(route, handler, only("CONNECT"))
    }

    /// Adds a route that accepts `PATCH` only.
    pub fn patch(&mut self, route: &str, handler: H) -> (result: Result<(), RouterError>)
        ensures
            old(self).wf() ==> final(self).wf(),
            is_added(old(self)@, final(self)@, result, route@, handler, only_method("PATCH"@)),
    {
        self.add(route, handler, only("PATCH"))
    }

    /// Adds a route that accepts `TRACE` only.
    pub fn trace(&mut self, route: &str, handler: H) -> (result: Result<(), RouterError>)
        ensures
            old(self).wf() ==> final(self).wf(),
            is_added(old(self)@, final(self)@, result, route@, handler, only_method("TRACE"@)),
    {
        self.add(route, handler, only("TRACE"))
    }

    /// Adds a route that accepts the listed methods only. Fails if the
    /// template does not compile, if the list is empty or if the template is
    /// registered already; the router is then unchanged.
    pub fn add_with_methods(&mut self, route: &str, handler: H, methods: Vec<String>) -> (result: Result<
        (),
        RouterError,
    >)
        ensures
            old(self).wf() ==> final(self).wf(),
            is_added(
                old(self)@,
                final(self)@,
                result,
                route@,
                handler,
                PolicyView::AllowOnly(texts(methods@)),
            ),
    {
        self.add(route, handler, MethodPolicy::AllowOnly(methods))
    }

    /// Whether a sub-router is mounted under this prefix.
    pub fn has_prefix(&self, prefix: &str) -> (found: bool)
        ensures
            found == has_mount(self@.mounts, prefix@),
    {
        let wanted = prefix.to_owned();
        proof {
            self.lemma_view();
        }
        let mut i: usize = 0;
        while i < self.mounts.len()
            invariant
                i <= self.mounts.len(),
                wanted@ == prefix@,
                self@.mounts.len() == self.mounts@.len(),
                forall|k: int|
                    0 <= k < self.mounts@.len() ==> (#[trigger] self@.mounts[k]).prefix
                        == self.mounts@[k].prefix@,
                forall|k: int| 0 <= k < i ==> (#[trigger] self@.mounts[k]).prefix != prefix@,
            decreases self.mounts.len() - i,
        {
            if self.mounts[i].prefix == wanted {
                assert(self@.mounts[i as int].prefix == prefix@);
                return true;
            }
            i = i + 1;
        }
        false
    }

    /// Mounts a sub-router under a prefix. Fails on the empty prefix and on a
    /// prefix that is mounted already; the router is then unchanged.
    pub fn add_router(&mut self, prefix: &str, subrouter: Router<H>) -> (result: Result<(), RouterError>)
        ensures
            old(self).wf() && subrouter.wf() ==> final(self).wf(),
            match result {
                Ok(()) => mounted(old(self)@, prefix@, subrouter@) == Ok::<RouterView<H>, RouterError>(
                    final(self)@,
                ),
                Err(e) => mounted(old(self)@, prefix@, subrouter@) == Err::<RouterView<H>, RouterError>(e)
                    && final(self)@ == old(self)@,
            },
    {
        if prefix.unicode_len() == 0 {
            return Err(RouterError::EmptyPrefix);
        }
        if self.has_prefix(prefix) {
            return Err(RouterError::DuplicateMount);
        }
        let ghost before = self@;
        proof {
            self.lemma_view();
        }
        self.mounts.push(Mount { prefix: prefix.to_owned(), router: subrouter });
        proof {
            self.lemma_view();
            assert(self@.mounts =~= before.mounts.push(MountView { prefix: prefix@, router: subrouter@ }));
        }
        Ok(())
    }

    /// The routes of this router itself.
    pub fn table(&self) -> (table: &RouteTable<H>)
        ensures
            table@ == self@.routes,
    {
        proof {
            self.lemma_view();
        }
        &self.table
    }

    /// The number of sub-routers mounted directly on this router.
    pub fn mount_count(&self) -> (n: usize)
        ensures
            n == self@.mounts.len(),
    {
        proof {
            self.lemma_view();
        }
        self.mounts.len()
    }

    /// The prefix and the sub-router at a position among the mounts.
    pub fn mount(&self, index: usize) -> (found: Option<(&String, &Router<H>)>)
        ensures
            match found {
                Some((prefix, router)) => index < self@.mounts.len() && prefix@ == self@.mounts[index as int].prefix
                    && router@ == self@.mounts[index as int].router,
                None => index >= self@.mounts.len(),
            },
    {
        proof {
            self.lemma_view();
        }
        if index < self.mounts.len() {
            Some((&self.mounts[index].prefix, &self.mounts[index].router))
        } else {
            None
        }
    }

    /// Decides what this router does with a request: the first route that
    /// accepts the path decides by its method policy; if none accepts it, the
    /// mount with the longest prefix that begins the path gets the request,
    /// with the prefix taken off.
    pub fn route<'a>(&'a self, path: &str, method: &str) -> (decision: Step<'a, H>)
        ensures
            decision@ == step(self@, path@, method@),
    {
        match self.table.recognize(path) {
            Some(m) => {
                if m.entry.policy().allows(method) {
                    Step::Handle { handler: m.entry.handler(), params: m.params }
                } else {
                    Step::MethodNotAllowed
                }
            },
            None => {
                let n = path.unicode_len();
                let ghost mounts = self@.mounts;
                proof {
                    self.lemma_view();
                }
                let mut best: Option<usize> = None;
                let mut best_len: usize = 0;
                let mut i: usize = 0;
                assert(mounts.take(0) =~= Seq::<MountView<H>>::empty());
                while i < self.mounts.len()
                    invariant
                        i <= self.mounts.len(),
                        n == path@.len(),
                        mounts == self@.mounts,
                        mounts.len() == self.mounts.len(),
                        forall|k: int|
                            0 <= k < mounts.len() ==> (#[trigger] mounts[k]).prefix == self.mounts@[k].prefix@,
                        best is Some ==> best->0 < i && best_len == mounts[best->0 as int].prefix.len(),
                        best is Some ==> best_mount(mounts.take(i as int), path@) == Some(best->0 as int),
                        best is None ==> best_mount(mounts.take(i as int), path@) is None,
                    decreases self.mounts.len() - i,
                {
                    proof {
                        let next = mounts.take(i + 1);
                        assert(next.drop_last() =~= mounts.take(i as int));
                        assert(next.last() == mounts[i as int]);
                        assert(mounts[i as int].prefix == self.mounts@[i as int].prefix@);
                    }
                    match prefix_len(path, n, &self.mounts[i].prefix) {
                        Some(len) => {
                            if best.is_none() || best_len < len {
                                best = Some(i);
                                best_len = len;
                            }
                        },
                        None => {},
                    }
                    i = i + 1;
                }
                assert(mounts.take(i as int) =~= mounts);
                match best {
                    None => Step::NotFound,
                    Some(k) => {
                        proof {
                            lemma_best_mount(mounts, path@);
                            reveal_strlit("/");
                        }
                        let rest = if best_len >= n {
                            "/".to_owned()
                        } else {
                            path.substring_char(best_len, n).to_owned()
                        };
                        assert(rest@ =~= rewritten(path@, mounts[k as int].prefix));
                        Step::Forward { mount: k, path: rest }
                    },
                }
            },
        }
    }

    /// Sends a request through the tree of routers: this router decides, and
    /// where it forwards, the sub-router decides about the rewritten path, and
    /// so on. A rewritten path that is no valid request target ends the way
    /// with `RewriteError`.
    pub fn dispatch<'a>(&'a self, path: &str, method: &str) -> (outcome: Outcome<'a, H>)
        ensures
            outcome@ == resolve(self@, path@, method@),
        decreases self,
    {
        match self.route(path, method) {
            Step::Handle { handler, params } => Outcome::Handle { handler, params, path: path.to_owned() },
            Step::MethodNotAllowed => Outcome::MethodNotAllowed,
            Step::NotFound => Outcome::NotFound,
            Step::Forward { mount, path: inner } => {
                proof {
                    self.lemma_view();
                    lemma_best_mount(self@.mounts, path@);
                }
                if is_uri(inner.as_str()) {
                    self.mounts[mount].router.dispatch(inner.as_str(), method)
                } else {
                    Outcome::RewriteError
                }
            },
        }
    }
}

} // verus!
