//! The route table: compiled patterns in registration order, each with its
//! handler and its method policy.

use crate::error::RouterError;
use crate::params::bindings;
use crate::path::{segments, split_segments, texts};
use crate::pattern::{accepts, captures, is_compiled, PatternView, RoutePattern};
use route_recognizer::Params;
use vstd::prelude::*;

verus! {

/// The methods that a route accepts.
#[derive(Clone, Debug, PartialEq, Eq)]
pub enum MethodPolicy {
    /// Every method.
    AllowAny,
    /// The listed method tokens and no other.
    AllowOnly(Vec<String>),
}

/// The mathematical value of a [`MethodPolicy`].
pub enum PolicyView {
    AllowAny,
    AllowOnly(Seq<Seq<char>>),
}

impl PolicyView {
    /// Whether a request with this method token may reach the handler.
    /// Tokens are compared as they are written, case included.
    pub open spec fn allows(self, method: Seq<char>) -> bool {
        match self {
            PolicyView::AllowAny => true,
            PolicyView::AllowOnly(tokens) => tokens.contains(method),
        }
    }

    /// A list of allowed methods is never empty.
    pub open spec fn wf(self) -> bool {
        match self {
            PolicyView::AllowAny => true,
            PolicyView::AllowOnly(tokens) => tokens.len() > 0,
        }
    }
}

impl View for MethodPolicy {
    type V = PolicyView;

    open spec fn view(&self) -> PolicyView {
        match self {
            MethodPolicy::AllowAny => PolicyView::AllowAny,
            MethodPolicy::AllowOnly(tokens) => PolicyView::AllowOnly(texts(tokens@)),
        }
    }
}

impl MethodPolicy {
    /// Whether a request with this method token may reach the handler.
    pub fn allows(&self, method: &str) -> (allowed: bool)
        ensures
            allowed == self@.allows(method@),
    {
        match self {
            MethodPolicy::AllowAny => true,
            MethodPolicy::AllowOnly(tokens) => {
                let wanted = method.to_owned();
                let mut i: usize = 0;
                while i < tokens.len()
                    invariant
                        i <= tokens.len(),
                        wanted@ == method@,
                        self@ == PolicyView::AllowOnly(texts(tokens@)),
                        forall|k: int| 0 <= k < i ==> texts(tokens@)[k] != method@,
                    decreases tokens.len() - i,
                {
                    if tokens[i] == wanted {
                        assert(texts(tokens@)[i as int] == method@);
                        return true;
                    }
                    i = i + 1;
                }
                false
            },
        }
    }

    /// Whether the policy lists at least one method, or allows all.
    pub fn is_wf(&self) -> (ok: bool)
        ensures
            ok == self@.wf(),
    {
        match self {
            MethodPolicy::AllowAny => true,
            MethodPolicy::AllowOnly(tokens) => tokens.len() > 0,
        }
    }
}

/// One registered route.
pub struct RouteEntry<H> {
    pattern: RoutePattern,
    handler: H,
    policy: MethodPolicy,
}

/// The mathematical value of a [`RouteEntry`].
pub struct EntryView<H> {
    pub pattern: PatternView,
    pub handler: H,
    pub policy: PolicyView,
}

impl<H> View for RouteEntry<H> {
    type V = EntryView<H>;

    closed spec fn view(&self) -> EntryView<H> {
        EntryView { pattern: self.pattern@, handler: self.handler, policy: self.policy@ }
    }
}

impl<H> RouteEntry<H> {
    /// The compiled pattern of the route.
    pub fn pattern(&self) -> (pattern: &RoutePattern)
        ensures
            pattern@ == self@.pattern,
    {
        &self.pattern
    }

    /// The handler that the route was registered with.
    pub fn handler(&self) -> (handler: &H)
        ensures
            *handler == self@.handler,
    {
        &self.handler
    }

    /// The methods that the route accepts.
    pub fn policy(&self) -> (policy: &MethodPolicy)
        ensures
            policy@ == self@.policy,
    {
        &self.policy
    }
}

/// The index of the first route, in registration order, whose pattern accepts
/// the path; nothing if none does.
pub open spec fn first_match<H>(table: Seq<EntryView<H>>, pieces: Seq<Seq<char>>) -> Option<int>
    decreases table.len(),
{
    if table.len() == 0 {
        None
    } else {
        match first_match(table.drop_last(), pieces) {
            Some(i) => Some(i),
            None => if accepts(table.last().pattern.segments, pieces) {
                Some(table.len() - 1)
            } else {
                None
            },
        }
    }
}

/// Whether a table holds a route with this template.
pub open spec fn has_route<H>(table: Seq<EntryView<H>>, route: Seq<char>) -> bool {
    exists|i: int| 0 <= i < table.len() && (#[trigger] table[i]).pattern.route == route
}

/// What registering an entry makes of a table: the table with the entry at
/// its end, or the reason for which the entry is refused.
pub open spec fn registered<H>(table: Seq<EntryView<H>>, entry: EntryView<H>) -> Result<
    Seq<EntryView<H>>,
    RouterError,
> {
    if !entry.policy.wf() {
        Err(RouterError::EmptyMethodSet)
    } else if has_route(table, entry.pattern.route) {
        Err(RouterError::DuplicateRoute)
    } else {
        Ok(table.push(entry))
    }
}

/// The invariant of a route table: every pattern is what its template
/// compiles to, every method list is non-empty, and no template occurs twice.
pub open spec fn table_wf<H>(table: Seq<EntryView<H>>) -> bool {
    &&& forall|i: int| 0 <= i < table.len() ==> is_compiled((#[trigger] table[i]).pattern)
    &&& forall|i: int| 0 <= i < table.len() ==> (#[trigger] table[i]).policy.wf()
    &&& forall|i: int, j: int|
        0 <= i < j < table.len() ==> (#[trigger] table[i]).pattern.route != (
        #[trigger] table[j]).pattern.route
}

/// `first_match` names a route that accepts the path and that no accepting
/// route precedes, and names none only if no route accepts the path.
pub proof fn lemma_first_match<H>(table: Seq<EntryView<H>>, pieces: Seq<Seq<char>>)
    ensures
        match first_match(table, pieces) {
            Some(i) => 0 <= i < table.len() && accepts(table[i].pattern.segments, pieces)
                && forall|j: int| 0 <= j < i ==> !accepts((#[trigger] table[j]).pattern.segments, pieces),
            None => forall|j: int|
                0 <= j < table.len() ==> !accepts((#[trigger] table[j]).pattern.segments, pieces),
        },
    decreases table.len(),
{
    if table.len() > 0 {
        lemma_first_match(table.drop_last(), pieces);
        assert(forall|j: int| 0 <= j < table.len() - 1 ==> table.drop_last()[j] == table[j]);
    }
}

/// A successful lookup: the route that was chosen and the bindings it made.
pub struct Match<'a, H> {
    /// The position of the route in registration order.
    pub index: usize,
    /// The route.
    pub entry: &'a RouteEntry<H>,
    /// The value bound to each capture name.
    pub params: Params,
}

/// Routes in registration order.
pub struct RouteTable<H> {
    entries: Vec<RouteEntry<H>>,
}

impl<H> View for RouteTable<H> {
    type V = Seq<EntryView<H>>;

    closed spec fn view(&self) -> Seq<EntryView<H>> {
        self.entries@.map_values(|e: RouteEntry<H>| e@)
    }
}

impl<H> RouteTable<H> {
    /// The invariant of the table, see [`table_wf`].
    pub open spec fn wf(&self) -> bool {
        table_wf(self@)
    }

    /// A table without routes.
    pub fn new() -> (table: Self)
        ensures
            table@ == Seq::<EntryView<H>>::empty(),
            table.wf(),
    {
        let table = RouteTable { entries: Vec::new() };
        assert(table@ =~= Seq::<EntryView<H>>::empty());
        table
    }

    /// The number of routes.
    pub fn len(&self) -> (n: usize)
        ensures
            n == self@.len(),
    {
        self.entries.len()
    }

    /// The route at a position in registration order.
    pub fn entry(&self, index: usize) -> (entry: Option<&RouteEntry<H>>)
        ensures
            match entry {
                Some(e) => index < self@.len() && e@ == self@[index as int],
                None => index >= self@.len(),
            },
    {
        if index < self.entries.len() {
            Some(&self.entries[index])
        } else {
            None
        }
    }

    /// Whether the table holds a route with this template.
    pub fn contains_route(&self, route: &String) -> (found: bool)
        ensures
            found == has_route(self@, route@),
    {
        let mut i: usize = 0;
        while i < self.entries.len()
            invariant
                i <= self.entries.len(),
                forall|k: int| 0 <= k < i ==> (#[trigger] self@[k]).pattern.route != route@,
            decreases self.entries.len() - i,
        {
            if *self.entries[i].pattern.route() == *route {
                assert(self@[i as int].pattern.route == route@);
                return true;
            }
            i = i + 1;
        }
        false
    }

    /// Appends a route. Refuses an empty method list, and a template that the
    /// table already holds; the table is then unchanged.
    pub fn register(&mut self, pattern: RoutePattern, handler: H, policy: MethodPolicy) -> (result:
        Result<(), RouterError>)
        ensures
            old(self).wf() && pattern.wf() ==> final(self).wf(),
            match result {
                Ok(()) => registered(
                    old(self)@,
                    (EntryView { pattern: pattern@, handler, policy: policy@ }),
                ) == Ok::<Seq<EntryView<H>>, RouterError>(final(self)@),
                Err(e) => registered(
                    old(self)@,
                    (EntryView { pattern: pattern@, handler, policy: policy@ }),
                ) == Err::<Seq<EntryView<H>>, RouterError>(e) && final(self)@ == old(self)@,
            },
    {
        if !policy.is_wf() {
            return Err(RouterError::EmptyMethodSet);
        }
        if self.contains_route(pattern.route()) {
            return Err(RouterError::DuplicateRoute);
        }
        let ghost before = self@;
        let entry = RouteEntry { pattern, handler, policy };
        self.entries.push(entry);
        assert(self@ =~= before.push(entry@));
        Ok(())
    }

    /// Looks a path up: the first route in registration order whose pattern
    /// accepts the path, with the bindings that the pattern makes on it.
    pub fn recognize<'a>(&'a self, path: &str) -> (found: Option<Match<'a, H>>)
        ensures
            match found {
                Some(m) => first_match(self@, segments(path@)) == Some(m.index as int)
                    && m.index < self@.len() && m.entry@ == self@[m.index as int] && bindings(
                    m.params,
                ) == captures(self@[m.index as int].pattern.segments, segments(path@)),
                None => first_match(self@, segments(path@)) is None,
            },
    {
        let pieces = split_segments(path);
        proof {
            lemma_first_match(self@, segments(path@));
        }
        let mut i: usize = 0;
        while i < self.entries.len()
            invariant
                i <= self.entries.len(),
                texts(pieces@) == segments(path@),
                forall|k: int|
                    0 <= k < i ==> !accepts((#[trigger] self@[k]).pattern.segments, segments(path@)),
            decreases self.entries.len() - i,
        {
            match self.entries[i].pattern.match_segments(&pieces) {
                Some(params) => {
                    proof {
                        lemma_first_match(self@, segments(path@));
                        assert(accepts(self@[i as int].pattern.segments, segments(path@)));
                    }
                    return Some(Match { index: i, entry: &self.entries[i], params });
                },
                None => {},
            }
            i = i + 1;
        }
        proof {
            lemma_first_match(self@, segments(path@));
        }
        None
    }
}

} // verus!
