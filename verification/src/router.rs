//! Route registration and request dispatch.
//!
//! Handlers and middleware are closures that live with the server; this
//! module refers to them by index. A [`RouteTable`] holds one `path_tree`
//! tree per routed method (and one for all other methods); a [`Router`] is
//! a view onto a table with a base path and a middleware list, and
//! registers routes into it. [`RouteTable::dispatch`] picks what runs for a
//! request and [`Next`] walks the middleware chain towards the handler.

use vstd::prelude::*;

use crate::response::{headers_view, Response, HandlerResponse, ResponseBody, ResponseError};
use crate::route_tree::{tree_find, RouteTree};
use crate::text::{concat_str, is_single_char};

verus! {

/// What `PathTree::find` answers for `path` in the tree built by inserting
/// `routes` in order: the matched value and the `(name, raw value)` pairs of
/// the pattern's parameters.
pub uninterp spec fn tree_match(routes: Seq<(Seq<char>, usize)>, path: Seq<char>) -> Option<
    (usize, Seq<(Seq<char>, Seq<char>)>),
>;

/// The result of `percent_decode_str(s).decode_utf8_lossy()`.
pub uninterp spec fn percent_decoded(s: Seq<char>) -> Seq<char>;

/// `(name, value)` pairs as pairs of character sequences.
pub open spec fn pairs_view(ps: Seq<(String, String)>) -> Seq<(Seq<char>, Seq<char>)> {
    ps.map_values(|p: (String, String)| (p.0@, p.1@))
}

/// A pattern with no parameter or wildcard: none of `:`, `+`, `*` or the
/// escape `\` appears in it.
pub open spec fn is_static_pattern(p: Seq<char>) -> bool {
    forall|i: int| 0 <= i < p.len() ==> {
        let c = #[trigger] p[i];
        c != ':' && c != '+' && c != '*' && c != '\\'
    }
}

/// Every pattern starts with `/`.
pub open spec fn rooted(routes: Seq<(Seq<char>, usize)>) -> bool {
    forall|i: int| 0 <= i < routes.len() ==> #[trigger] routes[i].0.len() > 0 && routes[i].0[0] == '/'
}

/// No pattern holds the escape character `\`.
pub open spec fn unescaped(routes: Seq<(Seq<char>, usize)>) -> bool {
    forall|i: int, j: int| 0 <= i < routes.len() && 0 <= j < routes[i].0.len() ==> #[trigger] routes[i].0[j] != '\\'
}

/// The value of the last insertion of `pattern`, if it was inserted.
pub open spec fn last_value_for(routes: Seq<(Seq<char>, usize)>, pattern: Seq<char>) -> Option<usize>
    decreases routes.len(),
{
    if routes.len() == 0 {
        None
    } else if routes.last().0 == pattern {
        Some(routes.last().1)
    } else {
        last_value_for(routes.drop_last(), pattern)
    }
}

/// `percent_decode_str(s).decode_utf8_lossy()`: decodes `%XX` sequences,
/// replacing invalid UTF-8 with U+FFFD. Text without `%` comes back as is.
#[verifier::external_body]
fn percent_decode(s: &str) -> (r: String)
    ensures
        r@ == percent_decoded(s@),
        !s@.contains('%') ==> r@ == s@,
{
    percent_encoding::percent_decode_str(s).decode_utf8_lossy().to_string()
}

/// Request methods, with the ones the router tells apart named.
#[derive(Debug)]
pub enum Method {
    Options,
    Get,
    Post,
    Put,
    Delete,
    Head,
    Trace,
    Connect,
    Patch,
    Other(String),
}

/// The route trees of a table.
#[derive(Clone, Copy, Debug, PartialEq, Eq, Structural)]
pub enum RouteKind {
    Any,
    Get,
    Post,
    Put,
    Patch,
    Delete,
}

/// Which tree serves a request method: the five routed methods have their
/// own, every other method is looked up among the `any` routes.
pub open spec fn kind_for(m: Method) -> RouteKind {
    match m {
        Method::Get => RouteKind::Get,
        Method::Post => RouteKind::Post,
        Method::Put => RouteKind::Put,
        Method::Patch => RouteKind::Patch,
        Method::Delete => RouteKind::Delete,
        _ => RouteKind::Any,
    }
}

/// What a route runs: the middleware in force when it was registered, then
/// its handler.
#[derive(Debug)]
pub struct RouteEntry {
    pub middleware: Vec<usize>,
    pub handler: usize,
}

/// What [`RouteTable::dispatch`] chose to run after the middleware.
#[derive(Clone, Copy, Debug, PartialEq, Eq, Structural)]
pub enum Target {
    /// The handler with this index.
    Handler(usize),
    /// No route matched: answer `404 Not Found` with an empty body.
    NotFound,
}

/// The outcome of dispatching one request.
#[derive(Debug)]
pub struct Dispatch {
    pub middleware: Vec<usize>,
    pub target: Target,
    /// Route parameters, percent-decoded, in the order the pattern names them.
    pub params: Vec<(String, String)>,
}

/// The trees and entries of a table, as they are being changed.
struct Tables {
    any_routes: RouteTree,
    get_routes: RouteTree,
    post_routes: RouteTree,
    put_routes: RouteTree,
    patch_routes: RouteTree,
    delete_routes: RouteTree,
    entries: Vec<RouteEntry>,
}

/// The route trees shared by a router and every router derived from it.
/// Every value stored in a tree names one of its entries.
pub struct RouteTable {
    tables: Tables,
}

/// A route entry as its middleware indices and its handler index.
pub open spec fn entry_view(e: RouteEntry) -> (Seq<usize>, usize) {
    (e.middleware@, e.handler)
}

impl Tables {
    /// The `(pattern, entry index)` pairs registered in one tree, in order.
    spec fn routes(&self, kind: RouteKind) -> Seq<(Seq<char>, usize)> {
        match kind {
            RouteKind::Any => self.any_routes.routes(),
            RouteKind::Get => self.get_routes.routes(),
            RouteKind::Post => self.post_routes.routes(),
            RouteKind::Put => self.put_routes.routes(),
            RouteKind::Patch => self.patch_routes.routes(),
            RouteKind::Delete => self.delete_routes.routes(),
        }
    }

    /// The route entries, indexed by the values stored in the trees.
    spec fn entries(&self) -> Seq<(Seq<usize>, usize)> {
        self.entries@.map_values(|e: RouteEntry| entry_view(e))
    }

    /// Every value stored in a tree names an entry.
    spec fn wf(&self) -> bool {
        forall|k: RouteKind, i: int|
            #![trigger self.routes(k)[i]]
            0 <= i < self.routes(k).len() ==> self.routes(k)[i].1 < self.entries().len()
    }

    /// No routes and no entries.
    fn new() -> (t: Tables)
        ensures
            t.wf(),
            forall|k: RouteKind| #[trigger] t.routes(k) == Seq::<(Seq<char>, usize)>::empty(),
            t.entries() == Seq::<(Seq<usize>, usize)>::empty(),
    {
        let t = Tables {
            any_routes: RouteTree::new(),
            get_routes: RouteTree::new(),
            post_routes: RouteTree::new(),
            put_routes: RouteTree::new(),
            patch_routes: RouteTree::new(),
            delete_routes: RouteTree::new(),
            entries: Vec::new(),
        };
        assert(t.entries() =~= Seq::empty());
        t
    }

    /// Appends an entry and gives its index.
    fn push_entry(&mut self, middleware: Vec<usize>, handler: usize) -> (idx: usize)
        ensures
            idx == old(self).entries().len(),
            final(self).entries() == old(self).entries().push((middleware@, handler)),
            forall|k: RouteKind| #[trigger] final(self).routes(k) == old(self).routes(k),
    {
        let idx = self.entries.len();
        let ghost before = self.entries@;
        self.entries.push(RouteEntry { middleware, handler });
        assert(self.entries() =~= old(self).entries().push((middleware@, handler)));
        idx
    }

    /// Registers `pattern` for the entry `idx` in the tree of `kind`.
    fn insert_route(&mut self, kind: RouteKind, pattern: &str, idx: usize)
        ensures
            final(self).entries() == old(self).entries(),
            forall|k: RouteKind| #[trigger] final(self).routes(k) == if k == kind {
                old(self).routes(k).push((pattern@, idx))
            } else {
                old(self).routes(k)
            },
    {
        match kind {
            RouteKind::Any => self.any_routes.insert(pattern, idx),
            RouteKind::Get => self.get_routes.insert(pattern, idx),
            RouteKind::Post => self.post_routes.insert(pattern, idx),
            RouteKind::Put => self.put_routes.insert(pattern, idx),
            RouteKind::Patch => self.patch_routes.insert(pattern, idx),
            RouteKind::Delete => self.delete_routes.insert(pattern, idx),
        }
    }
}

impl RouteTable {
    /// The `(pattern, entry index)` pairs registered in one tree, in order.
    pub closed spec fn routes(&self, kind: RouteKind) -> Seq<(Seq<char>, usize)> {
        self.tables.routes(kind)
    }

    /// The route entries, indexed by the values stored in the trees.
    pub closed spec fn entries(&self) -> Seq<(Seq<usize>, usize)> {
        self.tables.entries()
    }

    /// Every value stored in a tree names an entry.
    #[verifier::type_invariant]
    pub closed spec fn wf(&self) -> bool {
        self.tables.wf()
    }

    /// A table with no routes.
    pub fn new() -> (t: RouteTable)
        ensures
            forall|k: RouteKind| #[trigger] t.routes(k) == Seq::<(Seq<char>, usize)>::empty(),
            t.entries() == Seq::<(Seq<usize>, usize)>::empty(),
    {
        RouteTable { tables: Tables::new() }
    }

    /// Adds the entry of `middleware` and `handler` and registers it under
    /// `pattern` in the tree of `kind`, or in every tree when `every` holds.
    fn add_route(&mut self, every: bool, kind: RouteKind, pattern: &str, middleware: Vec<usize>, handler: usize)
        ensures
            old(self).registered(
                final(self),
                if every {
                    set![RouteKind::Get, RouteKind::Post, RouteKind::Put, RouteKind::Patch, RouteKind::Delete, RouteKind::Any]
                } else {
                    set![kind]
                },
                pattern@,
                middleware@,
                handler,
            ),
    {
        proof {
            use_type_invariant(&*self);
        }
        let mut t = Tables::new();
        std::mem::swap(&mut t, &mut self.tables);
        let ghost before = t;
        let idx = t.push_entry(middleware, handler);
        if every {
            t.insert_route(RouteKind::Get, pattern, idx);
            t.insert_route(RouteKind::Post, pattern, idx);
            t.insert_route(RouteKind::Put, pattern, idx);
            t.insert_route(RouteKind::Patch, pattern, idx);
            t.insert_route(RouteKind::Delete, pattern, idx);
            t.insert_route(RouteKind::Any, pattern, idx);
        } else {
            t.insert_route(kind, pattern, idx);
        }
        let ghost kinds = if every {
            set![RouteKind::Get, RouteKind::Post, RouteKind::Put, RouteKind::Patch, RouteKind::Delete, RouteKind::Any]
        } else {
            set![kind]
        };
        assert forall|k: RouteKind| #[trigger] t.routes(k) == if kinds.contains(k) {
            before.routes(k).push((pattern@, before.entries().len() as usize))
        } else {
            before.routes(k)
        } by {
            if every {
                assert(kinds.contains(k));
            }
        }
        assert forall|k: RouteKind, i: int| 0 <= i < t.routes(k).len() implies #[trigger] t.routes(k)[i].1 < t.entries().len() by {
            if i < before.routes(k).len() {
                assert(t.routes(k)[i] == before.routes(k)[i]);
            }
        }
        self.tables = t;
    }
}

/// The parameters of a match with their values percent-decoded.
pub open spec fn decoded_params(ps: Seq<(Seq<char>, Seq<char>)>) -> Seq<(Seq<char>, Seq<char>)> {
    ps.map_values(|p: (Seq<char>, Seq<char>)| (p.0, percent_decoded(p.1)))
}

impl RouteTable {
    /// The table after one more entry, registered under `pattern` in each
    /// tree of `kinds`.
    pub open spec fn registered(
        &self,
        next: &RouteTable,
        kinds: Set<RouteKind>,
        pattern: Seq<char>,
        middleware: Seq<usize>,
        handler: usize,
    ) -> bool {
        &&& next.entries() == self.entries().push((middleware, handler))
        &&& forall|k: RouteKind| #[trigger] next.routes(k) == if kinds.contains(k) {
            self.routes(k).push((pattern, self.entries().len() as usize))
        } else {
            self.routes(k)
        }
    }

    /// Chooses what runs for a request: the tree for its method is searched
    /// for `path`; on a match, the route's middleware and handler run with
    /// the pattern's parameters, percent-decoded; otherwise `middleware`
    /// (the router's own) runs in front of a `404 Not Found`.
    pub fn dispatch(&self, middleware: &Vec<usize>, method: &Method, path: &str) -> (d: Dispatch)
        ensures
            match tree_match(self.routes(kind_for(*method)), path@) {
                None => {
                    &&& d.target == Target::NotFound
                    &&& d.middleware@ == middleware@
                    &&& d.params@.len() == 0
                },
                Some((i, ps)) => {
                    &&& i < self.entries().len()
                    &&& d.target == Target::Handler(self.entries()[i as int].1)
                    &&& d.middleware@ == self.entries()[i as int].0
                    &&& pairs_view(d.params@) == decoded_params(ps)
                },
            },
            // Only a route registered in the method's tree is ever reached; a
            // method whose tree is empty always gets `404 Not Found`.
            d.target matches Target::Handler(h) ==> exists|j: int|
                0 <= j < self.routes(kind_for(*method)).len()
                && #[trigger] self.routes(kind_for(*method))[j].1 < self.entries().len()
                && self.entries()[self.routes(kind_for(*method))[j].1 as int].1 == h,
            self.routes(kind_for(*method)).len() == 0 ==> d.target == Target::NotFound && d.middleware@ == middleware@
                && d.params@.len() == 0,
            // A path registered as a static route reaches the entry of its
            // last registration, with no parameters.
            is_static_pattern(path@) && rooted(self.routes(kind_for(*method))) && unescaped(self.routes(kind_for(*method)))
                ==> match last_value_for(self.routes(kind_for(*method)), path@) {
                None => true,
                Some(i) => {
                    &&& i < self.entries().len()
                    &&& d.target == Target::Handler(self.entries()[i as int].1)
                    &&& d.middleware@ == self.entries()[i as int].0
                    &&& d.params@.len() == 0
                },
            },
    {
        proof {
            use_type_invariant(self);
        }
        let tree = match method {
            Method::Get => &self.tables.get_routes,
            Method::Post => &self.tables.post_routes,
            Method::Put => &self.tables.put_routes,
            Method::Patch => &self.tables.patch_routes,
            Method::Delete => &self.tables.delete_routes,
            _ => &self.tables.any_routes,
        };
        assert(tree.routes() == self.routes(kind_for(*method)));
        match tree_find(tree, path) {
            None => Dispatch { middleware: middleware.clone(), target: Target::NotFound, params: Vec::new() },
            Some((idx, raw)) => {
                let ghost j: int;
                proof {
                    let k = kind_for(*method);
                    j = choose|j: int| 0 <= j < self.routes(k).len() && #[trigger] self.routes(k)[j].1 == idx;
                    assert(self.routes(k)[j].1 < self.entries().len());
                }
                let entry = &self.tables.entries[idx];
                assert(entry_view(*entry) == self.entries()[idx as int]);
                let mut params: Vec<(String, String)> = Vec::new();
                let mut i: usize = 0;
                while i < raw.len()
                    invariant
                        i <= raw@.len(),
                        pairs_view(params@) == decoded_params(pairs_view(raw@)).take(i as int),
                    decreases raw@.len() - i,
                {
                    let name = raw[i].0.clone();
                    let value = percent_decode(raw[i].1.as_str());
                    let ghost before = params@;
                    params.push((name, value));
                    assert(pairs_view(params@) =~= pairs_view(before).push((raw@[i as int].0@, percent_decoded(raw@[i as int].1@))));
                    assert(decoded_params(pairs_view(raw@)).take(i + 1) =~= decoded_params(pairs_view(raw@)).take(i as int).push(
                        decoded_params(pairs_view(raw@))[i as int]));
                    i += 1;
                }
                assert(decoded_params(pairs_view(raw@)).take(raw@.len() as int) =~= decoded_params(pairs_view(raw@)));
                assert(self.routes(kind_for(*method))[j].1 < self.entries().len());
                Dispatch { middleware: entry.middleware.clone(), target: Target::Handler(entry.handler), params }
            },
        }
    }

    /// A copy of the table; routes registered afterwards do not reach it.
    pub fn snapshot(&self) -> (r: RouteTable)
        ensures
            forall|k: RouteKind| #[trigger] r.routes(k) == self.routes(k),
            r.entries() == self.entries(),
    {
        proof {
            use_type_invariant(self);
        }
        let mut entries: Vec<RouteEntry> = Vec::new();
        let mut i: usize = 0;
        while i < self.tables.entries.len()
            invariant
                i <= self.tables.entries@.len(),
                entries@.map_values(|e: RouteEntry| entry_view(e)) == self.entries().take(i as int),
            decreases self.tables.entries@.len() - i,
        {
            let e = &self.tables.entries[i];
            let ghost before = entries@;
            entries.push(RouteEntry { middleware: e.middleware.clone(), handler: e.handler });
            assert(entries@.map_values(|e: RouteEntry| entry_view(e)) =~= before.map_values(|e: RouteEntry| entry_view(e)).push(entry_view(*e)));
            assert(self.entries().take(i + 1) =~= self.entries().take(i as int).push(self.entries()[i as int]));
            i += 1;
        }
        assert(self.entries().take(self.tables.entries@.len() as int) =~= self.entries());
        let t = Tables {
            any_routes: self.tables.any_routes.duplicate(),
            get_routes: self.tables.get_routes.duplicate(),
            post_routes: self.tables.post_routes.duplicate(),
            put_routes: self.tables.put_routes.duplicate(),
            patch_routes: self.tables.patch_routes.duplicate(),
            delete_routes: self.tables.delete_routes.duplicate(),
            entries,
        };
        assert forall|k: RouteKind| #[trigger] t.routes(k) == self.routes(k) by {}
        RouteTable { tables: t }
    }
}

/// The pattern a route is registered under: the router's base path followed
/// by the route, except that the route `/` under a non-empty base path is
/// the base path itself.
pub open spec fn route_path(base: Seq<char>, target: Seq<char>) -> Seq<char> {
    if base.len() > 0 && target == seq!['/'] {
        base
    } else {
        base + target
    }
}

/// A router: a base path and the middleware that routes registered through
/// it will run, over a [`RouteTable`] that routers derived from one another
/// share.
#[derive(Debug)]
pub struct Router {
    base_path: String,
    middleware: Vec<usize>,
}

impl Router {
    pub closed spec fn base_path(&self) -> Seq<char> {
        self.base_path@
    }

    pub closed spec fn middleware(&self) -> Seq<usize> {
        self.middleware@
    }

    /// The middleware of this router, by index.
    pub fn middleware_ids(&self) -> (r: &Vec<usize>)
        ensures
            r@ == self.middleware(),
    {
        &self.middleware
    }

    /// A router with an empty base path and no middleware.
    pub fn new() -> (r: Router)
        ensures
            r.base_path() == Seq::<char>::empty(),
            r.middleware() == Seq::<usize>::empty(),
    {
        Router { base_path: String::new(), middleware: Vec::new() }
    }

    /// The same as [`Router::new`]; the request context lives with the server.
    pub fn new_without_context() -> (r: Router)
        ensures
            r.base_path() == Seq::<char>::empty(),
            r.middleware() == Seq::<usize>::empty(),
    {
        Self::new()
    }

    /// A router for the same table with `source`'s middleware and the base
    /// path `base_path` (which replaces, not extends, the source's).
    pub fn extend(source: &Router, base_path: &str) -> (r: Router)
        ensures
            r.base_path() == base_path@,
            r.middleware() == source.middleware(),
    {
        Router { base_path: String::from_str(base_path), middleware: source.middleware.clone() }
    }

    /// Adds the middleware `middleware`, after this router's own: routes
    /// registered through this router from now on run it. Also hands back a
    /// router for the same table and base path with the same middleware.
    pub fn with(&mut self, middleware: usize) -> (r: Router)
        ensures
            final(self).base_path() == old(self).base_path(),
            final(self).middleware() == old(self).middleware().push(middleware),
            r.base_path() == old(self).base_path(),
            r.middleware() == old(self).middleware().push(middleware),
    {
        self.middleware.push(middleware);
        Router { base_path: self.base_path.clone(), middleware: self.middleware.clone() }
    }

    /// The pattern under which `target` is registered.
    pub fn route(&self, target: &str) -> (r: String)
        ensures
            r@ == route_path(self.base_path(), target@),
    {
        if !self.base_path.as_str().is_empty() && is_single_char(target, '/') {
            self.base_path.clone()
        } else {
            concat_str(self.base_path.as_str(), target)
        }
    }

    fn register(&self, table: &mut RouteTable, kind: RouteKind, route: &str, handler: usize)
        ensures
            old(table).registered(final(table), set![kind], route_path(self.base_path(), route@), self.middleware(), handler),
    {
        let pattern = self.route(route);
        table.add_route(false, kind, pattern.as_str(), self.middleware.clone(), handler);
    }

    /// Registers `handler` for `GET` requests whose path matches `route`.
    pub fn get(&self, table: &mut RouteTable, route: &str, handler: usize)
        ensures
            old(table).registered(final(table), set![RouteKind::Get], route_path(self.base_path(), route@), self.middleware(), handler),
    {
        self.register(table, RouteKind::Get, route, handler)
    }

    /// Registers `handler` for `POST` requests whose path matches `route`.
    pub fn post(&self, table: &mut RouteTable, route: &str, handler: usize)
        ensures
            old(table).registered(final(table), set![RouteKind::Post], route_path(self.base_path(), route@), self.middleware(), handler),
    {
        self.register(table, RouteKind::Post, route, handler)
    }

    /// Registers `handler` for `PUT` requests whose path matches `route`.
    pub fn put(&self, table: &mut RouteTable, route: &str, handler: usize)
        ensures
            old(table).registered(final(table), set![RouteKind::Put], route_path(self.base_path(), route@), self.middleware(), handler),
    {
        self.register(table, RouteKind::Put, route, handler)
    }

    /// Registers `handler` for `PATCH` requests whose path matches `route`.
    pub fn patch(&self, table: &mut RouteTable, route: &str, handler: usize)
        ensures
            old(table).registered(final(table), set![RouteKind::Patch], route_path(self.base_path(), route@), self.middleware(), handler),
    {
        self.register(table, RouteKind::Patch, route, handler)
    }

    /// Registers `handler` for `DELETE` requests whose path matches `route`.
    pub fn delete(&self, table: &mut RouteTable, route: &str, handler: usize)
        ensures
            old(table).registered(final(table), set![RouteKind::Delete], route_path(self.base_path(), route@), self.middleware(), handler),
    {
        self.register(table, RouteKind::Delete, route, handler)
    }

    /// Registers `handler` for every method: in the five routed trees and in
    /// the tree consulted for all other methods, as one shared entry.
    pub fn any(&self, table: &mut RouteTable, route: &str, handler: usize)
        ensures
            old(table).registered(
                final(table),
                set![RouteKind::Get, RouteKind::Post, RouteKind::Put, RouteKind::Patch, RouteKind::Delete, RouteKind::Any],
                route_path(self.base_path(), route@),
                self.middleware(),
                handler,
            ),
    {
        let pattern = self.route(route);
        table.add_route(true, RouteKind::Any, pattern.as_str(), self.middleware.clone(), handler);
    }
}

/// The next thing a middleware chain runs.
#[derive(Clone, Copy, Debug, PartialEq, Eq, Structural)]
pub enum Step {
    /// The middleware with this index, handing it the rest of the chain.
    Middleware(usize),
    /// The end of the chain.
    Run(Target),
}

/// The rest of a middleware chain and what runs after it.
#[derive(Debug)]
pub struct Next {
    rest: Vec<usize>,
    target: Target,
}

/// One step of a chain with middleware `rest` before `target`: the step
/// taken and the middleware left after it.
pub open spec fn chain_step(rest: Seq<usize>, target: Target) -> (Step, Seq<usize>) {
    if rest.len() > 0 {
        (Step::Middleware(rest[0]), rest.drop_first())
    } else {
        (Step::Run(target), rest)
    }
}

/// The step a chain takes after `k` earlier steps.
pub open spec fn nth_step(rest: Seq<usize>, target: Target, k: nat) -> Step
    decreases k,
{
    if k == 0 {
        chain_step(rest, target).0
    } else {
        nth_step(chain_step(rest, target).1, target, (k - 1) as nat)
    }
}

impl Next {
    pub closed spec fn rest(&self) -> Seq<usize> {
        self.rest@
    }

    pub closed spec fn target(&self) -> Target {
        self.target
    }

    /// A chain that runs `middleware` in order, then `target`.
    pub fn new(middleware: Vec<usize>, target: Target) -> (n: Next)
        ensures
            n.rest() == middleware@,
            n.target() == target,
    {
        Next { rest: middleware, target }
    }

    /// The chain a dispatch decided on.
    pub fn from_dispatch(d: &Dispatch) -> (n: Next)
        ensures
            n.rest() == d.middleware@,
            n.target() == d.target,
    {
        Next { rest: d.middleware.clone(), target: d.target }
    }

    /// Takes one step: the first middleware left, or else the target.
    pub fn run(self) -> (r: (Step, Next))
        ensures
            (r.0, r.1.rest()) == chain_step(self.rest(), self.target()),
            r.1.target() == self.target(),
    {
        let mut rest = self.rest;
        if rest.len() > 0 {
            let first = rest.remove(0);
            assert(rest@ =~= self.rest@.drop_first());
            (Step::Middleware(first), Next { rest, target: self.target })
        } else {
            (Step::Run(self.target), Next { rest, target: self.target })
        }
    }
}

/// A middleware chain runs its middleware in order, each once, and then its
/// target; a chain that has reached its target stays there.
pub proof fn law_chain_order(rest: Seq<usize>, target: Target, k: nat)
    ensures
        k < rest.len() ==> nth_step(rest, target, k) == Step::Middleware(rest[k as int]),
        k >= rest.len() ==> nth_step(rest, target, k) == Step::Run(target),
    decreases k,
{
    if k > 0 {
        if rest.len() > 0 {
            law_chain_order(rest.drop_first(), target, (k - 1) as nat);
        } else {
            law_chain_order(rest, target, (k - 1) as nat);
        }
    }
}

/// The response for a request no route matched: `404 Not Found`, empty body.
pub fn not_found(res: Response) -> (r: Result<HandlerResponse, ResponseError>)
    ensures
        match res@ {
            Err(e) => r == Err::<HandlerResponse, ResponseError>(e),
            Ok(s) => {
                &&& r matches Ok(hr)
                &&& r->Ok_0.status == 404
                &&& r->Ok_0.version == s.version
                &&& headers_view(r->Ok_0.headers@) == s.headers
                &&& r->Ok_0.body matches ResponseBody::Bytes(b)
                &&& r->Ok_0.body->Bytes_0@.len() == 0
            },
        },
{
    res.status(404).body(ResponseBody::Bytes(Vec::new()))
}

/// A route registered with `any` is consulted for every request method:
/// whatever the method, the tree dispatch searches for it has the route
/// appended, pointing at the new entry.
pub proof fn law_any_serves_every_method(
    before: RouteTable,
    after: RouteTable,
    pattern: Seq<char>,
    middleware: Seq<usize>,
    handler: usize,
    method: Method,
)
    requires
        before.registered(
            &after,
            set![RouteKind::Get, RouteKind::Post, RouteKind::Put, RouteKind::Patch, RouteKind::Delete, RouteKind::Any],
            pattern,
            middleware,
            handler,
        ),
    ensures
        after.routes(kind_for(method)) == before.routes(kind_for(method)).push((pattern, before.entries().len() as usize)),
        after.entries()[before.entries().len() as int] == (middleware, handler),
{
    let k = kind_for(method);
    assert(set![RouteKind::Get, RouteKind::Post, RouteKind::Put, RouteKind::Patch, RouteKind::Delete, RouteKind::Any].contains(k));
}

/// A route registered for one method is consulted for that method only:
/// the trees of the other methods are left as they were.
pub proof fn law_method_routes_are_separate(
    before: RouteTable,
    after: RouteTable,
    kind: RouteKind,
    pattern: Seq<char>,
    middleware: Seq<usize>,
    handler: usize,
    method: Method,
)
    requires
        before.registered(&after, set![kind], pattern, middleware, handler),
        kind_for(method) != kind,
    ensures
        after.routes(kind_for(method)) == before.routes(kind_for(method)),
{
}

/// A snapshot of a table answers every request as the table did when the
/// snapshot was taken, whatever is registered in the table afterwards: its
/// trees and entries are those of the table then, and none of its routes
/// points at an entry added later, so a handler registered later is never
/// reached through it.
pub proof fn law_snapshot_is_frozen(
    table: RouteTable,
    frozen: RouteTable,
    later: RouteTable,
    kinds: Set<RouteKind>,
    pattern: Seq<char>,
    middleware: Seq<usize>,
    handler: usize,
    method: Method,
    path: Seq<char>,
)
    requires
        forall|k: RouteKind| #[trigger] frozen.routes(k) == table.routes(k),
        frozen.entries() == table.entries(),
        frozen.wf(),
        table.registered(&later, kinds, pattern, middleware, handler),
    ensures
        tree_match(frozen.routes(kind_for(method)), path) == tree_match(table.routes(kind_for(method)), path),
        frozen.entries() == later.entries().drop_last(),
        forall|i: int| 0 <= i < frozen.routes(kind_for(method)).len()
            ==> #[trigger] frozen.routes(kind_for(method))[i].1 != later.entries().len() - 1,
{
    assert(later.entries().drop_last() =~= table.entries());
    assert forall|i: int| 0 <= i < frozen.routes(kind_for(method)).len()
        implies #[trigger] frozen.routes(kind_for(method))[i].1 != later.entries().len() - 1 by {
        assert(frozen.tables.wf());
        assert(frozen.routes(kind_for(method))[i] == frozen.tables.routes(kind_for(method))[i]);
    }
}

/// A request is looked up among the routes registered for its method: a
/// route registered with `get`, `post`, `put`, `patch` or `delete` is, in
/// the tree searched for requests of that method, the last registration of
/// its pattern, pointing at the new entry with the registering router's
/// middleware and the handler. With [`RouteTable::dispatch`],
/// a request of that method for a static pattern thus reaches the handler.
pub proof fn law_method_reaches_its_routes(
    before: RouteTable,
    after: RouteTable,
    kind: RouteKind,
    pattern: Seq<char>,
    middleware: Seq<usize>,
    handler: usize,
    method: Method,
)
    requires
        before.registered(&after, set![kind], pattern, middleware, handler),
        (method is Get && kind == RouteKind::Get) || (method is Post && kind == RouteKind::Post)
            || (method is Put && kind == RouteKind::Put) || (method is Patch && kind == RouteKind::Patch)
            || (method is Delete && kind == RouteKind::Delete),
    ensures
        last_value_for(after.routes(kind_for(method)), pattern) == Some(before.entries().len() as usize),
        after.entries()[before.entries().len() as int] == (middleware, handler),
{
    assert(after.routes(kind).drop_last() =~= before.routes(kind));
}

/// Requests of a method other than `GET`, `POST`, `PUT`, `PATCH` and
/// `DELETE` are looked up among the routes registered with `any` only.
pub proof fn law_other_methods_use_any_routes(method: Method)
    requires
        !(method is Get || method is Post || method is Put || method is Patch || method is Delete),
    ensures
        kind_for(method) == RouteKind::Any,
{
}

/// A route is found where it was registered: after registering `pattern`
/// in a tree, the last insertion of `pattern` there points at the new
/// entry, which holds the registering router's middleware and the handler.
/// With [`RouteTable::dispatch`], a request for a static pattern thus
/// reaches the handler registered last for it.
pub proof fn law_registration_is_found(
    before: RouteTable,
    after: RouteTable,
    kinds: Set<RouteKind>,
    kind: RouteKind,
    pattern: Seq<char>,
    middleware: Seq<usize>,
    handler: usize,
)
    requires
        before.registered(&after, kinds, pattern, middleware, handler),
        kinds.contains(kind),
    ensures
        last_value_for(after.routes(kind), pattern) == Some(before.entries().len() as usize),
        after.entries()[before.entries().len() as int] == (middleware, handler),
{
    assert(after.routes(kind).drop_last() =~= before.routes(kind));
}

} // verus!
