//! A `path_tree` route tree kept together with the record of what was
//! inserted into it.
//!
//! `PathTree::insert` overwrites the value of a node that a pattern of the
//! same shape reached before, so the tree itself does not keep its history;
//! what `PathTree::find` answers is, however, a function of the sequence of
//! insertions that built the tree. A [`RouteTree`] keeps that sequence as
//! ghost state next to the tree. Its fields are private to this module and
//! every function here that changes the tree records the change, so the
//! record is always the tree's own insertion history.

use vstd::prelude::*;

use crate::router::{is_static_pattern, last_value_for, pairs_view, rooted, tree_match, unescaped};

verus! {

/// A route tree of `path_tree`, whose values here are indices of route entries.
#[verifier::external_type_specification]
#[verifier::external_body]
#[verifier::reject_recursive_types(T)]
pub struct ExPathTree<T>(path_tree::PathTree<T>);

/// A route tree and the `(pattern, value)` pairs inserted into it, in order.
pub struct RouteTree {
    tree: path_tree::PathTree<usize>,
    inserted: Ghost<Seq<(Seq<char>, usize)>>,
}

/// `PathTree::new`: a tree with no routes.
#[verifier::external_body]
fn path_tree_new() -> (t: path_tree::PathTree<usize>) {
    path_tree::PathTree::new()
}

/// `PathTree::insert`; the route id it hands back is not needed here. What
/// the insertion does is recorded by [`RouteTree::insert`].
#[verifier::external_body]
fn path_tree_insert(t: &mut path_tree::PathTree<usize>, pattern: &str, value: usize) {
    let _ = t.insert(pattern, value);
}

/// `PathTree::clone` (derived): a tree with the same nodes and routes, which
/// answers every lookup as the original does.
#[verifier::external_body]
fn path_tree_clone(t: &path_tree::PathTree<usize>) -> (r: path_tree::PathTree<usize>) {
    t.clone()
}

/// `PathTree::find` followed by `Path::params`, on a tree whose insertions
/// are those recorded in `t`: the value matched for `path` and the pattern's
/// parameters, each name with the raw text it matched. Every value it can
/// hand back is one that was inserted. In a tree whose patterns all start
/// with `/` and hold no `\` escape (the parser drops an escape, so `/a\b`
/// would reach the node of `/ab`), a path that was itself inserted as a
/// static pattern is found exactly (static nodes are searched before
/// parameters), with the value of its last insertion (a later insertion of
/// the same pattern overwrites the node's value) and no parameters.
#[verifier::external_body]
pub(crate) fn tree_find(t: &RouteTree, path: &str) -> (r: Option<(usize, Vec<(String, String)>)>)
    ensures
        match r {
            None => tree_match(t.routes(), path@) is None,
            Some((v, ps)) => tree_match(t.routes(), path@) == Some((v, pairs_view(ps@))),
        },
        r matches Some((v, _)) ==> exists|i: int| 0 <= i < t.routes().len() && #[trigger] t.routes()[i].1 == v,
        r is None ==> !(is_static_pattern(path@) && rooted(t.routes()) && unescaped(t.routes())
            && last_value_for(t.routes(), path@) is Some),
        r matches Some((v, ps)) ==> (is_static_pattern(path@) && rooted(t.routes()) && unescaped(t.routes())
            && last_value_for(t.routes(), path@) is Some
            ==> Some(v) == last_value_for(t.routes(), path@) && ps@.len() == 0),
{
    t.tree.find(path).map(|(v, p)| (*v, p.params().into_iter().map(|(k, x)| (k.to_string(), x.to_string())).collect()))
}

impl RouteTree {
    /// The `(pattern, value)` pairs inserted into the tree, in order.
    pub closed spec fn routes(&self) -> Seq<(Seq<char>, usize)> {
        self.inserted@
    }

    /// A tree with no routes.
    pub fn new() -> (t: RouteTree)
        ensures
            t.routes() == Seq::<(Seq<char>, usize)>::empty(),
    {
        RouteTree { tree: path_tree_new(), inserted: Ghost(Seq::empty()) }
    }

    /// Inserts `pattern` with `value`, and records the insertion.
    pub fn insert(&mut self, pattern: &str, value: usize)
        ensures
            final(self).routes() == old(self).routes().push((pattern@, value)),
    {
        path_tree_insert(&mut self.tree, pattern, value);
        self.inserted = Ghost(self.inserted@.push((pattern@, value)));
    }

    /// A copy of the tree with the same history.
    pub fn duplicate(&self) -> (r: RouteTree)
        ensures
            r.routes() == self.routes(),
    {
        RouteTree { tree: path_tree_clone(&self.tree), inserted: Ghost(self.inserted@) }
    }
}

} // verus!
