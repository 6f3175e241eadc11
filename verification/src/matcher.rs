//! The route matcher: an immutable radix trie from matchit, built whole from
//! a rule snapshot and consulted with concrete request paths.
//!
//! matchit is a deterministic data structure: a router's state is a function
//! of the sequence of insertions attempted on it, and so are the outcome of
//! the next insertion and the value a lookup returns.  The trusted contracts
//! below say exactly that, through three names: `router_inserts` (the
//! attempted insertions), `route_insert_ok` (whether the next insertion
//! succeeds) and `route_match` (what a lookup returns).

use vstd::prelude::*;

use crate::rules::MinimalRule;

verus! {

#[verifier::external_type_specification]
#[verifier::external_body]
#[verifier::reject_recursive_types(T)]
pub struct ExRouter<T>(matchit::Router<T>);

/// The insertions attempted on a router so far: (route pattern, value) pairs
/// in order, failed attempts included.
pub uninterp spec fn router_inserts(r: matchit::Router<String>) -> Seq<(Seq<char>, Seq<char>)>;

/// Whether inserting `route` into a router with the given insertion history
/// succeeds.  matchit decides this deterministically: a malformed pattern or
/// a conflict with a registered route fails, anything else succeeds.
pub uninterp spec fn route_insert_ok(
    inserts: Seq<(Seq<char>, Seq<char>)>,
    route: Seq<char>,
) -> bool;

/// The value a lookup of `path` returns on a router with the given insertion
/// history, `None` when no route matches.  matchit decides this
/// deterministically from the registered routes and the path.
pub uninterp spec fn route_match(
    inserts: Seq<(Seq<char>, Seq<char>)>,
    path: Seq<char>,
) -> Option<Seq<char>>;

/// Relies on matchit's `Router::new`: a new router holds no routes.
#[verifier::external_body]
pub fn router_new() -> (r: matchit::Router<String>)
    ensures
        router_inserts(r) == Seq::<(Seq<char>, Seq<char>)>::empty(),
{
    matchit::Router::new()
}

/// How many opening braces a route pattern holds: at least its number of
/// `{name}` parameter captures.
pub open spec fn brace_count(s: Seq<char>) -> nat
    decreases s.len(),
{
    if s.len() == 0 {
        0
    } else {
        brace_count(s.drop_last()) + if s.last() == '{' {
            1nat
        } else {
            0
        }
    }
}

/// Counts a pattern's opening braces.
pub fn count_braces(route: &str) -> (n: usize)
    ensures
        n == brace_count(route@),
{
    let cs = crate::text::string_to_chars(route);
    let mut n: usize = 0;
    let mut i: usize = 0;
    proof {
        assert(cs@.take(0) =~= Seq::<char>::empty());
    }
    while i < cs.len()
        invariant
            i <= cs@.len(),
            cs@ == route@,
            n <= i,
            n == brace_count(cs@.take(i as int)),
        decreases cs@.len() - i,
    {
        proof {
            assert(cs@.take(i as int + 1).drop_last() =~= cs@.take(i as int));
            assert(cs@.take(i as int + 1).last() == cs@[i as int]);
        }
        if cs[i] == '{' {
            n = n + 1;
        }
        i = i + 1;
    }
    proof {
        assert(cs@.take(cs@.len() as int) =~= cs@);
    }
    n
}

/// Relies on matchit's `Router::insert`: the attempt is recorded, and its
/// success is decided by the routes inserted before it and the new pattern.
/// matchit renames the parameter captures of a pattern `a`, `b`, `c`, … and
/// panics past `z`, so a pattern with 26 or more captures — and so with 26 or
/// more opening braces — must not reach it.
#[verifier::external_body]
pub fn router_insert(r: &mut matchit::Router<String>, route: &String, value: String) -> (ok: Result<
    (),
    (),
>)
    requires
        brace_count(route@) < 26,
    ensures
        router_inserts(*final(r)) == router_inserts(*old(r)).push((route@, value@)),
        ok is Ok <==> route_insert_ok(router_inserts(*old(r)), route@),
{
    match r.insert(route.clone(), value) {
        Ok(()) => Ok(()),
        Err(_) => Err(()),
    }
}

/// Relies on matchit's `Router::at`: the matched value is a function of the
/// insertion history and the path.
#[verifier::external_body]
pub fn router_at(r: &matchit::Router<String>, path: &str) -> (res: Option<String>)
    ensures
        match res {
            Some(v) => route_match(router_inserts(*r), path@) == Some(v@),
            None => route_match(router_inserts(*r), path@) is None,
        },
{
    match r.at(path) {
        Ok(m) => Some(m.value.clone()),
        Err(_) => None,
    }
}

/// The insertion sequence that building a matcher from `rules` attempts:
/// each rule's route, carrying its id.  A route with 26 or more opening
/// braces never reaches the router at all, as matchit cannot hold it.
pub open spec fn spec_rule_inserts(rules: Seq<MinimalRule>) -> Seq<(Seq<char>, Seq<char>)>
    decreases rules.len(),
{
    if rules.len() == 0 {
        Seq::empty()
    } else {
        let rest = spec_rule_inserts(rules.drop_last());
        if brace_count(rules.last()@.route) < 26 {
            rest.push((rules.last()@.route, rules.last()@.id))
        } else {
            rest
        }
    }
}

/// Builds the matcher for a snapshot: every rule's route is inserted in
/// order, carrying the rule's id; a rule whose pattern is rejected — or has
/// too many captures for the router to hold — is skipped, and the others
/// still load.
pub fn instantiate_matcher_with_rules(rules: &Vec<MinimalRule>) -> (r: matchit::Router<String>)
    ensures
        router_inserts(r) == spec_rule_inserts(rules@),
{
    let mut matcher = router_new();
    let mut i: usize = 0;
    proof {
        assert(spec_rule_inserts(rules@.take(0)) =~= Seq::<(Seq<char>, Seq<char>)>::empty());
    }
    while i < rules.len()
        invariant
            i <= rules@.len(),
            router_inserts(matcher) == spec_rule_inserts(rules@.take(i as int)),
        decreases rules@.len() - i,
    {
        let rule = &rules[i];
        proof {
            assert(rules@.take(i as int + 1).drop_last() =~= rules@.take(i as int));
            assert(rules@.take(i as int + 1).last() == rules@[i as int]);
        }
        // A failed insertion is deliberately ignored, and a pattern with too
        // many captures is never attempted: one broken rule must not keep
        // the others from loading.
        if count_braces(rule.route.as_str()) < 26 {
            let _ = router_insert(&mut matcher, &rule.route, rule.id.clone());
        }
        i = i + 1;
    }
    proof {
        assert(rules@.take(rules@.len() as int) =~= rules@);
    }
    matcher
}

/// Two back-to-back matcher rebuilds from the same snapshot agree on every
/// path: the routers carry the same insertion history, so every lookup
/// returns the same value.
pub proof fn lemma_rebuild_agrees(
    a: matchit::Router<String>,
    b: matchit::Router<String>,
    rules: Seq<MinimalRule>,
)
    requires
        router_inserts(a) == spec_rule_inserts(rules),
        router_inserts(b) == spec_rule_inserts(rules),
    ensures
        forall|path: Seq<char>|
            route_match(router_inserts(a), path) == route_match(router_inserts(b), path),
{
}

} // verus!
