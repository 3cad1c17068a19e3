//! The routing of an event-driven workflow: its nodes by id, the routes
//! from a node and the action it returned to the next node, and what the
//! workflow does after each event. Actions are known by their names.
use vstd::prelude::*;
use crate::keyed::string_views;
use crate::definition::token::chars_of;

verus! {

/// Why a route was refused.
#[derive(Debug, Clone, Copy, PartialEq, Eq, Structural)]
pub enum EventRouteError {
    /// The destination node is not part of the workflow.
    DestinationNotFound,
}

/// What an event-driven workflow does once a node has turned an event
/// into an action.
#[derive(Debug)]
pub enum RouteStep {
    /// The action is the termination action: the workflow is done.
    Terminate,
    /// Wait for the next event at this node.
    Goto(String),
    /// No route is set for the node and action: a definition error.
    NoRoute,
}

/// Actions of event-driven workflows: the one that ends the workflow and
/// the one taken when no event comes in time.
pub trait EventActionExt: Sized {
    /// Create a terminate action for event-driven workflows.
    fn terminate() -> Self;

    /// Create a timeout action for timed operations.
    fn timeout() -> Self;
}

/// Actions known by name: `terminate` and `timeout`.
impl EventActionExt for String {
    fn terminate() -> (r: Self)
        ensures
            r@ == "terminate"@,
    {
        "terminate".to_owned()
    }

    fn timeout() -> (r: Self)
        ensures
            r@ == "timeout"@,
    {
        "timeout".to_owned()
    }
}

/// The routes of `entries`: each (node, action) goes where its last entry
/// says.
pub open spec fn routes_map(entries: Seq<(String, String, String)>) -> Map<(Seq<char>, Seq<char>), Seq<char>>
    decreases entries.len(),
{
    if entries.len() == 0 {
        Map::empty()
    } else {
        let e = entries.last();
        routes_map(entries.drop_last()).insert((e.0@, e.1@), e.2@)
    }
}

/// Whether `s[i..j]` is `needle`.
pub open spec fn occurs_at(s: Seq<char>, needle: Seq<char>, i: int) -> bool {
    0 <= i && i + needle.len() <= s.len() && s.subrange(i, i + needle.len()) == needle
}

/// Whether `needle` occurs in `s`.
pub open spec fn contains_text(s: Seq<char>, needle: Seq<char>) -> bool {
    exists|i: int| occurs_at(s, needle, i)
}

/// Whether `ns` occurs in `cs` at `i`.
fn matches_at(cs: &Vec<char>, ns: &Vec<char>, i: usize) -> (r: bool)
    requires
        i + ns@.len() <= cs@.len(),
    ensures
        r == occurs_at(cs@, ns@, i as int),
{
    let n = ns.len();
    let len = cs.len();
    let mut j: usize = 0;
    let mut same = true;
    while same && j < n
        invariant
            len == cs@.len(),
            i + n <= len,
            n == ns@.len(),
            j <= n,
            forall|m: int| 0 <= m < j ==> cs@[i + m] == ns@[m],
            !same ==> j < n && cs@[i + j] != ns@[j as int],
        decreases (n - j) + if same { 1int } else { 0int },
    {
        if cs[i + j] != ns[j] {
            same = false;
        } else {
            j += 1;
        }
    }
    if same {
        assert(cs@.subrange(i as int, i + ns@.len()) =~= ns@);
        true
    } else {
        assert(cs@.subrange(i as int, i + ns@.len())[j as int] != ns@[j as int]);
        false
    }
}

/// Whether `needle` occurs in `s`.
pub fn text_contains(s: &str, needle: &str) -> (r: bool)
    ensures
        r == contains_text(s@, needle@),
{
    let cs = chars_of(s);
    let ns = chars_of(needle);
    if ns.len() > cs.len() {
        proof {
            assert forall|i: int| !occurs_at(s@, needle@, i) by {}
        }
        return false;
    }
    let last = cs.len() - ns.len();
    let mut i: usize = 0;
    loop
        invariant
            cs@ == s@,
            ns@ == needle@,
            last == cs@.len() - ns@.len(),
            ns@.len() <= cs@.len(),
            i <= last,
            forall|k: int| 0 <= k < i ==> !occurs_at(s@, needle@, k),
        decreases last - i,
    {
        if matches_at(&cs, &ns, i) {
            return true;
        }
        if i == last {
            proof {
                assert forall|k: int| !occurs_at(s@, needle@, k) by {
                    if 0 <= k && k + needle@.len() <= s@.len() && k != i {
                        assert(k < i);
                    }
                }
            }
            return false;
        }
        i += 1;
    }
}

/// The nodes and routes of an event-driven workflow.
pub struct EventRouter {
    nodes: Vec<String>,
    routes: Vec<(String, String, String)>,
    initial: String,
    termination: String,
}

impl EventRouter {
    /// Whether node `id` is part of the workflow.
    pub closed spec fn spec_has_node(&self, id: Seq<char>) -> bool {
        string_views(self.nodes@).contains(id)
    }

    /// Where each (node, action) routes to.
    pub closed spec fn spec_routes(&self) -> Map<(Seq<char>, Seq<char>), Seq<char>> {
        routes_map(self.routes@)
    }

    /// The node events first come to.
    pub closed spec fn spec_initial(&self) -> Seq<char> {
        self.initial@
    }

    /// The action that ends the workflow.
    pub closed spec fn spec_termination(&self) -> Seq<char> {
        self.termination@
    }

    /// A workflow whose only node is `initial`, ended by the action named
    /// `termination`.
    pub fn new(initial: String, termination: String) -> (r: Self)
        ensures
            forall|id: Seq<char>| r.spec_has_node(id) <==> id == initial@,
            r.spec_routes() == Map::<(Seq<char>, Seq<char>), Seq<char>>::empty(),
            r.spec_initial() == initial@,
            r.spec_termination() == termination@,
    {
        let mut nodes: Vec<String> = Vec::new();
        nodes.push(initial.clone());
        let r = EventRouter { nodes, routes: Vec::new(), initial, termination };
        proof {
            assert(string_views(r.nodes@) =~= seq![r.initial@]);
            assert forall|id: Seq<char>| r.spec_has_node(id) <==> id == r.initial@ by {
                if id == r.initial@ {
                    assert(string_views(r.nodes@)[0] == id);
                }
            }
        }
        r
    }

    /// Add node `id` to the workflow.
    pub fn add_node(&mut self, id: String)
        ensures
            forall|k: Seq<char>| final(self).spec_has_node(k) <==> (old(self).spec_has_node(k) || k == id@),
            final(self).spec_routes() == old(self).spec_routes(),
            final(self).spec_initial() == old(self).spec_initial(),
            final(self).spec_termination() == old(self).spec_termination(),
    {
        let ghost before = string_views(self.nodes@);
        let ghost v = id@;
        self.nodes.push(id);
        proof {
            assert(string_views(self.nodes@) =~= before.push(v));
            assert forall|k: Seq<char>| self.spec_has_node(k) <==> (old(self).spec_has_node(k) || k == v) by {
                if k == v {
                    assert(string_views(self.nodes@)[before.len() as int] == k);
                }
                if before.contains(k) {
                    let j = choose|j: int| 0 <= j < before.len() && before[j] == k;
                    assert(string_views(self.nodes@)[j] == k);
                }
                if string_views(self.nodes@).contains(k) && k != v {
                    let j = choose|j: int| 0 <= j < string_views(self.nodes@).len() && string_views(self.nodes@)[j] == k;
                    assert(before[j] == k);
                }
            }
        }
    }

    /// Whether node `id` is part of the workflow.
    pub fn has_node(&self, id: &str) -> (r: bool)
        ensures
            r == self.spec_has_node(id@),
    {
        let owned = id.to_owned();
        let ghost nv = string_views(self.nodes@);
        let mut i: usize = 0;
        while i < self.nodes.len()
            invariant
                nv == string_views(self.nodes@),
                owned@ == id@,
                i <= self.nodes@.len(),
                forall|j: int| 0 <= j < i ==> nv[j] != id@,
            decreases self.nodes@.len() - i,
        {
            if self.nodes[i] == owned {
                proof {
                    assert(nv[i as int] == id@);
                }
                return true;
            }
            i += 1;
        }
        false
    }

    /// Route node `from`'s action `action` to node `to`, replacing any
    /// route set for them before.
    pub fn set_route(&mut self, from: &str, action: &str, to: &str)
        ensures
            final(self).spec_routes() == old(self).spec_routes().insert((from@, action@), to@),
            forall|k: Seq<char>| final(self).spec_has_node(k) == old(self).spec_has_node(k),
            final(self).spec_initial() == old(self).spec_initial(),
            final(self).spec_termination() == old(self).spec_termination(),
    {
        let entry = (from.to_owned(), action.to_owned(), to.to_owned());
        let ghost before = self.routes@;
        self.routes.push(entry);
        proof {
            assert(self.routes@.drop_last() =~= before);
        }
    }

    /// Route node `from`'s action `action` to node `to`, provided `to` is
    /// part of the workflow; otherwise change nothing.
    pub fn set_route_with_validation(&mut self, from: &str, action: &str, to: &str) -> (r: Result<(), EventRouteError>)
        ensures
            r is Ok <==> old(self).spec_has_node(to@),
            r is Ok ==> final(self).spec_routes() == old(self).spec_routes().insert((from@, action@), to@),
            r is Err ==> r == Err::<(), EventRouteError>(EventRouteError::DestinationNotFound)
                && final(self).spec_routes() == old(self).spec_routes(),
            forall|k: Seq<char>| final(self).spec_has_node(k) == old(self).spec_has_node(k),
            final(self).spec_initial() == old(self).spec_initial(),
            final(self).spec_termination() == old(self).spec_termination(),
    {
        if !self.has_node(to) {
            return Err(EventRouteError::DestinationNotFound);
        }
        self.set_route(from, action, to);
        Ok(())
    }

    /// The node events first come to.
    pub fn initial_node(&self) -> (r: String)
        ensures
            r@ == self.spec_initial(),
    {
        self.initial.clone()
    }

    /// Where node `from`'s action `action` routes to, if anywhere.
    pub fn route(&self, from: &str, action: &str) -> (r: Option<String>)
        ensures
            match r {
                Some(to) => self.spec_routes().contains_key((from@, action@)) && self.spec_routes()[(from@, action@)] == to@,
                None => !self.spec_routes().contains_key((from@, action@)),
            },
    {
        let f = from.to_owned();
        let a = action.to_owned();
        let ghost key = (from@, action@);
        let mut j = self.routes.len();
        proof {
            assert(self.routes@.take(j as int) =~= self.routes@);
        }
        while j > 0
            invariant
                f@ == from@,
                a@ == action@,
                key == (from@, action@),
                j <= self.routes@.len(),
                routes_map(self.routes@).contains_key(key) == routes_map(self.routes@.take(j as int)).contains_key(key),
                routes_map(self.routes@).contains_key(key) ==> routes_map(self.routes@)[key] == routes_map(self.routes@.take(j as int))[key],
            decreases j,
        {
            let e = &self.routes[j - 1];
            proof {
                assert(self.routes@.take(j as int).drop_last() =~= self.routes@.take(j - 1));
                assert(self.routes@.take(j as int).last() == self.routes@[j - 1]);
            }
            if e.0 == f && e.1 == a {
                return Some(e.2.clone());
            }
            j -= 1;
        }
        None
    }

    /// What follows a node's action: the end when it is the termination
    /// action, else the node its route leads to, else a missing route.
    pub fn after_event(&self, current: &str, action: &str) -> (s: RouteStep)
        ensures
            action@ == self.spec_termination() ==> s is Terminate,
            action@ != self.spec_termination() ==> match s {
                RouteStep::Goto(to) => self.spec_routes().contains_key((current@, action@))
                    && self.spec_routes()[(current@, action@)] == to@,
                RouteStep::NoRoute => !self.spec_routes().contains_key((current@, action@)),
                RouteStep::Terminate => false,
            },
    {
        let a = action.to_owned();
        if a == self.termination {
            return RouteStep::Terminate;
        }
        match self.route(current, action) {
            Some(to) => RouteStep::Goto(to),
            None => RouteStep::NoRoute,
        }
    }

    /// Where to wait for an event after the node at hand failed to give
    /// one with `message`: a node that is not an event source sends the
    /// workflow back to its initial node; any other failure ends it.
    pub fn after_wait_error(&self, message: &str) -> (r: Option<String>)
        ensures
            match r {
                Some(n) => contains_text(message@, "not an event source"@) && n@ == self.spec_initial(),
                None => !contains_text(message@, "not an event source"@),
            },
    {
        if text_contains(message, "not an event source") {
            Some(self.initial.clone())
        } else {
            None
        }
    }
}

/// What a node that waits for one event returns: the action the event was
/// processed into, the timeout action when no event came in time, or the
/// error.
pub fn event_node_action<E>(waited: Option<Result<String, E>>, timeout_action: String) -> (r: Result<String, E>)
    ensures
        match waited {
            Some(Ok(a)) => r == Ok::<String, E>(a),
            Some(Err(e)) => r == Err::<String, E>(e),
            None => r == Ok::<String, E>(timeout_action),
        },
{
    match waited {
        Some(res) => res,
        None => Ok(timeout_action),
    }
}

/// What a nested event-driven workflow returns: its completion action once
/// it ended, the timeout action when it did not end in time, or its error.
pub fn nested_workflow_action<E>(finished: Option<Result<(), E>>, complete_action: String, timeout_action: String) -> (r: Result<String, E>)
    ensures
        match finished {
            Some(Ok(())) => r == Ok::<String, E>(complete_action),
            Some(Err(e)) => r == Err::<String, E>(e),
            None => r == Ok::<String, E>(timeout_action),
        },
{
    match finished {
        Some(Ok(())) => Ok(complete_action),
        Some(Err(e)) => Err(e),
        None => Ok(timeout_action),
    }
}

/// A route set is the route read back: after `set_route(from, action, to)`
/// an event at `from` that gives `action` (other than the termination
/// action) goes to `to`, and every other route is as it was.
pub proof fn lemma_route_read_back(before: Map<(Seq<char>, Seq<char>), Seq<char>>, from: Seq<char>, action: Seq<char>, to: Seq<char>, other: (Seq<char>, Seq<char>))
    ensures
        before.insert((from, action), to).contains_key((from, action)),
        before.insert((from, action), to)[(from, action)] == to,
        other != (from, action) ==> before.insert((from, action), to).contains_key(other) == before.contains_key(other),
        other != (from, action) && before.contains_key(other) ==> before.insert((from, action), to)[other] == before[other],
{
}

} // verus!
