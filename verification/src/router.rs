//! The routing table: a mapping from (path, method) to a handler value, built
//! by explicit registration calls before serving begins and read-only
//! afterwards. Registering a second handler for an existing (path, method)
//! pair shadows the prior one: the last registration wins. Lookup is an exact
//! match on both the path string and the method; a miss does not say whether
//! the path or the method was the unknown half.

use vstd::prelude::*;
use crate::message::Method;

verus! {

/// One registration: a path, a method, and the handler value supplied for them.
pub struct RouteEntry<H> {
    pub path: String,
    pub method: Method,
    pub handler: H,
}

/// The routing table. The handler type is opaque to the table: it is stored on
/// registration and handed back on lookup, nothing more.
pub struct Router<H> {
    pub entries: Vec<RouteEntry<H>>,
}

/// The mapping a sequence of registrations denotes: each one inserted in
/// order, so that a later registration of the same (path, method) pair
/// replaces the earlier one.
pub open spec fn table<H>(entries: Seq<RouteEntry<H>>) -> Map<(Seq<char>, Method), H>
    decreases entries.len(),
{
    if entries.len() == 0 {
        Map::empty()
    } else {
        let last = entries.last();
        table(entries.drop_last()).insert((last.path@, last.method), last.handler)
    }
}

impl<H> View for Router<H> {
    type V = Map<(Seq<char>, Method), H>;

    open spec fn view(&self) -> Map<(Seq<char>, Method), H> {
        table(self.entries@)
    }
}

impl<H> Router<H> {
    /// An empty table: no route matches anything.
    pub fn new() -> (r: Router<H>)
        ensures
            r@ == Map::<(Seq<char>, Method), H>::empty(),
    {
        Router { entries: Vec::new() }
    }

    /// Registers a handler for a (path, method) pair, replacing any handler
    /// registered for that pair before. Registration is infallible.
    pub fn route(&mut self, path: String, method: Method, handler: H)
        ensures
            final(self)@ == old(self)@.insert((path@, method), handler),
    {
        let ghost before = self.entries@;
        self.entries.push(RouteEntry { path, method, handler });
        proof {
            assert(self.entries@.drop_last() =~= before);
        }
    }

    /// Finds the handler registered for exactly this path and method. Returns
    /// the handler if and only if the pair was registered; an unknown path and
    /// a known path with an unregistered method both come back empty.
    pub fn lookup(&self, path: &String, method: Method) -> (r: Option<&H>)
        ensures
            match r {
                Some(h) => self@.contains_key((path@, method)) && *h == self@[(path@, method)],
                None => !self@.contains_key((path@, method)),
            },
    {
        let ghost key = (path@, method);
        let mut found: Option<usize> = None;
        let mut i: usize = 0;
        while i < self.entries.len()
            invariant
                key == (path@, method),
                i <= self.entries@.len(),
                match found {
                    Some(j) => {
                        &&& j < i
                        &&& table(self.entries@.take(i as int)).contains_key(key)
                        &&& self.entries@[j as int].path@ == path@
                        &&& self.entries@[j as int].method == method
                        &&& table(self.entries@.take(i as int))[key]
                            == self.entries@[j as int].handler
                    },
                    None => !table(self.entries@.take(i as int)).contains_key(key),
                },
            decreases self.entries@.len() - i,
        {
            let e = &self.entries[i];
            proof {
                assert(self.entries@.take(i + 1 as int).drop_last() =~= self.entries@.take(
                    i as int,
                ));
                assert(self.entries@.take(i + 1 as int).last() == self.entries@[i as int]);
            }
            if *path == e.path && method == e.method {
                found = Some(i);
            }
            i += 1;
        }
        proof {
            assert(self.entries@.take(self.entries@.len() as int) =~= self.entries@);
        }
        match found {
            Some(j) => Some(&self.entries[j].handler),
            None => None,
        }
    }
}

/// Law: a registered (path, method, handler) triple resolves to exactly that
/// handler, and registering again for the same pair replaces the prior
/// handler — the last registration wins.
pub proof fn lemma_register_then_lookup<H>(
    t: Map<(Seq<char>, Method), H>,
    path: Seq<char>,
    method: Method,
    first: H,
    second: H,
)
    ensures
        t.insert((path, method), first).contains_key((path, method)),
        t.insert((path, method), first)[(path, method)] == first,
        t.insert((path, method), first).insert((path, method), second)[(path, method)] == second,
{
}

/// Law: a registration leaves every other (path, method) pair untouched — in
/// particular, registering a path under one method does not make the path
/// resolve under a different method.
pub proof fn lemma_other_routes_unaffected<H>(
    t: Map<(Seq<char>, Method), H>,
    path: Seq<char>,
    method: Method,
    handler: H,
    other: (Seq<char>, Method),
)
    requires
        other != (path, method),
    ensures
        t.insert((path, method), handler).contains_key(other) == t.contains_key(other),
        t.contains_key(other) ==> t.insert((path, method), handler)[other] == t[other],
{
}


} // verus!
