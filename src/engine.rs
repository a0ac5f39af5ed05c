use vstd::prelude::*;

use crate::order::{
    compare_text, lemma_lex_asymmetric, lemma_lex_irreflexive, lemma_lex_transitive, lex_lt,
    strictly_sorted,
};
use crate::query::{Query, QueryEngineError, ResultView, SearchResult};

verus! {

/// How many results the inbox holds before it turns further ones away.
pub const INBOX_CAPACITY: usize = 100;

/// What became of a result handed to the engine.
#[derive(Debug, Clone, Copy, PartialEq, Eq, Structural)]
pub enum Delivery {
    /// It is in the inbox, for the next `recv_any`.
    Accepted,
    /// It was stamped with a generation that a reset has left behind: dropped.
    Stale,
    /// The inbox is at capacity: the sender should try again later.
    Full,
}

/// The mathematical state of a `QueryEngine`.
pub struct EngineView<B> {
    /// The modifier names, in the order the registry keeps them.
    pub names: Seq<Seq<char>>,
    /// The backend under each name, at the same position.
    pub backends: Seq<B>,
    /// The current dispatch generation.
    pub generation: int,
    /// The results waiting for `recv_any`, oldest first.
    pub inbox: Seq<ResultView>,
}

/// Whether `targets` is the set of backend positions that a query with `modifier`
/// goes to: all of them without a modifier, else the one registered under it, if any.
pub open spec fn selects(names: Seq<Seq<char>>, modifier: Option<Seq<char>>, targets: Seq<usize>) -> bool {
    match modifier {
        None => targets.len() == names.len() && forall|i: int|
            0 <= i < targets.len() ==> targets[i] as int == i,
        Some(m) => {
            &&& targets.len() <= 1
            &&& (targets.len() == 1 <==> names.contains(m))
            &&& forall|i: int| 0 <= i < targets.len() ==> targets[i] < names.len()
                && names[targets[i] as int] == m
        },
    }
}

pub open spec fn opt_str_view(m: Option<&str>) -> Option<Seq<char>> {
    match m {
        Some(s) => Some(s@),
        None => None,
    }
}

impl<B> EngineView<B> {
    pub open spec fn wf(self) -> bool {
        &&& strictly_sorted(self.names)
        &&& self.names.len() == self.backends.len()
        &&& self.inbox.len() <= INBOX_CAPACITY
        &&& 0 <= self.generation <= u64::MAX
    }

    /// Whether `b` is registered under `m`.
    pub open spec fn has_entry(self, m: Seq<char>, b: B) -> bool {
        exists|q: int| 0 <= q < self.names.len() && self.names[q] == m && self.backends[q] == b
    }

    /// A successful registration of `b` under `m`: it is inserted at some position
    /// of the registry, and nothing else changes.
    pub open spec fn registered_as(self, m: Seq<char>, b: B, next: Self) -> bool {
        &&& exists|p: int|
            0 <= p <= self.names.len() && next.names == self.names.insert(p, m) && next.backends
                == self.backends.insert(p, b)
        &&& next.generation == self.generation
        &&& next.inbox == self.inbox
    }

    /// What registering `b` under `m` does: it fails, leaving everything as it
    /// was, exactly when `m` is taken.
    pub open spec fn register_outcome(self, m: Seq<char>, b: B, ok: bool, next: Self) -> bool {
        if self.names.contains(m) {
            !ok && next == self
        } else {
            ok && self.registered_as(m, b, next)
        }
    }

    /// The state after a reset: a new generation and an empty inbox.
    pub open spec fn reset(self) -> Self {
        EngineView { generation: self.generation + 1, inbox: Seq::empty(), ..self }
    }

    pub open spec fn delivery(self, stamp: int) -> Delivery {
        if stamp != self.generation {
            Delivery::Stale
        } else if self.inbox.len() >= INBOX_CAPACITY {
            Delivery::Full
        } else {
            Delivery::Accepted
        }
    }

    /// The state after a result stamped `stamp` is handed in.
    pub open spec fn deliver(self, stamp: int, r: ResultView) -> Self {
        if self.delivery(stamp) == Delivery::Accepted {
            EngineView { inbox: self.inbox.push(r), ..self }
        } else {
            self
        }
    }

    /// The state after each of `arrivals` is handed in, in order.
    pub open spec fn deliver_all(self, arrivals: Seq<(int, ResultView)>) -> Self
        decreases arrivals.len(),
    {
        if arrivals.len() == 0 {
            self
        } else {
            let last = arrivals.last();
            self.deliver_all(arrivals.drop_last()).deliver(last.0, last.1)
        }
    }

    /// The state after the inbox is drained.
    pub open spec fn drained(self) -> Self {
        EngineView { inbox: Seq::empty(), ..self }
    }
}

/// The plan for one query: the backends it goes to, and the generation that
/// their output must be stamped with to be accepted.
pub struct Dispatch {
    pub query: Query,
    pub generation: u64,
    /// Positions in the registry of the backends to run.
    pub targets: Vec<usize>,
}

/// The registry of search backends, keyed by modifier name and kept in name
/// order, together with the inbox that collects their output.
///
/// Output is accepted only when stamped with the current generation;
/// `reset_channels` starts a new generation, which detaches everything still
/// running for the previous one.
pub struct QueryEngine<B> {
    registry: Vec<(String, B)>,
    generation: u64,
    inbox: Vec<SearchResult>,
}

impl<B> View for QueryEngine<B> {
    type V = EngineView<B>;

    closed spec fn view(&self) -> EngineView<B> {
        EngineView {
            names: self.registry@.map_values(|e: (String, B)| e.0@),
            backends: self.registry@.map_values(|e: (String, B)| e.1),
            generation: self.generation as int,
            inbox: self.inbox@.map_values(|r: SearchResult| r@),
        }
    }
}

impl<B> QueryEngine<B> {
    /// An engine with no backends, at generation zero.
    pub fn new() -> (r: Self)
        ensures
            r@.wf(),
            r@.names.len() == 0,
            r@.generation == 0,
            r@.inbox.len() == 0,
    {
        let r = QueryEngine { registry: Vec::new(), generation: 0, inbox: Vec::new() };
        proof {
            assert(r@.names =~= Seq::<Seq<char>>::empty());
            assert(r@.inbox =~= Seq::<ResultView>::empty());
        }
        r
    }

    /// Whether a backend is registered under exactly this name.
    pub fn in_registry(&self, modifier: &str) -> (r: bool)
        requires
            self@.wf(),
        ensures
            r == self@.names.contains(modifier@),
    {
        let mut i: usize = 0;
        while i < self.registry.len()
            invariant
                i <= self.registry@.len(),
                self@.names.len() == self.registry@.len(),
                forall|j: int| 0 <= j < i ==> self@.names[j] != modifier@,
            decreases self.registry@.len() - i,
        {
            if compare_text(modifier, self.registry[i].0.as_str()) == 0 {
                proof {
                    assert(self@.names[i as int] == modifier@);
                }
                return true;
            }
            i = i + 1;
        }
        false
    }

    /// Adds `backend` under `modifier`, or fails if that name is taken.
    pub fn register(&mut self, modifier: &str, backend: B) -> (r: Result<(), QueryEngineError>)
        requires
            old(self)@.wf(),
        ensures
            final(self)@.wf(),
            old(self)@.register_outcome(modifier@, backend, r is Ok, final(self)@),
            r matches Err(QueryEngineError::AlreadyRegistered(n)) ==> n@ == modifier@,
    {
        let ghost names = self@.names;
        let mut i: usize = 0;
        while i < self.registry.len()
            invariant
                i <= self.registry@.len(),
                old(self)@.wf(),
                self@ == old(self)@,
                names == self@.names,
                names.len() == self.registry@.len(),
                forall|j: int| 0 <= j < i ==> lex_lt(#[trigger] names[j], modifier@),
            ensures
                i < names.len() ==> lex_lt(modifier@, names[i as int]),
            decreases self.registry@.len() - i,
        {
            let c = compare_text(modifier, self.registry[i].0.as_str());
            if c == 0 {
                proof {
                    assert(names[i as int] == modifier@);
                    assert(names.contains(modifier@));
                }
                return Err(QueryEngineError::AlreadyRegistered(String::from_str(modifier)));
            }
            if c < 0 {
                proof {
                    assert(names[i as int] == self.registry@[i as int].0@);
                }
                break;
            }
            proof {
                lemma_lex_asymmetric(modifier@, names[i as int]);
            }
            i = i + 1;
        }
        let ghost p = i as int;
        proof {
            // everything from position p on lies above the new name
            assert forall|j: int| p <= j < names.len() implies lex_lt(modifier@, #[trigger] names[j]) by {
                if j > p {
                    lemma_lex_transitive(modifier@, names[p], names[j]);
                }
            }
            assert forall|j: int| 0 <= j < names.len() implies #[trigger] names[j] != modifier@ by {
                lemma_lex_irreflexive(modifier@);
            }
            assert(!names.contains(modifier@));
        }
        self.registry.insert(i, (String::from_str(modifier), backend));
        proof {
            let nn = self@.names;
            assert(nn =~= names.insert(p, modifier@));
            assert(self@.backends =~= old(self)@.backends.insert(p, backend));
            assert forall|a: int, b: int| 0 <= a < b < nn.len() implies lex_lt(
                #[trigger] nn[a],
                #[trigger] nn[b],
            ) by {
                if b < p {
                } else if a < p && b == p {
                } else if a < p {
                    lemma_lex_transitive(nn[a], modifier@, nn[b]);
                } else if a == p {
                } else {
                    assert(nn[a] == names[a - 1] && nn[b] == names[b - 1]);
                }
            }
            assert(old(self)@.registered_as(modifier@, backend, self@));
        }
        Ok(())
    }

    /// The registry: each modifier name with its backend, in name order.
    pub fn registry(&self) -> (r: &Vec<(String, B)>)
        ensures
            r@.map_values(|e: (String, B)| e.0@) == self@.names,
            r@.map_values(|e: (String, B)| e.1) == self@.backends,
    {
        &self.registry
    }

    /// The backend at position `i` of the registry.
    pub fn backend(&self, i: usize) -> (r: &B)
        requires
            self@.wf(),
            i < self@.names.len(),
        ensures
            *r == self@.backends[i as int],
    {
        &self.registry[i].1
    }

    /// The registered modifier names, each once, in lexicographic order.
    pub fn modifiers(&self) -> (r: Vec<String>)
        requires
            self@.wf(),
        ensures
            r@.map_values(|s: String| s@) == self@.names,
            strictly_sorted(self@.names),
            self@.names.no_duplicates(),
    {
        let mut r: Vec<String> = Vec::new();
        let mut i: usize = 0;
        while i < self.registry.len()
            invariant
                i <= self.registry@.len(),
                self@.names.len() == self.registry@.len(),
                r@.len() == i,
                forall|j: int| 0 <= j < i ==> #[trigger] r@[j]@ == self@.names[j],
            decreases self.registry@.len() - i,
        {
            let name = self.registry[i].0.clone();
            proof {
                assert(name@ == self@.names[i as int]);
            }
            r.push(name);
            i = i + 1;
        }
        proof {
            assert(r@.map_values(|s: String| s@) =~= self@.names);
            lemma_sorted_no_duplicates(self@.names);
        }
        r
    }

    /// The generation that output must carry to be accepted now.
    pub fn generation(&self) -> (r: u64)
        ensures
            r as int == self@.generation,
    {
        self.generation
    }

    /// Detaches the engine from all output of the current generation: a new
    /// generation starts and whatever was waiting in the inbox is discarded.
    pub fn reset_channels(&mut self)
        requires
            old(self)@.wf(),
            old(self)@.generation < u64::MAX,
        ensures
            final(self)@ == old(self)@.reset(),
            final(self)@.wf(),
    {
        self.generation = self.generation + 1;
        self.inbox = Vec::new();
        proof {
            assert(self@.inbox =~= Seq::<ResultView>::empty());
        }
    }

    /// Plans a query: with a modifier, the one backend registered under it (none
    /// if there is no such backend); without one, every backend.
    pub fn query(&self, query: Query, modifier: Option<&str>) -> (d: Dispatch)
        requires
            self@.wf(),
        ensures
            d.query == query,
            d.generation as int == self@.generation,
            selects(self@.names, opt_str_view(modifier), d.targets@),
    {
        let mut targets: Vec<usize> = Vec::new();
        match modifier {
            None => {
                let mut i: usize = 0;
                while i < self.registry.len()
                    invariant
                        i <= self.registry@.len(),
                        targets@.len() == i,
                        self@.names.len() == self.registry@.len(),
                        forall|j: int| 0 <= j < i ==> targets@[j] as int == j,
                    decreases self.registry@.len() - i,
                {
                    targets.push(i);
                    i = i + 1;
                }
            },
            Some(m) => {
                let mut i: usize = 0;
                while i < self.registry.len()
                    invariant_except_break
                        targets@.len() == 0,
                    invariant
                        i <= self.registry@.len(),
                        self@.names.len() == self.registry@.len(),
                        forall|j: int| 0 <= j < i ==> self@.names[j] != m@,
                    ensures
                        targets@.len() <= 1,
                        targets@.len() == 0 ==> i == self.registry@.len(),
                        targets@.len() == 1 ==> targets@[0] < self@.names.len()
                            && self@.names[targets@[0] as int] == m@,
                    decreases self.registry@.len() - i,
                {
                    if compare_text(m, self.registry[i].0.as_str()) == 0 {
                        targets.push(i);
                        proof {
                            assert(self@.names[i as int] == self.registry@[i as int].0@);
                        }
                        break;
                    }
                    i = i + 1;
                }
            },
        }
        Dispatch { query, generation: self.generation, targets }
    }

    /// Hands in one result stamped with the generation it was dispatched under.
    /// It is kept only if that generation is the current one and the inbox has room.
    pub fn deliver(&mut self, stamp: u64, result: SearchResult) -> (r: Delivery)
        requires
            old(self)@.wf(),
        ensures
            r == old(self)@.delivery(stamp as int),
            final(self)@ == old(self)@.deliver(stamp as int, result@),
            final(self)@.wf(),
    {
        if stamp != self.generation {
            Delivery::Stale
        } else if self.inbox.len() >= INBOX_CAPACITY {
            Delivery::Full
        } else {
            self.inbox.push(result);
            proof {
                assert(self@.inbox =~= old(self)@.inbox.push(result@));
                assert(self@ == old(self)@.deliver(stamp as int, result@));
            }
            Delivery::Accepted
        }
    }

    /// Takes every result waiting in the inbox, oldest first, without waiting
    /// for more. Returns nothing when nothing is waiting.
    pub fn recv_any(&mut self) -> (r: Vec<SearchResult>)
        requires
            old(self)@.wf(),
        ensures
            r@.map_values(|x: SearchResult| x@) == old(self)@.inbox,
            final(self)@ == old(self)@.drained(),
            final(self)@.wf(),
    {
        let mut r: Vec<SearchResult> = Vec::new();
        std::mem::swap(&mut r, &mut self.inbox);
        proof {
            assert(self@.inbox =~= Seq::<ResultView>::empty());
            assert(self@ == old(self)@.drained());
        }
        r
    }
}

proof fn lemma_sorted_no_duplicates(s: Seq<Seq<char>>)
    requires
        strictly_sorted(s),
    ensures
        s.no_duplicates(),
{
    assert forall|i: int, j: int| 0 <= i < s.len() && 0 <= j < s.len() && i != j implies s[i]
        != s[j] by {
        if i < j {
            assert(lex_lt(s[i], s[j]));
            lemma_lex_irreflexive(s[i]);
        } else {
            assert(lex_lt(s[j], s[i]));
            lemma_lex_irreflexive(s[j]);
        }
    }
}


/// Registrations collected before the engine is built, in the order given.
pub struct QueryEngineBuilder<B> {
    pending: Vec<(String, B)>,
}

impl<B> QueryEngineBuilder<B> {
    /// The names given so far, in the order given.
    pub closed spec fn pending_names(&self) -> Seq<Seq<char>> {
        self.pending@.map_values(|e: (String, B)| e.0@)
    }

    /// The backends given so far, at the positions of their names.
    pub closed spec fn pending_backends(&self) -> Seq<B> {
        self.pending@.map_values(|e: (String, B)| e.1)
    }

    /// A builder with nothing registered yet.
    pub fn new() -> (r: Self)
        ensures
            r.pending_names().len() == 0,
            r.pending_backends().len() == 0,
    {
        QueryEngineBuilder { pending: Vec::new() }
    }

    /// Adds a registration of `backend` under `modifier`; duplicates surface in `build`.
    pub fn register(self, modifier: &str, backend: B) -> (r: Self)
        ensures
            r.pending_names() == self.pending_names().push(modifier@),
            r.pending_backends() == self.pending_backends().push(backend),
    {
        let mut pending = self.pending;
        let ghost prev = pending@;
        pending.push((String::from_str(modifier), backend));
        let r = QueryEngineBuilder { pending };
        proof {
            assert(r.pending_names() =~= prev.map_values(|e: (String, B)| e.0@).push(modifier@));
            assert(r.pending_backends() =~= prev.map_values(|e: (String, B)| e.1).push(backend));
        }
        r
    }

    /// The engine with every registration, or the first name that is given a
    /// second time.
    pub fn build(self) -> (r: Result<QueryEngine<B>, QueryEngineError>)
        ensures
            (r is Ok) == self.pending_names().no_duplicates(),
            r matches Ok(e) ==> {
                &&& e@.wf()
                &&& e@.generation == 0
                &&& e@.inbox.len() == 0
                &&& e@.names.len() == self.pending_names().len()
                &&& forall|k: int|
                    0 <= k < self.pending_names().len() ==> #[trigger] e@.has_entry(
                        self.pending_names()[k],
                        self.pending_backends()[k],
                    )
            },
            r matches Err(QueryEngineError::AlreadyRegistered(n)) ==> exists|j: int|
                0 <= j < self.pending_names().len() && n@ == self.pending_names()[j]
                    && self.pending_names().subrange(0, j).contains(n@) && self.pending_names().subrange(
                    0,
                    j,
                ).no_duplicates(),
    {
        let ghost names = self.pending_names();
        let ghost backends = self.pending_backends();
        let mut pending = self.pending;
        let n = pending.len();
        let mut rest: Vec<(String, B)> = Vec::new();
        // take the registrations out in reverse, so that they can be moved
        while pending.len() > 0
            invariant
                pending@.len() + rest@.len() == names.len(),
                names.len() == n,
                names.len() == backends.len(),
                forall|k: int| 0 <= k < pending@.len() ==> (#[trigger] pending@[k]).0@ == names[k]
                    && pending@[k].1 == backends[k],
                forall|k: int|
                    0 <= k < rest@.len() ==> (#[trigger] rest@[k]).0@ == names[names.len() - 1 - k]
                        && rest@[k].1 == backends[names.len() - 1 - k],
            decreases pending@.len(),
        {
            let e = pending.pop().unwrap();
            rest.push(e);
        }
        let mut engine: QueryEngine<B> = QueryEngine::new();
        let mut i: usize = 0;
        proof {
            assert(names.subrange(0, 0) =~= Seq::<Seq<char>>::empty());
        }
        while rest.len() > 0
            invariant
                i + rest@.len() == names.len(),
                names.len() == n,
                names.len() == backends.len(),
                names == self.pending_names(),
                backends == self.pending_backends(),
                forall|k: int|
                    0 <= k < rest@.len() ==> (#[trigger] rest@[k]).0@ == names[names.len() - 1 - k]
                        && rest@[k].1 == backends[names.len() - 1 - k],
                engine@.wf(),
                engine@.generation == 0,
                engine@.inbox.len() == 0,
                collects(engine@, names, backends, i as int),
            decreases rest@.len(),
        {
            let (name, backend) = rest.pop().unwrap();
            let ghost before = engine@;
            proof {
                assert(name@ == names[i as int]);
                assert(backend == backends[i as int]);
            }
            match engine.register(name.as_str(), backend) {
                Ok(()) => {},
                Err(err) => {
                    proof {
                        lemma_build_refused(names, backends, i as int, before);
                        assert(err matches QueryEngineError::AlreadyRegistered(x) && x@
                            == names[i as int]);
                    }
                    return Err(err);
                },
            }
            proof {
                lemma_build_step(names, backends, i as int, before, engine@);
            }
            i = i + 1;
        }
        proof {
            assert(names.subrange(0, i as int) =~= names);
        }
        Ok(engine)
    }
}

/// `e` holds exactly the first `i` of the registrations `names` / `backends`,
/// among which no name is given twice.
spec fn collects<B>(e: EngineView<B>, names: Seq<Seq<char>>, backends: Seq<B>, i: int) -> bool {
    &&& 0 <= i <= names.len()
    &&& e.names.len() == i
    &&& names.subrange(0, i).no_duplicates()
    &&& forall|k: int| 0 <= k < i ==> #[trigger] e.has_entry(names[k], backends[k])
    &&& forall|q: int| 0 <= q < e.names.len() ==> names.subrange(0, i).contains(#[trigger] e.names[q])
}

/// A refused registration of the `i`-th name means it was given before.
proof fn lemma_build_refused<B>(names: Seq<Seq<char>>, backends: Seq<B>, i: int, before: EngineView<B>)
    requires
        0 <= i < names.len(),
        collects(before, names, backends, i),
        before.names.contains(names[i]),
    ensures
        names.subrange(0, i).contains(names[i]),
        !names.no_duplicates(),
{
    let q = choose|q: int| 0 <= q < before.names.len() && before.names[q] == names[i];
    assert(names.subrange(0, i).contains(before.names[q]));
    let j = choose|j: int| 0 <= j < i && names.subrange(0, i)[j] == names[i];
    assert(names[j] == names[i]);
}

proof fn lemma_build_step<B>(
    names: Seq<Seq<char>>,
    backends: Seq<B>,
    i: int,
    before: EngineView<B>,
    after: EngineView<B>,
)
    requires
        0 <= i < names.len(),
        names.len() == backends.len(),
        before.wf(),
        collects(before, names, backends, i),
        before.register_outcome(names[i], backends[i], true, after),
    ensures
        collects(after, names, backends, i + 1),
{
    let p = choose|p: int|
        0 <= p <= before.names.len() && after.names == before.names.insert(p, names[i])
            && after.backends == before.backends.insert(p, backends[i]);
    before.names.insert_ensures(p, names[i]);
    before.backends.insert_ensures(p, backends[i]);
    lemma_build_entries(names, backends, i, before, after, p);
    lemma_build_members(names, backends, i, before, after, p);
    lemma_build_distinct(names, backends, i, before);
}

proof fn lemma_build_entries<B>(
    names: Seq<Seq<char>>,
    backends: Seq<B>,
    i: int,
    before: EngineView<B>,
    after: EngineView<B>,
    p: int,
)
    requires
        0 <= i < names.len(),
        names.len() == backends.len(),
        before.wf(),
        collects(before, names, backends, i),
        0 <= p <= before.names.len(),
        after.names == before.names.insert(p, names[i]),
        after.backends == before.backends.insert(p, backends[i]),
    ensures
        forall|k: int| 0 <= k < i + 1 ==> #[trigger] after.has_entry(names[k], backends[k]),
{
    before.names.insert_ensures(p, names[i]);
    before.backends.insert_ensures(p, backends[i]);
    assert forall|k: int| 0 <= k < i + 1 implies #[trigger] after.has_entry(names[k], backends[k]) by {
        if k == i {
            assert(after.names[p] == names[k] && after.backends[p] == backends[k]);
        } else {
            assert(before.has_entry(names[k], backends[k]));
            let q = choose|q: int|
                0 <= q < before.names.len() && before.names[q] == names[k] && before.backends[q]
                    == backends[k];
            if q < p {
                assert(after.names[q] == names[k] && after.backends[q] == backends[k]);
            } else {
                assert(after.names[q + 1] == names[k] && after.backends[q + 1] == backends[k]);
            }
        }
    }
}

proof fn lemma_build_members<B>(
    names: Seq<Seq<char>>,
    backends: Seq<B>,
    i: int,
    before: EngineView<B>,
    after: EngineView<B>,
    p: int,
)
    requires
        0 <= i < names.len(),
        collects(before, names, backends, i),
        0 <= p <= before.names.len(),
        after.names == before.names.insert(p, names[i]),
    ensures
        forall|q: int|
            0 <= q < after.names.len() ==> names.subrange(0, i + 1).contains(#[trigger] after.names[q]),
{
    before.names.insert_ensures(p, names[i]);
    let sub = names.subrange(0, i + 1);
    assert forall|q: int| 0 <= q < after.names.len() implies sub.contains(#[trigger] after.names[q]) by {
        if q == p {
            assert(sub[i] == names[i]);
        } else {
            let r = if q < p {
                q
            } else {
                q - 1
            };
            assert(after.names[q] == before.names[r]);
            assert(names.subrange(0, i).contains(before.names[r]));
            let j = choose|j: int| 0 <= j < i && names.subrange(0, i)[j] == before.names[r];
            assert(sub[j] == names.subrange(0, i)[j]);
        }
    }
}

proof fn lemma_build_distinct<B>(
    names: Seq<Seq<char>>,
    backends: Seq<B>,
    i: int,
    before: EngineView<B>,
)
    requires
        0 <= i < names.len(),
        names.len() == backends.len(),
        collects(before, names, backends, i),
        !before.names.contains(names[i]),
    ensures
        names.subrange(0, i + 1).no_duplicates(),
{
    let sub = names.subrange(0, i + 1);
    let prev = names.subrange(0, i);
    assert forall|a: int, b: int|
        0 <= a < sub.len() && 0 <= b < sub.len() && a != b implies #[trigger] sub[a]
            != #[trigger] sub[b] by {
        if a == i || b == i {
            let o = if a == i {
                b
            } else {
                a
            };
            assert(sub[o] == names[o]);
            assert(before.has_entry(names[o], backends[o]));
            if names[o] == names[i] {
                let q = choose|q: int|
                    0 <= q < before.names.len() && before.names[q] == names[o] && before.backends[q]
                        == backends[o];
                assert(before.names.contains(names[i]));
            }
        } else {
            assert(sub[a] == prev[a]);
            assert(sub[b] == prev[b]);
        }
    }
}

/// Registering a name a second time is refused and changes nothing: the
/// backend registered first stays under that name, and the name stays known.
pub proof fn lemma_second_registration_refused<B>(
    e0: EngineView<B>,
    m: Seq<char>,
    b1: B,
    e1: EngineView<B>,
    b2: B,
    ok2: bool,
    e2: EngineView<B>,
)
    requires
        e0.wf(),
        e0.register_outcome(m, b1, true, e1),
        e1.register_outcome(m, b2, ok2, e2),
    ensures
        !ok2,
        e2 == e1,
        e2.names.contains(m),
        exists|k: int| 0 <= k < e2.names.len() && e2.names[k] == m && e2.backends[k] == b1,
{
    let p = choose|p: int|
        0 <= p <= e0.names.len() && e1.names == e0.names.insert(p, m) && e1.backends
            == e0.backends.insert(p, b1);
    assert(e1.names[p] == m);
    assert(e1.backends[p] == b1);
    assert(e1.names.contains(m));
}

/// Output stamped with anything but the current generation is never accepted:
/// however much of it arrives, in whatever order, the state stays as it is.
pub proof fn lemma_foreign_stamps_ignored<B>(s: EngineView<B>, arrivals: Seq<(int, ResultView)>)
    requires
        forall|i: int| 0 <= i < arrivals.len() ==> (#[trigger] arrivals[i]).0 != s.generation,
    ensures
        s.deliver_all(arrivals) == s,
    decreases arrivals.len(),
{
    if arrivals.len() > 0 {
        let rest = arrivals.drop_last();
        assert forall|i: int| 0 <= i < rest.len() implies (#[trigger] rest[i]).0 != s.generation by {
            assert(rest[i] == arrivals[i]);
        }
        lemma_foreign_stamps_ignored(s, rest);
    }
}

/// After a reset, output stamped with any generation from before it is turned
/// away: however much of it still arrives, the inbox that `recv_any` drains
/// stays empty.
pub proof fn lemma_reset_detaches_earlier_output<B>(
    e: EngineView<B>,
    late: Seq<(int, ResultView)>,
)
    requires
        forall|i: int| 0 <= i < late.len() ==> (#[trigger] late[i]).0 <= e.generation,
    ensures
        e.reset().deliver_all(late) == e.reset(),
        e.reset().deliver_all(late).inbox.len() == 0,
{
    lemma_foreign_stamps_ignored(e.reset(), late);
}

} // verus!
