use vstd::prelude::*;
use crate::text::{concat, str_eq};

verus! {

/// What a node of a run works on.
pub struct NodeContext {
    pub run_id: String,
    pub event_id: String,
    /// The path of the file that the run handles.
    pub work_dir: String,
}

/// Something a node produced: a file (`kind` "file", with a path) or a link
/// (`kind` "link", with a URL).
pub struct Artifact {
    pub kind: String,
    pub path: Option<String>,
    pub url: Option<String>,
}

/// What a node hands back.
pub struct NodeOutput {
    pub artifacts: Vec<Artifact>,
}

/// A kind of workflow node. Each kind is known by a fixed name, which workflow
/// nodes give as their `node_type`.
pub trait NodeExecutor: Send + Sync {
    /// The name of this kind.
    spec fn kind_spec(&self) -> Seq<char>;

    fn kind(&self) -> (r: &'static str)
        ensures
            r@ == self.kind_spec(),
    ;
}

/// An executor registered under a name given with it: a node kind implemented
/// outside this library, such as one an application supplies.
pub struct NamedNode<T> {
    pub kind: &'static str,
    pub executor: T,
}

impl<T: Send + Sync> NodeExecutor for NamedNode<T> {
    open spec fn kind_spec(&self) -> Seq<char> {
        self.kind@
    }

    fn kind(&self) -> (r: &'static str) {
        self.kind
    }
}

/// The message for a node type that no executor serves.
pub open spec fn unknown_kind_message(kind: Seq<char>) -> Seq<char> {
    "unknown node type: "@ + kind
}

/// The first position at or after `k` of an executor of kind `kind` in `s`, or -1.
pub open spec fn find_kind_from<E: NodeExecutor>(s: Seq<E>, kind: Seq<char>, k: int) -> int
    decreases s.len() - k,
{
    if k < 0 || k >= s.len() {
        -1
    } else if s[k].kind_spec() == kind {
        k
    } else {
        find_kind_from(s, kind, k + 1)
    }
}

/// The position of the executor of kind `kind` in `s`, or -1.
pub open spec fn find_kind<E: NodeExecutor>(s: Seq<E>, kind: Seq<char>) -> int {
    find_kind_from(s, kind, 0)
}

/// No two executors of `s` share a kind.
pub open spec fn kinds_distinct<E: NodeExecutor>(s: Seq<E>) -> bool {
    forall|i: int, j: int|
        0 <= i < s.len() && 0 <= j < s.len() && i != j ==> #[trigger] s[i].kind_spec() != #[trigger] s[j].kind_spec()
}

/// `s` after registering `e`: `e` takes the place of the executor of its kind, or
/// comes last where there is none.
pub open spec fn registered<E: NodeExecutor>(s: Seq<E>, e: E) -> Seq<E> {
    let i = find_kind(s, e.kind_spec());
    if i >= 0 {
        s.update(i, e)
    } else {
        s.push(e)
    }
}

/// What `find_kind_from` finds.
pub proof fn lemma_find_kind_from<E: NodeExecutor>(s: Seq<E>, kind: Seq<char>, k: int)
    requires
        0 <= k,
    ensures
        -1 <= find_kind_from(s, kind, k) < s.len(),
        find_kind_from(s, kind, k) >= 0 ==> k <= find_kind_from(s, kind, k)
            && s[find_kind_from(s, kind, k)].kind_spec() == kind,
        find_kind_from(s, kind, k) >= 0 ==> forall|j: int| k <= j < find_kind_from(s, kind, k) ==> #[trigger] s[j].kind_spec() != kind,
        find_kind_from(s, kind, k) < 0 ==> forall|j: int| k <= j < s.len() ==> #[trigger] s[j].kind_spec() != kind,
    decreases s.len() - k,
{
    if k < s.len() && s[k].kind_spec() != kind {
        lemma_find_kind_from(s, kind, k + 1);
    }
}

/// Registering keeps the kinds distinct.
pub proof fn lemma_registered_distinct<E: NodeExecutor>(s: Seq<E>, e: E)
    requires
        kinds_distinct(s),
    ensures
        kinds_distinct(registered(s, e)),
{
    lemma_find_kind_from(s, e.kind_spec(), 0);
    let i = find_kind(s, e.kind_spec());
    let u = registered(s, e);
    if i >= 0 {
        assert forall|a: int, b: int| 0 <= a < u.len() && 0 <= b < u.len() && a != b implies
            #[trigger] u[a].kind_spec() != #[trigger] u[b].kind_spec() by {
            assert(u[a].kind_spec() == s[a].kind_spec());
            assert(u[b].kind_spec() == s[b].kind_spec());
        }
    } else {
        assert forall|a: int, b: int| 0 <= a < u.len() && 0 <= b < u.len() && a != b implies
            #[trigger] u[a].kind_spec() != #[trigger] u[b].kind_spec() by {
            if a < s.len() && b < s.len() {
                assert(u[a] == s[a] && u[b] == s[b]);
            } else if a < s.len() {
                assert(u[a] == s[a]);
            } else {
                assert(u[b] == s[b]);
            }
        }
    }
}

/// After registering `e`, `e` is the executor found for its kind: a lookup of a kind
/// gives back what was last registered for it.
pub proof fn law_registered_executor_found<E: NodeExecutor>(s: Seq<E>, e: E)
    ensures
        find_kind(registered(s, e), e.kind_spec()) >= 0,
        registered(s, e)[find_kind(registered(s, e), e.kind_spec())] == e,
{
    let k = e.kind_spec();
    lemma_find_kind_from(s, k, 0);
    let i = find_kind(s, k);
    let u = registered(s, e);
    let p = if i >= 0 { i } else { s.len() as int };
    assert(u[p] == e);
    lemma_find_kind_from(u, k, 0);
    let j = find_kind(u, k);
    if j < 0 {
        assert(u[p].kind_spec() != k);
    }
    if j < p {
        assert(u[j] == s[j]);
    }
    if j > p {
        assert(u[p].kind_spec() != k);
    }
}

/// The executors that a workflow run can call, by kind.
pub struct NodeRegistry<E: NodeExecutor> {
    executors: Vec<E>,
}

impl<E: NodeExecutor> NodeRegistry<E> {
    #[verifier::type_invariant]
    spec fn inv(self) -> bool {
        kinds_distinct(self.executors@)
    }

    /// The registered executors, in the order their kinds were first registered.
    pub closed spec fn view(&self) -> Seq<E> {
        self.executors@
    }

    /// An empty registry.
    pub fn new() -> (r: Self)
        ensures
            r.view() == Seq::<E>::empty(),
    {
        NodeRegistry { executors: Vec::new() }
    }

    fn position(&self, kind: &str) -> (r: Option<usize>)
        ensures
            match r {
                Some(i) => i as int == find_kind(self.executors@, kind@),
                None => find_kind(self.executors@, kind@) == -1,
            },
            -1 <= find_kind(self.executors@, kind@) < self.executors@.len(),
    {
        proof {
            lemma_find_kind_from(self.executors@, kind@, 0);
        }
        let mut i: usize = 0;
        while i < self.executors.len()
            invariant
                i <= self.executors@.len(),
                forall|j: int| 0 <= j < i ==> #[trigger] self.executors@[j].kind_spec() != kind@,
                -1 <= find_kind(self.executors@, kind@) < self.executors@.len(),
                find_kind(self.executors@, kind@) >= 0 ==> self.executors@[find_kind(self.executors@, kind@)].kind_spec() == kind@,
                find_kind(self.executors@, kind@) >= 0 ==> forall|j: int| 0 <= j < find_kind(self.executors@, kind@) ==> #[trigger] self.executors@[j].kind_spec() != kind@,
                find_kind(self.executors@, kind@) < 0 ==> forall|j: int| 0 <= j < self.executors@.len() ==> #[trigger] self.executors@[j].kind_spec() != kind@,
            decreases self.executors@.len() - i,
        {
            if str_eq(self.executors[i].kind(), kind) {
                return Some(i);
            }
            i += 1;
        }
        None
    }

    /// Makes `executor` the one for its kind, in place of any registered before.
    pub fn register(&mut self, executor: E)
        ensures
            final(self).view() == registered(old(self).view(), executor),
    {
        proof {
            use_type_invariant(&*self);
            lemma_registered_distinct(self.executors@, executor);
        }
        let kind = executor.kind();
        let pos = self.position(kind);
        let mut items = Vec::new();
        std::mem::swap(&mut items, &mut self.executors);
        match pos {
            Some(i) => {
                items.set(i, executor);
            },
            None => {
                items.push(executor);
            },
        }
        self.executors = items;
    }

    /// The executor registered for `kind`; an error naming the kind where there is none.
    pub fn get(&self, kind: &str) -> (r: Result<&E, String>)
        ensures
            match r {
                Ok(e) => 0 <= find_kind(self.view(), kind@) < self.view().len()
                    && *e == self.view()[find_kind(self.view(), kind@)],
                Err(msg) => find_kind(self.view(), kind@) == -1 && msg@ == unknown_kind_message(kind@),
            },
    {
        match self.position(kind) {
            Some(i) => Ok(&self.executors[i]),
            None => Err(concat("unknown node type: ", kind)),
        }
    }
}

impl<E: NodeExecutor> Default for NodeRegistry<E> {
    fn default() -> (r: Self)
        ensures
            r.view() == Seq::<E>::empty(),
    {
        NodeRegistry::new()
    }
}

} // verus!
