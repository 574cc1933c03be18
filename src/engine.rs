//! The query engine: memoized derivations over input cells, with the
//! dependency edges each derivation read on its last evaluation, revision
//! counting, early cutoff and cycle detection.
//!
//! The engine decides; its driver evaluates. To demand a node the driver asks
//! `step`. On `Fresh` the memo holds the current value. On `Validate` it
//! demands every recorded dependency and then calls `validate`, and evaluates
//! the node when that refuses. To evaluate, it calls `enter`, computes the
//! value while reporting each node it reads with `record`, and hands the value
//! to `exit`.

use vstd::prelude::*;
use crate::article::{Metadata, MetadataView, texts_equal, texts_view};

verus! {

/// The value of an input cell or of a derivation.
pub enum Value {
    Bytes(Vec<u8>),
    Texts(Vec<String>),
    Article(String, Metadata),
}

pub enum ValueView {
    Bytes(Seq<u8>),
    Texts(Seq<Seq<char>>),
    Article(Seq<char>, MetadataView),
}

impl View for Value {
    type V = ValueView;

    open spec fn view(&self) -> ValueView {
        match self {
            Value::Bytes(b) => ValueView::Bytes(b@),
            Value::Texts(t) => ValueView::Texts(texts_view(t@)),
            Value::Article(h, m) => ValueView::Article(h@, m@),
        }
    }
}

/// Compares two byte strings.
pub fn bytes_equal(a: &Vec<u8>, b: &Vec<u8>) -> (r: bool)
    ensures
        r == (a@ == b@),
{
    if a.len() != b.len() {
        return false;
    }
    let mut i: usize = 0;
    while i < a.len()
        invariant
            a.len() == b.len(),
            i <= a.len(),
            forall|j: int| 0 <= j < i ==> a@[j] == b@[j],
        decreases a.len() - i,
    {
        if a[i] != b[i] {
            return false;
        }
        i = i + 1;
    }
    assert(a@ =~= b@);
    true
}

impl Value {
    /// Whether the two values are the same, which is what early cutoff asks.
    pub fn same(&self, other: &Value) -> (r: bool)
        ensures
            r == (self@ == other@),
    {
        match (self, other) {
            (Value::Bytes(a), Value::Bytes(b)) => bytes_equal(a, b),
            (Value::Texts(a), Value::Texts(b)) => texts_equal(a, b),
            (Value::Article(h1, m1), Value::Article(h2, m2)) => *h1 == *h2 && m1.same(m2),
            _ => false,
        }
    }
}

/// One node of the graph: an input cell, or a derivation with its memo.
pub struct Node {
    pub is_input: bool,
    pub value: Option<Value>,
    pub changed_at: u64,
    pub verified_at: u64,
    pub deps: Vec<usize>,
}

pub struct NodeModel {
    pub is_input: bool,
    pub value: Option<ValueView>,
    pub changed_at: nat,
    pub verified_at: nat,
    pub deps: Seq<usize>,
}

pub open spec fn node_model(n: Node) -> NodeModel {
    NodeModel {
        is_input: n.is_input,
        value: match n.value {
            Some(v) => Some(v@),
            None => None,
        },
        changed_at: n.changed_at as nat,
        verified_at: n.verified_at as nat,
        deps: n.deps@,
    }
}

/// The engine as its contracts see it: the current revision, the nodes, and
/// the evaluations in progress (innermost last) with what each has read.
pub struct EngineModel {
    pub revision: nat,
    pub nodes: Seq<NodeModel>,
    pub active: Seq<usize>,
    pub reads: Seq<Seq<usize>>,
}

/// What the driver must do to obtain a node's value.
#[derive(Clone, Copy, Debug, PartialEq, Eq, Structural)]
pub enum Step {
    /// The node is being evaluated already: demanding it again would require
    /// its own result.
    Cycle,
    /// The memo holds the value for the current revision.
    Fresh,
    /// The memo is older than the revision: check its dependencies.
    Validate,
    /// The node was never evaluated.
    Execute,
}

#[derive(Clone, Copy, Debug, PartialEq, Eq, Structural)]
pub enum EngineError {
    /// A node asked for its own in-progress result.
    Cycle,
    /// `exit` named a node other than the innermost evaluation, or an input.
    NotActive,
    /// An input operation named a derivation, or a node that does not exist.
    NotAnInput,
    /// The revision counter is exhausted.
    RevisionOverflow,
}

impl EngineModel {
    pub open spec fn wf(self) -> bool {
        &&& self.active.len() == self.reads.len()
        &&& self.active.no_duplicates()
        &&& forall|i: int| 0 <= i < self.active.len() ==> self.active[i] < self.nodes.len()
        &&& forall|i: int, j: int|
            0 <= i < self.reads.len() && 0 <= j < self.reads[i].len() ==> self.reads[i][j]
                < self.nodes.len()
        &&& forall|k: int| 0 <= k < self.nodes.len() ==> self.node_wf(#[trigger] self.nodes[k])
    }

    pub open spec fn node_wf(self, n: NodeModel) -> bool {
        &&& n.changed_at <= n.verified_at <= self.revision
        &&& n.is_input ==> n.value is Some && n.deps.len() == 0
        &&& forall|j: int| 0 <= j < n.deps.len() ==> n.deps[j] < self.nodes.len()
    }

    pub open spec fn step_of(self, id: usize) -> Step {
        let n = self.nodes[id as int];
        if self.active.contains(id) {
            Step::Cycle
        } else if n.value is None {
            Step::Execute
        } else if n.is_input || n.verified_at == self.revision {
            Step::Fresh
        } else {
            Step::Validate
        }
    }

    /// Every recorded dependency of `id` still has the value it had when `id`
    /// was last verified.
    pub open spec fn deps_unchanged(self, id: usize) -> bool {
        let n = self.nodes[id as int];
        forall|j: int|
            0 <= j < n.deps.len() ==> #[trigger] self.nodes[n.deps[j] as int].changed_at
                <= n.verified_at
    }

    /// Node `d` holds its value for the current revision.
    pub open spec fn is_current(self, d: usize) -> bool {
        let n = self.nodes[d as int];
        n.value is Some && (n.is_input || n.verified_at == self.revision)
    }

    pub open spec fn deps_current(self, id: usize) -> bool {
        let n = self.nodes[id as int];
        forall|j: int| 0 <= j < n.deps.len() ==> #[trigger] self.is_current(n.deps[j])
    }

    pub open spec fn can_validate(self, id: usize) -> bool {
        &&& self.nodes[id as int].value is Some
        &&& !self.active.contains(id)
        &&& self.deps_current(id)
        &&& self.deps_unchanged(id)
    }

    /// The graph after a new input cell holding `v` was added.
    pub open spec fn after_add_input(self, v: ValueView) -> EngineModel {
        EngineModel {
            nodes: self.nodes.push(
                NodeModel {
                    is_input: true,
                    value: Some(v),
                    changed_at: self.revision,
                    verified_at: self.revision,
                    deps: Seq::empty(),
                },
            ),
            ..self
        }
    }

    pub open spec fn after_validate(self, id: usize) -> EngineModel {
        EngineModel {
            nodes: self.nodes.update(
                id as int,
                NodeModel { verified_at: self.revision, ..self.nodes[id as int] },
            ),
            ..self
        }
    }

    pub open spec fn after_enter(self, id: usize) -> EngineModel {
        EngineModel {
            active: self.active.push(id),
            reads: self.reads.push(Seq::empty()),
            ..self
        }
    }

    pub open spec fn after_record(self, d: usize) -> EngineModel {
        if self.reads.len() == 0 {
            self
        } else {
            EngineModel {
                reads: self.reads.update(
                    self.reads.len() - 1,
                    self.reads.last().push(d),
                ),
                ..self
            }
        }
    }

    pub open spec fn can_exit(self, id: usize) -> bool {
        self.active.len() > 0 && self.active.last() == id && !self.nodes[id as int].is_input
    }

    /// The memo after evaluation of `id` gave `v`: the value changed at this
    /// revision unless it equals the previous one (early cutoff).
    pub open spec fn after_exit(self, id: usize, v: ValueView) -> EngineModel {
        let old_node = self.nodes[id as int];
        let changed_at = if old_node.value == Some(v) {
            old_node.changed_at
        } else {
            self.revision
        };
        EngineModel {
            nodes: self.nodes.update(
                id as int,
                NodeModel {
                    is_input: old_node.is_input,
                    value: Some(v),
                    changed_at,
                    verified_at: self.revision,
                    deps: self.reads.last(),
                },
            ),
            active: self.active.drop_last(),
            reads: self.reads.drop_last(),
            ..self
        }
    }

    /// The store after the content of input `id` was replaced by `v`: the
    /// revision advances, and nothing is recomputed.
    pub open spec fn after_set_input(self, id: usize, v: ValueView) -> EngineModel {
        let r = self.revision + 1;
        EngineModel {
            revision: r,
            nodes: self.nodes.update(
                id as int,
                NodeModel {
                    is_input: true,
                    value: Some(v),
                    changed_at: r,
                    verified_at: r,
                    deps: Seq::empty(),
                },
            ),
            ..self
        }
    }
}


/// Rerunning without input changes: a derivation that was just evaluated or
/// validated is served from its memo at every later demand until an input
/// is replaced, so nothing it guards (an output write) runs again.
pub proof fn lemma_rerun_is_fresh(m: EngineModel, id: usize, v: ValueView)
    requires
        m.wf(),
        id < m.nodes.len(),
    ensures
        m.can_exit(id) ==> m.after_exit(id, v).step_of(id) == Step::Fresh,
        m.can_validate(id) ==> m.after_validate(id).step_of(id) == Step::Fresh,
{
    if m.can_exit(id) {
        let e = m.after_exit(id, v);
        let last = m.active.len() - 1;
        if e.active.contains(id) {
            let i = choose|i: int| 0 <= i < e.active.len() && e.active[i] == id;
            assert(m.active[i] == m.active[last]);
        }
    }
}

/// Early cutoff: when a derivation is evaluated again and yields the value
/// it held before, it keeps the revision at which it last changed, so a
/// dependent whose dependencies were unchanged still finds them unchanged
/// and is not recomputed.
pub proof fn lemma_early_cutoff(m: EngineModel, a: usize, v: ValueView, t: usize)
    requires
        m.wf(),
        m.can_exit(a),
        m.nodes[a as int].value == Some(v),
        t < m.nodes.len(),
        t != a,
        m.deps_unchanged(t),
    ensures
        m.after_exit(a, v).nodes[a as int].changed_at == m.nodes[a as int].changed_at,
        m.after_exit(a, v).deps_unchanged(t),
{
    let e = m.after_exit(a, v);
    assert forall|j: int| 0 <= j < e.nodes[t as int].deps.len() implies #[trigger] e.nodes[e.nodes[
        t as int].deps[j] as int].changed_at <= e.nodes[t as int].verified_at by {
        assert(m.nodes[m.nodes[t as int].deps[j] as int].changed_at
            <= m.nodes[t as int].verified_at);
    }
}

/// Dependency minimality: replacing an input that a derivation did not
/// read leaves its recorded dependencies exactly as unchanged as before.
pub proof fn lemma_unrelated_input(m: EngineModel, x: usize, v: ValueView, t: usize)
    requires
        m.wf(),
        x < m.nodes.len(),
        m.nodes[x as int].is_input,
        t < m.nodes.len(),
        t != x,
        !m.nodes[t as int].deps.contains(x),
    ensures
        m.after_set_input(x, v).deps_unchanged(t) == m.deps_unchanged(t),
{
    let e = m.after_set_input(x, v);
    assert(m.node_wf(m.nodes[t as int]));
    assert forall|j: int| 0 <= j < m.nodes[t as int].deps.len() implies #[trigger] e.nodes[
        m.nodes[t as int].deps[j] as int].changed_at == m.nodes[m.nodes[
        t as int].deps[j] as int].changed_at by {
        assert(m.nodes[t as int].deps[j] != x);
    }
    assert(e.nodes[t as int] == m.nodes[t as int]);
    if m.deps_unchanged(t) {
        assert forall|j: int| 0 <= j < e.nodes[t as int].deps.len() implies #[trigger] e.nodes[
            e.nodes[t as int].deps[j] as int].changed_at <= e.nodes[t as int].verified_at by {
            assert(m.nodes[m.nodes[t as int].deps[j] as int].changed_at
                <= m.nodes[t as int].verified_at);
        }
    }
    if e.deps_unchanged(t) {
        assert forall|j: int| 0 <= j < m.nodes[t as int].deps.len() implies #[trigger] m.nodes[
            m.nodes[t as int].deps[j] as int].changed_at <= m.nodes[t as int].verified_at by {
            assert(e.nodes[e.nodes[t as int].deps[j] as int].changed_at
                <= e.nodes[t as int].verified_at);
        }
    }
}

/// No stale value: once an input that a derivation read is replaced, the
/// derivation's memo is no longer served as it stands; its dependencies are
/// found changed and it must be evaluated again.
pub proof fn lemma_changed_input_invalidates(m: EngineModel, x: usize, v: ValueView, t: usize)
    requires
        m.wf(),
        x < m.nodes.len(),
        m.nodes[x as int].is_input,
        t < m.nodes.len(),
        m.nodes[t as int].deps.contains(x),
    ensures
        !m.after_set_input(x, v).deps_unchanged(t),
        !m.after_set_input(x, v).can_validate(t),
        m.after_set_input(x, v).step_of(t) != Step::Fresh,
{
    let e = m.after_set_input(x, v);
    assert(m.node_wf(m.nodes[t as int]));
    assert(m.node_wf(m.nodes[x as int]));
    let j = choose|j: int| 0 <= j < m.nodes[t as int].deps.len() && m.nodes[t as int].deps[j] == x;
    assert(e.nodes[e.nodes[t as int].deps[j] as int].changed_at > e.nodes[t as int].verified_at);
}

/// The memo tables and the evaluation stack of one build graph.
pub struct Engine {
    nodes: Vec<Node>,
    revision: u64,
    active: Vec<usize>,
    reads: Vec<Vec<usize>>,
}

impl View for Engine {
    type V = EngineModel;

    closed spec fn view(&self) -> EngineModel {
        EngineModel {
            revision: self.revision as nat,
            nodes: self.nodes@.map_values(|n: Node| node_model(n)),
            active: self.active@,
            reads: self.reads@.map_values(|r: Vec<usize>| r@),
        }
    }
}

impl Engine {
    pub fn new() -> (r: Engine)
        ensures
            r@.wf(),
            r@.revision == 0,
            r@.nodes.len() == 0,
            r@.active.len() == 0,
    {
        let r = Engine { nodes: Vec::new(), revision: 0, active: Vec::new(), reads: Vec::new() };
        assert(r@.nodes =~= Seq::<NodeModel>::empty());
        assert(r@.reads =~= Seq::<Seq<usize>>::empty());
        r
    }

    pub fn revision(&self) -> (r: u64)
        ensures
            r == self@.revision,
    {
        self.revision
    }

    pub fn len(&self) -> (r: usize)
        ensures
            r == self@.nodes.len(),
    {
        self.nodes.len()
    }

    /// Adds an input cell holding `v`.
    pub fn add_input(&mut self, v: Value) -> (id: usize)
        requires
            old(self)@.wf(),
        ensures
            final(self)@.wf(),
            id == old(self)@.nodes.len(),
            final(self)@ == old(self)@.after_add_input(v@),
    {
        let id = self.nodes.len();
        let ghost vv = v@;
        self.nodes.push(
            Node {
                is_input: true,
                value: Some(v),
                changed_at: self.revision,
                verified_at: self.revision,
                deps: Vec::new(),
            },
        );
        proof {
            let m = self@;
            let o = old(self)@;
            assert(m.nodes =~= o.nodes.push(
                NodeModel {
                    is_input: true,
                    value: Some(vv),
                    changed_at: o.revision,
                    verified_at: o.revision,
                    deps: Seq::empty(),
                },
            ));
            assert forall|k: int| 0 <= k < m.nodes.len() implies m.node_wf(#[trigger] m.nodes[k]) by {
                if k < o.nodes.len() {
                    assert(o.node_wf(o.nodes[k]));
                }
            }
        }
        id
    }

    /// Adds a derivation that was never evaluated.
    pub fn add_query(&mut self) -> (id: usize)
        requires
            old(self)@.wf(),
        ensures
            final(self)@.wf(),
            id == old(self)@.nodes.len(),
            final(self)@ == (EngineModel {
                nodes: old(self)@.nodes.push(
                    NodeModel {
                        is_input: false,
                        value: None,
                        changed_at: 0,
                        verified_at: 0,
                        deps: Seq::empty(),
                    },
                ),
                ..old(self)@
            }),
    {
        let id = self.nodes.len();
        self.nodes.push(
            Node { is_input: false, value: None, changed_at: 0, verified_at: 0, deps: Vec::new() },
        );
        proof {
            let m = self@;
            let o = old(self)@;
            assert(m.nodes =~= o.nodes.push(
                NodeModel {
                    is_input: false,
                    value: None,
                    changed_at: 0,
                    verified_at: 0,
                    deps: Seq::empty(),
                },
            ));
            assert forall|k: int| 0 <= k < m.nodes.len() implies m.node_wf(#[trigger] m.nodes[k]) by {
                if k < o.nodes.len() {
                    assert(o.node_wf(o.nodes[k]));
                }
            }
        }
        id
    }

    /// The memoized value of `id`, if it was ever computed.
    pub fn value(&self, id: usize) -> (r: Option<&Value>)
        requires
            id < self@.nodes.len(),
        ensures
            match r {
                Some(v) => self@.nodes[id as int].value == Some(v@),
                None => self@.nodes[id as int].value is None,
            },
    {
        match &self.nodes[id].value {
            Some(v) => Some(v),
            None => None,
        }
    }

    /// The dependencies recorded at the last evaluation of `id`.
    pub fn deps(&self, id: usize) -> (r: &Vec<usize>)
        requires
            id < self@.nodes.len(),
        ensures
            r@ == self@.nodes[id as int].deps,
    {
        &self.nodes[id].deps
    }


    fn active_contains(&self, id: usize) -> (r: bool)
        ensures
            r == self@.active.contains(id),
    {
        let mut i: usize = 0;
        while i < self.active.len()
            invariant
                i <= self.active@.len(),
                forall|j: int| 0 <= j < i ==> self.active@[j] != id,
            decreases self.active.len() - i,
        {
            if self.active[i] == id {
                return true;
            }
            i = i + 1;
        }
        false
    }

    /// Marks the memo of `id` as valid at the current revision when every
    /// recorded dependency is current and unchanged since `id` was last
    /// verified; otherwise changes nothing and refuses, and `id` must be
    /// evaluated again.
    pub fn validate(&mut self, id: usize) -> (r: bool)
        requires
            old(self)@.wf(),
            id < old(self)@.nodes.len(),
        ensures
            final(self)@.wf(),
            r == old(self)@.can_validate(id),
            final(self)@ == (if r {
                old(self)@.after_validate(id)
            } else {
                old(self)@
            }),
    {
        if self.nodes[id].value.is_none() || self.active_contains(id) {
            return false;
        }
        let verified_at = self.nodes[id].verified_at;
        let n = self.deps(id).len();
        let ghost m = self@;
        let mut j: usize = 0;
        while j < n
            invariant
                self@ == m,
                m.wf(),
                id < m.nodes.len(),
                n == m.nodes[id as int].deps.len(),
                verified_at == m.nodes[id as int].verified_at,
                j <= n,
                forall|k: int| 0 <= k < j ==> #[trigger] m.is_current(m.nodes[id as int].deps[k]),
                forall|k: int|
                    0 <= k < j ==> #[trigger] m.nodes[m.nodes[id as int].deps[k] as int].changed_at
                        <= verified_at,
            decreases n - j,
        {
            let d = self.nodes[id].deps[j];
            proof {
                assert(m.node_wf(m.nodes[id as int]));
            }
            let dn = &self.nodes[d];
            if dn.value.is_none() || (!dn.is_input && dn.verified_at != self.revision) {
                assert(!m.is_current(m.nodes[id as int].deps[j as int]));
                return false;
            }
            if dn.changed_at > verified_at {
                assert(!m.deps_unchanged(id));
                return false;
            }
            j = j + 1;
        }
        let rev = self.revision;
        self.nodes[id].verified_at = rev;
        proof {
            let o = old(self)@;
            let f = self@;
            assert(f.nodes =~= o.after_validate(id).nodes);
            assert forall|k: int| 0 <= k < f.nodes.len() implies f.node_wf(#[trigger] f.nodes[k]) by {
                assert(o.node_wf(o.nodes[k]));
            }
        }
        true
    }


    /// Opens the evaluation of `id`, refusing when `id` is being evaluated
    /// already, since it would then require its own in-progress result.
    pub fn enter(&mut self, id: usize) -> (r: Result<(), EngineError>)
        requires
            old(self)@.wf(),
            id < old(self)@.nodes.len(),
        ensures
            final(self)@.wf(),
            r is Err <==> old(self)@.active.contains(id),
            r is Err ==> r == Err::<(), EngineError>(EngineError::Cycle) && final(self)@ == old(
                self,
            )@,
            r is Ok ==> final(self)@ == old(self)@.after_enter(id),
    {
        if self.active_contains(id) {
            return Err(EngineError::Cycle);
        }
        self.active.push(id);
        self.reads.push(Vec::new());
        proof {
            let o = old(self)@;
            let f = self@;
            assert(f.reads =~= o.after_enter(id).reads);
            assert(f.active =~= o.after_enter(id).active);
            assert forall|i: int, j: int|
                0 <= i < f.reads.len() && 0 <= j < f.reads[i].len() implies f.reads[i][j]
                < f.nodes.len() by {
                if i < o.reads.len() {
                    assert(f.reads[i] == o.reads[i]);
                }
            }
            assert forall|k: int| 0 <= k < f.nodes.len() implies f.node_wf(#[trigger] f.nodes[k]) by {
                assert(o.node_wf(o.nodes[k]));
            }
        }
        Ok(())
    }

    /// Records that the innermost evaluation read node `d`.
    pub fn record(&mut self, d: usize)
        requires
            old(self)@.wf(),
            d < old(self)@.nodes.len(),
        ensures
            final(self)@.wf(),
            final(self)@ == old(self)@.after_record(d),
    {
        let n = self.reads.len();
        if n > 0 {
            let mut top = self.reads.pop().unwrap();
            top.push(d);
            self.reads.push(top);
            proof {
                let o = old(self)@;
                let f = self@;
                assert(f.reads =~= o.after_record(d).reads);
                assert forall|i: int, j: int|
                    0 <= i < f.reads.len() && 0 <= j < f.reads[i].len() implies f.reads[i][j]
                    < f.nodes.len() by {
                    if i < o.reads.len() - 1 {
                        assert(f.reads[i] == o.reads[i]);
                    } else if j < o.reads[i].len() {
                        assert(f.reads[i][j] == o.reads[i][j]);
                    }
                }
                assert forall|k: int| 0 <= k < f.nodes.len() implies f.node_wf(#[trigger] f.nodes[k]) by {
                    assert(o.node_wf(o.nodes[k]));
                }
            }
        }
    }

    /// Closes the innermost evaluation, of `id`, which produced `v`: the
    /// reads it recorded become its dependencies, and it counts as changed
    /// at this revision only if `v` differs from its previous value.
    pub fn exit(&mut self, id: usize, v: Value) -> (r: Result<(), EngineError>)
        requires
            old(self)@.wf(),
        ensures
            final(self)@.wf(),
            r is Ok <==> old(self)@.can_exit(id),
            r is Err ==> r == Err::<(), EngineError>(EngineError::NotActive) && final(self)@
                == old(self)@,
            r is Ok ==> final(self)@ == old(self)@.after_exit(id, v@),
    {
        let n = self.active.len();
        if n == 0 || self.active[n - 1] != id || self.nodes[id].is_input {
            return Err(EngineError::NotActive);
        }
        let ghost o = self@;
        let ghost vv = v@;
        proof {
            assert(o.active[o.active.len() - 1] == id);
            assert(forall|k: int| 0 <= k < o.nodes.len() ==> o.node_wf(#[trigger] o.nodes[k]));
        }
        self.active.pop();
        let deps = self.reads.pop().unwrap();
        let unchanged = match &self.nodes[id].value {
            Some(old_value) => old_value.same(&v),
            None => false,
        };
        let rev = self.revision;
        if !unchanged {
            self.nodes[id].changed_at = rev;
        }
        self.nodes[id].verified_at = rev;
        self.nodes[id].value = Some(v);
        self.nodes[id].deps = deps;
        proof {
            let f = self@;
            let e = o.after_exit(id, vv);
            assert(f.active =~= e.active);
            assert(f.reads =~= e.reads);
            assert(f.nodes[id as int] == e.nodes[id as int]);
            assert(f.nodes =~= e.nodes);
            assert forall|i: int, j: int|
                0 <= i < f.reads.len() && 0 <= j < f.reads[i].len() implies f.reads[i][j]
                < f.nodes.len() by {
                assert(f.reads[i] == o.reads[i]);
            }
            assert forall|i: int| 0 <= i < f.active.len() implies f.active[i] < f.nodes.len() by {
                assert(f.active[i] == o.active[i]);
            }
            assert forall|k: int| 0 <= k < f.nodes.len() implies f.node_wf(#[trigger] f.nodes[k]) by {
                assert(o.node_wf(o.nodes[k]));
                if k == id {
                    assert forall|j: int| 0 <= j < f.nodes[k].deps.len() implies f.nodes[k].deps[j]
                        < f.nodes.len() by {
                        assert(f.nodes[k].deps == o.reads[o.reads.len() - 1]);
                    }
                }
            }
            assert(f.active.no_duplicates());
        }
        Ok(())
    }

    /// Replaces the content of input `id` by `v`, advancing the revision.
    /// Nothing is recomputed; only what later validations find changes.
    pub fn set_input(&mut self, id: usize, v: Value) -> (r: Result<(), EngineError>)
        requires
            old(self)@.wf(),
        ensures
            final(self)@.wf(),
            r == (if id >= old(self)@.nodes.len() || !old(self)@.nodes[id as int].is_input {
                Err::<(), EngineError>(EngineError::NotAnInput)
            } else if old(self)@.revision >= u64::MAX {
                Err(EngineError::RevisionOverflow)
            } else {
                Ok(())
            }),
            r is Err ==> final(self)@ == old(self)@,
            r is Ok ==> final(self)@ == old(self)@.after_set_input(id, v@),
    {
        if id >= self.nodes.len() || !self.nodes[id].is_input {
            return Err(EngineError::NotAnInput);
        }
        if self.revision == u64::MAX {
            return Err(EngineError::RevisionOverflow);
        }
        let ghost o = self@;
        let ghost vv = v@;
        self.revision = self.revision + 1;
        let rev = self.revision;
        self.nodes[id].value = Some(v);
        self.nodes[id].changed_at = rev;
        self.nodes[id].verified_at = rev;
        self.nodes[id].deps = Vec::new();
        proof {
            let f = self@;
            let e = o.after_set_input(id, vv);
            assert(f.nodes[id as int] == e.nodes[id as int]);
            assert(f.nodes =~= e.nodes);
            assert forall|k: int| 0 <= k < f.nodes.len() implies f.node_wf(#[trigger] f.nodes[k]) by {
                assert(o.node_wf(o.nodes[k]));
            }
        }
        Ok(())
    }

    /// What the driver must do to obtain the value of `id`.
    pub fn step(&self, id: usize) -> (r: Step)
        requires
            id < self@.nodes.len(),
        ensures
            r == self@.step_of(id),
    {
        let mut i: usize = 0;
        while i < self.active.len()
            invariant
                i <= self.active@.len(),
                forall|j: int| 0 <= j < i ==> self.active@[j] != id,
            decreases self.active.len() - i,
        {
            if self.active[i] == id {
                return Step::Cycle;
            }
            i = i + 1;
        }
        let n = &self.nodes[id];
        match n.value {
            None => Step::Execute,
            Some(_) => {
                if n.is_input || n.verified_at == self.revision {
                    Step::Fresh
                } else {
                    Step::Validate
                }
            },
        }
    }
}

} // verus!
