//! The value renderer.
//!
//! A `Reflector` walks a value into a `NodeTree`, collapsing repeated
//! visits to the same shared cell into `Repeated` markers (which breaks
//! cycles) and cutting the walk short with `Limited` markers once a
//! per-query render budget is spent.

use vstd::prelude::*;

use crate::access::{
    render_leaf, Graph, LockKind, LockState, StructValue, Value,
};
use crate::node_tree::{NodeInfo, NodeTree, Wrap};

verus! {

broadcast use vstd::std_specs::vec::group_vec_axioms;

/// Renders values into node trees, spending a shared budget and keeping
/// the identities of the shared cells already visited.
pub struct Reflector {
    limit: usize,
    used: usize,
    seen: Vec<usize>,
}

/// The identities in `seen` are distinct cells of the graph.
pub open spec fn seen_wf(seen: Seq<usize>, g: Graph) -> bool {
    &&& forall|i: int| 0 <= i < seen.len() ==> (#[trigger] seen[i]) < g.cells@.len()
    &&& forall|i: int, j: int| 0 <= i < j < seen.len() ==> seen[i] != seen[j]
}

impl Reflector {
    /// The render budget.
    pub closed spec fn spec_limit(self) -> usize {
        self.limit
    }

    /// How much of the budget is spent.
    pub closed spec fn spec_used(self) -> usize {
        self.used
    }

    /// The cells already rendered once.
    pub closed spec fn spec_seen(self) -> Seq<usize> {
        self.seen@
    }

    /// The budget is never overspent.
    pub open spec fn wf(self) -> bool {
        self.spec_used() <= self.spec_limit()
    }

    /// A fresh reflector with the given budget.
    pub fn new(limit: usize) -> (r: Self)
        ensures
            r.spec_limit() == limit,
            r.spec_used() == 0,
            r.spec_seen() =~= Seq::<usize>::empty(),
            r.wf(),
    {
        Self { limit, used: 0, seen: Vec::new() }
    }

    /// Spend one unit of budget, never exceeding the limit.
    fn spend(&mut self)
        requires
            old(self).wf(),
        ensures
            final(self).wf(),
            final(self).spec_limit() == old(self).spec_limit(),
            final(self).spec_seen() == old(self).spec_seen(),
            old(self).spec_used() < old(self).spec_limit() ==> final(self).spec_used() == old(
                self,
            ).spec_used() + 1,
            final(self).spec_used() >= old(self).spec_used(),
    {
        if self.used < self.limit {
            self.used = self.used + 1;
        }
    }

    /// Whether the budget is spent.
    fn exhausted(&self) -> (r: bool)
        ensures
            r == (self.spec_limit() <= self.spec_used()),
    {
        self.limit <= self.used
    }

    /// Look up a shared cell's identity.  A cell seen before yields a
    /// `Repeated` marker wearing the cell's tag; a fresh cell is recorded
    /// and handed back for a full rendering.
    #[verifier::loop_isolation(false)]
    pub fn seen_ptr(&mut self, g: &Graph, obj_ptr: usize) -> (r: Result<NodeTree, usize>)
        requires
            seen_wf(old(self).spec_seen(), *g),
            obj_ptr < g.cells@.len(),
        ensures
            seen_wf(final(self).spec_seen(), *g),
            final(self).spec_limit() == old(self).spec_limit(),
            final(self).spec_used() == old(self).spec_used(),
            match r {
                Ok(n) => {
                    &&& old(self).spec_seen().contains(obj_ptr)
                    &&& n.info is Repeated
                    &&& n.meta == Some(Wrap(obj_ptr))
                    &&& final(self).spec_seen() == old(self).spec_seen()
                },
                Err(tag) => {
                    &&& !old(self).spec_seen().contains(obj_ptr)
                    &&& tag == obj_ptr
                    &&& final(self).spec_seen() == old(self).spec_seen().push(obj_ptr)
                },
            },
    {
        let mut i: usize = 0;
        while i < self.seen.len()
            invariant
                i <= self.seen@.len(),
                forall|j: int| 0 <= j < i ==> self.seen@[j] != obj_ptr,
            decreases self.seen@.len() - i,
        {
            if self.seen[i] == obj_ptr {
                return Ok(NodeTree::new(NodeInfo::Repeated, Some(Wrap(obj_ptr))));
            }
            i = i + 1;
        }
        proof {
            assert(!self.seen@.contains(obj_ptr));
        }
        let ghost old_seen = self.seen@;
        self.seen.push(obj_ptr);
        proof {
            assert forall|a: int, b: int|
                0 <= a < b < self.seen@.len() implies self.seen@[a] != self.seen@[b] by {
                if b == self.seen@.len() - 1 {
                    assert(self.seen@[a] == old_seen[a]);
                    assert(old_seen.contains(old_seen[a]) == false || true);
                    assert(old_seen[a] != obj_ptr) by {
                        if old_seen[a] == obj_ptr {
                            assert(old_seen.contains(obj_ptr));
                        }
                    }
                }
            }
        }
        Err(obj_ptr)
    }
}


/// A list of distinct cell indices below a bound is no longer than the
/// bound.
pub proof fn lemma_seen_len(seen: Seq<usize>, bound: nat)
    requires
        forall|i: int| 0 <= i < seen.len() ==> (#[trigger] seen[i]) < bound,
        forall|i: int, j: int| 0 <= i < j < seen.len() ==> seen[i] != seen[j],
    ensures
        seen.len() <= bound,
    decreases bound,
{
    if bound == 0 {
        if seen.len() > 0 {
            assert(seen[0] < 0);
        }
    } else if seen.len() > 0 {
        let top = (bound - 1) as nat;
        if exists|k: int| 0 <= k < seen.len() && seen[k] == top {
            let k = choose|k: int| 0 <= k < seen.len() && seen[k] == top;
            let rest = seen.remove(k);
            assert forall|i: int| 0 <= i < rest.len() implies (#[trigger] rest[i]) < top by {
                if i < k {
                    assert(rest[i] == seen[i]);
                    assert(seen[i] != seen[k]);
                } else {
                    assert(rest[i] == seen[i + 1]);
                    assert(seen[i + 1] != seen[k]);
                }
            }
            assert forall|i: int, j: int|
                0 <= i < j < rest.len() implies rest[i] != rest[j] by {
                if j < k {
                } else if i < k {
                    assert(rest[i] == seen[i]);
                    assert(rest[j] == seen[j + 1]);
                } else {
                    assert(rest[i] == seen[i + 1]);
                    assert(rest[j] == seen[j + 1]);
                }
            }
            lemma_seen_len(rest, top);
        } else {
            assert forall|i: int| 0 <= i < seen.len() implies (#[trigger] seen[i]) < top by {
                assert(seen[i] < bound);
                assert(seen[i] != top);
            }
            lemma_seen_len(seen, top);
        }
    }
}

impl Reflector {
    /// Reflect a value into a node tree.  A shared cell already seen
    /// renders as a `Repeated` marker; spent budget renders the remaining
    /// parts as `Limited` markers; a held lock renders as its own marker
    /// instead of blocking.
    #[verifier::loop_isolation(false)]
    pub fn reflect(&mut self, g: &Graph, v: &Value) -> (r: NodeTree)
        requires
            seen_wf(old(self).spec_seen(), *g),
            old(self).wf(),
        ensures
            seen_wf(final(self).spec_seen(), *g),
            final(self).wf(),
            final(self).spec_limit() == old(self).spec_limit(),
            final(self).spec_seen().len() >= old(self).spec_seen().len(),
            final(self).spec_used() >= old(self).spec_used(),
            old(self).spec_used() < old(self).spec_limit() ==> final(self).spec_used() > old(
                self,
            ).spec_used(),
            (v matches Value::Ref(c) && old(self).spec_seen().contains(*c)) ==> r.info
                is Repeated,
            crate::access::is_prim(*v) ==> crate::access::is_leaf_of(r, *v),
            crate::node_tree::pending_free(r),
            !(r.info is Limited),
        decreases g.cells@.len() - self.spec_seen().len(), *v, 2int,
    {
        proof {
            lemma_seen_len(self.seen@, g.cells@.len() as nat);
        }
        self.spend();
        let is_p = v.prim();
        if is_p {
            let text = render_leaf(v);
            return NodeInfo::Leaf(text).into_node();
        }
        match v {
            Value::Unit(name) => NodeInfo::Leaf(name.clone()).into_node(),
            Value::StructV(s) => {
                proof {
                    assert(decreases_to!(*v => *s));
                }
                self.reflect_struct(g, s)
            },
            Value::TupleV(t) => {
                proof {
                    assert(decreases_to!(*v => t.items));
                }
                let shown = self.reflect_items(g, &t.items);
                let body = NodeInfo::Delimited(',', shown).into_node();
                proof {
                    assert(crate::node_tree::pending_free(body)) by {
                        reveal_with_fuel(crate::node_tree::pending_free, 2);
                    }
                }
                let grouped = NodeInfo::Grouped('(', Box::new(body), ')').into_node();
                proof {
                    assert(crate::node_tree::pending_free(grouped)) by {
                    reveal_with_fuel(crate::node_tree::pending_free, 4);
                }
                }
                if t.name.as_str().unicode_len() > 0 {
                    let named = NodeInfo::named(t.name.as_str(), grouped).into_node();
                    proof {
                        assert(crate::node_tree::pending_free(named)) by {
                    reveal_with_fuel(crate::node_tree::pending_free, 4);
                }
                    }
                    named
                } else {
                    grouped
                }
            },
            Value::EnumV(e) => {
                proof {
                    assert(decreases_to!(*v => e.variant));
                }
                let inner = self.reflect(g, &e.variant);
                let named = NodeInfo::named(e.enum_name.as_str(), inner).into_node();
                proof {
                    assert(crate::node_tree::pending_free(named)) by {
                    reveal_with_fuel(crate::node_tree::pending_free, 4);
                }
                }
                named
            },
            Value::MapV(m) => {
                proof {
                    assert(decreases_to!(*v => *m));
                }
                self.reflect_map(g, m)
            },
            Value::SetV(st) => {
                proof {
                    assert(decreases_to!(*v => st.members));
                }
                let shown = self.reflect_items(g, &st.members);
                let body = NodeInfo::Delimited(',', shown).into_node();
                proof {
                    assert(crate::node_tree::pending_free(body)) by {
                        reveal_with_fuel(crate::node_tree::pending_free, 2);
                    }
                }
                let grouped = NodeInfo::Grouped('{', Box::new(body), '}').into_node();
                proof {
                    assert(crate::node_tree::pending_free(grouped)) by {
                    reveal_with_fuel(crate::node_tree::pending_free, 4);
                }
                }
                let named = NodeInfo::named(st.name.as_str(), grouped).into_node();
                proof {
                    assert(crate::node_tree::pending_free(named)) by {
                    reveal_with_fuel(crate::node_tree::pending_free, 4);
                }
                }
                named
            },
            Value::ListV(l) => {
                proof {
                    assert(decreases_to!(*v => *l));
                }
                self.reflect_vec(g, l)
            },
            Value::LockV(l) => {
                match (&l.kind, &l.state) {
                    (LockKind::Mutex, LockState::Free) => {
                        proof {
                            assert(decreases_to!(*v => l.inner));
                        }
                        self.reflect(g, &l.inner)
                    },
                    (LockKind::Mutex, _) => NodeInfo::Locked.into_node(),
                    (LockKind::Cell, LockState::Exclusive) => NodeInfo::BorrowedMut.into_node(),
                    (LockKind::Cell, _) => {
                        proof {
                            assert(decreases_to!(*v => l.inner));
                        }
                        self.reflect(g, &l.inner)
                    },
                }
            },
            Value::Indirect(inner) => {
                proof {
                    assert(decreases_to!(*v => *inner));
                }
                self.reflect(g, inner)
            },
            Value::Ref(c) => {
                let c = *c;
                if c >= g.cells.len() {
                    return NodeInfo::Leaf("<dangling>".to_owned()).into_node();
                }
                match self.seen_ptr(g, c) {
                    Ok(repeated) => repeated,
                    Err(tag) => {
                        proof {
                            lemma_seen_len(self.seen@, g.cells@.len() as nat);
                        }
                        let mut node = self.reflect(g, &g.cells[c].value);
                        node.meta = Some(Wrap(tag));
                        proof {
                            assert(crate::node_tree::pending_free(node)) by {
                    reveal_with_fuel(crate::node_tree::pending_free, 4);
                }
                        }
                        node
                    },
                }
            },
            _ => {
                proof {
                    assert(false);
                }
                NodeInfo::Limited.into_node()
            },
        }
    }

    /// Reflect a struct's named fields into `name { field: value, .. }`.
    #[verifier::loop_isolation(false)]
    pub fn reflect_struct(&mut self, g: &Graph, s: &StructValue) -> (r: NodeTree)
        requires
            seen_wf(old(self).spec_seen(), *g),
            old(self).wf(),
        ensures
            seen_wf(final(self).spec_seen(), *g),
            final(self).wf(),
            final(self).spec_limit() == old(self).spec_limit(),
            final(self).spec_seen().len() >= old(self).spec_seen().len(),
            final(self).spec_used() >= old(self).spec_used(),
            crate::node_tree::pending_free(r),
            !(r.info is Limited),
            ({
                let body = crate::node_tree::named_body(r, s.name@);
                let fields = if s.fields@.len() < s.field_names@.len() {
                    s.fields@.len() as int
                } else {
                    s.field_names@.len() as int
                };
                &&& body is Some
                &&& ({
                    let es = crate::node_tree::grouped_children(body->0, '{', '}');
                    &&& es is Some
                    &&& es->0.len() <= fields + 1
                    &&& ({
                        ||| (es->0.len() == fields && (forall|j: int|
                            0 <= j < es->0.len() ==> crate::access::is_field_of(
                                (#[trigger] es->0[j]),
                                s.field_names@[j]@,
                                s.fields@[j],
                            )))
                        ||| (1 <= es->0.len() <= fields && es->0.last().info is Limited
                            && es->0.len() - 1 + old(self).spec_used() <= old(
                            self,
                        ).spec_limit() && (forall|j: int|
                            0 <= j < es->0.len() - 1 ==> crate::access::is_field_of(
                                (#[trigger] es->0[j]),
                                s.field_names@[j]@,
                                s.fields@[j],
                            )))
                    })
                    &&& ((es->0.len() > 0 && es->0.last().info is Limited)
                        ==> final(self).spec_used() == final(self).spec_limit())
                    &&& (final(self).spec_used() < final(self).spec_limit() ==> es->0.len()
                        == fields)
                    &&& forall|j: int|
                        0 <= j < es->0.len() ==> (old(self).spec_used() + j < old(
                            self,
                        ).spec_limit() || ((#[trigger] es->0[j]).info is Limited))
                })
            }),
        decreases g.cells@.len() - self.spec_seen().len(), *s, 1int,
    {
        let mut result: Vec<NodeTree> = Vec::new();
        let mut i: usize = 0;
        let n = if s.fields.len() < s.field_names.len() {
            s.fields.len()
        } else {
            s.field_names.len()
        };
        let mut still = true;
        while i < n && still
            invariant
                i <= n,
                n as int == if s.fields@.len() < s.field_names@.len() {
                    s.fields@.len() as int
                } else {
                    s.field_names@.len() as int
                },
                seen_wf(self.spec_seen(), *g),
                self.wf(),
                self.spec_limit() == old(self).spec_limit(),
                self.spec_seen().len() >= old(self).spec_seen().len(),
                self.spec_used() >= old(self).spec_used(),
                old(self).spec_used() + i <= self.spec_used(),
                crate::node_tree::list_pending_free(result@),
                result@.len() == i,
                !still ==> self.spec_limit() <= self.spec_used(),
                forall|j: int|
                    0 <= j < result@.len() ==> crate::access::is_field_of(
                        (#[trigger] result@[j]),
                        s.field_names@[j]@,
                        s.fields@[j],
                    ),
            decreases n - i, (if still {
                1int
            } else {
                0int
            }),
        {
            if self.exhausted() {
                still = false;
            } else {
                proof {
                    assert(decreases_to!(*s => s.fields));
                    assert(decreases_to!(s.fields => s.fields[i as int]));
                    lemma_seen_len(self.seen@, g.cells@.len() as nat);
                }
                let node = self.reflect(g, &s.fields[i]);
                let entry = NodeInfo::Tuple(
                    Box::new(NodeInfo::Leaf(s.field_names[i].clone()).into_node()),
                    ":".to_owned(),
                    Box::new(node),
                ).into_node();
                proof {
                    assert(crate::node_tree::pending_free(entry)) by {
                        reveal_with_fuel(crate::node_tree::pending_free, 4);
                    }
                    assert(crate::access::is_field_of(
                        entry,
                        s.field_names@[i as int]@,
                        s.fields@[i as int],
                    ));
                }
                let ghost before = result@;
                result.push(entry);
                proof {
                    assert(result@.drop_last() =~= before);
                }
                i = i + 1;
            }
        }
        if i < n {
            let lim = NodeInfo::Limited.into_node();
            proof {
                assert(crate::node_tree::pending_free(lim));
            }
            let ghost before = result@;
            result.push(lim);
            proof {
                assert(result@.drop_last() =~= before);
                assert(result@.last().info is Limited);
            }
        }
        let body = NodeInfo::Delimited(',', result).into_node();
        let ghost entries = result@;
        proof {
            assert(crate::node_tree::pending_free(body)) by {
                reveal_with_fuel(crate::node_tree::pending_free, 2);
            }
        }
        let grouped = NodeInfo::Grouped('{', Box::new(body), '}').into_node();
        proof {
            assert(crate::node_tree::pending_free(grouped)) by {
                reveal_with_fuel(crate::node_tree::pending_free, 4);
            }
            assert(crate::node_tree::grouped_children(grouped, '{', '}') == Some(entries));
        }
        if s.name.as_str().unicode_len() > 0 {
            let named = NodeInfo::named(s.name.as_str(), grouped).into_node();
            proof {
                assert(crate::node_tree::pending_free(named)) by {
                    reveal_with_fuel(crate::node_tree::pending_free, 4);
                }
                assert(crate::node_tree::named_body(named, s.name@) == Some(grouped));
            }
            named
        } else {
            proof {
                assert(crate::node_tree::named_body(grouped, s.name@) == Some(grouped));
            }
            grouped
        }
    }

    /// Reflect a map's entries into `name { key: value, .. }`.
    #[verifier::loop_isolation(false)]
    pub fn reflect_map(&mut self, g: &Graph, m: &crate::access::MapValue) -> (r: NodeTree)
        requires
            seen_wf(old(self).spec_seen(), *g),
            old(self).wf(),
        ensures
            seen_wf(final(self).spec_seen(), *g),
            final(self).wf(),
            final(self).spec_limit() == old(self).spec_limit(),
            final(self).spec_seen().len() >= old(self).spec_seen().len(),
            final(self).spec_used() >= old(self).spec_used(),
            crate::node_tree::pending_free(r),
            !(r.info is Limited),
            m.name@.len() > 0 ==> ({
                let body = crate::node_tree::named_body(r, m.name@);
                let pairs = if m.keys@.len() < m.vals@.len() {
                    m.keys@.len() as int
                } else {
                    m.vals@.len() as int
                };
                &&& body is Some
                &&& ({
                    let es = crate::node_tree::grouped_children(body->0, '{', '}');
                    &&& es is Some
                    &&& es->0.len() <= pairs + 1
                    &&& ({
                        ||| (es->0.len() == pairs && (forall|j: int|
                            0 <= j < es->0.len() ==> crate::access::is_entry_of(
                                (#[trigger] es->0[j]),
                                m.keys@[j],
                                m.vals@[j],
                            )))
                        ||| (1 <= es->0.len() <= pairs && es->0.last().info is Limited
                            && es->0.len() - 1 + old(self).spec_used() <= old(
                            self,
                        ).spec_limit() && (forall|j: int|
                            0 <= j < es->0.len() - 1 ==> crate::access::is_entry_of(
                                (#[trigger] es->0[j]),
                                m.keys@[j],
                                m.vals@[j],
                            )))
                    })
                    &&& ((es->0.len() > 0 && es->0.last().info is Limited)
                        ==> final(self).spec_used() == final(self).spec_limit())
                    &&& (final(self).spec_used() < final(self).spec_limit() ==> es->0.len()
                        == pairs)
                    &&& forall|j: int|
                        0 <= j < es->0.len() ==> (old(self).spec_used() + j < old(
                            self,
                        ).spec_limit() || ((#[trigger] es->0[j]).info is Limited))
                })
            }),
        decreases g.cells@.len() - self.spec_seen().len(), *m, 1int,
    {
        let mut result: Vec<NodeTree> = Vec::new();
        let mut i: usize = 0;
        let n = if m.keys.len() < m.vals.len() {
            m.keys.len()
        } else {
            m.vals.len()
        };
        let mut still = true;
        while i < n && still
            invariant
                i <= n,
                n as int == if m.keys@.len() < m.vals@.len() {
                    m.keys@.len() as int
                } else {
                    m.vals@.len() as int
                },
                seen_wf(self.spec_seen(), *g),
                self.wf(),
                self.spec_limit() == old(self).spec_limit(),
                self.spec_seen().len() >= old(self).spec_seen().len(),
                self.spec_used() >= old(self).spec_used(),
                old(self).spec_used() + i <= self.spec_used(),
                crate::node_tree::list_pending_free(result@),
                result@.len() == i,
                !still ==> self.spec_limit() <= self.spec_used(),
                forall|j: int|
                    0 <= j < result@.len() ==> crate::access::is_entry_of(
                        (#[trigger] result@[j]),
                        m.keys@[j],
                        m.vals@[j],
                    ),
            decreases n - i, (if still {
                1int
            } else {
                0int
            }),
        {
            if self.exhausted() {
                still = false;
            } else {
                proof {
                    assert(decreases_to!(*m => m.keys));
                    assert(decreases_to!(m.keys => m.keys[i as int]));
                    assert(decreases_to!(*m => m.vals));
                    assert(decreases_to!(m.vals => m.vals[i as int]));
                    lemma_seen_len(self.seen@, g.cells@.len() as nat);
                }
                let key_node = self.reflect(g, &m.keys[i]);
                proof {
                    lemma_seen_len(self.seen@, g.cells@.len() as nat);
                }
                let val_node = self.reflect(g, &m.vals[i]);
                let entry = NodeInfo::Tuple(
                    Box::new(key_node),
                    ":".to_owned(),
                    Box::new(val_node),
                ).into_node();
                proof {
                    assert(crate::node_tree::pending_free(entry)) by {
                        reveal_with_fuel(crate::node_tree::pending_free, 4);
                    }
                    assert(crate::access::is_entry_of(
                        entry,
                        m.keys@[i as int],
                        m.vals@[i as int],
                    ));
                }
                let ghost before = result@;
                result.push(entry);
                proof {
                    assert(result@.drop_last() =~= before);
                }
                i = i + 1;
            }
        }
        if i < n {
            let lim = NodeInfo::Limited.into_node();
            proof {
                assert(crate::node_tree::pending_free(lim));
            }
            let ghost before = result@;
            result.push(lim);
            proof {
                assert(result@.drop_last() =~= before);
                assert(result@.last().info is Limited);
            }
        }
        let body = NodeInfo::Delimited(',', result).into_node();
        proof {
            assert(crate::node_tree::pending_free(body)) by {
                reveal_with_fuel(crate::node_tree::pending_free, 2);
            }
        }
        let grouped = NodeInfo::Grouped('{', Box::new(body), '}').into_node();
        proof {
            assert(crate::node_tree::pending_free(grouped)) by {
                    reveal_with_fuel(crate::node_tree::pending_free, 4);
                }
        }
        let named = NodeInfo::named(m.name.as_str(), grouped).into_node();
        proof {
            assert(crate::node_tree::pending_free(named)) by {
                    reveal_with_fuel(crate::node_tree::pending_free, 4);
                }
        }
        named
    }

    /// Reflect a sequence into `name [ item, .. ]`, cutting the items
    /// short with exactly one `Limited` marker once the budget is spent.
    #[verifier::loop_isolation(false)]
    pub fn reflect_vec(&mut self, g: &Graph, l: &crate::access::ListValue) -> (r: NodeTree)
        requires
            seen_wf(old(self).spec_seen(), *g),
            old(self).wf(),
        ensures
            seen_wf(final(self).spec_seen(), *g),
            final(self).wf(),
            final(self).spec_limit() == old(self).spec_limit(),
            final(self).spec_seen().len() >= old(self).spec_seen().len(),
            final(self).spec_used() >= old(self).spec_used(),
            crate::node_tree::pending_free(r),
            !(r.info is Limited),
            ({
                let body = crate::node_tree::named_body(r, l.name@);
                &&& body is Some
                &&& ({
                    let sh = crate::node_tree::grouped_children(body->0, '[', ']');
                    &&& sh is Some
                    &&& sh->0.len() <= l.items@.len() + 1
                    &&& ({
                        ||| (sh->0.len() == l.items@.len() && (forall|k: int|
                            0 <= k < sh->0.len() ==> !((#[trigger] sh->0[k]).info is Limited)))
                        ||| (1 <= sh->0.len() <= l.items@.len() && sh->0.last().info
                            is Limited && sh->0.len() - 1 + old(self).spec_used() <= old(
                            self,
                        ).spec_limit() && (forall|k: int|
                            0 <= k < sh->0.len() - 1 ==> !((#[trigger] sh->0[k]).info
                                is Limited)))
                    })
                    &&& forall|k: int|
                        0 <= k < sh->0.len() && !((#[trigger] sh->0[k]).info is Limited)
                            && crate::access::is_prim(l.items@[k])
                            ==> crate::access::is_leaf_of(sh->0[k], l.items@[k])
                    &&& ((sh->0.len() > 0 && sh->0.last().info is Limited)
                        ==> final(self).spec_used() == final(self).spec_limit())
                    &&& (final(self).spec_used() < final(self).spec_limit() ==> sh->0.len()
                        == l.items@.len())
                    &&& forall|k: int|
                        0 <= k < sh->0.len() ==> (old(self).spec_used() + k < old(
                            self,
                        ).spec_limit() || ((#[trigger] sh->0[k]).info is Limited))
                })
            }),
        decreases g.cells@.len() - self.spec_seen().len(), *l, 1int,
    {
        proof {
            assert(decreases_to!(*l => l.items));
        }
        let shown = self.reflect_items(g, &l.items);
        let body = NodeInfo::Delimited(',', shown).into_node();
        proof {
            assert(crate::node_tree::pending_free(body)) by {
                reveal_with_fuel(crate::node_tree::pending_free, 2);
            }
        }
        let grouped = NodeInfo::Grouped('[', Box::new(body), ']').into_node();
        proof {
            assert(crate::node_tree::pending_free(grouped)) by {
                    reveal_with_fuel(crate::node_tree::pending_free, 4);
                }
        }
        if l.name.as_str().unicode_len() > 0 {
            let named = NodeInfo::named(l.name.as_str(), grouped).into_node();
            proof {
                assert(crate::node_tree::pending_free(named)) by {
                    reveal_with_fuel(crate::node_tree::pending_free, 4);
                }
            }
            named
        } else {
            grouped
        }
    }

    /// Reflect a list of members in order.  At most `limit - used` members
    /// are rendered; when the budget runs out before the end, the rendered
    /// prefix is followed by exactly one `Limited` marker and nothing more.
    #[verifier::loop_isolation(false)]
    pub fn reflect_items(&mut self, g: &Graph, items: &Vec<Value>) -> (shown: Vec<NodeTree>)
        requires
            seen_wf(old(self).spec_seen(), *g),
            old(self).wf(),
        ensures
            seen_wf(final(self).spec_seen(), *g),
            final(self).wf(),
            final(self).spec_limit() == old(self).spec_limit(),
            final(self).spec_seen().len() >= old(self).spec_seen().len(),
            final(self).spec_used() >= old(self).spec_used(),
            crate::node_tree::list_pending_free(shown@),
            shown@.len() <= items@.len() + 1,
            ({
                ||| (shown@.len() == items@.len() && (forall|k: int|
                    0 <= k < shown@.len() ==> !((#[trigger] shown@[k]).info is Limited)))
                ||| (1 <= shown@.len() <= items@.len() && shown@.last().info is Limited
                    && shown@.len() - 1 + old(self).spec_used() <= old(self).spec_limit()
                    && (forall|k: int|
                    0 <= k < shown@.len() - 1 ==> !((#[trigger] shown@[k]).info is Limited)))
            }),
            forall|k: int|
                0 <= k < shown@.len() && !((#[trigger] shown@[k]).info is Limited)
                    && crate::access::is_prim(items@[k]) ==> crate::access::is_leaf_of(
                    shown@[k],
                    items@[k],
                ),
            (shown@.len() > 0 && shown@.last().info is Limited) ==> final(self).spec_used()
                == final(self).spec_limit(),
            final(self).spec_used() < final(self).spec_limit() ==> (shown@.len()
                == items@.len() && (forall|k: int|
                0 <= k < shown@.len() ==> !((#[trigger] shown@[k]).info is Limited))),
            forall|k: int|
                0 <= k < shown@.len() ==> (old(self).spec_used() + k < old(self).spec_limit()
                    || ((#[trigger] shown@[k]).info is Limited)),
        decreases g.cells@.len() - self.spec_seen().len(), items@, 0int,
    {
        let mut shown: Vec<NodeTree> = Vec::new();
        let mut i: usize = 0;
        while i < items.len()
            invariant
                i <= items@.len(),
                shown@.len() == i,
                seen_wf(self.spec_seen(), *g),
                self.wf(),
                self.spec_limit() == old(self).spec_limit(),
                self.spec_seen().len() >= old(self).spec_seen().len(),
                self.spec_used() >= old(self).spec_used(),
                old(self).spec_used() + i <= self.spec_used(),
                crate::node_tree::list_pending_free(shown@),
                forall|k: int|
                    0 <= k < shown@.len() ==> !((#[trigger] shown@[k]).info is Limited),
                forall|k: int|
                    0 <= k < shown@.len() && crate::access::is_prim(items@[k])
                        ==> crate::access::is_leaf_of((#[trigger] shown@[k]), items@[k]),
                forall|k: int|
                    0 <= k < shown@.len() ==> old(self).spec_used() + k < old(
                        self,
                    ).spec_limit() || ((#[trigger] shown@[k]).info is Limited),
            decreases items@.len() - i,
        {
            if self.exhausted() {
                let ghost before = shown@;
                shown.push(NodeInfo::Limited.into_node());
                proof {
                    assert(shown@.drop_last() =~= before);
                    assert(shown@.last().info is Limited);
                    assert(crate::node_tree::pending_free(shown@.last()));
                    assert(crate::node_tree::list_pending_free(shown@));
                }
                return shown;
            }
            proof {
                assert(decreases_to!(items@ => items@[i as int]));
                lemma_seen_len(self.seen@, g.cells@.len() as nat);
            }
            let node = self.reflect(g, &items[i]);
            let ghost before = shown@;
            shown.push(node);
            proof {
                assert(shown@.drop_last() =~= before);
            }
            i = i + 1;
        }
        shown
    }
}

} // verus!
