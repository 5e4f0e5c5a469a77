//! The root dictionary and the query entry point.
//!
//! Two registries hold the named values a query can start from: one for
//! values that can be shared across execution contexts and one for values
//! confined to the current one.  A `Root` bundles both into one namespace,
//! and `evaluate` ties the tokenizer, the climber and the renderer together
//! for a single query.  Probing runs the same climb but commits nothing.

use vstd::prelude::*;

use crate::access::{leaf_op_applies, set_leaf_at, value_at_path, Graph, Value};
use crate::assist::{Assist, NextOptions};
use crate::climber::{ClimbError, Climber, LocBase, MutOp, Mutation};
use crate::node_tree::NodeTree;
use crate::tokens::{Token, TokenVec};

verus! {

broadcast use vstd::std_specs::vec::group_vec_axioms;

/// Holds a root dictionary of values that may be shared across execution
/// contexts, and the arena their shared cells live in.
pub struct RootSend {
    pub owned: Vec<(String, Value)>,
    pub graph: Graph,
}

/// Holds a root dictionary of values confined to the current execution
/// context, and the arena their shared cells live in.
pub struct RootLocal {
    pub owned: Vec<(String, Value)>,
    pub graph: Graph,
}

/// A binder of the two dictionaries, presenting one namespace.
pub struct Root {
    pub send: Option<RootSend>,
    pub local: Option<RootLocal>,
}

impl RootSend {
    /// An empty shared-value dictionary.
    pub fn new() -> (r: Self)
        ensures
            r.owned@.len() == 0,
            r.graph.cells@.len() == 0,
    {
        RootSend { owned: Vec::new(), graph: Graph { cells: Vec::new() } }
    }

    /// Register a named value: a value already registered under the name
    /// is replaced.
    pub fn insert(&mut self, name: &str, value: Value)
        ensures
            final(self).graph == old(self).graph,
            (exists|j: int|
                0 <= j < old(self).owned@.len() && (#[trigger] old(self).owned@[j]).0@
                    == name@) ==> {
                &&& final(self).owned@.len() == old(self).owned@.len()
                &&& forall|j: int|
                    0 <= j < old(self).owned@.len() ==> (#[trigger] final(self).owned@[j]).0@
                        == old(self).owned@[j].0@
                &&& forall|j: int|
                    0 <= j < old(self).owned@.len() && old(self).owned@[j].0@ != name@ ==> (
                    #[trigger] final(self).owned@[j]) == old(self).owned@[j]
            },
            !(exists|j: int|
                0 <= j < old(self).owned@.len() && (#[trigger] old(self).owned@[j]).0@
                    == name@) ==> {
                &&& final(self).owned@.len() == old(self).owned@.len() + 1
                &&& forall|j: int|
                    0 <= j < old(self).owned@.len() ==> (#[trigger] final(self).owned@[j])
                        == old(self).owned@[j]
            },
            exists|k: int|
                0 <= k < final(self).owned@.len() && (#[trigger] final(self).owned@[k]).0@
                    == name@ && final(self).owned@[k].1 == value,
    {
        replace_or_add(&mut self.owned, name, value);
        proof {
            let k = choose|k: int|
                0 <= k < self.owned@.len() && (#[trigger] self.owned@[k]).0@ == name@
                    && self.owned@[k].1 == value;
            assert(0 <= k < self.owned@.len() && (self.owned@[k]).0@ == name@
                && self.owned@[k].1 == value);
        }
    }

    /// Bind this dictionary alone into a root namespace.
    pub fn as_root(self) -> (r: Root)
        ensures
            r.send == Some(self),
            r.local is None,
    {
        Root { send: Some(self), local: None }
    }
}

impl RootLocal {
    /// An empty context-confined dictionary.
    pub fn new() -> (r: Self)
        ensures
            r.owned@.len() == 0,
            r.graph.cells@.len() == 0,
    {
        RootLocal { owned: Vec::new(), graph: Graph { cells: Vec::new() } }
    }

    /// Register a named value: a value already registered under the name
    /// is replaced.
    pub fn insert(&mut self, name: &str, value: Value)
        ensures
            final(self).graph == old(self).graph,
            (exists|j: int|
                0 <= j < old(self).owned@.len() && (#[trigger] old(self).owned@[j]).0@
                    == name@) ==> final(self).owned@.len() == old(self).owned@.len(),
            !(exists|j: int|
                0 <= j < old(self).owned@.len() && (#[trigger] old(self).owned@[j]).0@
                    == name@) ==> {
                &&& final(self).owned@.len() == old(self).owned@.len() + 1
                &&& forall|j: int|
                    0 <= j < old(self).owned@.len() ==> (#[trigger] final(self).owned@[j])
                        == old(self).owned@[j]
            },
            exists|k: int|
                0 <= k < final(self).owned@.len() && (#[trigger] final(self).owned@[k]).0@
                    == name@ && final(self).owned@[k].1 == value,
    {
        replace_or_add(&mut self.owned, name, value);
        proof {
            let k = choose|k: int|
                0 <= k < self.owned@.len() && (#[trigger] self.owned@[k]).0@ == name@
                    && self.owned@[k].1 == value;
            assert(0 <= k < self.owned@.len() && (self.owned@[k]).0@ == name@
                && self.owned@[k].1 == value);
        }
    }
}

/// Apply a recorded mutation to a dictionary and its graph.  The target is
/// checked before anything is written; a stale or ill-typed location
/// leaves everything unchanged, and a committed one leaves the leaf at
/// the recorded location holding exactly what the operation says.
fn apply_mutation(owned: &mut Vec<(String, Value)>, graph: &mut Graph, m: Mutation) -> (r: bool)
    ensures
        !r ==> *final(owned) == *old(owned) && *final(graph) == *old(graph),
        (m.loc.base matches LocBase::RootAt(i) && i < old(owned)@.len() && leaf_op_applies(
            old(owned)@[i as int].1,
            m.loc.steps@,
            match m.op {
                MutOp::Write(w) => Some(w),
                MutOp::Bump(_) => None,
            },
        )) ==> r,
        r ==> ({
            let op_set = match m.op {
                MutOp::Write(w) => Some(w),
                MutOp::Bump(_) => None,
            };
            let op_delta = match m.op {
                MutOp::Write(_) => 0u64,
                MutOp::Bump(d) => d,
            };
            match m.loc.base {
                LocBase::RootAt(i) => {
                    &&& i < old(owned)@.len()
                    &&& *final(graph) == *old(graph)
                    &&& final(owned)@.len() == old(owned)@.len()
                    &&& forall|j: int|
                        0 <= j < old(owned)@.len() && j != i
                            ==> (#[trigger] final(owned)@[j]) == old(owned)@[j]
                    &&& final(owned)@[i as int].0@ == old(owned)@[i as int].0@
                    &&& crate::access::spec_value_at(final(owned)@[i as int].1, m.loc.steps@)
                        == crate::access::spec_leaf_after(
                        crate::access::spec_value_at(old(owned)@[i as int].1, m.loc.steps@)->0,
                        op_set,
                        op_delta,
                    )
                },
                LocBase::CellAt(c) => {
                    &&& c < old(graph).cells@.len()
                    &&& *final(owned) == *old(owned)
                    &&& final(graph).cells@.len() == old(graph).cells@.len()
                    &&& forall|j: int|
                        0 <= j < old(graph).cells@.len() && j != c
                            ==> (#[trigger] final(graph).cells@[j]) == old(graph).cells@[j]
                    &&& final(graph).cells@[c as int].aliased
                        == old(graph).cells@[c as int].aliased
                    &&& crate::access::spec_value_at(
                        final(graph).cells@[c as int].value,
                        m.loc.steps@,
                    ) == crate::access::spec_leaf_after(
                        crate::access::spec_value_at(
                            old(graph).cells@[c as int].value,
                            m.loc.steps@,
                        )->0,
                        op_set,
                        op_delta,
                    )
                },
            }
        }),
{
    let Mutation { loc, op } = m;
    let (set_to, delta) = match op {
        MutOp::Write(w) => (Some(w), 0u64),
        MutOp::Bump(d) => (None, d),
    };
    match loc.base {
        LocBase::RootAt(i) => {
            if i >= owned.len() {
                return false;
            }
            if !check_leaf_op(&owned[i].1, &loc.steps, &set_to) {
                return false;
            }
            let (name, mut value) = owned.remove(i);
            proof {
                assert(loc.steps@.skip(0) =~= loc.steps@);
            }
            set_leaf_at(&mut value, &loc.steps, 0, set_to, delta);
            owned.insert(i, (name, value));
            true
        },
        LocBase::CellAt(c) => {
            if c >= graph.cells.len() {
                return false;
            }
            if !check_leaf_op(&graph.cells[c].value, &loc.steps, &set_to) {
                return false;
            }
            let cell = graph.cells.remove(c);
            let crate::access::Cell { mut value, aliased } = cell;
            proof {
                assert(loc.steps@.skip(0) =~= loc.steps@);
            }
            set_leaf_at(&mut value, &loc.steps, 0, set_to, delta);
            graph.cells.insert(c, crate::access::Cell { value, aliased });
            true
        },
    }
}

/// Whether the leaf operation would apply at the path's end.
fn check_leaf_op(v: &Value, steps: &Vec<usize>, set_to: &Option<Value>) -> (r: bool)
    ensures
        r == leaf_op_applies(
            *v,
            steps@,
            match set_to {
                Some(w) => Some(*w),
                None => None::<Value>,
            },
        ),
{
    proof {
        assert(steps@.skip(0) =~= steps@);
    }
    match value_at_path(v, steps, 0) {
        Some(leaf) => {
            match set_to {
                Some(_) => true,
                None => match leaf {
                    Value::U8(_) => true,
                    Value::U16(_) => true,
                    Value::U32(_) => true,
                    Value::U64(_) => true,
                    _ => false,
                },
            }
        },
        None => false,
    }
}

/// Lexicographic order on character sequences, by code point.
pub open spec fn chars_le(a: Seq<char>, b: Seq<char>) -> bool
    decreases a.len(),
{
    if a.len() == 0 {
        true
    } else if b.len() == 0 {
        false
    } else if (a[0] as u32) < (b[0] as u32) {
        true
    } else if (a[0] as u32) > (b[0] as u32) {
        false
    } else {
        chars_le(a.skip(1), b.skip(1))
    }
}

/// Strictly before, lexicographically.
pub open spec fn chars_lt(a: Seq<char>, b: Seq<char>) -> bool {
    chars_le(a, b) && a != b
}

/// Put a named value into a dictionary: an entry already wearing the
/// name is replaced, otherwise a fresh entry is appended; every other
/// entry keeps its place and value.
#[verifier::loop_isolation(false)]
fn replace_or_add(owned: &mut Vec<(String, Value)>, name: &str, value: Value)
    ensures
        (exists|j: int|
            0 <= j < old(owned)@.len() && (#[trigger] old(owned)@[j]).0@ == name@) ==> {
            &&& final(owned)@.len() == old(owned)@.len()
            &&& forall|j: int|
                0 <= j < old(owned)@.len() ==> (#[trigger] final(owned)@[j]).0@
                    == old(owned)@[j].0@
            &&& forall|j: int|
                0 <= j < old(owned)@.len() && old(owned)@[j].0@ != name@
                    ==> (#[trigger] final(owned)@[j]) == old(owned)@[j]
        },
        !(exists|j: int|
            0 <= j < old(owned)@.len() && (#[trigger] old(owned)@[j]).0@ == name@) ==> {
            &&& final(owned)@.len() == old(owned)@.len() + 1
            &&& forall|j: int|
                0 <= j < old(owned)@.len() ==> (#[trigger] final(owned)@[j]) == old(owned)@[j]
        },
        exists|k: int|
            0 <= k < final(owned)@.len() && (#[trigger] final(owned)@[k]).0@ == name@
                && final(owned)@[k].1 == value,
{
    let mut i: usize = 0;
    while i < owned.len()
        invariant
            i <= owned@.len(),
            owned@ == old(owned)@,
            forall|j: int| 0 <= j < i ==> (#[trigger] owned@[j]).0@ != name@,
        decreases owned@.len() - i,
    {
        let same = {
            let ca = crate::tokens::str_to_chars(name);
            let cb = crate::tokens::str_to_chars(owned[i].0.as_str());
            crate::tokens::chars_eq(&ca, &cb)
        };
        if same {
            let _ = owned.remove(i);
            owned.insert(i, (name.to_owned(), value));
            proof {
                assert((final(owned)@[i as int]).0@ == name@);
                assert(final(owned)@[i as int].1 == value);
            }
            return ;
        }
        i = i + 1;
    }
    owned.push((name.to_owned(), value));
    proof {
        assert((final(owned)@[final(owned)@.len() - 1]).0@ == name@);
    }
}

/// Distinct characters have distinct code points.
proof fn lemma_char_inj(a: char, b: char)
    requires
        a as u32 == b as u32,
    ensures
        a == b,
{
}

/// The order is total: two sequences compare one way or the other, and
/// both ways only when they are the same sequence.
pub proof fn lemma_chars_le_total(a: Seq<char>, b: Seq<char>)
    ensures
        chars_le(a, b) || chars_le(b, a),
        (chars_le(a, b) && chars_le(b, a)) ==> a == b,
    decreases a.len(),
{
    if a.len() == 0 {
        if chars_le(b, a) {
            assert(b.len() == 0);
            assert(a =~= b);
        }
    } else if b.len() == 0 {
        assert(chars_le(b, a));
        assert(!chars_le(a, b));
    } else if (a[0] as u32) < (b[0] as u32) {
        assert(chars_le(a, b));
        assert(!chars_le(b, a));
    } else if (a[0] as u32) > (b[0] as u32) {
        assert(chars_le(b, a));
        assert(!chars_le(a, b));
    } else {
        lemma_char_inj(a[0], b[0]);
        lemma_chars_le_total(a.skip(1), b.skip(1));
        assert(chars_le(a, b) == chars_le(a.skip(1), b.skip(1)));
        assert(chars_le(b, a) == chars_le(b.skip(1), a.skip(1)));
        if chars_le(a, b) && chars_le(b, a) {
            assert(a.skip(1) == b.skip(1));
            assert(a.len() == b.len());
            assert forall|i: int| 0 <= i < a.len() implies a[i] == b[i] by {
                if i > 0 {
                    assert(a[i] == a.skip(1)[i - 1]);
                    assert(b[i] == b.skip(1)[i - 1]);
                }
            }
            assert(a =~= b);
        }
    }
}

/// The order is transitive.
pub proof fn lemma_chars_le_trans(a: Seq<char>, b: Seq<char>, c: Seq<char>)
    requires
        chars_le(a, b),
        chars_le(b, c),
    ensures
        chars_le(a, c),
    decreases a.len(),
{
    if a.len() == 0 {
        assert(chars_le(a, c));
    } else {
        assert(b.len() > 0);
        assert(c.len() > 0);
        if (a[0] as u32) < (b[0] as u32) {
            assert((b[0] as u32) <= (c[0] as u32));
            assert(chars_le(a, c));
        } else {
            assert((a[0] as u32) == (b[0] as u32));
            lemma_char_inj(a[0], b[0]);
            if (b[0] as u32) < (c[0] as u32) {
                assert(chars_le(a, c));
            } else {
                assert((b[0] as u32) == (c[0] as u32));
                lemma_char_inj(b[0], c[0]);
                lemma_chars_le_trans(a.skip(1), b.skip(1), c.skip(1));
                assert(chars_le(a, c) == chars_le(a.skip(1), c.skip(1)));
            }
        }
    }
}

/// Compare two names lexicographically.
fn name_le(a: &str, b: &str) -> (r: bool)
    ensures
        r == chars_le(a@, b@),
{
    let ca = crate::tokens::str_to_chars(a);
    let cb = crate::tokens::str_to_chars(b);
    proof {
        assert(ca@.skip(0) =~= ca@);
        assert(cb@.skip(0) =~= cb@);
    }
    chars_le_from(&ca, &cb, 0)
}

fn chars_le_from(a: &Vec<char>, b: &Vec<char>, i: usize) -> (r: bool)
    requires
        i <= a@.len(),
        i <= b@.len(),
    ensures
        r == chars_le(a@.skip(i as int), b@.skip(i as int)),
    decreases a@.len() - i,
{
    if i == a.len() {
        proof {
            assert(a@.skip(i as int).len() == 0);
        }
        return true;
    }
    if i == b.len() {
        proof {
            assert(b@.skip(i as int).len() == 0);
        }
        return false;
    }
    proof {
        assert(a@.skip(i as int)[0] == a@[i as int]);
        assert(b@.skip(i as int)[0] == b@[i as int]);
        assert(a@.skip(i as int).skip(1) =~= a@.skip(i + 1));
        assert(b@.skip(i as int).skip(1) =~= b@.skip(i + 1));
    }
    let x = a[i] as u32;
    let y = b[i] as u32;
    if x < y {
        true
    } else if x > y {
        false
    } else {
        chars_le_from(a, b, i + 1)
    }
}

/// The names stand in strictly increasing order (so no two are equal).
pub open spec fn names_sorted(names: Seq<Seq<char>>) -> bool {
    forall|i: int, j: int| 0 <= i < j < names.len() ==> chars_lt(names[i], names[j])
}

/// Whether a name occurs in a list of names.
pub open spec fn name_in(names: Seq<Seq<char>>, n: Seq<char>) -> bool {
    exists|k: int| 0 <= k < names.len() && names[k] == n
}

/// The value registered under a name: the first entry that wears it.
pub open spec fn find_name(owned: Seq<(String, Value)>, n: Seq<char>) -> Option<Value>
    decreases owned.len(),
{
    if owned.len() == 0 {
        None
    } else if owned[0].0@ == n {
        Some(owned[0].1)
    } else {
        find_name(owned.skip(1), n)
    }
}

/// Updating the value of the first entry wearing a name leaves it the
/// entry that the name resolves to.
pub proof fn lemma_find_name_update(
    a: Seq<(String, Value)>,
    b: Seq<(String, Value)>,
    idx: int,
    n: Seq<char>,
)
    requires
        0 <= idx < a.len(),
        b.len() == a.len(),
        forall|j: int| 0 <= j < a.len() && j != idx ==> (#[trigger] b[j]) == a[j],
        b[idx].0@ == a[idx].0@,
        a[idx].0@ == n,
        forall|j: int| 0 <= j < idx ==> ((#[trigger] a[j]).0)@ != n,
    ensures
        find_name(b, n) == Some(b[idx].1),
    decreases idx,
{
    if idx == 0 {
        assert(b[0].0@ == n);
    } else {
        assert(b[0] == a[0]);
        assert(a[0].0@ != n);
        assert(find_name(b, n) == find_name(b.skip(1), n));
        assert(a.skip(1).len() == b.skip(1).len());
        assert forall|j: int|
            0 <= j < a.skip(1).len() && j != idx - 1 implies (#[trigger] b.skip(1)[j]) == a.skip(
            1,
        )[j] by {
            assert(b.skip(1)[j] == b[j + 1]);
            assert(a.skip(1)[j] == a[j + 1]);
        }
        assert(b.skip(1)[idx - 1] == b[idx]);
        assert(a.skip(1)[idx - 1] == a[idx]);
        assert forall|j: int| 0 <= j < idx - 1 implies ((#[trigger] a.skip(1)[j]).0)@ != n by {
            assert(a.skip(1)[j] == a[j + 1]);
        }
        lemma_find_name_update(a.skip(1), b.skip(1), idx - 1, n);
        assert(b.skip(1)[idx - 1].1 == b[idx].1);
    }
}

/// The names of a dictionary's entries, in storage order.
pub open spec fn reg_names(owned: Seq<(String, Value)>) -> Seq<Seq<char>> {
    owned.map_values(|p: (String, Value)| p.0@)
}

/// Insert a name into a strictly sorted list, keeping it sorted and
/// dropping nothing; a name already present is left alone.
#[verifier::loop_isolation(false)]
fn sorted_insert_name(v: &mut Vec<String>, name: &str)
    requires
        names_sorted(old(v)@.map_values(|s: String| s@)),
    ensures
        names_sorted(final(v)@.map_values(|s: String| s@)),
        name_in(final(v)@.map_values(|s: String| s@), name@),
        forall|k: int|
            0 <= k < old(v)@.len() ==> name_in(
                final(v)@.map_values(|s: String| s@),
                (#[trigger] old(v)@[k])@,
            ),
        forall|k: int|
            0 <= k < final(v)@.len() ==> (name_in(
                old(v)@.map_values(|s: String| s@),
                (#[trigger] final(v)@[k])@,
            ) || (final(v)@[k])@ == name@),
{
    let ghost old_names = v@.map_values(|s: String| s@);
    let mut p: usize = 0;
    while p < v.len() && !name_le(name, v[p].as_str())
        invariant
            p <= v@.len(),
            forall|j: int| 0 <= j < p ==> chars_lt(old_names[j], name@),
        decreases v@.len() - p,
    {
        proof {
            lemma_chars_le_total(name@, v@[p as int]@);
        }
        p = p + 1;
    }
    if p < v.len() {
        let found = {
            let ca = crate::tokens::str_to_chars(name);
            let cb = crate::tokens::str_to_chars(v[p].as_str());
            crate::tokens::chars_eq(&ca, &cb)
        };
        if found {
            proof {
                assert(v@.map_values(|s: String| s@) =~= old_names);
                assert(old_names[p as int] == name@);
                assert forall|k: int| 0 <= k < old(v)@.len() implies name_in(
                    old_names,
                    (old(v)@[k])@,
                ) by {
                    assert(old_names[k] == (old(v)@[k])@);
                }
            }
            return ;
        }
    }
    proof {
        if p < v@.len() {
            assert(chars_le(name@, old_names[p as int]));
        }
    }
    v.insert(p, name.to_owned());
    proof {
        let new_names = v@.map_values(|s: String| s@);
        assert(new_names.len() == old_names.len() + 1);
        assert(new_names[p as int] == name@);
        assert(forall|j: int| 0 <= j < p ==> new_names[j] == old_names[j]);
        assert(forall|j: int| p < j < new_names.len() ==> new_names[j] == old_names[j - 1]);
        if p < old_names.len() {
            lemma_chars_le_total(name@, old_names[p as int]);
        }
        assert forall|i: int, j: int|
            0 <= i < j < new_names.len() implies chars_lt(new_names[i], new_names[j]) by {
            if i < p && j == p {
                assert(chars_lt(old_names[i], name@));
            } else if i == p && j > p {
                assert(chars_le(name@, old_names[j - 1])) by {
                    if j - 1 > p {
                        assert(chars_lt(old_names[p as int], old_names[j - 1]));
                        lemma_chars_le_trans(name@, old_names[p as int], old_names[j - 1]);
                    }
                }
                assert(name@ != old_names[j - 1]) by {
                    if name@ == old_names[j - 1] {
                        if j - 1 == p {
                        } else {
                            assert(chars_lt(old_names[p as int], old_names[j - 1]));
                            lemma_chars_le_total(name@, old_names[p as int]);
                        }
                    }
                }
            } else if i < p && j > p {
                assert(chars_lt(old_names[i], old_names[j - 1])) by {
                    if j - 1 == i {
                        assert(false);
                    }
                }
            }
        }
        assert(name_in(new_names, name@)) by {
            assert(new_names[p as int] == name@);
        }
        assert forall|k: int| 0 <= k < old(v)@.len() implies name_in(
            new_names,
            (old(v)@[k])@,
        ) by {
            if k < p {
                assert(new_names[k] == (old(v)@[k])@);
            } else {
                assert(new_names[k + 1] == (old(v)@[k])@);
            }
        }
        assert forall|k: int|
            0 <= k < v@.len() implies (name_in(old_names, (v@[k])@) || (v@[k])@ == name@) by {
            if k < p {
                assert(old_names[k] == (v@[k])@);
            } else if k > p {
                assert(old_names[k - 1] == (v@[k])@);
            }
        }
    }
}

/// An inserted list keeps every name the old list had; stated for each
/// name of interest.
proof fn keep_membership_one(prev: Seq<String>, now: Seq<String>, n: Seq<char>)
    requires
        forall|k: int|
            0 <= k < prev.len() ==> name_in(now.map_values(|s: String| s@), (#[trigger] prev[k])@),
        name_in(prev.map_values(|s: String| s@), n),
    ensures
        name_in(now.map_values(|s: String| s@), n),
{
    let m = prev.map_values(|s: String| s@);
    let k = choose|k: int| 0 <= k < m.len() && m[k] == n;
    assert((prev[k])@ == n);
}

/// Accumulate without overflowing.
fn sat_add(a: usize, b: usize) -> (r: usize)
    ensures
        r == if a + b <= usize::MAX {
            a + b
        } else {
            usize::MAX as int
        },
{
    if a <= usize::MAX - b {
        a + b
    } else {
        usize::MAX
    }
}

/// The character length of a token: its leading whitespace plus its text.
fn token_char_len(t: &Token) -> (r: usize) {
    let text_len = t.text.as_str().unicode_len();
    sat_add(t.space_diff, text_len)
}

impl Root {
    /// The names registered in the shared dictionary.
    pub open spec fn send_names(self) -> Seq<Seq<char>> {
        match self.send {
            Some(x) => reg_names(x.owned@),
            None => Seq::empty(),
        }
    }

    /// The names registered in the context-confined dictionary.
    pub open spec fn local_names(self) -> Seq<Seq<char>> {
        match self.local {
            Some(x) => reg_names(x.owned@),
            None => Seq::empty(),
        }
    }

    /// The value a name resolves to: the confined dictionary shadows the
    /// shared one.
    pub open spec fn root_value(self, n: Seq<char>) -> Option<Value> {
        let from_local = match self.local {
            Some(x) => find_name(x.owned@, n),
            None => None,
        };
        match from_local {
            Some(v) => Some(v),
            None => match self.send {
                Some(y) => find_name(y.owned@, n),
                None => None,
            },
        }
    }

    /// Probe a path: parse and validate it fully, including call
    /// arguments and assignment right-hand sides, but change nothing.
    pub fn probe(&mut self, path_str: &str) -> (r: (Result<NodeTree, ClimbError>, Assist<String>))
        ensures
            *final(self) == *old(self),
            (crate::lexer::spec_lex(path_str@, 0, 0) is None) ==> (r.0 matches Err(e)
                && e is TokenError),
            (crate::lexer::spec_lex(path_str@, 0, 0) matches Some(ts) && ts.len() == 0) ==> (
            r.0 matches Err(e) && e is NullPath),
            (r.0 matches Err(e) && (e is TokenError || e is NullPath)) ==> root_suggestions(
                *old(self),
                path_str@,
                0,
                r.1,
            ),
            (crate::lexer::spec_lex(path_str@, 0, 0) matches Some(ts) && ts.len() > 0
                && !name_in(old(self).local_names(), ts[0].text) && !name_in(
                old(self).send_names(),
                ts[0].text,
            )) ==> r.0 == Err::<NodeTree, ClimbError>(ClimbError::MissingStartComponent),
            (crate::lexer::spec_lex(path_str@, 0, 0) matches Some(ts) && ts.len() == 1
                && (old(self).root_value(ts[0].text) matches Some(v) && crate::access::is_prim(
                v,
            ))) ==> ({
                let v = old(self).root_value(
                    (crate::lexer::spec_lex(path_str@, 0, 0))->0[0].text,
                )->0;
                r.0 matches Ok(n) && crate::node_tree::spec_format(n, Seq::empty())
                    == crate::access::leaf_text(v)
            }),
            (crate::lexer::spec_lex(path_str@, 0, 0) matches Some(ts) && ts.len() == 3 && (old(
                self,
            ).root_value(ts[0].text) matches Some(v) && ({
                &&& v is StructV
                &&& (v->StructV_0).functions@.len() == 0
                &&& (v->StructV_0).field_names@.len() <= (v->StructV_0).fields@.len()
                &&& ts[1].kind is FieldAccess
                &&& ts[2].kind is Ident
                &&& (exists|j: int|
                    0 <= j < (v->StructV_0).field_names@.len()
                        && ((#[trigger] (v->StructV_0).field_names@[j]))@ == ts[2].text)
                &&& (forall|j: int|
                    0 <= j < (v->StructV_0).field_names@.len()
                        && ((#[trigger] (v->StructV_0).field_names@[j]))@ == ts[2].text
                        ==> crate::access::is_prim((v->StructV_0).fields@[j]))
            }))) ==> ({
                let ts = (crate::lexer::spec_lex(path_str@, 0, 0))->0;
                let v = old(self).root_value(ts[0].text)->0;
                r.0 matches Ok(n) && (exists|j: int|
                    0 <= j < (v->StructV_0).field_names@.len()
                        && ((#[trigger] (v->StructV_0).field_names@[j]))@ == ts[2].text
                        && crate::node_tree::spec_format(n, Seq::empty())
                        == crate::access::leaf_text((v->StructV_0).fields@[j]))
            }),
            ((crate::lexer::spec_lex(path_str@, 0, 0) matches Some(ts) && ts.len() == 3 && (
            old(self).root_value(ts[0].text) matches Some(v) && ({
                &&& v is StructV
                &&& (v->StructV_0).functions@.len() == 0
                &&& ts[1].kind is FieldAccess
                &&& ts[2].kind is Ident
                &&& (forall|j: int|
                    0 <= j < (v->StructV_0).field_names@.len()
                        ==> ((#[trigger] (v->StructV_0).field_names@[j]))@ != ts[2].text)
            })))) ==> r.0 == Err::<NodeTree, ClimbError>(ClimbError::UnexpectedToken),
            (r.0 matches Err(e) && e is MissingStartComponent) ==> ({
                &&& crate::lexer::spec_lex(path_str@, 0, 0) matches Some(ts) && ts.len() > 0
                    && !name_in(old(self).local_names(), ts[0].text) && !name_in(
                    old(self).send_names(),
                    ts[0].text,
                ) && root_suggestions(*old(self), path_str@, ts[0].text.len(), r.1)
            }),
    {
        self.evaluate(path_str, true)
    }

    /// Evaluate a path: a read renders the value reached, an assignment
    /// or mutating call commits its one mutation.
    pub fn access(&mut self, path_str: &str) -> (r: (Result<NodeTree, ClimbError>, Assist<String>))
        ensures
            (crate::lexer::spec_lex(path_str@, 0, 0) is None) ==> (r.0 matches Err(e)
                && e is TokenError),
            (crate::lexer::spec_lex(path_str@, 0, 0) matches Some(ts) && ts.len() == 0) ==> (
            r.0 matches Err(e) && e is NullPath),
            (r.0 matches Err(e) && (e is TokenError || e is NullPath)) ==> root_suggestions(
                *old(self),
                path_str@,
                0,
                r.1,
            ),
            (crate::lexer::spec_lex(path_str@, 0, 0) matches Some(ts) && ts.len() > 0
                && !name_in(old(self).local_names(), ts[0].text) && !name_in(
                old(self).send_names(),
                ts[0].text,
            )) ==> r.0 == Err::<NodeTree, ClimbError>(ClimbError::MissingStartComponent),
            (crate::lexer::spec_lex(path_str@, 0, 0) matches Some(ts) && ts.len() == 1
                && (old(self).root_value(ts[0].text) matches Some(v) && crate::access::is_prim(
                v,
            ))) ==> ({
                let v = old(self).root_value(
                    (crate::lexer::spec_lex(path_str@, 0, 0))->0[0].text,
                )->0;
                r.0 matches Ok(n) && crate::node_tree::spec_format(n, Seq::empty())
                    == crate::access::leaf_text(v)
            }),
            (crate::lexer::spec_lex(path_str@, 0, 0) matches Some(ts) && ts.len() == 3 && (old(
                self,
            ).root_value(ts[0].text) matches Some(v) && ({
                &&& v is StructV
                &&& (v->StructV_0).functions@.len() == 0
                &&& (v->StructV_0).field_names@.len() <= (v->StructV_0).fields@.len()
                &&& ts[1].kind is FieldAccess
                &&& ts[2].kind is Ident
                &&& (exists|j: int|
                    0 <= j < (v->StructV_0).field_names@.len()
                        && ((#[trigger] (v->StructV_0).field_names@[j]))@ == ts[2].text)
                &&& (forall|j: int|
                    0 <= j < (v->StructV_0).field_names@.len()
                        && ((#[trigger] (v->StructV_0).field_names@[j]))@ == ts[2].text
                        ==> crate::access::is_prim((v->StructV_0).fields@[j]))
            }))) ==> ({
                let ts = (crate::lexer::spec_lex(path_str@, 0, 0))->0;
                let v = old(self).root_value(ts[0].text)->0;
                r.0 matches Ok(n) && (exists|j: int|
                    0 <= j < (v->StructV_0).field_names@.len()
                        && ((#[trigger] (v->StructV_0).field_names@[j]))@ == ts[2].text
                        && crate::node_tree::spec_format(n, Seq::empty())
                        == crate::access::leaf_text((v->StructV_0).fields@[j]))
            }),
            ((crate::lexer::spec_lex(path_str@, 0, 0) matches Some(ts) && ts.len() == 3 && (
            old(self).root_value(ts[0].text) matches Some(v) && ({
                &&& v is StructV
                &&& (v->StructV_0).functions@.len() == 0
                &&& ts[1].kind is FieldAccess
                &&& ts[2].kind is Ident
                &&& (forall|j: int|
                    0 <= j < (v->StructV_0).field_names@.len()
                        ==> ((#[trigger] (v->StructV_0).field_names@[j]))@ != ts[2].text)
            })))) ==> r.0 == Err::<NodeTree, ClimbError>(ClimbError::UnexpectedToken),
            ((crate::lexer::spec_lex(path_str@, 0, 0) matches Some(ts)
                && ts.len() == 5 && (old(self).root_value(ts[0].text) matches Some(v) && ({
                &&& v is StructV
                &&& (v->StructV_0).functions@.len() == 0
                &&& (v->StructV_0).field_names@.len() <= (v->StructV_0).fields@.len()
                &&& ts[1].kind is FieldAccess
                &&& ts[2].kind is Ident
                &&& ts[3].kind is Assign
                &&& (exists|j: int|
                    0 <= j < (v->StructV_0).field_names@.len()
                        && ((#[trigger] (v->StructV_0).field_names@[j]))@ == ts[2].text)
                &&& (forall|j: int|
                    0 <= j < (v->StructV_0).field_names@.len()
                        && ((#[trigger] (v->StructV_0).field_names@[j]))@ == ts[2].text
                        ==> crate::access::is_prim((v->StructV_0).fields@[j]))
                &&& (forall|j: int, k: int|
                    0 <= j < (v->StructV_0).field_names@.len() && 0 <= k < (
                    v->StructV_0).field_names@.len() && ((
                    #[trigger] (v->StructV_0).field_names@[j]))@ == ts[2].text && ((
                    #[trigger] (v->StructV_0).field_names@[k]))@ == ts[2].text ==> j == k)
            })))) ==> ({
                let ts = (crate::lexer::spec_lex(path_str@, 0, 0))->0;
                let v = old(self).root_value(ts[0].text)->0;
                exists|j: int|
                    0 <= j < (v->StructV_0).field_names@.len() && ((
                    #[trigger] (v->StructV_0).field_names@[j]))@ == ts[2].text && ({
                        let outcome = crate::access::spec_assign_outcome_tok(
                            (v->StructV_0).fields@[j],
                            ts[4],
                        );
                        &&& (r.0 is Ok <==> outcome is None)
                        &&& (r.0 matches Ok(n) ==> (crate::node_tree::spec_format(
                            n,
                            Seq::empty(),
                        ).len() == 0 && (crate::access::spec_assign_result_tok(
                            (v->StructV_0).fields@[j],
                            ts[4],
                        ) matches Ok(w) ==> (final(self).root_value(ts[0].text)
                            matches Some(v2) && crate::access::spec_value_at(
                            v2,
                            seq![j as usize],
                        ) == Some(w)))))
                    })
            }),
            (r.0 matches Err(e) && e is MissingStartComponent) ==> ({
                &&& crate::lexer::spec_lex(path_str@, 0, 0) matches Some(ts) && ts.len() > 0
                    && !name_in(old(self).local_names(), ts[0].text) && !name_in(
                    old(self).send_names(),
                    ts[0].text,
                ) && root_suggestions(*old(self), path_str@, ts[0].text.len(), r.1)
            }),
    {
        self.evaluate(path_str, false)
    }

    /// All registered names, both dictionaries merged into one
    /// namespace, in alphabetical order and each name listed once.
    #[verifier::loop_isolation(false)]
    pub fn keys(&self) -> (r: Vec<String>)
        ensures
            names_sorted(r@.map_values(|s: String| s@)),
            forall|k: int|
                0 <= k < r@.len() ==> (name_in(self.send_names(), (#[trigger] r@[k])@)
                    || name_in(self.local_names(), (r@[k])@)),
            self.send matches Some(x) ==> forall|k: int|
                0 <= k < x.owned@.len() ==> name_in(
                    r@.map_values(|s: String| s@),
                    (#[trigger] x.owned@[k]).0@,
                ),
            self.local matches Some(x) ==> forall|k: int|
                0 <= k < x.owned@.len() ==> name_in(
                    r@.map_values(|s: String| s@),
                    (#[trigger] x.owned@[k]).0@,
                ),
    {
        let mut v: Vec<String> = Vec::new();
        match &self.send {
            None => {},
            Some(x) => {
                let mut i: usize = 0;
                while i < x.owned.len()
                    invariant
                        i <= x.owned@.len(),
                        names_sorted(v@.map_values(|s: String| s@)),
                        forall|k: int|
                            0 <= k < i ==> name_in(
                                v@.map_values(|s: String| s@),
                                (#[trigger] x.owned@[k]).0@,
                            ),
                        forall|k: int|
                            0 <= k < v@.len() ==> name_in(
                                self.send_names(),
                                (#[trigger] v@[k])@,
                            ),
                    decreases x.owned@.len() - i,
                {
                    let ghost prev = v@;
                    sorted_insert_name(&mut v, x.owned[i].0.as_str());
                    proof {
                        assert forall|k: int|
                            0 <= k < i + 1 implies name_in(
                                v@.map_values(|s: String| s@),
                                (#[trigger] x.owned@[k]).0@,
                            ) by {
                            if k < i {
                                keep_membership_one(prev, v@, x.owned@[k].0@);
                            }
                        }
                        assert forall|k: int|
                            0 <= k < v@.len() implies name_in(
                                self.send_names(),
                                (#[trigger] v@[k])@,
                            ) by {
                            if name_in(prev.map_values(|s: String| s@), (v@[k])@) {
                                let m = prev.map_values(|s: String| s@);
                                let j = choose|j: int| 0 <= j < m.len() && m[j] == (v@[k])@;
                                assert(name_in(self.send_names(), (prev[j])@));
                            } else {
                                assert((v@[k])@ == x.owned@[i as int].0@);
                                assert(self.send_names()[i as int] == x.owned@[i as int].0@);
                            }
                        }
                    }
                    i = i + 1;
                }
            },
        }
        match &self.local {
            None => {},
            Some(x) => {
                let mut i: usize = 0;
                while i < x.owned.len()
                    invariant
                        i <= x.owned@.len(),
                        names_sorted(v@.map_values(|s: String| s@)),
                        self.send matches Some(y) ==> forall|k: int|
                            0 <= k < y.owned@.len() ==> name_in(
                                v@.map_values(|s: String| s@),
                                (#[trigger] y.owned@[k]).0@,
                            ),
                        forall|k: int|
                            0 <= k < i ==> name_in(
                                v@.map_values(|s: String| s@),
                                (#[trigger] x.owned@[k]).0@,
                            ),
                        forall|k: int|
                            0 <= k < v@.len() ==> (name_in(
                                self.send_names(),
                                (#[trigger] v@[k])@,
                            ) || name_in(self.local_names(), (v@[k])@)),
                    decreases x.owned@.len() - i,
                {
                    let ghost prev = v@;
                    sorted_insert_name(&mut v, x.owned[i].0.as_str());
                    proof {
                        if self.send is Some {
                            let y = self.send->0;
                            assert forall|k: int|
                                0 <= k < y.owned@.len() implies name_in(
                                    v@.map_values(|s: String| s@),
                                    (#[trigger] y.owned@[k]).0@,
                                ) by {
                                keep_membership_one(prev, v@, y.owned@[k].0@);
                            }
                        }
                        assert forall|k: int|
                            0 <= k < i + 1 implies name_in(
                                v@.map_values(|s: String| s@),
                                (#[trigger] x.owned@[k]).0@,
                            ) by {
                            if k < i {
                                keep_membership_one(prev, v@, x.owned@[k].0@);
                            }
                        }
                        assert forall|k: int|
                            0 <= k < v@.len() implies (name_in(
                                self.send_names(),
                                (#[trigger] v@[k])@,
                            ) || name_in(self.local_names(), (v@[k])@)) by {
                            if name_in(prev.map_values(|s: String| s@), (v@[k])@) {
                                let m = prev.map_values(|s: String| s@);
                                let j = choose|j: int| 0 <= j < m.len() && m[j] == (v@[k])@;
                                assert(name_in(self.send_names(), (prev[j])@) || name_in(
                                    self.local_names(),
                                    (prev[j])@,
                                ));
                            } else {
                                assert((v@[k])@ == x.owned@[i as int].0@);
                                assert(self.local_names()[i as int] == x.owned@[i as int].0@);
                            }
                        }
                    }
                    i = i + 1;
                }
            },
        }
        v
    }

    /// The query entry point: split off the root name, climb the rest of
    /// the tokens against the named value, convert the climb's progress
    /// into character-based assistance, and commit the recorded mutation
    /// unless probing.  Probing never changes the dictionaries.
    #[verifier::loop_isolation(false)]
    #[verifier::rlimit(100)]
    pub fn evaluate(&mut self, path_str: &str, probe_only: bool) -> (r: (
        Result<NodeTree, ClimbError>,
        Assist<String>,
    ))
        ensures
            probe_only ==> *final(self) == *old(self),
            (crate::lexer::spec_lex(path_str@, 0, 0) is None) ==> (r.0 matches Err(e)
                && e is TokenError),
            (crate::lexer::spec_lex(path_str@, 0, 0) matches Some(ts) && ts.len() == 0) ==> (
            r.0 matches Err(e) && e is NullPath),
            (r.0 matches Err(e) && (e is TokenError || e is NullPath)) ==> root_suggestions(
                *old(self),
                path_str@,
                0,
                r.1,
            ),
            (crate::lexer::spec_lex(path_str@, 0, 0) matches Some(ts) && ts.len() > 0
                && !name_in(old(self).local_names(), ts[0].text) && !name_in(
                old(self).send_names(),
                ts[0].text,
            )) ==> r.0 == Err::<NodeTree, ClimbError>(ClimbError::MissingStartComponent),
            (crate::lexer::spec_lex(path_str@, 0, 0) matches Some(ts) && ts.len() == 1
                && (old(self).root_value(ts[0].text) matches Some(v) && crate::access::is_prim(
                v,
            ))) ==> ({
                let v = old(self).root_value(
                    (crate::lexer::spec_lex(path_str@, 0, 0))->0[0].text,
                )->0;
                r.0 matches Ok(n) && crate::node_tree::spec_format(n, Seq::empty())
                    == crate::access::leaf_text(v)
            }),
            (crate::lexer::spec_lex(path_str@, 0, 0) matches Some(ts) && ts.len() == 3 && (old(
                self,
            ).root_value(ts[0].text) matches Some(v) && ({
                &&& v is StructV
                &&& (v->StructV_0).functions@.len() == 0
                &&& (v->StructV_0).field_names@.len() <= (v->StructV_0).fields@.len()
                &&& ts[1].kind is FieldAccess
                &&& ts[2].kind is Ident
                &&& (exists|j: int|
                    0 <= j < (v->StructV_0).field_names@.len()
                        && ((#[trigger] (v->StructV_0).field_names@[j]))@ == ts[2].text)
                &&& (forall|j: int|
                    0 <= j < (v->StructV_0).field_names@.len()
                        && ((#[trigger] (v->StructV_0).field_names@[j]))@ == ts[2].text
                        ==> crate::access::is_prim((v->StructV_0).fields@[j]))
            }))) ==> ({
                let ts = (crate::lexer::spec_lex(path_str@, 0, 0))->0;
                let v = old(self).root_value(ts[0].text)->0;
                r.0 matches Ok(n) && (exists|j: int|
                    0 <= j < (v->StructV_0).field_names@.len()
                        && ((#[trigger] (v->StructV_0).field_names@[j]))@ == ts[2].text
                        && crate::node_tree::spec_format(n, Seq::empty())
                        == crate::access::leaf_text((v->StructV_0).fields@[j]))
            }),
            ((crate::lexer::spec_lex(path_str@, 0, 0) matches Some(ts) && ts.len() == 3 && (
            old(self).root_value(ts[0].text) matches Some(v) && ({
                &&& v is StructV
                &&& (v->StructV_0).functions@.len() == 0
                &&& ts[1].kind is FieldAccess
                &&& ts[2].kind is Ident
                &&& (forall|j: int|
                    0 <= j < (v->StructV_0).field_names@.len()
                        ==> ((#[trigger] (v->StructV_0).field_names@[j]))@ != ts[2].text)
            })))) ==> r.0 == Err::<NodeTree, ClimbError>(ClimbError::UnexpectedToken),
            (!probe_only && (crate::lexer::spec_lex(path_str@, 0, 0) matches Some(ts)
                && ts.len() == 5 && (old(self).root_value(ts[0].text) matches Some(v) && ({
                &&& v is StructV
                &&& (v->StructV_0).functions@.len() == 0
                &&& (v->StructV_0).field_names@.len() <= (v->StructV_0).fields@.len()
                &&& ts[1].kind is FieldAccess
                &&& ts[2].kind is Ident
                &&& ts[3].kind is Assign
                &&& (exists|j: int|
                    0 <= j < (v->StructV_0).field_names@.len()
                        && ((#[trigger] (v->StructV_0).field_names@[j]))@ == ts[2].text)
                &&& (forall|j: int|
                    0 <= j < (v->StructV_0).field_names@.len()
                        && ((#[trigger] (v->StructV_0).field_names@[j]))@ == ts[2].text
                        ==> crate::access::is_prim((v->StructV_0).fields@[j]))
                &&& (forall|j: int, k: int|
                    0 <= j < (v->StructV_0).field_names@.len() && 0 <= k < (
                    v->StructV_0).field_names@.len() && ((
                    #[trigger] (v->StructV_0).field_names@[j]))@ == ts[2].text && ((
                    #[trigger] (v->StructV_0).field_names@[k]))@ == ts[2].text ==> j == k)
            })))) ==> ({
                let ts = (crate::lexer::spec_lex(path_str@, 0, 0))->0;
                let v = old(self).root_value(ts[0].text)->0;
                exists|j: int|
                    0 <= j < (v->StructV_0).field_names@.len() && ((
                    #[trigger] (v->StructV_0).field_names@[j]))@ == ts[2].text && ({
                        let outcome = crate::access::spec_assign_outcome_tok(
                            (v->StructV_0).fields@[j],
                            ts[4],
                        );
                        &&& (r.0 is Ok <==> outcome is None)
                        &&& (r.0 matches Ok(n) ==> (crate::node_tree::spec_format(
                            n,
                            Seq::empty(),
                        ).len() == 0 && (crate::access::spec_assign_result_tok(
                            (v->StructV_0).fields@[j],
                            ts[4],
                        ) matches Ok(w) ==> (final(self).root_value(ts[0].text)
                            matches Some(v2) && crate::access::spec_value_at(
                            v2,
                            seq![j as usize],
                        ) == Some(w)))))
                    })
            }),
            (r.0 matches Err(e) && e is MissingStartComponent) ==> ({
                &&& crate::lexer::spec_lex(path_str@, 0, 0) matches Some(ts) && ts.len() > 0
                    && !name_in(old(self).local_names(), ts[0].text) && !name_in(
                    old(self).send_names(),
                    ts[0].text,
                ) && root_suggestions(*old(self), path_str@, ts[0].text.len(), r.1)
            }),
    {
        let matching = self.matching_keys(path_str);
        let tokens = match crate::lexer::parse_to_tokens(path_str) {
            Err(err) => {
                let a = ret_assist(0, matching);
                proof {
                    assert(root_suggestions(*self, path_str@, 0, a));
                }
                return (Err(ClimbError::TokenError(err)), a);
            },
            Ok(tokens) => tokens,
        };
        if tokens.len() == 0 {
            let a = ret_assist(0, matching);
            proof {
                assert(root_suggestions(*self, path_str@, 0, a));
            }
            return (Err(ClimbError::NullPath), a);
        }
        let first_len = tokens[0].text.as_str().unicode_len();
        let start_pos = sat_add(tokens[0].space_diff, first_len);
        let mut rest: Vec<Token> = Vec::new();
        let mut ti: usize = 1;
        while ti < tokens.len()
            invariant
                1 <= ti <= tokens@.len(),
                rest@.len() == ti - 1,
                forall|k: int| 0 <= k < ti - 1 ==> ((#[trigger] rest@[k]))@ == tokens@[k + 1]@,
            decreases tokens@.len() - ti,
        {
            rest.push(tokens[ti].clone_owned());
            ti = ti + 1;
        }

        // Find the root value: the confined dictionary shadows the shared
        // one, as a later insertion into one namespace would.
        let ghost first_text = tokens@[0]@.text;
        let mut in_local = false;
        let mut idx: usize = 0;
        let mut found = false;
        match &self.local {
            Some(x) => {
                let mut i: usize = 0;
                proof {
                    assert(x.owned@.skip(0) =~= x.owned@);
                }
                while i < x.owned.len()
                    invariant
                        i <= x.owned@.len(),
                        found ==> in_local && idx < x.owned@.len()
                            && x.owned@[idx as int].0@ == first_text,
                        found ==> find_name(x.owned@, first_text) == Some(
                            x.owned@[idx as int].1,
                        ),
                        found ==> forall|j: int|
                            0 <= j < idx ==> ((#[trigger] x.owned@[j]).0)@ != first_text,
                        !found ==> !in_local,
                        !found ==> forall|j: int|
                            0 <= j < i ==> (#[trigger] x.owned@[j]).0@ != first_text,
                        !found ==> find_name(x.owned@, first_text) == find_name(
                            x.owned@.skip(i as int),
                            first_text,
                        ),
                    decreases x.owned@.len() - i,
                {
                    proof {
                        assert(x.owned@.skip(i as int).skip(1) =~= x.owned@.skip(i + 1));
                        assert(x.owned@.skip(i as int)[0] == x.owned@[i as int]);
                    }
                    if !found && str_eq_chars(x.owned[i].0.as_str(), tokens[0].text.as_str()) {
                        found = true;
                        in_local = true;
                        idx = i;
                    }
                    i = i + 1;
                }
                proof {
                    if !found {
                        assert(!name_in(self.local_names(), first_text)) by {
                            if name_in(self.local_names(), first_text) {
                                let k = choose|k: int|
                                    0 <= k < self.local_names().len() && self.local_names()[k]
                                        == first_text;
                                assert(x.owned@[k].0@ == first_text);
                            }
                        }
                    }
                }
            },
            None => {},
        }
        if !found {
            match &self.send {
                Some(x) => {
                    let mut i: usize = 0;
                    proof {
                        assert(x.owned@.skip(0) =~= x.owned@);
                    }
                    while i < x.owned.len()
                        invariant
                            i <= x.owned@.len(),
                            found ==> !in_local && idx < x.owned@.len()
                                && x.owned@[idx as int].0@ == first_text,
                            found ==> find_name(x.owned@, first_text) == Some(
                                x.owned@[idx as int].1,
                            ),
                            found ==> forall|j: int|
                                0 <= j < idx ==> ((#[trigger] x.owned@[j]).0)@ != first_text,
                            !found ==> !in_local,
                            !found ==> forall|j: int|
                                0 <= j < i ==> (#[trigger] x.owned@[j]).0@ != first_text,
                            !found ==> find_name(x.owned@, first_text) == find_name(
                                x.owned@.skip(i as int),
                                first_text,
                            ),
                        decreases x.owned@.len() - i,
                    {
                        proof {
                            assert(x.owned@.skip(i as int).skip(1) =~= x.owned@.skip(i + 1));
                            assert(x.owned@.skip(i as int)[0] == x.owned@[i as int]);
                        }
                        if !found && str_eq_chars(x.owned[i].0.as_str(), tokens[0].text.as_str()) {
                            found = true;
                            idx = i;
                        }
                        i = i + 1;
                    }
                    proof {
                        if !found {
                            assert(!name_in(self.send_names(), first_text)) by {
                                if name_in(self.send_names(), first_text) {
                                    let k = choose|k: int|
                                        0 <= k < self.send_names().len() && self.send_names()[k]
                                            == first_text;
                                    assert(x.owned@[k].0@ == first_text);
                                }
                            }
                        }
                    }
                },
                None => {},
            }
        }
        proof {
            if found && in_local {
                assert(name_in(self.local_names(), first_text)) by {
                    match self.local {
                        Some(x) => {
                            assert(self.local_names()[idx as int] == first_text);
                        },
                        None => {},
                    }
                }
            }
            if found && !in_local {
                assert(name_in(self.send_names(), first_text)) by {
                    match self.send {
                        Some(x) => {
                            assert(self.send_names()[idx as int] == first_text);
                        },
                        None => {},
                    }
                }
            }
        }
        if !found {
            let a = ret_assist(first_len, matching);
            proof {
                assert(first_len == first_text.len());
                assert(root_suggestions(*self, path_str@, first_text.len(), a));
            }
            return (Err(ClimbError::MissingStartComponent), a);
        }

        // Climb, immutably first; on a promotion signal retry the same
        // tokens from a fresh snapshot with write access.
        let mut climber = Climber::new(200, probe_only, rest);
        let mut res: Result<NodeTree, ClimbError>;
        if in_local {
            let x = match &self.local {
                Some(x) => x,
                None => {
                    return (
                        Err(ClimbError::MissingStartComponent),
                        ret_assist(first_len, matching),
                    );
                },
            };
            if idx >= x.owned.len() {
                return (Err(ClimbError::MissingStartComponent), ret_assist(first_len, matching));
            }
            let depth = sat_add(x.graph.cells.len(), 16);
            res = climber.general_access_immut(&x.graph, &x.owned[idx].1, depth);
            if res_needs_mut(&res) {
                let mut rest2: Vec<Token> = Vec::new();
                let mut tj: usize = 0;
                let saved = climber.tokenvec;
                let total = saved.len();
                let mut saved = saved;
                saved.take_pos(0);
                while tj < total
                    invariant
                        saved.wf(),
                        total == saved.toks().len(),
                        rest2@.len() == tj,
                        forall|k: int|
                            0 <= k < tj ==> ((#[trigger] rest2@[k]))@ == saved.toks()[k]@,
                    decreases total - tj,
                {
                    proof {
                        assert(tj < saved.toks().len());
                    }
                    rest2.push(copy_token_at(&saved, tj));
                    tj = tj + 1;
                }
                climber = Climber::new(200, probe_only, rest2);
                let loc = crate::climber::Location {
                    base: LocBase::RootAt(idx),
                    steps: Vec::new(),
                };
                res = climber.general_access_mut(&x.graph, loc, &x.owned[idx].1, depth);
            }
        } else {
            let x = match &self.send {
                Some(x) => x,
                None => {
                    return (
                        Err(ClimbError::MissingStartComponent),
                        ret_assist(first_len, matching),
                    );
                },
            };
            if idx >= x.owned.len() {
                return (Err(ClimbError::MissingStartComponent), ret_assist(first_len, matching));
            }
            let depth = sat_add(x.graph.cells.len(), 16);
            res = climber.general_access_immut(&x.graph, &x.owned[idx].1, depth);
            if res_needs_mut(&res) {
                let mut rest2: Vec<Token> = Vec::new();
                let mut tj: usize = 0;
                let saved = climber.tokenvec;
                let total = saved.len();
                let mut saved = saved;
                saved.take_pos(0);
                while tj < total
                    invariant
                        saved.wf(),
                        total == saved.toks().len(),
                        rest2@.len() == tj,
                        forall|k: int|
                            0 <= k < tj ==> ((#[trigger] rest2@[k]))@ == saved.toks()[k]@,
                    decreases total - tj,
                {
                    proof {
                        assert(tj < saved.toks().len());
                    }
                    rest2.push(copy_token_at(&saved, tj));
                    tj = tj + 1;
                }
                climber = Climber::new(200, probe_only, rest2);
                let loc = crate::climber::Location {
                    base: LocBase::RootAt(idx),
                    steps: Vec::new(),
                };
                res = climber.general_access_mut(&x.graph, loc, &x.owned[idx].1, depth);
            }
        }

        // Commit the one recorded mutation, never when probing.
        if !probe_only && res.is_ok() {
            let mut taken: Option<Mutation> = None;
            core::mem::swap(&mut climber.mutation, &mut taken);
            match taken {
                Some(m) => {
                    let ghost gm = m;
                    if in_local {
                        match &mut self.local {
                            Some(x) => {
                                let ghost pre = x.owned@;
                                proof {
                                    if (gm.loc.base matches LocBase::RootAt(i) && i == idx)
                                        && gm.loc.steps@.len() == 1 && idx < pre.len() {
                                        let j0 = gm.loc.steps@[0];
                                        assert(gm.loc.steps@ =~= seq![j0]);
                                        crate::access::lemma_value_at_one(
                                            pre[idx as int].1,
                                            j0,
                                        );
                                    }
                                }
                                let committed = apply_mutation(&mut x.owned, &mut x.graph, m);
                                proof {
                                    if committed && (gm.loc.base matches LocBase::RootAt(i)
                                        && i == idx) && x.owned@[idx as int].0@ == first_text {
                                        lemma_find_name_update(
                                            pre,
                                            x.owned@,
                                            idx as int,
                                            first_text,
                                        );
                                        if gm.loc.steps@.len() == 1 {
                                            let j0 = gm.loc.steps@[0];
                                            assert(gm.loc.steps@ =~= seq![j0]);
                                            crate::access::lemma_value_at_one(
                                                pre[idx as int].1,
                                                j0,
                                            );
                                            crate::access::lemma_value_at_one(
                                                x.owned@[idx as int].1,
                                                j0,
                                            );
                                        }
                                    }
                                }
                            },
                            None => {},
                        }
                    } else {
                        match &mut self.send {
                            Some(x) => {
                                let ghost pre = x.owned@;
                                proof {
                                    if (gm.loc.base matches LocBase::RootAt(i) && i == idx)
                                        && gm.loc.steps@.len() == 1 && idx < pre.len() {
                                        let j0 = gm.loc.steps@[0];
                                        assert(gm.loc.steps@ =~= seq![j0]);
                                        crate::access::lemma_value_at_one(
                                            pre[idx as int].1,
                                            j0,
                                        );
                                    }
                                }
                                let committed = apply_mutation(&mut x.owned, &mut x.graph, m);
                                proof {
                                    if committed && (gm.loc.base matches LocBase::RootAt(i)
                                        && i == idx) && x.owned@[idx as int].0@ == first_text {
                                        lemma_find_name_update(
                                            pre,
                                            x.owned@,
                                            idx as int,
                                            first_text,
                                        );
                                        if gm.loc.steps@.len() == 1 {
                                            let j0 = gm.loc.steps@[0];
                                            assert(gm.loc.steps@ =~= seq![j0]);
                                            crate::access::lemma_value_at_one(
                                                pre[idx as int].1,
                                                j0,
                                            );
                                            crate::access::lemma_value_at_one(
                                                x.owned@[idx as int].1,
                                                j0,
                                            );
                                        }
                                    }
                                }
                            },
                            None => {},
                        }
                    }
                },
                None => {},
            }
        }

        // Compute rendered sizes, bottom-up, on the resolved tree.
        let res = match res {
            Ok(mut node) => {
                let empty_pending: Vec<NodeTree> = Vec::new();
                proof {
                    crate::node_tree::lemma_free_bounded(node, 0);
                }
                match crate::node_tree::try_size(&node) {
                    Some(_) => {
                        node.resolve(&empty_pending);
                    },
                    None => {},
                }
                Ok(node)
            },
            Err(e) => Err(e),
        };

        // Convert the token-based assist into character offsets.
        let tokens_copy = copy_tokens(&climber.tokenvec);
        let (old_assist, pending_partial) = climber.convert_to_assist();
        let (valid, pending, pending_special, next_options) = old_assist.dismantle();

        let mut valid_len = start_pos;
        let mut i: usize = 0;
        let vstop = if valid <= tokens_copy.len() {
            valid
        } else {
            tokens_copy.len()
        };
        while i < vstop
            invariant
                vstop <= tokens_copy@.len(),
            decreases vstop - i,
        {
            valid_len = sat_add(valid_len, token_char_len(&tokens_copy[i]));
            i = i + 1;
        }
        let mut new_assist: Assist<String> = Assist::default();
        new_assist.pend(valid_len);
        new_assist.commit_pending();

        let mut pending_len: usize = 0;
        let mut pending_avail: usize = 0;
        let mut pending_special_len: usize = 0;
        let pstop = if sat_add(valid, pending) <= tokens_copy.len() {
            sat_add(valid, pending)
        } else {
            tokens_copy.len()
        };
        let mut j: usize = vstop;
        while j < pstop
            invariant
                pstop <= tokens_copy@.len(),
                vstop <= j,
            decreases pstop - j,
        {
            let nr_pending = j - vstop;
            pending_len = sat_add(pending_len, token_char_len(&tokens_copy[j]));
            match &next_options {
                NextOptions::Avail(pos, _) => {
                    if nr_pending < *pos {
                        pending_avail = pending_len;
                    }
                },
                NextOptions::NoOptions => {},
            }
            if pending >= pending_special && j >= sat_add(vstop, pending - pending_special) {
                pending_special_len = sat_add(pending_special_len, token_char_len(&tokens_copy[j]));
            }
            j = j + 1;
        }
        new_assist.pend(pending_len);
        new_assist.set_pending_special(pending_special_len);

        let next_options = match next_options {
            NextOptions::NoOptions => NextOptions::NoOptions,
            NextOptions::Avail(_, v) => {
                let off = if pending_avail >= pending_partial {
                    pending_avail - pending_partial
                } else {
                    0
                };
                NextOptions::Avail(off, conv_suggestions(v))
            },
        };

        (res, new_assist.next_options(next_options))
    }

    /// The registered names the typed text is a prefix of, merged from
    /// both dictionaries, in alphabetical order, each listed once.
    #[verifier::loop_isolation(false)]
    fn matching_keys(&self, path_str: &str) -> (r: Vec<String>)
        ensures
            names_sorted(r@.map_values(|s: String| s@)),
            forall|k: int|
                0 <= k < r@.len() ==> ((name_in(self.send_names(), (#[trigger] r@[k])@)
                    || name_in(self.local_names(), (r@[k])@)) && path_str@.is_prefix_of(
                    (r@[k])@,
                )),
            self.send matches Some(x) ==> forall|k: int|
                0 <= k < x.owned@.len() && path_str@.is_prefix_of(
                    (#[trigger] x.owned@[k]).0@,
                ) ==> name_in(r@.map_values(|s: String| s@), x.owned@[k].0@),
            self.local matches Some(x) ==> forall|k: int|
                0 <= k < x.owned@.len() && path_str@.is_prefix_of(
                    (#[trigger] x.owned@[k]).0@,
                ) ==> name_in(r@.map_values(|s: String| s@), x.owned@[k].0@),
    {
        let mut v: Vec<String> = Vec::new();
        match &self.send {
            None => {},
            Some(x) => {
                let mut i: usize = 0;
                while i < x.owned.len()
                    invariant
                        i <= x.owned@.len(),
                        names_sorted(v@.map_values(|s: String| s@)),
                        forall|k: int|
                            0 <= k < i && path_str@.is_prefix_of(
                                (#[trigger] x.owned@[k]).0@,
                            ) ==> name_in(v@.map_values(|s: String| s@), x.owned@[k].0@),
                        forall|k: int|
                            0 <= k < v@.len() ==> (name_in(
                                self.send_names(),
                                (#[trigger] v@[k])@,
                            ) && path_str@.is_prefix_of((v@[k])@)),
                    decreases x.owned@.len() - i,
                {
                    if str_prefix_chars(path_str, x.owned[i].0.as_str()) {
                        let ghost prev = v@;
                        sorted_insert_name(&mut v, x.owned[i].0.as_str());
                        proof {
                            assert forall|k: int|
                                0 <= k < i + 1 && path_str@.is_prefix_of(
                                    (#[trigger] x.owned@[k]).0@,
                                ) implies name_in(
                                v@.map_values(|s: String| s@),
                                x.owned@[k].0@,
                            ) by {
                                if k < i {
                                    keep_membership_one(prev, v@, x.owned@[k].0@);
                                }
                            }
                            assert forall|k: int|
                                0 <= k < v@.len() implies (name_in(
                                self.send_names(),
                                (#[trigger] v@[k])@,
                            ) && path_str@.is_prefix_of((v@[k])@)) by {
                                if name_in(prev.map_values(|s: String| s@), (v@[k])@) {
                                    let m = prev.map_values(|s: String| s@);
                                    let j = choose|j: int| 0 <= j < m.len() && m[j] == (v@[k])@;
                                    assert(name_in(self.send_names(), (prev[j])@));
                                } else {
                                    assert((v@[k])@ == x.owned@[i as int].0@);
                                    assert(self.send_names()[i as int] == x.owned@[i as int].0@);
                                }
                            }
                        }
                    }
                    i = i + 1;
                }
            },
        }
        match &self.local {
            None => {},
            Some(x) => {
                let mut i: usize = 0;
                while i < x.owned.len()
                    invariant
                        i <= x.owned@.len(),
                        names_sorted(v@.map_values(|s: String| s@)),
                        self.send matches Some(y) ==> forall|k: int|
                            0 <= k < y.owned@.len() && path_str@.is_prefix_of(
                                (#[trigger] y.owned@[k]).0@,
                            ) ==> name_in(v@.map_values(|s: String| s@), y.owned@[k].0@),
                        forall|k: int|
                            0 <= k < i && path_str@.is_prefix_of(
                                (#[trigger] x.owned@[k]).0@,
                            ) ==> name_in(v@.map_values(|s: String| s@), x.owned@[k].0@),
                        forall|k: int|
                            0 <= k < v@.len() ==> ((name_in(
                                self.send_names(),
                                (#[trigger] v@[k])@,
                            ) || name_in(self.local_names(), (v@[k])@)) && path_str@.is_prefix_of(
                                (v@[k])@,
                            )),
                    decreases x.owned@.len() - i,
                {
                    if str_prefix_chars(path_str, x.owned[i].0.as_str()) {
                        let ghost prev = v@;
                        sorted_insert_name(&mut v, x.owned[i].0.as_str());
                        proof {
                            if self.send is Some {
                                let y = self.send->0;
                                assert forall|k: int|
                                    0 <= k < y.owned@.len() && path_str@.is_prefix_of(
                                        (#[trigger] y.owned@[k]).0@,
                                    ) implies name_in(
                                    v@.map_values(|s: String| s@),
                                    y.owned@[k].0@,
                                ) by {
                                    keep_membership_one(prev, v@, y.owned@[k].0@);
                                }
                            }
                            assert forall|k: int|
                                0 <= k < i + 1 && path_str@.is_prefix_of(
                                    (#[trigger] x.owned@[k]).0@,
                                ) implies name_in(
                                v@.map_values(|s: String| s@),
                                x.owned@[k].0@,
                            ) by {
                                if k < i {
                                    keep_membership_one(prev, v@, x.owned@[k].0@);
                                }
                            }
                            assert forall|k: int|
                                0 <= k < v@.len() implies ((name_in(
                                self.send_names(),
                                (#[trigger] v@[k])@,
                            ) || name_in(self.local_names(), (v@[k])@)) && path_str@.is_prefix_of(
                                (v@[k])@,
                            )) by {
                                if name_in(prev.map_values(|s: String| s@), (v@[k])@) {
                                    let m = prev.map_values(|s: String| s@);
                                    let j = choose|j: int| 0 <= j < m.len() && m[j] == (v@[k])@;
                                    assert((name_in(self.send_names(), (prev[j])@) || name_in(
                                        self.local_names(),
                                        (prev[j])@,
                                    )) && path_str@.is_prefix_of((prev[j])@));
                                } else {
                                    assert((v@[k])@ == x.owned@[i as int].0@);
                                    assert(self.local_names()[i as int]
                                        == x.owned@[i as int].0@);
                                }
                            }
                        }
                    }
                    i = i + 1;
                }
            },
        }
        v
    }
}

/// The assistance a query that never reached a climb carries: nothing
/// valid, the typed text pending exactly when some root name could still
/// complete it, and the matching root names as options — all of them, in
/// alphabetical order, at offset zero.
pub open spec fn root_suggestions(root: Root, path: Seq<char>, pend_len: nat, a: Assist<
    String,
>) -> bool {
    &&& a.spec_valid() == 0
    &&& a.spec_pending_special() == 0
    &&& match a.spec_next_options() {
        NextOptions::Avail(at, v) => {
            &&& at == 0
            &&& names_sorted(v@.map_values(|s: String| s@))
            &&& forall|k: int|
                0 <= k < v@.len() ==> ((name_in(root.send_names(), (#[trigger] v@[k])@)
                    || name_in(root.local_names(), (v@[k])@)) && path.is_prefix_of((v@[k])@))
            &&& (root.send matches Some(x) ==> forall|k: int|
                0 <= k < x.owned@.len() && path.is_prefix_of((#[trigger] x.owned@[k]).0@)
                    ==> name_in(v@.map_values(|s: String| s@), x.owned@[k].0@))
            &&& (root.local matches Some(x) ==> forall|k: int|
                0 <= k < x.owned@.len() && path.is_prefix_of((#[trigger] x.owned@[k]).0@)
                    ==> name_in(v@.map_values(|s: String| s@), x.owned@[k].0@))
            &&& a.spec_pending() == if v@.len() > 0 {
                pend_len as int
            } else {
                0
            }
        },
        NextOptions::NoOptions => false,
    }
}

/// Whether the climb asks to be retried with write access.
fn res_needs_mut(r: &Result<NodeTree, ClimbError>) -> (b: bool)
    ensures
        b == (r matches Err(e) && e is NeedMutPath),
{
    match r {
        Err(ClimbError::NeedMutPath) => true,
        _ => false,
    }
}

/// The assist for a query that never reached the climb: zero or the typed
/// name's length pending, plus the matching root names.
fn ret_assist(valid: usize, matching: Vec<String>) -> (r: Assist<String>)
    ensures
        r.spec_valid() == 0,
        r.spec_pending_special() == 0,
        r.spec_pending() == if matching@.len() > 0 {
            valid as int
        } else {
            0
        },
        r.spec_next_options() == NextOptions::Avail(0, matching),
{
    let mut assist: Assist<String> = Assist::default();
    if matching.len() > 0 {
        assist.pend(valid);
    }
    assist.next_options(NextOptions::Avail(0, matching))
}

fn str_eq_chars(a: &str, b: &str) -> (r: bool)
    ensures
        r == (a@ == b@),
{
    let ca = crate::tokens::str_to_chars(a);
    let cb = crate::tokens::str_to_chars(b);
    crate::tokens::chars_eq(&ca, &cb)
}

fn str_prefix_chars(a: &str, b: &str) -> (r: bool)
    ensures
        r == a@.is_prefix_of(b@),
{
    let ca = crate::tokens::str_to_chars(a);
    let cb = crate::tokens::str_to_chars(b);
    crate::deser::chars_prefix(&ca, &cb)
}

/// A copy of the token at an index of a cursor's list.
fn copy_token_at(tv: &TokenVec, i: usize) -> (r: Token)
    requires
        i < tv.toks().len(),
    ensures
        r@ == tv.toks()[i as int]@,
{
    let mut probe = tv.clone_owned();
    proof {
        assert(probe.toks().map_values(|t: Token| t@).len() == tv.toks().map_values(
            |t: Token| t@,
        ).len());
    }
    probe.take_pos(i);
    proof {
        assert(probe.toks().map_values(|t: Token| t@)[i as int] == probe.toks()[i as int]@);
        assert(tv.toks().map_values(|t: Token| t@)[i as int] == tv.toks()[i as int]@);
    }
    let t = probe.top();
    t.clone_owned()
}

/// Copies of all of a cursor's tokens.
#[verifier::loop_isolation(false)]
fn copy_tokens(tv: &TokenVec) -> (r: Vec<Token>)
    ensures
        r@.len() == tv.toks().len(),
{
    let mut v: Vec<Token> = Vec::new();
    let total = tv.len();
    let mut i: usize = 0;
    while i < total
        invariant
            i <= total,
            total == tv.toks().len(),
            v@.len() == i,
        decreases total - i,
    {
        v.push(copy_token_at(tv, i));
        i = i + 1;
    }
    v
}

/// Join each suggested token sequence into one display string: up to
/// thirteen spaces of each token's recorded whitespace, then its text.
#[verifier::loop_isolation(false)]
fn conv_suggestions(v: Vec<Vec<Token>>) -> (r: Vec<String>) {
    let mut out: Vec<String> = Vec::new();
    let mut v = v;
    while v.len() > 0
        decreases v@.len(),
    {
        let suggestion = v.remove(0);
        let mut s = String::new();
        let mut k: usize = 0;
        while k < suggestion.len()
            decreases suggestion@.len() - k,
        {
            let t = &suggestion[k];
            let max_space = if t.space_diff < 13 {
                t.space_diff
            } else {
                13
            };
            let mut sp: usize = 0;
            while sp < max_space
                decreases max_space - sp,
            {
                crate::tokens::push_char(&mut s, ' ');
                sp = sp + 1;
            }
            s.append(t.text.as_str());
            k = k + 1;
        }
        out.push(s);
    }
    out
}

} // verus!
