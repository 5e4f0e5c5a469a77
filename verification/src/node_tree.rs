//! The rendered value tree.
//!
//! A `NodeTree` is the reflection of a value: a leaf, a delimited group, a
//! key-value pair, or one of the markers for repeated, truncated, locked or
//! not-yet-resolved parts.  After construction, `resolve` collapses pending
//! placeholders (filled in by the caller from whatever context produced
//! them) and computes each node's rendered size bottom-up.

use vstd::prelude::*;

use crate::tokens::push_char;

verus! {

broadcast use vstd::std_specs::vec::group_vec_axioms;

/// The identity tag of a node that stands for a shared object; two nodes
/// wearing the same tag reflect the same live value.
pub struct Wrap(pub usize);

/// The shape of one rendered node.
pub enum NodeInfo {
    Grouped(char, Box<NodeTree>, char),
    Delimited(char, Vec<NodeTree>),
    Named(Box<NodeTree>, Box<NodeTree>),
    Tuple(Box<NodeTree>, String, Box<NodeTree>),
    Leaf(String),
    Pending(usize),
    BorrowedMut,
    Locked,
    Repeated,
    Limited,
}

/// A reflection of a value.  It may be a partial reflection due to render
/// limits and indirections.
pub struct NodeTree {
    pub info: NodeInfo,
    pub meta: Option<Wrap>,
    pub size: usize,
}

/// No pending placeholder remains anywhere in the node.
pub open spec fn pending_free(n: NodeTree) -> bool
    decreases n,
{
    match n.info {
        NodeInfo::Grouped(_, sub, _) => pending_free(*sub),
        NodeInfo::Delimited(_, v) => list_pending_free(v@),
        NodeInfo::Named(a, b) => pending_free(*a) && pending_free(*b),
        NodeInfo::Tuple(a, _, b) => pending_free(*a) && pending_free(*b),
        NodeInfo::Pending(_) => false,
        _ => true,
    }
}

/// No pending placeholder remains anywhere in the list.
pub open spec fn list_pending_free(v: Seq<NodeTree>) -> bool
    decreases v,
    via list_pending_free_dec
{
    v.len() == 0 || (list_pending_free(v.drop_last()) && pending_free(v.last()))
}

#[via_fn]
proof fn list_pending_free_dec(v: Seq<NodeTree>) {
    if v.len() > 0 {
        assert(decreases_to!(v => v.drop_last()));
        assert(decreases_to!(v => v.last()));
    }
}

/// Every pending placeholder's slot number lies below `len`.
pub open spec fn pending_bounded(n: NodeTree, len: nat) -> bool
    decreases n,
{
    match n.info {
        NodeInfo::Grouped(_, sub, _) => pending_bounded(*sub, len),
        NodeInfo::Delimited(_, v) => list_pending_bounded(v@, len),
        NodeInfo::Named(a, b) => pending_bounded(*a, len) && pending_bounded(*b, len),
        NodeInfo::Tuple(a, _, b) => pending_bounded(*a, len) && pending_bounded(*b, len),
        NodeInfo::Pending(i) => i < len,
        _ => true,
    }
}

/// Every pending placeholder's slot number in the list lies below `len`.
pub open spec fn list_pending_bounded(v: Seq<NodeTree>, len: nat) -> bool
    decreases v,
    via list_pending_bounded_dec
{
    v.len() == 0 || (list_pending_bounded(v.drop_last(), len) && pending_bounded(v.last(), len))
}

#[via_fn]
proof fn list_pending_bounded_dec(v: Seq<NodeTree>, len: nat) {
    if v.len() > 0 {
        assert(decreases_to!(v => v.drop_last()));
        assert(decreases_to!(v => v.last()));
    }
}

/// Orders the two resolution passes: trees substituted from the table are
/// resolved against an empty table and never substitute again.
pub open spec fn table_rank(table: Seq<NodeTree>) -> int {
    if table.len() > 0 {
        1
    } else {
        0
    }
}

/// The rendered size of a node after substituting pending placeholders
/// from `table`: one for the node itself, plus the sizes of its parts.
pub open spec fn spec_size(n: NodeTree, table: Seq<NodeTree>) -> nat
    decreases table_rank(table), n, 1nat,
    via spec_size_dec
{
    match n.info {
        NodeInfo::Grouped(_, sub, _) => 3 + spec_size(*sub, table),
        NodeInfo::Delimited(_, v) => 1 + list_size(v@, table),
        NodeInfo::Named(a, b) => 1 + spec_size(*a, table) + spec_size(*b, table),
        NodeInfo::Tuple(a, sep, b) => 3 + spec_size(*a, table) + sep@.len() + spec_size(
            *b,
            table,
        ),
        NodeInfo::Leaf(s) => 1 + s@.len(),
        NodeInfo::Pending(i) => if i < table.len() {
            spec_size(table[i as int], Seq::empty())
        } else {
            1
        },
        _ => 1,
    }
}

/// The summed size of a list's members, two extra for each member.
pub open spec fn list_size(v: Seq<NodeTree>, table: Seq<NodeTree>) -> nat
    decreases table_rank(table), v, 0nat,
    via list_size_dec
{
    if v.len() == 0 {
        0
    } else {
        list_size(v.drop_last(), table) + spec_size(v.last(), table) + 2
    }
}

#[via_fn]
proof fn spec_size_dec(n: NodeTree, table: Seq<NodeTree>) {
}

#[via_fn]
proof fn list_size_dec(v: Seq<NodeTree>, table: Seq<NodeTree>) {
    if v.len() > 0 {
        assert(decreases_to!(v => v.drop_last()));
        assert(decreases_to!(v => v.last()));
    }
}

/// Whether a grouped node's body renders with no inner spaces, after
/// substitution: only an empty delimited list does.
pub open spec fn spec_group_tight(sub: NodeTree, table: Seq<NodeTree>) -> bool {
    match sub.info {
        NodeInfo::Delimited(_, v) => v@.len() == 0,
        NodeInfo::Pending(i) => i < table.len() && (match table[i as int].info {
            NodeInfo::Delimited(_, v) => v@.len() == 0,
            _ => false,
        }),
        _ => false,
    }
}

/// The plain text rendering of a node, pending placeholders substituted
/// from `table`; one that points outside the table renders as a hole
/// marker.
pub open spec fn spec_format(n: NodeTree, table: Seq<NodeTree>) -> Seq<char>
    decreases table_rank(table), n, 1nat,
    via spec_format_dec
{
    match n.info {
        NodeInfo::Grouped(prefix, sub, end) => {
            let space: Seq<char> = if spec_group_tight(*sub, table) {
                Seq::empty()
            } else {
                seq![' ']
            };
            seq![prefix] + space + spec_format(*sub, table) + space + seq![end]
        },
        NodeInfo::Delimited(d, v) => list_format(d, v@, table),
        NodeInfo::Named(a, b) => spec_format(*a, table) + seq![' '] + spec_format(*b, table),
        NodeInfo::Tuple(a, sep, b) => spec_format(*a, table) + seq![' '] + sep@ + seq![' ']
            + spec_format(*b, table),
        NodeInfo::Leaf(s) => s@,
        NodeInfo::Pending(i) => if i < table.len() {
            spec_format(table[i as int], Seq::empty())
        } else {
            hole_marker()
        },
        NodeInfo::BorrowedMut => borrowed_marker(),
        NodeInfo::Locked => locked_marker(),
        NodeInfo::Repeated => repeated_marker(),
        NodeInfo::Limited => limited_marker(),
    }
}

/// The members of a list rendered in order, separated by the delimiter
/// and one space.
pub open spec fn list_format(d: char, v: Seq<NodeTree>, table: Seq<NodeTree>) -> Seq<char>
    decreases table_rank(table), v, 0nat,
    via list_format_dec
{
    if v.len() == 0 {
        Seq::empty()
    } else if v.len() == 1 {
        spec_format(v.last(), table)
    } else {
        list_format(d, v.drop_last(), table) + seq![d, ' '] + spec_format(v.last(), table)
    }
}

#[via_fn]
proof fn spec_format_dec(n: NodeTree, table: Seq<NodeTree>) {
}

#[via_fn]
proof fn list_format_dec(d: char, v: Seq<NodeTree>, table: Seq<NodeTree>) {
    if v.len() > 0 {
        assert(decreases_to!(v => v.drop_last()));
        assert(decreases_to!(v => v.last()));
    }
}

/// Every node's stored size agrees with its rendered size.
pub open spec fn sizes_ok(n: NodeTree) -> bool
    decreases n,
{
    n.size == spec_size(n, Seq::empty()) && match n.info {
        NodeInfo::Grouped(_, sub, _) => sizes_ok(*sub),
        NodeInfo::Delimited(_, v) => list_sizes_ok(v@),
        NodeInfo::Named(a, b) => sizes_ok(*a) && sizes_ok(*b),
        NodeInfo::Tuple(a, _, b) => sizes_ok(*a) && sizes_ok(*b),
        _ => true,
    }
}

/// Every member's stored sizes agree with its rendered sizes.
pub open spec fn list_sizes_ok(v: Seq<NodeTree>) -> bool
    decreases v,
    via list_sizes_ok_dec
{
    v.len() == 0 || (list_sizes_ok(v.drop_last()) && sizes_ok(v.last()))
}

#[via_fn]
proof fn list_sizes_ok_dec(v: Seq<NodeTree>) {
    if v.len() > 0 {
        assert(decreases_to!(v => v.drop_last()));
        assert(decreases_to!(v => v.last()));
    }
}

/// Strip the leading name of a named node; an empty name means the node
/// itself is the body.
pub open spec fn named_body(n: NodeTree, name: Seq<char>) -> Option<NodeTree> {
    if name.len() == 0 {
        Some(n)
    } else {
        match n.info {
            NodeInfo::Named(t, b) => match t.info {
                NodeInfo::Leaf(s) => if s@ == name {
                    Some(*b)
                } else {
                    None
                },
                _ => None,
            },
            _ => None,
        }
    }
}

/// The members of a delimited group wearing the given bracket pair.
pub open spec fn grouped_children(n: NodeTree, open: char, close: char) -> Option<Seq<NodeTree>> {
    match n.info {
        NodeInfo::Grouped(p, sub, e) => if p == open && e == close {
            match sub.info {
                NodeInfo::Delimited(_, v) => Some(v@),
                _ => None,
            }
        } else {
            None
        },
        _ => None,
    }
}

pub open spec fn hole_marker() -> Seq<char> {
    "<hole>"@
}

pub open spec fn borrowed_marker() -> Seq<char> {
    "<borrowed-mut>"@
}

pub open spec fn locked_marker() -> Seq<char> {
    "<locked>"@
}

pub open spec fn repeated_marker() -> Seq<char> {
    "<repeated>"@
}

pub open spec fn limited_marker() -> Seq<char> {
    "..."@
}

impl NodeTree {
    /// A node with the given shape and identity, with its size not yet
    /// computed.
    pub fn new(info: NodeInfo, meta: Option<Wrap>) -> (r: Self)
        ensures
            r.info == info,
            r.meta == meta,
            r.size == 0,
    {
        Self { info, meta, size: 0 }
    }

    /// Collapse every pending placeholder, taking its value from the
    /// table, and compute each node's rendered size bottom-up.  Returns
    /// the root's rendered size.
    pub fn resolve(&mut self, pending: &Vec<NodeTree>) -> (r: usize)
        requires
            pending_bounded(*old(self), pending@.len()),
            list_pending_free(pending@),
            spec_size(*old(self), pending@) <= usize::MAX,
        ensures
            pending_free(*final(self)),
            sizes_ok(*final(self)),
            r == spec_size(*old(self), pending@),
            spec_size(*final(self), Seq::empty()) == spec_size(*old(self), pending@),
            spec_format(*final(self), Seq::empty()) == spec_format(*old(self), pending@),
    {
        let mut taken = NodeTree { info: NodeInfo::Limited, meta: None, size: 0 };
        core::mem::swap(self, &mut taken);
        let (resolved, count) = resolve_tree(taken, pending);
        *self = resolved;
        count
    }
}

/// The member of a pending-free list at an index, pending-free itself.
proof fn lemma_list_member_free(v: Seq<NodeTree>, i: int)
    requires
        list_pending_free(v),
        0 <= i < v.len(),
    ensures
        pending_free(v[i]),
    decreases v.len(),
{
    if i == v.len() - 1 {
    } else {
        assert(v.drop_last()[i] == v[i]);
        lemma_list_member_free(v.drop_last(), i);
    }
}

/// A pending-free node has no placeholder to bound.
pub proof fn lemma_free_bounded(n: NodeTree, len: nat)
    requires
        pending_free(n),
    ensures
        pending_bounded(n, len),
    decreases n,
{
    match n.info {
        NodeInfo::Grouped(_, sub, _) => lemma_free_bounded(*sub, len),
        NodeInfo::Delimited(_, v) => lemma_list_free_bounded(v@, len),
        NodeInfo::Named(a, b) => {
            lemma_free_bounded(*a, len);
            lemma_free_bounded(*b, len);
        },
        NodeInfo::Tuple(a, _, b) => {
            lemma_free_bounded(*a, len);
            lemma_free_bounded(*b, len);
        },
        _ => {},
    }
}

proof fn lemma_list_free_bounded(v: Seq<NodeTree>, len: nat)
    requires
        list_pending_free(v),
    ensures
        list_pending_bounded(v, len),
    decreases v,
{
    if v.len() > 0 {
        assert(decreases_to!(v => v.drop_last()));
        assert(decreases_to!(v => v.last()));
    }
    if v.len() > 0 {
        lemma_list_free_bounded(v.drop_last(), len);
        lemma_free_bounded(v.last(), len);
    }
}

/// The bounds and size share of a list member at an index.
proof fn lemma_list_prefix(v: Seq<NodeTree>, i: int, table: Seq<NodeTree>)
    requires
        0 <= i < v.len(),
        list_pending_bounded(v, table.len()),
    ensures
        pending_bounded(v[i], table.len()),
        list_size(v.take(i), table) + spec_size(v[i], table) + 2 <= list_size(v, table),
    decreases v.len(),
{
    if i == v.len() - 1 {
        assert(v.take(i) =~= v.drop_last());
    } else {
        assert(v.drop_last()[i] == v[i]);
        lemma_list_prefix(v.drop_last(), i, table);
        assert(v.drop_last().take(i) =~= v.take(i));
    }
}

/// Rebuild one node: substitute placeholders and fill in sizes.
#[verifier::loop_isolation(false)]
fn resolve_tree(n: NodeTree, table: &Vec<NodeTree>) -> (res: (NodeTree, usize))
    requires
        pending_bounded(n, table@.len()),
        list_pending_free(table@),
        spec_size(n, table@) <= usize::MAX,
    ensures
        pending_free(res.0),
        sizes_ok(res.0),
        res.1 == spec_size(n, table@),
        res.0.size == res.1,
        spec_size(res.0, Seq::empty()) == spec_size(n, table@),
        spec_format(res.0, Seq::empty()) == spec_format(n, table@),
        spec_group_tight(res.0, Seq::empty()) == spec_group_tight(n, table@),
    decreases table_rank(table@), n,
{
    let ghost gn = n;
    let NodeTree { info, meta, size: _ } = n;
    match info {
        NodeInfo::Grouped(p, sub, e) => {
            let (sub2, c) = resolve_tree(*sub, table);
            let count = 3 + c;
            let r = NodeTree { info: NodeInfo::Grouped(p, Box::new(sub2), e), meta, size: count };
            proof {
                assert(spec_format(r, Seq::empty()) == spec_format(gn, table@)) by {
                    assert(spec_group_tight(sub2, Seq::empty()) == spec_group_tight(
                        *sub,
                        table@,
                    ));
                    assert(spec_format(sub2, Seq::empty()) == spec_format(*sub, table@));
                }
            }
            (r, count)
        },
        NodeInfo::Delimited(d, v) => {
            let ghost gv = v@;
            let mut v = v;
            let vlen = v.len();
            let mut out: Vec<NodeTree> = Vec::new();
            let mut total: usize = 0;
            let mut i: usize = 0;
            proof {
                assert(gv.take(0) =~= Seq::<NodeTree>::empty());
            }
            while v.len() > 0
                invariant
                    gv.len() == vlen,
                    i + v@.len() == gv.len(),
                    v@ == gv.skip(i as int),
                    out@.len() == i,
                    total == list_size(gv.take(i as int), table@),
                    list_pending_free(out@),
                    list_sizes_ok(out@),
                    list_size(out@, Seq::empty()) == list_size(gv.take(i as int), table@),
                    forall|d2: char|
                        list_format(d2, out@, Seq::empty()) == list_format(
                            d2,
                            gv.take(i as int),
                            table@,
                        ),
                decreases v@.len(),
            {
                let child = v.remove(0);
                proof {
                    assert(child == gv[i as int]);
                    assert(v@ =~= gv.skip(i + 1));
                    lemma_list_prefix(gv, i as int, table@);
                }
                let (child2, c) = resolve_tree(child, table);
                let ghost out_prev = out@;
                out.push(child2);
                total = total + c + 2;
                proof {
                    assert(out@.drop_last() =~= out_prev);
                    assert(gv.take(i + 1).drop_last() =~= gv.take(i as int));
                    assert(gv.take(i + 1).last() == gv[i as int]);
                    assert forall|d2: char|
                        list_format(d2, out@, Seq::empty()) == list_format(
                            d2,
                            gv.take(i + 1),
                            table@,
                        ) by {
                        assert(list_format(d2, out_prev, Seq::empty()) == list_format(
                            d2,
                            gv.take(i as int),
                            table@,
                        ));
                    }
                }
                i = i + 1;
            }
            proof {
                assert(gv.take(i as int) =~= gv);
            }
            let count = 1 + total;
            let r = NodeTree { info: NodeInfo::Delimited(d, out), meta, size: count };
            proof {
                assert(spec_format(r, Seq::empty()) == list_format(d, out@, Seq::empty()));
                assert(spec_format(gn, table@) == list_format(d, gv, table@));
            }
            (r, count)
        },
        NodeInfo::Named(a, b) => {
            let (a2, ca) = resolve_tree(*a, table);
            let (b2, cb) = resolve_tree(*b, table);
            let count = 1 + ca + cb;
            let r = NodeTree {
                info: NodeInfo::Named(Box::new(a2), Box::new(b2)),
                meta,
                size: count,
            };
            (r, count)
        },
        NodeInfo::Tuple(a, sep, b) => {
            let (a2, ca) = resolve_tree(*a, table);
            let (b2, cb) = resolve_tree(*b, table);
            let sep_len = sep.as_str().unicode_len();
            let count = 3 + ca + sep_len + cb;
            let r = NodeTree {
                info: NodeInfo::Tuple(Box::new(a2), sep, Box::new(b2)),
                meta,
                size: count,
            };
            (r, count)
        },
        NodeInfo::Leaf(s) => {
            let count = 1 + s.as_str().unicode_len();
            let r = NodeTree { info: NodeInfo::Leaf(s), meta, size: count };
            (r, count)
        },
        NodeInfo::Pending(i) => {
            proof {
                lemma_list_member_free(table@, i as int);
                lemma_free_bounded(table@[i as int], 0);
            }
            let sub = clone_tree(&table[i]);
            proof {
                lemma_free_bounded(sub, 0);
            }
            let empty_table: Vec<NodeTree> = Vec::new();
            let (sub2, c) = resolve_tree(sub, &empty_table);
            (sub2, c)
        },
        NodeInfo::BorrowedMut => (NodeTree { info: NodeInfo::BorrowedMut, meta, size: 1 }, 1),
        NodeInfo::Locked => (NodeTree { info: NodeInfo::Locked, meta, size: 1 }, 1),
        NodeInfo::Repeated => (NodeTree { info: NodeInfo::Repeated, meta, size: 1 }, 1),
        NodeInfo::Limited => (NodeTree { info: NodeInfo::Limited, meta, size: 1 }, 1),
    }
}

/// A deep copy of a pending-free node: same rendering, same stored sizes,
/// same identity.
#[verifier::loop_isolation(false)]
pub fn clone_tree(n: &NodeTree) -> (r: NodeTree)
    requires
        pending_free(*n),
    ensures
        pending_free(r),
        spec_size(r, Seq::empty()) == spec_size(*n, Seq::empty()),
        spec_format(r, Seq::empty()) == spec_format(*n, Seq::empty()),
        spec_group_tight(r, Seq::empty()) == spec_group_tight(*n, Seq::empty()),
        r.meta == n.meta,
        r.size == n.size,
        sizes_ok(*n) ==> sizes_ok(r),
    decreases n,
{
    let meta = match &n.meta {
        Some(w) => Some(Wrap(w.0)),
        None => None,
    };
    match &n.info {
        NodeInfo::Grouped(p, sub, e) => {
            let sub2 = clone_tree(sub);
            let r = NodeTree {
                info: NodeInfo::Grouped(*p, Box::new(sub2), *e),
                meta,
                size: n.size,
            };
            proof {
                assert(spec_format(r, Seq::empty()) == spec_format(*n, Seq::empty())) by {
                    assert(spec_group_tight(sub2, Seq::empty()) == spec_group_tight(
                        **sub,
                        Seq::empty(),
                    ));
                    assert(spec_format(sub2, Seq::empty()) == spec_format(**sub, Seq::empty()));
                }
            }
            r
        },
        NodeInfo::Delimited(d, v) => {
            let ghost gv = v@;
            let mut out: Vec<NodeTree> = Vec::new();
            let mut i: usize = 0;
            proof {
                assert(gv.take(0) =~= Seq::<NodeTree>::empty());
            }
            while i < v.len()
                invariant
                    i <= gv.len(),
                    v@ == gv,
                    out@.len() == i,
                    list_pending_free(out@),
                    list_size(out@, Seq::empty()) == list_size(gv.take(i as int), Seq::empty()),
                    list_sizes_ok(gv.take(i as int)) ==> list_sizes_ok(out@),
                    forall|d2: char|
                        list_format(d2, out@, Seq::empty()) == list_format(
                            d2,
                            gv.take(i as int),
                            Seq::empty(),
                        ),
                decreases gv.len() - i,
            {
                proof {
                    lemma_list_member_free(gv, i as int);
                    assert(decreases_to!(n => n.info));
                }
                let c = clone_tree(&v[i]);
                let ghost out_prev = out@;
                out.push(c);
                proof {
                    assert(out@.drop_last() =~= out_prev);
                    assert(gv.take(i + 1).drop_last() =~= gv.take(i as int));
                    assert(gv.take(i + 1).last() == gv[i as int]);
                    if list_sizes_ok(gv.take(i + 1)) {
                        assert(list_sizes_ok(gv.take(i as int)));
                    }
                    assert forall|d2: char|
                        list_format(d2, out@, Seq::empty()) == list_format(
                            d2,
                            gv.take(i + 1),
                            Seq::empty(),
                        ) by {
                        assert(list_format(d2, out_prev, Seq::empty()) == list_format(
                            d2,
                            gv.take(i as int),
                            Seq::empty(),
                        ));
                    }
                }
                i = i + 1;
            }
            proof {
                assert(gv.take(i as int) =~= gv);
            }
            let r = NodeTree { info: NodeInfo::Delimited(*d, out), meta, size: n.size };
            proof {
                assert(spec_format(r, Seq::empty()) == list_format(*d, out@, Seq::empty()));
                assert(spec_format(*n, Seq::empty()) == list_format(*d, gv, Seq::empty()));
            }
            r
        },
        NodeInfo::Named(a, b) => NodeTree {
            info: NodeInfo::Named(Box::new(clone_tree(a)), Box::new(clone_tree(b))),
            meta,
            size: n.size,
        },
        NodeInfo::Tuple(a, sep, b) => NodeTree {
            info: NodeInfo::Tuple(Box::new(clone_tree(a)), sep.clone(), Box::new(clone_tree(b))),
            meta,
            size: n.size,
        },
        NodeInfo::Leaf(s) => NodeTree { info: NodeInfo::Leaf(s.clone()), meta, size: n.size },
        NodeInfo::Pending(i) => {
            proof {
                assert(false);
            }
            NodeTree { info: NodeInfo::Pending(*i), meta, size: n.size }
        },
        NodeInfo::BorrowedMut => NodeTree { info: NodeInfo::BorrowedMut, meta, size: n.size },
        NodeInfo::Locked => NodeTree { info: NodeInfo::Locked, meta, size: n.size },
        NodeInfo::Repeated => NodeTree { info: NodeInfo::Repeated, meta, size: n.size },
        NodeInfo::Limited => NodeTree { info: NodeInfo::Limited, meta, size: n.size },
    }
}

impl NodeInfo {
    /// Wrap the shape into a node without an identity tag.
    pub fn into_node(self) -> (r: NodeTree)
        ensures
            r.info == self,
            r.meta is None,
            r.size == 0,
    {
        NodeTree { info: self, meta: None, size: 0 }
    }

    /// Wrap the shape into a node wearing an identity tag.
    pub fn with_meta(self, ptr_meta: usize) -> (r: NodeTree)
        ensures
            r.info == self,
            r.meta == Some(Wrap(ptr_meta)),
            r.size == 0,
    {
        NodeTree { info: self, meta: Some(Wrap(ptr_meta)), size: 0 }
    }

    /// Attach a leaf name in front of a subtree.
    pub fn named(name: &str, a_self: NodeTree) -> (r: NodeInfo)
        ensures
            r matches NodeInfo::Named(n, b) && (n.info matches NodeInfo::Leaf(s) && s@ == name@)
                && n.meta is None && n.size == 0 && *b == a_self,
    {
        NodeInfo::Named(
            Box::new(NodeTree { info: NodeInfo::Leaf(name.to_owned()), meta: None, size: 0 }),
            Box::new(a_self),
        )
    }
}

/// Render a node into plain text; a pending placeholder renders as a hole
/// marker.
#[verifier::loop_isolation(false)]
pub fn format_node(n: &NodeTree) -> (r: String)
    ensures
        r@ == spec_format(*n, Seq::empty()),
    decreases n,
{
    match &n.info {
        NodeInfo::Grouped(prefix, sub, end) => {
            let tight = match &sub.info {
                NodeInfo::Delimited(_, v) => v.len() == 0,
                _ => false,
            };
            let mut s = String::new();
            push_char(&mut s, *prefix);
            if !tight {
                push_char(&mut s, ' ');
            }
            let inner = format_node(sub);
            s.append(inner.as_str());
            if !tight {
                push_char(&mut s, ' ');
            }
            push_char(&mut s, *end);
            proof {
                assert(s@ =~= spec_format(*n, Seq::empty()));
            }
            s
        },
        NodeInfo::Delimited(d, v) => {
            let mut s = String::new();
            let mut i: usize = 0;
            proof {
                assert(v@.take(0) =~= Seq::<NodeTree>::empty());
            }
            while i < v.len()
                invariant
                    i <= v@.len(),
                    s@ == list_format(*d, v@.take(i as int), Seq::empty()),
                decreases v@.len() - i,
            {
                if i > 0 {
                    push_char(&mut s, *d);
                    push_char(&mut s, ' ');
                }
                proof {
                    assert(decreases_to!(n => n.info));
                }
                let part = format_node(&v[i]);
                s.append(part.as_str());
                proof {
                    assert(v@.take(i + 1).drop_last() =~= v@.take(i as int));
                    assert(v@.take(i + 1).last() == v@[i as int]);
                    assert(s@ =~= list_format(*d, v@.take(i + 1), Seq::empty()));
                }
                i = i + 1;
            }
            proof {
                assert(v@.take(i as int) =~= v@);
            }
            s
        },
        NodeInfo::Named(a, b) => {
            let mut s = format_node(a);
            push_char(&mut s, ' ');
            let rest = format_node(b);
            s.append(rest.as_str());
            proof {
                assert(s@ =~= spec_format(*n, Seq::empty()));
            }
            s
        },
        NodeInfo::Tuple(a, sep, b) => {
            let mut s = format_node(a);
            push_char(&mut s, ' ');
            s.append(sep.as_str());
            push_char(&mut s, ' ');
            let rest = format_node(b);
            s.append(rest.as_str());
            proof {
                assert(s@ =~= spec_format(*n, Seq::empty()));
            }
            s
        },
        NodeInfo::Leaf(s) => s.clone(),
        NodeInfo::Pending(_) => {
            let s: String = "<hole>".to_owned();
            s
        },
        NodeInfo::BorrowedMut => {
            let s: String = "<borrowed-mut>".to_owned();
            s
        },
        NodeInfo::Locked => {
            let s: String = "<locked>".to_owned();
            s
        },
        NodeInfo::Repeated => {
            let s: String = "<repeated>".to_owned();
            s
        },
        NodeInfo::Limited => {
            let s: String = "...".to_owned();
            s
        },
    }
}


/// Compute a pending-free node's rendered size, or report that it exceeds
/// the machine's word range.
#[verifier::loop_isolation(false)]
pub fn try_size(n: &NodeTree) -> (r: Option<usize>)
    requires
        pending_free(*n),
    ensures
        match r {
            Some(s) => s == spec_size(*n, Seq::empty()),
            None => spec_size(*n, Seq::empty()) > usize::MAX,
        },
    decreases n,
{
    match &n.info {
        NodeInfo::Grouped(_, sub, _) => {
            match try_size(sub) {
                Some(c) => {
                    if c <= usize::MAX - 3 {
                        Some(3 + c)
                    } else {
                        None
                    }
                },
                None => None,
            }
        },
        NodeInfo::Delimited(_, v) => {
            let mut total: usize = 0;
            let mut i: usize = 0;
            let mut overflow = false;
            proof {
                assert(v@.take(0) =~= Seq::<NodeTree>::empty());
            }
            while i < v.len()
                invariant
                    i <= v@.len(),
                    list_pending_free(v@),
                    !overflow ==> total == list_size(v@.take(i as int), Seq::empty()),
                    overflow ==> list_size(v@.take(i as int), Seq::empty()) > usize::MAX,
                decreases v@.len() - i,
            {
                proof {
                    lemma_list_member_free(v@, i as int);
                    assert(decreases_to!(n => n.info));
                    assert(v@.take(i + 1).drop_last() =~= v@.take(i as int));
                    assert(v@.take(i + 1).last() == v@[i as int]);
                }
                match try_size(&v[i]) {
                    Some(c) => {
                        if !overflow && c <= usize::MAX - 2 && total <= usize::MAX - 2 - c {
                            total = total + c + 2;
                        } else {
                            overflow = true;
                        }
                    },
                    None => {
                        overflow = true;
                    },
                }
                proof {
                    lemma_list_size_mono_prefix(v@, i as int, i + 1);
                }
                i = i + 1;
            }
            proof {
                assert(v@.take(i as int) =~= v@);
            }
            if overflow || total > usize::MAX - 1 {
                None
            } else {
                Some(1 + total)
            }
        },
        NodeInfo::Named(a, b) => {
            match (try_size(a), try_size(b)) {
                (Some(ca), Some(cb)) => {
                    if ca <= usize::MAX - 1 && cb <= usize::MAX - 1 - ca {
                        Some(1 + ca + cb)
                    } else {
                        None
                    }
                },
                _ => None,
            }
        },
        NodeInfo::Tuple(a, sep, b) => {
            match (try_size(a), try_size(b)) {
                (Some(ca), Some(cb)) => {
                    let sl = sep.as_str().unicode_len();
                    if ca <= usize::MAX - 3 && sl <= usize::MAX - 3 - ca && cb <= usize::MAX - 3
                        - ca - sl {
                        Some(3 + ca + sl + cb)
                    } else {
                        None
                    }
                },
                _ => None,
            }
        },
        NodeInfo::Leaf(s) => {
            let l = s.as_str().unicode_len();
            if l <= usize::MAX - 1 {
                Some(1 + l)
            } else {
                None
            }
        },
        NodeInfo::Pending(_) => {
            proof {
                assert(false);
            }
            None
        },
        _ => Some(1),
    }
}

/// A longer prefix of a list never has a smaller summed size.
proof fn lemma_list_size_mono_prefix(v: Seq<NodeTree>, i: int, j: int)
    requires
        0 <= i <= j <= v.len(),
    ensures
        list_size(v.take(i), Seq::empty()) <= list_size(v.take(j), Seq::empty()),
    decreases j - i,
{
    if i < j {
        lemma_list_size_mono_prefix(v, i, j - 1);
        assert(v.take(j).drop_last() =~= v.take(j - 1));
    }
}

} // verus!
