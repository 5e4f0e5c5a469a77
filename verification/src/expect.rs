//! The tree of expectations built up during parsing.
//!
//! While parsing an expression, the parser may expect certain tokens at each
//! point.  When those tokens do not appear in the input, the tree remembers
//! what could have appeared, and the parsing position backtracks without
//! losing that memory.  Flattening the tree later yields the list of
//! alternative continuations, which drives auto-completion and hints.

use vstd::prelude::*;

verus! {

broadcast use vstd::std_specs::vec::group_vec_axioms;

/// An item that can be stored in an expectation tree: it can be compared
/// and copied, both respecting its mathematical image.
pub trait TreeItem: View + Sized {
    /// Whether two items have the same mathematical image.
    fn same(&self, other: &Self) -> (r: bool)
        ensures
            r == (self@ == other@),
    ;

    /// A copy with the same mathematical image.
    fn duplicate(&self) -> (r: Self)
        ensures
            r@ == self@,
    ;
}

impl TreeItem for i32 {
    fn same(&self, other: &Self) -> (r: bool) {
        *self == *other
    }

    fn duplicate(&self) -> (r: Self) {
        *self
    }
}

impl TreeItem for u64 {
    fn same(&self, other: &Self) -> (r: bool) {
        *self == *other
    }

    fn duplicate(&self) -> (r: Self) {
        *self
    }
}

impl TreeItem for crate::tokens::Token {
    fn same(&self, other: &Self) -> (r: bool) {
        if !self.kind.same_kind(&other.kind) {
            return false;
        }
        if self.space_diff != other.space_diff {
            return false;
        }
        let a = crate::tokens::str_to_chars(self.text.as_str());
        let b = crate::tokens::str_to_chars(other.text.as_str());
        crate::tokens::chars_eq(&a, &b)
    }

    fn duplicate(&self) -> (r: Self) {
        self.clone_owned()
    }
}

/// One expectation node: an item and the alternatives that were expected
/// after it.
pub struct Expect<T> {
    pub item: T,
    pub next: Vec<Expect<T>>,
}

/// The mathematical image of an expectation node: the item's image and the
/// images of its children.
pub struct ExpectView<V> {
    pub item: V,
    pub next: Seq<ExpectView<V>>,
}

impl<T: View> View for Expect<T> {
    type V = ExpectView<T::V>;

    open spec fn view(&self) -> ExpectView<T::V> {
        expect_view(*self)
    }
}

/// The image of one node.
pub open spec fn expect_view<T: View>(e: Expect<T>) -> ExpectView<T::V>
    decreases e,
{
    ExpectView { item: e.item@, next: forest_view(e.next@) }
}

/// The images of a whole forest of nodes.
pub open spec fn forest_view<T: View>(f: Seq<Expect<T>>) -> Seq<ExpectView<T::V>>
    decreases f,
    via forest_view_dec::<T>
{
    if f.len() == 0 {
        Seq::empty()
    } else {
        forest_view(f.drop_last()).push(expect_view(f.last()))
    }
}

#[via_fn]
proof fn forest_view_dec<T: View>(f: Seq<Expect<T>>) {
    if f.len() > 0 {
        assert(decreases_to!(f => f.drop_last()));
        assert(decreases_to!(f => f.last()));
    }
}

/// The forest's images, element by element.
pub proof fn lemma_forest_view<T: View>(f: Seq<Expect<T>>)
    ensures
        forest_view(f).len() == f.len(),
        forall|i: int| 0 <= i < f.len() ==> #[trigger] forest_view(f)[i] == f[i]@,
    decreases f.len(),
{
    if f.len() > 0 {
        lemma_forest_view(f.drop_last());
        assert(forall|i: int| 0 <= i < f.len() - 1 ==> f.drop_last()[i] == f[i]);
    }
}

/// All root-to-leaf item sequences of one node, deepest item first (the
/// order in which the executable flattening builds them).
pub open spec fn flatten_expect_rev<V>(e: ExpectView<V>) -> Seq<Seq<V>>
    decreases e, 0nat,
{
    if e.next.len() == 0 {
        seq![seq![e.item]]
    } else {
        child_flats(e.next, e.next.len()).flatten().map_values(|v: Seq<V>| v.push(e.item))
    }
}

/// The flattenings of the first `n` nodes of a forest, in order.
pub open spec fn child_flats<V>(f: Seq<ExpectView<V>>, n: nat) -> Seq<Seq<Seq<V>>>
    decreases f, n,
{
    if n == 0 || n > f.len() {
        Seq::empty()
    } else {
        child_flats(f, (n - 1) as nat).push(flatten_expect_rev(f[n - 1]))
    }
}

/// All root-to-leaf item sequences of a forest, deepest item first.
pub open spec fn flatten_forest_rev<V>(f: Seq<ExpectView<V>>) -> Seq<Seq<V>> {
    child_flats(f, f.len()).flatten()
}

/// Whether a path of child indices selects a chain of nodes in a forest.
pub open spec fn wf_path<V>(f: Seq<ExpectView<V>>, path: Seq<usize>) -> bool
    decreases path.len(),
{
    path.len() == 0 || (path[0] < f.len() && wf_path(f[path[0] as int].next, path.skip(1)))
}

/// The children list at the tip of a path.
pub open spec fn forest_at<V>(f: Seq<ExpectView<V>>, path: Seq<usize>) -> Seq<ExpectView<V>>
    decreases path.len(),
{
    if path.len() == 0 {
        f
    } else {
        forest_at(f[path[0] as int].next, path.skip(1))
    }
}

/// The items of the nodes a path passes through.
pub open spec fn items_on_path<V>(f: Seq<ExpectView<V>>, path: Seq<usize>) -> Seq<V>
    decreases path.len(),
{
    if path.len() == 0 {
        Seq::empty()
    } else {
        seq![f[path[0] as int].item] + items_on_path(f[path[0] as int].next, path.skip(1))
    }
}

/// The index of the first node in a children list that holds the given
/// item, or the list's length when there is none.
pub open spec fn find_item<V>(f: Seq<ExpectView<V>>, v: V) -> int
    decreases f.len(),
{
    if f.len() == 0 {
        0
    } else if f[0].item == v {
        0
    } else {
        1 + find_item(f.skip(1), v)
    }
}

/// The forests differ only in that a fresh leaf holding `v` was appended to
/// the children list at the tip of `path`.
pub open spec fn appended_at<V>(
    old_f: Seq<ExpectView<V>>,
    new_f: Seq<ExpectView<V>>,
    path: Seq<usize>,
    v: V,
) -> bool
    decreases path.len(),
{
    if path.len() == 0 {
        new_f == old_f.push(ExpectView { item: v, next: Seq::empty() })
    } else {
        &&& path[0] < old_f.len()
        &&& new_f.len() == old_f.len()
        &&& forall|i: int| 0 <= i < old_f.len() && i != path[0] ==> new_f[i] == old_f[i]
        &&& new_f[path[0] as int].item == old_f[path[0] as int].item
        &&& appended_at(
            old_f[path[0] as int].next,
            new_f[path[0] as int].next,
            path.skip(1),
            v,
        )
    }
}

/// The characterization of `find_item`: it is the first index whose node
/// holds the sought item, or the list's length when no node does.
pub proof fn lemma_find_item<V>(f: Seq<ExpectView<V>>, v: V)
    ensures
        0 <= find_item(f, v) <= f.len(),
        find_item(f, v) < f.len() ==> f[find_item(f, v)].item == v,
        forall|j: int| 0 <= j < find_item(f, v) ==> f[j].item != v,
        forall|j: int| 0 <= j < f.len() && f[j].item == v ==> find_item(f, v) <= j,
    decreases f.len(),
{
    if f.len() > 0 && f[0].item != v {
        lemma_find_item(f.skip(1), v);
        assert forall|j: int| 0 <= j < find_item(f, v) implies f[j].item != v by {
            if j > 0 {
                assert(f.skip(1)[j - 1] == f[j]);
            }
        }
        assert forall|j: int| 0 <= j < f.len() && f[j].item == v implies find_item(f, v) <= j by {
            if j > 0 {
                assert(f.skip(1)[j - 1] == f[j]);
            }
        }
    }
}

/// Appending a leaf at a path's tip preserves the path's validity, leaves
/// the items along the path unchanged, and extends the children list at
/// the tip by the one fresh leaf.
pub proof fn lemma_appended_at_wf<V>(
    old_f: Seq<ExpectView<V>>,
    new_f: Seq<ExpectView<V>>,
    path: Seq<usize>,
    v: V,
)
    requires
        wf_path(old_f, path),
        appended_at(old_f, new_f, path, v),
    ensures
        wf_path(new_f, path),
        items_on_path(new_f, path) == items_on_path(old_f, path),
        forest_at(new_f, path) == forest_at(old_f, path).push(
            ExpectView { item: v, next: Seq::empty() },
        ),
    decreases path.len(),
{
    if path.len() == 0 {
        assert(items_on_path(new_f, path) =~= items_on_path(old_f, path));
    } else {
        let i = path[0] as int;
        lemma_appended_at_wf(old_f[i].next, new_f[i].next, path.skip(1), v);
        assert(items_on_path(new_f, path) =~= items_on_path(old_f, path));
    }
}

/// A path's validity extends to each of its prefixes.
pub proof fn lemma_wf_take<V>(f: Seq<ExpectView<V>>, path: Seq<usize>, k: int)
    requires
        wf_path(f, path),
        0 <= k <= path.len(),
    ensures
        wf_path(f, path.take(k)),
    decreases path.len(),
{
    if path.len() > 0 && k > 0 {
        assert(path.take(k)[0] == path[0]);
        assert(path.take(k).skip(1) =~= path.skip(1).take(k - 1));
        lemma_wf_take(f[path[0] as int].next, path.skip(1), k - 1);
    }
}

/// Items along a path extended by one more valid step.
proof fn lemma_path_push<V>(f: Seq<ExpectView<V>>, path: Seq<usize>, k: usize, v: V)
    requires
        wf_path(f, path),
        k < forest_at(f, path).len(),
        forest_at(f, path)[k as int].item == v,
    ensures
        wf_path(f, path.push(k)),
        items_on_path(f, path.push(k)) == items_on_path(f, path).push(v),
    decreases path.len(),
{
    if path.len() == 0 {
        assert(path.push(k)[0] == k);
        assert(path.push(k).skip(1) =~= Seq::<usize>::empty());
        assert(wf_path(f[k as int].next, path.push(k).skip(1)));
        assert(items_on_path(f[k as int].next, path.push(k).skip(1)) =~= Seq::<V>::empty());
        assert(items_on_path(f, path.push(k)) =~= items_on_path(f, path).push(v));
    } else {
        let i = path[0] as int;
        assert(path.push(k)[0] == path[0]);
        assert(path.push(k).skip(1) =~= path.skip(1).push(k));
        lemma_path_push(f[i].next, path.skip(1), k, v);
        assert(items_on_path(f, path.push(k)) =~= items_on_path(f, path).push(v));
    }
}

impl<T: TreeItem> Expect<T> {
    /// Resolve this node into the list of its root-to-leaf item sequences,
    /// each ordered deepest item first.
    #[verifier::loop_isolation(false)]
    pub fn into_flatten(self) -> (r: Vec<Vec<T>>)
        ensures
            r@.map_values(|v: Vec<T>| v@.map_values(|t: T| t@)) == flatten_expect_rev(self@),
        decreases self,
    {
        let ghost gself = self;
        let ghost gview = self@;
        proof {
            lemma_forest_view(gself.next@);
            assert(gview.next == forest_view(gself.next@));
        }
        let Expect { item, mut next } = self;
        if next.len() == 0 {
            let mut inner: Vec<T> = Vec::new();
            inner.push(item);
            let mut vs: Vec<Vec<T>> = Vec::new();
            vs.push(inner);
            proof {
                assert(gview.next.len() == 0);
                assert(vs@.map_values(|v: Vec<T>| v@.map_values(|t: T| t@)) =~~= seq![
                    seq![gview.item],
                ]);
            }
            return vs;
        }
        let mut vs: Vec<Vec<T>> = Vec::new();
        let mut i: usize = 0;
        proof {
            assert(child_flats(gview.next, 0nat).flatten() =~= Seq::<Seq<T::V>>::empty());
            assert(vs@.map_values(|v: Vec<T>| v@.map_values(|t: T| t@)) =~= child_flats(
                gview.next,
                0nat,
            ).flatten().map_values(|v: Seq<T::V>| v.push(gview.item)));
        }
        while next.len() > 0
            invariant
                i + next@.len() == gself.next@.len(),
                next@ == gself.next@.skip(i as int),
                item@ == gview.item,
                gview.next.len() == gself.next@.len() > 0,
                vs@.map_values(|v: Vec<T>| v@.map_values(|t: T| t@)) == child_flats(
                    gview.next,
                    i as nat,
                ).flatten().map_values(|v: Seq<T::V>| v.push(gview.item)),
            decreases next@.len(),
        {
            let ghost prev = vs@.map_values(|v: Vec<T>| v@.map_values(|t: T| t@));
            let child = next.remove(0);
            proof {
                assert(child == gself.next@[i as int]);
                assert(next@ =~= gself.next@.skip(i + 1));
                assert(decreases_to!(gself => gself.next));
                assert(decreases_to!(gself.next => gself.next[i as int]));
                lemma_forest_view(gself.next@);
                assert(child@ == gview.next[i as int]);
            }
            let mut flat = child.into_flatten();
            let ghost fr = flatten_expect_rev(gview.next[i as int]);
            let flat_len = flat.len();
            proof {
                assert(fr.len() == flat_len);
                assert(fr.skip(0) =~= fr);
                assert(fr.take(0) =~= Seq::<Seq<T::V>>::empty());
                assert(prev + fr.take(0).map_values(|v: Seq<T::V>| v.push(gview.item)) =~= prev);
            }
            let mut j: usize = 0;
            while flat.len() > 0
                invariant
                    j + flat@.len() == fr.len(),
                    fr.len() <= usize::MAX,
                    flat@.map_values(|v: Vec<T>| v@.map_values(|t: T| t@)) == fr.skip(j as int),
                    vs@.map_values(|v: Vec<T>| v@.map_values(|t: T| t@)) == prev + fr.take(
                        j as int,
                    ).map_values(|v: Seq<T::V>| v.push(gview.item)),
                decreases flat@.len(),
            {
                let ghost old_flat = flat@;
                let mut one = flat.remove(0);
                one.push(item.duplicate());
                proof {
                    let m = |v: Vec<T>| v@.map_values(|t: T| t@);
                    assert(old_flat.map_values(m)[0] == fr.skip(j as int)[0]);
                    assert(one@.map_values(|t: T| t@) =~= fr[j as int].push(gview.item));
                }
                vs.push(one);
                proof {
                    let m = |v: Vec<T>| v@.map_values(|t: T| t@);
                    assert(flat@.map_values(m) =~= fr.skip(j + 1)) by {
                        assert(flat@ =~= old_flat.skip(1));
                        assert(old_flat.map_values(m).skip(1) =~= flat@.map_values(m));
                        assert(fr.skip(j as int).skip(1) =~= fr.skip(j + 1));
                    }
                    assert(vs@.map_values(m) =~= prev + fr.take(j + 1).map_values(
                        |v: Seq<T::V>| v.push(gview.item),
                    )) by {
                        assert(vs@.map_values(m) =~= (prev + fr.take(j as int).map_values(
                            |v: Seq<T::V>| v.push(gview.item),
                        )).push(m(vs@.last())));
                        assert(m(vs@.last()) == fr[j as int].push(gview.item));
                        assert(fr.take(j + 1).map_values(|v: Seq<T::V>| v.push(gview.item))
                            =~= fr.take(j as int).map_values(
                            |v: Seq<T::V>| v.push(gview.item),
                        ).push(fr[j as int].push(gview.item)));
                    }
                }
                j = j + 1;
            }
            proof {
                let m = |v: Vec<T>| v@.map_values(|t: T| t@);
                assert(fr.take(fr.len() as int) =~= fr);
                let before = child_flats(gview.next, i as nat);
                assert(i + 1 <= gview.next.len());
                assert(child_flats(gview.next, (i + 1) as nat) == child_flats(
                    gview.next,
                    ((i + 1) as nat - 1) as nat,
                ).push(flatten_expect_rev(gview.next[(i + 1) as nat - 1])));
                assert(child_flats(gview.next, (i + 1) as nat) =~= before.push(fr));
                before.lemma_flatten_push(fr);
                assert(child_flats(gview.next, (i + 1) as nat).flatten() =~= before.flatten()
                    + fr);
                assert(vs@.map_values(m) =~= child_flats(gview.next, (i + 1) as nat).flatten()
                    .map_values(|v: Seq<T::V>| v.push(gview.item)));
            }
            i = i + 1;
        }
        proof {
            assert(child_flats(gview.next, gview.next.len()).flatten().map_values(
                |v: Seq<T::V>| v.push(gview.item),
            ) == flatten_expect_rev(gview));
        }
        vs
    }
}

impl<T: TreeItem> Clone for Expect<T> {
    /// A deep copy with the same image.
    fn clone(&self) -> (r: Self)
        ensures
            r@ == self@,
        decreases self,
    {
        let item = self.item.duplicate();
        let mut next: Vec<Expect<T>> = Vec::new();
        let mut i: usize = 0;
        proof {
            lemma_forest_view(self.next@);
        }
        while i < self.next.len()
            invariant
                i <= self.next@.len(),
                next@.len() == i,
                item@ == self.item@,
                forall|j: int| 0 <= j < i ==> (#[trigger] next@[j])@ == self.next@[j]@,
            decreases self.next@.len() - i,
        {
            proof {
                assert(decreases_to!(self => self.next));
                assert(decreases_to!(self.next => self.next[i as int]));
            }
            let c = self.next[i].clone();
            next.push(c);
            i = i + 1;
        }
        let r = Expect { item, next };
        proof {
            lemma_forest_view(next@);
            lemma_forest_view(self.next@);
            assert(forest_view(next@) =~= forest_view(self.next@));
            assert(r@.next == forest_view(next@));
            assert(self@.next == forest_view(self.next@));
        }
        r
    }
}

/// A structural trie of expected items.  `advance` descends one level,
/// remembering the item as a possibility; `retract_one` and `retract_path`
/// back the current position out without forgetting what was recorded.
pub struct ExpectTree<T> {
    path: Vec<usize>,
    tree: Vec<Expect<T>>,
}

impl<T: TreeItem> Clone for ExpectTree<T> {
    /// A deep copy with the same forest and position.
    fn clone(&self) -> (r: Self)
        ensures
            r.forest() == self.forest(),
            r.spec_path() == self.spec_path(),
    {
        let mut path: Vec<usize> = Vec::new();
        let mut i: usize = 0;
        while i < self.path.len()
            invariant
                i <= self.path@.len(),
                path@ == self.path@.take(i as int),
            decreases self.path@.len() - i,
        {
            path.push(self.path[i]);
            proof {
                assert(path@ =~= self.path@.take(i + 1));
            }
            i = i + 1;
        }
        proof {
            assert(path@ =~= self.path@);
        }
        let mut tree: Vec<Expect<T>> = Vec::new();
        let mut j: usize = 0;
        while j < self.tree.len()
            invariant
                j <= self.tree@.len(),
                tree@.len() == j,
                forall|k: int| 0 <= k < j ==> (#[trigger] tree@[k])@ == self.tree@[k]@,
            decreases self.tree@.len() - j,
        {
            let c = self.tree[j].clone();
            tree.push(c);
            j = j + 1;
        }
        let r = ExpectTree { path, tree };
        proof {
            lemma_forest_view(r.tree@);
            lemma_forest_view(self.tree@);
            assert(r.forest() =~= self.forest());
        }
        r
    }
}

impl<T: TreeItem> ExpectTree<T> {
    /// The child-index path from the roots to the current position.
    pub closed spec fn spec_path(self) -> Seq<usize> {
        self.path@
    }

    /// The images of the recorded expectation nodes.
    pub closed spec fn forest(self) -> Seq<ExpectView<T::V>> {
        forest_view(self.tree@)
    }

    /// The current path selects a chain of nodes in the forest.
    pub open spec fn wf(self) -> bool {
        wf_path(self.forest(), self.spec_path())
    }

    /// The items along the current path.
    pub open spec fn cur_items(self) -> Seq<T::V> {
        items_on_path(self.forest(), self.spec_path())
    }

    /// Construct an empty tree.
    pub fn new() -> (r: Self)
        ensures
            r.forest() =~= Seq::<ExpectView<T::V>>::empty(),
            r.spec_path() =~= Seq::<usize>::empty(),
            r.wf(),
    {
        Self { path: Vec::new(), tree: Vec::new() }
    }

    /// Register `value` as expected at this position and descend into it.
    /// A node holding the same item is reused; otherwise a fresh leaf is
    /// appended to the children at the tip.
    pub fn advance(&mut self, value: T)
        requires
            old(self).wf(),
        ensures
            final(self).wf(),
            final(self).cur_items() == old(self).cur_items().push(value@),
            ({
                let fa = forest_at(old(self).forest(), old(self).spec_path());
                let k0 = find_item(fa, value@);
                &&& final(self).spec_path() == old(self).spec_path().push(k0 as usize)
                &&& if k0 < fa.len() {
                    final(self).forest() == old(self).forest()
                } else {
                    appended_at(
                        old(self).forest(),
                        final(self).forest(),
                        old(self).spec_path(),
                        value@,
                    )
                }
            }),
    {
        let ghost old_forest = forest_view(self.tree@);
        let ghost old_path = self.path@;
        let ghost v = value@;
        proof {
            assert(old_path.skip(0) =~= old_path);
        }
        let k = Self::advance_rec(&mut self.tree, &self.path, 0, value);
        proof {
            let fa = forest_at(old_forest, old_path);
            let k0 = find_item(fa, v);
            lemma_find_item(fa, v);
            if k0 < fa.len() {
                lemma_path_push(forest_view(self.tree@), old_path, k, v);
            } else {
                lemma_appended_at_wf(old_forest, forest_view(self.tree@), old_path, v);
                lemma_path_push(forest_view(self.tree@), old_path, k, v);
            }
        }
        self.path.push(k);
    }

    /// How many levels deep the current position stands.
    pub fn path_len(&self) -> (r: usize)
        ensures
            r == self.spec_path().len(),
    {
        self.path.len()
    }

    /// Back track one level.
    pub fn retract_one(&mut self)
        requires
            old(self).spec_path().len() > 0,
        ensures
            final(self).forest() == old(self).forest(),
            final(self).spec_path() == old(self).spec_path().drop_last(),
            old(self).wf() ==> final(self).wf(),
    {
        let n = self.path.len();
        self.path.truncate(n - 1);
        proof {
            assert(self.path@ =~= old(self).path@.drop_last());
            if old(self).wf() {
                lemma_wf_take(forest_view(self.tree@), old(self).path@, n - 1);
                assert(old(self).path@.take(n - 1) =~= old(self).path@.drop_last());
            }
        }
    }

    /// Back track to a given depth, which must not exceed the current one.
    pub fn retract_path(&mut self, old_len: usize)
        requires
            old_len <= old(self).spec_path().len(),
        ensures
            final(self).forest() == old(self).forest(),
            final(self).spec_path() == old(self).spec_path().take(old_len as int),
            old(self).wf() ==> final(self).wf(),
    {
        self.path.truncate(old_len);
        proof {
            if old(self).wf() {
                lemma_wf_take(forest_view(self.tree@), old(self).path@, old_len as int);
            }
        }
    }

    /// Resolve the tree into the list of possible item sequences, one per
    /// junction recorded in it, each ordered root first.
    #[verifier::loop_isolation(false)]
    pub fn into_flatten(self) -> (r: Vec<Vec<T>>)
        ensures
            r@.map_values(|v: Vec<T>| v@.map_values(|t: T| t@)) == flatten_forest_rev(
                self.forest(),
            ).map_values(|v: Seq<T::V>| v.reverse()),
    {
        let ghost gview = forest_view(self.tree@);
        let Self { path: _, tree } = self;
        let ghost gtree = tree@;
        let mut tree = tree;
        let tree_len = tree.len();
        let mut tv: Vec<Vec<T>> = Vec::new();
        let mut i: usize = 0;
        proof {
            lemma_forest_view(gtree);
            assert(gview.len() == tree_len);
            assert(child_flats(gview, 0nat).flatten() =~= Seq::<Seq<T::V>>::empty());
            assert(tv@.map_values(|v: Vec<T>| v@.map_values(|t: T| t@)) =~= child_flats(
                gview,
                0nat,
            ).flatten().map_values(|v: Seq<T::V>| v.reverse()));
        }
        while tree.len() > 0
            invariant
                i + tree@.len() == gview.len(),
                tree@ == gtree.skip(i as int),
                gview == forest_view(gtree),
                tv@.map_values(|v: Vec<T>| v@.map_values(|t: T| t@)) == child_flats(
                    gview,
                    i as nat,
                ).flatten().map_values(|v: Seq<T::V>| v.reverse()),
            decreases tree@.len(),
        {
            let ghost prev = tv@.map_values(|v: Vec<T>| v@.map_values(|t: T| t@));
            let root = tree.remove(0);
            proof {
                assert(root == gtree[i as int]);
                assert(tree@ =~= gtree.skip(i + 1));
                lemma_forest_view(gtree);
                assert(root@ == gview[i as int]);
            }
            let mut flat = root.into_flatten();
            let ghost fr = flatten_expect_rev(gview[i as int]);
            let flat_len = flat.len();
            proof {
                assert(fr.len() == flat_len);
                assert(fr.skip(0) =~= fr);
                assert(fr.take(0) =~= Seq::<Seq<T::V>>::empty());
                assert(prev + fr.take(0).map_values(|v: Seq<T::V>| v.reverse()) =~= prev);
            }
            let mut j: usize = 0;
            while flat.len() > 0
                invariant
                    j + flat@.len() == fr.len(),
                    fr.len() <= usize::MAX,
                    flat@.map_values(|v: Vec<T>| v@.map_values(|t: T| t@)) == fr.skip(j as int),
                    tv@.map_values(|v: Vec<T>| v@.map_values(|t: T| t@)) == prev + fr.take(
                        j as int,
                    ).map_values(|v: Seq<T::V>| v.reverse()),
                decreases flat@.len(),
            {
                let ghost old_flat = flat@;
                let one = flat.remove(0);
                let rev = reverse_vec(one);
                proof {
                    let m = |v: Vec<T>| v@.map_values(|t: T| t@);
                    assert(old_flat.map_values(m)[0] == fr.skip(j as int)[0]);
                    assert(rev@.map_values(|t: T| t@) =~= fr[j as int].reverse());
                }
                tv.push(rev);
                proof {
                    let m = |v: Vec<T>| v@.map_values(|t: T| t@);
                    assert(flat@.map_values(m) =~= fr.skip(j + 1)) by {
                        assert(flat@ =~= old_flat.skip(1));
                        assert(old_flat.map_values(m).skip(1) =~= flat@.map_values(m));
                        assert(fr.skip(j as int).skip(1) =~= fr.skip(j + 1));
                    }
                    assert(tv@.map_values(m) =~= prev + fr.take(j + 1).map_values(
                        |v: Seq<T::V>| v.reverse(),
                    )) by {
                        assert(tv@.map_values(m) =~= (prev + fr.take(j as int).map_values(
                            |v: Seq<T::V>| v.reverse(),
                        )).push(m(tv@.last())));
                        assert(m(tv@.last()) == fr[j as int].reverse());
                        assert(fr.take(j + 1).map_values(|v: Seq<T::V>| v.reverse()) =~= fr.take(
                            j as int,
                        ).map_values(|v: Seq<T::V>| v.reverse()).push(fr[j as int].reverse()));
                    }
                }
                j = j + 1;
            }
            proof {
                assert(fr.take(fr.len() as int) =~= fr);
                let before = child_flats(gview, i as nat);
                assert(i + 1 <= gview.len());
                assert(child_flats(gview, (i + 1) as nat) == child_flats(
                    gview,
                    ((i + 1) as nat - 1) as nat,
                ).push(flatten_expect_rev(gview[(i + 1) as nat - 1])));
                assert(child_flats(gview, (i + 1) as nat) =~= before.push(fr));
                before.lemma_flatten_push(fr);
                assert(child_flats(gview, (i + 1) as nat).flatten() =~= before.flatten() + fr);
                assert(tv@.map_values(|v: Vec<T>| v@.map_values(|t: T| t@)) =~= child_flats(
                    gview,
                    (i + 1) as nat,
                ).flatten().map_values(|v: Seq<T::V>| v.reverse()));
            }
            i = i + 1;
        }
        proof {
            assert(child_flats(gview, gview.len()).flatten().map_values(
                |v: Seq<T::V>| v.reverse(),
            ) == flatten_forest_rev(gview).map_values(|v: Seq<T::V>| v.reverse()));
        }
        tv
    }

    /// A reference to the item at the current position, or `None` at the
    /// roots.
    pub fn last(&self) -> (r: Option<&T>)
        requires
            self.wf(),
        ensures
            match r {
                Some(t) => self.cur_items().len() > 0 && t@ == self.cur_items().last(),
                None => self.cur_items().len() == 0,
            },
    {
        if self.path.len() == 0 {
            return None;
        }
        proof {
            assert(self.path@.skip(0) =~= self.path@);
        }
        Some(Self::last_rec(&self.tree, &self.path, 0))
    }

    fn last_rec<'a>(forest: &'a Vec<Expect<T>>, path: &Vec<usize>, depth: usize) -> (r: &'a T)
        requires
            depth < path@.len(),
            wf_path(forest_view(forest@), path@.skip(depth as int)),
        ensures
            r@ == items_on_path(forest_view(forest@), path@.skip(depth as int)).last(),
        decreases path@.len() - depth,
    {
        let ghost fv = forest_view(forest@);
        let ghost gpath = path@.skip(depth as int);
        proof {
            lemma_forest_view(forest@);
        }
        let idx = path[depth];
        proof {
            assert(gpath[0] == path@[depth as int]);
        }
        let plen = path.len();
        proof {
            assert(plen > 0);
        }
        if depth == plen - 1 {
            proof {
                assert(gpath.len() == 1);
                assert(gpath.skip(1) =~= Seq::<usize>::empty());
                assert(items_on_path(fv[idx as int].next, gpath.skip(1)) =~= Seq::<
                    T::V,
                >::empty());
                assert(items_on_path(fv, gpath) =~= seq![fv[idx as int].item]);
                assert(fv[idx as int] == forest@[idx as int]@);
            }
            &forest[idx].item
        } else {
            proof {
                assert(gpath.skip(1) =~= path@.skip(depth + 1));
                assert(fv[idx as int] == forest@[idx as int]@);
                assert(forest_view(forest@[idx as int].next@) == fv[idx as int].next);
                assert(items_on_path(fv, gpath).last() == items_on_path(
                    fv[idx as int].next,
                    path@.skip(depth + 1),
                ).last());
            }
            Self::last_rec(&forest[idx].next, path, depth + 1)
        }
    }

    #[verifier::loop_isolation(false)]
    fn advance_rec(forest: &mut Vec<Expect<T>>, path: &Vec<usize>, depth: usize, value: T) -> (k:
        usize)
        requires
            depth <= path@.len(),
            wf_path(forest_view(old(forest)@), path@.skip(depth as int)),
        ensures
            ({
                let fa = forest_at(forest_view(old(forest)@), path@.skip(depth as int));
                let k0 = find_item(fa, value@);
                &&& k == k0
                &&& if k0 < fa.len() {
                    forest_view(final(forest)@) == forest_view(old(forest)@)
                } else {
                    appended_at(
                        forest_view(old(forest)@),
                        forest_view(final(forest)@),
                        path@.skip(depth as int),
                        value@,
                    )
                }
            }),
        decreases path@.len() - depth,
    {
        let ghost old_fv = forest_view(old(forest)@);
        let ghost gpath = path@.skip(depth as int);
        proof {
            lemma_forest_view(old(forest)@);
        }
        if depth == path.len() {
            proof {
                assert(gpath.len() == 0);
                assert(forest_at(old_fv, gpath) == old_fv);
                lemma_find_item(old_fv, value@);
            }
            let mut idx: usize = 0;
            while idx < forest.len()
                invariant
                    idx <= forest@.len(),
                    forest@ == old(forest)@,
                    forall|j: int| 0 <= j < idx ==> old_fv[j].item != value@,
                decreases forest@.len() - idx,
            {
                if forest[idx].item.same(&value) {
                    proof {
                        assert(old_fv[idx as int].item == value@);
                        lemma_find_item(old_fv, value@);
                    }
                    return idx;
                }
                proof {
                    assert(old_fv[idx as int].item == forest@[idx as int].item@);
                }
                idx = idx + 1;
            }
            proof {
                assert(find_item(old_fv, value@) == old_fv.len());
            }
            let k = forest.len();
            forest.push(Expect { item: value, next: Vec::new() });
            proof {
                assert(forest@.drop_last() =~= old(forest)@);
                assert(forest_view(Seq::<Expect<T>>::empty()) =~= Seq::<ExpectView<
                    T::V,
                >>::empty());
                assert(forest@.last()@ == ExpectView { item: value@, next: Seq::<ExpectView<
                    T::V,
                >>::empty() });
                assert(forest_view(forest@) == old_fv.push(
                    ExpectView { item: value@, next: Seq::empty() },
                ));
            }
            k
        } else {
            let idx = path[depth];
            proof {
                assert(gpath[0] == path@[depth as int]);
                assert(gpath.skip(1) =~= path@.skip(depth + 1));
            }
            let mut node = forest.remove(idx);
            let ghost old_node = node;
            proof {
                assert(node == old(forest)@[idx as int]);
                assert(old_fv[idx as int] == old(forest)@[idx as int]@);
                assert(forest_view(node.next@) == old_fv[idx as int].next);
            }
            let k = Self::advance_rec(&mut node.next, path, depth + 1, value);
            forest.insert(idx, node);
            proof {
                lemma_forest_view(forest@);
                assert(forest@.len() == old(forest)@.len());
                assert(forall|j: int|
                    0 <= j < old(forest)@.len() && j != idx ==> forest@[j] == old(forest)@[j]);
                assert(forest@[idx as int] == node);
                let fa = forest_at(old_fv, gpath);
                let k0 = find_item(fa, value@);
                assert(fa == forest_at(forest_view(old_node.next@), gpath.skip(1)));
                if k0 < fa.len() {
                    assert(node@ == old_node@) by {
                        assert(node@.next == forest_view(node.next@));
                        assert(old_node@.next == forest_view(old_node.next@));
                    }
                    assert(forest_view(forest@) =~= old_fv);
                } else {
                    assert(node@.next == forest_view(node.next@));
                    assert(forest_view(forest@).len() == old_fv.len());
                    assert(forall|j: int|
                        0 <= j < old_fv.len() && j != idx ==> forest_view(forest@)[j] == old_fv[j]);
                    assert(forest_view(forest@)[idx as int] == node@);
                    assert(appended_at(old_fv, forest_view(forest@), gpath, value@));
                }
            }
            k
        }
    }
}

/// Reverse a vector's items, preserving their images.
pub fn reverse_vec<T: TreeItem>(v: Vec<T>) -> (r: Vec<T>)
    ensures
        r@.map_values(|t: T| t@) == v@.map_values(|t: T| t@).reverse(),
{
    let mut v = v;
    let ghost orig = v@;
    let mut r: Vec<T> = Vec::new();
    while v.len() > 0
        invariant
            r@.len() + v@.len() == orig.len(),
            v@ == orig.take(v@.len() as int),
            forall|j: int| 0 <= j < r@.len() ==> (#[trigger] r@[j])@ == orig[orig.len() - 1 - j]@,
        decreases v@.len(),
    {
        let ghost old_v = v@;
        let last = v.pop().unwrap();
        proof {
            assert(old_v.last() == orig[old_v.len() - 1]);
            assert(v@ =~= orig.take(v@.len() as int));
        }
        r.push(last);
    }
    proof {
        assert(forall|j: int|
            0 <= j < r@.len() ==> (#[trigger] r@[j])@ == orig[orig.len() - 1 - j]@);
        assert(r@.map_values(|t: T| t@) =~= orig.map_values(|t: T| t@).reverse());
    }
    r
}

} // verus!
