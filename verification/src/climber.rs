//! The path evaluator.
//!
//! A `Climber` consumes tokens against a value, dispatching field, index,
//! call and assignment operations, while recording in its expectation tree
//! every token that could have appeared.  Candidate checks run against a
//! saved cursor position and roll back when they do not apply, so exactly
//! one successful branch advances real state while all attempted branches
//! still contribute to the suggestions.
//!
//! An immutable climb that discovers it needs write access (an assignment,
//! or a method that mutates) reports `NeedMutPath`; the caller retries the
//! same tokens through the mutable entry point.  A mutable climb performs
//! no side effect itself: it records the one mutation to apply, and the
//! query entry point commits it after the climb succeeds, or not at all
//! when probing.

use vstd::prelude::*;

use crate::access::{
    deser_assign, AssignError, CallError, Graph, LockKind, LockState, MethodKind, StructValue,
    Value,
};
use crate::deser::{DeserError, Tracker};
use crate::expect::ExpectTree;
use crate::lexer::TokenError;
use crate::node_tree::{NodeInfo, NodeTree};
use crate::reflector::{seen_wf, Reflector};
use crate::tokens::{Token, TokenKind, TokenVec};

verus! {

broadcast use vstd::std_specs::vec::group_vec_axioms;

/// Every way a climb can fail.
#[derive(Debug)]
pub enum ClimbError {
    AssignError(AssignError),
    Borrowed,
    BorrowedMut,
    CallError(CallError),
    DeserError(DeserError),
    Indirect,
    Locked,
    MissingStartComponent,
    NeedMutPath,
    NotFound,
    NullPath,
    TokenError(TokenError),
    UnattainedMutability,
    UnexpectedExpressionEnd,
    UnexpectedToken,
}

/// The error kinds a climb itself can produce: never the entry point's
/// own tokenization, null-path or missing-root reports.
pub open spec fn climb_error_kind(e: ClimbError) -> bool {
    !(e is MissingStartComponent) && !(e is TokenError) && !(e is NullPath)
}

/// Where a mutation lands: a named root value, or a shared cell, plus the
/// child-index path below it.
pub enum LocBase {
    RootAt(usize),
    CellAt(usize),
}

pub struct Location {
    pub base: LocBase,
    pub steps: Vec<usize>,
}

/// The operation a leaf receives.
pub enum MutOp {
    /// Overwrite the leaf with a parsed value of its own kind.
    Write(Value),
    /// Add into an unsigned leaf, wrapping on overflow.
    Bump(u64),
}

/// The one recorded mutation of a mutable climb.
pub struct Mutation {
    pub loc: Location,
    pub op: MutOp,
}

/// The climb state for one query.
pub struct Climber {
    /// Parse fully but perform no side effect.
    pub probe_only: bool,
    pub tokenvec: TokenVec,
    pub expect: ExpectTree<Token>,
    pub valid_pos: usize,
    pub reflector: Reflector,
    pub mutation: Option<Mutation>,
    pub suggest_anchor: usize,
}

impl Climber {
    /// The mutation recorded by a mutable climb, if any.
    pub open spec fn spec_mutation(self) -> Option<Mutation> {
        self.mutation
    }

    /// The shared-cell identities the renderer has visited.
    pub open spec fn spec_seen(self) -> Seq<usize> {
        self.reflector.spec_seen()
    }

    /// The climb state is internally consistent against a graph.
    pub open spec fn wf(self, g: Graph) -> bool {
        &&& self.tokenvec.wf()
        &&& self.expect.wf()
        &&& seen_wf(self.spec_seen(), g)
        &&& self.spec_reflector_wf()
    }

    /// The renderer's budget is not overspent.
    pub open spec fn spec_reflector_wf(self) -> bool {
        self.reflector.wf()
    }

    /// A climber over a token list, with a render budget of `max_nodes`.
    pub fn new(max_nodes: usize, probe_only: bool, tokens: Vec<Token>) -> (r: Climber)
        ensures
            r.probe_only == probe_only,
            r.tokenvec.toks() == tokens@,
            r.tokenvec.spec_pos() == 0,
            r.valid_pos == 0,
            r.spec_mutation() is None,
            forall|g: Graph| seen_wf(Seq::<usize>::empty(), g) ==> r.wf(g),
    {
        Climber {
            probe_only,
            tokenvec: TokenVec::new(tokens),
            expect: ExpectTree::new(),
            valid_pos: 0,
            reflector: Reflector::new(max_nodes),
            mutation: None,
            suggest_anchor: 0,
        }
    }

    /// Record a single-token expectation at the current position without
    /// consuming input.
    pub fn suggest_token(&mut self, kind: TokenKind, text: &str)
        requires
            old(self).expect.wf(),
        ensures
            final(self).expect.wf(),
            final(self).tokenvec == old(self).tokenvec,
            final(self).spec_mutation() == old(self).spec_mutation(),
            final(self).reflector == old(self).reflector,
            final(self).valid_pos == old(self).valid_pos,
            final(self).probe_only == old(self).probe_only,
            final(self).expect.spec_path().len() == old(self).expect.spec_path().len() + 1,
            final(self).expect.cur_items() == old(self).expect.cur_items().push(
                crate::tokens::TokenView { kind: kind@, text: text@, space_diff: 0 as nat },
            ),
            ({
                let tv = crate::tokens::TokenView {
                    kind: kind@,
                    text: text@,
                    space_diff: 0 as nat,
                };
                let fa = crate::expect::forest_at(
                    old(self).expect.forest(),
                    old(self).expect.spec_path(),
                );
                let k0 = crate::expect::find_item(fa, tv);
                &&& final(self).expect.spec_path() == old(self).expect.spec_path().push(
                    k0 as usize,
                )
                &&& if k0 < fa.len() {
                    final(self).expect.forest() == old(self).expect.forest()
                } else {
                    crate::expect::appended_at(
                        old(self).expect.forest(),
                        final(self).expect.forest(),
                        old(self).expect.spec_path(),
                        tv,
                    )
                }
            }),
    {
        self.suggest_anchor = self.tokenvec.pos();
        self.expect.advance(Token { kind, text: text.to_owned(), space_diff: 0 });
    }

    /// Whether a `[` stands at the cursor; consume it if so, else record
    /// it as expected when the input has run out.
    pub fn open_bracket(&mut self) -> (r: bool)
        requires
            old(self).tokenvec.wf(),
            old(self).expect.wf(),
        ensures
            final(self).tokenvec.wf(),
            final(self).expect.wf(),
            final(self).tokenvec.toks() == old(self).tokenvec.toks(),
            final(self).spec_mutation() == old(self).spec_mutation(),
            final(self).reflector == old(self).reflector,
            final(self).probe_only == old(self).probe_only,
            r ==> final(self).tokenvec.spec_pos() == old(self).tokenvec.spec_pos() + 1,
            !r ==> final(self).tokenvec.spec_pos() == old(self).tokenvec.spec_pos(),
            r <==> (old(self).rem() > 0 && old(self).tokenvec.toks()[old(
                self,
            ).tokenvec.spec_pos() as int]@.kind is SubscriptOpen),
            old(self).rem() == 0 ==> (final(self).expect.cur_items().len() == old(
                self,
            ).expect.cur_items().len() + 1 && final(self).expect.cur_items().last().kind
                is SubscriptOpen),
    {
        if self.tokenvec.is_empty() {
            self.suggest_token(TokenKind::SubscriptOpen, "[");
            return false;
        }
        let is_open = match self.tokenvec.top_kind() {
            TokenKind::SubscriptOpen => true,
            _ => false,
        };
        if is_open {
            self.tokenvec.advance(1);
            true
        } else {
            false
        }
    }

    /// Require a `]` at the cursor: consume it, or report what went wrong.
    pub fn close_bracket(&mut self) -> (r: Result<(), ClimbError>)
        requires
            old(self).tokenvec.wf(),
            old(self).expect.wf(),
        ensures
            final(self).tokenvec.wf(),
            final(self).expect.wf(),
            final(self).tokenvec.toks() == old(self).tokenvec.toks(),
            final(self).spec_mutation() == old(self).spec_mutation(),
            final(self).reflector == old(self).reflector,
            final(self).probe_only == old(self).probe_only,
            r is Ok ==> final(self).tokenvec.spec_pos() == old(self).tokenvec.spec_pos() + 1,
            r is Err ==> final(self).tokenvec.spec_pos() == old(self).tokenvec.spec_pos(),
            r is Ok <==> (old(self).rem() > 0 && old(self).tokenvec.toks()[old(
                self,
            ).tokenvec.spec_pos() as int]@.kind is SubscriptClose),
            r matches Err(e) ==> climb_error_kind(e),
            old(self).rem() == 0 <==> r == Err::<(), ClimbError>(
                ClimbError::UnexpectedExpressionEnd,
            ),
            (old(self).rem() > 0 && !(old(self).tokenvec.toks()[old(
                self,
            ).tokenvec.spec_pos() as int]@.kind is SubscriptClose)) ==> r == Err::<
                (),
                ClimbError,
            >(ClimbError::UnexpectedToken),
            old(self).rem() == 0 ==> (final(self).expect.cur_items().len() == old(
                self,
            ).expect.cur_items().len() + 1 && final(self).expect.cur_items().last().kind
                is SubscriptClose),
    {
        if self.tokenvec.is_empty() {
            self.suggest_token(TokenKind::SubscriptClose, "]");
            return Err(ClimbError::UnexpectedExpressionEnd);
        }
        let is_close = match self.tokenvec.top_kind() {
            TokenKind::SubscriptClose => true,
            _ => false,
        };
        if is_close {
            self.tokenvec.advance(1);
            Ok(())
        } else {
            Err(ClimbError::UnexpectedToken)
        }
    }
}


/// The name a struct-like value answers to when matched as an enum
/// variant.
fn variant_name(v: &Value) -> (r: Option<&String>) {
    match v {
        Value::Unit(name) => Some(name),
        Value::StructV(s) => Some(&s.name),
        Value::TupleV(t) => Some(&t.name),
        _ => None,
    }
}

/// Whether the characters of `a` equal those of `b`.
fn str_eq(a: &str, b: &str) -> (r: bool)
    ensures
        r == (a@ == b@),
{
    let ca = crate::tokens::str_to_chars(a);
    let cb = crate::tokens::str_to_chars(b);
    crate::tokens::chars_eq(&ca, &cb)
}

/// Whether the characters of `a` are a prefix of those of `b`.
fn str_prefix(a: &str, b: &str) -> (r: bool)
    ensures
        r == a@.is_prefix_of(b@),
{
    let ca = crate::tokens::str_to_chars(a);
    let cb = crate::tokens::str_to_chars(b);
    crate::deser::chars_prefix(&ca, &cb)
}

/// A fresh location whose steps extend `loc` by `extra`.
fn extend_loc(loc: &Location, extra: &Vec<usize>) -> (r: Location)
    ensures
        r.base == loc.base,
        r.steps@ == loc.steps@ + extra@,
{
    let mut steps: Vec<usize> = Vec::new();
    let mut i: usize = 0;
    while i < loc.steps.len()
        invariant
            i <= loc.steps@.len(),
            steps@ == loc.steps@.take(i as int),
        decreases loc.steps@.len() - i,
    {
        steps.push(loc.steps[i]);
        proof {
            assert(steps@ =~= loc.steps@.take(i + 1));
        }
        i = i + 1;
    }
    proof {
        assert(steps@ =~= loc.steps@);
    }
    let mut j: usize = 0;
    while j < extra.len()
        invariant
            j <= extra@.len(),
            steps@ == loc.steps@ + extra@.take(j as int),
        decreases extra@.len() - j,
    {
        steps.push(extra[j]);
        proof {
            assert(steps@ =~= loc.steps@ + extra@.take(j + 1));
        }
        j = j + 1;
    }
    proof {
        assert(steps@ =~= loc.steps@ + extra@);
    }
    let base = match loc.base {
        LocBase::RootAt(i) => LocBase::RootAt(i),
        LocBase::CellAt(i) => LocBase::CellAt(i),
    };
    Location { base, steps }
}

/// A location one child below `loc`.
fn loc_child(loc: &Location, idx: usize) -> (r: Location)
    ensures
        r.base == loc.base,
        r.steps@ == loc.steps@.push(idx),
{
    let mut one: Vec<usize> = Vec::new();
    one.push(idx);
    let r = extend_loc(loc, &one);
    proof {
        assert(loc.steps@ + one@ =~= loc.steps@.push(idx));
    }
    r
}

/// Whether an identifier with the given text is recorded among the
/// expectations at a position.
pub open spec fn suggested_at(
    forest: Seq<crate::expect::ExpectView<crate::tokens::TokenView>>,
    path: Seq<usize>,
    text: Seq<char>,
) -> bool {
    exists|k: int|
        0 <= k < crate::expect::forest_at(forest, path).len() && (#[trigger] crate::expect::forest_at(
            forest,
            path,
        )[k]).item.kind is Ident && crate::expect::forest_at(forest, path)[k].item.text == text
}

impl Climber {
    /// How many tokens remain past the cursor.
    pub open spec fn rem(self) -> int {
        self.tokenvec.toks().len() - self.tokenvec.spec_pos()
    }

    /// What every climb preserves: the token list itself, the probe flag,
    /// and well-formedness; the cursor never moves back before where it
    /// stood.
    pub open spec fn climb_frame(a: Climber, b: Climber, g: Graph) -> bool {
        &&& b.tokenvec.toks() == a.tokenvec.toks()
        &&& b.probe_only == a.probe_only
        &&& b.wf(g)
        &&& b.tokenvec.spec_pos() >= a.tokenvec.spec_pos()
    }

    /// Climb a value along the remaining tokens with read access.  An
    /// assignment or a mutating method discovered on the way reports
    /// `NeedMutPath` so the caller can retry with write access; a lock
    /// already held fails fast instead of blocking.
    pub fn general_access_immut(&mut self, g: &Graph, v: &Value, depth: usize) -> (r: Result<
        NodeTree,
        ClimbError,
    >)
        requires
            old(self).wf(*g),
        ensures
            Self::climb_frame(*old(self), *final(self), *g),
            r matches Ok(n) ==> crate::node_tree::pending_free(n),
            r matches Err(e) ==> climb_error_kind(e),
            (!(*v is LockV) && !(*v is Ref) && !(*v is Indirect) && old(self).rem() > 0 && old(
                self,
            ).tokenvec.toks()[old(self).tokenvec.spec_pos() as int]@.kind is Assign) ==> r
                == Err::<NodeTree, ClimbError>(ClimbError::NeedMutPath),
            (crate::access::is_prim(*v) && old(self).rem() == 0) ==> (r matches Ok(n)
                && crate::access::is_leaf_of(n, *v)),
            ({
                let p = old(self).tokenvec.spec_pos() as int;
                let toks = old(self).tokenvec.toks();
                let name = toks[p + 1]@.text;
                (*v is StructV && (v->StructV_0).functions@.len() == 0 && (
                v->StructV_0).field_names@.len() <= (v->StructV_0).fields@.len() && old(
                    self,
                ).rem() == 2 && toks[p]@.kind is FieldAccess && toks[p + 1]@.kind is Ident && (
                exists|j: int|
                    0 <= j < (v->StructV_0).field_names@.len()
                        && ((#[trigger] (v->StructV_0).field_names@[j]))@ == name) && (forall|j: int|
                    0 <= j < (v->StructV_0).field_names@.len()
                        && ((#[trigger] (v->StructV_0).field_names@[j]))@ == name
                        ==> crate::access::is_prim((v->StructV_0).fields@[j]))) ==> (r
                    matches Ok(n) && (exists|j: int|
                    0 <= j < (v->StructV_0).field_names@.len()
                        && ((#[trigger] (v->StructV_0).field_names@[j]))@ == name
                        && crate::node_tree::spec_format(n, Seq::empty())
                        == crate::access::leaf_text((v->StructV_0).fields@[j])))
            }),
            ({
                let p = old(self).tokenvec.spec_pos() as int;
                let toks = old(self).tokenvec.toks();
                let name = toks[p + 1]@.text;
                (*v is StructV && (v->StructV_0).functions@.len() == 0 && (
                v->StructV_0).field_names@.len() <= (v->StructV_0).fields@.len() && old(
                    self,
                ).rem() >= 3 && toks[p]@.kind is FieldAccess && toks[p + 1]@.kind is Ident
                    && toks[p + 2]@.kind is Assign && (exists|j: int|
                    0 <= j < (v->StructV_0).field_names@.len()
                        && ((#[trigger] (v->StructV_0).field_names@[j]))@ == name) && (forall|j: int|
                    0 <= j < (v->StructV_0).field_names@.len()
                        && ((#[trigger] (v->StructV_0).field_names@[j]))@ == name
                        ==> crate::access::is_prim((v->StructV_0).fields@[j]))) ==> r == Err::<
                    NodeTree,
                    ClimbError,
                >(ClimbError::NeedMutPath)
            }),
            ({
                let p = old(self).tokenvec.spec_pos() as int;
                let toks = old(self).tokenvec.toks();
                let name = toks[p + 1]@.text;
                (*v is StructV && (v->StructV_0).functions@.len() == 0 && old(self).rem() >= 2
                    && toks[p]@.kind is FieldAccess && toks[p + 1]@.kind is Ident && (forall|j: int|
                    0 <= j < (v->StructV_0).field_names@.len()
                        ==> ((#[trigger] (v->StructV_0).field_names@[j]))@ != name)) ==> (r
                    == Err::<NodeTree, ClimbError>(ClimbError::UnexpectedToken)
                    && final(self).valid_pos == old(self).tokenvec.spec_pos() + 1)
            }),
            ({
                let p = old(self).tokenvec.spec_pos() as int;
                let toks = old(self).tokenvec.toks();
                let parsed = crate::deser::spec_deser_unsigned_at(
                    toks,
                    p + 1,
                    0xffff_ffff_ffff_ffff,
                );
                (*v matches Value::MapV(m) && m.keys@.len() > 0 && m.keys@[0] is U64
                    && m.keys@.len() <= m.vals@.len() && old(self).rem() == 3 && toks[p]@.kind
                    is SubscriptOpen && toks[p + 2]@.kind is SubscriptClose && parsed is Ok)
                    ==> ({
                    let m = v->MapV_0;
                    let nv = parsed->Ok_0;
                    &&& (((exists|j: int|
                        0 <= j < m.keys@.len() && (#[trigger] m.keys@[j]) == Value::U64(nv))
                        && (forall|j: int|
                        0 <= j < m.keys@.len() && (#[trigger] m.keys@[j]) == Value::U64(nv)
                            ==> crate::access::is_prim(m.vals@[j]))) ==> (r matches Ok(n) && (
                    exists|j: int|
                        0 <= j < m.keys@.len() && (#[trigger] m.keys@[j]) == Value::U64(nv)
                            && crate::node_tree::spec_format(n, Seq::empty())
                            == crate::access::leaf_text(m.vals@[j]))))
                    &&& ((forall|j: int|
                        0 <= j < m.keys@.len() ==> (#[trigger] m.keys@[j]) != Value::U64(nv))
                        ==> r == Err::<NodeTree, ClimbError>(ClimbError::NotFound))
                })
            }),
            ({
                let p = old(self).tokenvec.spec_pos() as int;
                let toks = old(self).tokenvec.toks();
                let parsed = crate::deser::spec_deser_unsigned_at(
                    toks,
                    p + 1,
                    usize::MAX as u64,
                );
                (*v is ListV && old(self).rem() == 3 && toks[p]@.kind is SubscriptOpen && toks[
                    p + 2
                ]@.kind is SubscriptClose && parsed is Ok) ==> ({
                    let l = v->ListV_0;
                    let nv = parsed->Ok_0;
                    &&& ((nv < l.items@.len() && crate::access::is_prim(l.items@[nv as int]))
                        ==> (r matches Ok(n) && crate::node_tree::spec_format(n, Seq::empty())
                        == crate::access::leaf_text(l.items@[nv as int])))
                    &&& (nv >= l.items@.len() ==> r == Err::<NodeTree, ClimbError>(
                        ClimbError::NotFound,
                    ))
                })
            }),
        decreases self.rem(), depth, 3int,
    {
        self.expect = ExpectTree::new();
        self.valid_pos = self.tokenvec.pos();
        let ghost entry = *self;
        match v {
            Value::LockV(l) => {
                return self.lock_handling_immut(g, l, depth);
            },
            Value::Ref(c) => {
                let c = *c;
                if c >= g.cells.len() {
                    return Err(ClimbError::NotFound);
                }
                if self.tokenvec.is_empty() {
                    let node = self.reflector.reflect(g, v);
                    return Ok(node);
                }
                if depth == 0 {
                    return Err(ClimbError::Indirect);
                }
                return self.general_access_immut(g, &g.cells[c].value, depth - 1);
            },
            Value::Indirect(inner) => {
                if depth == 0 {
                    return Err(ClimbError::Indirect);
                }
                return self.general_access_immut(g, inner, depth - 1);
            },
            _ => {},
        }
        if self.tokenvec.has_remaining() {
            let is_assign = match self.tokenvec.top_kind() {
                TokenKind::Assign => true,
                _ => false,
            };
            if is_assign {
                return Err(ClimbError::NeedMutPath);
            }
        }
        let save = self.tokenvec.pos();
        let mut pos_best = save;
        match v {
            Value::StructV(s) => {
                match self.check_functions_immut(g, s, v, depth) {
                    Err(e) => {
                        return Err(e);
                    },
                    Ok(Some(node)) => {
                        return Ok(node);
                    },
                    Ok(None) => {},
                }
                self.expect.retract_path(0);
                let pos_fn = self.tokenvec.pos();
                if pos_fn > pos_best {
                    pos_best = pos_fn;
                }
                self.tokenvec.take_pos(save);
            },
            _ => {},
        }
        match v {
            Value::StructV(_) | Value::TupleV(_) | Value::EnumV(_) | Value::Unit(_) => {
                match self.check_field_access_immut(g, v, depth) {
                    Err(e) => {
                        return Err(e);
                    },
                    Ok(Some(node)) => {
                        return Ok(node);
                    },
                    Ok(None) => {
                        self.expect.retract_path(0);
                        let p = self.tokenvec.pos();
                        if p > pos_best {
                            pos_best = p;
                        }
                        self.tokenvec.take_pos(save);
                    },
                }
            },
            Value::MapV(m) => {
                if self.open_bracket() {
                    match self.lookup_map_entry(m) {
                        Err(e) => {
                            return Err(e);
                        },
                        Ok(i) => {
                            match self.close_bracket() {
                                Err(e) => {
                                    return Err(e);
                                },
                                Ok(_) => {},
                            }
                            proof {
                                assert(self.tokenvec.spec_pos() > entry.tokenvec.spec_pos());
                            }
                            return self.general_access_immut(g, &m.vals[i], depth);
                        },
                    }
                }
            },
            Value::ListV(l) => {
                if self.open_bracket() {
                    match self.lookup_list_index(l) {
                        Err(e) => {
                            return Err(e);
                        },
                        Ok(i) => {
                            match self.close_bracket() {
                                Err(e) => {
                                    return Err(e);
                                },
                                Ok(_) => {},
                            }
                            proof {
                                assert(self.tokenvec.spec_pos() > entry.tokenvec.spec_pos());
                            }
                            return self.general_access_immut(g, &l.items[i], depth);
                        },
                    }
                }
            },
            _ => {},
        }
        self.tokenvec.take_pos(pos_best);
        if self.tokenvec.remaining() > 0 {
            return Err(ClimbError::UnexpectedToken);
        }
        let node = self.reflector.reflect(g, v);
        Ok(node)
    }

    /// Climb a value along the remaining tokens with write access.  A
    /// successful assignment or mutating call records the one mutation to
    /// apply at `loc`; nothing is written during the climb itself.
    #[verifier::rlimit(60)]
    pub fn general_access_mut(&mut self, g: &Graph, loc: Location, v: &Value, depth: usize) -> (r:
        Result<NodeTree, ClimbError>)
        requires
            old(self).wf(*g),
        ensures
            Self::climb_frame(*old(self), *final(self), *g),
            r matches Ok(n) ==> crate::node_tree::pending_free(n),
            r matches Err(e) ==> climb_error_kind(e),
            (crate::access::is_prim(*v) && old(self).rem() == 0) ==> (r matches Ok(n)
                && crate::access::is_leaf_of(n, *v)),
            (crate::access::is_prim(*v) && old(self).rem() > 0 && old(self).tokenvec.toks()[
                old(self).tokenvec.spec_pos() as int
            ]@.kind is Assign) ==> ({
                let toks = old(self).tokenvec.toks();
                let p = old(self).tokenvec.spec_pos() as int;
                let outcome = crate::access::spec_assign_outcome_at(*v, toks, p + 1);
                &&& (r is Ok <==> outcome is None)
                &&& (r matches Ok(n) ==> ({
                    &&& n.info matches crate::node_tree::NodeInfo::Leaf(s) && s@.len() == 0
                    &&& final(self).mutation matches Some(mu) && mu.loc == loc
                        && (crate::access::spec_assign_result_at(*v, toks, p + 1) matches Ok(w)
                        ==> mu.op == MutOp::Write(w)) && (*v is Str ==> (mu.op
                        matches MutOp::Write(w2) && (w2 matches Value::Str(sv) && (toks[
                        p + 1
                    ]@.kind matches crate::tokens::TokenKindView::Str(cc) && sv@ == cc)))) && (
                    *v is Ch ==> (mu.op matches MutOp::Write(w3) && (w3 matches Value::Ch(ch)
                        && toks[p + 1]@.kind == crate::tokens::TokenKindView::Char(ch)))) && (
                    *v is Bool ==> (mu.op matches MutOp::Write(w4) && (w4
                        matches Value::Bool(b) && toks[p + 1]@.text == (if b {
                        "true"@
                    } else {
                        "false"@
                    }))))
                }))
                &&& (r matches Err(e) ==> (e matches ClimbError::AssignError(ae) && (ae
                    matches AssignError::Deser(de) ==> Some(de) == outcome)))
            }),
            ({
                let p = old(self).tokenvec.spec_pos() as int;
                let toks = old(self).tokenvec.toks();
                let name = toks[p + 1]@.text;
                (*v is StructV && (v->StructV_0).functions@.len() == 0 && (
                v->StructV_0).field_names@.len() <= (v->StructV_0).fields@.len() && old(
                    self,
                ).rem() >= 3 && toks[p]@.kind is FieldAccess && toks[p + 1]@.kind is Ident
                    && toks[p + 2]@.kind is Assign && (exists|j: int|
                    0 <= j < (v->StructV_0).field_names@.len()
                        && ((#[trigger] (v->StructV_0).field_names@[j]))@ == name) && (forall|j: int|
                    0 <= j < (v->StructV_0).field_names@.len()
                        && ((#[trigger] (v->StructV_0).field_names@[j]))@ == name
                        ==> crate::access::is_prim((v->StructV_0).fields@[j])) && (forall|
                    j: int,
                    k: int,
                |
                    0 <= j < (v->StructV_0).field_names@.len() && 0 <= k < (
                    v->StructV_0).field_names@.len() && ((
                    #[trigger] (v->StructV_0).field_names@[j]))@ == name && ((
                    #[trigger] (v->StructV_0).field_names@[k]))@ == name ==> j == k)) ==> (
                exists|j: int|
                    0 <= j < (v->StructV_0).field_names@.len() && ((
                    #[trigger] (v->StructV_0).field_names@[j]))@ == name && ({
                        let outcome = crate::access::spec_assign_outcome_at(
                            (v->StructV_0).fields@[j],
                            toks,
                            p + 3,
                        );
                        &&& (r is Ok <==> outcome is None)
                        &&& (r matches Ok(n) ==> ((n.info
                            matches crate::node_tree::NodeInfo::Leaf(s) && s@.len() == 0) && (
                        final(self).mutation matches Some(mu) && mu.loc.base == loc.base
                            && mu.loc.steps@ == loc.steps@.push(j as usize)
                            && (crate::access::spec_assign_result_at(
                            (v->StructV_0).fields@[j],
                            toks,
                            p + 3,
                        ) matches Ok(w) ==> mu.op == MutOp::Write(w)))))
                    }))
            }),
        decreases self.rem(), depth, 3int,
    {
        self.expect = ExpectTree::new();
        self.valid_pos = self.tokenvec.pos();
        let ghost entry = *self;
        match v {
            Value::LockV(l) => {
                return self.lock_handling_mut(g, &loc, l, depth);
            },
            Value::Ref(c) => {
                let c = *c;
                if c >= g.cells.len() {
                    return Err(ClimbError::NotFound);
                }
                if self.tokenvec.is_empty() {
                    let node = self.reflector.reflect(g, v);
                    return Ok(node);
                }
                if g.cells[c].aliased {
                    return Err(ClimbError::UnattainedMutability);
                }
                if depth == 0 {
                    return Err(ClimbError::Indirect);
                }
                let cell_loc = Location { base: LocBase::CellAt(c), steps: Vec::new() };
                return self.general_access_mut(g, cell_loc, &g.cells[c].value, depth - 1);
            },
            Value::Indirect(inner) => {
                if depth == 0 {
                    return Err(ClimbError::Indirect);
                }
                let child_loc = loc_child(&loc, 0);
                return self.general_access_mut(g, child_loc, inner, depth - 1);
            },
            _ => {},
        }
        if self.tokenvec.has_remaining() {
            let is_assign = match self.tokenvec.top_kind() {
                TokenKind::Assign => true,
                _ => false,
            };
            if is_assign {
                self.tokenvec.advance(1);
                match crate::access::clone_prim(v) {
                    None => {
                        return Err(ClimbError::AssignError(AssignError::Unbuildable));
                    },
                    Some(tmp) => {
                        let mut tmp = tmp;
                        let res = self.with_tracker_assign(&mut tmp);
                        match res {
                            Ok(_) => {
                                self.mutation = Some(
                                    Mutation { loc, op: MutOp::Write(tmp) },
                                );
                                self.valid_pos = self.tokenvec.pos();
                                let node = NodeInfo::Leaf("".to_owned()).into_node();
                                proof {
                                    reveal_strlit("");
                                    assert(crate::node_tree::pending_free(node));
                                }
                                return Ok(node);
                            },
                            Err(e) => {
                                return Err(ClimbError::AssignError(e));
                            },
                        }
                    },
                }
            }
        }
        let save = self.tokenvec.pos();
        let mut pos_best = save;
        match v {
            Value::StructV(s) => {
                match self.check_functions_mut(g, s, v, &loc, depth) {
                    Err(e) => {
                        return Err(e);
                    },
                    Ok(Some(node)) => {
                        return Ok(node);
                    },
                    Ok(None) => {},
                }
                self.expect.retract_path(0);
                let pos_fn = self.tokenvec.pos();
                if pos_fn > pos_best {
                    pos_best = pos_fn;
                }
                self.tokenvec.take_pos(save);
            },
            _ => {},
        }
        match v {
            Value::StructV(_) | Value::TupleV(_) | Value::EnumV(_) | Value::Unit(_) => {
                match self.check_field_access_mut(g, v, &loc, depth) {
                    Err(e) => {
                        return Err(e);
                    },
                    Ok(Some(node)) => {
                        return Ok(node);
                    },
                    Ok(None) => {
                        self.expect.retract_path(0);
                        let p = self.tokenvec.pos();
                        if p > pos_best {
                            pos_best = p;
                        }
                        self.tokenvec.take_pos(save);
                    },
                }
            },
            Value::MapV(m) => {
                if self.open_bracket() {
                    match self.lookup_map_entry(m) {
                        Err(e) => {
                            return Err(e);
                        },
                        Ok(i) => {
                            match self.close_bracket() {
                                Err(e) => {
                                    return Err(e);
                                },
                                Ok(_) => {},
                            }
                            proof {
                                assert(self.tokenvec.spec_pos() > entry.tokenvec.spec_pos());
                            }
                            let child_loc = loc_child(&loc, i);
                            return self.general_access_mut(g, child_loc, &m.vals[i], depth);
                        },
                    }
                }
            },
            Value::ListV(l) => {
                if self.open_bracket() {
                    match self.lookup_list_index(l) {
                        Err(e) => {
                            return Err(e);
                        },
                        Ok(i) => {
                            match self.close_bracket() {
                                Err(e) => {
                                    return Err(e);
                                },
                                Ok(_) => {},
                            }
                            proof {
                                assert(self.tokenvec.spec_pos() > entry.tokenvec.spec_pos());
                            }
                            let child_loc = loc_child(&loc, i);
                            return self.general_access_mut(g, child_loc, &l.items[i], depth);
                        },
                    }
                }
            },
            _ => {},
        }
        self.tokenvec.take_pos(pos_best);
        if self.tokenvec.remaining() > 0 {
            return Err(ClimbError::UnexpectedToken);
        }
        let node = self.reflector.reflect(g, v);
        Ok(node)
    }

    /// Run the typed literal parser over this climber's cursor and
    /// expectation tree, assigning into `dest`.
    fn with_tracker_assign(&mut self, dest: &mut Value) -> (r: Result<(), AssignError>)
        requires
            old(self).tokenvec.wf(),
            old(self).expect.wf(),
        ensures
            final(self).tokenvec.wf(),
            final(self).expect.wf(),
            final(self).tokenvec.toks() == old(self).tokenvec.toks(),
            final(self).tokenvec.spec_pos() >= old(self).tokenvec.spec_pos(),
            final(self).reflector == old(self).reflector,
            final(self).spec_mutation() == old(self).spec_mutation(),
            final(self).probe_only == old(self).probe_only,
            final(self).valid_pos == old(self).valid_pos,
            *old(dest) is U64 ==> ({
                let parsed = crate::deser::spec_deser_unsigned_at(
                    old(self).tokenvec.toks(),
                    old(self).tokenvec.spec_pos() as int,
                    0xffff_ffff_ffff_ffff,
                );
                &&& (r is Ok <==> parsed is Ok)
                &&& (r is Ok ==> (parsed matches Ok(nv) && *final(dest) == Value::U64(nv)
                    && final(self).tokenvec.spec_pos() == old(self).tokenvec.spec_pos() + 1))
                &&& (r matches Err(AssignError::Deser(e)) ==> parsed == Err::<u64, DeserError>(
                    e,
                ))
                &&& (r matches Err(e2) ==> e2 is Deser)
            }),
            crate::access::is_prim(*old(dest)) ==> ({
                let toks = old(self).tokenvec.toks();
                let p = old(self).tokenvec.spec_pos() as int;
                &&& (r is Ok <==> crate::access::spec_assign_outcome_at(*old(dest), toks, p)
                    is None)
                &&& (r is Ok ==> final(self).tokenvec.spec_pos() == old(
                    self,
                ).tokenvec.spec_pos() + 1)
                &&& (r is Ok ==> (crate::access::spec_assign_result_at(*old(dest), toks, p)
                    matches Ok(w) ==> *final(dest) == w))
                &&& ((r is Ok && *old(dest) is Str) ==> (*final(dest) matches Value::Str(s)
                    && (toks[p]@.kind matches crate::tokens::TokenKindView::Str(cc) && s@
                    == cc)))
                &&& ((r is Ok && *old(dest) is Ch) ==> (*final(dest) matches Value::Ch(ch)
                    && toks[p]@.kind == crate::tokens::TokenKindView::Char(ch)))
                &&& ((r is Ok && *old(dest) is Bool) ==> (*final(dest) matches Value::Bool(b)
                    && toks[p]@.text == (if b {
                    "true"@
                } else {
                    "false"@
                })))
                &&& (r matches Err(AssignError::Deser(e)) ==> Some(e)
                    == crate::access::spec_assign_outcome_at(*old(dest), toks, p))
                &&& (r matches Err(e2) ==> e2 is Deser)
            }),
    {
        let mut expect_tmp: ExpectTree<Token> = ExpectTree::new();
        core::mem::swap(&mut self.expect, &mut expect_tmp);
        let mut tv_tmp: TokenVec = TokenVec::new_empty();
        core::mem::swap(&mut self.tokenvec, &mut tv_tmp);
        let mut tracker = Tracker::new(expect_tmp, tv_tmp);
        let res = deser_assign(dest, &mut tracker, false);
        let (e, t) = tracker.dismantle();
        self.expect = e;
        self.tokenvec = t;
        res
    }

    /// Read a map key of the map's own key type and find its entry.
    #[verifier::loop_isolation(false)]
    fn lookup_map_entry(&mut self, m: &crate::access::MapValue) -> (r: Result<usize, ClimbError>)
        requires
            old(self).tokenvec.wf(),
            old(self).expect.wf(),
        ensures
            final(self).tokenvec.wf(),
            final(self).expect.wf(),
            final(self).tokenvec.toks() == old(self).tokenvec.toks(),
            final(self).tokenvec.spec_pos() >= old(self).tokenvec.spec_pos(),
            final(self).reflector == old(self).reflector,
            final(self).spec_mutation() == old(self).spec_mutation(),
            final(self).probe_only == old(self).probe_only,
            final(self).valid_pos == old(self).valid_pos,
            r matches Ok(i) ==> i < m.vals@.len() && i < m.keys@.len(),
            r matches Err(e) ==> climb_error_kind(e),
            (m.keys@.len() > 0 && m.keys@[0] is U64) ==> ({
                let parsed = crate::deser::spec_deser_unsigned_at(
                    old(self).tokenvec.toks(),
                    old(self).tokenvec.spec_pos() as int,
                    0xffff_ffff_ffff_ffff,
                );
                &&& (r matches Ok(i) ==> (parsed matches Ok(nv) && m.keys@[i as int]
                    == Value::U64(nv) && final(self).tokenvec.spec_pos() == old(
                    self,
                ).tokenvec.spec_pos() + 1))
                &&& (parsed matches Err(e) ==> r == Err::<usize, ClimbError>(
                    ClimbError::DeserError(e),
                ))
                &&& ((parsed matches Ok(nv) && m.keys@.len() <= m.vals@.len() && (forall|j: int|
                    0 <= j < m.keys@.len() ==> (#[trigger] m.keys@[j]) != Value::U64(nv)))
                    ==> r == Err::<usize, ClimbError>(ClimbError::NotFound))
                &&& ((parsed matches Ok(nv) && m.keys@.len() <= m.vals@.len() && (exists|j: int|
                    0 <= j < m.keys@.len() && (#[trigger] m.keys@[j]) == Value::U64(nv)))
                    ==> r is Ok)
            }),
    {
        let parsed: Value;
        if m.keys.len() > 0 {
            match crate::access::clone_prim(&m.keys[0]) {
                None => {
                    return Err(ClimbError::DeserError(DeserError::Unbuildable));
                },
                Some(tmp) => {
                    let mut tmp = tmp;
                    match self.with_tracker_assign(&mut tmp) {
                        Ok(_) => {
                            parsed = tmp;
                        },
                        Err(AssignError::Deser(e)) => {
                            return Err(ClimbError::DeserError(e));
                        },
                        Err(_) => {
                            return Err(ClimbError::DeserError(DeserError::Unbuildable));
                        },
                    }
                },
            }
        } else {
            return Err(ClimbError::NotFound);
        }
        if !parsed.prim() {
            return Err(ClimbError::NotFound);
        }
        let mut i: usize = 0;
        let n = if m.keys.len() < m.vals.len() {
            m.keys.len()
        } else {
            m.vals.len()
        };
        while i < n
            invariant
                i <= n,
                n <= m.keys@.len(),
                n <= m.vals@.len(),
                crate::access::is_prim(parsed),
                forall|j: int|
                    0 <= j < i ==> !crate::access::spec_prim_eq(parsed, (#[trigger] m.keys@[j])),
            decreases n - i,
        {
            if crate::access::prim_eq(&parsed, &m.keys[i]) {
                proof {
                    if m.keys@.len() > 0 && m.keys@[0] is U64 {
                        assert(m.keys@[i as int] == parsed) by {
                            assert(crate::access::spec_prim_eq(parsed, m.keys@[i as int]));
                        }
                    }
                }
                return Ok(i);
            }
            i = i + 1;
        }
        Err(ClimbError::NotFound)
    }

    /// Read a list index and check it is in range.
    fn lookup_list_index(&mut self, l: &crate::access::ListValue) -> (r: Result<
        usize,
        ClimbError,
    >)
        requires
            old(self).tokenvec.wf(),
            old(self).expect.wf(),
        ensures
            final(self).tokenvec.wf(),
            final(self).expect.wf(),
            final(self).tokenvec.toks() == old(self).tokenvec.toks(),
            final(self).tokenvec.spec_pos() >= old(self).tokenvec.spec_pos(),
            final(self).reflector == old(self).reflector,
            final(self).spec_mutation() == old(self).spec_mutation(),
            final(self).probe_only == old(self).probe_only,
            final(self).valid_pos == old(self).valid_pos,
            r matches Ok(i) ==> i < l.items@.len(),
            r matches Err(e) ==> climb_error_kind(e),
            ({
                let parsed = crate::deser::spec_deser_unsigned_at(
                    old(self).tokenvec.toks(),
                    old(self).tokenvec.spec_pos() as int,
                    usize::MAX as u64,
                );
                &&& (r matches Ok(i) ==> (parsed matches Ok(nv) && i == nv
                    && final(self).tokenvec.spec_pos() == old(self).tokenvec.spec_pos() + 1))
                &&& (parsed matches Err(e) ==> r == Err::<usize, ClimbError>(
                    ClimbError::DeserError(e),
                ))
                &&& ((parsed matches Ok(nv) && nv >= l.items@.len()) ==> r == Err::<
                    usize,
                    ClimbError,
                >(ClimbError::NotFound))
                &&& ((parsed matches Ok(nv) && nv < l.items@.len()) ==> r is Ok)
            }),
    {
        let mut expect_tmp: ExpectTree<Token> = ExpectTree::new();
        core::mem::swap(&mut self.expect, &mut expect_tmp);
        let mut tv_tmp: TokenVec = TokenVec::new_empty();
        core::mem::swap(&mut self.tokenvec, &mut tv_tmp);
        let mut tracker = Tracker::new(expect_tmp, tv_tmp);
        let res = crate::deser::deser_unsigned(&mut tracker, usize::MAX as u64);
        let (e, t) = tracker.dismantle();
        self.expect = e;
        self.tokenvec = t;
        match res {
            Ok(idx) => {
                let idx = idx as usize;
                if idx < l.items.len() {
                    Ok(idx)
                } else {
                    Err(ClimbError::NotFound)
                }
            },
            Err(e) => Err(ClimbError::DeserError(e)),
        }
    }
}


impl Climber {
    /// Check whether the tokens call one of the struct's methods, run it
    /// on a read-only receiver, and climb the returned value with the
    /// remaining tokens.  A method that needs write access reports
    /// `NeedMutPath` instead.
    pub fn check_functions_immut(
        &mut self,
        g: &Graph,
        s: &StructValue,
        recv: &Value,
        depth: usize,
    ) -> (r: Result<Option<NodeTree>, ClimbError>)
        requires
            old(self).wf(*g),
        ensures
            Self::climb_frame(*old(self), *final(self), *g),
            r matches Ok(Some(n)) ==> crate::node_tree::pending_free(n),
            r matches Err(e) ==> climb_error_kind(e),
            s.functions@.len() == 0 ==> (r == Ok::<Option<NodeTree>, ClimbError>(None)
                && *final(self) == *old(self)),
        decreases self.rem(), depth, 2int,
    {
        self.check_functions(g, s, recv, None, depth)
    }

    /// Check whether the tokens call one of the struct's methods, allow
    /// mutating methods, and climb the returned value with the remaining
    /// tokens.  A mutating call records the mutation at the receiver's
    /// location.
    pub fn check_functions_mut(
        &mut self,
        g: &Graph,
        s: &StructValue,
        recv: &Value,
        loc: &Location,
        depth: usize,
    ) -> (r: Result<Option<NodeTree>, ClimbError>)
        requires
            old(self).wf(*g),
        ensures
            Self::climb_frame(*old(self), *final(self), *g),
            r matches Ok(Some(n)) ==> crate::node_tree::pending_free(n),
            r matches Err(e) ==> climb_error_kind(e),
            s.functions@.len() == 0 ==> (r == Ok::<Option<NodeTree>, ClimbError>(None)
                && *final(self) == *old(self)),
        decreases self.rem(), depth, 2int,
    {
        self.check_functions(g, s, recv, Some(loc), depth)
    }

    /// The shared method-call check: `loc` present means write access is
    /// available.
    #[verifier::loop_isolation(false)]
    fn check_functions(
        &mut self,
        g: &Graph,
        s: &StructValue,
        recv: &Value,
        loc: Option<&Location>,
        depth: usize,
    ) -> (r: Result<Option<NodeTree>, ClimbError>)
        requires
            old(self).wf(*g),
        ensures
            Self::climb_frame(*old(self), *final(self), *g),
            r matches Ok(Some(n)) ==> crate::node_tree::pending_free(n),
            r matches Err(e) ==> climb_error_kind(e),
            s.functions@.len() == 0 ==> (r == Ok::<Option<NodeTree>, ClimbError>(None)
                && *final(self) == *old(self)),
        decreases self.rem(), depth, 1int,
    {
        let ghost entry = *self;
        if s.functions.len() == 0 {
            return Ok(None);
        }
        let mut prefix: String = String::new();
        let mut have_name = false;
        if !self.tokenvec.is_empty() {
            let is_dot = match self.tokenvec.top_kind() {
                TokenKind::FieldAccess => true,
                _ => false,
            };
            if is_dot {
                self.tokenvec.step();
                if !self.tokenvec.is_empty() {
                    match self.tokenvec.top_kind() {
                        TokenKind::Ident => {
                            prefix = self.tokenvec.top().text.clone();
                            have_name = true;
                        },
                        _ => {
                            return Err(ClimbError::UnexpectedToken);
                        },
                    }
                }
            } else {
                return Ok(None);
            }
        } else {
            self.suggest_token(TokenKind::FieldAccess, ".");
        }
        let mut fi: usize = 0;
        while fi < s.functions.len()
            invariant
                fi <= s.functions@.len(),
                Self::climb_frame(entry, *self, *g),
                self.rem() <= entry.rem(),
                have_name ==> self.tokenvec.spec_pos() < self.tokenvec.toks().len(),
                have_name ==> self.tokenvec.spec_pos() >= entry.tokenvec.spec_pos() + 1,
            decreases s.functions@.len() - fi,
        {
            let f = &s.functions[fi];
            if have_name && str_eq(f.name.as_str(), prefix.as_str()) {
                self.tokenvec.advance(1);
                if self.tokenvec.is_empty() {
                    self.suggest_token(TokenKind::TupleOpen, "(");
                    return Ok(None);
                }
                let is_open = match self.tokenvec.top_kind() {
                    TokenKind::TupleOpen => true,
                    _ => false,
                };
                if !is_open {
                    return Err(ClimbError::UnexpectedToken);
                }
                self.tokenvec.advance(1);
                match &f.kind {
                    MethodKind::CheckEqual(p1, p2) => {
                        match self.expect_close_paren() {
                            Err(e) => {
                                return Err(e);
                            },
                            Ok(_) => {},
                        }
                        let a = crate::access::value_at_path(recv, p1, 0);
                        let b = crate::access::value_at_path(recv, p2, 0);
                        match (a, b) {
                            (Some(av), Some(bv)) => {
                                if !av.prim() {
                                    return Err(ClimbError::NotFound);
                                }
                                let result = Value::Bool(crate::access::prim_eq(av, bv));
                                proof {
                                    assert(self.tokenvec.spec_pos()
                                        > entry.tokenvec.spec_pos());
                                }
                                match self.general_access_immut(g, &result, depth) {
                                    Ok(n) => {
                                        return Ok(Some(n));
                                    },
                                    Err(e) => {
                                        return Err(e);
                                    },
                                }
                            },
                            _ => {
                                return Err(ClimbError::NotFound);
                            },
                        }
                    },
                    MethodKind::AddToField(path) => {
                        match loc {
                            None => {
                                return Err(ClimbError::NeedMutPath);
                            },
                            Some(recv_loc) => {
                                let arg = match self.parse_unsigned_arg() {
                                    Ok(a) => a,
                                    Err(e) => {
                                        return Err(e);
                                    },
                                };
                                match self.expect_close_paren() {
                                    Err(e) => {
                                        return Err(e);
                                    },
                                    Ok(_) => {},
                                }
                                let target = extend_loc(recv_loc, path);
                                self.mutation = Some(
                                    Mutation { loc: target, op: MutOp::Bump(arg) },
                                );
                                let unit = Value::TupleV(
                                    crate::access::TupleValue {
                                        name: String::new(),
                                        items: Vec::new(),
                                    },
                                );
                                proof {
                                    assert(self.tokenvec.spec_pos()
                                        > entry.tokenvec.spec_pos());
                                }
                                match self.general_access_immut(g, &unit, depth) {
                                    Ok(n) => {
                                        return Ok(Some(n));
                                    },
                                    Err(e) => {
                                        return Err(e);
                                    },
                                }
                            },
                        }
                    },
                }
            }
            if str_prefix(prefix.as_str(), f.name.as_str()) {
                self.suggest_token(TokenKind::Ident, f.name.as_str());
                self.suggest_token(TokenKind::TupleOpen, "(");
                self.expect.retract_one();
                self.expect.retract_one();
            }
            fi = fi + 1;
        }
        // An exact name followed by a call's opening paren names no
        // function at all: that is a hard error, not a suggestion.
        if have_name && self.tokenvec.remaining() >= 2 {
            let here = self.tokenvec.pos();
            let total = self.tokenvec.len();
            proof {
                assert(here + 1 < total);
            }
            let next_is_open = match self.tokenvec.kind_at(here + 1) {
                TokenKind::TupleOpen => true,
                _ => false,
            };
            if next_is_open {
                return Err(ClimbError::CallError(CallError::NoSuchFunction));
            }
        }
        Ok(None)
    }

    /// Require a `)` at the cursor.
    fn expect_close_paren(&mut self) -> (r: Result<(), ClimbError>)
        requires
            old(self).tokenvec.wf(),
            old(self).expect.wf(),
        ensures
            final(self).tokenvec.wf(),
            final(self).expect.wf(),
            final(self).tokenvec.toks() == old(self).tokenvec.toks(),
            final(self).tokenvec.spec_pos() >= old(self).tokenvec.spec_pos(),
            final(self).reflector == old(self).reflector,
            final(self).spec_mutation() == old(self).spec_mutation(),
            final(self).probe_only == old(self).probe_only,
            final(self).valid_pos == old(self).valid_pos,
            r matches Err(e) ==> climb_error_kind(e),
    {
        if self.tokenvec.is_empty() {
            self.suggest_token(TokenKind::TupleClose, ")");
            return Err(ClimbError::CallError(CallError::Deser(DeserError::EndOfTokenList)));
        }
        let is_close = match self.tokenvec.top_kind() {
            TokenKind::TupleClose => true,
            _ => false,
        };
        if is_close {
            self.tokenvec.advance(1);
            Ok(())
        } else {
            Err(ClimbError::CallError(CallError::Deser(DeserError::UnexpectedToken)))
        }
    }

    /// Read one unsigned call argument.
    fn parse_unsigned_arg(&mut self) -> (r: Result<u64, ClimbError>)
        requires
            old(self).tokenvec.wf(),
            old(self).expect.wf(),
        ensures
            final(self).tokenvec.wf(),
            final(self).expect.wf(),
            final(self).tokenvec.toks() == old(self).tokenvec.toks(),
            final(self).tokenvec.spec_pos() >= old(self).tokenvec.spec_pos(),
            final(self).reflector == old(self).reflector,
            final(self).spec_mutation() == old(self).spec_mutation(),
            final(self).probe_only == old(self).probe_only,
            final(self).valid_pos == old(self).valid_pos,
            r matches Err(e) ==> climb_error_kind(e),
    {
        let mut expect_tmp: ExpectTree<Token> = ExpectTree::new();
        core::mem::swap(&mut self.expect, &mut expect_tmp);
        let mut tv_tmp: TokenVec = TokenVec::new_empty();
        core::mem::swap(&mut self.tokenvec, &mut tv_tmp);
        let mut tracker = Tracker::new(expect_tmp, tv_tmp);
        let res = crate::deser::deser_unsigned(&mut tracker, 0xffff_ffff_ffff_ffffu64);
        let (e, t) = tracker.dismantle();
        self.expect = e;
        self.tokenvec = t;
        match res {
            Ok(v) => Ok(v),
            Err(e) => Err(ClimbError::CallError(CallError::Deser(e))),
        }
    }

    /// Match the tokens against the value's fields: a `.` followed by a
    /// field name or tuple position descends into the child; names the
    /// typed prefix could still become are recorded as suggestions.
    #[verifier::loop_isolation(false)]
    pub fn check_field_access_immut(&mut self, g: &Graph, v: &Value, depth: usize) -> (r: Result<
        Option<NodeTree>,
        ClimbError,
    >)
        requires
            old(self).wf(*g),
        ensures
            Self::climb_frame(*old(self), *final(self), *g),
            r matches Ok(Some(n)) ==> crate::node_tree::pending_free(n),
            r matches Err(e) ==> climb_error_kind(e),
            ({
                let p = old(self).tokenvec.spec_pos() as int;
                let toks = old(self).tokenvec.toks();
                let name = toks[p + 1]@.text;
                (*v is StructV && (v->StructV_0).field_names@.len() <= (
                v->StructV_0).fields@.len() && old(self).rem() == 2 && toks[p]@.kind
                    is FieldAccess && toks[p + 1]@.kind is Ident && (exists|j: int|
                    0 <= j < (v->StructV_0).field_names@.len()
                        && ((#[trigger] (v->StructV_0).field_names@[j]))@ == name) && (forall|j: int|
                    0 <= j < (v->StructV_0).field_names@.len()
                        && ((#[trigger] (v->StructV_0).field_names@[j]))@ == name
                        ==> crate::access::is_prim((v->StructV_0).fields@[j]))) ==> (r
                    matches Ok(Some(n)) && (exists|j: int|
                    0 <= j < (v->StructV_0).field_names@.len()
                        && ((#[trigger] (v->StructV_0).field_names@[j]))@ == name
                        && crate::node_tree::spec_format(n, Seq::empty())
                        == crate::access::leaf_text((v->StructV_0).fields@[j])))
            }),
            ({
                let p = old(self).tokenvec.spec_pos() as int;
                let toks = old(self).tokenvec.toks();
                let name = toks[p + 1]@.text;
                (*v is StructV && (v->StructV_0).field_names@.len() <= (
                v->StructV_0).fields@.len() && old(self).rem() >= 3 && toks[p]@.kind
                    is FieldAccess && toks[p + 1]@.kind is Ident && toks[p + 2]@.kind
                    is Assign && (exists|j: int|
                    0 <= j < (v->StructV_0).field_names@.len()
                        && ((#[trigger] (v->StructV_0).field_names@[j]))@ == name) && (forall|j: int|
                    0 <= j < (v->StructV_0).field_names@.len()
                        && ((#[trigger] (v->StructV_0).field_names@[j]))@ == name
                        ==> crate::access::is_prim((v->StructV_0).fields@[j]))) ==> r == Err::<
                    Option<NodeTree>,
                    ClimbError,
                >(ClimbError::NeedMutPath)
            }),
            ({
                let p = old(self).tokenvec.spec_pos() as int;
                let toks = old(self).tokenvec.toks();
                let name = toks[p + 1]@.text;
                (*v is StructV && old(self).rem() >= 2 && toks[p]@.kind is FieldAccess && toks[
                    p + 1
                ]@.kind is Ident && (forall|j: int|
                    0 <= j < (v->StructV_0).field_names@.len()
                        ==> ((#[trigger] (v->StructV_0).field_names@[j]))@ != name)) ==> (r
                    == Ok::<Option<NodeTree>, ClimbError>(None)
                    && final(self).tokenvec.spec_pos() == old(self).tokenvec.spec_pos() + 1
                    && final(self).valid_pos == old(self).tokenvec.spec_pos() + 1)
            }),
            ({
                let p = old(self).tokenvec.spec_pos() as int;
                let toks = old(self).tokenvec.toks();
                let pfx = match toks[p + 1]@.kind {
                    crate::tokens::TokenKindView::NonNegativeDecimal(nnd) => crate::access::spec_udec(
                        nnd as nat,
                    ),
                    _ => toks[p + 1]@.text,
                };
                (r is Ok && r->Ok_0 is None && *v is TupleV && old(self).rem() >= 2 && toks[
                    p
                ]@.kind is FieldAccess && (toks[p + 1]@.kind is Ident || toks[p + 1]@.kind
                    is NonNegativeDecimal)) ==> (forall|i: int|
                    0 <= i < (v->TupleV_0).items@.len() && pfx.is_prefix_of(
                        #[trigger] crate::access::spec_udec(i as nat),
                    ) ==> suggested_at(
                        final(self).expect.forest(),
                        old(self).expect.spec_path(),
                        crate::access::spec_udec(i as nat),
                    ))
            }),
            ({
                let p = old(self).tokenvec.spec_pos() as int;
                let toks = old(self).tokenvec.toks();
                (r is Ok && r->Ok_0 is None && *v is StructV && old(self).rem() >= 2
                    && toks[p]@.kind is FieldAccess && toks[p + 1]@.kind is Ident) ==> (
                forall|i: int|
                    0 <= i < (v->StructV_0).field_names@.len() && i < (
                    v->StructV_0).fields@.len() && toks[p + 1]@.text.is_prefix_of(
                        ((#[trigger] (v->StructV_0).field_names@[i]))@,
                    ) ==> suggested_at(
                        final(self).expect.forest(),
                        old(self).expect.spec_path(),
                        (v->StructV_0).field_names@[i]@,
                    ))
            }),
        decreases self.rem(), depth, 2int,
    {
        let ghost entry = *self;
        let mut prefix: String = String::new();
        let mut have_name = false;
        if !self.tokenvec.is_empty() {
            let is_dot = match self.tokenvec.top_kind() {
                TokenKind::FieldAccess => true,
                _ => false,
            };
            if is_dot {
                self.tokenvec.advance(1);
                self.valid_pos = self.tokenvec.pos();
            } else {
                self.suggest_token(TokenKind::FieldAccess, ".");
                return Ok(None);
            }
            if self.tokenvec.remaining() >= 1 {
                match self.tokenvec.top_kind() {
                    TokenKind::Ident => {
                        prefix = self.tokenvec.top().text.clone();
                        have_name = true;
                    },
                    TokenKind::NonNegativeDecimal(nnd) => {
                        let nnd = *nnd;
                        prefix = crate::access::u64_to_string(nnd);
                        have_name = true;
                    },
                    _ => {
                        return Err(ClimbError::UnexpectedToken);
                    },
                }
            }
        } else {
            self.suggest_token(TokenKind::FieldAccess, ".");
        }
        match v {
            Value::StructV(s) => {
                let n = if s.fields.len() < s.field_names.len() {
                    s.fields.len()
                } else {
                    s.field_names.len()
                };
                let ghost gprefix = prefix@;
                let mut i: usize = 0;
                while i < n
                    invariant
                        i <= n,
                        n <= s.fields@.len(),
                        n <= s.field_names@.len(),
                        Self::climb_frame(entry, *self, *g),
                        self.rem() <= entry.rem(),
                        have_name ==> self.tokenvec.spec_pos() < self.tokenvec.toks().len(),
                        have_name ==> self.tokenvec.spec_pos() == entry.tokenvec.spec_pos()
                            + 1,
                        gprefix == prefix@,
                        have_name ==> self.valid_pos == entry.tokenvec.spec_pos() + 1,
                        have_name ==> self.expect.spec_path() == entry.expect.spec_path(),
                        have_name ==> forall|j: int|
                            0 <= j < i ==> ((#[trigger] s.field_names@[j]))@ != gprefix,
                        forall|j: int|
                            0 <= j < i && have_name && gprefix.is_prefix_of(
                                ((#[trigger] s.field_names@[j]))@,
                            ) ==> suggested_at(
                                self.expect.forest(),
                                entry.expect.spec_path(),
                                s.field_names@[j]@,
                            ),
                    decreases n - i,
                {
                    if have_name && str_eq(s.field_names[i].as_str(), prefix.as_str()) {
                        self.tokenvec.advance(1);
                        match self.general_access_immut(g, &s.fields[i], depth) {
                            Ok(node) => {
                                return Ok(Some(node));
                            },
                            Err(e) => {
                                return Err(e);
                            },
                        }
                    }
                    if str_prefix(prefix.as_str(), s.field_names[i].as_str()) {
                        let ghost pre_forest = self.expect.forest();
                        let ghost pre_path = self.expect.spec_path();
                        self.suggest_token(TokenKind::Ident, s.field_names[i].as_str());
                        self.expect.retract_one();
                        proof {
                            assert(self.expect.spec_path() =~= pre_path);
                            let tv = crate::tokens::TokenView {
                                kind: crate::tokens::TokenKindView::Ident,
                                text: s.field_names@[i as int]@,
                                space_diff: 0 as nat,
                            };
                            let fa = crate::expect::forest_at(pre_forest, pre_path);
                            let k0 = crate::expect::find_item(fa, tv);
                            crate::expect::lemma_find_item(fa, tv);
                            if k0 < fa.len() {
                                assert(suggested_at(
                                    self.expect.forest(),
                                    pre_path,
                                    s.field_names@[i as int]@,
                                )) by {
                                    assert(crate::expect::forest_at(
                                        self.expect.forest(),
                                        pre_path,
                                    )[k0].item == tv);
                                }
                            } else {
                                crate::expect::lemma_appended_at_wf(
                                    pre_forest,
                                    self.expect.forest(),
                                    pre_path,
                                    tv,
                                );
                                let fa2 = crate::expect::forest_at(
                                    self.expect.forest(),
                                    pre_path,
                                );
                                assert(suggested_at(
                                    self.expect.forest(),
                                    pre_path,
                                    s.field_names@[i as int]@,
                                )) by {
                                    assert(fa2[fa2.len() - 1].item == tv);
                                }
                            }
                            if have_name {
                                assert forall|j: int|
                                    0 <= j < i && gprefix.is_prefix_of(
                                        ((s.field_names@[j]))@,
                                    ) implies suggested_at(
                                    self.expect.forest(),
                                    pre_path,
                                    s.field_names@[j]@,
                                ) by {
                                    let fa2 = crate::expect::forest_at(
                                        self.expect.forest(),
                                        pre_path,
                                    );
                                    assert(suggested_at(pre_forest, pre_path, s.field_names@[j]@));
                                    if k0 < fa.len() {
                                    } else {
                                        let kw = choose|kw: int|
                                            0 <= kw < fa.len() && (#[trigger] fa[kw]).item.kind
                                                is Ident && fa[kw].item.text
                                                == s.field_names@[j]@;
                                        assert(fa2[kw] == fa[kw]);
                                        assert(fa2[kw].item.kind is Ident && fa2[kw].item.text
                                            == s.field_names@[j]@);
                                    }
                                }
                            }
                        }
                    }
                    i = i + 1;
                }
                Ok(None)
            },
            Value::TupleV(t) => {
                let ghost gprefix = prefix@;
                let mut j: usize = 0;
                while j < t.items.len()
                    invariant
                        j <= t.items@.len(),
                        Self::climb_frame(entry, *self, *g),
                        self.rem() <= entry.rem(),
                        have_name ==> self.tokenvec.spec_pos() < self.tokenvec.toks().len(),
                        have_name ==> self.tokenvec.spec_pos() == entry.tokenvec.spec_pos()
                            + 1,
                        gprefix == prefix@,
                        have_name ==> self.expect.spec_path() == entry.expect.spec_path(),
                        forall|k: int|
                            0 <= k < j && have_name && gprefix.is_prefix_of(
                                #[trigger] crate::access::spec_udec(k as nat),
                            ) ==> suggested_at(
                                self.expect.forest(),
                                entry.expect.spec_path(),
                                crate::access::spec_udec(k as nat),
                            ),
                    decreases t.items@.len() - j,
                {
                    let name = crate::access::u64_to_string(j as u64);
                    if have_name && str_eq(name.as_str(), prefix.as_str()) {
                        self.tokenvec.advance(1);
                        match self.general_access_immut(g, &t.items[j], depth) {
                            Ok(node) => {
                                return Ok(Some(node));
                            },
                            Err(e) => {
                                return Err(e);
                            },
                        }
                    }
                    if str_prefix(prefix.as_str(), name.as_str()) {
                        let ghost pre_forest = self.expect.forest();
                        let ghost pre_path = self.expect.spec_path();
                        self.suggest_token(TokenKind::Ident, name.as_str());
                        self.expect.retract_one();
                        proof {
                            assert(self.expect.spec_path() =~= pre_path);
                            let tv = crate::tokens::TokenView {
                                kind: crate::tokens::TokenKindView::Ident,
                                text: crate::access::spec_udec(j as nat),
                                space_diff: 0 as nat,
                            };
                            let fa = crate::expect::forest_at(pre_forest, pre_path);
                            let k0 = crate::expect::find_item(fa, tv);
                            crate::expect::lemma_find_item(fa, tv);
                            if k0 < fa.len() {
                                assert(suggested_at(
                                    self.expect.forest(),
                                    pre_path,
                                    crate::access::spec_udec(j as nat),
                                )) by {
                                    assert(crate::expect::forest_at(
                                        self.expect.forest(),
                                        pre_path,
                                    )[k0].item == tv);
                                }
                            } else {
                                crate::expect::lemma_appended_at_wf(
                                    pre_forest,
                                    self.expect.forest(),
                                    pre_path,
                                    tv,
                                );
                                let fa2 = crate::expect::forest_at(
                                    self.expect.forest(),
                                    pre_path,
                                );
                                assert(suggested_at(
                                    self.expect.forest(),
                                    pre_path,
                                    crate::access::spec_udec(j as nat),
                                )) by {
                                    assert(fa2[fa2.len() - 1].item == tv);
                                }
                            }
                            if have_name {
                                assert forall|k: int|
                                    0 <= k < j && gprefix.is_prefix_of(
                                        #[trigger] crate::access::spec_udec(k as nat),
                                    ) implies suggested_at(
                                    self.expect.forest(),
                                    pre_path,
                                    crate::access::spec_udec(k as nat),
                                ) by {
                                    let fa2 = crate::expect::forest_at(
                                        self.expect.forest(),
                                        pre_path,
                                    );
                                    assert(suggested_at(
                                        pre_forest,
                                        pre_path,
                                        crate::access::spec_udec(k as nat),
                                    ));
                                    if k0 < fa.len() {
                                    } else {
                                        let kw = choose|kw: int|
                                            0 <= kw < fa.len() && (#[trigger] fa[kw]).item.kind
                                                is Ident && fa[kw].item.text
                                                == crate::access::spec_udec(k as nat);
                                        assert(fa2[kw] == fa[kw]);
                                        assert(fa2[kw].item.kind is Ident && fa2[kw].item.text
                                            == crate::access::spec_udec(k as nat));
                                    }
                                }
                            }
                        }
                    }
                    j = j + 1;
                }
                Ok(None)
            },
            Value::EnumV(e) => {
                match variant_name(&e.variant) {
                    None => Ok(None),
                    Some(vname) => {
                        let vname = vname.clone();
                        if have_name && str_eq(vname.as_str(), prefix.as_str()) {
                            self.tokenvec.advance(1);
                            match self.check_field_access_immut(g, &e.variant, depth) {
                                Ok(Some(sub)) => Ok(Some(sub)),
                                Ok(None) => {
                                    let node = self.reflector.reflect(g, &e.variant);
                                    Ok(Some(node))
                                },
                                Err(er) => Err(er),
                            }
                        } else {
                            if str_prefix(prefix.as_str(), vname.as_str()) {
                                self.suggest_token(TokenKind::Ident, vname.as_str());
                                self.expect.retract_one();
                            }
                            Ok(None)
                        }
                    },
                }
            },
            _ => Ok(None),
        }
    }

    /// The mutable twin of the field check: the descent carries the
    /// location so that a mutation deeper down lands in the right place.
    #[verifier::loop_isolation(false)]
    pub fn check_field_access_mut(
        &mut self,
        g: &Graph,
        v: &Value,
        loc: &Location,
        depth: usize,
    ) -> (r: Result<Option<NodeTree>, ClimbError>)
        requires
            old(self).wf(*g),
        ensures
            Self::climb_frame(*old(self), *final(self), *g),
            r matches Ok(Some(n)) ==> crate::node_tree::pending_free(n),
            r matches Err(e) ==> climb_error_kind(e),
            ({
                let p = old(self).tokenvec.spec_pos() as int;
                let toks = old(self).tokenvec.toks();
                let name = toks[p + 1]@.text;
                (*v is StructV && (v->StructV_0).field_names@.len() <= (
                v->StructV_0).fields@.len() && old(self).rem() >= 3 && toks[p]@.kind
                    is FieldAccess && toks[p + 1]@.kind is Ident && toks[p + 2]@.kind
                    is Assign && (exists|j: int|
                    0 <= j < (v->StructV_0).field_names@.len()
                        && ((#[trigger] (v->StructV_0).field_names@[j]))@ == name) && (forall|j: int|
                    0 <= j < (v->StructV_0).field_names@.len()
                        && ((#[trigger] (v->StructV_0).field_names@[j]))@ == name
                        ==> crate::access::is_prim((v->StructV_0).fields@[j])) && (forall|
                    j: int,
                    k: int,
                |
                    0 <= j < (v->StructV_0).field_names@.len() && 0 <= k < (
                    v->StructV_0).field_names@.len() && ((
                    #[trigger] (v->StructV_0).field_names@[j]))@ == name && ((
                    #[trigger] (v->StructV_0).field_names@[k]))@ == name ==> j == k)) ==> (
                exists|j: int|
                    0 <= j < (v->StructV_0).field_names@.len() && ((
                    #[trigger] (v->StructV_0).field_names@[j]))@ == name && ({
                        let outcome = crate::access::spec_assign_outcome_at(
                            (v->StructV_0).fields@[j],
                            toks,
                            p + 3,
                        );
                        &&& ((r matches Ok(o) && o is Some) <==> outcome is None)
                        &&& (r matches Ok(o) ==> (o matches Some(n) && (n.info
                            matches crate::node_tree::NodeInfo::Leaf(s) && s@.len() == 0) && (
                        final(self).mutation matches Some(mu) && mu.loc.base == loc.base
                            && mu.loc.steps@ == loc.steps@.push(j as usize)
                            && (crate::access::spec_assign_result_at(
                            (v->StructV_0).fields@[j],
                            toks,
                            p + 3,
                        ) matches Ok(w) ==> mu.op == MutOp::Write(w)))))
                    }))
            }),
        decreases self.rem(), depth, 2int,
    {
        let ghost entry = *self;
        let mut prefix: String = String::new();
        let mut have_name = false;
        if !self.tokenvec.is_empty() {
            let is_dot = match self.tokenvec.top_kind() {
                TokenKind::FieldAccess => true,
                _ => false,
            };
            if is_dot {
                self.tokenvec.advance(1);
                self.valid_pos = self.tokenvec.pos();
            } else {
                self.suggest_token(TokenKind::FieldAccess, ".");
                return Ok(None);
            }
            if self.tokenvec.remaining() >= 1 {
                match self.tokenvec.top_kind() {
                    TokenKind::Ident => {
                        prefix = self.tokenvec.top().text.clone();
                        have_name = true;
                    },
                    TokenKind::NonNegativeDecimal(nnd) => {
                        let nnd = *nnd;
                        prefix = crate::access::u64_to_string(nnd);
                        have_name = true;
                    },
                    _ => {
                        return Err(ClimbError::UnexpectedToken);
                    },
                }
            }
        } else {
            self.suggest_token(TokenKind::FieldAccess, ".");
        }
        match v {
            Value::StructV(s) => {
                let n = if s.fields.len() < s.field_names.len() {
                    s.fields.len()
                } else {
                    s.field_names.len()
                };
                let ghost gprefix = prefix@;
                let mut i: usize = 0;
                while i < n
                    invariant
                        i <= n,
                        n <= s.fields@.len(),
                        n <= s.field_names@.len(),
                        Self::climb_frame(entry, *self, *g),
                        self.rem() <= entry.rem(),
                        have_name ==> self.tokenvec.spec_pos() < self.tokenvec.toks().len(),
                        have_name ==> self.tokenvec.spec_pos() == entry.tokenvec.spec_pos()
                            + 1,
                        gprefix == prefix@,
                        have_name ==> forall|j: int|
                            0 <= j < i ==> ((#[trigger] s.field_names@[j]))@ != gprefix,
                    decreases n - i,
                {
                    if have_name && str_eq(s.field_names[i].as_str(), prefix.as_str()) {
                        self.tokenvec.advance(1);
                        let child_loc = loc_child(loc, i);
                        match self.general_access_mut(g, child_loc, &s.fields[i], depth) {
                            Ok(node) => {
                                return Ok(Some(node));
                            },
                            Err(e) => {
                                return Err(e);
                            },
                        }
                    }
                    if str_prefix(prefix.as_str(), s.field_names[i].as_str()) {
                        self.suggest_token(TokenKind::Ident, s.field_names[i].as_str());
                        self.expect.retract_one();
                    }
                    i = i + 1;
                }
                Ok(None)
            },
            Value::TupleV(t) => {
                let mut j: usize = 0;
                while j < t.items.len()
                    invariant
                        j <= t.items@.len(),
                        Self::climb_frame(entry, *self, *g),
                        self.rem() <= entry.rem(),
                        have_name ==> self.tokenvec.spec_pos() < self.tokenvec.toks().len(),
                        have_name ==> self.tokenvec.spec_pos() == entry.tokenvec.spec_pos()
                            + 1,
                    decreases t.items@.len() - j,
                {
                    let name = crate::access::u64_to_string(j as u64);
                    if have_name && str_eq(name.as_str(), prefix.as_str()) {
                        self.tokenvec.advance(1);
                        let child_loc = loc_child(loc, j);
                        match self.general_access_mut(g, child_loc, &t.items[j], depth) {
                            Ok(node) => {
                                return Ok(Some(node));
                            },
                            Err(e) => {
                                return Err(e);
                            },
                        }
                    }
                    if str_prefix(prefix.as_str(), name.as_str()) {
                        self.suggest_token(TokenKind::Ident, name.as_str());
                        self.expect.retract_one();
                    }
                    j = j + 1;
                }
                Ok(None)
            },
            Value::EnumV(e) => {
                match variant_name(&e.variant) {
                    None => Ok(None),
                    Some(vname) => {
                        let vname = vname.clone();
                        if have_name && str_eq(vname.as_str(), prefix.as_str()) {
                            self.tokenvec.advance(1);
                            let child_loc = loc_child(loc, 0);
                            match self.check_field_access_mut(g, &e.variant, &child_loc, depth) {
                                Ok(Some(sub)) => Ok(Some(sub)),
                                Ok(None) => {
                                    let node = self.reflector.reflect(g, &e.variant);
                                    Ok(Some(node))
                                },
                                Err(er) => Err(er),
                            }
                        } else {
                            if str_prefix(prefix.as_str(), vname.as_str()) {
                                self.suggest_token(TokenKind::Ident, vname.as_str());
                                self.expect.retract_one();
                            }
                            Ok(None)
                        }
                    },
                }
            },
            _ => Ok(None),
        }
    }

    /// Climb through a lock-like wrapper with read intent.  The lock is
    /// never waited on: a mutex held elsewhere fails with `Locked`, a cell
    /// borrowed mutably with `Borrowed`.  When the inner climb signals
    /// `NeedMutPath`, the cursor is restored and the inner value is
    /// retried with write intent, which needs the wrapper free.
    pub fn lock_handling_immut(
        &mut self,
        g: &Graph,
        l: &crate::access::LockValue,
        depth: usize,
    ) -> (r: Result<NodeTree, ClimbError>)
        requires
            old(self).wf(*g),
        ensures
            Self::climb_frame(*old(self), *final(self), *g),
            (l.kind is Mutex && !(l.state is Free)) ==> r == Err::<
                NodeTree,
                ClimbError,
            >(ClimbError::Locked),
            (l.kind is Cell && l.state is Exclusive) ==> r == Err::<
                NodeTree,
                ClimbError,
            >(ClimbError::Borrowed),
            r matches Ok(n) ==> crate::node_tree::pending_free(n),
            r matches Err(e) ==> climb_error_kind(e),
            (l.state is Free && depth > 0 && old(self).rem() == 0 && crate::access::is_prim(
                *l.inner,
            )) ==> (r matches Ok(n) && crate::access::is_leaf_of(n, *l.inner)),
            (l.kind is Cell && l.state is Shared && depth > 0 && crate::access::is_prim(
                *l.inner,
            ) && old(self).rem() > 0 && old(self).tokenvec.toks()[old(
                self,
            ).tokenvec.spec_pos() as int]@.kind is Assign) ==> r == Err::<
                NodeTree,
                ClimbError,
            >(ClimbError::BorrowedMut),

        decreases self.rem(), depth, 2int,
    {
        self.lock_handling(g, None, l, depth)
    }

    /// Climb through a lock-like wrapper with write intent available for
    /// the retry.
    pub fn lock_handling_mut(
        &mut self,
        g: &Graph,
        loc: &Location,
        l: &crate::access::LockValue,
        depth: usize,
    ) -> (r: Result<NodeTree, ClimbError>)
        requires
            old(self).wf(*g),
        ensures
            Self::climb_frame(*old(self), *final(self), *g),
            (l.kind is Mutex && !(l.state is Free)) ==> r == Err::<
                NodeTree,
                ClimbError,
            >(ClimbError::Locked),
            (l.kind is Cell && l.state is Exclusive) ==> r == Err::<
                NodeTree,
                ClimbError,
            >(ClimbError::Borrowed),
            r matches Ok(n) ==> crate::node_tree::pending_free(n),
            r matches Err(e) ==> climb_error_kind(e),
            (l.state is Free && depth > 0 && old(self).rem() == 0 && crate::access::is_prim(
                *l.inner,
            )) ==> (r matches Ok(n) && crate::access::is_leaf_of(n, *l.inner)),
            (l.kind is Cell && l.state is Shared && depth > 0 && crate::access::is_prim(
                *l.inner,
            ) && old(self).rem() > 0 && old(self).tokenvec.toks()[old(
                self,
            ).tokenvec.spec_pos() as int]@.kind is Assign) ==> r == Err::<
                NodeTree,
                ClimbError,
            >(ClimbError::BorrowedMut),

            (l.state is Free && depth > 0 && *l.inner is U64 && old(self).rem() > 0 && old(
                self,
            ).tokenvec.toks()[old(self).tokenvec.spec_pos() as int]@.kind is Assign) ==> ({
                let parsed = crate::deser::spec_deser_unsigned_at(
                    old(self).tokenvec.toks(),
                    old(self).tokenvec.spec_pos() as int + 1,
                    0xffff_ffff_ffff_ffff,
                );
                &&& (r is Ok <==> parsed is Ok)
                &&& (r matches Ok(n) ==> ({
                    &&& n.info matches crate::node_tree::NodeInfo::Leaf(s) && s@.len() == 0
                    &&& final(self).mutation matches Some(mu) && mu.loc.base == loc.base
                        && mu.loc.steps@ == loc.steps@.push(0) && (parsed matches Ok(nv)
                        ==> mu.op == MutOp::Write(Value::U64(nv)))
                }))
            }),
        decreases self.rem(), depth, 2int,
    {
        self.lock_handling(g, Some(loc), l, depth)
    }

    /// The shared lock logic.  Mutations through a lock land below the
    /// surrounding location when one is available; an immutable outer
    /// climb can still promote through the lock, since the lock itself
    /// guarantees exclusive access.
    fn lock_handling(
        &mut self,
        g: &Graph,
        loc: Option<&Location>,
        l: &crate::access::LockValue,
        depth: usize,
    ) -> (r: Result<NodeTree, ClimbError>)
        requires
            old(self).wf(*g),
        ensures
            Self::climb_frame(*old(self), *final(self), *g),
            (l.kind is Mutex && !(l.state is Free)) ==> r == Err::<
                NodeTree,
                ClimbError,
            >(ClimbError::Locked),
            (l.kind is Cell && l.state is Exclusive) ==> r == Err::<
                NodeTree,
                ClimbError,
            >(ClimbError::Borrowed),
            r matches Ok(n) ==> crate::node_tree::pending_free(n),
            r matches Err(e) ==> climb_error_kind(e),
            (l.state is Free && depth > 0 && old(self).rem() == 0 && crate::access::is_prim(
                *l.inner,
            )) ==> (r matches Ok(n) && crate::access::is_leaf_of(n, *l.inner)),
            (l.kind is Cell && l.state is Shared && depth > 0 && crate::access::is_prim(
                *l.inner,
            ) && old(self).rem() > 0 && old(self).tokenvec.toks()[old(
                self,
            ).tokenvec.spec_pos() as int]@.kind is Assign) ==> r == Err::<
                NodeTree,
                ClimbError,
            >(ClimbError::BorrowedMut),

            (loc is Some && l.state is Free && depth > 0 && *l.inner is U64 && old(
                self,
            ).rem() > 0 && old(self).tokenvec.toks()[old(
                self,
            ).tokenvec.spec_pos() as int]@.kind is Assign) ==> ({
                let parsed = crate::deser::spec_deser_unsigned_at(
                    old(self).tokenvec.toks(),
                    old(self).tokenvec.spec_pos() as int + 1,
                    0xffff_ffff_ffff_ffff,
                );
                &&& (r is Ok <==> parsed is Ok)
                &&& (r matches Ok(n) ==> ({
                    &&& n.info matches crate::node_tree::NodeInfo::Leaf(s) && s@.len() == 0
                    &&& final(self).mutation matches Some(mu) && mu.loc.base == loc->0.base
                        && mu.loc.steps@ == loc->0.steps@.push(0) && (parsed matches Ok(nv)
                        ==> mu.op == MutOp::Write(Value::U64(nv)))
                }))
            }),
        decreases self.rem(), depth, 1int,
    {
        if depth == 0 {
            match (&l.kind, &l.state) {
                (LockKind::Mutex, LockState::Free) => {},
                (LockKind::Mutex, _) => {
                    return Err(ClimbError::Locked);
                },
                (LockKind::Cell, LockState::Exclusive) => {
                    return Err(ClimbError::Borrowed);
                },
                _ => {},
            }
            return Err(ClimbError::Indirect);
        }
        match (&l.kind, &l.state) {
            (LockKind::Mutex, LockState::Free) => {},
            (LockKind::Mutex, _) => {
                return Err(ClimbError::Locked);
            },
            (LockKind::Cell, LockState::Exclusive) => {
                return Err(ClimbError::Borrowed);
            },
            _ => {},
        }
        let save_pos = self.tokenvec.pos();
        let save_valid = self.valid_pos;
        let retval = self.general_access_immut(g, &l.inner, depth - 1);
        match retval {
            Err(ClimbError::NeedMutPath) => {
                let needs_free = match &l.state {
                    LockState::Free => true,
                    _ => false,
                };
                if !needs_free {
                    return match &l.kind {
                        LockKind::Mutex => Err(ClimbError::Locked),
                        LockKind::Cell => Err(ClimbError::BorrowedMut),
                    };
                }
                self.tokenvec.take_pos(save_pos);
                self.valid_pos = save_valid;
                match loc {
                    Some(outer) => {
                        let child_loc = loc_child(outer, 0);
                        self.general_access_mut(g, child_loc, &l.inner, depth - 1)
                    },
                    None => {
                        return Err(ClimbError::NeedMutPath);
                    },
                }
            },
            other => other,
        }
    }

    /// Turn the climb's progress into token-based completion assistance:
    /// the validated prefix, every remaining token as pending, and the
    /// recorded alternative continuations, anchored where the last
    /// expectation was recorded.  The second result is the count of
    /// pending tokens already covered by the suggestions.
    pub fn convert_to_assist(self) -> (r: (crate::assist::Assist<Vec<Token>>, usize))
        ensures
            r.1 == 0,
            ({
                let total = self.tokenvec.toks().len() as int;
                let valid = if self.valid_pos <= total {
                    self.valid_pos as int
                } else {
                    total
                };
                &&& r.0.spec_valid() == valid
                &&& r.0.spec_pending() == total - valid
                &&& r.0.spec_pending_special() == 0
                &&& ({
                    let flats = crate::expect::flatten_forest_rev(
                        self.expect.forest(),
                    ).map_values(|v: Seq<crate::tokens::TokenView>| v.reverse());
                    if flats.len() == 0 {
                        r.0.spec_next_options() is NoOptions
                    } else {
                        match r.0.spec_next_options() {
                            crate::assist::NextOptions::Avail(at, v) => {
                                &&& at == if self.suggest_anchor >= valid {
                                    self.suggest_anchor - valid
                                } else {
                                    0
                                }
                                &&& v@.map_values(
                                    |t: Vec<Token>| t@.map_values(|tk: Token| tk@),
                                ) == flats
                            },
                            crate::assist::NextOptions::NoOptions => false,
                        }
                    }
                })
            }),
    {
        let Climber { tokenvec, expect, valid_pos, suggest_anchor, .. } = self;
        let total = tokenvec.len();
        let valid = if valid_pos <= total {
            valid_pos
        } else {
            total
        };
        let pending = total - valid;
        let flats = expect.into_flatten();
        let rel = if suggest_anchor >= valid {
            suggest_anchor - valid
        } else {
            0
        };
        let mut assist: crate::assist::Assist<Vec<Token>> =
            crate::assist::Assist::default();
        let assist = assist.with_valid(valid);
        let mut assist = assist;
        assist.pend(pending);
        if flats.len() > 0 {
            assist.set_next_options(crate::assist::NextOptions::Avail(rel, flats));
        }
        (assist, 0)
    }
}

} // verus!
