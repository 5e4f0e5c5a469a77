//! The typed literal parser.
//!
//! Deserialization runs against a `Tracker`, which couples the token cursor
//! with the expectation tree: a candidate token that cannot be consumed yet
//! is recorded as an expectation instead, so that unfinished input produces
//! completion hints rather than hard errors.

use vstd::prelude::*;

use crate::expect::ExpectTree;
use crate::tokens::{Token, TokenKind, TokenKindView, TokenVec, TokenView};

verus! {

/// Why a typed value could not be read from the token stream.
#[derive(Debug)]
pub enum DeserError {
    EndOfTokenList,
    NumberTooLarge,
    NumberTooSmall,
    UnexpectedToken,
    Unbuildable,
}

/// Couples the token cursor with the expectation tree while a typed value
/// is being read.
pub struct Tracker {
    pub expect: ExpectTree<Token>,
    pub tokenvec: TokenVec,
    pub steps: usize,
}

impl Tracker {
    /// How many tokens this tracker has consumed.
    pub open spec fn spec_steps(self) -> nat {
        self.steps as nat
    }

    /// The tracker's parts are internally consistent.
    pub open spec fn wf(self) -> bool {
        self.expect.wf() && self.tokenvec.wf()
    }

    /// Couple an expectation tree with a token cursor.
    pub fn new(expect: ExpectTree<Token>, tokenvec: TokenVec) -> (r: Tracker)
        ensures
            r.expect == expect,
            r.tokenvec == tokenvec,
            r.spec_steps() == 0,
            expect.wf() && tokenvec.wf() ==> r.wf(),
    {
        Tracker { expect, tokenvec, steps: 0 }
    }

    /// Give the parts back.
    pub fn dismantle(self) -> (r: (ExpectTree<Token>, TokenVec))
        ensures
            r.0 == self.expect,
            r.1 == self.tokenvec,
    {
        let Tracker { expect, tokenvec, steps: _ } = self;
        (expect, tokenvec)
    }

    /// Record `token` as possible at the current position without moving.
    pub fn possible_token(&mut self, token: Token)
        requires
            old(self).wf(),
        ensures
            final(self).wf(),
            final(self).tokenvec == old(self).tokenvec,
            final(self).spec_steps() == old(self).spec_steps(),
            final(self).expect.spec_path() == old(self).expect.spec_path(),
            final(self).expect.cur_items() == old(self).expect.cur_items(),
            ({
                let fa = crate::expect::forest_at(
                    final(self).expect.forest(),
                    final(self).expect.spec_path(),
                );
                exists|k: int| 0 <= k < fa.len() && (#[trigger] fa[k]).item == token@
            }),
    {
        let ghost of = self.expect.forest();
        let ghost op = self.expect.spec_path();
        let ghost v = token@;
        self.expect.advance(token);
        self.expect.retract_one();
        proof {
            assert(self.expect.spec_path() =~= op);
            let fa = crate::expect::forest_at(of, op);
            let k0 = crate::expect::find_item(fa, v);
            crate::expect::lemma_find_item(fa, v);
            if k0 < fa.len() {
                assert(crate::expect::forest_at(self.expect.forest(), op)[k0].item == v);
            } else {
                crate::expect::lemma_appended_at_wf(of, self.expect.forest(), op, v);
                let fa2 = crate::expect::forest_at(self.expect.forest(), op);
                assert(fa2[fa2.len() - 1].item == v);
            }
        }
    }

    /// Try to consume `token`.  When the input is exhausted the token is
    /// recorded as an expectation and `Ok(false)` comes back; when the top
    /// of the input is only a textual prefix of the token, it is likewise
    /// recorded without consuming; a matching top consumes one token; any
    /// other token is an error.
    pub fn try_token(&mut self, token: &Token) -> (r: Result<bool, DeserError>)
        requires
            old(self).wf(),
            old(self).spec_steps() < usize::MAX,
        ensures
            final(self).wf(),
            !has_top(*old(self)) ==> r == Ok::<bool, DeserError>(false),
            ({
                let top = old(self).tokenvec.toks()[old(self).tokenvec.spec_pos() as int]@;
                &&& (has_top(*old(self)) && top.kind == token@.kind
                    && crate::tokens::spec_first_word(top.text) == crate::tokens::spec_first_word(
                    token@.text,
                )) ==> r == Ok::<bool, DeserError>(true)
                &&& (has_top(*old(self)) && !(top.kind == token@.kind
                    && crate::tokens::spec_first_word(top.text) == crate::tokens::spec_first_word(
                    token@.text,
                )) && top.kind == token@.kind && top.text.is_prefix_of(token@.text)) ==> r == Ok::<
                    bool,
                    DeserError,
                >(false)
                &&& (has_top(*old(self)) && !(top.kind == token@.kind
                    && crate::tokens::spec_first_word(top.text) == crate::tokens::spec_first_word(
                    token@.text,
                )) && !(top.kind == token@.kind && top.text.is_prefix_of(token@.text))) ==> r
                    == Err::<bool, DeserError>(DeserError::UnexpectedToken)
            }),
            r == Ok::<bool, DeserError>(true) ==> final(self).expect.forest() == Seq::<
                crate::expect::ExpectView<TokenView>,
            >::empty(),
            r == Ok::<bool, DeserError>(false) ==> {
                let recorded = final(self).expect.cur_items().last();
                let items = old(self).expect.cur_items();
                let bump = !has_top(*old(self)) && ((items.len() == 0 && old(self).spec_steps()
                    == 0) || (items.len() > 0 && items.last().kind is Comma
                    && crate::tokens::spec_first_word(items.last().text).len()
                    == items.last().text.len()));
                &&& recorded.kind == token@.kind
                &&& recorded.text == token@.text
                &&& (token@.space_diff < usize::MAX ==> recorded.space_diff == token@.space_diff
                    + (if bump {
                    1int
                } else {
                    0int
                }))
            },
            match r {
                Ok(true) => {
                    &&& old(self).tokenvec.spec_pos() < old(self).tokenvec.toks().len()
                    &&& old(self).tokenvec.toks()[old(self).tokenvec.spec_pos() as int]@.kind
                        == token@.kind
                    &&& final(self).tokenvec.toks() == old(self).tokenvec.toks()
                    &&& final(self).tokenvec.spec_pos() == old(self).tokenvec.spec_pos() + 1
                    &&& final(self).spec_steps() == old(self).spec_steps() + 1
                },
                Ok(false) => {
                    &&& final(self).tokenvec == old(self).tokenvec
                    &&& final(self).spec_steps() == old(self).spec_steps()
                    &&& final(self).expect.cur_items().len() == old(self).expect.cur_items().len()
                        + 1
                },
                Err(e) => {
                    &&& e is UnexpectedToken
                    &&& final(self).tokenvec == old(self).tokenvec
                    &&& final(self).expect == old(self).expect
                    &&& old(self).tokenvec.spec_pos() < old(self).tokenvec.toks().len()
                },
            },
    {
        if !self.tokenvec.has_remaining() {
            let mut token = token.clone_owned();
            let is_first = self.steps == 0;
            let mut bump = false;
            match self.expect.last() {
                Some(last) => {
                    let is_comma = match &last.kind {
                        TokenKind::Comma => true,
                        _ => false,
                    };
                    if is_comma {
                        let chars = crate::tokens::str_to_chars(last.text.as_str());
                        let word = crate::tokens::first_word(&chars);
                        if chars.len() == word.len() {
                            bump = true;
                        }
                    }
                },
                None => {
                    if is_first {
                        bump = true;
                    }
                },
            }
            if bump && token.space_diff < usize::MAX {
                token.space_diff = token.space_diff + 1;
            }
            self.expect.advance(token);
            Ok(false)
        } else if self.tokenvec.top().similar(token) {
            self.step();
            Ok(true)
        } else if self.tokenvec.top().is_prefix_of(token) {
            self.expect.advance(token.clone_owned());
            Ok(false)
        } else {
            Err(DeserError::UnexpectedToken)
        }
    }

    /// Whether any input remains.
    pub fn has_remaining(&self) -> (r: bool)
        requires
            self.wf(),
        ensures
            r == (self.tokenvec.spec_pos() < self.tokenvec.toks().len()),
    {
        self.tokenvec.has_remaining()
    }

    /// The token at the cursor.
    pub fn top(&self) -> (r: &Token)
        requires
            self.wf(),
            self.tokenvec.spec_pos() < self.tokenvec.toks().len(),
        ensures
            r == self.tokenvec.toks()[self.tokenvec.spec_pos() as int],
    {
        self.tokenvec.top()
    }

    /// The kind of the token at the cursor.
    pub fn top_kind(&self) -> (r: &TokenKind)
        requires
            self.wf(),
            self.tokenvec.spec_pos() < self.tokenvec.toks().len(),
        ensures
            r == self.tokenvec.toks()[self.tokenvec.spec_pos() as int].kind,
    {
        self.tokenvec.top_kind()
    }

    /// Consume one token: the expectation tree is reset, since whatever was
    /// expected before has been overtaken by real input.
    pub fn step(&mut self)
        requires
            old(self).wf(),
            old(self).tokenvec.spec_pos() < old(self).tokenvec.toks().len(),
            old(self).spec_steps() < usize::MAX,
        ensures
            final(self).wf(),
            final(self).tokenvec.toks() == old(self).tokenvec.toks(),
            final(self).tokenvec.spec_pos() == old(self).tokenvec.spec_pos() + 1,
            final(self).spec_steps() == old(self).spec_steps() + 1,
            final(self).expect.forest() =~= Seq::<crate::expect::ExpectView<
                TokenView,
            >>::empty(),
    {
        self.expect = ExpectTree::new();
        self.tokenvec.step();
        self.steps = self.steps + 1;
    }
}

/// The kind image of the token at position `pos`, for stating the numeric
/// parsers' behavior.
pub open spec fn top_kind_view(t: Tracker) -> TokenKindView {
    t.tokenvec.toks()[t.tokenvec.spec_pos() as int]@.kind
}

/// Whether the tracker's cursor stands before a token.
pub open spec fn has_top(t: Tracker) -> bool {
    t.tokenvec.spec_pos() < t.tokenvec.toks().len()
}

/// Read an unsigned value of width `max` from a token list at a
/// position, as every unsigned carrier does: a nonnegative literal must
/// not exceed `max`; a signed literal must be in `0 ..= max`; anything
/// else is rejected.
pub open spec fn spec_deser_unsigned_at(toks: Seq<Token>, pos: int, max: u64) -> Result<
    u64,
    DeserError,
> {
    if !(0 <= pos < toks.len()) {
        Err(DeserError::EndOfTokenList)
    } else {
        spec_deser_unsigned_tok(toks[pos]@, max)
    }
}

/// The same read, of one token.
pub open spec fn spec_deser_unsigned_tok(tv: crate::tokens::TokenView, max: u64) -> Result<
    u64,
    DeserError,
> {
    match tv.kind {
        TokenKindView::NonNegativeDecimal(n) => if n > max {
            Err(DeserError::NumberTooLarge)
        } else {
            Ok(n)
        },
        TokenKindView::Decimal(d) => if d < 0 {
            Err(DeserError::NumberTooSmall)
        } else if d > max {
            Err(DeserError::NumberTooLarge)
        } else {
            Ok(d as u64)
        },
        _ => Err(DeserError::UnexpectedToken),
    }
}

/// The same read, phrased over a tracker's cursor.
pub open spec fn spec_deser_unsigned(t: Tracker, max: u64) -> Result<u64, DeserError> {
    spec_deser_unsigned_at(t.tokenvec.toks(), t.tokenvec.spec_pos() as int, max)
}

/// Read an unsigned value of width `max` from the stream.
pub fn deser_unsigned(t: &mut Tracker, max: u64) -> (r: Result<u64, DeserError>)
    requires
        old(t).wf(),
        old(t).spec_steps() < usize::MAX,
    ensures
        final(t).wf(),
        r == spec_deser_unsigned(*old(t), max),
        r is Ok ==> final(t).tokenvec.toks() == old(t).tokenvec.toks(),
        r is Ok ==> final(t).tokenvec.spec_pos() == old(t).tokenvec.spec_pos() + 1,
        r is Err ==> *final(t) == *old(t),
{
    if !t.has_remaining() {
        return Err(DeserError::EndOfTokenList);
    }
    match t.top_kind() {
        TokenKind::NonNegativeDecimal(n) => {
            let n = *n;
            if n > max {
                Err(DeserError::NumberTooLarge)
            } else {
                t.step();
                Ok(n)
            }
        },
        TokenKind::Decimal(d) => {
            let d = *d;
            if d < 0 {
                Err(DeserError::NumberTooSmall)
            } else if d as u64 > max {
                Err(DeserError::NumberTooLarge)
            } else {
                t.step();
                Ok(d as u64)
            }
        },
        _ => Err(DeserError::UnexpectedToken),
    }
}

/// Read a signed value in `min ..= max` from a token list at a position,
/// as every signed carrier does: the range check is exact for both
/// literal forms.
pub open spec fn spec_deser_signed_at(toks: Seq<Token>, pos: int, min: i64, max: i64) -> Result<
    i64,
    DeserError,
> {
    if !(0 <= pos < toks.len()) {
        Err(DeserError::EndOfTokenList)
    } else {
        spec_deser_signed_tok(toks[pos]@, min, max)
    }
}

/// The same read, of one token.
pub open spec fn spec_deser_signed_tok(tv: crate::tokens::TokenView, min: i64, max: i64) -> Result<
    i64,
    DeserError,
> {
    match tv.kind {
        TokenKindView::NonNegativeDecimal(n) => if n > max as u64 {
            Err(DeserError::NumberTooLarge)
        } else {
            Ok(n as i64)
        },
        TokenKindView::Decimal(d) => if d < min {
            Err(DeserError::NumberTooSmall)
        } else if d > max {
            Err(DeserError::NumberTooLarge)
        } else {
            Ok(d)
        },
        _ => Err(DeserError::UnexpectedToken),
    }
}

/// The same read, phrased over a tracker's cursor.
pub open spec fn spec_deser_signed(t: Tracker, min: i64, max: i64) -> Result<i64, DeserError> {
    spec_deser_signed_at(t.tokenvec.toks(), t.tokenvec.spec_pos() as int, min, max)
}

/// Read a signed value in `min ..= max` from the stream.
pub fn deser_signed(t: &mut Tracker, min: i64, max: i64) -> (r: Result<i64, DeserError>)
    requires
        old(t).wf(),
        old(t).spec_steps() < usize::MAX,
        min <= 0 <= max,
    ensures
        final(t).wf(),
        r == spec_deser_signed(*old(t), min, max),
        r is Ok ==> final(t).tokenvec.toks() == old(t).tokenvec.toks(),
        r is Ok ==> final(t).tokenvec.spec_pos() == old(t).tokenvec.spec_pos() + 1,
        r is Err ==> *final(t) == *old(t),
{
    if !t.has_remaining() {
        return Err(DeserError::EndOfTokenList);
    }
    match t.top_kind() {
        TokenKind::NonNegativeDecimal(n) => {
            let n = *n;
            if n > max as u64 {
                Err(DeserError::NumberTooLarge)
            } else {
                t.step();
                Ok(n as i64)
            }
        },
        TokenKind::Decimal(d) => {
            let d = *d;
            if d < min {
                Err(DeserError::NumberTooSmall)
            } else if d > max {
                Err(DeserError::NumberTooLarge)
            } else {
                t.step();
                Ok(d)
            }
        },
        _ => Err(DeserError::UnexpectedToken),
    }
}

/// Read a string literal from the stream.
pub fn deser_string(t: &mut Tracker) -> (r: Result<String, DeserError>)
    requires
        old(t).wf(),
        old(t).spec_steps() < usize::MAX,
    ensures
        final(t).wf(),
        match r {
            Ok(s) => has_top(*old(t)) && (top_kind_view(*old(t)) matches TokenKindView::Str(c)
                && s@ == c) && final(t).tokenvec.spec_pos() == old(t).tokenvec.spec_pos() + 1
                && final(t).tokenvec.toks() == old(t).tokenvec.toks(),
            Err(e) => *final(t) == *old(t) && if !has_top(*old(t)) {
                e is EndOfTokenList
            } else {
                e is UnexpectedToken && !(top_kind_view(*old(t)) is Str)
            },
        },
{
    if !t.has_remaining() {
        return Err(DeserError::EndOfTokenList);
    }
    match t.top_kind() {
        TokenKind::Str(s) => {
            let s = s.clone();
            t.step();
            Ok(s)
        },
        _ => Err(DeserError::UnexpectedToken),
    }
}

/// Read a char literal from the stream.
pub fn deser_char(t: &mut Tracker) -> (r: Result<char, DeserError>)
    requires
        old(t).wf(),
        old(t).spec_steps() < usize::MAX,
    ensures
        final(t).wf(),
        match r {
            Ok(c) => has_top(*old(t)) && top_kind_view(*old(t)) == TokenKindView::Char(c)
                && final(t).tokenvec.spec_pos() == old(t).tokenvec.spec_pos() + 1
                && final(t).tokenvec.toks() == old(t).tokenvec.toks(),
            Err(e) => *final(t) == *old(t) && if !has_top(*old(t)) {
                e is EndOfTokenList
            } else {
                e is UnexpectedToken && !(top_kind_view(*old(t)) is Char)
            },
        },
{
    if !t.has_remaining() {
        return Err(DeserError::EndOfTokenList);
    }
    match t.top_kind() {
        TokenKind::Char(c) => {
            let c = *c;
            t.step();
            Ok(c)
        },
        _ => Err(DeserError::UnexpectedToken),
    }
}

/// Read a boolean from the stream: exactly the identifiers `true` and
/// `false` are accepted, and both are offered as expectations when the
/// input has run out.
pub fn deser_bool(t: &mut Tracker) -> (r: Result<bool, DeserError>)
    requires
        old(t).wf(),
        old(t).spec_steps() < usize::MAX,
    ensures
        final(t).wf(),
        (has_top(*old(t)) && top_kind_view(*old(t)) is Ident && old(t).tokenvec.toks()[old(
            t,
        ).tokenvec.spec_pos() as int]@.text == "true"@) ==> r == Ok::<bool, DeserError>(true),
        (has_top(*old(t)) && top_kind_view(*old(t)) is Ident && old(t).tokenvec.toks()[old(
            t,
        ).tokenvec.spec_pos() as int]@.text == "false"@) ==> r == Ok::<bool, DeserError>(false),
        (has_top(*old(t)) && !(top_kind_view(*old(t)) is Ident && (old(t).tokenvec.toks()[old(
            t,
        ).tokenvec.spec_pos() as int]@.text == "true"@ || old(t).tokenvec.toks()[old(
            t,
        ).tokenvec.spec_pos() as int]@.text == "false"@))) ==> r == Err::<bool, DeserError>(
            DeserError::UnexpectedToken,
        ),
        match r {
            Ok(b) => {
                &&& has_top(*old(t))
                &&& top_kind_view(*old(t)) is Ident
                &&& old(t).tokenvec.toks()[old(t).tokenvec.spec_pos() as int]@.text == (if b {
                    "true"@
                } else {
                    "false"@
                })
                &&& final(t).tokenvec.spec_pos() == old(t).tokenvec.spec_pos() + 1
                &&& final(t).tokenvec.toks() == old(t).tokenvec.toks()
            },
            Err(e) => {
                &&& final(t).tokenvec == old(t).tokenvec
                &&& if !has_top(*old(t)) {
                    e is EndOfTokenList
                } else {
                    e is UnexpectedToken
                }
            },
        },
{
    proof {
        reveal_strlit("true");
        reveal_strlit("false");
    }
    if !t.has_remaining() {
        t.possible_token(Token::new_borrowed(TokenKind::Ident, "false"));
        t.possible_token(Token::new_borrowed(TokenKind::Ident, "true"));
        return Err(DeserError::EndOfTokenList);
    }
    let is_ident = match t.top_kind() {
        TokenKind::Ident => true,
        _ => false,
    };
    if is_ident {
        let text_chars = crate::tokens::str_to_chars(t.top().text.as_str());
        let false_chars = crate::tokens::str_to_chars("false");
        let true_chars = crate::tokens::str_to_chars("true");
        if crate::tokens::chars_eq(&text_chars, &false_chars) {
            proof {
                reveal_strlit("false");
                reveal_strlit("true");
                assert(("true"@).len() != ("false"@).len());
            }
            t.step();
            return Ok(false);
        }
        if crate::tokens::chars_eq(&text_chars, &true_chars) {
            proof {
                reveal_strlit("true");
                reveal_strlit("false");
                assert(("true"@).len() != ("false"@).len());
            }
            t.step();
            return Ok(true);
        }
        if chars_prefix(&text_chars, &false_chars) {
            t.possible_token(Token::new_borrowed(TokenKind::Ident, "false"));
        }
        if chars_prefix(&text_chars, &true_chars) {
            t.possible_token(Token::new_borrowed(TokenKind::Ident, "true"));
        }
    }
    Err(DeserError::UnexpectedToken)
}

/// Whether `a` is a prefix of `b`, character for character.
pub fn chars_prefix(a: &Vec<char>, b: &Vec<char>) -> (r: bool)
    ensures
        r == a@.is_prefix_of(b@),
{
    if a.len() > b.len() {
        return false;
    }
    let mut i: usize = 0;
    while i < a.len()
        invariant
            i <= a@.len() <= b@.len(),
            forall|j: int| 0 <= j < i ==> a@[j] == b@[j],
        decreases a@.len() - i,
    {
        if a[i] != b[i] {
            proof {
                assert(a@[i as int] != b@.take(a@.len() as int)[i as int]);
            }
            return false;
        }
        i = i + 1;
    }
    proof {
        assert(a@ =~= b@.take(a@.len() as int));
    }
    true
}

/// A type whose values can be read from the token stream.
pub trait Deser: Sized {
    fn deser(tracker: &mut Tracker) -> (r: Result<Self, DeserError>)
        requires
            old(tracker).wf(),
            old(tracker).spec_steps() < usize::MAX,
        ensures
            final(tracker).wf(),
    ;
}

impl Deser for u64 {
    fn deser(tracker: &mut Tracker) -> (r: Result<Self, DeserError>)
        ensures
            r == spec_deser_unsigned(*old(tracker), u64::MAX),
            r is Ok ==> final(tracker).tokenvec.toks() == old(tracker).tokenvec.toks()
                && final(tracker).tokenvec.spec_pos() == old(tracker).tokenvec.spec_pos() + 1,
            r is Err ==> *final(tracker) == *old(tracker),
    {
        deser_unsigned(tracker, u64::MAX)
    }
}

impl Deser for u32 {
    fn deser(tracker: &mut Tracker) -> (r: Result<Self, DeserError>)
        ensures
            r == (match spec_deser_unsigned(*old(tracker), u32::MAX as u64) {
                Ok(n) => Ok(n as u32),
                Err(e) => Err::<u32, DeserError>(e),
            }),
            r is Ok ==> final(tracker).tokenvec.toks() == old(tracker).tokenvec.toks()
                && final(tracker).tokenvec.spec_pos() == old(tracker).tokenvec.spec_pos() + 1,
            r is Err ==> *final(tracker) == *old(tracker),
    {
        match deser_unsigned(tracker, u32::MAX as u64) {
            Ok(v) => Ok(v as u32),
            Err(e) => Err(e),
        }
    }
}

impl Deser for u16 {
    fn deser(tracker: &mut Tracker) -> (r: Result<Self, DeserError>)
        ensures
            r == (match spec_deser_unsigned(*old(tracker), u16::MAX as u64) {
                Ok(n) => Ok(n as u16),
                Err(e) => Err::<u16, DeserError>(e),
            }),
            r is Ok ==> final(tracker).tokenvec.toks() == old(tracker).tokenvec.toks()
                && final(tracker).tokenvec.spec_pos() == old(tracker).tokenvec.spec_pos() + 1,
            r is Err ==> *final(tracker) == *old(tracker),
    {
        match deser_unsigned(tracker, u16::MAX as u64) {
            Ok(v) => Ok(v as u16),
            Err(e) => Err(e),
        }
    }
}

impl Deser for u8 {
    fn deser(tracker: &mut Tracker) -> (r: Result<Self, DeserError>)
        ensures
            r == (match spec_deser_unsigned(*old(tracker), u8::MAX as u64) {
                Ok(n) => Ok(n as u8),
                Err(e) => Err::<u8, DeserError>(e),
            }),
            r is Ok ==> final(tracker).tokenvec.toks() == old(tracker).tokenvec.toks()
                && final(tracker).tokenvec.spec_pos() == old(tracker).tokenvec.spec_pos() + 1,
            r is Err ==> *final(tracker) == *old(tracker),
    {
        match deser_unsigned(tracker, u8::MAX as u64) {
            Ok(v) => Ok(v as u8),
            Err(e) => Err(e),
        }
    }
}

impl Deser for usize {
    fn deser(tracker: &mut Tracker) -> (r: Result<Self, DeserError>)
        ensures
            r == (match spec_deser_unsigned(*old(tracker), usize::MAX as u64) {
                Ok(n) => Ok(n as usize),
                Err(e) => Err::<usize, DeserError>(e),
            }),
            r is Ok ==> final(tracker).tokenvec.toks() == old(tracker).tokenvec.toks()
                && final(tracker).tokenvec.spec_pos() == old(tracker).tokenvec.spec_pos() + 1,
            r is Err ==> *final(tracker) == *old(tracker),
    {
        match deser_unsigned(tracker, usize::MAX as u64) {
            Ok(v) => Ok(v as usize),
            Err(e) => Err(e),
        }
    }
}

impl Deser for i64 {
    fn deser(tracker: &mut Tracker) -> (r: Result<Self, DeserError>)
        ensures
            r == spec_deser_signed(*old(tracker), i64::MIN, i64::MAX),
            r is Ok ==> final(tracker).tokenvec.toks() == old(tracker).tokenvec.toks()
                && final(tracker).tokenvec.spec_pos() == old(tracker).tokenvec.spec_pos() + 1,
            r is Err ==> *final(tracker) == *old(tracker),
    {
        deser_signed(tracker, i64::MIN, i64::MAX)
    }
}

impl Deser for i32 {
    fn deser(tracker: &mut Tracker) -> (r: Result<Self, DeserError>)
        ensures
            r == (match spec_deser_signed(*old(tracker), i32::MIN as i64, i32::MAX as i64) {
                Ok(n) => Ok(n as i32),
                Err(e) => Err::<i32, DeserError>(e),
            }),
            r is Ok ==> final(tracker).tokenvec.toks() == old(tracker).tokenvec.toks()
                && final(tracker).tokenvec.spec_pos() == old(tracker).tokenvec.spec_pos() + 1,
            r is Err ==> *final(tracker) == *old(tracker),
    {
        match deser_signed(tracker, i32::MIN as i64, i32::MAX as i64) {
            Ok(v) => Ok(v as i32),
            Err(e) => Err(e),
        }
    }
}

impl Deser for i16 {
    fn deser(tracker: &mut Tracker) -> (r: Result<Self, DeserError>)
        ensures
            r == (match spec_deser_signed(*old(tracker), i16::MIN as i64, i16::MAX as i64) {
                Ok(n) => Ok(n as i16),
                Err(e) => Err::<i16, DeserError>(e),
            }),
            r is Ok ==> final(tracker).tokenvec.toks() == old(tracker).tokenvec.toks()
                && final(tracker).tokenvec.spec_pos() == old(tracker).tokenvec.spec_pos() + 1,
            r is Err ==> *final(tracker) == *old(tracker),
    {
        match deser_signed(tracker, i16::MIN as i64, i16::MAX as i64) {
            Ok(v) => Ok(v as i16),
            Err(e) => Err(e),
        }
    }
}

impl Deser for i8 {
    fn deser(tracker: &mut Tracker) -> (r: Result<Self, DeserError>)
        ensures
            r == (match spec_deser_signed(*old(tracker), i8::MIN as i64, i8::MAX as i64) {
                Ok(n) => Ok(n as i8),
                Err(e) => Err::<i8, DeserError>(e),
            }),
            r is Ok ==> final(tracker).tokenvec.toks() == old(tracker).tokenvec.toks()
                && final(tracker).tokenvec.spec_pos() == old(tracker).tokenvec.spec_pos() + 1,
            r is Err ==> *final(tracker) == *old(tracker),
    {
        match deser_signed(tracker, i8::MIN as i64, i8::MAX as i64) {
            Ok(v) => Ok(v as i8),
            Err(e) => Err(e),
        }
    }
}

impl Deser for isize {
    fn deser(tracker: &mut Tracker) -> (r: Result<Self, DeserError>)
        ensures
            r == (match spec_deser_signed(*old(tracker), isize::MIN as i64, isize::MAX as i64) {
                Ok(n) => Ok(n as isize),
                Err(e) => Err::<isize, DeserError>(e),
            }),
            r is Ok ==> final(tracker).tokenvec.toks() == old(tracker).tokenvec.toks()
                && final(tracker).tokenvec.spec_pos() == old(tracker).tokenvec.spec_pos() + 1,
            r is Err ==> *final(tracker) == *old(tracker),
    {
        match deser_signed(tracker, isize::MIN as i64, isize::MAX as i64) {
            Ok(v) => Ok(v as isize),
            Err(e) => Err(e),
        }
    }
}

impl Deser for bool {
    fn deser(tracker: &mut Tracker) -> (r: Result<Self, DeserError>)
        ensures
            ({
                let top =
                    old(tracker).tokenvec.toks()[old(tracker).tokenvec.spec_pos() as int]@;
                &&& !has_top(*old(tracker)) ==> r == Err::<bool, DeserError>(
                    DeserError::EndOfTokenList,
                )
                &&& (has_top(*old(tracker)) && top.kind is Ident && top.text == "true"@) ==> r
                    == Ok::<bool, DeserError>(true)
                &&& (has_top(*old(tracker)) && top.kind is Ident && top.text == "false"@)
                    ==> r == Ok::<bool, DeserError>(false)
                &&& (has_top(*old(tracker)) && !(top.kind is Ident && (top.text == "true"@
                    || top.text == "false"@))) ==> r == Err::<bool, DeserError>(
                    DeserError::UnexpectedToken,
                )
            }),
            r is Ok ==> final(tracker).tokenvec.toks() == old(tracker).tokenvec.toks()
                && final(tracker).tokenvec.spec_pos() == old(tracker).tokenvec.spec_pos() + 1,
            r is Err ==> final(tracker).tokenvec == old(tracker).tokenvec,
    {
        deser_bool(tracker)
    }
}

impl Deser for String {
    fn deser(tracker: &mut Tracker) -> (r: Result<Self, DeserError>)
        ensures
            match r {
                Ok(s) => has_top(*old(tracker)) && (top_kind_view(*old(tracker))
                    matches TokenKindView::Str(c) && s@ == c)
                    && final(tracker).tokenvec.spec_pos() == old(tracker).tokenvec.spec_pos()
                        + 1 && final(tracker).tokenvec.toks() == old(tracker).tokenvec.toks(),
                Err(e) => *final(tracker) == *old(tracker) && if !has_top(*old(tracker)) {
                    e is EndOfTokenList
                } else {
                    e is UnexpectedToken && !(top_kind_view(*old(tracker)) is Str)
                },
            },
    {
        deser_string(tracker)
    }
}

impl Deser for char {
    fn deser(tracker: &mut Tracker) -> (r: Result<Self, DeserError>)
        ensures
            match r {
                Ok(c) => has_top(*old(tracker)) && top_kind_view(*old(tracker))
                    == TokenKindView::Char(c)
                    && final(tracker).tokenvec.spec_pos() == old(tracker).tokenvec.spec_pos()
                        + 1 && final(tracker).tokenvec.toks() == old(tracker).tokenvec.toks(),
                Err(e) => *final(tracker) == *old(tracker) && if !has_top(*old(tracker)) {
                    e is EndOfTokenList
                } else {
                    e is UnexpectedToken && !(top_kind_view(*old(tracker)) is Char)
                },
            },
    {
        deser_char(tracker)
    }
}

} // verus!
