//! Token parser for path expressions.
//!
//! A query string is split into typed tokens: identifiers, decimal integers
//! (signed and unsigned distinguished by a leading `-`), single-quoted char
//! literals, double-quoted string literals with escapes, and the fixed
//! punctuation set `. [ ] ( ) { } , : = * .. ..=`.  Whitespace is not emitted
//! as a token; it is accumulated into the `space_diff` count of the token
//! that follows, so exact character offsets can be reconstructed from token
//! counts.  An unrecognized character sequence yields one `InvalidToken` and
//! tokenizing stops immediately.

use vstd::prelude::*;

verus! {

/// The kind of a single token.
#[derive(Debug, PartialEq, Eq)]
pub enum TokenKind {
    Ident,
    NonNegativeDecimal(u64),
    Decimal(i64),
    SubscriptOpen,
    SubscriptClose,
    TupleOpen,
    TupleClose,
    CurlyOpen,
    CurlyClose,
    FieldAccess,
    Assign,
    Colon,
    Asterix,
    Char(char),
    Str(String),
    Range(bool),
    Comma,
    InvalidToken,
}

/// The mathematical image of a `TokenKind`: the same shape with the owned
/// string replaced by its character sequence.
pub enum TokenKindView {
    Ident,
    NonNegativeDecimal(u64),
    Decimal(i64),
    SubscriptOpen,
    SubscriptClose,
    TupleOpen,
    TupleClose,
    CurlyOpen,
    CurlyClose,
    FieldAccess,
    Assign,
    Colon,
    Asterix,
    Char(char),
    Str(Seq<char>),
    Range(bool),
    Comma,
    InvalidToken,
}

impl View for TokenKind {
    type V = TokenKindView;

    open spec fn view(&self) -> TokenKindView {
        match self {
            TokenKind::Ident => TokenKindView::Ident,
            TokenKind::NonNegativeDecimal(n) => TokenKindView::NonNegativeDecimal(*n),
            TokenKind::Decimal(n) => TokenKindView::Decimal(*n),
            TokenKind::SubscriptOpen => TokenKindView::SubscriptOpen,
            TokenKind::SubscriptClose => TokenKindView::SubscriptClose,
            TokenKind::TupleOpen => TokenKindView::TupleOpen,
            TokenKind::TupleClose => TokenKindView::TupleClose,
            TokenKind::CurlyOpen => TokenKindView::CurlyOpen,
            TokenKind::CurlyClose => TokenKindView::CurlyClose,
            TokenKind::FieldAccess => TokenKindView::FieldAccess,
            TokenKind::Assign => TokenKindView::Assign,
            TokenKind::Colon => TokenKindView::Colon,
            TokenKind::Asterix => TokenKindView::Asterix,
            TokenKind::Char(c) => TokenKindView::Char(*c),
            TokenKind::Str(s) => TokenKindView::Str(s@),
            TokenKind::Range(b) => TokenKindView::Range(*b),
            TokenKind::Comma => TokenKindView::Comma,
            TokenKind::InvalidToken => TokenKindView::InvalidToken,
        }
    }
}

impl TokenKind {
    /// A deep copy whose mathematical image is unchanged.
    pub fn clone_kind(&self) -> (r: TokenKind)
        ensures
            r@ == self@,
    {
        match self {
            TokenKind::Ident => TokenKind::Ident,
            TokenKind::NonNegativeDecimal(n) => TokenKind::NonNegativeDecimal(*n),
            TokenKind::Decimal(n) => TokenKind::Decimal(*n),
            TokenKind::SubscriptOpen => TokenKind::SubscriptOpen,
            TokenKind::SubscriptClose => TokenKind::SubscriptClose,
            TokenKind::TupleOpen => TokenKind::TupleOpen,
            TokenKind::TupleClose => TokenKind::TupleClose,
            TokenKind::CurlyOpen => TokenKind::CurlyOpen,
            TokenKind::CurlyClose => TokenKind::CurlyClose,
            TokenKind::FieldAccess => TokenKind::FieldAccess,
            TokenKind::Assign => TokenKind::Assign,
            TokenKind::Colon => TokenKind::Colon,
            TokenKind::Asterix => TokenKind::Asterix,
            TokenKind::Char(c) => TokenKind::Char(*c),
            TokenKind::Str(s) => TokenKind::Str(s.clone()),
            TokenKind::Range(b) => TokenKind::Range(*b),
            TokenKind::Comma => TokenKind::Comma,
            TokenKind::InvalidToken => TokenKind::InvalidToken,
        }
    }

    /// Whether two kinds have the same mathematical image.
    pub fn same_kind(&self, other: &TokenKind) -> (r: bool)
        ensures
            r == (self@ == other@),
    {
        match (self, other) {
            (TokenKind::Ident, TokenKind::Ident) => true,
            (TokenKind::NonNegativeDecimal(a), TokenKind::NonNegativeDecimal(b)) => a == b,
            (TokenKind::Decimal(a), TokenKind::Decimal(b)) => a == b,
            (TokenKind::SubscriptOpen, TokenKind::SubscriptOpen) => true,
            (TokenKind::SubscriptClose, TokenKind::SubscriptClose) => true,
            (TokenKind::TupleOpen, TokenKind::TupleOpen) => true,
            (TokenKind::TupleClose, TokenKind::TupleClose) => true,
            (TokenKind::CurlyOpen, TokenKind::CurlyOpen) => true,
            (TokenKind::CurlyClose, TokenKind::CurlyClose) => true,
            (TokenKind::FieldAccess, TokenKind::FieldAccess) => true,
            (TokenKind::Assign, TokenKind::Assign) => true,
            (TokenKind::Colon, TokenKind::Colon) => true,
            (TokenKind::Asterix, TokenKind::Asterix) => true,
            (TokenKind::Char(a), TokenKind::Char(b)) => a == b,
            (TokenKind::Str(a), TokenKind::Str(b)) => *a == *b,
            (TokenKind::Range(a), TokenKind::Range(b)) => a == b,
            (TokenKind::Comma, TokenKind::Comma) => true,
            (TokenKind::InvalidToken, TokenKind::InvalidToken) => true,
            _ => false,
        }
    }
}

/// The mathematical image of a `Token`.
pub struct TokenView {
    pub kind: TokenKindView,
    pub text: Seq<char>,
    pub space_diff: nat,
}

/// Represents a single meaningful substring part in a string expression.
pub struct Token {
    /// Token kind.
    pub kind: TokenKind,
    /// Token text.
    pub text: String,
    /// Amount of whitespace from the previous token.
    pub space_diff: usize,
}

impl View for Token {
    type V = TokenView;

    open spec fn view(&self) -> TokenView {
        TokenView { kind: self.kind@, text: self.text@, space_diff: self.space_diff as nat }
    }
}

/// Whitespace as the tokenizer grammar understands it.
pub open spec fn spec_is_ws(c: char) -> bool {
    c == ' ' || c == '\t' || c == '\n' || c == '\r'
}

/// The first maximal run of non-whitespace characters, after any leading
/// whitespace is skipped.
pub open spec fn spec_first_word(s: Seq<char>) -> Seq<char>
    decreases s.len(),
{
    if s.len() == 0 {
        s
    } else if spec_is_ws(s[0]) {
        spec_first_word(s.skip(1))
    } else {
        spec_word_run(s)
    }
}

/// The maximal prefix of non-whitespace characters.
pub open spec fn spec_word_run(s: Seq<char>) -> Seq<char>
    decreases s.len(),
{
    if s.len() == 0 || spec_is_ws(s[0]) {
        Seq::empty()
    } else {
        seq![s[0]] + spec_word_run(s.skip(1))
    }
}

fn is_ws_char(c: char) -> (r: bool)
    ensures
        r == spec_is_ws(c),
{
    c == ' ' || c == '\t' || c == '\n' || c == '\r'
}

/// Extract the first whitespace-delimited word of a character vector.
pub fn first_word(s: &Vec<char>) -> (r: Vec<char>)
    ensures
        r@ == spec_first_word(s@),
{
    let mut i: usize = 0;
    proof {
        assert(s@.skip(0) =~= s@);
    }
    while i < s.len() && is_ws_char(s[i])
        invariant
            i <= s@.len(),
            spec_first_word(s@) == spec_first_word(s@.skip(i as int)),
        decreases s@.len() - i,
    {
        proof {
            assert(s@.skip(i as int).skip(1) =~= s@.skip(i + 1));
        }
        i = i + 1;
    }
    let mut r: Vec<char> = Vec::new();
    let ghost start = i as int;
    while i < s.len() && !is_ws_char(s[i])
        invariant
            start <= i <= s@.len(),
            start < s@.len() ==> !spec_is_ws(s@[start]),
            r@ + spec_word_run(s@.skip(i as int)) == spec_word_run(s@.skip(start)),
            forall|j: int| start <= j < i ==> !spec_is_ws(s@[j]),
        decreases s@.len() - i,
    {
        proof {
            assert(s@.skip(i as int).skip(1) =~= s@.skip(i + 1));
            assert(s@.skip(i as int)[0] == s@[i as int]);
        }
        r.push(s[i]);
        i = i + 1;
    }
    proof {
        if i < s@.len() {
            assert(s@.skip(i as int)[0] == s@[i as int]);
        }
        assert(spec_word_run(s@.skip(i as int)) =~= Seq::<char>::empty());
        assert(r@ =~= r@ + Seq::<char>::empty());
        if start == s@.len() {
            assert(spec_first_word(s@.skip(start)) =~= Seq::<char>::empty());
        } else {
            assert(spec_first_word(s@.skip(start)) == spec_word_run(s@.skip(start)));
        }
    }
    r
}

/// Relies on `String::push`: appends exactly one character to the string.
#[verifier::external_body]
pub(crate) fn push_char(s: &mut String, c: char)
    ensures
        final(s)@ == old(s)@.push(c),
{
    s.push(c);
}

/// Convert a string slice into the vector of its characters.
pub fn str_to_chars(s: &str) -> (r: Vec<char>)
    ensures
        r@ == s@,
{
    let len = s.unicode_len();
    let mut r: Vec<char> = Vec::new();
    let mut i: usize = 0;
    while i < len
        invariant
            i <= len,
            len == s@.len(),
            r@ == s@.take(i as int),
        decreases len - i,
    {
        let c = s.get_char(i);
        r.push(c);
        proof {
            assert(r@ =~= s@.take(i + 1));
        }
        i = i + 1;
    }
    proof {
        assert(s@.take(len as int) =~= s@);
    }
    r
}

/// Compare two character vectors for equality of contents.
pub fn chars_eq(a: &Vec<char>, b: &Vec<char>) -> (r: bool)
    ensures
        r == (a@ == b@),
{
    if a.len() != b.len() {
        proof {
            assert(a@.len() != b@.len());
        }
        return false;
    }
    let mut i: usize = 0;
    while i < a.len()
        invariant
            i <= a@.len(),
            a@.len() == b@.len(),
            forall|j: int| 0 <= j < i ==> a@[j] == b@[j],
        decreases a@.len() - i,
    {
        if a[i] != b[i] {
            return false;
        }
        i = i + 1;
    }
    proof {
        assert(a@ =~= b@);
    }
    true
}

impl Token {
    /// An identifier token owning the given text.
    pub fn new_owned(s: String) -> (r: Token)
        ensures
            r@.kind == TokenKindView::Ident,
            r@.text == s@,
            r@.space_diff == 0,
    {
        Token { kind: TokenKind::Ident, text: s, space_diff: 0 }
    }

    /// A token of the given kind whose text is copied from a string slice.
    pub fn new_borrowed(kind: TokenKind, s: &str) -> (r: Token)
        ensures
            r@.kind == kind@,
            r@.text == s@,
            r@.space_diff == 0,
    {
        Token { kind, text: s.to_owned(), space_diff: 0 }
    }

    /// A deep copy whose mathematical image is unchanged.
    pub fn clone_owned(&self) -> (r: Token)
        ensures
            r@ == self@,
    {
        Token {
            kind: self.kind.clone_kind(),
            text: self.text.clone(),
            space_diff: self.space_diff,
        }
    }

    /// Whether two tokens are identical with surrounding whitespace removed.
    pub fn similar(&self, token: &Token) -> (r: bool)
        ensures
            r == (self@.kind == token@.kind && spec_first_word(self@.text)
                == spec_first_word(token@.text)),
    {
        if !self.kind.same_kind(&token.kind) {
            return false;
        }
        let a = first_word(&str_to_chars(self.text.as_str()));
        let b = first_word(&str_to_chars(token.text.as_str()));
        chars_eq(&a, &b)
    }

    /// Whether this token's text is a prefix of another token's text, with
    /// the two kinds matching.
    pub fn is_prefix_of(&self, token: &Token) -> (r: bool)
        ensures
            r == (self@.kind == token@.kind && self@.text.is_prefix_of(token@.text)),
    {
        if !self.kind.same_kind(&token.kind) {
            return false;
        }
        let a = str_to_chars(self.text.as_str());
        let b = str_to_chars(token.text.as_str());
        if a.len() > b.len() {
            return false;
        }
        let mut i: usize = 0;
        while i < a.len()
            invariant
                i <= a@.len(),
                a@.len() <= b@.len(),
                a@ == self@.text,
                b@ == token@.text,
                forall|j: int| 0 <= j < i ==> a@[j] == b@[j],
            decreases a@.len() - i,
        {
            if a[i] != b[i] {
                proof {
                    assert(!self@.text.is_prefix_of(token@.text)) by {
                        assert(self@.text[i as int] != token@.text.take(
                            self@.text.len() as int,
                        )[i as int]);
                    }
                }
                return false;
            }
            i = i + 1;
        }
        proof {
            assert(a@ =~= b@.take(a@.len() as int));
        }
        true
    }

    /// The amount of space following the first word of the token's text.
    /// The text must contain at least one non-whitespace character.
    pub fn space_suffix(&self) -> (r: usize)
        requires
            spec_first_word(self@.text).len() > 0,
        ensures
            r == self@.text.len() - spec_first_word(self@.text).len(),
    {
        let chars = str_to_chars(self.text.as_str());
        let word = first_word(&chars);
        proof {
            lemma_first_word_le(self@.text);
        }
        chars.len() - word.len()
    }
}

proof fn lemma_first_word_le(s: Seq<char>)
    ensures
        spec_first_word(s).len() <= s.len(),
        spec_word_run(s).len() <= s.len(),
    decreases s.len(),
{
    if s.len() > 0 {
        lemma_first_word_le(s.skip(1));
    }
}

/// Wrapper for the traversal of a list of tokens.
pub struct TokenVec {
    tokens: Vec<Token>,
    pos: usize,
}

impl TokenVec {
    /// The stored token sequence.
    pub closed spec fn toks(self) -> Seq<Token> {
        self.tokens@
    }

    /// The current cursor position.
    pub closed spec fn spec_pos(self) -> nat {
        self.pos as nat
    }

    /// The cursor never exceeds the token count.
    pub open spec fn wf(self) -> bool {
        self.spec_pos() <= self.toks().len()
    }

    /// The mathematical images of the tokens not yet consumed.
    pub open spec fn remaining_views(self) -> Seq<TokenView> {
        self.toks().skip(self.spec_pos() as int).map_values(|t: Token| t@)
    }

    /// Wrap a token list with the cursor at the start.
    pub fn new(tokens: Vec<Token>) -> (r: TokenVec)
        ensures
            r.toks() == tokens@,
            r.spec_pos() == 0,
            r.wf(),
    {
        TokenVec { tokens, pos: 0 }
    }

    /// A deep copy with the same tokens and position.
    pub fn clone_owned(&self) -> (r: TokenVec)
        ensures
            r.toks().map_values(|t: Token| t@) == self.toks().map_values(|t: Token| t@),
            r.spec_pos() == self.spec_pos(),
            self.wf() ==> r.wf(),
    {
        let mut v: Vec<Token> = Vec::new();
        let mut i: usize = 0;
        while i < self.tokens.len()
            invariant
                i <= self.tokens@.len(),
                v@.len() == i,
                forall|j: int| 0 <= j < i ==> v@[j]@ == self.tokens@[j]@,
            decreases self.tokens@.len() - i,
        {
            v.push(self.tokens[i].clone_owned());
            i = i + 1;
        }
        proof {
            assert(v@.map_values(|t: Token| t@) =~= self.tokens@.map_values(|t: Token| t@));
        }
        TokenVec { tokens: v, pos: self.pos }
    }

    /// Move the cursor to an absolute position.
    pub fn take_pos(&mut self, other: usize)
        requires
            other <= old(self).toks().len(),
        ensures
            final(self).toks() == old(self).toks(),
            final(self).spec_pos() == other,
            final(self).wf(),
    {
        self.pos = other;
    }

    /// The current cursor position.
    pub fn pos(&self) -> (r: usize)
        ensures
            r == self.spec_pos(),
    {
        self.pos
    }

    /// An empty token list.
    pub fn new_empty() -> (r: TokenVec)
        ensures
            r.toks() =~= Seq::<Token>::empty(),
            r.spec_pos() == 0,
            r.wf(),
    {
        TokenVec { tokens: Vec::new(), pos: 0 }
    }

    /// How many tokens remain past the cursor.
    pub fn remaining(&self) -> (r: usize)
        requires
            self.wf(),
        ensures
            r == self.toks().len() - self.spec_pos(),
    {
        self.tokens.len() - self.pos
    }

    /// Whether any token remains past the cursor.
    pub fn has_remaining(&self) -> (r: bool)
        requires
            self.wf(),
        ensures
            r == (self.toks().len() > self.spec_pos()),
    {
        self.remaining() > 0
    }

    /// Whether the cursor is at the end.
    pub fn is_empty(&self) -> (r: bool)
        requires
            self.wf(),
        ensures
            r == (self.toks().len() == self.spec_pos()),
    {
        self.remaining() == 0
    }

    /// The token at the cursor.
    pub fn top(&self) -> (r: &Token)
        requires
            self.wf(),
            self.spec_pos() < self.toks().len(),
        ensures
            r == self.toks()[self.spec_pos() as int],
    {
        &self.tokens[self.pos]
    }

    /// The kind of the token at the cursor.
    pub fn top_kind(&self) -> (r: &TokenKind)
        requires
            self.wf(),
            self.spec_pos() < self.toks().len(),
        ensures
            r == self.toks()[self.spec_pos() as int].kind,
    {
        &self.tokens[self.pos].kind
    }

    /// The kind of the token at an absolute index.
    pub fn kind_at(&self, i: usize) -> (r: &TokenKind)
        requires
            i < self.toks().len(),
        ensures
            r == self.toks()[i as int].kind,
    {
        &self.tokens[i].kind
    }

    /// The total token count.
    pub fn len(&self) -> (r: usize)
        ensures
            r == self.toks().len(),
    {
        self.tokens.len()
    }

    /// Advance the cursor by `count` tokens.  Advancing past the end is a
    /// caller error and is excluded by precondition.
    pub fn advance(&mut self, count: usize)
        requires
            old(self).spec_pos() + count <= old(self).toks().len(),
        ensures
            final(self).toks() == old(self).toks(),
            final(self).spec_pos() == old(self).spec_pos() + count,
            final(self).wf(),
    {
        let n = self.tokens.len();
        self.pos = self.pos + count;
    }

    /// Advance the cursor by one token.
    pub fn step(&mut self)
        requires
            old(self).spec_pos() + 1 <= old(self).toks().len(),
        ensures
            final(self).toks() == old(self).toks(),
            final(self).spec_pos() == old(self).spec_pos() + 1,
            final(self).wf(),
    {
        self.advance(1)
    }
}

} // verus!
