//! The object model that queries run against.
//!
//! A domain value is described by a closed set of shapes: primitive leaves,
//! structs with named fields, tuples, enums, maps, sets, lists, lock-like
//! wrappers, indirections, and references into a shared-cell arena.  Shared
//! ownership and cycles go through `Graph` cells, whose indices double as
//! the identity tags that the renderer uses to collapse repeats.

use vstd::prelude::*;

use crate::deser::{DeserError, Tracker};
use crate::tokens::push_char;

verus! {

broadcast use vstd::std_specs::vec::group_vec_axioms;

/// What went wrong while assigning into a value.
#[derive(Debug)]
pub enum AssignError {
    Deser(DeserError),
    /// Some types, having no buildable representation, cannot be assigned.
    Unbuildable,
    /// Other values are immutable, such as values shared with other owners.
    Immutable,
}

/// What went wrong while calling a method on a value.
#[derive(Debug)]
pub enum CallError {
    Deser(DeserError),
    /// Signals the climb to retract into a mutable path, so that the value
    /// will be revisited in a mutable state.
    NeedMutable,
    /// The called function does not exist.
    NoSuchFunction,
}

/// The field layout of a struct-like value.
pub enum StructKind {
    Unit,
    Tuple(usize),
    Fields(Vec<String>),
}

/// The descriptor of a struct-like value.
pub struct Struct {
    pub name: String,
    pub kind: StructKind,
}

/// The descriptor of an enum value: its type name and variant names.
pub struct Enum {
    pub name: String,
    pub opts: Vec<String>,
}

/// What a callable method does.  The set is closed so that every call's
/// effect is a checked part of the library.
pub enum MethodKind {
    /// Compare the leaves at two child paths of the receiver; the result
    /// is a boolean value.  Requires only read access.
    CheckEqual(Vec<usize>, Vec<usize>),
    /// Add the one unsigned argument into the leaf at a child path of the
    /// receiver.  Requires write access.
    AddToField(Vec<usize>),
}

/// A callable method attached to a struct value.
pub struct Function {
    pub name: String,
    pub args: Vec<String>,
    pub kind: MethodKind,
}

/// How a lock-like wrapper behaves on contention.
pub enum LockKind {
    /// A mutex: any concurrent holder blocks both read and write access.
    Mutex,
    /// A cell with borrow tracking: shared borrows block only writes.
    Cell,
}

/// The wrapper's current state, as seen by this query.
pub enum LockState {
    Free,
    Shared,
    Exclusive,
}

/// A domain value.
pub enum Value {
    U8(u8),
    U16(u16),
    U32(u32),
    U64(u64),
    Usize(usize),
    I8(i8),
    I16(i16),
    I32(i32),
    I64(i64),
    Isize(isize),
    Bool(bool),
    Str(String),
    Ch(char),
    /// A unit struct, shown by its type name.
    Unit(String),
    /// A struct with named fields and optional callable methods.
    StructV(StructValue),
    /// A tuple or tuple struct.
    TupleV(TupleValue),
    /// An enum: the variant is itself a struct-like value.
    EnumV(EnumValue),
    /// A map from primitive keys to values.
    MapV(MapValue),
    /// A set of values.
    SetV(SetValue),
    /// A sequence of values.
    ListV(ListValue),
    /// A value behind a lock-like wrapper.
    LockV(LockValue),
    /// A value reachable only by asking another context for it.
    Indirect(Box<Value>),
    /// A reference to a shared cell of the graph.
    Ref(usize),
}

pub struct StructValue {
    pub name: String,
    pub field_names: Vec<String>,
    pub fields: Vec<Value>,
    pub functions: Vec<Function>,
}

pub struct TupleValue {
    pub name: String,
    pub items: Vec<Value>,
}

pub struct EnumValue {
    pub enum_name: String,
    pub variant: Box<Value>,
}

pub struct MapValue {
    pub name: String,
    pub keys: Vec<Value>,
    pub vals: Vec<Value>,
}

pub struct SetValue {
    pub name: String,
    pub members: Vec<Value>,
}

pub struct ListValue {
    pub name: String,
    pub items: Vec<Value>,
}

pub struct LockValue {
    pub kind: LockKind,
    pub state: LockState,
    pub inner: Box<Value>,
}

/// One shared cell: the value it owns and whether other live owners alias
/// it (in which case no exclusive access can be obtained).
pub struct Cell {
    pub value: Value,
    pub aliased: bool,
}

/// The arena of shared cells that `Value::Ref` indices point into.
pub struct Graph {
    pub cells: Vec<Cell>,
}

/// Whether a value is a primitive leaf, assignable and usable as a map
/// key.
pub open spec fn is_prim(v: Value) -> bool {
    match v {
        Value::U8(_) => true,
        Value::U16(_) => true,
        Value::U32(_) => true,
        Value::U64(_) => true,
        Value::Usize(_) => true,
        Value::I8(_) => true,
        Value::I16(_) => true,
        Value::I32(_) => true,
        Value::I64(_) => true,
        Value::Isize(_) => true,
        Value::Bool(_) => true,
        Value::Str(_) => true,
        Value::Ch(_) => true,
        _ => false,
    }
}

impl Value {
    /// Whether this value is a primitive leaf.
    pub fn prim(&self) -> (r: bool)
        ensures
            r == is_prim(*self),
    {
        match self {
            Value::U8(_) => true,
            Value::U16(_) => true,
            Value::U32(_) => true,
            Value::U64(_) => true,
            Value::Usize(_) => true,
            Value::I8(_) => true,
            Value::I16(_) => true,
            Value::I32(_) => true,
            Value::I64(_) => true,
            Value::Isize(_) => true,
            Value::Bool(_) => true,
            Value::Str(_) => true,
            Value::Ch(_) => true,
            _ => false,
        }
    }
}

/// The canonical decimal form of a nonnegative number.
pub open spec fn spec_udec(n: nat) -> Seq<char>
    decreases n,
{
    if n < 10 {
        seq![spec_digit_char(n)]
    } else {
        spec_udec(n / 10).push(spec_digit_char(n % 10))
    }
}

/// The character of one decimal digit.
pub open spec fn spec_digit_char(d: nat) -> char {
    ((48 + d) as u8) as char
}

/// The canonical decimal form of a signed number.
pub open spec fn spec_idec(n: int) -> Seq<char> {
    if n < 0 {
        seq!['-'] + spec_udec((-n) as nat)
    } else {
        spec_udec(n as nat)
    }
}

/// Render a nonnegative number in decimal.
pub fn u64_to_string(n: u64) -> (r: String)
    ensures
        r@ == spec_udec(n as nat),
    decreases n,
{
    if n < 10 {
        let mut s = String::new();
        let c = (48 + (n as u8)) as char;
        push_char(&mut s, c);
        proof {
            assert(s@ =~= spec_udec(n as nat));
        }
        s
    } else {
        let mut s = u64_to_string(n / 10);
        let d = (n % 10) as u8;
        let c = (48 + d) as char;
        push_char(&mut s, c);
        s
    }
}

/// Render a signed number in decimal.
pub fn i64_to_string(n: i64) -> (r: String)
    ensures
        r@ == spec_idec(n as int),
{
    if n >= 0 {
        u64_to_string(n as u64)
    } else {
        let m: u64 = if n == i64::MIN {
            9223372036854775808u64
        } else {
            (-n) as u64
        };
        let mut s = String::new();
        push_char(&mut s, '-');
        let digits = u64_to_string(m);
        s.append(digits.as_str());
        proof {
            assert(s@ =~= seq!['-'] + spec_udec(m as nat));
        }
        s
    }
}

/// The text a primitive leaf renders as: numbers in canonical decimal,
/// booleans as their two identifiers, chars and strings in quoted form.
pub open spec fn leaf_text(v: Value) -> Seq<char> {
    match v {
        Value::U8(n) => spec_udec(n as nat),
        Value::U16(n) => spec_udec(n as nat),
        Value::U32(n) => spec_udec(n as nat),
        Value::U64(n) => spec_udec(n as nat),
        Value::Usize(n) => spec_udec(n as nat),
        Value::I8(n) => spec_idec(n as int),
        Value::I16(n) => spec_idec(n as int),
        Value::I32(n) => spec_idec(n as int),
        Value::I64(n) => spec_idec(n as int),
        Value::Isize(n) => spec_idec(n as int),
        Value::Bool(b) => if b {
            "true"@
        } else {
            "false"@
        },
        Value::Str(s) => seq!['"'] + spec_quote(s@) + seq!['"'],
        Value::Ch(c) => seq!['\''] + spec_quote(seq![c]) + seq!['\''],
        _ => Seq::empty(),
    }
}

/// The characters of a literal with quotes and backslashes escaped.
pub open spec fn spec_quote(s: Seq<char>) -> Seq<char>
    decreases s.len(),
{
    if s.len() == 0 {
        Seq::empty()
    } else {
        spec_quote(s.drop_last()) + spec_escape_char(s.last())
    }
}

/// How one character appears inside a quoted literal.
pub open spec fn spec_escape_char(c: char) -> Seq<char> {
    if c == '"' {
        seq!['\\', '"']
    } else if c == '\'' {
        seq!['\\', '\'']
    } else if c == '\\' {
        seq!['\\', '\\']
    } else if c == '\n' {
        seq!['\\', 'n']
    } else if c == '\r' {
        seq!['\\', 'r']
    } else if c == '\t' {
        seq!['\\', 't']
    } else {
        seq![c]
    }
}

/// Escape a literal's characters for quoted display.
pub fn quote_chars(s: &str) -> (r: String)
    ensures
        r@ == spec_quote(s@),
{
    let chars = crate::tokens::str_to_chars(s);
    let mut out = String::new();
    let mut i: usize = 0;
    proof {
        assert(s@.take(0) =~= Seq::<char>::empty());
    }
    while i < chars.len()
        invariant
            i <= chars@.len(),
            chars@ == s@,
            out@ == spec_quote(s@.take(i as int)),
        decreases chars@.len() - i,
    {
        let c = chars[i];
        if c == '"' {
            push_char(&mut out, '\\');
            push_char(&mut out, '"');
        } else if c == '\'' {
            push_char(&mut out, '\\');
            push_char(&mut out, '\'');
        } else if c == '\\' {
            push_char(&mut out, '\\');
            push_char(&mut out, '\\');
        } else if c == '\n' {
            push_char(&mut out, '\\');
            push_char(&mut out, 'n');
        } else if c == '\r' {
            push_char(&mut out, '\\');
            push_char(&mut out, 'r');
        } else if c == '\t' {
            push_char(&mut out, '\\');
            push_char(&mut out, 't');
        } else {
            push_char(&mut out, c);
        }
        proof {
            assert(s@.take(i + 1).drop_last() =~= s@.take(i as int));
            assert(s@.take(i + 1).last() == s@[i as int]);
            assert(out@ =~= spec_quote(s@.take(i + 1)));
        }
        i = i + 1;
    }
    proof {
        assert(s@.take(i as int) =~= s@);
    }
    out
}

/// Render a primitive leaf into its display text.
pub fn render_leaf(v: &Value) -> (r: String)
    requires
        is_prim(*v),
    ensures
        r@ == leaf_text(*v),
{
    match v {
        Value::U8(n) => u64_to_string(*n as u64),
        Value::U16(n) => u64_to_string(*n as u64),
        Value::U32(n) => u64_to_string(*n as u64),
        Value::U64(n) => u64_to_string(*n),
        Value::Usize(n) => u64_to_string(*n as u64),
        Value::I8(n) => i64_to_string(*n as i64),
        Value::I16(n) => i64_to_string(*n as i64),
        Value::I32(n) => i64_to_string(*n as i64),
        Value::I64(n) => i64_to_string(*n),
        Value::Isize(n) => i64_to_string(*n as i64),
        Value::Bool(b) => if *b {
            let s: String = "true".to_owned();
            s
        } else {
            let s: String = "false".to_owned();
            s
        },
        Value::Str(s) => {
            let mut out = String::new();
            push_char(&mut out, '"');
            let q = quote_chars(s.as_str());
            out.append(q.as_str());
            push_char(&mut out, '"');
            proof {
                assert(out@ =~= leaf_text(*v));
            }
            out
        },
        Value::Ch(c) => {
            let mut out = String::new();
            push_char(&mut out, '\'');
            let mut one = String::new();
            push_char(&mut one, *c);
            let q = quote_chars(one.as_str());
            out.append(q.as_str());
            push_char(&mut out, '\'');
            proof {
                assert(one@ =~= seq![*c]);
                assert(out@ =~= leaf_text(*v));
            }
            out
        },
        _ => {
            proof {
                assert(false);
            }
            String::new()
        },
    }
}

/// Whether a rendered node is the leaf a primitive value displays as.
pub open spec fn is_leaf_of(n: crate::node_tree::NodeTree, v: Value) -> bool {
    n.info matches crate::node_tree::NodeInfo::Leaf(s) && s@ == leaf_text(v)
}

/// Whether a rendered node is the key-value entry of a map pair: a
/// colon-separated tuple whose sides show the primitive key and value.
pub open spec fn is_entry_of(n: crate::node_tree::NodeTree, k: Value, v: Value) -> bool {
    match n.info {
        crate::node_tree::NodeInfo::Tuple(a, sep, b) => {
            &&& sep@ == ":"@
            &&& (is_prim(k) ==> is_leaf_of(*a, k))
            &&& (is_prim(v) ==> is_leaf_of(*b, v))
        },
        _ => false,
    }
}

/// Whether a rendered node is the entry of a struct field: the field's
/// name, a colon, and the field's value, shown as a leaf when primitive.
pub open spec fn is_field_of(n: crate::node_tree::NodeTree, name: Seq<char>, v: Value) -> bool {
    match n.info {
        crate::node_tree::NodeInfo::Tuple(a, sep, b) => {
            &&& sep@ == ":"@
            &&& (a.info matches crate::node_tree::NodeInfo::Leaf(s) && s@ == name)
            &&& (is_prim(v) ==> is_leaf_of(*b, v))
        },
        _ => false,
    }
}

/// Whether two primitive leaves hold the same value, comparing payloads.
pub fn prim_eq(a: &Value, b: &Value) -> (r: bool)
    requires
        is_prim(*a),
    ensures
        r ==> is_prim(*b) && leaf_text(*a) == leaf_text(*b),
        r == spec_prim_eq(*a, *b),
{
    match (a, b) {
        (Value::U8(x), Value::U8(y)) => x == y,
        (Value::U16(x), Value::U16(y)) => x == y,
        (Value::U32(x), Value::U32(y)) => x == y,
        (Value::U64(x), Value::U64(y)) => x == y,
        (Value::Usize(x), Value::Usize(y)) => x == y,
        (Value::I8(x), Value::I8(y)) => x == y,
        (Value::I16(x), Value::I16(y)) => x == y,
        (Value::I32(x), Value::I32(y)) => x == y,
        (Value::I64(x), Value::I64(y)) => x == y,
        (Value::Isize(x), Value::Isize(y)) => x == y,
        (Value::Bool(x), Value::Bool(y)) => x == y,
        (Value::Str(x), Value::Str(y)) => {
            let xa = crate::tokens::str_to_chars(x.as_str());
            let ya = crate::tokens::str_to_chars(y.as_str());
            crate::tokens::chars_eq(&xa, &ya)
        },
        (Value::Ch(x), Value::Ch(y)) => x == y,
        _ => false,
    }
}

/// Two primitive leaves carry the same kind and payload.
pub open spec fn spec_prim_eq(a: Value, b: Value) -> bool {
    match (a, b) {
        (Value::U8(x), Value::U8(y)) => x == y,
        (Value::U16(x), Value::U16(y)) => x == y,
        (Value::U32(x), Value::U32(y)) => x == y,
        (Value::U64(x), Value::U64(y)) => x == y,
        (Value::Usize(x), Value::Usize(y)) => x == y,
        (Value::I8(x), Value::I8(y)) => x == y,
        (Value::I16(x), Value::I16(y)) => x == y,
        (Value::I32(x), Value::I32(y)) => x == y,
        (Value::I64(x), Value::I64(y)) => x == y,
        (Value::Isize(x), Value::Isize(y)) => x == y,
        (Value::Bool(x), Value::Bool(y)) => x == y,
        (Value::Str(x), Value::Str(y)) => x@ == y@,
        (Value::Ch(x), Value::Ch(y)) => x == y,
        _ => false,
    }
}

/// What `deser_assign` writes into a primitive destination when the
/// token list at `pos` carries an acceptable literal of the
/// destination's width.
pub open spec fn spec_assign_result_tok(
    dest: Value,
    tv: crate::tokens::TokenView,
) -> Result<Value, DeserError> {
    match dest {
        Value::U8(_) => match crate::deser::spec_deser_unsigned_tok(tv, 0xff) {
            Ok(n) => Ok(Value::U8(n as u8)),
            Err(e) => Err(e),
        },
        Value::U16(_) => match crate::deser::spec_deser_unsigned_tok(tv, 0xffff) {
            Ok(n) => Ok(Value::U16(n as u16)),
            Err(e) => Err(e),
        },
        Value::U32(_) => match crate::deser::spec_deser_unsigned_tok(tv, 0xffff_ffff) {
            Ok(n) => Ok(Value::U32(n as u32)),
            Err(e) => Err(e),
        },
        Value::U64(_) => match crate::deser::spec_deser_unsigned_tok(tv, 0xffff_ffff_ffff_ffff) {
            Ok(n) => Ok(Value::U64(n)),
            Err(e) => Err(e),
        },
        Value::Usize(_) => match crate::deser::spec_deser_unsigned_tok(tv, usize::MAX as u64) {
            Ok(n) => Ok(Value::Usize(n as usize)),
            Err(e) => Err(e),
        },
        Value::I8(_) => match crate::deser::spec_deser_signed_tok(tv, i8::MIN as i64, i8::MAX as i64) {
            Ok(n) => Ok(Value::I8(n as i8)),
            Err(e) => Err(e),
        },
        Value::I16(_) => match crate::deser::spec_deser_signed_tok(
            tv,
            i16::MIN as i64,
            i16::MAX as i64,
        ) {
            Ok(n) => Ok(Value::I16(n as i16)),
            Err(e) => Err(e),
        },
        Value::I32(_) => match crate::deser::spec_deser_signed_tok(
            tv,
            i32::MIN as i64,
            i32::MAX as i64,
        ) {
            Ok(n) => Ok(Value::I32(n as i32)),
            Err(e) => Err(e),
        },
        Value::I64(_) => match crate::deser::spec_deser_signed_tok(tv, i64::MIN, i64::MAX) {
            Ok(n) => Ok(Value::I64(n)),
            Err(e) => Err(e),
        },
        Value::Isize(_) => match crate::deser::spec_deser_signed_tok(
            tv,
            isize::MIN as i64,
            isize::MAX as i64,
        ) {
            Ok(n) => Ok(Value::Isize(n as isize)),
            Err(e) => Err(e),
        },
        _ => Err(DeserError::Unbuildable),
    }
}

/// The same statement over a token list at a position.
pub open spec fn spec_assign_result_at(
    dest: Value,
    toks: Seq<crate::tokens::Token>,
    pos: int,
) -> Result<Value, DeserError> {
    if !(0 <= pos < toks.len()) {
        Err(DeserError::EndOfTokenList)
    } else {
        spec_assign_result_tok(dest, toks[pos]@)
    }
}

/// The same statement over a tracker's cursor.
pub open spec fn spec_assign_result(dest: Value, t: Tracker) -> Result<Value, DeserError> {
    spec_assign_result_at(dest, t.tokenvec.toks(), t.tokenvec.spec_pos() as int)
}

/// Whether reading a literal of the destination's own type from the
/// token list at `pos` succeeds, and with which error it fails: `None`
/// stands for success.
pub open spec fn spec_assign_outcome_tok(
    dest: Value,
    tv: crate::tokens::TokenView,
) -> Option<DeserError> {
    match dest {
        Value::Bool(_) => if tv.kind is Ident && (tv.text == "true"@ || tv.text == "false"@) {
            None
        } else {
            Some(DeserError::UnexpectedToken)
        },
        Value::Str(_) => if tv.kind is Str {
            None
        } else {
            Some(DeserError::UnexpectedToken)
        },
        Value::Ch(_) => if tv.kind is Char {
            None
        } else {
            Some(DeserError::UnexpectedToken)
        },
        _ => match spec_assign_result_tok(dest, tv) {
            Ok(_) => None,
            Err(e) => Some(e),
        },
    }
}

/// The same statement over a token list at a position.
pub open spec fn spec_assign_outcome_at(
    dest: Value,
    toks: Seq<crate::tokens::Token>,
    pos: int,
) -> Option<DeserError> {
    if !(0 <= pos < toks.len()) {
        Some(DeserError::EndOfTokenList)
    } else {
        spec_assign_outcome_tok(dest, toks[pos]@)
    }
}

/// The same statement over a tracker's cursor.
pub open spec fn spec_assign_outcome(dest: Value, t: Tracker) -> Option<DeserError> {
    spec_assign_outcome_at(dest, t.tokenvec.toks(), t.tokenvec.spec_pos() as int)
}

/// Read a literal of the destination's own type and, outside probing,
/// overwrite the destination with it.  Probing parses and range-checks
/// but never writes.  Non-primitive destinations cannot be rebuilt from a
/// literal and report `Unbuildable`.
pub fn deser_assign(dest: &mut Value, tracker: &mut Tracker, probe_only: bool) -> (r: Result<
    (),
    AssignError,
>)
    requires
        old(tracker).wf(),
        old(tracker).spec_steps() < usize::MAX,
    ensures
        final(tracker).wf(),
        final(tracker).tokenvec.toks() == old(tracker).tokenvec.toks(),
        final(tracker).tokenvec.spec_pos() >= old(tracker).tokenvec.spec_pos(),
        probe_only ==> *final(dest) == *old(dest),
        is_prim(*old(dest)) ==> (r is Ok <==> spec_assign_outcome(*old(dest), *old(tracker))
            is None),
        (is_prim(*old(dest)) && r is Ok) ==> final(tracker).tokenvec.spec_pos() == old(
            tracker,
        ).tokenvec.spec_pos() + 1,
        is_prim(*old(dest)) ==> (r matches Err(AssignError::Deser(e)) ==> Some(e)
            == spec_assign_outcome(*old(dest), *old(tracker))),
        match r {
            Ok(_) => {
                &&& is_prim(*old(dest))
                &&& !probe_only ==> (spec_assign_result(*old(dest), *old(tracker)) matches Ok(v)
                    ==> *final(dest) == v)
                &&& (!probe_only && *old(dest) is Bool) ==> (*final(dest) matches Value::Bool(b)
                    && crate::deser::has_top(*old(tracker)) && old(
                    tracker,
                ).tokenvec.toks()[old(tracker).tokenvec.spec_pos() as int]@.text == (if b {
                    "true"@
                } else {
                    "false"@
                }))
                &&& (!probe_only && *old(dest) is Str) ==> (*final(dest) matches Value::Str(s)
                    && (crate::deser::top_kind_view(*old(tracker))
                    matches crate::tokens::TokenKindView::Str(c) && s@ == c))
                &&& (!probe_only && *old(dest) is Ch) ==> (*final(dest) matches Value::Ch(ch)
                    && crate::deser::top_kind_view(*old(tracker))
                    == crate::tokens::TokenKindView::Char(ch))
            },
            Err(e) => {
                &&& *final(dest) == *old(dest)
                &&& (e is Unbuildable <==> !is_prim(*old(dest)))
                &&& !(e is Immutable)
            },
        },
{
    let is_p = dest.prim();
    if !is_p {
        return Err(AssignError::Unbuildable);
    }
    let parsed: Result<Value, DeserError> = match &*dest {
        Value::U8(_) => match crate::deser::deser_unsigned(tracker, 0xff) {
            Ok(n) => Ok(Value::U8(n as u8)),
            Err(e) => Err(e),
        },
        Value::U16(_) => match crate::deser::deser_unsigned(tracker, 0xffff) {
            Ok(n) => Ok(Value::U16(n as u16)),
            Err(e) => Err(e),
        },
        Value::U32(_) => match crate::deser::deser_unsigned(tracker, 0xffff_ffff) {
            Ok(n) => Ok(Value::U32(n as u32)),
            Err(e) => Err(e),
        },
        Value::U64(_) => match crate::deser::deser_unsigned(tracker, 0xffff_ffff_ffff_ffff) {
            Ok(n) => Ok(Value::U64(n)),
            Err(e) => Err(e),
        },
        Value::Usize(_) => match crate::deser::deser_unsigned(tracker, usize::MAX as u64) {
            Ok(n) => Ok(Value::Usize(n as usize)),
            Err(e) => Err(e),
        },
        Value::I8(_) => match crate::deser::deser_signed(tracker, i8::MIN as i64, i8::MAX as i64) {
            Ok(n) => Ok(Value::I8(n as i8)),
            Err(e) => Err(e),
        },
        Value::I16(_) => match crate::deser::deser_signed(
            tracker,
            i16::MIN as i64,
            i16::MAX as i64,
        ) {
            Ok(n) => Ok(Value::I16(n as i16)),
            Err(e) => Err(e),
        },
        Value::I32(_) => match crate::deser::deser_signed(
            tracker,
            i32::MIN as i64,
            i32::MAX as i64,
        ) {
            Ok(n) => Ok(Value::I32(n as i32)),
            Err(e) => Err(e),
        },
        Value::I64(_) => match crate::deser::deser_signed(tracker, i64::MIN, i64::MAX) {
            Ok(n) => Ok(Value::I64(n)),
            Err(e) => Err(e),
        },
        Value::Isize(_) => match crate::deser::deser_signed(
            tracker,
            isize::MIN as i64,
            isize::MAX as i64,
        ) {
            Ok(n) => Ok(Value::Isize(n as isize)),
            Err(e) => Err(e),
        },
        Value::Bool(_) => match crate::deser::deser_bool(tracker) {
            Ok(b) => Ok(Value::Bool(b)),
            Err(e) => Err(e),
        },
        Value::Str(_) => match crate::deser::deser_string(tracker) {
            Ok(s) => Ok(Value::Str(s)),
            Err(e) => Err(e),
        },
        Value::Ch(_) => match crate::deser::deser_char(tracker) {
            Ok(c) => Ok(Value::Ch(c)),
            Err(e) => Err(e),
        },
        _ => Err(DeserError::Unbuildable),
    };
    match parsed {
        Ok(v) => {
            if !probe_only {
                *dest = v;
            }
            Ok(())
        },
        Err(e) => Err(AssignError::Deser(e)),
    }
}

impl StructValue {
    /// The descriptor of this struct: its name and field names.
    pub fn get_desc(&self) -> (r: Struct)
        ensures
            r.name@ == self.name@,
            r.kind matches StructKind::Fields(names) && names@.len() == self.field_names@.len(),
    {
        let mut names: Vec<String> = Vec::new();
        let mut i: usize = 0;
        while i < self.field_names.len()
            invariant
                i <= self.field_names@.len(),
                names@.len() == i,
            decreases self.field_names@.len() - i,
        {
            names.push(self.field_names[i].clone());
            i = i + 1;
        }
        Struct { name: self.name.clone(), kind: StructKind::Fields(names) }
    }
}


/// The child value selected by one index: a struct or tuple field, a map
/// entry's value, a set or list member, an enum's variant, a lock's or an
/// indirection's inner value.
pub open spec fn spec_child_of(v: Value, i: usize) -> Option<Value> {
    match v {
        Value::StructV(s) => if i < s.fields@.len() {
            Some(s.fields@[i as int])
        } else {
            None
        },
        Value::TupleV(t) => if i < t.items@.len() {
            Some(t.items@[i as int])
        } else {
            None
        },
        Value::EnumV(e) => if i == 0 {
            Some(*e.variant)
        } else {
            None
        },
        Value::MapV(m) => if i < m.vals@.len() {
            Some(m.vals@[i as int])
        } else {
            None
        },
        Value::SetV(st) => if i < st.members@.len() {
            Some(st.members@[i as int])
        } else {
            None
        },
        Value::ListV(l) => if i < l.items@.len() {
            Some(l.items@[i as int])
        } else {
            None
        },
        Value::LockV(l) => if i == 0 {
            Some(*l.inner)
        } else {
            None
        },
        Value::Indirect(inner) => if i == 0 {
            Some(*inner)
        } else {
            None
        },
        _ => None,
    }
}

/// The value at a child-index path, if every step exists.
pub open spec fn spec_value_at(v: Value, steps: Seq<usize>) -> Option<Value>
    decreases steps.len(),
{
    if steps.len() == 0 {
        Some(v)
    } else {
        match spec_child_of(v, steps[0]) {
            Some(c) => spec_value_at(c, steps.skip(1)),
            None => None,
        }
    }
}

/// Walk down a child-index path from `from`, returning the value reached.
pub fn value_at_path<'a>(v: &'a Value, steps: &Vec<usize>, from: usize) -> (r: Option<&'a Value>)
    requires
        from <= steps@.len(),
    ensures
        match r {
            Some(c) => spec_value_at(*v, steps@.skip(from as int)) == Some(*c),
            None => spec_value_at(*v, steps@.skip(from as int)) is None,
        },
    decreases steps@.len() - from,
{
    if from == steps.len() {
        proof {
            assert(steps@.skip(from as int).len() == 0);
        }
        return Some(v);
    }
    let i = steps[from];
    proof {
        assert(steps@.skip(from as int)[0] == steps@[from as int]);
        assert(steps@.skip(from as int).skip(1) =~= steps@.skip(from + 1));
    }
    let child: &Value = match v {
        Value::StructV(s) => {
            if i < s.fields.len() {
                &s.fields[i]
            } else {
                return None;
            }
        },
        Value::TupleV(t) => {
            if i < t.items.len() {
                &t.items[i]
            } else {
                return None;
            }
        },
        Value::EnumV(e) => {
            if i == 0 {
                &e.variant
            } else {
                return None;
            }
        },
        Value::MapV(m) => {
            if i < m.vals.len() {
                &m.vals[i]
            } else {
                return None;
            }
        },
        Value::SetV(st) => {
            if i < st.members.len() {
                &st.members[i]
            } else {
                return None;
            }
        },
        Value::ListV(l) => {
            if i < l.items.len() {
                &l.items[i]
            } else {
                return None;
            }
        },
        Value::LockV(l) => {
            if i == 0 {
                &l.inner
            } else {
                return None;
            }
        },
        Value::Indirect(inner) => {
            if i == 0 {
                inner
            } else {
                return None;
            }
        },
        _ => {
            return None;
        },
    };
    value_at_path(child, steps, from + 1)
}

/// The value one step down a single-index path is the child itself.
pub proof fn lemma_value_at_one(v: Value, j: usize)
    ensures
        spec_value_at(v, seq![j]) == spec_child_of(v, j),
{
    assert(seq![j][0] == j);
    assert(seq![j].skip(1) =~= Seq::<usize>::empty());
    match spec_child_of(v, j) {
        Some(c) => {
            assert(spec_value_at(c, seq![j].skip(1)) == Some(c));
        },
        None => {},
    }
}

/// A copy of a primitive leaf.
pub fn clone_prim(v: &Value) -> (r: Option<Value>)
    ensures
        match r {
            Some(c) => is_prim(*v) && c == *v,
            None => !is_prim(*v),
        },
{
    match v {
        Value::U8(n) => Some(Value::U8(*n)),
        Value::U16(n) => Some(Value::U16(*n)),
        Value::U32(n) => Some(Value::U32(*n)),
        Value::U64(n) => Some(Value::U64(*n)),
        Value::Usize(n) => Some(Value::Usize(*n)),
        Value::I8(n) => Some(Value::I8(*n)),
        Value::I16(n) => Some(Value::I16(*n)),
        Value::I32(n) => Some(Value::I32(*n)),
        Value::I64(n) => Some(Value::I64(*n)),
        Value::Isize(n) => Some(Value::Isize(*n)),
        Value::Bool(b) => Some(Value::Bool(*b)),
        Value::Str(s) => {
            let c = s.clone();
            proof {
                assert(c == *s);
            }
            Some(Value::Str(c))
        },
        Value::Ch(c) => Some(Value::Ch(*c)),
        _ => None,
    }
}

/// What `apply_leaf_op` leaves in a leaf: an overwrite stores the new
/// value; an addition wraps within the leaf's own width.
pub open spec fn spec_leaf_after(leaf: Value, set_to: Option<Value>, delta: u64) -> Option<
    Value,
> {
    match set_to {
        Some(w) => Some(w),
        None => match leaf {
            Value::U8(n) => Some(Value::U8(((n + delta) % 0x100) as u8)),
            Value::U16(n) => Some(Value::U16(((n + delta) % 0x1_0000) as u16)),
            Value::U32(n) => Some(Value::U32(((n + delta) % 0x1_0000_0000) as u32)),
            Value::U64(n) => Some(Value::U64(((n + delta) % 0x1_0000_0000_0000_0000) as u64)),
            _ => None,
        },
    }
}

/// Whether the leaf operation applies at the end of the path: an
/// overwrite needs the path to reach a value; an addition needs it to
/// reach an unsigned leaf.
pub open spec fn leaf_op_applies(v: Value, steps: Seq<usize>, set_to: Option<Value>) -> bool {
    match spec_value_at(v, steps) {
        Some(leaf) => match set_to {
            Some(_) => true,
            None => leaf is U8 || leaf is U16 || leaf is U32 || leaf is U64,
        },
        None => false,
    }
}

/// Replace the leaf at the end of a child-index path: either store a
/// parsed value of the leaf's kind, or add into an unsigned leaf with
/// wrap-around.
pub fn set_leaf_at(v: &mut Value, steps: &Vec<usize>, from: usize, set_to: Option<Value>, delta: u64)
    requires
        from <= steps@.len(),
        leaf_op_applies(*old(v), steps@.skip(from as int), set_to),
    ensures
        spec_value_at(*final(v), steps@.skip(from as int)) == spec_leaf_after(
            spec_value_at(*old(v), steps@.skip(from as int))->0,
            set_to,
            delta,
        ),
    decreases steps@.len() - from,
{
    if from == steps.len() {
        proof {
            assert(steps@.skip(from as int).len() == 0);
        }
        match set_to {
            Some(w) => {
                *v = w;
            },
            None => {
                let mut taken = Value::Unit(String::new());
                core::mem::swap(v, &mut taken);
                match taken {
                    Value::U8(n) => {
                        *v = Value::U8((((n as u64) + (delta % 0x100)) % 0x100) as u8);
                        proof {
                            assert((n as u64 + delta % 0x100) % 0x100 == (n + delta)
                                % 0x100) by (nonlinear_arith);
                        }
                    },
                    Value::U16(n) => {
                        *v = Value::U16((((n as u64) + (delta % 0x1_0000)) % 0x1_0000) as u16);
                        proof {
                            assert((n as u64 + delta % 0x1_0000) % 0x1_0000 == (n + delta)
                                % 0x1_0000) by (nonlinear_arith);
                        }
                    },
                    Value::U32(n) => {
                        *v = Value::U32(
                            (((n as u64) + (delta % 0x1_0000_0000)) % 0x1_0000_0000) as u32,
                        );
                        proof {
                            assert((n as u64 + delta % 0x1_0000_0000) % 0x1_0000_0000 == (n
                                + delta) % 0x1_0000_0000) by (nonlinear_arith);
                        }
                    },
                    Value::U64(n) => {
                        let sum = if delta <= 0xffff_ffff_ffff_ffffu64 - n {
                            n + delta
                        } else {
                            let gap = 0xffff_ffff_ffff_ffffu64 - n;
                            delta - gap - 1
                        };
                        *v = Value::U64(sum);
                        proof {
                            assert(sum == (n + delta) % 0x1_0000_0000_0000_0000)
                                by (nonlinear_arith)
                                requires
                                    sum == if delta <= 0xffff_ffff_ffff_ffffu64 - n {
                                        (n + delta) as u64
                                    } else {
                                        (delta - (0xffff_ffff_ffff_ffffu64 - n) - 1) as u64
                                    },
                                    n <= 0xffff_ffff_ffff_ffffu64,
                                    delta <= 0xffff_ffff_ffff_ffffu64,
                            ;
                        }
                    },
                    _ => {
                        proof {
                            assert(false);
                        }
                    },
                }
            },
        }
        return ;
    }
    let i = steps[from];
    let ghost gpath = steps@.skip(from as int);
    proof {
        assert(gpath[0] == steps@[from as int]);
        assert(gpath.skip(1) =~= steps@.skip(from + 1));
    }
    let mut taken = Value::Unit(String::new());
    core::mem::swap(v, &mut taken);
    match taken {
        Value::StructV(mut s) => {
            proof {
                assert(i < s.fields@.len());
            }
            let mut child = s.fields.remove(i);
            set_leaf_at(&mut child, steps, from + 1, set_to, delta);
            let ghost child_after = child;
            s.fields.insert(i, child);
            proof {
                assert(s.fields@[i as int] == child_after);
            }
            *v = Value::StructV(s);
        },
        Value::TupleV(mut t) => {
            proof {
                assert(i < t.items@.len());
            }
            let mut child = t.items.remove(i);
            set_leaf_at(&mut child, steps, from + 1, set_to, delta);
            let ghost child_after = child;
            t.items.insert(i, child);
            proof {
                assert(t.items@[i as int] == child_after);
            }
            *v = Value::TupleV(t);
        },
        Value::EnumV(e) => {
            proof {
                assert(i == 0);
            }
            let EnumValue { enum_name, variant } = e;
            let mut child = *variant;
            set_leaf_at(&mut child, steps, from + 1, set_to, delta);
            *v = Value::EnumV(EnumValue { enum_name, variant: Box::new(child) });
        },
        Value::MapV(mut m) => {
            proof {
                assert(i < m.vals@.len());
            }
            let mut child = m.vals.remove(i);
            set_leaf_at(&mut child, steps, from + 1, set_to, delta);
            let ghost child_after = child;
            m.vals.insert(i, child);
            proof {
                assert(m.vals@[i as int] == child_after);
            }
            *v = Value::MapV(m);
        },
        Value::SetV(mut st) => {
            proof {
                assert(i < st.members@.len());
            }
            let mut child = st.members.remove(i);
            set_leaf_at(&mut child, steps, from + 1, set_to, delta);
            let ghost child_after = child;
            st.members.insert(i, child);
            proof {
                assert(st.members@[i as int] == child_after);
            }
            *v = Value::SetV(st);
        },
        Value::ListV(mut l) => {
            proof {
                assert(i < l.items@.len());
            }
            let mut child = l.items.remove(i);
            set_leaf_at(&mut child, steps, from + 1, set_to, delta);
            let ghost child_after = child;
            l.items.insert(i, child);
            proof {
                assert(l.items@[i as int] == child_after);
            }
            *v = Value::ListV(l);
        },
        Value::LockV(l) => {
            proof {
                assert(i == 0);
            }
            let LockValue { kind, state, inner } = l;
            let mut child = *inner;
            set_leaf_at(&mut child, steps, from + 1, set_to, delta);
            *v = Value::LockV(LockValue { kind, state, inner: Box::new(child) });
        },
        Value::Indirect(inner) => {
            proof {
                assert(i == 0);
            }
            let mut child = *inner;
            set_leaf_at(&mut child, steps, from + 1, set_to, delta);
            *v = Value::Indirect(Box::new(child));
        },
        _ => {
            proof {
                assert(false);
            }
        },
    }
}


/// The round trip of assignment, at the model level: when the token
/// stream carries an in-range nonnegative literal and the destination is
/// an unsigned leaf of sufficient width, the assignment parses to exactly
/// the literal's value, and the leaf then renders as the literal's
/// canonical decimal form.  Together with `set_leaf_at`, whose contract
/// says the written leaf is what a later read of the same path returns,
/// this is the assign-then-read round trip.
pub proof fn lemma_assign_round_trip(dest: Value, t: Tracker, n: u64)
    requires
        crate::deser::has_top(t),
        crate::deser::top_kind_view(t) == crate::tokens::TokenKindView::NonNegativeDecimal(n),
        dest is U16 ==> n <= 0xffff,
        dest is U16 || dest is U64,
    ensures
        spec_assign_result(dest, t) matches Ok(v) && leaf_text(v) == spec_udec(n as nat),
{
    if dest is U16 {
        assert(crate::deser::spec_deser_unsigned(t, 0xffff) == Ok::<u64, DeserError>(n));
    } else {
        assert(crate::deser::spec_deser_unsigned(t, 0xffff_ffff_ffff_ffff) == Ok::<
            u64,
            DeserError,
        >(n));
    }
}

} // verus!
