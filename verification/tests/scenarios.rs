use interact::access::{Cell, ListValue, LockValue, MapValue};
use interact::node_tree::format_node;
use interact::{
    ClimbError, Graph, LockKind, LockState, Root, RootLocal, RootSend, StructValue, Value,
};

fn lock_root(state: LockState) -> Root {
    let mut send = RootSend::new();
    send.insert(
        "root",
        Value::StructV(StructValue {
            name: "Holder".to_owned(),
            field_names: vec!["locked_field".to_owned()],
            fields: vec![Value::LockV(LockValue {
                kind: LockKind::Mutex,
                state,
                inner: Box::new(Value::U32(7)),
            })],
            functions: vec![],
        }),
    );
    send.as_root()
}

fn map_root() -> Root {
    let mut send = RootSend::new();
    send.insert(
        "root",
        Value::StructV(StructValue {
            name: "Holder".to_owned(),
            field_names: vec!["m".to_owned()],
            fields: vec![Value::MapV(MapValue {
                name: "BTreeMap".to_owned(),
                keys: vec![Value::U64(3), Value::U64(7)],
                vals: vec![Value::U64(4), Value::U64(8)],
            })],
            functions: vec![],
        }),
    );
    send.as_root()
}

// Probing never mutates: a probe of a would-be assignment leaves the value
// as it was, and a later real evaluation behaves as if the probe never
// happened.
#[test]
fn probe_is_effect_free() {
    let mut send = RootSend::new();
    send.insert(
        "basic",
        Value::StructV(StructValue {
            name: "Basic".to_owned(),
            field_names: vec!["u_64".to_owned()],
            fields: vec![Value::U64(17)],
            functions: vec![],
        }),
    );
    let mut root = send.as_root();

    let (res, _) = root.probe("basic.u_64 = 999");
    assert!(res.is_ok());
    let (res, _) = root.access("basic.u_64");
    assert_eq!(format_node(&res.unwrap()), "17");

    // Probe then real evaluation equals real evaluation once.
    let (res, _) = root.probe("basic.u_64 = 999");
    assert!(res.is_ok());
    let (res, _) = root.access("basic.u_64 = 999");
    assert!(res.is_ok());
    let (res, _) = root.access("basic.u_64");
    assert_eq!(format_node(&res.unwrap()), "999");
}

// Round trips of assignment for each primitive kind: assigning an in-range
// literal and reading the field back renders the literal's canonical text.
#[test]
fn assign_round_trips() {
    let mut send = RootSend::new();
    send.insert(
        "v",
        Value::StructV(StructValue {
            name: "Prims".to_owned(),
            field_names: vec![
                "a".to_owned(),
                "b".to_owned(),
                "c".to_owned(),
                "d".to_owned(),
                "e".to_owned(),
            ],
            fields: vec![
                Value::U8(0),
                Value::I32(0),
                Value::Bool(false),
                Value::Ch('a'),
                Value::Str(String::new()),
            ],
            functions: vec![],
        }),
    );
    let mut root = send.as_root();

    assert!(root.access("v.a = 250").0.is_ok());
    assert_eq!(format_node(&root.access("v.a").0.unwrap()), "250");

    assert!(root.access("v.b = -5").0.is_ok());
    assert_eq!(format_node(&root.access("v.b").0.unwrap()), "-5");

    assert!(root.access("v.c = true").0.is_ok());
    assert_eq!(format_node(&root.access("v.c").0.unwrap()), "true");

    assert!(root.access("v.d = 'z'").0.is_ok());
    assert_eq!(format_node(&root.access("v.d").0.unwrap()), "'z'");

    assert!(root.access("v.e = \"hi\"").0.is_ok());
    assert_eq!(format_node(&root.access("v.e").0.unwrap()), "\"hi\"");

    // Out-of-range literals are rejected with the right error kind.
    let (res, _) = root.access("v.a = 256");
    assert!(matches!(
        res,
        Err(ClimbError::AssignError(interact::AssignError::Deser(
            interact::DeserError::NumberTooLarge
        )))
    ));
    let (res, _) = root.access("v.a = -1");
    assert!(matches!(
        res,
        Err(ClimbError::AssignError(interact::AssignError::Deser(
            interact::DeserError::NumberTooSmall
        )))
    ));
}

// A self-referential structure renders to a finite tree, and the second
// visit to the cyclic node is a repeated-marker, not a recursion.
#[test]
fn cycle_renders_as_repeated() {
    let mut local = RootLocal::new();
    // Cell 0 is a node whose `nest` points back to itself.
    local.graph = Graph {
        cells: vec![Cell {
            value: Value::StructV(StructValue {
                name: "Chain".to_owned(),
                field_names: vec!["value".to_owned(), "nest".to_owned()],
                fields: vec![Value::U32(1), Value::Ref(0)],
                functions: vec![],
            }),
            aliased: true,
        }],
    };
    local.insert(
        "rc_loops",
        Value::StructV(StructValue {
            name: "Loops".to_owned(),
            field_names: vec!["loop_chain".to_owned()],
            fields: vec![Value::Ref(0)],
            functions: vec![],
        }),
    );
    let mut root = Root { send: None, local: Some(local) };
    let (res, _) = root.access("rc_loops.loop_chain");
    let text = format_node(&res.unwrap());
    assert!(text.contains("<repeated>"));
    assert_eq!(text, "Chain { value : 1, nest : <repeated> }");
}

// A container wider than the render budget is truncated to at most the
// budget's worth of members plus exactly one limit marker.
#[test]
fn budget_truncates_wide_lists() {
    let mut items = Vec::new();
    let mut i = 0u32;
    // The query budget is 200 nodes; 300 members cannot all render.
    while i < 300 {
        items.push(Value::U32(i));
        i += 1;
    }
    let mut send = RootSend::new();
    send.insert(
        "big",
        Value::ListV(ListValue { name: String::new(), items }),
    );
    let mut root = send.as_root();
    let (res, _) = root.access("big");
    let text = format_node(&res.unwrap());
    let limited = text.matches("...").count();
    assert_eq!(limited, 1, "exactly one limit marker: {}", text);
    let members = text.matches(',').count();
    assert!(members <= 200, "at most the budget of members: {}", members);
}

// A field behind a free lock can be assigned through promotion; a held
// lock fails the whole query with the lock error instead of blocking.
#[test]
fn lock_promotion_and_contention() {
    let mut root = lock_root(LockState::Free);
    let (res, _) = root.access("root.locked_field = 5");
    assert!(res.is_ok());
    let (res, _) = root.access("root.locked_field");
    assert_eq!(format_node(&res.unwrap()), "5");

    let mut held = lock_root(LockState::Exclusive);
    let (res, _) = held.access("root.locked_field = 5");
    assert!(matches!(res, Err(ClimbError::Locked)));
    let (res, _) = held.access("root.locked_field");
    assert!(matches!(res, Err(ClimbError::Locked)));
}

// A cell-like wrapper distinguishes shared from exclusive contention.
#[test]
fn cell_borrow_contention() {
    let mut send = RootSend::new();
    send.insert(
        "root",
        Value::StructV(StructValue {
            name: "Holder".to_owned(),
            field_names: vec!["c".to_owned()],
            fields: vec![Value::LockV(LockValue {
                kind: LockKind::Cell,
                state: LockState::Shared,
                inner: Box::new(Value::U32(7)),
            })],
            functions: vec![],
        }),
    );
    let mut root = send.as_root();
    // Reading through a shared borrow works.
    let (res, _) = root.access("root.c");
    assert_eq!(format_node(&res.unwrap()), "7");
    // Writing through it does not: the mutable retry needs the cell free.
    let (res, _) = root.access("root.c = 9");
    assert!(matches!(res, Err(ClimbError::BorrowedMut)));
}

// Map indexing: a present key renders its value, an absent one reports
// that nothing was found.
#[test]
fn map_indexing() {
    let mut root = map_root();
    let (res, _) = root.access("root.m[3]");
    assert_eq!(format_node(&res.unwrap()), "4");
    let (res, _) = root.access("root.m[9]");
    assert!(matches!(res, Err(ClimbError::NotFound)));
}

// An empty query is rejected as a null path.
#[test]
fn empty_query_is_null_path() {
    let mut root = map_root();
    let (res, _) = root.access("");
    assert!(matches!(res, Err(ClimbError::NullPath)));
}

// A trailing token that matches nothing is an error, not a silent stop.
#[test]
fn trailing_garbage_is_unexpected() {
    let mut root = map_root();
    let (res, _) = root.access("root.m]");
    assert!(matches!(res, Err(ClimbError::UnexpectedToken)));
}

// An aliased shared cell refuses mutation permanently.
#[test]
fn aliased_cell_cannot_be_written() {
    let mut local = RootLocal::new();
    local.graph = Graph {
        cells: vec![Cell { value: Value::U32(5), aliased: true }],
    };
    local.insert("shared", Value::Ref(0));
    let mut root = Root { send: None, local: Some(local) };
    let (res, _) = root.access("shared = 6");
    assert!(matches!(res, Err(ClimbError::UnattainedMutability)));
    let (res, _) = root.access("shared");
    assert_eq!(format_node(&res.unwrap()), "5");
}

// A list indexes by position.
#[test]
fn list_indexing() {
    let mut send = RootSend::new();
    send.insert(
        "xs",
        Value::ListV(ListValue {
            name: "Vec".to_owned(),
            items: vec![Value::U8(10), Value::U8(20)],
        }),
    );
    let mut root = send.as_root();
    assert_eq!(format_node(&root.access("xs[1]").0.unwrap()), "20");
    let (res, _) = root.access("xs[2]");
    assert!(matches!(res, Err(ClimbError::NotFound)));
}

// A call of a function the receiver does not have is a hard error, not a
// suggestion.
#[test]
fn unknown_function_call_is_hard_error() {
    let mut send = RootSend::new();
    send.insert(
        "c",
        Value::StructV(StructValue {
            name: "C".to_owned(),
            field_names: vec!["x".to_owned()],
            fields: vec![Value::U8(1)],
            functions: vec![interact::Function {
                name: "check".to_owned(),
                args: vec![],
                kind: interact::MethodKind::CheckEqual(vec![0], vec![0]),
            }],
        }),
    );
    let mut root = send.as_root();
    let (res, _) = root.access("c.nosuch()");
    assert!(matches!(
        res,
        Err(ClimbError::CallError(interact::CallError::NoSuchFunction))
    ));
    // The known function still answers.
    let (res, _) = root.access("c.check()");
    assert_eq!(format_node(&res.unwrap()), "true");
}

// An unclosed index reports that the expression ended too early.
#[test]
fn unclosed_bracket_ends_early() {
    let mut root = map_root();
    let (res, _) = root.access("root.m[3");
    assert!(matches!(res, Err(ClimbError::UnexpectedExpressionEnd)));
}

// An indirect value resolves inline when reached from the issuing
// context.
#[test]
fn indirect_value_reads_through() {
    let mut send = RootSend::new();
    send.insert(
        "far",
        Value::Indirect(Box::new(Value::StructV(StructValue {
            name: "Remote".to_owned(),
            field_names: vec!["x".to_owned()],
            fields: vec![Value::U8(42)],
            functions: vec![],
        }))),
    );
    let mut root = send.as_root();
    let (res, _) = root.access("far.x");
    assert_eq!(format_node(&res.unwrap()), "42");
}

// A reference chain that never settles reports the indirection instead of
// spinning.
#[test]
fn unsettled_reference_chain_reports_indirect() {
    let mut local = RootLocal::new();
    local.graph = Graph {
        cells: vec![Cell {
            value: Value::LockV(interact::LockValue {
                kind: LockKind::Mutex,
                state: LockState::Free,
                inner: Box::new(Value::Ref(0)),
            }),
            aliased: false,
        }],
    };
    local.insert("spin", Value::Ref(0));
    let mut root = Root { send: None, local: Some(local) };
    let (res, _) = root.access("spin.x");
    assert!(matches!(res, Err(ClimbError::Indirect)));
}

// Enum values climb through their variant's name into its fields.
#[test]
fn enum_variant_field_access() {
    let mut send = RootSend::new();
    send.insert(
        "e",
        Value::EnumV(interact::EnumValue {
            enum_name: "EnumExample".to_owned(),
            variant: Box::new(Value::StructV(StructValue {
                name: "VarNamed".to_owned(),
                field_names: vec!["a".to_owned(), "b".to_owned()],
                fields: vec![Value::U8(3), Value::U16(4)],
                functions: vec![],
            })),
        }),
    );
    let mut root = send.as_root();
    let (res, _) = root.access("e.VarNamed.b");
    assert_eq!(format_node(&res.unwrap()), "4");
    let (res, _) = root.access("e");
    assert_eq!(
        format_node(&res.unwrap()),
        "EnumExample VarNamed { a : 3, b : 4 }"
    );
}

// Maps keyed by strings parse a quoted literal as the key.
#[test]
fn string_keyed_map_indexing() {
    let mut send = RootSend::new();
    send.insert(
        "root",
        Value::StructV(StructValue {
            name: "Holder".to_owned(),
            field_names: vec!["m".to_owned()],
            fields: vec![Value::MapV(MapValue {
                name: "BTreeMap".to_owned(),
                keys: vec![Value::Str("one".to_owned())],
                vals: vec![Value::U8(1)],
            })],
            functions: vec![],
        }),
    );
    let mut root = send.as_root();
    let (res, _) = root.access("root.m[\"one\"]");
    assert_eq!(format_node(&res.unwrap()), "1");
    let (res, _) = root.access("root.m[\"two\"]");
    assert!(matches!(res, Err(ClimbError::NotFound)));
}

// Probing a mutating call leaves the receiver untouched.
#[test]
fn probe_of_mutating_call_is_effect_free() {
    let mut send = RootSend::new();
    send.insert(
        "c",
        Value::StructV(StructValue {
            name: "C".to_owned(),
            field_names: vec!["x".to_owned()],
            fields: vec![Value::U32(10)],
            functions: vec![interact::Function {
                name: "add".to_owned(),
                args: vec!["a".to_owned()],
                kind: interact::MethodKind::AddToField(vec![0]),
            }],
        }),
    );
    let mut root = send.as_root();
    let (res, _) = root.probe("c.add(5)");
    assert!(res.is_ok());
    assert_eq!(format_node(&root.access("c.x").0.unwrap()), "10");
    let (res, _) = root.access("c.add(5)");
    assert!(res.is_ok());
    assert_eq!(format_node(&root.access("c.x").0.unwrap()), "15");
}
