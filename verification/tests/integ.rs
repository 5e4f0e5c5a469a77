use interact::node_tree::format_node;
use interact::{
    Function, MethodKind, NextOptions, Root, RootSend, StructValue, TupleValue, Value,
};

fn basic_value() -> Value {
    Value::StructV(StructValue {
        name: "Basic".to_owned(),
        field_names: vec![
            "u_s".to_owned(),
            "u_64".to_owned(),
            "u_32".to_owned(),
            "u_16".to_owned(),
            "u_8".to_owned(),
            "bo".to_owned(),
            "st".to_owned(),
            "ch".to_owned(),
            "i_64".to_owned(),
        ],
        fields: vec![
            Value::Usize(11),
            Value::U64(17),
            Value::U32(23),
            Value::U16(50158),
            Value::U8(250),
            Value::Bool(true),
            Value::Str("hey".to_owned()),
            Value::Ch('x'),
            Value::I64(-9),
        ],
        functions: vec![],
    })
}

fn complex_value() -> Value {
    // tuple: ((u32, (u8, u8)), i32); tuple_1: (u32,); vec: [(u32,), (u32,)]
    let tuple = Value::TupleV(TupleValue {
        name: String::new(),
        items: vec![
            Value::TupleV(TupleValue {
                name: String::new(),
                items: vec![
                    Value::U32(1),
                    Value::TupleV(TupleValue {
                        name: String::new(),
                        items: vec![Value::U8(5), Value::U8(6)],
                    }),
                ],
            }),
            Value::I64(-3),
        ],
    });
    let tuple_1 = Value::TupleV(TupleValue {
        name: String::new(),
        items: vec![Value::U32(0)],
    });
    let vec_field = Value::ListV(interact::access::ListValue {
        name: "Vec".to_owned(),
        items: vec![
            Value::TupleV(TupleValue {
                name: String::new(),
                items: vec![Value::U32(9)],
            }),
            Value::TupleV(TupleValue {
                name: String::new(),
                items: vec![Value::U32(40)],
            }),
        ],
    });
    Value::StructV(StructValue {
        name: "Complex".to_owned(),
        field_names: vec!["tuple".to_owned(), "tuple_1".to_owned(), "vec".to_owned()],
        fields: vec![tuple, tuple_1, vec_field],
        functions: vec![
            Function {
                name: "check".to_owned(),
                args: vec![],
                // self.tuple.0.0 == self.tuple_1.0
                kind: MethodKind::CheckEqual(vec![0, 0, 0], vec![1, 0]),
            },
            Function {
                name: "add".to_owned(),
                args: vec!["a".to_owned()],
                // self.vec[0].0 += a
                kind: MethodKind::AddToField(vec![2, 0, 0]),
            },
        ],
    })
}

fn new_root() -> Root {
    let mut send = RootSend::new();
    send.insert("complex", complex_value());
    send.insert("basic", basic_value());
    send.as_root()
}

fn leaf_text(root: &mut Root, path: &str) -> String {
    let (res, _) = root.access(path);
    format_node(&res.expect("path should evaluate"))
}

#[test]
fn integ_main() {
    let mut root = new_root();

    // A non-existing root key.
    let (res, assist) = root.access("not_existing");
    assert!(matches!(res, Err(interact::ClimbError::MissingStartComponent)));
    let (valid, pending, pending_special, options) = assist.dismantle();
    assert_eq!(valid, 0);
    assert_eq!(pending, 0);
    assert_eq!(pending_special, 0);
    match options {
        NextOptions::Avail(at, v) => {
            assert_eq!(at, 0);
            assert_eq!(v, Vec::<String>::new());
        }
        NextOptions::NoOptions => panic!("expected an available (empty) suggestion list"),
    }

    // A basic read query.
    let (res, assist) = root.access("basic.u_16");
    let node = res.expect("read should succeed");
    assert_eq!(format_node(&node), "50158");
    assert_eq!(node.size, 6);
    let (valid, pending, _, _) = assist.dismantle();
    assert_eq!(valid, 10);
    assert_eq!(pending, 0);

    // An ambiguous prefix: the query fails but every matching field is
    // offered.
    let (res, assist) = root.access("basic.u_");
    assert!(matches!(res, Err(interact::ClimbError::UnexpectedToken)));
    let (valid, pending, pending_special, options) = assist.dismantle();
    // The validated prefix covers the consumed dot: len("basic.") == 6.
    assert_eq!(valid, 6);
    assert_eq!(pending, 2);
    assert_eq!(pending_special, 0);
    match options {
        NextOptions::Avail(at, v) => {
            assert_eq!(at, 0);
            assert_eq!(v, vec!["u_s", "u_64", "u_32", "u_16", "u_8"]);
        }
        NextOptions::NoOptions => panic!("expected suggestions"),
    }

    // A basic assignment, then the read-back.
    let (res, assist) = root.access("basic.u_64 = 1234");
    let node = res.expect("assignment should succeed");
    assert_eq!(format_node(&node), "");
    assert_eq!(node.size, 1);
    let (valid, pending, _, _) = assist.dismantle();
    assert_eq!(valid, 17);
    assert_eq!(pending, 0);
    assert_eq!(leaf_text(&mut root, "basic.u_64"), "1234");

    // A numeric literal too large for any carrier type.
    let (res, assist) = root.access("state.complex.0.0.0.0 = 100000000000000000001");
    assert!(matches!(
        res,
        Err(interact::ClimbError::TokenError(interact::lexer::TokenError::IntError))
    ));
    let (valid, _, _, _) = assist.dismantle();
    assert_eq!(valid, 0);

    // Immutable and mutable method calls.
    let (res, assist) = root.access("complex.tuple.0.0 = 3");
    assert_eq!(format_node(&res.expect("assignment")), "");
    assert_eq!(assist.dismantle().0, 21);
    let (res, assist) = root.access("complex.tuple_1.0 = 3");
    assert_eq!(format_node(&res.expect("assignment")), "");
    assert_eq!(assist.dismantle().0, 21);
    let (res, assist) = root.access("complex.check()");
    assert_eq!(format_node(&res.expect("call")), "true");
    assert_eq!(assist.dismantle().0, 15);
    let (res, _) = root.access("complex.tuple_1.0 = 4");
    assert_eq!(format_node(&res.expect("assignment")), "");
    let (res, _) = root.access("complex.check()");
    assert_eq!(format_node(&res.expect("call")), "false");
    let (res, assist) = root.access("complex.add(3)");
    assert_eq!(format_node(&res.expect("call")), "()");
    assert_eq!(assist.dismantle().0, 14);
    assert_eq!(leaf_text(&mut root, "complex.vec[0].0"), "12");
}
