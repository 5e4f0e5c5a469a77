use interact::node_tree::{format_node, NodeInfo, NodeTree};
use interact::{
    pretty_format, CmdAction, Commands, NodePrinterSettings, RootSend, StructValue, Value,
};

fn leaf(s: &str) -> NodeTree {
    NodeInfo::Leaf(s.to_owned()).into_node()
}

#[test]
fn format_grouped_and_delimited() {
    let body = NodeInfo::Delimited(',', vec![leaf("1"), leaf("2")]).into_node();
    let n = NodeInfo::Grouped('[', Box::new(body), ']').into_node();
    assert_eq!(format_node(&n), "[ 1, 2 ]");

    // An empty group renders tight.
    let empty = NodeInfo::Delimited(',', vec![]).into_node();
    let n = NodeInfo::Grouped('(', Box::new(empty), ')').into_node();
    assert_eq!(format_node(&n), "()");

    let kv = NodeInfo::Tuple(Box::new(leaf("k")), ":".to_owned(), Box::new(leaf("v")))
        .into_node();
    assert_eq!(format_node(&kv), "k : v");

    let named = NodeInfo::named("Name", leaf("x")).into_node();
    assert_eq!(format_node(&named), "Name x");

    assert_eq!(format_node(&NodeInfo::Locked.into_node()), "<locked>");
    assert_eq!(format_node(&NodeInfo::BorrowedMut.into_node()), "<borrowed-mut>");
    assert_eq!(format_node(&NodeInfo::Repeated.into_node()), "<repeated>");
    assert_eq!(format_node(&NodeInfo::Limited.into_node()), "...");
    assert_eq!(format_node(&NodeInfo::Pending(0).into_node()), "<hole>");
}

#[test]
fn resolve_fills_sizes_and_pending() {
    // A pending placeholder is collapsed from the table, and sizes come
    // out bottom-up.
    let mut tree = NodeInfo::Delimited(',', vec![leaf("ab"), NodeInfo::Pending(0).into_node()])
        .into_node();
    let table = vec![leaf("xyz")];
    let total = tree.resolve(&table);
    assert_eq!(format_node(&tree), "ab, xyz");
    // Leaf "ab" counts 3, leaf "xyz" counts 4, two members add 2 each,
    // and the list itself adds 1.
    assert_eq!(total, 1 + (3 + 2) + (4 + 2));
    assert_eq!(tree.size, total);
}

#[test]
fn resolve_leaf_size_matches_read() {
    let mut n = leaf("50158");
    let table: Vec<NodeTree> = vec![];
    let total = n.resolve(&table);
    assert_eq!(total, 6);
    assert_eq!(n.size, 6);
}

#[test]
fn pretty_format_wraps_long_lines() {
    let mut send = RootSend::new();
    send.insert(
        "cfg",
        Value::StructV(StructValue {
            name: "Cfg".to_owned(),
            field_names: vec!["alpha".to_owned(), "beta".to_owned()],
            fields: vec![Value::U32(1), Value::U32(2)],
            functions: vec![],
        }),
    );
    let mut root = send.as_root();
    let (res, _) = root.access("cfg");
    let node = res.unwrap();
    let wide = pretty_format(&node, &NodePrinterSettings { max_line_length: 120, indent_step: 4 });
    assert_eq!(wide, "Cfg { alpha: 1, beta: 2 }\n");
    let narrow = pretty_format(&node, &NodePrinterSettings { max_line_length: 8, indent_step: 4 });
    assert!(narrow.contains('\n'));
    assert!(narrow.contains("alpha: 1,"));
}

#[test]
fn commands_decide_actions() {
    let cmds = Commands::new();
    assert!(matches!(cmds.handle_cmd("?"), CmdAction::ShowHelp));
    assert!(matches!(cmds.handle_cmd(":help"), CmdAction::ShowHelp));
    assert!(matches!(cmds.handle_cmd(":exit"), CmdAction::Quit));
    assert!(matches!(cmds.handle_cmd(""), CmdAction::Nothing));
    match cmds.handle_cmd("basic.u_16") {
        CmdAction::Evaluate(s) => assert_eq!(s, "basic.u_16"),
        _ => panic!("a path should be evaluated"),
    }
}

#[test]
fn command_completion_offers_colon_commands() {
    let cmds = Commands::new();
    let mut root = RootSend::new().as_root();
    let assist = cmds.get_next_options(&mut root, ":ex", 3);
    let (valid, _, _, options) = assist.dismantle();
    assert_eq!(valid, 3);
    match options {
        interact::NextOptions::Avail(at, v) => {
            assert_eq!(at, 0);
            assert_eq!(v, vec!["it"]);
        }
        _ => panic!("expected a completion"),
    }
}

#[test]
fn root_keys_and_default_print() {
    let mut send = RootSend::new();
    send.insert("alpha", Value::U8(1));
    send.insert("beta", Value::U8(2));
    let mut root = send.as_root();
    let keys = root.keys();
    assert_eq!(keys, vec!["alpha", "beta"]);
    let (res, _) = root.access("alpha");
    assert_eq!(interact::prompt::print(&res.unwrap()), "1\n");
}

#[test]
fn assist_parts_behave() {
    let mut a: interact::Assist<String> = Default::default();
    a.pend(3);
    assert!(a.has_pending());
    assert_eq!(a.pending(), 3);
    a.commit_pending();
    let (valid, pending, special, _) = a.dismantle();
    assert_eq!((valid, pending, special), (3, 0, 0));

    let n: interact::NextOptions<String> =
        interact::NextOptions::Avail(2, vec!["x".to_owned()]);
    let (at, v) = n.into_position(5);
    assert_eq!(at, 7);
    assert_eq!(v, vec!["x"]);
}

#[test]
fn keys_merge_alphabetically_and_inserts_replace() {
    let mut send = RootSend::new();
    send.insert("zeta", Value::U8(1));
    send.insert("alpha", Value::U8(2));
    send.insert("zeta", Value::U8(3));
    let mut local = interact::RootLocal::new();
    local.insert("beta", Value::U8(4));
    local.insert("alpha", Value::U8(5));
    let mut root = interact::Root { send: Some(send), local: Some(local) };
    // One namespace, alphabetical, each name once.
    assert_eq!(root.keys(), vec!["alpha", "beta", "zeta"]);
    // The re-registered value replaced the first.
    let (res, _) = root.access("zeta");
    assert_eq!(format_node(&res.unwrap()), "3");
    // The confined dictionary shadows the shared one.
    let (res, _) = root.access("alpha");
    assert_eq!(format_node(&res.unwrap()), "5");
}
