use mib_browser::mib::{read_mib, MibEntry, MibSource, ObjectEntry, Status, TypeEntry};
use mib_browser::tree::{
    build_mib_tree, flatten, mib_items, tree_item, try_build_mib_tree, walk, MibInfo, TreeItem,
};

const MODULE: &str = "TEST-MIB DEFINITIONS ::= BEGIN
IMPORTS
    MODULE-IDENTITY, OBJECT-IDENTITY, OBJECT-TYPE, Integer32, enterprises FROM SNMPv2-SMI
    DisplayString, TEXTUAL-CONVENTION FROM SNMPv2-TC;

testMib MODULE-IDENTITY
    LAST-UPDATED \"202401010000Z\"
    ORGANIZATION \"Test\"
    CONTACT-INFO \"Nobody\"
    DESCRIPTION \"The module.\"
    ::= { enterprises 99999 }

testPlace OBJECT-IDENTITY
    STATUS current
    DESCRIPTION \"A place.
        Second line.\"
    ::= { testMib 9 }

Level ::= TEXTUAL-CONVENTION
    STATUS current
    DESCRIPTION \"A level.\"
    SYNTAX Integer32 (0..100 | 200..300)

testName OBJECT-TYPE
    SYNTAX DisplayString
    MAX-ACCESS read-write
    STATUS current
    DESCRIPTION \"First line.
        Second line.  \"
    DEFVAL { \"x\" }
    ::= { testMib 1 }

testState OBJECT-TYPE
    SYNTAX INTEGER { up(1), down(2) }
    MAX-ACCESS read-only
    STATUS deprecated
    DESCRIPTION \"A state.\"
    ::= { testMib 2 }

testLevel OBJECT-TYPE
    SYNTAX Level
    MAX-ACCESS accessible-for-notify
    STATUS obsolete
    DESCRIPTION \"A level.\"
    ::= { testMib 7 4 }

testTable OBJECT-TYPE
    SYNTAX SEQUENCE OF TestEntry
    MAX-ACCESS not-accessible
    STATUS current
    DESCRIPTION \"A table.\"
    ::= { testMib 3 }

testEntry OBJECT-TYPE
    SYNTAX TestEntry
    MAX-ACCESS not-accessible
    STATUS current
    DESCRIPTION \"A row.\"
    INDEX { testIndex, testOther }
    ::= { testTable 1 }

TestEntry ::= SEQUENCE { testIndex Integer32, testOther Integer32 }

testIndex OBJECT-TYPE
    SYNTAX Integer32 (1..10)
    MAX-ACCESS not-accessible
    STATUS current
    DESCRIPTION \"An index.\"
    ::= { testEntry 1 }

testOther OBJECT-TYPE
    SYNTAX Integer32
    MAX-ACCESS read-create
    STATUS current
    DESCRIPTION \"Another.\"
    ::= { testEntry 2 }
END
";

fn source() -> MibSource {
    MibSource { source: mib_rs::source::memory("TEST-MIB", MODULE.as_bytes()) }
}

fn mib() -> mib_rs::Mib {
    mib_rs::Loader::new().source(source().source).load().unwrap()
}

fn row<'a>(items: &'a [TreeItem], name: &str) -> &'a TreeItem {
    items.iter().find(|item| item.name == name).unwrap()
}

fn info_fields(info: &MibInfo) -> Vec<&str> {
    vec![
        &info.name,
        &info.oid,
        &info.mib_module,
        &info.syntax,
        &info.access,
        &info.status,
        &info.defval,
        &info.indexes,
        &info.descr,
    ]
}

fn entry(oid: &[u32], name: &str, children: Vec<MibEntry>) -> MibEntry {
    MibEntry {
        oid: oid.to_vec(),
        name: name.to_string(),
        module: None,
        description: String::new(),
        object: None,
        children,
    }
}

fn object() -> ObjectEntry {
    ObjectEntry {
        status: Status::Current,
        access: "ReadOnly".to_string(),
        description: String::new(),
        syntax: None,
        enums: Vec::new(),
        indexes: Vec::new(),
        default_value: None,
    }
}

fn pairs(bounds: &[(&str, &str)]) -> Vec<(String, String)> {
    bounds.iter().map(|(a, b)| (a.to_string(), b.to_string())).collect()
}

#[test]
fn no_sources_give_no_rows() {
    assert!(build_mib_tree(Vec::new()).is_empty());
}

#[test]
fn a_source_without_modules_still_gives_the_built_in_ones() {
    let items = build_mib_tree(vec![MibSource { source: mib_rs::source::memory("NONE", "no module") }]);
    assert_eq!(items[0].oid, ".0");
    assert!(items.iter().all(|item| !item.name.is_empty()));
}

#[test]
fn a_failed_load_is_told() {
    assert!(matches!(try_build_mib_tree(Vec::new()), Err(mib_rs::LoadError::NoSources)));
    let items = try_build_mib_tree(vec![source()]).unwrap();
    assert_eq!(items.len(), build_mib_tree(vec![source()]).len());
    assert_eq!(row(&items, "testName").oid, ".1.3.6.1.4.1.99999.1");
}

#[test]
fn rows_of_a_module() {
    let items = build_mib_tree(vec![source()]);
    let name = row(&items, "testName");
    assert_eq!(name.oid, ".1.3.6.1.4.1.99999.1");
    assert_eq!(name.indent, 7);
    assert!(!name.has_children && !name.is_expanded);
    assert_eq!(name.to_mib_node().tree_name, "testName (1)");
    assert_eq!(
        info_fields(&name.info)[..6],
        [
            "testName",
            ".1.3.6.1.4.1.99999.1",
            "TEST-MIB",
            "DisplayString (OctetString) (SIZE (0..255))",
            "ReadWrite",
            "Current",
        ]
    );
    assert!(name.info.defval.contains("\"x\""));
    assert_eq!(name.info.indexes, "");
    assert_eq!(name.info.descr, "First line.\nSecond line.");

    let state = row(&items, "testState");
    assert!(state.info.syntax.ends_with(" {up(1), down(2)}"));
    assert_eq!(state.info.status, "Deprecated");
    assert_eq!(state.info.access, "ReadOnly");
    assert_eq!(state.info.defval, "");

    let level = row(&items, "testLevel");
    assert_eq!(level.info.syntax, "Level (Integer32) (0..100 | 200..300)");
    assert_eq!(level.info.status, "Obsolete");

    let unnamed = row(&items, ".7");
    assert_eq!(unnamed.oid, ".1.3.6.1.4.1.99999.7");
    assert!(unnamed.has_children);
    assert_eq!(unnamed.to_mib_node().tree_name, ".7 (7)");
    assert_eq!(unnamed.info.status, "");

    let place = row(&items, "testPlace");
    assert_eq!(place.info.descr, "A place.\n        Second line.");
    assert_eq!(place.info.syntax, "");
    assert_eq!(place.info.status, "");
    assert_eq!(row(&items, "testEntry").info.indexes, "testIndex, testOther");
    assert_eq!(row(&items, "testOther").info.indexes, "testIndex, testOther");
    assert_eq!(row(&items, "iso").indent, 0);
    assert!(row(&items, "iso").is_expanded);
}

fn check(node: mib_rs::Node<'_>, depth: i32, items: &[TreeItem], at: &mut usize) {
    let item = &items[*at];
    *at += 1;
    let oid = format!(".{}", node.oid());
    assert_eq!(item.oid, oid);
    assert_eq!(item.indent, depth);
    assert_eq!(item.is_expanded, depth < 3);
    assert_eq!(item.has_children, node.children().next().is_some());
    let mut name = node.name().trim().to_string();
    if name.is_empty() {
        name = format!(".{}", oid.split('.').last().unwrap());
    }
    assert_eq!(item.name, name);
    assert_eq!(item.info.name, name);
    assert_eq!(item.info.oid, oid);
    let module = node.module().map(|m| m.name().to_string()).unwrap_or_default();
    assert_eq!(item.info.mib_module, module);
    match node.object() {
        None => {
            assert_eq!(item.info.descr, node.description());
            assert_eq!(info_fields(&item.info)[3..8], ["", "", "", "", ""]);
        }
        Some(obj) => {
            assert_eq!(item.info.access, format!("{:?}", obj.access()));
            assert_eq!(item.info.status, format!("{:?}", obj.status()));
            let default = obj.default_value().map(|v| format!("{:?}", v)).unwrap_or_default();
            assert_eq!(item.info.defval, default);
            let indexes: Vec<&str> = obj.effective_indexes().map(|i| i.name()).collect();
            assert_eq!(item.info.indexes, indexes.join(", "));
            if let Some(ty) = obj.ty() {
                assert!(item.info.syntax.starts_with(ty.name()));
                let base = format!("{:?}", ty.effective_base());
                assert_eq!(item.info.syntax.contains(&format!(" ({})", base)), base != ty.name());
                for r in ty.effective_sizes().iter().chain(ty.effective_ranges()) {
                    assert!(item.info.syntax.contains(&format!("{}..{}", r.min, r.max)));
                }
                for e in obj.effective_enums() {
                    assert!(item.info.syntax.contains(&format!("{}({})", e.label, e.value)));
                }
            } else {
                assert_eq!(item.info.syntax, "");
            }
        }
    }
    for child in node.children() {
        check(child, depth + 1, items, at);
    }
}

#[test]
fn rows_agree_with_the_loaded_modules() {
    let mib = mib();
    let items = mib_items(&mib);
    let mut at = 0;
    for child in mib.root_node().children() {
        check(child, 0, &items, &mut at);
    }
    assert_eq!(at, items.len());
    assert!(at > 20);
}

#[test]
fn rows_come_in_the_order_of_distinct_oids() {
    let items = mib_items(&mib());
    let oids: Vec<Vec<u32>> = items
        .iter()
        .map(|item| item.oid[1..].split('.').map(|arc| arc.parse().unwrap()).collect())
        .collect();
    for i in 0..oids.len() {
        assert_eq!(oids[i].len() as i32, items[i].indent + 1);
        let name = items[i].to_mib_node().tree_name;
        assert_eq!(name, format!("{} ({})", items[i].name, oids[i].last().unwrap()));
        if i + 1 < oids.len() {
            assert!(oids[i] < oids[i + 1]);
            if items[i].has_children {
                assert_eq!(items[i + 1].indent, items[i].indent + 1);
            } else {
                assert!(items[i + 1].indent <= items[i].indent);
            }
        }
    }
    assert_eq!(items[0].indent, 0);
    assert!(!items.last().unwrap().has_children);
}

#[test]
fn plain_values_of_a_module() {
    let root = read_mib(&mib());
    assert!(root.oid.is_empty());
    assert_eq!(root.name, "");
    assert!(root.module.is_none());
    assert!(root.object.is_none());
    let iso = root.children.iter().find(|child| child.name == "iso").unwrap();
    assert_eq!(iso.oid, vec![1]);
    assert!(root.fits(20));
    assert!(!root.fits(5));
    assert!(!root.fits(0));
}

#[test]
fn row_of_a_plain_node() {
    let mut node = entry(&[1, 3], " org\n", vec![entry(&[1, 3, 6], "dod", Vec::new())]);
    node.description = "  kept as it is \n".to_string();
    let item = tree_item(&node, 2);
    assert_eq!(item.name, "org");
    assert_eq!(item.oid, ".1.3");
    assert_eq!(item.indent, 2);
    assert!(item.has_children && item.is_expanded);
    assert_eq!(
        info_fields(&item.info),
        ["org", ".1.3", "", "", "", "", "", "", "  kept as it is \n"]
    );
    let deep = tree_item(&entry(&[4294967295], " ", Vec::new()), 3);
    assert_eq!(deep.name, ".4294967295");
    assert!(!deep.is_expanded && !deep.has_children);
    assert_eq!(tree_item(&entry(&[], "", Vec::new()), 0).name, ".");
}

#[test]
fn row_of_an_object() {
    let mut node = entry(&[1], "x", Vec::new());
    node.module = Some("M".to_string());
    node.description = "node".to_string();
    let mut obj = object();
    obj.syntax = Some(TypeEntry {
        name: "T".to_string(),
        base: "Integer32".to_string(),
        sizes: pairs(&[("0", "4"), ("8", "MAX")]),
        ranges: pairs(&[("-1", "1"), ("5", "5")]),
    });
    obj.enums = vec![("a".to_string(), -3), ("b".to_string(), 12)];
    obj.indexes = vec!["i".to_string(), "j".to_string()];
    obj.default_value = Some("7".to_string());
    obj.description = "one \n  two".to_string();
    node.object = Some(obj);
    assert_eq!(
        info_fields(&tree_item(&node, 0).info),
        [
            "x",
            ".1",
            "M",
            "T (Integer32) (SIZE (0..4 | 8..MAX)) (-1..1 | 5..5) {a(-3), b(12)}",
            "ReadOnly",
            "Current",
            "7",
            "i, j",
            "one\ntwo",
        ]
    );
}

#[test]
fn syntax_without_extras() {
    let mut node = entry(&[1], "x", Vec::new());
    node.description = "node".to_string();
    let mut obj = object();
    obj.enums = vec![("a".to_string(), 1)];
    node.object = Some(obj);
    let info = tree_item(&node, 0).info;
    assert_eq!(info.syntax, "");
    assert_eq!(info.descr, "node");
    let mut obj = object();
    obj.syntax = Some(TypeEntry {
        name: "Counter32".to_string(),
        base: "Counter32".to_string(),
        sizes: Vec::new(),
        ranges: Vec::new(),
    });
    node.object = Some(obj);
    assert_eq!(tree_item(&node, 0).info.syntax, "Counter32");
}

#[test]
fn words_for_all_statuses() {
    for (status, word) in [
        (Status::Current, "Current"),
        (Status::Deprecated, "Deprecated"),
        (Status::Obsolete, "Obsolete"),
        (Status::Mandatory, "Mandatory"),
        (Status::Optional, "Optional"),
    ] {
        let mut node = entry(&[1], "x", Vec::new());
        let mut obj = object();
        obj.status = status;
        node.object = Some(obj);
        assert_eq!(tree_item(&node, 0).info.status, word);
    }
}

const OLD_MODULE: &str = "OLD-MIB DEFINITIONS ::= BEGIN
IMPORTS
    enterprises FROM RFC1155-SMI
    OBJECT-TYPE FROM RFC-1212;
oldMust OBJECT-TYPE
    SYNTAX INTEGER
    ACCESS read-only
    STATUS mandatory
    DESCRIPTION \"Old.\"
    ::= { enterprises 99998 1 }
oldMay OBJECT-TYPE
    SYNTAX INTEGER
    ACCESS write-only
    STATUS optional
    DESCRIPTION \"Old.\"
    ::= { enterprises 99998 2 }
END
";

#[test]
fn statuses_of_old_modules() {
    let items = build_mib_tree(vec![MibSource {
        source: mib_rs::source::memory("OLD-MIB", OLD_MODULE.as_bytes()),
    }]);
    assert_eq!(row(&items, "oldMust").info.status, "Mandatory");
    assert_eq!(row(&items, "oldMay").info.status, "Optional");
    assert_eq!(row(&items, "oldMay").info.access, "WriteOnly");
}

#[test]
fn flatten_lists_depth_first() {
    let root = entry(
        &[],
        "",
        vec![
            entry(&[0], "a", vec![entry(&[0, 1], "b", vec![entry(&[0, 1, 1], "c", Vec::new())])]),
            entry(&[1], "d", Vec::new()),
        ],
    );
    let items = flatten(&root);
    let shape: Vec<(&str, i32, bool)> =
        items.iter().map(|i| (i.name.as_str(), i.indent, i.has_children)).collect();
    assert_eq!(shape, [("a", 0, true), ("b", 1, true), ("c", 2, false), ("d", 0, false)]);
    let mut more = items;
    walk(&root.children[1], 5, &mut more);
    assert_eq!(more.len(), 5);
    assert_eq!(more[4].indent, 5);
    assert!(!more[4].is_expanded);
}

#[test]
fn copies_are_equal() {
    let item = tree_item(&entry(&[1, 2], "n", Vec::new()), 1);
    let copy = item.clone();
    assert_eq!(info_fields(&copy.info), info_fields(&item.info));
    assert_eq!(copy.oid, item.oid);
    assert_eq!(info_fields(&MibInfo::default()), ["", "", "", "", "", "", "", "", ""]);
}

#[test]
fn rows_have_ancestors_on_every_level() {
    let items = mib_items(&mib());
    for i in 0..items.len() {
        for level in 0..items[i].indent {
            let j = (0..i).rev().find(|&j| items[j].indent <= level).unwrap();
            assert_eq!(items[j].indent, level);
            assert!(items[j].has_children);
            assert!(items[i].oid.starts_with(&format!("{}.", items[j].oid)));
        }
    }
}
