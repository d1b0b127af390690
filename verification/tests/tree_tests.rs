use onesource::tree::Node;

#[test]
fn tree_prints_sorted_children_with_connectors() {
    let mut root = Node::new(true);
    root.insert_path("src/main.rs", false);
    root.insert_path("Cargo.toml", false);
    root.insert_path("src/lib.rs", false);
    root.insert_path("docs", true);
    assert_eq!(
        root.print(""),
        "├── Cargo.toml\n├── docs/\n└── src/\n    ├── lib.rs\n    └── main.rs\n"
    );
    assert_eq!(root.child_count(), 3);
    assert!(root.is_dir());
}

#[test]
fn inserting_twice_keeps_one_entry_and_the_last_kind() {
    let mut root = Node::new(true);
    root.insert_path("a/b", false);
    root.insert_path("a/b", true);
    root.insert_path("a", true);
    assert_eq!(root.print(">"), ">└── a/\n>    └── b/\n");
}

#[test]
fn missing_parents_become_directories() {
    let mut root = Node::new(true);
    root.insert_path("x/y/z.txt", false);
    assert_eq!(root.print(""), "└── x/\n    └── y/\n        └── z.txt\n");
}

#[test]
fn drawing_does_not_depend_on_insertion_order() {
    let mut a = Node::new(true);
    a.insert_path("src/b.rs", false);
    a.insert_path("src/a.rs", false);
    a.insert_path("README.md", false);
    let mut b = Node::new(true);
    b.insert_path("README.md", false);
    b.insert_path("src/a.rs", false);
    b.insert_path("src/b.rs", false);
    assert_eq!(a.print(""), b.print(""));
}
