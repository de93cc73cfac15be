use passtui::pass::store::{flatten_tree, flatten_tree_all, sort_nodes, toggle_node, StoreNode};

#[test]
fn test_flatten_and_toggle() {
    let mut nodes = vec![
        StoreNode {
            name: "Work".into(),
            path: "Work".into(),
            is_dir: true,
            children: vec![StoreNode {
                name: "email".into(),
                path: "Work/email".into(),
                is_dir: false,
                children: vec![],
                expanded: false,
            }],
            expanded: true,
        },
        StoreNode {
            name: "personal".into(),
            path: "personal".into(),
            is_dir: false,
            children: vec![],
            expanded: false,
        },
    ];

    let mut visible = Vec::new();
    flatten_tree(&nodes, 0, &mut visible);
    assert_eq!(visible.len(), 3);
    assert_eq!(visible[0].name, "Work");
    assert_eq!(visible[0].depth, 0);
    assert_eq!(visible[1].name, "email");
    assert_eq!(visible[1].depth, 1);
    assert_eq!(visible[2].name, "personal");
    assert_eq!(visible[2].depth, 0);

    // Toggle Work to collapsed
    let toggled = toggle_node(&mut nodes, "Work");
    assert!(toggled);
    assert!(!nodes[0].expanded);

    visible.clear();
    flatten_tree(&nodes, 0, &mut visible);
    assert_eq!(visible.len(), 2);
    assert_eq!(visible[0].name, "Work");
    assert_eq!(visible[1].name, "personal");
}

#[test]
fn test_sort_nodes_order() {
    let mut nodes = vec![
        StoreNode {
            name: "zebra".into(),
            path: "zebra".into(),
            is_dir: false,
            children: vec![],
            expanded: false,
        },
        StoreNode {
            name: "alpha".into(),
            path: "alpha".into(),
            is_dir: true,
            children: vec![],
            expanded: false,
        },
        StoreNode {
            name: "beta".into(),
            path: "beta".into(),
            is_dir: false,
            children: vec![],
            expanded: false,
        },
    ];

    sort_nodes(&mut nodes);
    // Directories come first, then alphabetical
    assert_eq!(nodes[0].name, "alpha");
    assert!(nodes[0].is_dir);
    assert_eq!(nodes[1].name, "beta");
    assert!(!nodes[1].is_dir);
    assert_eq!(nodes[2].name, "zebra");
    assert!(!nodes[2].is_dir);
}

fn leaf(name: &str, path: &str) -> StoreNode {
    StoreNode { name: name.into(), path: path.into(), is_dir: false, children: vec![], expanded: false }
}

#[test]
fn toggling_a_folder_twice_shows_the_same_list() {
    let mut nodes = vec![
        StoreNode {
            name: "Work".into(),
            path: "Work".into(),
            is_dir: true,
            children: vec![leaf("email", "Work/email")],
            expanded: true,
        },
        leaf("personal", "personal"),
    ];
    let mut before = Vec::new();
    flatten_tree(&nodes, 0, &mut before);
    assert!(toggle_node(&mut nodes, "Work"));
    assert!(toggle_node(&mut nodes, "Work"));
    let mut after = Vec::new();
    flatten_tree(&nodes, 0, &mut after);
    assert_eq!(before.len(), after.len());
    for (a, b) in before.iter().zip(after.iter()) {
        assert_eq!(a.path, b.path);
        assert_eq!(a.expanded, b.expanded);
    }
    assert!(!toggle_node(&mut nodes, "personal"));
    assert!(!toggle_node(&mut nodes, "missing"));
}

#[test]
fn search_flattening_includes_collapsed_folders() {
    let nodes = vec![StoreNode {
        name: "Work".into(),
        path: "Work".into(),
        is_dir: true,
        children: vec![leaf("email", "Work/email")],
        expanded: false,
    }];
    let mut visible = Vec::new();
    flatten_tree(&nodes, 0, &mut visible);
    assert_eq!(visible.len(), 1);
    let mut all = Vec::new();
    flatten_tree_all(&nodes, 0, &mut all);
    assert_eq!(all.len(), 2);
    assert_eq!(all[1].path, "Work/email");
    assert_eq!(all[1].depth, 1);
}

use passtui::pass::store::{scan_store, DirEntry};

fn file(name: &str) -> DirEntry {
    DirEntry { name: name.into(), is_dir: false, children: vec![] }
}

#[test]
fn scanning_keeps_encrypted_entries_and_nonempty_folders() {
    let listing = vec![
        file(".gpg-id"),
        DirEntry { name: ".git".into(), is_dir: true, children: vec![file("config.gpg")] },
        DirEntry { name: "Empty".into(), is_dir: true, children: vec![file("readme.txt")] },
        DirEntry { name: "Work".into(), is_dir: true, children: vec![file("email.gpg"), file("b.gpg")] },
        file("zeta.gpg"),
        file("Alpha.gpg"),
        file("notes.txt"),
    ];
    let nodes = scan_store(&listing);
    let names: Vec<&str> = nodes.iter().map(|n| n.name.as_str()).collect();
    assert_eq!(names, vec!["Work", "Alpha", "zeta"]);
    assert!(nodes[0].is_dir && nodes[0].expanded);
    assert_eq!(nodes[0].path, "Work");
    assert_eq!(nodes[0].children[0].path, "Work/b");
    assert_eq!(nodes[0].children[1].path, "Work/email");
    assert_eq!(nodes[1].path, "Alpha");
    assert!(!nodes[1].is_dir);
}
