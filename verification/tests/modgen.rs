use pbuildrs::modgen::{
    is_rust_file, render_content, render_declarations, render_module, Error, Node, Step, Tree,
};
use pbuildrs::Entry;
use std::collections::HashMap;

/// What a node holds: its source file, and its children under their names.
#[derive(Debug, PartialEq)]
struct Shape {
    path: Option<Vec<u8>>,
    children: Vec<(Vec<u8>, Shape)>,
}

fn shape(node: &Node) -> Shape {
    Shape {
        path: node.path().cloned(),
        children: node
            .children()
            .iter()
            .map(|child| (child.name.clone(), shape(&child.node)))
            .collect(),
    }
}

fn leaf(name: &str, path: &str) -> (Vec<u8>, Shape) {
    (
        name.as_bytes().to_vec(),
        Shape {
            path: Some(path.as_bytes().to_vec()),
            children: vec![],
        },
    )
}

fn file(path: &str) -> Entry {
    Entry {
        path: path.as_bytes().to_vec(),
        is_dir: false,
        is_file: true,
    }
}

fn dir(path: &str) -> Entry {
    Entry {
        path: path.as_bytes().to_vec(),
        is_dir: true,
        is_file: false,
    }
}

/// Performs the steps on a file system held in memory, and returns the files
/// that they wrote.
fn perform(steps: &[Step], sources: &HashMap<Vec<u8>, Vec<u8>>) -> HashMap<String, String> {
    let mut dirs: Vec<Vec<u8>> = vec![];
    let mut files = HashMap::new();
    for step in steps {
        match step {
            Step::MakeDir(path) => dirs.push(path.clone()),
            Step::WriteModule {
                file,
                children,
                source,
            } => {
                let dir = &file[..file.len() - "/mod.rs".len()];
                assert!(
                    dirs.iter().any(|d| d == dir),
                    "the directory of the module file was not created first"
                );
                let content = source.as_ref().map(|path| {
                    sources
                        .get(path)
                        .expect("the source file is missing")
                        .as_slice()
                });
                let text = render_module(children, content);
                let written = files.insert(
                    String::from_utf8(file.clone()).unwrap(),
                    String::from_utf8(text).unwrap(),
                );
                assert!(written.is_none(), "a module file was written twice");
            }
        }
    }
    files
}

#[test]
fn node_push_no_namespace() {
    let tree = Tree::new()
        .push(b"/foo/_.rs".to_vec())
        .expect("Failed to push a node into a tree");

    assert_eq!(
        shape(&tree.root),
        Shape {
            path: Some(b"/foo/_.rs".to_vec()),
            children: vec![],
        },
        "The parsed tree has invalid structure",
    );
}

#[test]
fn node_push_valid_namespace() {
    let tree = Tree::new()
        .push(b"/tmp/foo/crabs.rs".to_vec())
        .expect("Failed to push a node into the tree");

    assert_eq!(
        shape(&tree.root),
        Shape {
            path: None,
            children: vec![(
                b"crabs".to_vec(),
                Shape {
                    children: vec![],
                    path: Some(b"/tmp/foo/crabs.rs".to_vec()),
                }
            )]
        },
        "The parsed tree has invalid structure",
    );
}

#[test]
fn node_push_multiple() {
    let tree = Tree::new()
        .push(b"/tmp/proto/crabs.disney.ariel.rs".to_vec())
        .and_then(|t| t.push(b"/tmp/proto/crabs.sponge_bob.rs".to_vec()))
        .and_then(|t| t.push(b"/tmp/proto/crabs.rs".to_vec()))
        .expect("Failed to push nodes into the tree");

    assert_eq!(
        shape(&tree.root),
        Shape {
            path: None,
            children: vec![(
                b"crabs".to_vec(),
                Shape {
                    path: Some(b"/tmp/proto/crabs.rs".to_vec()),
                    children: vec![
                        (
                            b"disney".to_vec(),
                            Shape {
                                path: None,
                                children: vec![leaf("ariel", "/tmp/proto/crabs.disney.ariel.rs")],
                            }
                        ),
                        leaf("sponge_bob", "/tmp/proto/crabs.sponge_bob.rs"),
                    ],
                }
            )],
        },
        "The parsed tree has invalid structure",
    );
}

#[test]
fn modularize() {
    let entries = vec![
        dir("/src"),
        file("/src/_.rs"),
        file("/src/a.b.c.rs"),
        file("/src/a.b.c.d.rs"),
        file("/src/z.rs"),
    ];
    let sources = HashMap::from([
        (b"/src/_.rs".to_vec(), b"struct Root;\n".to_vec()),
        (b"/src/a.b.c.rs".to_vec(), b"struct Branch;\n".to_vec()),
        (b"/src/a.b.c.d.rs".to_vec(), b"struct Leaf;\n".to_vec()),
        (b"/src/z.rs".to_vec(), b"struct Parallel;\n".to_vec()),
    ]);

    let steps = pbuildrs::modgen::modularize(&entries, b"/dst")
        .expect("Failed to modularize the files");
    let files = perform(&steps, &sources);

    assert_eq!(files.len(), 6, "One module file for each node");
    assert_eq!(
        "struct Leaf;\n", files["/dst/a/b/c/d/mod.rs"],
        "Invalid contents of the output leaf module `d`",
    );
    assert_eq!(
        "pub mod d;\n\nstruct Branch;\n", files["/dst/a/b/c/mod.rs"],
        "Invalid contents of the output branch module `c`",
    );
    assert_eq!(
        "pub mod c;\n", files["/dst/a/b/mod.rs"],
        "Invalid contents of the output branch module `b`",
    );
    assert_eq!(
        "pub mod b;\n", files["/dst/a/mod.rs"],
        "Invalid contents of the output branch module `a`",
    );
    assert_eq!(
        "pub mod a;\npub mod z;\n\nstruct Root;\n", files["/dst/mod.rs"],
        "Invalid contents of the output root module",
    );
    assert_eq!(
        "struct Parallel;\n", files["/dst/z/mod.rs"],
        "Invalid contents of the output parallel module",
    );
}

#[test]
fn modularize_gives_the_steps_in_order() {
    let entries = vec![file("/src/b.rs"), file("/src/a.x.rs")];
    let steps = pbuildrs::modgen::modularize(&entries, b"out").unwrap();
    assert_eq!(
        steps,
        vec![
            Step::MakeDir(b"out".to_vec()),
            Step::MakeDir(b"out/a".to_vec()),
            Step::MakeDir(b"out/a/x".to_vec()),
            Step::WriteModule {
                file: b"out/a/x/mod.rs".to_vec(),
                children: vec![],
                source: Some(b"/src/a.x.rs".to_vec()),
            },
            Step::WriteModule {
                file: b"out/a/mod.rs".to_vec(),
                children: vec![b"x".to_vec()],
                source: None,
            },
            Step::MakeDir(b"out/b".to_vec()),
            Step::WriteModule {
                file: b"out/b/mod.rs".to_vec(),
                children: vec![],
                source: Some(b"/src/b.rs".to_vec()),
            },
            Step::WriteModule {
                file: b"out/mod.rs".to_vec(),
                children: vec![b"a".to_vec(), b"b".to_vec()],
                source: None,
            },
        ]
    );
}

#[test]
fn modularize_of_nothing_writes_an_empty_root_module() {
    let steps = pbuildrs::modgen::modularize(&vec![], b"/dst").unwrap();
    assert_eq!(
        steps,
        vec![
            Step::MakeDir(b"/dst".to_vec()),
            Step::WriteModule {
                file: b"/dst/mod.rs".to_vec(),
                children: vec![],
                source: None,
            },
        ]
    );
    assert_eq!(render_module(&vec![], None), Vec::<u8>::new());
}

#[test]
fn modularize_takes_generated_source_files_only() {
    let entries = vec![
        dir("/src"),
        dir("/src/dir.rs"),
        file("/src/README.md"),
        file("/src/.rs"),
        file("/src/rs"),
        Entry {
            path: b"/src/link.rs".to_vec(),
            is_dir: false,
            is_file: false,
        },
        file("/src/only.rs"),
    ];
    let tree = Tree::new().push(b"/src/only.rs".to_vec()).unwrap();
    assert_eq!(
        pbuildrs::modgen::modularize(&entries, b"/dst"),
        Ok(tree.compile(b"/dst"))
    );
}

#[test]
fn rust_files() {
    assert!(is_rust_file(&file("/src/a.b.rs")));
    assert!(is_rust_file(&file("a.rs")));
    assert!(!is_rust_file(&file("/src/a.proto")));
    assert!(!is_rust_file(&file("/src/a.rs/b")));
    assert!(!is_rust_file(&file("/src/a.rsx")));
    assert!(!is_rust_file(&file("/src/.rs")));
    assert!(!is_rust_file(&file("/src/a.rs/")));
    assert!(!is_rust_file(&dir("/src/a.rs")));
}

#[test]
fn a_path_without_a_file_name_is_refused() {
    for path in [&b"/"[..], b"", b"/src/", b"/src/..", b".", b".."] {
        assert_eq!(
            Tree::new().push(path.to_vec()),
            Err(Error::FileName(path.to_vec()))
        );
    }
}

#[test]
fn the_root_placeholder_makes_no_level() {
    let with = Tree::new().push(b"/src/a._.b.rs".to_vec()).unwrap();
    let without = Tree::new().push(b"/src/a.b.rs".to_vec()).unwrap();
    assert_eq!(
        shape(&with.root),
        Shape {
            path: None,
            children: vec![(
                b"a".to_vec(),
                Shape {
                    path: None,
                    children: vec![leaf("b", "/src/a._.b.rs")],
                }
            )],
        }
    );
    assert_eq!(with.compile(b"d").len(), without.compile(b"d").len());
}

#[test]
fn a_file_pushed_again_replaces_the_first() {
    let tree = Tree::new()
        .push(b"/one/a.rs".to_vec())
        .and_then(|t| t.push(b"/two/a.rs".to_vec()))
        .unwrap();
    assert_eq!(
        shape(&tree.root),
        Shape {
            path: None,
            children: vec![leaf("a", "/two/a.rs")],
        }
    );
}

#[test]
fn node_push_takes_the_last_segment_first() {
    let node = Node::new().push(
        b"f".to_vec(),
        vec![b"c".to_vec(), b"_".to_vec(), b"b".to_vec(), b"a".to_vec()],
    );
    let tree = Tree::new().push(b"a.b.c.x".to_vec()).unwrap();
    let expected = Node::new().push(
        b"a.b.c.x".to_vec(),
        vec![b"c".to_vec(), b"b".to_vec(), b"a".to_vec()],
    );
    assert_eq!(tree.root, expected);
    assert_eq!(
        shape(&node),
        Shape {
            path: None,
            children: vec![(
                b"a".to_vec(),
                Shape {
                    path: None,
                    children: vec![(
                        b"b".to_vec(),
                        Shape {
                            path: None,
                            children: vec![leaf("c", "f")],
                        }
                    )],
                }
            )],
        }
    );
}

#[test]
fn the_tree_does_not_depend_on_the_order_of_the_files() {
    let paths: [&[u8]; 5] = [
        b"/src/b.rs",
        b"/src/a.z.rs",
        b"/src/_.rs",
        b"/src/a.rs",
        b"/src/a.b.c.rs",
    ];
    let build = |order: &[usize]| {
        let mut tree = Tree::new();
        for &i in order {
            tree = tree.push(paths[i].to_vec()).unwrap();
        }
        tree
    };
    let first = build(&[0, 1, 2, 3, 4]);
    for order in [
        [4, 3, 2, 1, 0],
        [2, 0, 4, 1, 3],
        [1, 4, 0, 3, 2],
        [3, 1, 4, 2, 0],
    ] {
        assert_eq!(build(&order), first);
    }
    let steps = first.compile(b"/dst");
    assert_eq!(
        steps.last(),
        Some(&Step::WriteModule {
            file: b"/dst/mod.rs".to_vec(),
            children: vec![b"a".to_vec(), b"b".to_vec()],
            source: Some(b"/src/_.rs".to_vec()),
        })
    );
}

#[test]
fn declarations_stand_in_the_order_of_the_names() {
    let mut tree = Tree::new();
    for name in ["m.zz", "m.b", "m.a_", "m.a", "m.B", "m.ab", "m.a.x", "m.0"] {
        tree = tree
            .push(format!("/src/{}.rs", name).into_bytes())
            .unwrap();
    }
    for step in tree.compile(b"/dst") {
        if let Step::WriteModule { children, .. } = step {
            let mut sorted = children.clone();
            sorted.sort();
            sorted.dedup();
            assert_eq!(children, sorted);
        }
    }
    let mut tree = Tree::new();
    for name in ["zz", "b", "a_", "a", "B", "ab", "0"] {
        tree = tree
            .push(format!("/src/{}.rs", name).into_bytes())
            .unwrap();
    }
    assert_eq!(
        String::from_utf8(render_module(
            &tree
                .root
                .children()
                .iter()
                .map(|c| c.name.clone())
                .collect(),
            None
        ))
        .unwrap(),
        "pub mod 0;\npub mod B;\npub mod a;\npub mod a_;\npub mod ab;\npub mod b;\npub mod zz;\n"
    );
}

#[test]
fn a_module_file_is_declarations_then_content() {
    let names = vec![b"a".to_vec(), b"z".to_vec()];
    assert_eq!(
        render_module(&names, None),
        b"pub mod a;\npub mod z;\n".to_vec()
    );
    assert_eq!(
        render_module(&names, Some(b"struct Root;\n")),
        b"pub mod a;\npub mod z;\n\nstruct Root;\n".to_vec()
    );
    assert_eq!(
        render_module(&vec![], Some(b"struct Leaf;\n")),
        b"struct Leaf;\n".to_vec()
    );
    assert_eq!(
        render_module(&names, Some(b"")),
        b"pub mod a;\npub mod z;\n\n".to_vec()
    );
    assert_eq!(render_module(&vec![], Some(b"")), Vec::<u8>::new());
    assert_eq!(
        render_declarations(&names),
        b"pub mod a;\npub mod z;\n".to_vec()
    );
    assert_eq!(render_declarations(&vec![]), Vec::<u8>::new());
    assert_eq!(
        render_content(&names, b"struct Root;\n"),
        b"\nstruct Root;\n".to_vec()
    );
    assert_eq!(
        render_content(&vec![], b"struct Leaf;\n"),
        b"struct Leaf;\n".to_vec()
    );
}

#[test]
fn node_compile_is_tree_compile() {
    let tree = Tree::new().push(b"/src/a.rs".to_vec()).unwrap();
    let steps = tree.compile(b"/dst/");
    let node = Node::new().push(b"/src/a.rs".to_vec(), vec![b"a".to_vec()]);
    assert_eq!(node.compile(b"/dst/".to_vec()), steps);
    assert_eq!(
        steps,
        vec![
            Step::MakeDir(b"/dst/".to_vec()),
            Step::MakeDir(b"/dst/a".to_vec()),
            Step::WriteModule {
                file: b"/dst/a/mod.rs".to_vec(),
                children: vec![],
                source: Some(b"/src/a.rs".to_vec()),
            },
            Step::WriteModule {
                file: b"/dst/mod.rs".to_vec(),
                children: vec![b"a".to_vec()],
                source: None,
            },
        ]
    );
}
