use pbuildrs::patcher::{patch_edition, Outcome};
use pbuildrs::path::{
    bytes_eq, bytes_lt, find_last, get_file_name, get_file_stem, get_join, get_package,
    get_relative, has_extension, starts_with,
};
use pbuildrs::{patch_protos, Entry, Error, Patch, Plan};

fn file(path: &str) -> Entry {
    Entry {
        path: path.as_bytes().to_vec(),
        is_dir: false,
        is_file: true,
    }
}

fn dir(path: &str) -> Entry {
    Entry {
        path: path.as_bytes().to_vec(),
        is_dir: true,
        is_file: false,
    }
}

#[test]
fn patch_proto_successfully_handles_file_generation() {
    let entries = vec![dir("/src"), file("/src/test.proto"), file("/src/README.md")];
    let source = "edition = \"2023\";\n\npackage test;\n\nmessage Foo {\n}\n";

    let plan = patch_protos(b"/src", b"/dst", &entries).expect("Patcher failed to plan");

    assert_eq!(plan.dirs, vec![b"/dst/".to_vec()]);
    assert_eq!(
        plan.files.len(),
        1,
        "Expected result to contain a single patched proto file path"
    );
    assert_eq!(plan.files[0].source, b"/src/test.proto".to_vec());
    assert_eq!(plan.files[0].output, b"/dst/test.proto".to_vec());

    let mut patched = Vec::new();
    let outcome = patch_edition(source.as_bytes(), &mut patched);
    assert_eq!(outcome, Ok(Outcome::Replaced));
    assert_eq!(
        String::from_utf8(patched).unwrap(),
        "syntax = \"proto3\";\n\npackage test;\n\nmessage Foo {\n}\n",
        "The patched file content is invalid"
    );
}

#[test]
fn directories_are_mirrored_and_proto_files_patched() {
    let entries = vec![
        dir("proto"),
        dir("proto/crabs"),
        file("proto/crabs/Ferris.proto"),
        file("proto/crabs/notes.txt"),
        dir("proto/crabs/disney"),
        file("proto/crabs/disney/ariel.proto"),
        file("proto/.proto"),
        file("proto/proto"),
        dir("proto/empty.proto"),
        Entry {
            path: b"proto/link.proto".to_vec(),
            is_dir: false,
            is_file: false,
        },
    ];
    assert_eq!(
        patch_protos(b"proto", b"/tmp/x/protos", &entries),
        Ok(Plan {
            dirs: vec![
                b"/tmp/x/protos/".to_vec(),
                b"/tmp/x/protos/crabs".to_vec(),
                b"/tmp/x/protos/crabs/disney".to_vec(),
                b"/tmp/x/protos/empty.proto".to_vec(),
            ],
            files: vec![
                Patch {
                    source: b"proto/crabs/Ferris.proto".to_vec(),
                    output: b"/tmp/x/protos/crabs/Ferris.proto".to_vec(),
                },
                Patch {
                    source: b"proto/crabs/disney/ariel.proto".to_vec(),
                    output: b"/tmp/x/protos/crabs/disney/ariel.proto".to_vec(),
                },
                Patch {
                    source: b"proto/link.proto".to_vec(),
                    output: b"/tmp/x/protos/link.proto".to_vec(),
                },
            ],
        })
    );
}

#[test]
fn nothing_to_patch() {
    assert_eq!(
        patch_protos(b"/src", b"/dst", &vec![]),
        Ok(Plan {
            dirs: vec![],
            files: vec![],
        })
    );
}

#[test]
fn an_entry_outside_the_source_directory_fails_the_plan() {
    let entries = vec![dir("/src"), file("/other/a.proto")];
    assert_eq!(
        patch_protos(b"/src", b"/dst", &entries),
        Err(Error::PathResolve(b"/src".to_vec()))
    );
    let entries = vec![dir("/srcs")];
    assert_eq!(
        patch_protos(b"/src", b"/dst", &entries),
        Err(Error::PathResolve(b"/src".to_vec()))
    );
    let entries = vec![file("/other/a.txt"), file("/src/a.proto")];
    assert_eq!(
        patch_protos(b"/src", b"/dst", &entries),
        Ok(Plan {
            dirs: vec![],
            files: vec![Patch {
                source: b"/src/a.proto".to_vec(),
                output: b"/dst/a.proto".to_vec(),
            }],
        })
    );
}

#[test]
fn file_names() {
    assert_eq!(get_file_name(b"/tmp/foo/crabs.rs"), Some(b"crabs.rs".to_vec()));
    assert_eq!(get_file_name(b"crabs.rs"), Some(b"crabs.rs".to_vec()));
    assert_eq!(get_file_name(b"/tmp/..."), Some(b"...".to_vec()));
    assert_eq!(get_file_name(b"/tmp/.x"), Some(b".x".to_vec()));
    assert_eq!(get_file_name(b"/tmp/"), None);
    assert_eq!(get_file_name(b"/tmp/."), None);
    assert_eq!(get_file_name(b"/tmp/.."), None);
    assert_eq!(get_file_name(b""), None);
}

#[test]
fn extensions_and_stems() {
    assert!(has_extension(b"/a/b.proto", b"proto"));
    assert!(has_extension(b"b.c.proto", b"proto"));
    assert!(has_extension(b"b.", b""));
    assert!(!has_extension(b"/a/b.proto", b"rs"));
    assert!(!has_extension(b"/a/b.proto", b"roto"));
    assert!(!has_extension(b"/a/b.proto", b".proto"));
    assert!(!has_extension(b"/a.proto/b", b"proto"));
    assert!(!has_extension(b"/a/.proto", b"proto"));
    assert!(!has_extension(b"/a/proto", b"proto"));
    assert!(!has_extension(b"/a/..", b""));
    assert_eq!(get_file_stem(b"/a/b.c.rs"), Some(b"b.c".to_vec()));
    assert_eq!(get_file_stem(b"/a/b"), Some(b"b".to_vec()));
    assert_eq!(get_file_stem(b"/a/.b"), Some(b".b".to_vec()));
    assert_eq!(get_file_stem(b"/a/b."), Some(b"b".to_vec()));
    assert_eq!(get_file_stem(b"/a/"), None);
}

#[test]
fn packages() {
    assert_eq!(
        get_package(b"a.b.c"),
        vec![b"c".to_vec(), b"b".to_vec(), b"a".to_vec()]
    );
    assert_eq!(get_package(b"crabs"), vec![b"crabs".to_vec()]);
    assert_eq!(get_package(b"_"), vec![b"_".to_vec()]);
    assert_eq!(get_package(b""), vec![b"".to_vec()]);
    assert_eq!(
        get_package(b"a..b"),
        vec![b"b".to_vec(), b"".to_vec(), b"a".to_vec()]
    );
    assert_eq!(get_package(b".a"), vec![b"a".to_vec(), b"".to_vec()]);
}

#[test]
fn joined_and_relative_paths() {
    assert_eq!(get_join(b"/dst", b"a"), b"/dst/a".to_vec());
    assert_eq!(get_join(b"/dst/", b"a"), b"/dst/a".to_vec());
    assert_eq!(get_join(b"", b"a"), b"a".to_vec());
    assert_eq!(get_join(b"/dst", b""), b"/dst/".to_vec());
    assert_eq!(get_join(b"/", b"mod.rs"), b"/mod.rs".to_vec());
    assert_eq!(get_relative(b"/src/a/b", b"/src"), Some(b"a/b".to_vec()));
    assert_eq!(get_relative(b"/src/a/b", b"/src/"), Some(b"a/b".to_vec()));
    assert_eq!(get_relative(b"/src", b"/src"), Some(b"".to_vec()));
    assert_eq!(get_relative(b"a/b", b""), Some(b"a/b".to_vec()));
    assert_eq!(get_relative(b"/srcs/a", b"/src"), None);
    assert_eq!(get_relative(b"/sr", b"/src"), None);
    assert_eq!(get_relative(b"/other", b"/src"), None);
    for (base, name) in [(&b"/x"[..], &b"y/z"[..]), (b"", b"y"), (b"/x/", b""), (b"x", b"")] {
        assert_eq!(
            get_relative(&get_join(base, name), base),
            Some(name.to_vec())
        );
    }
}

#[test]
fn names_are_ordered_as_byte_strings() {
    let names: [&[u8]; 8] = [b"", b"a", b"B", b"ab", b"b", b"aa", b"a_", b"\xff"];
    for a in names {
        for b in names {
            assert_eq!(bytes_lt(a, b), a < b, "{:?} < {:?}", a, b);
            assert_eq!(bytes_eq(a, b), a == b, "{:?} == {:?}", a, b);
            assert_eq!(starts_with(a, b), a.starts_with(b), "{:?} {:?}", a, b);
        }
    }
}

#[test]
fn the_last_of_a_byte() {
    assert_eq!(find_last(b"a.b.c", b'.', 5), Some(3));
    assert_eq!(find_last(b"a.b.c", b'.', 3), Some(1));
    assert_eq!(find_last(b"a.b.c", b'.', 1), None);
    assert_eq!(find_last(b"a.b.c", b'.', 0), None);
    assert_eq!(find_last(b"abc", b'.', 3), None);
    assert_eq!(find_last(b".", b'.', 1), Some(0));
}
