use cpp_typecheck::cmd::Database;
use cpp_typecheck::config::{
    get_source_file, include_directive, is_cpp_source_file, is_header_file, needs_donor,
    sibling_candidates, SourceFile,
};
use cpp_typecheck::ct_result::CtError;

const DB: &str = r#"[{"directory": "/x", "command": "g++ -Iinc -c /x/a.cpp -o a.o", "file": "/x/a.cpp"}]"#;

fn dbs() -> Vec<Database> {
    vec![Database { path: "/x/compile_commands.json".to_string(), contents: DB.to_string() }]
}

fn files(v: &[&str]) -> Vec<String> {
    v.iter().map(|s| s.to_string()).collect()
}

#[test]
fn header_extensions_are_recognized() {
    assert!(is_header_file("/x/foo.h"));
    assert!(is_header_file("/x/foo.HPP"));
    assert!(is_header_file("/x/foo.h++"));
    assert!(is_header_file("/x/foo"));
    assert!(!is_header_file("/x/foo.cpp"));
    assert!(!is_header_file("/x/foo.txt"));
}

#[test]
fn source_extensions_are_recognized() {
    assert!(is_cpp_source_file("/x/a.cc"));
    assert!(is_cpp_source_file("/x/a.C"));
    assert!(is_cpp_source_file("/x/a.c++"));
    assert!(!is_cpp_source_file("/x/a.h"));
    assert!(!is_cpp_source_file("/x/a"));
    assert!(!is_cpp_source_file("/x/.cpp"));
}

#[test]
fn siblings_follow_the_extension_table() {
    let c = sibling_candidates("/x/foo.h");
    assert_eq!(c.len(), 10);
    assert_eq!(c[0], "/x/foo.cpp");
    assert_eq!(c[1], "/x/foo.cxx");
    assert_eq!(c[3], "/x/foo.c++");
    assert_eq!(c[9], "/x/foo.C++");
    assert_eq!(sibling_candidates("/x/foo")[2], "/x/foo.cc");
}

#[test]
fn source_file_is_taken_directly() {
    let s = get_source_file("/x/a.cpp", &vec![], &vec![], &vec![]).unwrap();
    match s {
        SourceFile::FromArg { cpp_file } => assert_eq!(cpp_file, "/x/a.cpp"),
        other => panic!("unexpected {:?}", other),
    }
}

#[test]
fn header_with_same_named_source_uses_it() {
    let mut exists = vec![false; 10];
    exists[0] = true;
    let s = get_source_file("/x/foo.h", &exists, &files(&["/x/a.cpp"]), &dbs()).unwrap();
    match &s {
        SourceFile::FromHeader { header_file, cpp_file } => {
            assert_eq!(header_file, "/x/foo.h");
            assert_eq!(cpp_file, "/x/foo.cpp");
        }
        other => panic!("unexpected {:?}", other),
    }
    assert_eq!(s.origin_path(), "/x/foo.h");
    assert!(!needs_donor("/x/foo.h", &exists));
}

#[test]
fn first_existing_sibling_wins() {
    let mut exists = vec![false; 10];
    exists[2] = true;
    exists[4] = true;
    match get_source_file("/x/foo.hpp", &exists, &vec![], &vec![]).unwrap() {
        SourceFile::FromHeader { cpp_file, .. } => assert_eq!(cpp_file, "/x/foo.cc"),
        other => panic!("unexpected {:?}", other),
    }
}

#[test]
fn header_without_sibling_borrows_a_donor_record() {
    let exists = vec![false; 10];
    assert!(needs_donor("/x/foo.h", &exists));
    let dir = files(&["/x/readme.txt", "/x/foo.h", "/x/b.cpp", "/x/a.cpp"]);
    let s = get_source_file("/x/foo.h", &exists, &dir, &dbs()).unwrap();
    match &s {
        SourceFile::FromHeaderWithTmpSource { header_file, cmd_cpp_file, cmd } => {
            assert_eq!(header_file, "/x/foo.h");
            assert_eq!(cmd_cpp_file, "/x/a.cpp");
            assert_eq!(cmd.file(), "/x/a.cpp");
            let t = cmd.replace_cpp_file("/tmp/cpp-typecheck-1.cpp");
            assert_eq!(t.command(), "g++ -Iinc -c /tmp/cpp-typecheck-1.cpp -o a.o");
        }
        other => panic!("unexpected {:?}", other),
    }
    assert_eq!(s.origin_path(), "/x/foo.h");
}

#[test]
fn header_without_source_or_donor_fails() {
    let exists = vec![false; 10];
    let r = get_source_file("/x/foo.h", &exists, &files(&["/x/b.cpp", "/x/notes.md"]), &dbs());
    assert_eq!(r.unwrap_err(), CtError::NoSourceFound { header: "/x/foo.h".to_string() });
}

#[test]
fn non_header_needs_no_donor() {
    assert!(!needs_donor("/x/a.cpp", &vec![]));
}

#[test]
fn include_directive_names_the_header() {
    assert_eq!(include_directive("/x/foo.h"), "#include \"/x/foo.h\"\n");
}
