use cpp_typecheck::cmd::{Cmd, Database};
use cpp_typecheck::ct_result::CtError;

fn db(path: &str, contents: &str) -> Database {
    Database { path: path.to_string(), contents: contents.to_string() }
}

const THREE: &str = r#"[
  {"directory": "/proj/build", "command": "gcc -c ../src/a.c", "file": "../src/a.c"},
  {"directory": "/proj", "command": "g++ -c src/b.cpp", "file": "src/b.cpp"},
  {"directory": "/proj", "command": "clang++ -c /abs/c.cpp", "file": "/abs/c.cpp"}
]"#;

#[test]
fn resolve_returns_record_with_absolute_file() {
    let dbs = vec![db("/proj/compile_commands.json", THREE)];
    let cmd = Cmd::from_databases("/proj/src/b.cpp", &dbs).unwrap();
    assert_eq!(cmd.directory(), "/proj");
    assert_eq!(cmd.command(), "g++ -c src/b.cpp");
    assert_eq!(cmd.file(), "/proj/src/b.cpp");
}

#[test]
fn resolve_keeps_absolute_file() {
    let dbs = vec![db("/proj/compile_commands.json", THREE)];
    let cmd = Cmd::from_databases("/abs/c.cpp", &dbs).unwrap();
    assert_eq!(cmd.directory(), "/proj");
    assert_eq!(cmd.command(), "clang++ -c /abs/c.cpp");
    assert_eq!(cmd.file(), "/abs/c.cpp");
}

#[test]
fn resolve_keeps_parent_components() {
    let dbs = vec![db("/proj/compile_commands.json", THREE)];
    let cmd = Cmd::from_databases("/proj/build/../src/a.c", &dbs).unwrap();
    assert_eq!(cmd.directory(), "/proj/build");
    assert!(matches!(Cmd::from_databases("/proj/src/a.c", &dbs), Err(CtError::NotFound { .. })));
}

#[test]
fn resolve_directory_with_trailing_slash() {
    let dbs = vec![db("d.json", r#"[{"directory": "/p/", "command": "cc x.c", "file": "x.c"}]"#)];
    let cmd = Cmd::from_databases("/p/x.c", &dbs).unwrap();
    assert_eq!(cmd.file(), "/p/x.c");
}

#[test]
fn resolve_takes_first_of_duplicates() {
    let text = r#"[
      {"directory": "/p", "command": "gcc -DONE x.c", "file": "x.c"},
      {"directory": "/p", "command": "gcc -DTWO x.c", "file": "x.c"}
    ]"#;
    let cmd = Cmd::from_databases("/p/x.c", &vec![db("d.json", text)]).unwrap();
    assert_eq!(cmd.command(), "gcc -DONE x.c");
}

#[test]
fn resolve_searches_databases_in_order() {
    let first = r#"[{"directory": "/p", "command": "gcc -DFIRST x.c", "file": "x.c"}]"#;
    let second = r#"[{"directory": "/p", "command": "gcc -DSECOND y.c", "file": "y.c"},
                     {"directory": "/p", "command": "gcc -DSECOND x.c", "file": "x.c"}]"#;
    let dbs = vec![db("one.json", first), db("two.json", second)];
    assert_eq!(Cmd::from_databases("/p/x.c", &dbs).unwrap().command(), "gcc -DFIRST x.c");
    assert_eq!(Cmd::from_databases("/p/y.c", &dbs).unwrap().command(), "gcc -DSECOND y.c");
}

#[test]
fn resolve_stops_before_a_later_broken_database() {
    let first = r#"[{"directory": "/p", "command": "gcc x.c", "file": "x.c"}]"#;
    let dbs = vec![db("one.json", first), db("two.json", "not json")];
    assert_eq!(Cmd::from_databases("/p/x.c", &dbs).unwrap().file(), "/p/x.c");
}

#[test]
fn command_backslashes_are_stripped() {
    let text = r#"[{"directory": "/p", "command": "gcc -DNAME=\\\"v\\\" x.c", "file": "x.c"}]"#;
    let cmd = Cmd::from_databases("/p/x.c", &vec![db("d.json", text)]).unwrap();
    assert_eq!(cmd.command(), "gcc -DNAME=\"v\" x.c");
}

#[test]
fn absent_file_is_not_found_naming_every_database() {
    let dbs = vec![db("/a/one.json", THREE), db("/b/two.json", "[]")];
    match Cmd::from_databases("/nowhere/z.cpp", &dbs) {
        Err(CtError::NotFound { file, databases }) => {
            assert_eq!(file, "/nowhere/z.cpp");
            assert_eq!(databases, vec!["/a/one.json".to_string(), "/b/two.json".to_string()]);
        }
        other => panic!("unexpected {:?}", other),
    }
}

#[test]
fn no_databases_is_not_found() {
    match Cmd::from_databases("/p/x.c", &vec![]) {
        Err(CtError::NotFound { databases, .. }) => assert!(databases.is_empty()),
        other => panic!("unexpected {:?}", other),
    }
}

#[test]
fn invalid_json_is_a_parse_error() {
    match Cmd::from_databases("/p/x.c", &vec![db("bad.json", "[{\"directory\": ")]) {
        Err(CtError::ParseError { database, detail }) => {
            assert_eq!(database, "bad.json");
            assert!(!detail.is_empty());
        }
        other => panic!("unexpected {:?}", other),
    }
}

#[test]
fn top_level_object_is_a_parse_error() {
    let r = Cmd::from_databases("/p/x.c", &vec![db("obj.json", r#"{"directory": "/p"}"#)]);
    assert!(matches!(r, Err(CtError::ParseError { .. })));
}

#[test]
fn element_that_is_not_an_object_is_a_parse_error() {
    let r = Cmd::from_databases("/p/x.c", &vec![db("e.json", r#"[1]"#)]);
    assert!(matches!(r, Err(CtError::ParseError { .. })));
    let r = Cmd::from_databases("/p/x.c", &vec![db("e.json", r#"[null]"#)]);
    assert!(matches!(r, Err(CtError::ParseError { .. })));
}

fn schema_field(text: &str) -> String {
    match Cmd::from_databases("/p/x.c", &vec![db("s.json", text)]) {
        Err(CtError::SchemaError { database, field }) => {
            assert_eq!(database, "s.json");
            field
        }
        other => panic!("unexpected {:?}", other),
    }
}

#[test]
fn missing_members_are_schema_errors() {
    assert_eq!(schema_field(r#"[{"command": "gcc", "file": "x.c"}]"#), "directory");
    assert_eq!(schema_field(r#"[{"directory": "/p", "command": "gcc"}]"#), "file");
    assert_eq!(schema_field(r#"[{"directory": "/p", "file": "x.c"}]"#), "command");
    assert_eq!(schema_field(r#"[{"directory": "/p", "file": "x.c", "command": 3}]"#), "command");
}

#[test]
fn has_cpp_file_compares_the_file() {
    let cmd = Cmd::new("/p".to_string(), "gcc x.c".to_string(), "/p/x.c".to_string());
    assert!(cmd.has_cpp_file("/p/x.c"));
    assert!(!cmd.has_cpp_file("/p/y.c"));
}

#[test]
fn replace_cpp_file_rewrites_file_and_command() {
    let cmd = Cmd::new("/p".to_string(), "gcc -c /p/x.c -o /p/x.c.o".to_string(), "/p/x.c".to_string());
    let r = cmd.replace_cpp_file("/tmp/t.cpp");
    assert_eq!(r.directory(), "/p");
    assert_eq!(r.command(), "gcc -c /tmp/t.cpp -o /tmp/t.cpp.o");
    assert_eq!(r.file(), "/tmp/t.cpp");
    assert_eq!(cmd.command(), "gcc -c /p/x.c -o /p/x.c.o");
}

#[test]
fn bad_element_after_the_match_fails_the_database() {
    let text = r#"[{"directory": "/p", "command": "gcc x.c", "file": "x.c"}, 7]"#;
    let r = Cmd::from_databases("/p/x.c", &vec![db("d.json", text)]);
    assert!(matches!(r, Err(CtError::ParseError { .. })));
    let text = r#"[{"directory": "/p", "command": "gcc x.c", "file": "x.c"}, {"directory": "/p"}]"#;
    assert_eq!(schema_field(text), "file");
}

#[test]
fn files_are_compared_as_paths() {
    let dbs = vec![db("d.json", r#"[{"directory": "/p", "command": "gcc a.cpp", "file": "a.cpp"}]"#)];
    assert_eq!(Cmd::from_databases("/p//a.cpp", &dbs).unwrap().file(), "/p/a.cpp");
    assert_eq!(Cmd::from_databases("/p/./a.cpp", &dbs).unwrap().file(), "/p/a.cpp");
    assert!(Cmd::from_databases("/p/A.cpp", &dbs).is_err());
    let cmd = Cmd::new("/p".to_string(), "gcc a.cpp".to_string(), "/p/a.cpp".to_string());
    assert!(cmd.has_cpp_file("/p//a.cpp"));
    assert!(!cmd.has_cpp_file("a.cpp"));
}
