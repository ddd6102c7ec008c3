use cpp_typecheck::cache::compute_hash;
use cpp_typecheck::cmd::{Cmd, Database};
use cpp_typecheck::config::{get_cmd_from_files, CmdCaching, Lookup};
use cpp_typecheck::ct_result::{CtError, OrErr};

fn record() -> Cmd {
    Cmd::new("/p/build".to_string(), "gcc -c /p/x.c".to_string(), "/p/x.c".to_string())
}

#[test]
fn cache_entry_round_trip() {
    let c = record();
    let e = c.cache_entry();
    assert_eq!(e.text, "/p/build\ngcc -c /p/x.c\n/p/x.c");
    assert_eq!(e.key, compute_hash("/p/x.c"));
    let back = Cmd::from_cache_text(&e.text).unwrap();
    assert_eq!(back.directory(), "/p/build");
    assert_eq!(back.command(), "gcc -c /p/x.c");
    assert_eq!(back.file(), "/p/x.c");
}

#[test]
fn first_stored_record_stays() {
    let first = record();
    let second = Cmd::new("/q".to_string(), "clang -c /p/x.c".to_string(), "/p/x.c".to_string());
    let e1 = first.cache_entry();
    let e2 = second.cache_entry();
    assert_eq!(e1.key, e2.key);
    let mut cache = std::collections::HashMap::new();
    cache.entry(e1.key.clone()).or_insert(e1.text.clone());
    cache.entry(e2.key.clone()).or_insert(e2.text.clone());
    let stored = cache.get(&compute_hash("/p/x.c")).map(|s| s.as_str());
    let c = Cmd::from_cache(stored).unwrap().unwrap();
    assert_eq!(c.directory(), "/p/build");
    assert_eq!(c.command(), "gcc -c /p/x.c");
}

#[test]
fn cache_key_is_decimal_and_stable() {
    let k = compute_hash("/p/x.c");
    assert!(!k.is_empty());
    assert!(k.chars().all(|c| c.is_ascii_digit()));
    assert!(k == "0" || !k.starts_with('0'));
    assert_eq!(k, compute_hash("/p/x.c"));
    assert_ne!(k, compute_hash("/p/y.c"));
    assert_ne!(k, "/p/x.c");
}

#[test]
fn missing_entry_is_no_record() {
    assert!(Cmd::from_cache(None).unwrap().is_none());
}

#[test]
fn short_entry_is_corrupt() {
    let r = Cmd::from_cache_text("/p\ngcc x.c\n");
    assert_eq!(r.unwrap_err(), CtError::CorruptEntry { entry: "/p\ngcc x.c\n".to_string() });
    assert!(matches!(Cmd::from_cache_text(""), Err(CtError::CorruptEntry { .. })));
}

#[test]
fn entry_with_empty_command_is_corrupt() {
    assert!(matches!(Cmd::from_cache_text("/p\n\n/p/x.c"), Err(CtError::CorruptEntry { .. })));
}

#[test]
fn entry_lines_may_end_with_crlf() {
    let c = Cmd::from_cache_text("/p\r\ngcc x.c\r\n/p/x.c\r\n").unwrap();
    assert_eq!(c.directory(), "/p");
    assert_eq!(c.command(), "gcc x.c");
    assert_eq!(c.file(), "/p/x.c");
}

#[test]
fn caching_mode_from_flags() {
    assert_eq!(CmdCaching::from_flags(false, false), CmdCaching::Normal);
    assert_eq!(CmdCaching::from_flags(true, false), CmdCaching::Bypass);
    assert_eq!(CmdCaching::from_flags(true, true), CmdCaching::Bypass);
    assert_eq!(CmdCaching::from_flags(false, true), CmdCaching::Recache);
    assert!(CmdCaching::Normal.reads_cache());
    assert!(!CmdCaching::Recache.reads_cache());
    assert!(!CmdCaching::Bypass.writes_cache());
    assert!(CmdCaching::Recache.writes_cache());
}

fn dbs() -> Vec<Database> {
    let text = r#"[{"directory": "/p/db", "command": "g++ -c x.c", "file": "/p/x.c"}]"#;
    vec![Database { path: "/p/compile_commands.json".to_string(), contents: text.to_string() }]
}

fn db_files() -> Vec<String> {
    vec!["/p/compile_commands.json".to_string()]
}

#[test]
fn normal_mode_uses_a_cached_entry() {
    let entry = record().cache_entry();
    match get_cmd_from_files("/p/x.c", &CmdCaching::Normal, Some(&entry.text), &db_files(), &vec![]).unwrap() {
        Lookup::Found { cmd, store } => {
            assert_eq!(cmd.directory(), "/p/build");
            assert!(store.is_none());
        }
        other => panic!("unexpected {:?}", other),
    }
}

#[test]
fn normal_mode_without_entry_resolves_and_stores() {
    let r = get_cmd_from_files("/p/x.c", &CmdCaching::Normal, None, &db_files(), &vec![]).unwrap();
    assert!(matches!(r, Lookup::NeedDatabase));
    match get_cmd_from_files("/p/x.c", &CmdCaching::Normal, None, &db_files(), &dbs()).unwrap() {
        Lookup::Found { cmd, store } => {
            assert_eq!(cmd.directory(), "/p/db");
            let e = store.unwrap();
            assert_eq!(e.key, compute_hash("/p/x.c"));
            assert_eq!(e.text, "/p/db\ng++ -c x.c\n/p/x.c");
        }
        other => panic!("unexpected {:?}", other),
    }
}

#[test]
fn bypass_mode_ignores_the_cache() {
    let entry = record().cache_entry();
    let r = get_cmd_from_files("/p/x.c", &CmdCaching::Bypass, Some(&entry.text), &db_files(), &vec![]).unwrap();
    assert!(matches!(r, Lookup::NeedDatabase));
    match get_cmd_from_files("/p/x.c", &CmdCaching::Bypass, Some(&entry.text), &db_files(), &dbs()).unwrap() {
        Lookup::Found { cmd, store } => {
            assert_eq!(cmd.directory(), "/p/db");
            assert!(store.is_none());
        }
        other => panic!("unexpected {:?}", other),
    }
}

#[test]
fn recache_mode_resolves_and_stores() {
    let entry = record().cache_entry();
    match get_cmd_from_files("/p/x.c", &CmdCaching::Recache, Some(&entry.text), &db_files(), &dbs()).unwrap() {
        Lookup::Found { cmd, store } => {
            assert_eq!(cmd.directory(), "/p/db");
            assert!(store.is_some());
        }
        other => panic!("unexpected {:?}", other),
    }
}

#[test]
fn normal_mode_with_corrupt_entry_fails() {
    let r = get_cmd_from_files("/p/x.c", &CmdCaching::Normal, Some("/p"), &db_files(), &dbs());
    assert!(matches!(r, Err(CtError::CorruptEntry { .. })));
}

#[test]
fn or_err_turns_missing_into_errors() {
    assert_eq!(Some(3).or_err("none"), Ok(3));
    assert_eq!(None::<i32>.or_err("none"), Err("none"));
    assert_eq!(true.or_err(7), Ok(()));
    assert_eq!(false.or_err(7), Err(7));
}

#[test]
fn lookup_reads_databases_one_at_a_time() {
    let files = vec!["/p/one.json".to_string(), "/p/two.json".to_string()];
    let first = Database {
        path: "/p/one.json".to_string(),
        contents: r#"[{"directory": "/p", "command": "gcc y.c", "file": "y.c"}]"#.to_string(),
    };
    let second = Database {
        path: "/p/two.json".to_string(),
        contents: r#"[{"directory": "/p", "command": "gcc x.c", "file": "x.c"}]"#.to_string(),
    };
    let one = vec![first.clone()];
    match get_cmd_from_files("/p/y.c", &CmdCaching::Bypass, None, &files, &one).unwrap() {
        Lookup::Found { cmd, .. } => assert_eq!(cmd.command(), "gcc y.c"),
        other => panic!("unexpected {:?}", other),
    }
    let r = get_cmd_from_files("/p/x.c", &CmdCaching::Bypass, None, &files, &one).unwrap();
    assert!(matches!(r, Lookup::NeedDatabase));
    let both = vec![first, second];
    match get_cmd_from_files("/p/x.c", &CmdCaching::Bypass, None, &files, &both).unwrap() {
        Lookup::Found { cmd, .. } => assert_eq!(cmd.command(), "gcc x.c"),
        other => panic!("unexpected {:?}", other),
    }
    match get_cmd_from_files("/p/z.c", &CmdCaching::Bypass, None, &files, &both) {
        Err(CtError::NotFound { file, databases }) => {
            assert_eq!(file, "/p/z.c");
            assert_eq!(databases, files);
        }
        other => panic!("unexpected {:?}", other),
    }
}
