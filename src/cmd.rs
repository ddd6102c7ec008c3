use vstd::prelude::*;

use crate::ct_result::{strings_view, CtError, CtErrorView};
use crate::json::{array_elements, error_text, member_str, object_strings, parse_array, JsonObject};
use crate::path::{join, join_path, path_eq, paths_equal};
use crate::text::{
    append_chars, chars_eq, chars_of, contains, contains_chars, remove_char,
    replace_all, replace_chars, split_chars, split_on, string_of, without_char,
};

verus! {

/// a compiler command from a clang compilation database
#[derive(Clone, Debug)]
pub struct Cmd {
    /// the working directory for the compiler command execution
    directory: String,
    /// the compiler command itself
    command: String,
    /// the C++ source file of the compilation, as an absolute path
    file: String,
}

/// A compile record as three character sequences.
pub struct CmdView {
    pub directory: Seq<char>,
    pub command: Seq<char>,
    pub file: Seq<char>,
}

impl View for Cmd {
    type V = CmdView;

    closed spec fn view(&self) -> CmdView {
        CmdView { directory: self.directory@, command: self.command@, file: self.file@ }
    }
}

/// One compilation database: the path it was read from and its text.
#[derive(Clone, Debug)]
pub struct Database {
    pub path: String,
    pub contents: String,
}

pub struct DatabaseView {
    pub path: Seq<char>,
    pub contents: Seq<char>,
}

impl View for Database {
    type V = DatabaseView;

    open spec fn view(&self) -> DatabaseView {
        DatabaseView { path: self.path@, contents: self.contents@ }
    }
}

pub open spec fn databases_view(dbs: Seq<Database>) -> Seq<DatabaseView> {
    dbs.map_values(|d: Database| d@)
}

/// The paths of the databases, in order.
pub open spec fn paths_of(dbs: Seq<DatabaseView>) -> Seq<Seq<char>> {
    dbs.map_values(|d: DatabaseView| d.path)
}

pub open spec fn cmd_result(r: Result<Cmd, CtError>) -> Result<CmdView, CtErrorView> {
    match r {
        Ok(c) => Ok(c@),
        Err(e) => Err(e@),
    }
}

pub open spec fn found_result(r: Result<Option<Cmd>, CtError>) -> Result<Option<CmdView>, CtErrorView> {
    match r {
        Ok(Some(c)) => Ok(Some(c@)),
        Ok(None) => Ok(None),
        Err(e) => Err(e@),
    }
}

/// The record that a database object describes: its `directory`, its `command`
/// without backslashes, and its `file` resolved against the directory.
pub open spec fn record_of(database: Seq<char>, obj: Map<Seq<char>, Seq<char>>) -> Result<
    CmdView,
    CtErrorView,
> {
    if !obj.contains_key("directory"@) {
        Err(CtErrorView::Schema { database, field: "directory"@ })
    } else if !obj.contains_key("file"@) {
        Err(CtErrorView::Schema { database, field: "file"@ })
    } else if !obj.contains_key("command"@) {
        Err(CtErrorView::Schema { database, field: "command"@ })
    } else {
        Ok(
            CmdView {
                directory: obj["directory"@],
                command: without_char(obj["command"@], '\\'),
                file: join(obj["directory"@], obj["file"@]),
            },
        )
    }
}

/// The records of the elements of one database, in order; the error of the
/// first element that is not an object holding a record, if any.
pub open spec fn records_of(database: Seq<char>, elems: Seq<Option<Map<Seq<char>, Seq<char>>>>) -> Result<
    Seq<CmdView>,
    CtErrorView,
>
    decreases elems.len(),
{
    if elems.len() == 0 {
        Ok(Seq::<CmdView>::empty())
    } else {
        match elems[0] {
            None => Err(CtErrorView::Parse { database }),
            Some(obj) => match record_of(database, obj) {
                Err(e) => Err(e),
                Ok(c) => match records_of(database, elems.drop_first()) {
                    Err(e) => Err(e),
                    Ok(rs) => Ok(seq![c] + rs),
                },
            },
        }
    }
}

/// The first of `rs` whose file is the path `target`.
pub open spec fn find_first(target: Seq<char>, rs: Seq<CmdView>) -> Option<CmdView>
    decreases rs.len(),
{
    if rs.len() == 0 {
        None
    } else if path_eq(rs[0].file, target) {
        Some(rs[0])
    } else {
        find_first(target, rs.drop_first())
    }
}

/// The first record for `target` in one database, once the whole database
/// has been read as records.
pub open spec fn find_in_database(target: Seq<char>, db: DatabaseView) -> Result<
    Option<CmdView>,
    CtErrorView,
> {
    match array_elements(db.contents) {
        None => Err(CtErrorView::Parse { database: db.path }),
        Some(elems) => match records_of(db.path, elems) {
            Err(e) => Err(e),
            Ok(rs) => Ok(find_first(target, rs)),
        },
    }
}

/// The first record for `target` in the databases, taken in order.
pub open spec fn find_in_databases(target: Seq<char>, dbs: Seq<DatabaseView>) -> Result<
    Option<CmdView>,
    CtErrorView,
>
    decreases dbs.len(),
{
    if dbs.len() == 0 {
        Ok(None)
    } else {
        match find_in_database(target, dbs[0]) {
            Ok(None) => find_in_databases(target, dbs.drop_first()),
            other => other,
        }
    }
}

/// Resolution of `target` against the databases, with `NotFound` naming all of
/// them when none holds a record for it.
pub open spec fn resolve(target: Seq<char>, dbs: Seq<DatabaseView>) -> Result<CmdView, CtErrorView> {
    match find_in_databases(target, dbs) {
        Ok(Some(c)) => Ok(c),
        Ok(None) => Err(
            CtErrorView::NotFound {
                file: target,
                databases: paths_of(dbs),
            },
        ),
        Err(e) => Err(e),
    }
}

/// A database whose text is a JSON array of objects that each hold the three
/// string members of a record.
pub open spec fn well_formed_db(db: DatabaseView) -> bool {
    &&& array_elements(db.contents) is Some
    &&& records_of(db.path, array_elements(db.contents)->0) is Ok
}

/// The records of a well-formed database.
pub open spec fn db_records(db: DatabaseView) -> Seq<CmdView> {
    records_of(db.path, array_elements(db.contents)->0)->Ok_0
}

/// Reading the elements as records succeeds element by element.
pub proof fn lemma_records_of(database: Seq<char>, elems: Seq<Option<Map<Seq<char>, Seq<char>>>>)
    requires
        records_of(database, elems) is Ok,
    ensures
        records_of(database, elems)->Ok_0.len() == elems.len(),
        forall|i: int|
            0 <= i < elems.len() ==> (#[trigger] elems[i]) is Some && record_of(database, elems[i]->0)
                == Ok::<CmdView, CtErrorView>(records_of(database, elems)->Ok_0[i]),
    decreases elems.len(),
{
    if elems.len() > 0 {
        let rest = elems.drop_first();
        lemma_records_of(database, rest);
        assert forall|i: int| 0 <= i < elems.len() implies (#[trigger] elems[i]) is Some && record_of(
            database,
            elems[i]->0,
        ) == Ok::<CmdView, CtErrorView>(records_of(database, elems)->Ok_0[i]) by {
            if i > 0 {
                assert(elems[i] == rest[i - 1]);
            }
        }
    }
}

proof fn lemma_find_first(target: Seq<char>, rs: Seq<CmdView>, i: int)
    requires
        0 <= i < rs.len(),
        path_eq(rs[i].file, target),
        forall|j: int| 0 <= j < i && path_eq((#[trigger] rs[j]).file, target) ==> rs[j] == rs[i],
    ensures
        find_first(target, rs) == Some(rs[i]),
    decreases i,
{
    if i > 0 && !path_eq(rs[0].file, target) {
        let rest = rs.drop_first();
        assert forall|j: int| 0 <= j < i - 1 && path_eq((#[trigger] rest[j]).file, target) implies rest[j]
            == rest[i - 1] by {
            assert(rest[j] == rs[j + 1]);
        }
        lemma_find_first(target, rest, i - 1);
    }
}

proof fn lemma_find_none(target: Seq<char>, rs: Seq<CmdView>)
    requires
        forall|j: int| 0 <= j < rs.len() ==> !path_eq((#[trigger] rs[j]).file, target),
    ensures
        find_first(target, rs) is None,
    decreases rs.len(),
{
    if rs.len() > 0 {
        let rest = rs.drop_first();
        assert forall|j: int| 0 <= j < rest.len() implies !path_eq((#[trigger] rest[j]).file, target) by {
            assert(rest[j] == rs[j + 1]);
        }
        lemma_find_none(target, rest);
    }
}

/// In a well-formed database, a file that is the path of record `i`, where
/// every earlier record for that path equals record `i`, resolves to record
/// `i`: its directory, its command without backslashes, and its file made
/// absolute against its directory.
pub proof fn lemma_resolve_finds_record(db: DatabaseView, i: int, target: Seq<char>)
    requires
        well_formed_db(db),
        0 <= i < db_records(db).len(),
        path_eq(db_records(db)[i].file, target),
        forall|j: int|
            0 <= j < i && path_eq((#[trigger] db_records(db)[j]).file, target) ==> db_records(db)[j]
                == db_records(db)[i],
    ensures
        resolve(target, seq![db]) == Ok::<CmdView, CtErrorView>(db_records(db)[i]),
        ({
            let o = array_elements(db.contents)->0[i]->0;
            db_records(db)[i] == CmdView {
                directory: o["directory"@],
                command: without_char(o["command"@], '\\'),
                file: join(o["directory"@], o["file"@]),
            }
        }),
{
    let elems = array_elements(db.contents)->0;
    lemma_records_of(db.path, elems);
    assert(elems[i] is Some);
    lemma_find_first(target, db_records(db), i);
    assert(seq![db].drop_first() =~= Seq::<DatabaseView>::empty());
}

proof fn lemma_absent_in_databases(target: Seq<char>, dbs: Seq<DatabaseView>)
    requires
        forall|d: int| 0 <= d < dbs.len() ==> well_formed_db(#[trigger] dbs[d]),
        forall|d: int, j: int|
            0 <= d < dbs.len() && 0 <= j < db_records(dbs[d]).len() ==> !path_eq(
                (#[trigger] db_records(dbs[d])[j]).file,
                target,
            ),
    ensures
        find_in_databases(target, dbs) == Ok::<Option<CmdView>, CtErrorView>(None),
    decreases dbs.len(),
{
    if dbs.len() > 0 {
        let db = dbs[0];
        assert(well_formed_db(db));
        assert forall|j: int| 0 <= j < db_records(db).len() implies !path_eq(
            (#[trigger] db_records(db)[j]).file,
            target,
        ) by {
            assert(!path_eq(db_records(dbs[0])[j].file, target));
        }
        lemma_find_none(target, db_records(db));
        let rest = dbs.drop_first();
        assert forall|d: int, j: int|
            0 <= d < rest.len() && 0 <= j < db_records(rest[d]).len() implies !path_eq(
            (#[trigger] db_records(rest[d])[j]).file,
            target,
        ) by {
            assert(rest[d] == dbs[d + 1]);
            assert(!path_eq(db_records(dbs[d + 1])[j].file, target));
        }
        assert forall|d: int| 0 <= d < rest.len() implies well_formed_db(#[trigger] rest[d]) by {
            assert(rest[d] == dbs[d + 1]);
        }
        lemma_absent_in_databases(target, rest);
    }
}

/// A file that is the path of no record of well-formed databases is not
/// found, and the error names every database, in order.
pub proof fn lemma_absent_file_not_found(target: Seq<char>, dbs: Seq<DatabaseView>)
    requires
        forall|d: int| 0 <= d < dbs.len() ==> well_formed_db(#[trigger] dbs[d]),
        forall|d: int, j: int|
            0 <= d < dbs.len() && 0 <= j < db_records(dbs[d]).len() ==> !path_eq(
                (#[trigger] db_records(dbs[d])[j]).file,
                target,
            ),
    ensures
        resolve(target, dbs) == Err::<CmdView, CtErrorView>(
            CtErrorView::NotFound { file: target, databases: paths_of(dbs) },
        ),
{
    lemma_absent_in_databases(target, dbs);
}

pub open spec fn opt_objects_view(v: Seq<Option<JsonObject>>) -> Seq<Option<Map<Seq<char>, Seq<char>>>> {
    v.map_values(|o: Option<JsonObject>| match o {
        Some(m) => Some(object_strings(m)),
        None => None,
    })
}

pub open spec fn cmds_view(v: Seq<Cmd>) -> Seq<CmdView> {
    v.map_values(|c: Cmd| c@)
}

impl Cmd {
    /// A record of the given directory, command and file.
    pub fn new(directory: String, command: String, file: String) -> (r: Cmd)
        ensures
            r@ == (CmdView { directory: directory@, command: command@, file: file@ }),
    {
        Cmd { directory, command, file }
    }

    pub fn directory(&self) -> (r: &str)
        ensures
            r@ == self@.directory,
    {
        self.directory.as_str()
    }

    pub fn command(&self) -> (r: &str)
        ensures
            r@ == self@.command,
    {
        self.command.as_str()
    }

    pub fn file(&self) -> (r: &str)
        ensures
            r@ == self@.file,
    {
        self.file.as_str()
    }

    /// The record of one database object.
    pub fn from_json_obj(database: &str, obj: &JsonObject) -> (r: Result<Cmd, CtError>)
        ensures
            cmd_result(r) == record_of(database@, object_strings(*obj)),
    {
        let dir = match member_str(obj, "directory") {
            Some(d) => d,
            None => {
                return Err(
                    CtError::SchemaError {
                        database: database.to_owned(),
                        field: String::from_str("directory"),
                    },
                );
            },
        };
        let file = match member_str(obj, "file") {
            Some(f) => f,
            None => {
                return Err(
                    CtError::SchemaError {
                        database: database.to_owned(),
                        field: String::from_str("file"),
                    },
                );
            },
        };
        let command = match member_str(obj, "command") {
            Some(c) => c,
            None => {
                return Err(
                    CtError::SchemaError {
                        database: database.to_owned(),
                        field: String::from_str("command"),
                    },
                );
            },
        };
        let dir_chars = chars_of(dir);
        let file_chars = join_path(&dir_chars, &chars_of(file));
        let command_chars = remove_char(&chars_of(command), '\\');
        Ok(
            Cmd {
                directory: dir.to_owned(),
                command: string_of(&command_chars),
                file: string_of(&file_chars),
            },
        )
    }

    /// Whether this record compiles `file`, comparing the two as paths.
    pub fn has_cpp_file(&self, file: &str) -> (r: bool)
        ensures
            r == path_eq(self@.file, file@),
    {
        paths_equal(self.file.as_str(), file)
    }

    /// The records of all elements of one database, in order.
    pub fn records_of(database: &str, objs: &Vec<Option<JsonObject>>) -> (r: Result<Vec<Cmd>, CtError>)
        ensures
            r matches Ok(cs) ==> records_of(database@, opt_objects_view(objs@)) == Ok::<
                Seq<CmdView>,
                CtErrorView,
            >(cmds_view(cs@)),
            r matches Err(e) ==> records_of(database@, opt_objects_view(objs@)) == Err::<
                Seq<CmdView>,
                CtErrorView,
            >(e@),
    {
        let ghost elems = opt_objects_view(objs@);
        let mut cs: Vec<Cmd> = Vec::new();
        let mut i: usize = 0;
        assert(elems.skip(0) =~= elems);
        while i < objs.len()
            invariant
                elems == opt_objects_view(objs@),
                i <= objs@.len(),
                records_of(database@, elems) == (match records_of(database@, elems.skip(i as int)) {
                    Ok(rs) => Ok::<Seq<CmdView>, CtErrorView>(cmds_view(cs@) + rs),
                    Err(e) => Err(e),
                }),
            decreases objs@.len() - i,
        {
            let ghost rest = elems.skip(i as int);
            assert(rest[0] == elems[i as int]);
            assert(rest.drop_first() =~= elems.skip(i + 1));
            match &objs[i] {
                None => {
                    return Err(
                        CtError::ParseError {
                            database: database.to_owned(),
                            detail: String::from_str("expected a JSON object"),
                        },
                    );
                },
                Some(obj) => {
                    assert(rest[0] == Some(object_strings(*obj)));
                    match Cmd::from_json_obj(database, obj) {
                        Ok(c) => {
                            let ghost before = cmds_view(cs@);
                            cs.push(c);
                            assert(cmds_view(cs@) =~= before.push(c@));
                            proof {
                                match records_of(database@, elems.skip(i + 1)) {
                                    Ok(rs) => {
                                        assert(before + (seq![c@] + rs) =~= cmds_view(cs@) + rs);
                                    },
                                    Err(_) => {},
                                }
                            }
                        },
                        Err(e) => {
                            return Err(e);
                        },
                    }
                },
            }
            i = i + 1;
        }
        assert(elems.skip(objs@.len() as int) =~= Seq::<Option<Map<Seq<char>, Seq<char>>>>::empty());
        assert(cmds_view(cs@) + Seq::<CmdView>::empty() =~= cmds_view(cs@));
        Ok(cs)
    }

    /// The first record for `cpp_file` in one database, after every element of
    /// the database has been read as a record.
    pub fn find_in_database(cpp_file: &str, db: &Database) -> (r: Result<Option<Cmd>, CtError>)
        ensures
            found_result(r) == find_in_database(cpp_file@, db@),
    {
        let objs = match parse_array(db.contents.as_str()) {
            Ok(objs) => objs,
            Err(e) => {
                return Err(CtError::ParseError { database: db.path.clone(), detail: error_text(&e) });
            },
        };
        assert(opt_objects_view(objs@) =~= array_elements(db.contents@)->0);
        let mut cs = match Cmd::records_of(db.path.as_str(), &objs) {
            Ok(cs) => cs,
            Err(e) => {
                return Err(e);
            },
        };
        let ghost rs = cmds_view(cs@);
        let mut i: usize = 0;
        assert(rs.skip(0) =~= rs);
        while i < cs.len()
            invariant
                rs == cmds_view(cs@),
                find_in_database(cpp_file@, db@) == Ok::<Option<CmdView>, CtErrorView>(
                    find_first(cpp_file@, rs),
                ),
                i <= cs@.len(),
                find_first(cpp_file@, rs) == find_first(cpp_file@, rs.skip(i as int)),
            decreases cs@.len() - i,
        {
            let ghost rest = rs.skip(i as int);
            assert(rest[0] == cs@[i as int]@);
            assert(rest.drop_first() =~= rs.skip(i + 1));
            if cs[i].has_cpp_file(cpp_file) {
                let ghost ci = cs@[i as int];
                let c = cs.swap_remove(i);
                assert(c == ci);
                assert(find_first(cpp_file@, rest) == Some(c@));
                return Ok(Some(c));
            }
            i = i + 1;
        }
        Ok(None)
    }

    /// The first record for `cpp_file` in the databases, taken in order.
    pub fn find_in_databases(cpp_file: &str, dbs: &Vec<Database>) -> (r: Result<Option<Cmd>, CtError>)
        ensures
            found_result(r) == find_in_databases(cpp_file@, databases_view(dbs@)),
    {
        let ghost all = databases_view(dbs@);
        let mut i: usize = 0;
        assert(all.skip(0) =~= all);
        while i < dbs.len()
            invariant
                all == databases_view(dbs@),
                i <= dbs@.len(),
                find_in_databases(cpp_file@, all) == find_in_databases(
                    cpp_file@,
                    all.skip(i as int),
                ),
            decreases dbs@.len() - i,
        {
            let ghost rest = all.skip(i as int);
            assert(rest[0] == dbs@[i as int]@);
            assert(rest.drop_first() =~= all.skip(i + 1));
            match Cmd::find_in_database(cpp_file, &dbs[i]) {
                Ok(Some(c)) => {
                    return Ok(Some(c));
                },
                Ok(None) => {},
                Err(e) => {
                    return Err(e);
                },
            }
            i = i + 1;
        }
        Ok(None)
    }

    /// The first record for `cpp_file` in the databases, taken in order; fails
    /// with `NotFound`, naming every database, when none holds one.
    pub fn from_databases(cpp_file: &str, dbs: &Vec<Database>) -> (r: Result<Cmd, CtError>)
        ensures
            cmd_result(r) == resolve(cpp_file@, databases_view(dbs@)),
    {
        match Cmd::find_in_databases(cpp_file, dbs) {
            Ok(Some(c)) => Ok(c),
            Err(e) => Err(e),
            Ok(None) => {
                let mut names: Vec<String> = Vec::new();
                let mut j: usize = 0;
                while j < dbs.len()
                    invariant
                        j <= dbs@.len(),
                        names@.len() == j,
                        forall|k: int| 0 <= k < j ==> #[trigger] names@[k]@ == dbs@[k].path@,
                    decreases dbs@.len() - j,
                {
                    names.push(dbs[j].path.clone());
                    j = j + 1;
                }
                assert(strings_view(names@) =~= paths_of(databases_view(dbs@)));
                Err(CtError::NotFound { file: cpp_file.to_owned(), databases: names })
            },
        }
    }

    /// This record with `cpp_file` as its file, and every occurrence of the old
    /// file in its command replaced by `cpp_file`.
    pub fn replace_cpp_file(&self, cpp_file: &str) -> (r: Cmd)
        ensures
            r@ == (CmdView {
                directory: self@.directory,
                command: replace_all(self@.command, self@.file, cpp_file@),
                file: cpp_file@,
            }),
    {
        let new_file = chars_of(cpp_file);
        let command = replace_chars(&chars_of(self.command.as_str()), &chars_of(self.file.as_str()), &new_file);
        Cmd { directory: self.directory.clone(), command: string_of(&command), file: cpp_file.to_owned() }
    }
}


/// A compiler run: the program, its arguments and the directory it runs in.
#[derive(Clone, Debug, PartialEq, Eq)]
pub struct Invocation {
    pub program: String,
    pub args: Vec<String>,
    pub directory: String,
}

pub struct InvocationView {
    pub program: Seq<char>,
    pub args: Seq<Seq<char>>,
    pub directory: Seq<char>,
}

impl View for Invocation {
    type V = InvocationView;

    open spec fn view(&self) -> InvocationView {
        InvocationView {
            program: self.program@,
            args: strings_view(self.args@),
            directory: self.directory@,
        }
    }
}

pub open spec fn invocation_result(r: Result<Invocation, CtError>) -> Result<InvocationView, CtErrorView> {
    match r {
        Ok(i) => Ok(i@),
        Err(e) => Err(e@),
    }
}

/// The tokens of `toks` that are not empty.
pub open spec fn nonempty_tokens(toks: Seq<Seq<char>>) -> Seq<Seq<char>>
    decreases toks.len(),
{
    if toks.len() == 0 {
        Seq::<Seq<char>>::empty()
    } else if toks.last().len() == 0 {
        nonempty_tokens(toks.drop_last())
    } else {
        nonempty_tokens(toks.drop_last()).push(toks.last())
    }
}

/// The tokens of a command: its pieces between single spaces, empty ones dropped.
pub open spec fn command_tokens(command: Seq<char>) -> Seq<Seq<char>> {
    nonempty_tokens(split_on(command, ' '))
}

/// The arguments that follow the compiler, each `-o` dropped together with
/// the token after it.
pub open spec fn kept_args(toks: Seq<Seq<char>>) -> Seq<Seq<char>>
    decreases toks.len(),
{
    if toks.len() == 0 {
        Seq::<Seq<char>>::empty()
    } else if toks[0] == "-o"@ {
        if toks.len() >= 2 {
            kept_args(toks.subrange(2, toks.len() as int))
        } else {
            Seq::<Seq<char>>::empty()
        }
    } else {
        seq![toks[0]] + kept_args(toks.drop_first())
    }
}

/// Whether a compiler belongs to the gcc or clang family, by its name.
pub open spec fn is_gcc_or_clang_spec(compiler: Seq<char>) -> bool {
    contains(compiler, "gcc"@) || contains(compiler, "g++"@) || contains(compiler, "clang"@)
        || contains(compiler, "clang++"@)
}

/// The compiler that runs: the override if one is given, else the command's first token.
pub open spec fn used_compiler(c: CmdView, compiler: Option<Seq<char>>) -> Seq<char> {
    match compiler {
        Some(x) => x,
        None => command_tokens(c.command)[0],
    }
}

/// The run of a record's command, before any analysis flag.
pub open spec fn base_invocation(c: CmdView, compiler: Option<Seq<char>>) -> InvocationView {
    InvocationView {
        program: used_compiler(c, compiler),
        args: kept_args(command_tokens(c.command).drop_first()),
        directory: c.directory,
    }
}

pub open spec fn with_arg(i: InvocationView, arg: Seq<char>) -> InvocationView {
    InvocationView { args: i.args.push(arg), ..i }
}

pub open spec fn option_view(o: Option<String>) -> Option<Seq<char>> {
    match o {
        Some(s) => Some(s@),
        None => None,
    }
}

/// The type-check run of a record: `-fsyntax-only` appended for a gcc or clang compiler.
pub open spec fn typecheck_spec(c: CmdView, compiler: Option<Seq<char>>) -> Result<InvocationView, CtErrorView> {
    if command_tokens(c.command).len() == 0 {
        Err(CtErrorView::EmptyCommand)
    } else if is_gcc_or_clang_spec(used_compiler(c, compiler)) {
        Ok(with_arg(base_invocation(c, compiler), "-fsyntax-only"@))
    } else {
        Ok(base_invocation(c, compiler))
    }
}

/// The preprocess run of a record: `-E` appended, for a gcc or clang compiler only.
pub open spec fn preprocess_spec(c: CmdView, compiler: Option<Seq<char>>) -> Result<InvocationView, CtErrorView> {
    if command_tokens(c.command).len() == 0 {
        Err(CtErrorView::EmptyCommand)
    } else if is_gcc_or_clang_spec(used_compiler(c, compiler)) {
        Ok(with_arg(base_invocation(c, compiler), "-E"@))
    } else {
        Err(CtErrorView::Unsupported { compiler: used_compiler(c, compiler) })
    }
}

/// The arguments kept from `toks[1..]`.
fn collect_args(toks: &Vec<Vec<char>>) -> (r: Vec<String>)
    requires
        toks@.len() >= 1,
    ensures
        strings_view(r@) == kept_args(toks@.map_values(|t: Vec<char>| t@).drop_first()),
{
    let ghost all = toks@.map_values(|t: Vec<char>| t@);
    let dash_o = chars_of("-o");
    let mut r: Vec<String> = Vec::new();
    let mut i: usize = 1;
    assert(all.subrange(1, all.len() as int) =~= all.drop_first());
    while i < toks.len()
        invariant
            all == toks@.map_values(|t: Vec<char>| t@),
            dash_o@ == "-o"@,
            1 <= i <= toks@.len(),
            strings_view(r@) + kept_args(all.subrange(i as int, all.len() as int)) == kept_args(
                all.drop_first(),
            ),
        decreases toks@.len() - i,
    {
        let ghost rest = all.subrange(i as int, all.len() as int);
        let ghost before = r@;
        assert(rest[0] == toks@[i as int]@);
        if chars_eq(&toks[i], &dash_o) {
            if i + 1 < toks.len() {
                assert(rest.subrange(2, rest.len() as int) =~= all.subrange(i + 2, all.len() as int));
                i = i + 2;
            } else {
                assert(all.subrange(toks@.len() as int, all.len() as int) =~= Seq::<Seq<char>>::empty());
                i = toks.len();
            }
        } else {
            r.push(string_of(&toks[i]));
            assert(rest.drop_first() =~= all.subrange(i + 1, all.len() as int));
            assert(strings_view(r@) =~= strings_view(before).push(toks@[i as int]@));
            assert(strings_view(r@) + kept_args(rest.drop_first()) =~= strings_view(before) + (seq![
                rest[0],
            ] + kept_args(rest.drop_first())));
            i = i + 1;
        }
    }
    assert(kept_args(all.subrange(toks@.len() as int, all.len() as int)) =~= Seq::<Seq<char>>::empty());
    assert(strings_view(r@) + Seq::<Seq<char>>::empty() =~= strings_view(r@));
    r
}

/// Whether a compiler belongs to the gcc or clang family, by its name.
pub fn is_gcc_or_clang(compiler: &str) -> (r: bool)
    ensures
        r == is_gcc_or_clang_spec(compiler@),
{
    let c = chars_of(compiler);
    contains_chars(&c, &chars_of("gcc")) || contains_chars(&c, &chars_of("g++")) || contains_chars(
        &c,
        &chars_of("clang"),
    ) || contains_chars(&c, &chars_of("clang++"))
}

/// The flag that makes a compiler only type-check, where one is known.
pub fn get_typecheck_flag(compiler: &str) -> (r: Option<&'static str>)
    ensures
        r is Some <==> is_gcc_or_clang_spec(compiler@),
        r matches Some(f) ==> f@ == "-fsyntax-only"@,
{
    if is_gcc_or_clang(compiler) {
        Some("-fsyntax-only")
    } else {
        None
    }
}

/// The flag that makes a compiler only preprocess, where one is known.
pub fn get_preprocess_flag(compiler: &str) -> (r: Option<&'static str>)
    ensures
        r is Some <==> is_gcc_or_clang_spec(compiler@),
        r matches Some(f) ==> f@ == "-E"@,
{
    if is_gcc_or_clang(compiler) {
        Some("-E")
    } else {
        None
    }
}

impl Cmd {
    /// The run of this record's command, before any analysis flag, and the compiler it uses.
    pub fn get_command(&self, compiler: &Option<String>) -> (r: Result<(Invocation, String), CtError>)
        ensures
            command_tokens(self@.command).len() == 0 <==> r is Err,
            r matches Err(e) ==> e@ == CtErrorView::EmptyCommand,
            r matches Ok((inv, used)) ==> inv@ == base_invocation(self@, option_view(*compiler))
                && used@ == used_compiler(self@, option_view(*compiler)),
    {
        let pieces = split_chars(&chars_of(self.command.as_str()), ' ');
        let ghost all = split_on(self@.command, ' ');
        let mut toks: Vec<Vec<char>> = Vec::new();
        let mut i: usize = 0;
        while i < pieces.len()
            invariant
                pieces@.map_values(|t: Vec<char>| t@) == all,
                i <= pieces@.len(),
                toks@.map_values(|t: Vec<char>| t@) == nonempty_tokens(all.take(i as int)),
            decreases pieces@.len() - i,
        {
            assert(all.take(i + 1).drop_last() =~= all.take(i as int));
            assert(all[i as int] == pieces@[i as int]@);
            if pieces[i].len() > 0 {
                let mut t: Vec<char> = Vec::new();
                append_chars(&mut t, &pieces[i]);
                assert(t@ =~= pieces@[i as int]@);
                toks.push(t);
                assert(toks@.map_values(|t: Vec<char>| t@) =~= nonempty_tokens(all.take(i + 1)));
            }
            i = i + 1;
        }
        assert(all.take(pieces@.len() as int) =~= all);
        if toks.len() == 0 {
            return Err(CtError::EmptyCommand);
        }
        assert(toks@.map_values(|t: Vec<char>| t@)[0] == toks@[0]@);
        let used = match compiler {
            Some(c) => c.clone(),
            None => string_of(&toks[0]),
        };
        let args = collect_args(&toks);
        let program = used.clone();
        Ok((Invocation { program, args, directory: self.directory.clone() }, used))
    }

    /// The type-check run of this record: its command with `-o` and its value
    /// dropped, run by `compiler` if given, with `-fsyntax-only` appended for a
    /// gcc or clang compiler.
    pub fn typecheck(&self, compiler: &Option<String>) -> (r: Result<Invocation, CtError>)
        ensures
            invocation_result(r) == typecheck_spec(self@, option_view(*compiler)),
    {
        let (mut inv, used) = match self.get_command(compiler) {
            Ok(p) => p,
            Err(e) => {
                return Err(e);
            },
        };
        if let Some(flag) = get_typecheck_flag(used.as_str()) {
            inv.args.push(flag.to_owned());
            assert(strings_view(inv.args@) =~= base_invocation(self@, option_view(*compiler)).args.push(
                "-fsyntax-only"@,
            ));
        }
        Ok(inv)
    }

    /// The preprocess run of this record, with `-E` appended; fails with
    /// `UnsupportedOperation` for a compiler outside the gcc and clang families.
    pub fn preprocess(&self, compiler: &Option<String>) -> (r: Result<Invocation, CtError>)
        ensures
            invocation_result(r) == preprocess_spec(self@, option_view(*compiler)),
    {
        let (mut inv, used) = match self.get_command(compiler) {
            Ok(p) => p,
            Err(e) => {
                return Err(e);
            },
        };
        if let Some(flag) = get_preprocess_flag(used.as_str()) {
            inv.args.push(flag.to_owned());
            assert(strings_view(inv.args@) =~= base_invocation(self@, option_view(*compiler)).args.push(
                "-E"@,
            ));
            Ok(inv)
        } else {
            Err(CtError::UnsupportedOperation { compiler: used })
        }
    }
}

} // verus!
