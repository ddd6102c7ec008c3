use vstd::prelude::*;

use crate::cache::{entry_text, parse_entry, CacheEntry};
use crate::cmd::{databases_view, find_in_databases, resolve, Cmd, CmdView, Database, DatabaseView};
use crate::ct_result::{strings_view, CtError, CtErrorView};
use crate::path::{extension, path_extension, path_with_extension, with_extension};
use crate::text::{append_chars, chars_eq, chars_of, lacks, string_of};

verus! {

/// The extensions of compilable source files.
pub open spec fn source_extensions() -> Seq<Seq<char>> {
    seq!["cpp"@, "cxx"@, "cc"@, "c++"@, "c"@, "CPP"@, "CXX"@, "CC"@, "C"@, "C++"@]
}

/// The extensions of header files.
pub open spec fn header_extensions() -> Seq<Seq<char>> {
    seq!["h"@, "hpp"@, "hxx"@, "hh"@, "h++"@, "H"@, "HPP"@, "HXX"@, "HH"@, "H++"@]
}

pub open spec fn strs_view(v: Seq<&'static str>) -> Seq<Seq<char>> {
    v.map_values(|e: &'static str| e@)
}

fn source_extension_list() -> (r: Vec<&'static str>)
    ensures
        strs_view(r@) == source_extensions(),
        forall|k: int| 0 <= k < r@.len() ==> lacks(#[trigger] r@[k]@, '/'),
{
    let r: Vec<&'static str> = vec!["cpp", "cxx", "cc", "c++", "c", "CPP", "CXX", "CC", "C", "C++"];
    assert(strs_view(r@) =~= source_extensions());
    proof {
        reveal_strlit("cpp");
        reveal_strlit("cxx");
        reveal_strlit("cc");
        reveal_strlit("c++");
        reveal_strlit("c");
        reveal_strlit("CPP");
        reveal_strlit("CXX");
        reveal_strlit("CC");
        reveal_strlit("C");
        reveal_strlit("C++");
    }
    r
}

fn header_extension_list() -> (r: Vec<&'static str>)
    ensures
        strs_view(r@) == header_extensions(),
{
    let r: Vec<&'static str> = vec!["h", "hpp", "hxx", "hh", "h++", "H", "HPP", "HXX", "HH", "H++"];
    assert(strs_view(r@) =~= header_extensions());
    r
}

/// Whether `e` is one of `list`.
fn is_one_of(e: &str, list: &Vec<&'static str>) -> (r: bool)
    ensures
        r == strs_view(list@).contains(e@),
{
    let ec = chars_of(e);
    let mut i: usize = 0;
    while i < list.len()
        invariant
            ec@ == e@,
            i <= list@.len(),
            forall|k: int| 0 <= k < i ==> list@[k]@ != e@,
        decreases list@.len() - i,
    {
        if chars_eq(&chars_of(list[i]), &ec) {
            assert(strs_view(list@)[i as int] == e@);
            return true;
        }
        i = i + 1;
    }
    assert forall|k: int| 0 <= k < strs_view(list@).len() implies strs_view(list@)[k] != e@ by {
        assert(strs_view(list@)[k] == list@[k]@);
    }
    false
}

/// Whether a path names a header: its extension is a header extension, or it has none.
pub open spec fn is_header_spec(p: Seq<char>) -> bool {
    match path_extension(p) {
        None => true,
        Some(e) => header_extensions().contains(e),
    }
}

/// Whether a path names a compilable source file by its extension.
pub open spec fn is_cpp_source_spec(p: Seq<char>) -> bool {
    match path_extension(p) {
        None => false,
        Some(e) => source_extensions().contains(e),
    }
}

/// Whether `file` names a header: a path without an extension counts as one.
pub fn is_header_file(file: &str) -> (r: bool)
    ensures
        r == is_header_spec(file@),
{
    match extension(file) {
        None => true,
        Some(e) => is_one_of(e.as_str(), &header_extension_list()),
    }
}

/// Whether `file` names a compilable source file.
pub fn is_cpp_source_file(file: &str) -> (r: bool)
    ensures
        r == is_cpp_source_spec(file@),
{
    match extension(file) {
        None => false,
        Some(e) => is_one_of(e.as_str(), &source_extension_list()),
    }
}

/// The source file beside header `p` with the `k`-th source extension.
pub open spec fn sibling(p: Seq<char>, k: int) -> Seq<char> {
    path_with_extension(p, source_extensions()[k])
}

/// The sources that could stand beside a header, one per source extension, in
/// the order in which they are tried.
pub fn sibling_candidates(header: &str) -> (r: Vec<String>)
    ensures
        r@.len() == source_extensions().len(),
        forall|k: int| 0 <= k < r@.len() ==> #[trigger] r@[k]@ == sibling(header@, k),
{
    let exts = source_extension_list();
    let mut r: Vec<String> = Vec::new();
    let mut i: usize = 0;
    while i < exts.len()
        invariant
            strs_view(exts@) == source_extensions(),
            forall|k: int| 0 <= k < exts@.len() ==> lacks(#[trigger] exts@[k]@, '/'),
            i <= exts@.len(),
            r@.len() == i,
            forall|k: int| 0 <= k < i ==> #[trigger] r@[k]@ == sibling(header@, k),
        decreases exts@.len() - i,
    {
        assert(strs_view(exts@)[i as int] == exts@[i as int]@);
        r.push(with_extension(header, exts[i]));
        i = i + 1;
    }
    r
}

/// The first sibling from the `k`-th on that exists, by `exists`.
pub open spec fn first_existing(p: Seq<char>, exists: Seq<bool>, k: int) -> Option<Seq<char>>
    decreases source_extensions().len() - k,
{
    if k < 0 || k >= source_extensions().len() {
        None
    } else if k < exists.len() && exists[k] {
        Some(sibling(p, k))
    } else {
        first_existing(p, exists, k + 1)
    }
}

/// The first file of a directory that is a source with a record in the
/// databases, with that record.
pub open spec fn find_donor_spec(dir_files: Seq<Seq<char>>, dbs: Seq<DatabaseView>) -> Option<
    (Seq<char>, CmdView),
>
    decreases dir_files.len(),
{
    if dir_files.len() == 0 {
        None
    } else if is_cpp_source_spec(dir_files[0]) && resolve(dir_files[0], dbs) is Ok {
        Some((dir_files[0], resolve(dir_files[0], dbs)->Ok_0))
    } else {
        find_donor_spec(dir_files.drop_first(), dbs)
    }
}

/// How the file to check is compiled.
#[derive(Clone, Debug)]
pub enum SourceFile {
    /// the source file given as argument
    FromArg { cpp_file: String },
    /// a header was given and a source file of the same name was found beside it
    FromHeader { header_file: String, cpp_file: String },
    /// a header was given without such a source file; the command of another
    /// source file in its directory compiles a temporary file that includes it
    FromHeaderWithTmpSource { header_file: String, cmd_cpp_file: String, cmd: Cmd },
}

pub enum SourceFileView {
    FromArg { cpp_file: Seq<char> },
    FromHeader { header_file: Seq<char>, cpp_file: Seq<char> },
    FromHeaderWithTmpSource { header_file: Seq<char>, cmd_cpp_file: Seq<char>, cmd: CmdView },
}

impl View for SourceFile {
    type V = SourceFileView;

    open spec fn view(&self) -> SourceFileView {
        match self {
            SourceFile::FromArg { cpp_file } => SourceFileView::FromArg { cpp_file: cpp_file@ },
            SourceFile::FromHeader { header_file, cpp_file } => SourceFileView::FromHeader {
                header_file: header_file@,
                cpp_file: cpp_file@,
            },
            SourceFile::FromHeaderWithTmpSource { header_file, cmd_cpp_file, cmd } =>
                SourceFileView::FromHeaderWithTmpSource {
                header_file: header_file@,
                cmd_cpp_file: cmd_cpp_file@,
                cmd: cmd@,
            },
        }
    }
}

pub open spec fn source_result(r: Result<SourceFile, CtError>) -> Result<SourceFileView, CtErrorView> {
    match r {
        Ok(s) => Ok(s@),
        Err(e) => Err(e@),
    }
}

/// Whether a header needs a donor: it is a header and no sibling exists.
pub open spec fn needs_donor_spec(p: Seq<char>, exists: Seq<bool>) -> bool {
    is_header_spec(p) && first_existing(p, exists, 0) is None
}

/// How `p` is compiled, from which of its siblings exist, the files of its
/// directory in listing order, and the databases.
pub open spec fn classify(
    p: Seq<char>,
    exists: Seq<bool>,
    dir_files: Seq<Seq<char>>,
    dbs: Seq<DatabaseView>,
) -> Result<SourceFileView, CtErrorView> {
    if !is_header_spec(p) {
        Ok(SourceFileView::FromArg { cpp_file: p })
    } else {
        match first_existing(p, exists, 0) {
            Some(s) => Ok(SourceFileView::FromHeader { header_file: p, cpp_file: s }),
            None => match find_donor_spec(dir_files, dbs) {
                Some((f, c)) => Ok(
                    SourceFileView::FromHeaderWithTmpSource { header_file: p, cmd_cpp_file: f, cmd: c },
                ),
                None => Err(CtErrorView::NoSourceFound { header: p }),
            },
        }
    }
}

proof fn lemma_first_existing_at(p: Seq<char>, exists: Seq<bool>, k: int, m: int)
    requires
        0 <= m <= k < source_extensions().len(),
        k < exists.len(),
        exists[k],
        forall|j: int| 0 <= j < k && j < exists.len() ==> !exists[j],
    ensures
        first_existing(p, exists, m) == Some(sibling(p, k)),
    decreases k - m,
{
    if m < k {
        lemma_first_existing_at(p, exists, k, m + 1);
    }
}

/// A header with an existing sibling source is always compiled through the
/// first such sibling, in the order of the source extensions, and never
/// through a temporary file, whatever its directory and the databases hold.
pub proof fn lemma_sibling_wins(
    p: Seq<char>,
    exists: Seq<bool>,
    dir_files: Seq<Seq<char>>,
    dbs: Seq<DatabaseView>,
    k: int,
)
    requires
        is_header_spec(p),
        0 <= k < source_extensions().len(),
        k < exists.len(),
        exists[k],
        forall|j: int| 0 <= j < k && j < exists.len() ==> !exists[j],
    ensures
        classify(p, exists, dir_files, dbs) == Ok::<SourceFileView, CtErrorView>(
            SourceFileView::FromHeader { header_file: p, cpp_file: sibling(p, k) },
        ),
{
    lemma_first_existing_at(p, exists, k, 0);
}

/// The index of the first existing sibling, if any.
fn first_existing_index(header: &str, sibling_exists: &Vec<bool>) -> (r: Option<usize>)
    ensures
        r matches Some(k) ==> k < source_extensions().len() && first_existing(header@, sibling_exists@, 0)
            == Some(sibling(header@, k as int)),
        r is None ==> first_existing(header@, sibling_exists@, 0) is None,
{
    let n: usize = 10;
    let mut k: usize = 0;
    while k < n
        invariant
            n == source_extensions().len(),
            k <= n,
            first_existing(header@, sibling_exists@, 0) == first_existing(
                header@,
                sibling_exists@,
                k as int,
            ),
        decreases n - k,
    {
        if k < sibling_exists.len() && sibling_exists[k] {
            return Some(k);
        }
        k = k + 1;
    }
    None
}

/// Whether the header `src_file` has no existing sibling and so needs a donor record.
pub fn needs_donor(src_file: &str, sibling_exists: &Vec<bool>) -> (r: bool)
    ensures
        r == needs_donor_spec(src_file@, sibling_exists@),
{
    is_header_file(src_file) && first_existing_index(src_file, sibling_exists).is_none()
}

/// The first source file of `dir_files` that has a record in the databases.
pub fn find_donor(dir_files: &Vec<String>, dbs: &Vec<Database>) -> (r: Option<(String, Cmd)>)
    ensures
        r matches Some((f, c)) ==> find_donor_spec(dir_files@.map_values(|s: String| s@), databases_view(dbs@))
            == Some((f@, c@)),
        r is None ==> find_donor_spec(dir_files@.map_values(|s: String| s@), databases_view(dbs@)) is None,
{
    let ghost all = dir_files@.map_values(|s: String| s@);
    let mut i: usize = 0;
    assert(all.skip(0) =~= all);
    while i < dir_files.len()
        invariant
            all == dir_files@.map_values(|s: String| s@),
            i <= dir_files@.len(),
            find_donor_spec(all, databases_view(dbs@)) == find_donor_spec(
                all.skip(i as int),
                databases_view(dbs@),
            ),
        decreases dir_files@.len() - i,
    {
        let ghost rest = all.skip(i as int);
        assert(rest[0] == dir_files@[i as int]@);
        assert(rest.drop_first() =~= all.skip(i + 1));
        let f = dir_files[i].as_str();
        if is_cpp_source_file(f) {
            match Cmd::from_databases(f, dbs) {
                Ok(c) => {
                    return Some((dir_files[i].clone(), c));
                },
                Err(_) => {},
            }
        }
        i = i + 1;
    }
    None
}

/// Classifies `src_file`: a non-header is compiled itself; a header by its
/// first existing sibling (`sibling_exists[k]` tells whether the `k`-th of
/// `sibling_candidates` exists); otherwise by the record of the first source
/// among `dir_files` that the databases hold, or `NoSourceFound`.
pub fn get_source_file(
    src_file: &str,
    sibling_exists: &Vec<bool>,
    dir_files: &Vec<String>,
    dbs: &Vec<Database>,
) -> (r: Result<SourceFile, CtError>)
    ensures
        source_result(r) == classify(
            src_file@,
            sibling_exists@,
            dir_files@.map_values(|s: String| s@),
            databases_view(dbs@),
        ),
{
    if !is_header_file(src_file) {
        return Ok(SourceFile::FromArg { cpp_file: src_file.to_owned() });
    }
    match first_existing_index(src_file, sibling_exists) {
        Some(k) => {
            let exts = source_extension_list();
            assert(strs_view(exts@)[k as int] == exts@[k as int]@);
            let cpp_file = with_extension(src_file, exts[k]);
            Ok(SourceFile::FromHeader { header_file: src_file.to_owned(), cpp_file })
        },
        None => match find_donor(dir_files, dbs) {
            Some((f, c)) => Ok(
                SourceFile::FromHeaderWithTmpSource {
                    header_file: src_file.to_owned(),
                    cmd_cpp_file: f,
                    cmd: c,
                },
            ),
            None => Err(CtError::NoSourceFound { header: src_file.to_owned() }),
        },
    }
}

impl SourceFile {
    /// The path that was given: the source file, or the header.
    pub fn origin_path(&self) -> (r: &str)
        ensures
            r@ == (match self@ {
                SourceFileView::FromArg { cpp_file } => cpp_file,
                SourceFileView::FromHeader { header_file, .. } => header_file,
                SourceFileView::FromHeaderWithTmpSource { header_file, .. } => header_file,
            }),
    {
        match self {
            SourceFile::FromArg { cpp_file } => cpp_file.as_str(),
            SourceFile::FromHeader { header_file, .. } => header_file.as_str(),
            SourceFile::FromHeaderWithTmpSource { header_file, .. } => header_file.as_str(),
        }
    }
}

/// The text of a source file that only includes `header`.
pub open spec fn include_text(header: Seq<char>) -> Seq<char> {
    "#include \""@ + header + "\"\n"@
}

/// The text of a source file that only includes `header`.
pub fn include_directive(header: &str) -> (r: String)
    ensures
        r@ == include_text(header@),
{
    let mut t = chars_of("#include \"");
    append_chars(&mut t, &chars_of(header));
    append_chars(&mut t, &chars_of("\"\n"));
    string_of(&t)
}


/// How the command cache takes part in a lookup.
#[derive(Clone, Copy, Debug, PartialEq, Eq, Structural)]
pub enum CmdCaching {
    /// forces the lookup in the databases without considering the command
    /// cache, and does not cache the result
    Bypass,
    /// uses the command cache, and caches the result of a database lookup
    Normal,
    /// forces the lookup in the databases, and caches its result
    Recache,
}

impl CmdCaching {
    /// The mode that the command line asks for: bypassing the cache wins over
    /// refreshing it.
    pub fn from_flags(no_cache: bool, force_recache: bool) -> (r: CmdCaching)
        ensures
            r == (if no_cache {
                CmdCaching::Bypass
            } else if force_recache {
                CmdCaching::Recache
            } else {
                CmdCaching::Normal
            }),
    {
        if no_cache {
            CmdCaching::Bypass
        } else if force_recache {
            CmdCaching::Recache
        } else {
            CmdCaching::Normal
        }
    }

    /// Whether a lookup first consults the cache.
    pub fn reads_cache(&self) -> (r: bool)
        ensures
            r == (*self == CmdCaching::Normal),
    {
        match self {
            CmdCaching::Normal => true,
            _ => false,
        }
    }

    /// Whether a record found in the databases is stored in the cache.
    pub fn writes_cache(&self) -> (r: bool)
        ensures
            r == (*self != CmdCaching::Bypass),
    {
        match self {
            CmdCaching::Bypass => false,
            _ => true,
        }
    }
}

/// Where a lookup of a command stands.
#[derive(Clone, Debug)]
pub enum Lookup {
    /// the next database, the first of those not yet read, has to be read
    /// before the lookup can go on
    NeedDatabase,
    /// the record was found; `store` is the cache entry to create if absent
    Found { cmd: Cmd, store: Option<CacheEntry> },
}

pub enum LookupView {
    NeedDatabase,
    Found { cmd: CmdView, store: Option<(Seq<char>, Seq<char>)> },
}

impl View for Lookup {
    type V = LookupView;

    open spec fn view(&self) -> LookupView {
        match self {
            Lookup::NeedDatabase => LookupView::NeedDatabase,
            Lookup::Found { cmd, store } => LookupView::Found {
                cmd: cmd@,
                store: match store {
                    Some(e) => Some((e.key@, e.text@)),
                    None => None,
                },
            },
        }
    }
}

pub open spec fn lookup_result(r: Result<Lookup, CtError>) -> Result<LookupView, CtErrorView> {
    match r {
        Ok(l) => Ok(l@),
        Err(e) => Err(e@),
    }
}

/// One step of the lookup of `file` in the databases `db_files`, of which
/// `dbs` have been read, in order: in normal mode a cache entry that was read
/// decides; otherwise the databases read so far do, the next one is asked for
/// while they hold no record, and `NotFound` names all of `db_files` once
/// every one was read. A record found in them is to be cached unless the
/// cache is bypassed.
pub open spec fn lookup_step(
    file: Seq<char>,
    caching: CmdCaching,
    cached: Option<Seq<char>>,
    db_files: Seq<Seq<char>>,
    dbs: Seq<DatabaseView>,
) -> Result<LookupView, CtErrorView> {
    if caching == CmdCaching::Normal && cached is Some {
        match parse_entry(cached->0) {
            Ok(c) => Ok(LookupView::Found { cmd: c, store: None }),
            Err(e) => Err(e),
        }
    } else {
        match find_in_databases(file, dbs) {
            Err(e) => Err(e),
            Ok(Some(c)) => Ok(
                LookupView::Found {
                    cmd: c,
                    store: if caching != CmdCaching::Bypass {
                        Some((crate::cache::cache_key(c.file), entry_text(c)))
                    } else {
                        None
                    },
                },
            ),
            Ok(None) => if dbs.len() < db_files.len() {
                Ok(LookupView::NeedDatabase)
            } else {
                Err(CtErrorView::NotFound { file, databases: db_files })
            },
        }
    }
}

pub open spec fn opt_str_view(o: Option<&str>) -> Option<Seq<char>> {
    match o {
        Some(s) => Some(s@),
        None => None,
    }
}

/// Looks up the command of `cpp_file`: `cached` is the cache entry read for it
/// (looked at in normal mode only), `dbs` the first databases of `db_files`,
/// read in order.
pub fn get_cmd_from_files(
    cpp_file: &str,
    caching: &CmdCaching,
    cached: Option<&str>,
    db_files: &Vec<String>,
    dbs: &Vec<Database>,
) -> (r: Result<Lookup, CtError>)
    ensures
        lookup_result(r) == lookup_step(
            cpp_file@,
            *caching,
            opt_str_view(cached),
            strings_view(db_files@),
            databases_view(dbs@),
        ),
{
    if caching.reads_cache() {
        if let Some(text) = cached {
            return match Cmd::from_cache_text(text) {
                Ok(c) => Ok(Lookup::Found { cmd: c, store: None }),
                Err(e) => Err(e),
            };
        }
    }
    match Cmd::find_in_databases(cpp_file, dbs) {
        Err(e) => Err(e),
        Ok(Some(c)) => {
            let store = if caching.writes_cache() {
                Some(c.cache_entry())
            } else {
                None
            };
            Ok(Lookup::Found { cmd: c, store })
        },
        Ok(None) => {
            if dbs.len() < db_files.len() {
                return Ok(Lookup::NeedDatabase);
            }
            let mut names: Vec<String> = Vec::new();
            let mut j: usize = 0;
            while j < db_files.len()
                invariant
                    j <= db_files@.len(),
                    names@.len() == j,
                    forall|k: int| 0 <= k < j ==> #[trigger] names@[k]@ == db_files@[k]@,
                decreases db_files@.len() - j,
            {
                names.push(db_files[j].clone());
                j = j + 1;
            }
            assert(strings_view(names@) =~= strings_view(db_files@));
            Err(CtError::NotFound { file: cpp_file.to_owned(), databases: names })
        },
    }
}

/// The configuration of one run.
#[derive(Debug)]
pub struct Config {
    /// use this compiler instead of the one of the database
    pub compiler: Option<String>,
    /// the file to check, as classified
    pub source_file: SourceFile,
    /// the compilation databases to look the file up in
    pub db_files: Vec<String>,
    pub cmd_caching: CmdCaching,
    /// only preprocess the file
    pub preprocess: bool,
}

} // verus!
