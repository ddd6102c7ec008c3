use vstd::prelude::*;

use crate::cmd::{cmd_result, found_result, Cmd, CmdView};
use crate::ct_result::{CtError, CtErrorView};
use crate::text::{append_chars, chars_of, lacks, split_chars, split_on, string_of};

verus! {

/// A line without the carriage return that ends it, if any.
pub open spec fn strip_cr(l: Seq<char>) -> Seq<char> {
    if l.len() > 0 && l.last() == '\r' {
        l.drop_last()
    } else {
        l
    }
}

/// The lines of a text as `str::lines` yields them: split at each `\n`, a `\r`
/// before the `\n` removed, and no empty line after a final `\n`.
pub open spec fn lines(s: Seq<char>) -> Seq<Seq<char>> {
    let p = split_on(s, '\n');
    let body = p.drop_last().map_values(|l: Seq<char>| strip_cr(l));
    if p.last().len() == 0 {
        body
    } else {
        body.push(p.last())
    }
}

/// The text of a cache entry: directory, command and file on three lines.
pub open spec fn entry_text(c: CmdView) -> Seq<char> {
    c.directory + seq!['\n'] + c.command + seq!['\n'] + c.file
}

/// The record a cache entry holds; `CorruptEntry` unless it has three lines
/// with a command on the second.
pub open spec fn parse_entry(text: Seq<char>) -> Result<CmdView, CtErrorView> {
    let ls = lines(text);
    if ls.len() < 3 || ls[1].len() == 0 {
        Err(CtErrorView::CorruptEntry { entry: text })
    } else {
        Ok(CmdView { directory: ls[0], command: ls[1], file: ls[2] })
    }
}

/// A decimal digit.
pub open spec fn digit(d: nat) -> char {
    if d == 0 {
        '0'
    } else if d == 1 {
        '1'
    } else if d == 2 {
        '2'
    } else if d == 3 {
        '3'
    } else if d == 4 {
        '4'
    } else if d == 5 {
        '5'
    } else if d == 6 {
        '6'
    } else if d == 7 {
        '7'
    } else if d == 8 {
        '8'
    } else {
        '9'
    }
}

/// A number in decimal notation, without leading zeros.
pub open spec fn decimal(n: nat) -> Seq<char>
    decreases n,
{
    if n < 10 {
        seq![digit(n)]
    } else {
        decimal(n / 10).push(digit(n % 10))
    }
}

/// The hash of a path, as std's `DefaultHasher` computes it from the path's `Hash`.
pub uninterp spec fn path_hash(p: Seq<char>) -> u64;

/// The name of the cache entry of a file: the decimal hash of its path.
pub open spec fn cache_key(file: Seq<char>) -> Seq<char> {
    decimal(path_hash(file) as nat)
}

/// Relies on `BuildHasher::hash_one` with std's `DefaultHasher`, whose
/// instances made by `new` or `default` all agree: the path, hashed through
/// `Path`'s `Hash`, gives the same number each time.
#[verifier::external_body]
fn hash_path(p: &str) -> (r: u64)
    ensures
        r == path_hash(p@),
{
    std::hash::BuildHasher::hash_one(
        &std::hash::BuildHasherDefault::<std::hash::DefaultHasher>::default(),
        std::path::Path::new(p),
    )
}

fn digit_of(d: u64) -> (r: char)
    requires
        d < 10,
    ensures
        r == digit(d as nat),
{
    if d == 0 {
        '0'
    } else if d == 1 {
        '1'
    } else if d == 2 {
        '2'
    } else if d == 3 {
        '3'
    } else if d == 4 {
        '4'
    } else if d == 5 {
        '5'
    } else if d == 6 {
        '6'
    } else if d == 7 {
        '7'
    } else if d == 8 {
        '8'
    } else {
        '9'
    }
}

/// `n` in decimal notation.
pub fn decimal_of(n: u64) -> (r: Vec<char>)
    ensures
        r@ == decimal(n as nat),
    decreases n,
{
    if n < 10 {
        let mut r: Vec<char> = Vec::new();
        r.push(digit_of(n));
        assert(r@ =~= seq![digit(n as nat)]);
        r
    } else {
        let mut r = decimal_of(n / 10);
        r.push(digit_of(n % 10));
        r
    }
}

/// The name of the cache entry of `cpp_file`.
pub fn compute_hash(cpp_file: &str) -> (r: String)
    ensures
        r@ == cache_key(cpp_file@),
{
    string_of(&decimal_of(hash_path(cpp_file)))
}

/// The lines of a text.
pub fn lines_of(s: &Vec<char>) -> (r: Vec<Vec<char>>)
    ensures
        r@.map_values(|l: Vec<char>| l@) == lines(s@),
{
    let parts = split_chars(s, '\n');
    let ghost p = split_on(s@, '\n');
    proof {
        crate::text::lemma_split_on_nonempty(s@, '\n');
    }
    let n = parts.len();
    let mut r: Vec<Vec<char>> = Vec::new();
    let mut i: usize = 0;
    while i + 1 < n
        invariant
            n == parts@.len(),
            n == p.len(),
            n >= 1,
            parts@.map_values(|l: Vec<char>| l@) == p,
            i + 1 <= n,
            r@.len() == i,
            forall|k: int| 0 <= k < i ==> #[trigger] r@[k]@ == strip_cr(p[k]),
        decreases n - i,
    {
        assert(parts@[i as int]@ == p[i as int]);
        let line = &parts[i];
        let ghost before = r@;
        if line.len() > 0 && line[line.len() - 1] == '\r' {
            let mut l: Vec<char> = Vec::new();
            let mut j: usize = 0;
            while j < line.len() - 1
                invariant
                    line@.len() > 0,
                    j <= line@.len() - 1,
                    l@ == line@.subrange(0, j as int),
                decreases line@.len() - j,
            {
                l.push(line[j]);
                assert(line@.subrange(0, j + 1) =~= line@.subrange(0, j as int).push(line@[j as int]));
                j = j + 1;
            }
            assert(l@ =~= line@.drop_last());
            r.push(l);
        } else {
            let mut l: Vec<char> = Vec::new();
            append_chars(&mut l, line);
            assert(l@ =~= line@);
            r.push(l);
        }
        assert(r@[i as int]@ == strip_cr(p[i as int]));
        i = i + 1;
    }
    assert(parts@[n - 1]@ == p.last());
    let ghost body = p.drop_last().map_values(|l: Seq<char>| strip_cr(l));
    assert(r@.map_values(|l: Vec<char>| l@) =~= body);
    if parts[n - 1].len() > 0 {
        let mut l: Vec<char> = Vec::new();
        append_chars(&mut l, &parts[n - 1]);
        r.push(l);
        assert(r@.map_values(|l: Vec<char>| l@) =~= body.push(p.last()));
    }
    r
}

/// One cache entry: the name it is stored under and its text.
#[derive(Clone, Debug, PartialEq, Eq)]
pub struct CacheEntry {
    pub key: String,
    pub text: String,
}

impl Cmd {
    /// The record held by a cache entry's text.
    pub fn from_cache_text(text: &str) -> (r: Result<Cmd, CtError>)
        ensures
            cmd_result(r) == parse_entry(text@),
    {
        let ls = lines_of(&chars_of(text));
        let ghost lv = ls@.map_values(|l: Vec<char>| l@);
        if ls.len() < 3 || ls[1].len() == 0 {
            proof {
                if ls@.len() >= 3 {
                    assert(lv[1] == ls@[1]@);
                }
            }
            return Err(CtError::CorruptEntry { entry: text.to_owned() });
        }
        assert(lv[0] == ls@[0]@ && lv[1] == ls@[1]@ && lv[2] == ls@[2]@);
        Ok(Cmd::new(string_of(&ls[0]), string_of(&ls[1]), string_of(&ls[2])))
    }

    /// What a cache lookup gives: nothing without an entry, else the record the
    /// entry holds.
    pub fn from_cache(entry: Option<&str>) -> (r: Result<Option<Cmd>, CtError>)
        ensures
            found_result(r) == (match entry {
                None => Ok::<Option<CmdView>, CtErrorView>(None),
                Some(t) => match parse_entry(t@) {
                    Ok(c) => Ok(Some(c)),
                    Err(e) => Err(e),
                },
            }),
    {
        match entry {
            None => Ok(None),
            Some(t) => match Cmd::from_cache_text(t) {
                Ok(c) => Ok(Some(c)),
                Err(e) => Err(e),
            },
        }
    }

    /// The cache entry that stores this record under the name of its file.
    pub fn cache_entry(&self) -> (r: CacheEntry)
        ensures
            r.key@ == cache_key(self@.file),
            r.text@ == entry_text(self@),
    {
        let mut t = chars_of(self.directory());
        t.push('\n');
        append_chars(&mut t, &chars_of(self.command()));
        t.push('\n');
        append_chars(&mut t, &chars_of(self.file()));
        CacheEntry { key: compute_hash(self.file()), text: string_of(&t) }
    }
}


/// The cache as a map from entry names to entry texts, after `c` was stored:
/// an entry that is already there is kept.
pub open spec fn store(cache: Map<Seq<char>, Seq<char>>, c: CmdView) -> Map<Seq<char>, Seq<char>> {
    let k = cache_key(c.file);
    if cache.contains_key(k) {
        cache
    } else {
        cache.insert(k, entry_text(c))
    }
}

/// What a lookup of `file` in the cache gives.
pub open spec fn lookup(cache: Map<Seq<char>, Seq<char>>, file: Seq<char>) -> Option<
    Result<CmdView, CtErrorView>,
> {
    let k = cache_key(file);
    if cache.contains_key(k) {
        Some(parse_entry(cache[k]))
    } else {
        None
    }
}

/// A record that three lines can hold: no field spans a line break, the
/// command and the file are not empty (an absolute file never is), and no
/// line but the last ends with a carriage return.
pub open spec fn storable(c: CmdView) -> bool {
    &&& lacks(c.directory, '\n')
    &&& lacks(c.command, '\n')
    &&& lacks(c.file, '\n')
    &&& c.command.len() > 0
    &&& c.file.len() > 0
    &&& strip_cr(c.directory) == c.directory
    &&& strip_cr(c.command) == c.command
}

proof fn lemma_split_append_piece(x: Seq<char>, y: Seq<char>, sep: char)
    requires
        lacks(y, sep),
    ensures
        split_on(x + y, sep) == split_on(x, sep).update(
            split_on(x, sep).len() - 1,
            split_on(x, sep).last() + y,
        ),
    decreases y.len(),
{
    crate::text::lemma_split_on_nonempty(x, sep);
    if y.len() == 0 {
        assert(x + y =~= x);
        assert(split_on(x, sep).last() + y =~= split_on(x, sep).last());
        assert(split_on(x, sep).update(split_on(x, sep).len() - 1, split_on(x, sep).last())
            =~= split_on(x, sep));
    } else {
        let y0 = y.drop_last();
        lemma_split_append_piece(x, y0, sep);
        assert((x + y).drop_last() =~= x + y0);
        assert((x + y).last() == y.last());
        assert(y[y.len() - 1] != sep);
        let sx = split_on(x, sep);
        let p = split_on(x + y0, sep);
        assert(split_on(x + y, sep) == p.update(p.len() - 1, p.last().push(y.last())));
        assert(p.last() == sx.last() + y0);
        assert((sx.last() + y0).push(y.last()) =~= sx.last() + y);
        assert(split_on(x + y, sep) =~= split_on(x, sep).update(
            split_on(x, sep).len() - 1,
            split_on(x, sep).last() + y,
        ));
    }
}

proof fn lemma_split_append_sep(x: Seq<char>, sep: char)
    ensures
        split_on(x + seq![sep], sep) == split_on(x, sep).push(Seq::<char>::empty()),
{
    assert((x + seq![sep]).drop_last() =~= x);
}

proof fn lemma_entry_lines(c: CmdView)
    requires
        storable(c),
    ensures
        lines(entry_text(c)) == seq![c.directory, c.command, c.file],
{
    let e = Seq::<char>::empty();
    let nl = seq!['\n'];
    lemma_split_append_piece(e, c.directory, '\n');
    assert(e + c.directory =~= c.directory);
    assert(split_on(c.directory, '\n') =~= seq![c.directory]);
    lemma_split_append_sep(c.directory, '\n');
    let a = c.directory + nl;
    lemma_split_append_piece(a, c.command, '\n');
    assert(split_on(a + c.command, '\n') =~= seq![c.directory, c.command]);
    lemma_split_append_sep(a + c.command, '\n');
    let b = a + c.command + nl;
    lemma_split_append_piece(b, c.file, '\n');
    assert(split_on(b + c.file, '\n') =~= seq![c.directory, c.command, c.file]);
    assert(entry_text(c) == b + c.file);
    let p = split_on(entry_text(c), '\n');
    assert(p.drop_last() =~= seq![c.directory, c.command]);
    assert(p.drop_last().map_values(|l: Seq<char>| strip_cr(l)) =~= seq![c.directory, c.command]);
    assert(lines(entry_text(c)) =~= seq![c.directory, c.command, c.file]);
}

/// Storing a record in a cache without an entry for its file, then looking
/// the file up, gives the record back.
pub proof fn lemma_cache_round_trip(cache: Map<Seq<char>, Seq<char>>, c: CmdView)
    requires
        storable(c),
        !cache.contains_key(cache_key(c.file)),
    ensures
        lookup(store(cache, c), c.file) == Some(Ok::<CmdView, CtErrorView>(c)),
{
    lemma_entry_lines(c);
}

/// Of two records stored in turn for the same file, the first stays: the
/// second store leaves the cache as it was, and a lookup gives the first.
pub proof fn lemma_first_writer_wins(cache: Map<Seq<char>, Seq<char>>, c1: CmdView, c2: CmdView)
    requires
        storable(c1),
        c1.file == c2.file,
        !cache.contains_key(cache_key(c1.file)),
    ensures
        store(store(cache, c1), c2) == store(cache, c1),
        lookup(store(store(cache, c1), c2), c1.file) == Some(Ok::<CmdView, CtErrorView>(c1)),
{
    lemma_cache_round_trip(cache, c1);
}

} // verus!
