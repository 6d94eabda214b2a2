//! The symbol index store: a persisted mapping from project-relative path to
//! that file's extracted symbols and freshness signature, kept sorted by
//! path, with full rebuild and incremental per-file update.

use vstd::prelude::*;

use crate::extract::{
    extract_symbols_from_text, extract_symbols_spec, Matchers, SymbolEntry, SymbolV,
};
use crate::paths::{
    build_scope_dirs, build_scope_dirs_spec, is_csharp_file, is_csharp_file_spec,
    normalize_rel_or_abs_path, normalize_rel_or_abs_path_spec, path_in_dirs, path_in_dirs_spec,
    path_matches_scope, path_matches_scope_spec, PathError,
};
use crate::text::{
    chars_eq, chars_of, chars_lt, contains_seq, contains_sub, lemma_lex_lt_total, lex_lt,
    lower_seq, sat_add, string_of, to_lower_vec, usat_add,
};

verus! {

/// One source file handed to the engine: its project-relative path, its
/// text, and the freshness signature recorded for it.
#[verifier::ext_equal]
pub struct SourceFileV {
    pub path: Seq<char>,
    pub content: Seq<char>,
    pub signature: Seq<char>,
}

pub struct SourceFile {
    pub path: String,
    pub content: String,
    pub signature: String,
}

impl View for SourceFile {
    type V = SourceFileV;

    open spec fn view(&self) -> SourceFileV {
        SourceFileV { path: self.path@, content: self.content@, signature: self.signature@ }
    }
}

#[verifier::ext_equal]
pub struct IndexedFileV {
    pub signature: Seq<char>,
    pub symbols: Seq<SymbolV>,
}

/// What the index records for one file.
pub struct IndexedFile {
    pub signature: String,
    pub symbols: Vec<SymbolEntry>,
}

impl View for IndexedFile {
    type V = IndexedFileV;

    open spec fn view(&self) -> IndexedFileV {
        IndexedFileV {
            signature: self.signature@,
            symbols: self.symbols@.map_values(|s: SymbolEntry| s@),
        }
    }
}

#[verifier::ext_equal]
pub struct SymbolIndexV {
    pub version: int,
    pub generated_at_epoch_ms: int,
    pub files: Seq<(Seq<char>, IndexedFileV)>,
}

/// The symbol index: a version, a generation timestamp, and the per-file
/// entries sorted strictly by path.
pub struct SymbolIndex {
    pub version: u32,
    pub generated_at_epoch_ms: u64,
    pub files: Vec<(String, IndexedFile)>,
}

impl View for SymbolIndex {
    type V = SymbolIndexV;

    open spec fn view(&self) -> SymbolIndexV {
        SymbolIndexV {
            version: self.version as int,
            generated_at_epoch_ms: self.generated_at_epoch_ms as int,
            files: self.files@.map_values(|e: (String, IndexedFile)| (e.0@, e.1@)),
        }
    }
}

/// The entries are strictly ordered by path, so no path repeats.
pub open spec fn files_sorted(files: Seq<(Seq<char>, IndexedFileV)>) -> bool {
    forall|i: int, j: int| 0 <= i < j < files.len() ==> lex_lt(files[i].0, files[j].0)
}

impl SymbolIndex {
    /// The index is well-formed when its file entries are strictly sorted.
    pub open spec fn wf(&self) -> bool {
        files_sorted(self@.files)
    }
}

impl Default for SymbolIndex {
    /// A fresh, empty index at the current format version.
    fn default() -> (r: Self)
        ensures
            r@.version == 1,
            r@.generated_at_epoch_ms == 0,
            r@.files == Seq::<(Seq<char>, IndexedFileV)>::empty(),
            r.wf(),
    {
        let r = SymbolIndex { version: 1, generated_at_epoch_ms: 0, files: Vec::new() };
        proof {
            assert(r@.files =~= Seq::<(Seq<char>, IndexedFileV)>::empty());
        }
        r
    }
}

/// Insert-or-replace by key, keeping the entries sorted.
pub open spec fn insert_entry(
    files: Seq<(Seq<char>, IndexedFileV)>,
    key: Seq<char>,
    val: IndexedFileV,
) -> Seq<(Seq<char>, IndexedFileV)>
    decreases files.len(),
{
    if files.len() == 0 {
        seq![(key, val)]
    } else if lex_lt(files[0].0, key) {
        seq![files[0]] + insert_entry(files.drop_first(), key, val)
    } else if files[0].0 == key {
        seq![(key, val)] + files.drop_first()
    } else {
        seq![(key, val)] + files
    }
}

proof fn lemma_insert_entry_sorted(
    files: Seq<(Seq<char>, IndexedFileV)>,
    key: Seq<char>,
    val: IndexedFileV,
)
    requires
        files_sorted(files),
    ensures
        files_sorted(insert_entry(files, key, val)),
        forall|j: int|
            0 <= j < insert_entry(files, key, val).len() ==> (
            #[trigger] insert_entry(files, key, val)[j].0 == key || exists|i: int|
                0 <= i < files.len() && files[i].0 == insert_entry(files, key, val)[j].0),
    decreases files.len(),
{
    let out = insert_entry(files, key, val);
    if files.len() == 0 {
    } else if lex_lt(files[0].0, key) {
        assert(files_sorted(files.drop_first())) by {
            assert(forall|i: int, j: int|
                0 <= i < j < files.drop_first().len() ==> lex_lt(
                    #[trigger] files.drop_first()[i].0,
                    #[trigger] files.drop_first()[j].0,
                ));
        }
        lemma_insert_entry_sorted(files.drop_first(), key, val);
        let rest = insert_entry(files.drop_first(), key, val);
        assert forall|i: int, j: int| 0 <= i < j < out.len() implies lex_lt(
            out[i].0,
            out[j].0,
        ) by {
            if i == 0 {
                assert(out[j].0 == rest[j - 1].0);
                if rest[j - 1].0 == key {
                    assert(lex_lt(files[0].0, key));
                } else {
                    let w = choose|w: int|
                        0 <= w < files.drop_first().len() && files.drop_first()[w].0 == rest[j
                            - 1].0;
                    assert(files[w + 1].0 == rest[j - 1].0);
                    assert(lex_lt(files[0].0, files[w + 1].0));
                }
            } else {
                assert(out[i].0 == rest[i - 1].0);
                assert(out[j].0 == rest[j - 1].0);
            }
        }
        assert forall|j: int| 0 <= j < out.len() implies (#[trigger] out[j].0 == key || exists|
            i: int,
        | 0 <= i < files.len() && files[i].0 == out[j].0) by {
            if j == 0 {
                assert(files[0].0 == out[0].0);
            } else {
                assert(out[j].0 == rest[j - 1].0);
                if rest[j - 1].0 != key {
                    let w = choose|w: int|
                        0 <= w < files.drop_first().len() && files.drop_first()[w].0 == rest[j
                            - 1].0;
                    assert(files[w + 1].0 == rest[j - 1].0);
                }
            }
        }
    } else if files[0].0 == key {
        assert forall|i: int, j: int| 0 <= i < j < out.len() implies lex_lt(
            out[i].0,
            out[j].0,
        ) by {
            if i == 0 {
                assert(out[j].0 == files[j].0);
                assert(lex_lt(files[0].0, files[j].0));
            } else {
                assert(out[i].0 == files[i].0);
                assert(out[j].0 == files[j].0);
            }
        }
        assert forall|j: int| 0 <= j < out.len() implies (#[trigger] out[j].0 == key || exists|
            i: int,
        | 0 <= i < files.len() && files[i].0 == out[j].0) by {
            if j > 0 {
                assert(files[j].0 == out[j].0);
            }
        }
    } else {
        lemma_lex_lt_total(files[0].0, key);
        assert(lex_lt(key, files[0].0));
        assert forall|i: int, j: int| 0 <= i < j < out.len() implies lex_lt(
            out[i].0,
            out[j].0,
        ) by {
            if i == 0 {
                assert(out[j].0 == files[j - 1].0);
                if j - 1 > 0 {
                    assert(lex_lt(files[0].0, files[j - 1].0));
                    crate::text::lemma_lex_lt_trans(key, files[0].0, files[j - 1].0);
                }
            } else {
                assert(out[i].0 == files[i - 1].0);
                assert(out[j].0 == files[j - 1].0);
            }
        }
        assert forall|j: int| 0 <= j < out.len() implies (#[trigger] out[j].0 == key || exists|
            i: int,
        | 0 <= i < files.len() && files[i].0 == out[j].0) by {
            if j > 0 {
                assert(files[j - 1].0 == out[j].0);
            }
        }
    }
}

/// Insert or replace one file's entry, keeping the index sorted by path.
pub fn index_insert(index: &mut SymbolIndex, path: String, file: IndexedFile)
    requires
        old(index).wf(),
    ensures
        final(index).wf(),
        final(index)@.files == insert_entry(old(index)@.files, path@, file@),
        final(index)@.version == old(index)@.version,
        final(index)@.generated_at_epoch_ms == old(index)@.generated_at_epoch_ms,
{
    let ghost orig = index@.files;
    let pv = chars_of(path.as_str());
    let mut i: usize = 0;
    let n = index.files.len();
    loop
        invariant
            n == index.files@.len(),
            index@.files == orig,
            i <= n,
            pv@ == path@,
            forall|k: int| 0 <= k < i ==> lex_lt(orig[k].0, path@),
        ensures
            i <= n,
            pv@ == path@,
            index@.files == orig,
            forall|k: int| 0 <= k < i ==> lex_lt(orig[k].0, path@),
            i < n ==> !lex_lt(orig[i as int].0, path@),
        decreases n - i,
    {
        if i == n {
            break ;
        }
        let kv = chars_of(index.files[i].0.as_str());
        proof {
            assert(orig[i as int].0 == index.files@[i as int].0@);
        }
        if !chars_lt(kv.as_slice(), pv.as_slice()) {
            break ;
        }
        i = i + 1;
    }
    proof {
        lemma_insert_skip(orig, path@, file@, i as int);
        lemma_insert_entry_sorted(orig, path@, file@);
    }
    if i < index.files.len() {
        let kv = chars_of(index.files[i].0.as_str());
        proof {
            assert(orig[i as int].0 == index.files@[i as int].0@);
        }
        if chars_eq(kv.as_slice(), pv.as_slice()) {
            index.files.set(i, (path, file));
            proof {
                assert(index@.files =~= orig.subrange(0, i as int) + (seq![
                    (path@, file@),
                ] + orig.skip(i as int).drop_first()));
                assert(insert_entry(orig.skip(i as int), path@, file@) =~= seq![
                    (path@, file@),
                ] + orig.skip(i as int).drop_first()) by {
                    assert(orig.skip(i as int)[0].0 == path@);
                    crate::text::lemma_lex_lt_irrefl(path@);
                }
                assert(index@.files =~= insert_entry(orig, path@, file@));
            }
            return ;
        }
        index.files.insert(i, (path, file));
        proof {
            assert(index@.files =~= orig.subrange(0, i as int) + (seq![(path@, file@)]
                + orig.skip(i as int)));
            assert(orig.skip(i as int)[0].0 == orig[i as int].0);
            assert(insert_entry(orig.skip(i as int), path@, file@) =~= seq![(path@, file@)]
                + orig.skip(i as int));
            assert(index@.files =~= insert_entry(orig, path@, file@));
        }
        return ;
    }
    index.files.insert(i, (path, file));
    proof {
        assert(index@.files =~= orig.subrange(0, i as int) + (seq![(path@, file@)] + orig.skip(
            i as int,
        )));
        assert(orig.skip(i as int).len() == 0);
        assert(insert_entry(orig.skip(i as int), path@, file@) =~= seq![(path@, file@)]);
        assert(index@.files =~= insert_entry(orig, path@, file@));
    }
}

/// Splitting the insertion at a scan position: once every key before `i` is
/// below the new key, inserting into the whole is the prefix plus inserting
/// into the rest.
proof fn lemma_insert_skip(
    files: Seq<(Seq<char>, IndexedFileV)>,
    key: Seq<char>,
    val: IndexedFileV,
    i: int,
)
    requires
        0 <= i <= files.len(),
        forall|k: int| 0 <= k < i ==> lex_lt(files[k].0, key),
    ensures
        insert_entry(files, key, val) == files.subrange(0, i) + insert_entry(
            files.skip(i),
            key,
            val,
        ),
    decreases i,
{
    if i == 0 {
        assert(files.skip(0) =~= files);
        assert(files.subrange(0, 0) + insert_entry(files, key, val) =~= insert_entry(
            files,
            key,
            val,
        ));
    } else {
        assert(lex_lt(files[0].0, key));
        lemma_insert_skip(files.drop_first(), key, val, i - 1);
        assert(files.drop_first().subrange(0, i - 1) =~= files.subrange(1, i));
        assert(files.drop_first().skip(i - 1) =~= files.skip(i));
        assert(seq![files[0]] + (files.subrange(1, i) + insert_entry(files.skip(i), key, val))
            =~= files.subrange(0, i) + insert_entry(files.skip(i), key, val));
    }
}

} // verus!

verus! {

/// Copy one symbol entry.
pub fn clone_symbol(s: &SymbolEntry) -> (r: SymbolEntry)
    ensures
        r@ == s@,
{
    SymbolEntry {
        path: s.path.clone(),
        name: s.name.clone(),
        kind: s.kind.clone(),
        line: s.line,
        column: s.column,
        container: crate::extract::clone_opt(&s.container),
        namespace: crate::extract::clone_opt(&s.namespace),
    }
}

/// The index can serve searches once some entry records a symbol or a
/// non-empty signature.
pub open spec fn index_ready_spec(files: Seq<(Seq<char>, IndexedFileV)>) -> bool {
    exists|i: int|
        0 <= i < files.len() && ((#[trigger] files[i]).1.symbols.len() > 0
            || files[i].1.signature.len() > 0)
}

pub fn index_is_ready(index: &SymbolIndex) -> (r: bool)
    ensures
        r == index_ready_spec(index@.files),
{
    let mut i: usize = 0;
    let n = index.files.len();
    while i < n
        invariant
            n == index.files@.len(),
            i <= n,
            forall|k: int|
                0 <= k < i ==> (#[trigger] index@.files[k]).1.symbols.len() == 0
                    && index@.files[k].1.signature.len() == 0,
        decreases n - i,
    {
        if index.files[i].1.symbols.len() > 0 || !index.files[i].1.signature.as_str().is_empty() {
            proof {
                assert(index@.files[i as int].1.symbols.len() > 0 || index@.files[
                    i as int
                ].1.signature.len() > 0);
            }
            return true;
        }
        proof {
            assert(index@.files[i as int].1.symbols == index.files@[i as int].1@.symbols);
        }
        i = i + 1;
    }
    false
}

/// Name filtering: exact equality or substring containment.
pub open spec fn symbol_name_matches_spec(candidate: Seq<char>, expected: Seq<char>, exact: bool) -> bool {
    if exact {
        candidate == expected
    } else {
        contains_seq(candidate, expected)
    }
}

pub fn symbol_name_matches(candidate: &str, expected: &str, exact: bool) -> (r: bool)
    ensures
        r == symbol_name_matches_spec(candidate@, expected@, exact),
{
    let cv = chars_of(candidate);
    let ev = chars_of(expected);
    if exact {
        chars_eq(cv.as_slice(), ev.as_slice())
    } else {
        contains_sub(cv.as_slice(), ev.as_slice())
    }
}

/// Whether one symbol passes the name filter and the optional
/// case-insensitive kind filter.
pub open spec fn symbol_matches(
    s: SymbolV,
    name: Seq<char>,
    exact: bool,
    kind: Option<Seq<char>>,
) -> bool {
    symbol_name_matches_spec(s.name, name, exact) && match kind {
        Some(k) => lower_seq(s.kind) == lower_seq(k),
        None => true,
    }
}

/// The symbols of one file that pass the filters, in file order.
pub open spec fn filter_syms(
    syms: Seq<SymbolV>,
    name: Seq<char>,
    exact: bool,
    kind: Option<Seq<char>>,
) -> Seq<SymbolV>
    decreases syms.len(),
{
    if syms.len() == 0 {
        Seq::empty()
    } else {
        let rest = filter_syms(syms.drop_last(), name, exact, kind);
        if symbol_matches(syms.last(), name, exact, kind) {
            rest.push(syms.last())
        } else {
            rest
        }
    }
}

/// The grouped results: every indexed file in path order that lies in scope
/// and holds at least one matching symbol, with its matching symbols.
pub open spec fn find_symbol_results(
    files: Seq<(Seq<char>, IndexedFileV)>,
    scope: Seq<char>,
    name: Seq<char>,
    exact: bool,
    kind: Option<Seq<char>>,
) -> Seq<(Seq<char>, Seq<SymbolV>)>
    decreases files.len(),
{
    if files.len() == 0 {
        Seq::empty()
    } else {
        let rest = find_symbol_results(files.drop_last(), scope, name, exact, kind);
        let last = files.last();
        if path_matches_scope_spec(last.0, scope) {
            let f = filter_syms(last.1.symbols, name, exact, kind);
            if f.len() > 0 {
                rest.push((last.0, f))
            } else {
                rest
            }
        } else {
            rest
        }
    }
}

/// The match count over grouped results.
pub open spec fn results_total(results: Seq<(Seq<char>, Seq<SymbolV>)>) -> int
    decreases results.len(),
{
    if results.len() == 0 {
        0
    } else {
        sat_add(results_total(results.drop_last()), results.last().1.len() as int)
    }
}

/// One file's worth of grouped search results.
pub struct FileSymbols {
    pub path: String,
    pub symbols: Vec<SymbolEntry>,
}

impl View for FileSymbols {
    type V = (Seq<char>, Seq<SymbolV>);

    open spec fn view(&self) -> (Seq<char>, Seq<SymbolV>) {
        (self.path@, self.symbols@.map_values(|s: SymbolEntry| s@))
    }
}

/// A symbol search's outcome: grouped per-file results and the match count.
pub struct FindSymbolOut {
    pub results: Vec<FileSymbols>,
    pub total: usize,
}

/// Search the index for symbols by name, kind and scope. Results come
/// grouped by file, in path order; `total` counts every matching symbol.
#[verifier::loop_isolation(false)]
pub fn find_symbol(
    index: &SymbolIndex,
    name: &str,
    kind: Option<&str>,
    scope: &str,
    exact: bool,
) -> (out: FindSymbolOut)
    ensures
        out.results@.map_values(|f: FileSymbols| f@) == find_symbol_results(
            index@.files,
            scope@,
            name@,
            exact,
            match kind {
                Some(k) => Some(k@),
                None => None,
            },
        ),
        out.total as int == results_total(out.results@.map_values(|f: FileSymbols| f@)),
{
    let ghost kv = match kind {
        Some(k) => Some(k@),
        None => None::<Seq<char>>,
    };
    let ghost fv = index@.files;
    let mut results: Vec<FileSymbols> = Vec::new();
    let mut total: usize = 0;
    let mut i: usize = 0;
    let n = index.files.len();
    proof {
        assert(fv.subrange(0, 0) =~= Seq::<(Seq<char>, IndexedFileV)>::empty());
    }
    while i < n
        invariant
            n == index.files@.len(),
            fv == index@.files,
            i <= n,
            results@.map_values(|f: FileSymbols| f@) == find_symbol_results(
                fv.subrange(0, i as int),
                scope@,
                name@,
                exact,
                kv,
            ),
            total as int == results_total(results@.map_values(|f: FileSymbols| f@)),
        decreases n - i,
    {
        let ghost pre = fv.subrange(0, i as int);
        let ghost post = fv.subrange(0, i as int + 1);
        proof {
            assert(post.drop_last() =~= pre);
            assert(post.last() == fv[i as int]);
        }
        let entry_path: &String = &index.files[i].0;
        let entry_file: &IndexedFile = &index.files[i].1;
        proof {
            assert(fv[i as int] == (entry_path@, entry_file@));
        }
        if path_matches_scope(entry_path.as_str(), scope) {
            let mut matched: Vec<SymbolEntry> = Vec::new();
            let mut j: usize = 0;
            let sn = entry_file.symbols.len();
            let ghost sv = entry_file@.symbols;
            proof {
                assert(sv.subrange(0, 0) =~= Seq::<SymbolV>::empty());
            }
            while j < sn
                invariant
                    sn == entry_file.symbols@.len(),
                    sv == entry_file@.symbols,
                    j <= sn,
                    matched@.map_values(|s: SymbolEntry| s@) == filter_syms(
                        sv.subrange(0, j as int),
                        name@,
                        exact,
                        kv,
                    ),
                decreases sn - j,
            {
                let ghost spre = sv.subrange(0, j as int);
                let ghost spost = sv.subrange(0, j as int + 1);
                proof {
                    assert(spost.drop_last() =~= spre);
                    assert(spost.last() == sv[j as int]);
                    assert(sv[j as int] == entry_file.symbols@[j as int]@);
                }
                let sym = &entry_file.symbols[j];
                let name_ok = symbol_name_matches(sym.name.as_str(), name, exact);
                let kind_ok = match kind {
                    Some(k) => {
                        let a = to_lower_vec(chars_of(sym.kind.as_str()).as_slice());
                        let b = to_lower_vec(chars_of(k).as_slice());
                        chars_eq(a.as_slice(), b.as_slice())
                    },
                    None => true,
                };
                if name_ok && kind_ok {
                    matched.push(clone_symbol(sym));
                    proof {
                        assert(matched@.map_values(|s: SymbolEntry| s@) =~= filter_syms(
                            spre,
                            name@,
                            exact,
                            kv,
                        ).push(sv[j as int]));
                    }
                }
                j = j + 1;
            }
            proof {
                assert(sv.subrange(0, sn as int) =~= sv);
            }
            if matched.len() > 0 {
                let ghost oldmap = results@.map_values(|f: FileSymbols| f@);
                let ghost mm = matched@.map_values(|s: SymbolEntry| s@);
                total = usat_add(total, matched.len());
                let item = FileSymbols { path: entry_path.clone(), symbols: matched };
                proof {
                    assert(item@ == (entry_path@, mm));
                }
                results.push(item);
                proof {
                    let newmap = results@.map_values(|f: FileSymbols| f@);
                    assert(newmap =~= oldmap.push((entry_path@, mm)));
                    assert(newmap.drop_last() =~= oldmap);
                    assert(results_total(newmap) == sat_add(
                        results_total(oldmap),
                        mm.len() as int,
                    ));
                }
            }
        }
        i = i + 1;
    }
    proof {
        assert(fv.subrange(0, n as int) =~= fv);
    }
    FindSymbolOut { results, total }
}

} // verus!

verus! {

/// The entries a full rebuild produces: every file under the scope's
/// directories with the C# extension, extracted and inserted in input order
/// (a later file with the same path wins).
pub open spec fn build_entries(files: Seq<SourceFileV>, dirs: Seq<Seq<char>>) -> Seq<
    (Seq<char>, IndexedFileV),
>
    decreases files.len(),
{
    if files.len() == 0 {
        Seq::empty()
    } else {
        let rest = build_entries(files.drop_last(), dirs);
        let f = files.last();
        if path_in_dirs_spec(f.path, dirs) && is_csharp_file_spec(f.path) {
            insert_entry(
                rest,
                f.path,
                IndexedFileV {
                    signature: f.signature,
                    symbols: extract_symbols_spec(f.path, f.content),
                },
            )
        } else {
            rest
        }
    }
}

/// How many symbols a rebuild extracts, counted per file before
/// deduplication, saturating at the machine word.
pub open spec fn build_symbol_count(files: Seq<SourceFileV>, dirs: Seq<Seq<char>>) -> int
    decreases files.len(),
{
    if files.len() == 0 {
        0
    } else {
        let rest = build_symbol_count(files.drop_last(), dirs);
        let f = files.last();
        if path_in_dirs_spec(f.path, dirs) && is_csharp_file_spec(f.path) {
            sat_add(rest, extract_symbols_spec(f.path, f.content).len() as int)
        } else {
            rest
        }
    }
}

proof fn lemma_build_entries_sorted(files: Seq<SourceFileV>, dirs: Seq<Seq<char>>)
    ensures
        files_sorted(build_entries(files, dirs)),
    decreases files.len(),
{
    if files.len() > 0 {
        lemma_build_entries_sorted(files.drop_last(), dirs);
        let f = files.last();
        if path_in_dirs_spec(f.path, dirs) && is_csharp_file_spec(f.path) {
            lemma_insert_entry_sorted(
                build_entries(files.drop_last(), dirs),
                f.path,
                IndexedFileV {
                    signature: f.signature,
                    symbols: extract_symbols_spec(f.path, f.content),
                },
            );
        }
    }
}

/// Counts reported by a rebuild.
pub struct BuildStats {
    pub indexed_files: usize,
    pub indexed_symbols: usize,
}

/// Rebuild the index from scratch over the given file tree: select the
/// scope's directories, extract every C# file, and stamp the result with the
/// given generation time.
#[verifier::loop_isolation(false)]
pub fn build_index(
    m: &Matchers,
    files: &Vec<SourceFile>,
    scope: &str,
    exclude_package_cache: bool,
    now_ms: u64,
) -> (r: (SymbolIndex, BuildStats))
    ensures
        r.0.wf(),
        r.0@.version == 1,
        r.0@.generated_at_epoch_ms == now_ms as int,
        r.0@.files == build_entries(
            files@.map_values(|f: SourceFile| f@),
            build_scope_dirs_spec(scope@, exclude_package_cache),
        ),
        r.1.indexed_files == r.0@.files.len(),
        r.1.indexed_symbols as int == build_symbol_count(
            files@.map_values(|f: SourceFile| f@),
            build_scope_dirs_spec(scope@, exclude_package_cache),
        ),
{
    let dirs = build_scope_dirs(scope, exclude_package_cache);
    let ghost dv = build_scope_dirs_spec(scope@, exclude_package_cache);
    let ghost fv = files@.map_values(|f: SourceFile| f@);
    let mut index = SymbolIndex::default();
    let mut symcount: usize = 0;
    let mut i: usize = 0;
    let n = files.len();
    proof {
        assert(fv.subrange(0, 0) =~= Seq::<SourceFileV>::empty());
        assert(index@.files =~= build_entries(fv.subrange(0, 0), dv));
    }
    while i < n
        invariant
            n == files@.len(),
            i <= n,
            index.wf(),
            index@.version == 1,
            index@.generated_at_epoch_ms == 0,
            index@.files == build_entries(fv.subrange(0, i as int), dv),
            symcount as int == build_symbol_count(fv.subrange(0, i as int), dv),
        decreases n - i,
    {
        let ghost pre = fv.subrange(0, i as int);
        let ghost post = fv.subrange(0, i as int + 1);
        proof {
            assert(post.drop_last() =~= pre);
            assert(post.last() == fv[i as int]);
            assert(fv[i as int] == files@[i as int]@);
        }
        let f = &files[i];
        if path_in_dirs(f.path.as_str(), &dirs) && is_csharp_file(f.path.as_str()) {
            let syms = extract_symbols_from_text(m, f.path.as_str(), f.content.as_str());
            symcount = usat_add(symcount, syms.len());
            index_insert(
                &mut index,
                f.path.clone(),
                IndexedFile { signature: f.signature.clone(), symbols: syms },
            );
        }
        i = i + 1;
    }
    proof {
        assert(fv.subrange(0, n as int) =~= fv);
    }
    index.generated_at_epoch_ms = now_ms;
    let stats = BuildStats { indexed_files: index.files.len(), indexed_symbols: symcount };
    (index, stats)
}

} // verus!

verus! {

/// What path planning yields for the requested raw paths: normalization in
/// request order, with duplicates of an already planned relative path
/// dropped.
pub open spec fn plan_rec(
    root: Seq<char>,
    reqs: Seq<Seq<char>>,
    seen: Set<Seq<char>>,
) -> Seq<(Seq<char>, Result<Seq<char>, PathError>)>
    decreases reqs.len(),
{
    if reqs.len() == 0 {
        Seq::empty()
    } else {
        match normalize_rel_or_abs_path_spec(root, reqs[0]) {
            Ok(rel) => if seen.contains(rel) {
                plan_rec(root, reqs.drop_first(), seen)
            } else {
                seq![(reqs[0], Ok(rel))] + plan_rec(root, reqs.drop_first(), seen.insert(rel))
            },
            Err(e) => seq![(reqs[0], Err(e))] + plan_rec(root, reqs.drop_first(), seen),
        }
    }
}

pub open spec fn plan_spec(root: Seq<char>, reqs: Seq<Seq<char>>) -> Seq<
    (Seq<char>, Result<Seq<char>, PathError>),
> {
    plan_rec(root, reqs, Set::empty())
}

fn seen_contains(seen: &Vec<String>, rel: &str) -> (r: bool)
    ensures
        r == exists|k: int| 0 <= k < seen@.len() && (#[trigger] seen@[k])@ == rel@,
{
    let rv = chars_of(rel);
    let mut k: usize = 0;
    while k < seen.len()
        invariant
            k <= seen@.len(),
            rv@ == rel@,
            forall|m: int| 0 <= m < k ==> (#[trigger] seen@[m])@ != rel@,
        decreases seen@.len() - k,
    {
        if chars_eq(chars_of(seen[k].as_str()).as_slice(), rv.as_slice()) {
            proof {
                assert(seen@[k as int]@ == rel@);
            }
            return true;
        }
        k = k + 1;
    }
    false
}

/// Normalize and deduplicate the raw paths of an update request, keeping
/// each failure with its reason.
#[verifier::loop_isolation(false)]
pub fn plan_update_paths(root: &str, requests: &Vec<String>) -> (out: Vec<
    (String, Result<String, PathError>),
>)
    ensures
        out@.map_values(
            |p: (String, Result<String, PathError>)|
                (
                    p.0@,
                    match p.1 {
                        Ok(s) => Ok::<Seq<char>, PathError>(s@),
                        Err(e) => Err(e),
                    },
                ),
        ) == plan_spec(root@, requests@.map_values(|r: String| r@)),
{
    let ghost rv = requests@.map_values(|r: String| r@);
    let mut out: Vec<(String, Result<String, PathError>)> = Vec::new();
    let mut seen: Vec<String> = Vec::new();
    let ghost seen_set = Set::<Seq<char>>::empty();
    let mut i: usize = 0;
    let n = requests.len();
    proof {
        assert(rv.skip(0) =~= rv);
        assert(out@.map_values(
            |p: (String, Result<String, PathError>)|
                (
                    p.0@,
                    match p.1 {
                        Ok(s) => Ok::<Seq<char>, PathError>(s@),
                        Err(e) => Err(e),
                    },
                ),
        ) + plan_rec(root@, rv, seen_set) =~= plan_rec(root@, rv, seen_set));
    }
    while i < n
        invariant
            n == requests@.len(),
            i <= n,
            forall|r: Seq<char>|
                seen_set.contains(r) <==> exists|k: int|
                    0 <= k < seen@.len() && (#[trigger] seen@[k])@ == r,
            plan_spec(root@, rv) == out@.map_values(
                |p: (String, Result<String, PathError>)|
                    (
                        p.0@,
                        match p.1 {
                            Ok(s) => Ok::<Seq<char>, PathError>(s@),
                            Err(e) => Err(e),
                        },
                    ),
            ) + plan_rec(root@, rv.skip(i as int), seen_set),
        decreases n - i,
    {
        let ghost rest = rv.skip(i as int);
        let ghost oldmap = out@.map_values(
            |p: (String, Result<String, PathError>)|
                (
                    p.0@,
                    match p.1 {
                        Ok(s) => Ok::<Seq<char>, PathError>(s@),
                        Err(e) => Err(e),
                    },
                ),
        );
        proof {
            assert(rest[0] == rv[i as int]);
            assert(rv[i as int] == requests@[i as int]@);
            assert(rest.drop_first() =~= rv.skip(i as int + 1));
        }
        let req = &requests[i];
        match normalize_rel_or_abs_path(root, req.as_str()) {
            Ok(rel) => {
                if seen_contains(&seen, rel.as_str()) {
                    proof {
                        assert(seen_set.contains(rel@));
                    }
                } else {
                    proof {
                        assert(!seen_set.contains(rel@));
                    }
                    let ghost old_seen = seen@;
                    seen.push(rel.clone());
                    proof {
                        assert forall|r: Seq<char>|
                            #[trigger] (seen_set.insert(rel@)).contains(r) implies (exists|k: int|
                            0 <= k < seen@.len() && (#[trigger] seen@[k])@ == r) by {
                            if r == rel@ {
                                assert(seen@[seen@.len() - 1]@ == r);
                            } else {
                                let k = choose|k: int|
                                    0 <= k < old_seen.len() && (#[trigger] old_seen[k])@ == r;
                                assert(seen@[k]@ == r);
                            }
                        }
                        assert forall|r: Seq<char>|
                            (exists|k: int| 0 <= k < seen@.len() && (#[trigger] seen@[k])@ == r)
                            implies #[trigger] (seen_set.insert(rel@)).contains(r) by {
                            let k = choose|k: int|
                                0 <= k < seen@.len() && (#[trigger] seen@[k])@ == r;
                            if k < seen@.len() - 1 {
                                assert(old_seen[k]@ == r);
                                assert(seen_set.contains(r));
                            } else {
                                assert(r == rel@);
                            }
                        }
                    }
                    out.push((req.clone(), Ok(rel)));
                    proof {
                        let newmap = out@.map_values(
                            |p: (String, Result<String, PathError>)|
                                (
                                    p.0@,
                                    match p.1 {
                                        Ok(s) => Ok::<Seq<char>, PathError>(s@),
                                        Err(e) => Err(e),
                                    },
                                ),
                        );
                        assert(newmap =~= oldmap + seq![
                            (rv[i as int], Ok::<Seq<char>, PathError>(out@.last().1->Ok_0@)),
                        ]);
                        assert(oldmap + (seq![
                            (rv[i as int], Ok::<Seq<char>, PathError>(out@.last().1->Ok_0@)),
                        ] + plan_rec(root@, rv.skip(i as int + 1), seen_set.insert(
                            out@.last().1->Ok_0@,
                        ))) =~= newmap + plan_rec(root@, rv.skip(i as int + 1), seen_set.insert(
                            out@.last().1->Ok_0@,
                        )));
                    }
                    proof {
                        seen_set = seen_set.insert(rel@);
                    }
                }
            },
            Err(e) => {
                out.push((req.clone(), Err(e)));
                proof {
                    let newmap = out@.map_values(
                        |p: (String, Result<String, PathError>)|
                            (
                                p.0@,
                                match p.1 {
                                    Ok(s) => Ok::<Seq<char>, PathError>(s@),
                                    Err(e) => Err(e),
                                },
                            ),
                    );
                    assert(newmap =~= oldmap + seq![
                        (rv[i as int], Err::<Seq<char>, PathError>(e)),
                    ]);
                    assert(oldmap + (seq![(rv[i as int], Err::<Seq<char>, PathError>(e))]
                        + plan_rec(root@, rv.skip(i as int + 1), seen_set)) =~= newmap + plan_rec(
                        root@,
                        rv.skip(i as int + 1),
                        seen_set,
                    ));
                }
            },
        }
        i = i + 1;
    }
    proof {
        assert(rv.skip(n as int).len() == 0);
        assert(out@.map_values(
            |p: (String, Result<String, PathError>)|
                (
                    p.0@,
                    match p.1 {
                        Ok(s) => Ok::<Seq<char>, PathError>(s@),
                        Err(e) => Err(e),
                    },
                ),
        ) + plan_rec(root@, rv.skip(n as int), seen_set) =~= out@.map_values(
            |p: (String, Result<String, PathError>)|
                (
                    p.0@,
                    match p.1 {
                        Ok(s) => Ok::<Seq<char>, PathError>(s@),
                        Err(e) => Err(e),
                    },
                ),
        ));
    }
    out
}

} // verus!

verus! {

/// First file of the snapshot with the given path, if any.
pub open spec fn lookup_file(found: Seq<SourceFileV>, rel: Seq<char>) -> Option<SourceFileV>
    decreases found.len(),
{
    if found.len() == 0 {
        None
    } else if found[0].path == rel {
        Some(found[0])
    } else {
        lookup_file(found.drop_first(), rel)
    }
}

fn lookup_source(found: &Vec<SourceFile>, rel: &str) -> (r: Option<usize>)
    ensures
        match r {
            Some(i) => i < found@.len() && lookup_file(
                found@.map_values(|f: SourceFile| f@),
                rel@,
            ) == Some(found@[i as int]@),
            None => lookup_file(found@.map_values(|f: SourceFile| f@), rel@) == None::<
                SourceFileV,
            >,
        },
{
    let ghost fv = found@.map_values(|f: SourceFile| f@);
    let rv = chars_of(rel);
    let mut i: usize = 0;
    let n = found.len();
    proof {
        assert(fv.skip(0) =~= fv);
    }
    while i < n
        invariant
            n == found@.len(),
            fv == found@.map_values(|f: SourceFile| f@),
            rv@ == rel@,
            i <= n,
            lookup_file(fv, rel@) == lookup_file(fv.skip(i as int), rel@),
        decreases n - i,
    {
        proof {
            assert(fv.skip(i as int)[0] == fv[i as int]);
            assert(fv.skip(i as int).drop_first() =~= fv.skip(i as int + 1));
            assert(fv[i as int] == found@[i as int]@);
        }
        if chars_eq(chars_of(found[i].path.as_str()).as_slice(), rv.as_slice()) {
            return Some(i);
        }
        i = i + 1;
    }
    proof {
        assert(fv.skip(n as int).len() == 0);
    }
    None
}

/// The reason text reported for a refused path.
pub open spec fn path_error_text(e: PathError) -> Seq<char> {
    match e {
        PathError::NotUnderRoot => "path must be under project root"@,
        PathError::NoRootPrefix => "path must start with Assets/ or Packages/"@,
    }
}

pub fn path_error_message(e: PathError) -> (r: String)
    ensures
        r@ == path_error_text(e),
{
    match e {
        PathError::NotUnderRoot => string_of(
            chars_of("path must be under project root").as_slice(),
        ),
        PathError::NoRootPrefix => string_of(
            chars_of("path must start with Assets/ or Packages/").as_slice(),
        ),
    }
}

/// What an incremental update does, at spec level.
#[verifier::ext_equal]
pub struct UpdateV {
    pub files: Seq<(Seq<char>, IndexedFileV)>,
    pub updated: int,
    pub skipped: Seq<(Seq<char>, Seq<char>)>,
    pub failures: Seq<(Seq<char>, Seq<char>)>,
}

/// Fold of the planned update items over the index: refused paths fail,
/// paths without a snapshot entry are missing, non-C# paths are unsupported,
/// and the rest are re-extracted and merged.
pub open spec fn apply_update(
    files: Seq<(Seq<char>, IndexedFileV)>,
    planned: Seq<(Seq<char>, Result<Seq<char>, PathError>)>,
    found: Seq<SourceFileV>,
) -> UpdateV
    decreases planned.len(),
{
    if planned.len() == 0 {
        UpdateV { files, updated: 0, skipped: Seq::empty(), failures: Seq::empty() }
    } else {
        let rest = apply_update(files, planned.drop_last(), found);
        let item = planned.last();
        match item.1 {
            Err(e) => UpdateV {
                files: rest.files,
                updated: rest.updated,
                skipped: rest.skipped,
                failures: rest.failures.push((item.0, path_error_text(e))),
            },
            Ok(rel) => match lookup_file(found, rel) {
                None => UpdateV {
                    files: rest.files,
                    updated: rest.updated,
                    skipped: rest.skipped.push((item.0, "missing"@)),
                    failures: rest.failures.push((item.0, "missing"@)),
                },
                Some(sf) => if !is_csharp_file_spec(rel) {
                    UpdateV {
                        files: rest.files,
                        updated: rest.updated,
                        skipped: rest.skipped.push((item.0, "unsupported_extension"@)),
                        failures: rest.failures.push((item.0, "unsupported_extension"@)),
                    }
                } else {
                    UpdateV {
                        files: insert_entry(
                            rest.files,
                            rel,
                            IndexedFileV {
                                signature: sf.signature,
                                symbols: extract_symbols_spec(rel, sf.content),
                            },
                        ),
                        updated: rest.updated + 1,
                        skipped: rest.skipped,
                        failures: rest.failures,
                    }
                },
            },
        }
    }
}

/// An incremental update's outcome: the rewritten index, how many files were
/// re-extracted, and the per-path skip and failure lists.
pub struct UpdateOutcome {
    pub index: SymbolIndex,
    pub updated: usize,
    pub skipped: Vec<(String, String)>,
    pub failures: Vec<(String, String)>,
}

pub open spec fn pairs_view(v: Seq<(String, String)>) -> Seq<(Seq<char>, Seq<char>)> {
    v.map_values(|p: (String, String)| (p.0@, p.1@))
}

pub open spec fn planned_view(v: Seq<(String, Result<String, PathError>)>) -> Seq<
    (Seq<char>, Result<Seq<char>, PathError>),
> {
    v.map_values(
        |p: (String, Result<String, PathError>)|
            (
                p.0@,
                match p.1 {
                    Ok(s) => Ok::<Seq<char>, PathError>(s@),
                    Err(e) => Err(e),
                },
            ),
    )
}

/// Merge the planned per-file updates into an existing index and stamp it
/// with a new generation time. A batch with failures does not abort: every
/// other path is still updated.
#[verifier::loop_isolation(false)]
pub fn update_index(
    m: &Matchers,
    index: SymbolIndex,
    planned: &Vec<(String, Result<String, PathError>)>,
    found: &Vec<SourceFile>,
    now_ms: u64,
) -> (out: UpdateOutcome)
    requires
        index.wf(),
    ensures
        out.index.wf(),
        ({
            let spec = apply_update(
                index@.files,
                planned_view(planned@),
                found@.map_values(|f: SourceFile| f@),
            );
            out.index@.files == spec.files && out.updated as int == spec.updated && pairs_view(
                out.skipped@,
            ) == spec.skipped && pairs_view(out.failures@) == spec.failures
        }),
        out.index@.version == index@.version,
        out.index@.generated_at_epoch_ms == now_ms as int,
{
    let ghost files0 = index@.files;
    let ghost pv = planned_view(planned@);
    let ghost fv = found@.map_values(|f: SourceFile| f@);
    let mut ix = index;
    let mut updated: usize = 0;
    let mut skipped: Vec<(String, String)> = Vec::new();
    let mut failures: Vec<(String, String)> = Vec::new();
    let mut i: usize = 0;
    let n = planned.len();
    proof {
        assert(pv.subrange(0, 0) =~= Seq::<(Seq<char>, Result<Seq<char>, PathError>)>::empty());
        let base = apply_update(files0, pv.subrange(0, 0), fv);
        assert(base.files == files0 && base.updated == 0);
        assert(pairs_view(skipped@) =~= base.skipped);
        assert(pairs_view(failures@) =~= base.failures);
    }
    while i < n
        invariant
            n == planned@.len(),
            i <= n,
            ix.wf(),
            ix@.version == index@.version,
            updated <= i,
            ({
                let spec = apply_update(files0, pv.subrange(0, i as int), fv);
                ix@.files == spec.files && updated as int == spec.updated && pairs_view(skipped@)
                    == spec.skipped && pairs_view(failures@) == spec.failures
            }),
        decreases n - i,
    {
        let ghost pre = pv.subrange(0, i as int);
        let ghost post = pv.subrange(0, i as int + 1);
        proof {
            assert(post.drop_last() =~= pre);
            assert(post.last() == pv[i as int]);
            assert(pv[i as int] == (planned@[i as int].0@, match planned@[i as int].1 {
                Ok(s) => Ok::<Seq<char>, PathError>(s@),
                Err(e) => Err(e),
            }));
        }
        let requested: &String = &planned[i].0;
        let ghost old_skipped = pairs_view(skipped@);
        let ghost old_failures = pairs_view(failures@);
        match &planned[i].1 {
            Err(e) => {
                failures.push((requested.clone(), path_error_message(*e)));
                proof {
                    assert(pairs_view(failures@) =~= old_failures.push(
                        (pv[i as int].0, path_error_text(*e)),
                    ));
                }
            },
            Ok(rel) => {
                match lookup_source(found, rel.as_str()) {
                    None => {
                        let reason = string_of(chars_of("missing").as_slice());
                        skipped.push((requested.clone(), reason));
                        let reason2 = string_of(chars_of("missing").as_slice());
                        failures.push((requested.clone(), reason2));
                        proof {
                            assert(pairs_view(skipped@) =~= old_skipped.push(
                                (pv[i as int].0, "missing"@),
                            ));
                            assert(pairs_view(failures@) =~= old_failures.push(
                                (pv[i as int].0, "missing"@),
                            ));
                        }
                    },
                    Some(fi) => {
                        if !is_csharp_file(rel.as_str()) {
                            let reason = string_of(chars_of("unsupported_extension").as_slice());
                            skipped.push((requested.clone(), reason));
                            let reason2 = string_of(
                                chars_of("unsupported_extension").as_slice(),
                            );
                            failures.push((requested.clone(), reason2));
                            proof {
                                assert(pairs_view(skipped@) =~= old_skipped.push(
                                    (pv[i as int].0, "unsupported_extension"@),
                                ));
                                assert(pairs_view(failures@) =~= old_failures.push(
                                    (pv[i as int].0, "unsupported_extension"@),
                                ));
                            }
                        } else {
                            let sf = &found[fi];
                            let syms = extract_symbols_from_text(
                                m,
                                rel.as_str(),
                                sf.content.as_str(),
                            );
                            index_insert(
                                &mut ix,
                                rel.clone(),
                                IndexedFile { signature: sf.signature.clone(), symbols: syms },
                            );
                            updated = updated + 1;
                        }
                    },
                }
            },
        }
        i = i + 1;
    }
    proof {
        assert(pv.subrange(0, n as int) =~= pv);
    }
    let mut ix2 = ix;
    ix2.generated_at_epoch_ms = now_ms;
    UpdateOutcome { index: ix2, updated, skipped, failures }
}

/// A batch update succeeds only when nothing failed.
pub fn update_success(out: &UpdateOutcome) -> (r: bool)
    ensures
        r == (out.failures@.len() == 0),
{
    out.failures.len() == 0
}

/// With failures present, the batch still counts as partially successful
/// when at least one path was updated.
pub fn update_partial_success(out: &UpdateOutcome) -> (r: bool)
    ensures
        r == (out.updated > 0),
{
    out.updated > 0
}

} // verus!
