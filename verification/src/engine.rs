//! The local tool engine: file reading, pattern search, package listing and
//! the paginated, byte-budgeted reference search, all over an in-memory tree
//! of project-relative source files.

use vstd::prelude::*;

use crate::extract::{lines_spec, split_lines};
use crate::index::{SourceFile, SourceFileV};
use crate::paths::{
    is_csharp_file, is_csharp_file_spec, path_in_dirs, path_in_dirs_spec, refs_scope_dirs,
    refs_scope_dirs_spec,
};
use crate::text::{
    chars_eq, chars_lt, chars_of, contains_seq, contains_sub, is_prefix, join_char, join_with,
    lex_le, lex_lt, push_all, slice_range, starts_with, string_of,
};

verus! {

/// Whether the compiled form of `pattern` is accepted by the pattern engine.
pub uninterp spec fn regex_pattern_ok(pattern: Seq<char>) -> bool;

/// Whether `line` matches `pattern`, for an accepted pattern.
pub uninterp spec fn regex_is_match(pattern: Seq<char>, line: Seq<char>) -> bool;

/// Relies on `regex::Regex::new`: whether it accepts the pattern is a
/// function of the pattern alone.
#[verifier::external_body]
pub fn regex_pattern_valid(pattern: &str) -> (r: bool)
    ensures
        r == regex_pattern_ok(pattern@),
{
    regex::Regex::new(pattern).is_ok()
}

/// Relies on `regex::Regex::new` and `regex::Regex::is_match`: for an
/// accepted pattern the call returns whether the line matches, a function of
/// the pattern and the line alone.
#[verifier::external_body]
fn regex_line_matches(pattern: &str, line: &str) -> (r: Option<bool>)
    ensures
        match r {
            Some(b) => b == regex_is_match(pattern@, line@),
            None => !regex_pattern_ok(pattern@),
        },
{
    regex::Regex::new(pattern).ok().map(|re| re.is_match(line))
}

/// Whether the word-boundary pattern built around an escaped name compiles.
pub uninterp spec fn word_pattern_ok(name: Seq<char>) -> bool;

/// The match start offsets of the word-boundary search for `name` on
/// `line`, as the pattern engine reports them.
pub uninterp spec fn word_match_starts(name: Seq<char>, line: Seq<char>) -> Seq<usize>;

/// Relies on `regex::escape`, `regex::Regex::new` and
/// `regex::Regex::find_iter` with the pattern `\b<escaped name>\b`: the
/// start offsets depend on the name and the line alone; `find_iter` walks
/// the line left to right, and each start is a byte offset into the line,
/// which std bounds below the machine word's ceiling.
#[verifier::external_body]
fn word_ref_starts(name: &str, line: &str) -> (r: Option<Vec<usize>>)
    ensures
        (r matches Some(v)) == word_pattern_ok(name@),
        r matches Some(v) ==> v@ == word_match_starts(name@, line@) && forall|k: int|
            0 <= k < v@.len() ==> v@[k] < usize::MAX,
{
    let pattern = ["\\b", regex::escape(name).as_str(), "\\b"].concat();
    match regex::Regex::new(&pattern) {
        Ok(re) => Some(re.find_iter(line).map(|m| m.start()).collect()),
        Err(_) => None,
    }
}

/// The byte length of one serialized reference item.
pub uninterp spec fn ref_entry_encoded_len(
    line: int,
    column: int,
    snippet: Seq<char>,
    marked_truncated: bool,
) -> int;

/// Relies on `serde_json::to_vec`: the serialized length of the reference
/// item object depends on its fields alone.
#[verifier::external_body]
pub(crate) fn ref_item_encoded_len(line: u64, column: u64, snippet: &str, snippet_truncated: bool) -> (r:
    usize)
    ensures
        r as int == ref_entry_encoded_len(line as int, column as int, snippet@,
            snippet_truncated),
{
    let mut obj = serde_json::Map::new();
    obj.insert("line".to_string(), serde_json::Value::from(line));
    obj.insert("column".to_string(), serde_json::Value::from(column));
    obj.insert("snippet".to_string(), serde_json::Value::String(snippet.to_string()));
    if snippet_truncated {
        obj.insert("snippetTruncated".to_string(), serde_json::Value::Bool(true));
    }
    serde_json::to_vec(&serde_json::Value::Object(obj)).map(|v| v.len()).unwrap_or(0)
}

/// Clamp to an inclusive range.
pub open spec fn clamp_spec(v: int, lo: int, hi: int) -> int {
    if v < lo {
        lo
    } else if v > hi {
        hi
    } else {
        v
    }
}

pub(crate) fn clamp_u64(v: u64, lo: u64, hi: u64) -> (r: u64)
    requires
        lo <= hi,
    ensures
        r as int == clamp_spec(v as int, lo as int, hi as int),
{
    if v < lo {
        lo
    } else if v > hi {
        hi
    } else {
        v
    }
}

/// The snippet around a match line: the line with `context` neighbours on
/// each side, cut to `max_chars` characters with an ellipsis when too long.
pub open spec fn build_snippet_spec(
    lines: Seq<Seq<char>>,
    index: int,
    context: int,
    max_chars: int,
) -> (Seq<char>, bool) {
    let start = if index - context < 0 {
        0
    } else {
        index - context
    };
    let end = if index + context + 1 < lines.len() {
        index + context + 1
    } else {
        lines.len() as int
    };
    let joined = join_char(lines.subrange(start, end), '\n');
    if joined.len() <= max_chars {
        (joined, false)
    } else {
        (joined.subrange(0, max_chars) + "..."@, true)
    }
}

/// Build the context snippet for the line at `index`.
pub fn build_snippet(lines: &Vec<Vec<char>>, index: usize, context: usize, max_chars: usize) -> (r:
    (String, bool))
    requires
        index < lines@.len(),
        context <= 20,
        max_chars <= 100000,
    ensures
        ({
            let spec = build_snippet_spec(
                lines@.map_values(|l: Vec<char>| l@),
                index as int,
                context as int,
                max_chars as int,
            );
            r.0@ == spec.0 && r.1 == spec.1
        }),
{
    let ghost lv = lines@.map_values(|l: Vec<char>| l@);
    let start = if index >= context {
        index - context
    } else {
        0
    };
    let end = if lines.len() - index > context + 1 {
        index + context + 1
    } else {
        lines.len()
    };
    let mut window: Vec<Vec<char>> = Vec::new();
    let mut k: usize = start;
    proof {
        assert(window@.map_values(|l: Vec<char>| l@) =~= lv.subrange(start as int, start as int));
    }
    while k < end
        invariant
            start <= k <= end <= lines@.len(),
            window@.map_values(|l: Vec<char>| l@) == lv.subrange(start as int, k as int),
            lv == lines@.map_values(|l: Vec<char>| l@),
        decreases end - k,
    {
        let line = slice_range(lines[k].as_slice(), 0, lines[k].len());
        let ghost lval = line@;
        proof {
            assert(lval =~= lv[k as int]);
        }
        let ghost wpre = window@.map_values(|l: Vec<char>| l@);
        window.push(line);
        proof {
            assert(window@.map_values(|l: Vec<char>| l@) =~= wpre.push(lval));
            assert(wpre.push(lval) =~= lv.subrange(start as int, k as int + 1));
        }
        k = k + 1;
    }
    let joined = join_with(&window, '\n');
    if joined.len() <= max_chars {
        (string_of(joined.as_slice()), false)
    } else {
        let mut cut = slice_range(joined.as_slice(), 0, max_chars);
        let dots = chars_of("...");
        push_all(&mut cut, dots.as_slice());
        (string_of(cut.as_slice()), true)
    }
}

} // verus!

verus! {

/// What `read` returns: the clamped line selection of one file.
pub struct ReadOut {
    pub start_line: usize,
    pub end_line: usize,
    pub line_count: usize,
    pub content: String,
}

/// The selected window: a 1-based start clamped into the file, at most the
/// clamped line budget, and the joined text.
pub open spec fn read_selection_spec(
    content: Seq<char>,
    start_line: Option<u64>,
    max_lines: Option<u64>,
) -> (int, int, int, Seq<char>) {
    let lines = lines_spec(content);
    let sl = match start_line {
        Some(v) => if v < 1 {
            1int
        } else {
            v as int
        },
        None => 1int,
    };
    let ml = clamp_spec(
        match max_lines {
            Some(v) => v as int,
            None => 200int,
        },
        1,
        1000,
    );
    let start_idx = if sl - 1 < lines.len() {
        sl - 1
    } else {
        lines.len() as int
    };
    let end_idx = if start_idx + ml < lines.len() {
        start_idx + ml
    } else {
        lines.len() as int
    };
    let selected = lines.subrange(start_idx, end_idx);
    (start_idx + 1, end_idx, end_idx - start_idx, join_char(selected, '\n'))
}

/// Read a line window out of one file's text. A start past the end of the
/// file yields an empty selection, not an error.
pub fn read_selection(content: &str, start_line: Option<u64>, max_lines: Option<u64>) -> (out:
    ReadOut)
    requires
        content@.len() < usize::MAX,
    ensures
        ({
            let spec = read_selection_spec(content@, start_line, max_lines);
            out.start_line as int == spec.0 && out.end_line as int == spec.1
                && out.line_count as int == spec.2 && out.content@ == spec.3
        }),
{
    let tlen = content.unicode_len();
    let lines = split_lines(content);
    let ghost lv = lines@.map_values(|l: Vec<char>| l@);
    let n = lines.len();
    proof {
        crate::extract::lemma_lines_count(content@);
        assert(n <= tlen);
    }
    let sl: u64 = match start_line {
        Some(v) => if v < 1 {
            1
        } else {
            v
        },
        None => 1,
    };
    let ml: u64 = clamp_u64(
        match max_lines {
            Some(v) => v,
            None => 200,
        },
        1,
        1000,
    );
    let start_idx: usize = if sl - 1 < n as u64 {
        (sl - 1) as usize
    } else {
        n
    };
    let end_idx: usize = if n - start_idx > ml as usize {
        start_idx + ml as usize
    } else {
        n
    };
    let mut window: Vec<Vec<char>> = Vec::new();
    let mut k: usize = start_idx;
    proof {
        assert(window@.map_values(|l: Vec<char>| l@) =~= lv.subrange(
            start_idx as int,
            start_idx as int,
        ));
    }
    while k < end_idx
        invariant
            start_idx <= k <= end_idx <= lines@.len(),
            lv == lines@.map_values(|l: Vec<char>| l@),
            window@.map_values(|l: Vec<char>| l@) == lv.subrange(start_idx as int, k as int),
        decreases end_idx - k,
    {
        let line = slice_range(lines[k].as_slice(), 0, lines[k].len());
        let ghost lval = line@;
        proof {
            assert(lval =~= lv[k as int]);
        }
        let ghost wpre = window@.map_values(|l: Vec<char>| l@);
        window.push(line);
        proof {
            assert(window@.map_values(|l: Vec<char>| l@) =~= wpre.push(lval));
            assert(wpre.push(lval) =~= lv.subrange(start_idx as int, k as int + 1));
        }
        k = k + 1;
    }
    let joined = join_with(&window, '\n');
    ReadOut {
        start_line: start_idx + 1,
        end_line: end_idx,
        line_count: end_idx - start_idx,
        content: string_of(joined.as_slice()),
    }
}

/// Insert one package entry so that names stay in ascending order; an entry
/// goes after every name at or below its own.
pub open spec fn insert_package(
    entries: Seq<(Seq<char>, Seq<char>)>,
    e: (Seq<char>, Seq<char>),
) -> Seq<(Seq<char>, Seq<char>)>
    decreases entries.len(),
{
    if entries.len() == 0 {
        seq![e]
    } else if lex_le(entries[0].0, e.0) {
        seq![entries[0]] + insert_package(entries.drop_first(), e)
    } else {
        seq![e] + entries
    }
}

/// The sorted package list: each directory name with its project-relative
/// path under the package root.
pub open spec fn list_packages_spec(names: Seq<Seq<char>>) -> Seq<(Seq<char>, Seq<char>)>
    decreases names.len(),
{
    if names.len() == 0 {
        Seq::empty()
    } else {
        insert_package(
            list_packages_spec(names.drop_last()),
            (names.last(), "Packages/"@ + names.last()),
        )
    }
}

proof fn lemma_insert_package_split(
    entries: Seq<(Seq<char>, Seq<char>)>,
    e: (Seq<char>, Seq<char>),
    i: int,
)
    requires
        0 <= i <= entries.len(),
        forall|k: int| 0 <= k < i ==> lex_le((#[trigger] entries[k]).0, e.0),
    ensures
        insert_package(entries, e) == entries.subrange(0, i) + insert_package(
            entries.skip(i),
            e,
        ),
    decreases i,
{
    if i == 0 {
        assert(entries.skip(0) =~= entries);
        assert(entries.subrange(0, 0) + insert_package(entries, e) =~= insert_package(
            entries,
            e,
        ));
    } else {
        assert(lex_le(entries[0].0, e.0));
        lemma_insert_package_split(entries.drop_first(), e, i - 1);
        assert(entries.drop_first().subrange(0, i - 1) =~= entries.subrange(1, i));
        assert(entries.drop_first().skip(i - 1) =~= entries.skip(i));
        assert(seq![entries[0]] + (entries.subrange(1, i) + insert_package(entries.skip(i), e))
            =~= entries.subrange(0, i) + insert_package(entries.skip(i), e));
    }
}

/// The insertion point for a package name: past every entry whose name is
/// at or below it.
fn package_insert_pos(out: &Vec<(String, String)>, name: &[char]) -> (j: usize)
    ensures
        j <= out@.len(),
        forall|k: int| 0 <= k < j ==> lex_le((#[trigger] out@[k]).0@, name@),
        j < out@.len() ==> !lex_le(out@[j as int].0@, name@),
{
    let ghost cur = out@.map_values(|p: (String, String)| (p.0@, p.1@));
    let m = out.len();
    let mut j: usize = 0;
    while j < m
        invariant
            m == out@.len(),
            j <= m,
            forall|k: int| 0 <= k < j ==> lex_le((#[trigger] out@[k]).0@, name@),
        decreases m - j,
    {
        let kv = chars_of(out[j].0.as_str());
        if !(chars_lt(kv.as_slice(), name) || chars_eq(kv.as_slice(), name)) {
            return j;
        }
        j = j + 1;
    }
    j
}

/// List the package directories as `{name, path}`, sorted by name.
#[verifier::loop_isolation(false)]
pub fn list_packages(names: &Vec<String>) -> (out: Vec<(String, String)>)
    ensures
        out@.map_values(|p: (String, String)| (p.0@, p.1@)) == list_packages_spec(
            names@.map_values(|n: String| n@),
        ),
{
    let ghost nv = names@.map_values(|n: String| n@);
    let mut out: Vec<(String, String)> = Vec::new();
    let mut i: usize = 0;
    let n = names.len();
    proof {
        assert(out@.map_values(|p: (String, String)| (p.0@, p.1@)) =~= list_packages_spec(
            nv.subrange(0, 0),
        ));
    }
    while i < n
        invariant
            n == names@.len(),
            i <= n,
            out@.map_values(|p: (String, String)| (p.0@, p.1@)) == list_packages_spec(
                nv.subrange(0, i as int),
            ),
        decreases n - i,
    {
        let ghost pre = nv.subrange(0, i as int);
        let ghost post = nv.subrange(0, i as int + 1);
        proof {
            assert(post.drop_last() =~= pre);
            assert(post.last() == nv[i as int]);
            assert(nv[i as int] == names@[i as int]@);
        }
        let name = names[i].clone();
        let mut path = chars_of("Packages/");
        let namev = chars_of(name.as_str());
        push_all(&mut path, namev.as_slice());
        let entry = (name, string_of(path.as_slice()));
        let ghost ev = (entry.0@, entry.1@);
        let ghost cur = out@.map_values(|p: (String, String)| (p.0@, p.1@));
        let m = out.len();
        let j = package_insert_pos(&out, namev.as_slice());
        proof {
            assert(forall|k: int| 0 <= k < cur.len() ==> (#[trigger] cur[k]).0 == out@[k].0@);
            lemma_insert_package_split(cur, ev, j as int);
        }
        out.insert(j, entry);
        proof {
            assert(out@.map_values(|p: (String, String)| (p.0@, p.1@)) =~= cur.subrange(
                0,
                j as int,
            ) + (seq![ev] + cur.skip(j as int)));
            if j < m {
                assert(insert_package(cur.skip(j as int), ev) =~= seq![ev] + cur.skip(j as int))
                    by {
                    assert(cur.skip(j as int)[0] == cur[j as int]);
                }
            } else {
                assert(cur.skip(j as int).len() == 0);
                assert(insert_package(cur.skip(j as int), ev) =~= seq![ev]);
            }
            assert(out@.map_values(|p: (String, String)| (p.0@, p.1@)) =~= insert_package(
                cur,
                ev,
            ));
        }
        i = i + 1;
    }
    proof {
        assert(nv.subrange(0, n as int) =~= nv);
    }
    out
}

} // verus!

verus! {

#[verifier::ext_equal]
pub struct SearchMatchV {
    pub path: Seq<char>,
    pub line: int,
    pub text: Seq<char>,
}

/// One text-search hit.
pub struct SearchMatch {
    pub path: String,
    pub line: usize,
    pub text: String,
}

impl View for SearchMatch {
    type V = SearchMatchV;

    open spec fn view(&self) -> SearchMatchV {
        SearchMatchV { path: self.path@, line: self.line as int, text: self.text@ }
    }
}

/// A text search's outcome.
pub struct SearchOut {
    pub matches: Vec<SearchMatch>,
    pub count: usize,
    pub truncated: bool,
}

/// Why a search request was refused.
#[derive(Clone, Copy, PartialEq, Eq, Structural, Debug)]
pub enum SearchError {
    /// The pattern does not compile.
    InvalidPattern,
    /// The scope path has no recognized root prefix.
    BadPath,
}

/// Whether a file falls in the search's scope: under the requested
/// directory, or under the asset and package roots by default.
pub open spec fn sel_matches(path: Seq<char>, sel: Option<Seq<char>>) -> bool {
    match sel {
        Some(rel) => path == rel || is_prefix(rel.push('/'), path),
        None => is_prefix("Assets/"@, path) || is_prefix("Packages/"@, path),
    }
}

/// Matching lines of one file, added onto `acc`; stops, reporting
/// truncation, as soon as the limit is reached.
pub open spec fn search_file_rec(
    path: Seq<char>,
    lines: Seq<Seq<char>>,
    j: int,
    pattern: Seq<char>,
    acc: Seq<SearchMatchV>,
    limit: int,
) -> (Seq<SearchMatchV>, bool)
    decreases lines.len() - j,
{
    if j < 0 || j >= lines.len() {
        (acc, false)
    } else if regex_is_match(pattern, lines[j]) {
        let acc2 = acc.push(SearchMatchV { path: path, line: j + 1, text: lines[j] });
        if acc2.len() >= limit {
            (acc2, true)
        } else {
            search_file_rec(path, lines, j + 1, pattern, acc2, limit)
        }
    } else {
        search_file_rec(path, lines, j + 1, pattern, acc, limit)
    }
}

/// The search over the whole tree, in file order.
pub open spec fn search_tree_rec(
    files: Seq<SourceFileV>,
    k: int,
    pattern: Seq<char>,
    sel: Option<Seq<char>>,
    acc: Seq<SearchMatchV>,
    limit: int,
) -> (Seq<SearchMatchV>, bool)
    decreases files.len() - k,
{
    if k < 0 || k >= files.len() {
        (acc, false)
    } else {
        let f = files[k];
        if sel_matches(f.path, sel) && is_csharp_file_spec(f.path) {
            let r = search_file_rec(f.path, lines_spec(f.content), 0, pattern, acc, limit);
            if r.1 {
                r
            } else {
                search_tree_rec(files, k + 1, pattern, sel, r.0, limit)
            }
        } else {
            search_tree_rec(files, k + 1, pattern, sel, acc, limit)
        }
    }
}

/// What `search` yields: a refusal for a bad pattern or scope path, else
/// the matches in encounter order and whether the limit cut them short.
pub open spec fn search_spec(
    files: Seq<SourceFileV>,
    pattern: Seq<char>,
    path_opt: Option<Seq<char>>,
    limit_opt: Option<u64>,
) -> Result<(Seq<SearchMatchV>, bool), SearchError> {
    if !regex_pattern_ok(pattern) {
        Err(SearchError::InvalidPattern)
    } else {
        let limit = clamp_spec(
            match limit_opt {
                Some(v) => v as int,
                None => 50int,
            },
            1,
            500,
        );
        match path_opt {
            Some(p) => match crate::paths::normalize_rel_path_spec(p) {
                None => Err(SearchError::BadPath),
                Some(rel) => Ok(search_tree_rec(files, 0, pattern, Some(rel), Seq::empty(), limit)),
            },
            None => Ok(search_tree_rec(files, 0, pattern, None, Seq::empty(), limit)),
        }
    }
}

fn sel_matches_exec(path: &str, sel: &Option<String>) -> (r: bool)
    ensures
        r == sel_matches(path@, match *sel {
            Some(ref s) => Some(s@),
            None => None,
        }),
{
    let pv = chars_of(path);
    match sel {
        Some(rel) => {
            let rv = chars_of(rel.as_str());
            if chars_eq(pv.as_slice(), rv.as_slice()) {
                return true;
            }
            let mut sep = slice_range(rv.as_slice(), 0, rv.len());
            sep.push('/');
            proof {
                assert(sep@ =~= rel@.push('/'));
            }
            starts_with(pv.as_slice(), sep.as_slice())
        },
        None => {
            starts_with(pv.as_slice(), chars_of("Assets/").as_slice()) || starts_with(
                pv.as_slice(),
                chars_of("Packages/").as_slice(),
            )
        },
    }
}

/// Search the tree's C# files line by line for a pattern, in file order,
/// stopping at the clamped match limit.
#[verifier::loop_isolation(false)]
pub fn search_files(
    files: &Vec<SourceFile>,
    pattern: &str,
    path_opt: Option<&str>,
    limit_opt: Option<u64>,
) -> (out: Result<SearchOut, SearchError>)
    ensures
        match out {
            Ok(o) => {
                &&& search_spec(
                    files@.map_values(|f: SourceFile| f@),
                    pattern@,
                    match path_opt {
                        Some(p) => Some(p@),
                        None => None,
                    },
                    limit_opt,
                ) matches Ok(s)
                &&& o.matches@.map_values(|m: SearchMatch| m@) == s.0
                &&& o.truncated == s.1
                &&& o.count == o.matches@.len()
            },
            Err(e) => search_spec(
                files@.map_values(|f: SourceFile| f@),
                pattern@,
                match path_opt {
                    Some(p) => Some(p@),
                    None => None,
                },
                limit_opt,
            ) == Err::<(Seq<SearchMatchV>, bool), SearchError>(e),
        },
{
    let ghost fv = files@.map_values(|f: SourceFile| f@);
    let ghost pov = match path_opt {
        Some(p) => Some(p@),
        None => None::<Seq<char>>,
    };
    if !regex_pattern_valid(pattern) {
        return Err(SearchError::InvalidPattern);
    }
    let limit_u = clamp_u64(
        match limit_opt {
            Some(v) => v,
            None => 50,
        },
        1,
        500,
    );
    let limit = limit_u as usize;
    let sel: Option<String> = match path_opt {
        Some(p) => match crate::paths::normalize_rel_path(p) {
            Some(rel) => Some(rel),
            None => {
                return Err(SearchError::BadPath);
            },
        },
        None => None,
    };
    let ghost selv = match sel {
        Some(ref s) => Some(s@),
        None => None::<Seq<char>>,
    };
    let ghost target = search_tree_rec(fv, 0, pattern@, selv, Seq::empty(), limit as int);
    let mut matches: Vec<SearchMatch> = Vec::new();
    let mut k: usize = 0;
    let n = files.len();
    proof {
        assert(matches@.map_values(|m: SearchMatch| m@) =~= Seq::<SearchMatchV>::empty());
    }
    while k < n
        invariant
            n == files@.len(),
            k <= n,
            matches@.len() < limit,
            search_tree_rec(
                fv,
                k as int,
                pattern@,
                selv,
                matches@.map_values(|m: SearchMatch| m@),
                limit as int,
            ) == target,
        decreases n - k,
    {
        proof {
            assert(fv[k as int] == files@[k as int]@);
        }
        let f = &files[k];
        if sel_matches_exec(f.path.as_str(), &sel) && is_csharp_file(f.path.as_str()) {
            let ghost acc0 = matches@.map_values(|m: SearchMatch| m@);
            let ghost linesv = lines_spec(f.content@);
            let ghost file_result = search_file_rec(
                f.path@,
                linesv,
                0,
                pattern@,
                acc0,
                limit as int,
            );
            let lines = split_lines(f.content.as_str());
            let mut j: usize = 0;
            let ln = lines.len();
            while j < ln
                invariant
                    ln == lines@.len(),
                    linesv == lines@.map_values(|l: Vec<char>| l@),
                    j <= ln,
                    matches@.len() < limit,
                    search_file_rec(
                        f.path@,
                        linesv,
                        j as int,
                        pattern@,
                        matches@.map_values(|m: SearchMatch| m@),
                        limit as int,
                    ) == file_result,
                decreases ln - j,
            {
                proof {
                    assert(linesv[j as int] == lines@[j as int]@);
                }
                let line_str = string_of(lines[j].as_slice());
                let hit = match regex_line_matches(pattern, line_str.as_str()) {
                    Some(b) => b,
                    None => {
                        proof {
                            assert(false);
                        }
                        false
                    },
                };
                if hit {
                    let ghost mpre = matches@.map_values(|m: SearchMatch| m@);
                    let item = SearchMatch {
                        path: f.path.clone(),
                        line: j + 1,
                        text: line_str,
                    };
                    matches.push(item);
                    proof {
                        assert(matches@.map_values(|m: SearchMatch| m@) =~= mpre.push(
                            SearchMatchV {
                                path: f.path@,
                                line: j as int + 1,
                                text: linesv[j as int],
                            },
                        ));
                    }
                    if matches.len() >= limit {
                        proof {
                            assert(search_file_rec(
                                f.path@,
                                linesv,
                                j as int,
                                pattern@,
                                mpre,
                                limit as int,
                            ) == (matches@.map_values(|m: SearchMatch| m@), true));
                        }
                        let count = matches.len();
                        return Ok(SearchOut { matches, count, truncated: true });
                    }
                }
                j = j + 1;
            }
            proof {
                assert(file_result == (matches@.map_values(|m: SearchMatch| m@), false));
            }
        }
        k = k + 1;
    }
    let count = matches.len();
    Ok(SearchOut { matches, count, truncated: false })
}

} // verus!

verus! {

#[verifier::ext_equal]
pub struct RefItemV {
    pub line: int,
    pub column: int,
    pub snippet: Seq<char>,
    pub snippet_truncated: bool,
}

/// One reference hit: 1-based line, 1-based column, and its context
/// snippet.
pub struct RefItem {
    pub line: usize,
    pub column: usize,
    pub snippet: String,
    pub snippet_truncated: bool,
}

impl View for RefItem {
    type V = RefItemV;

    open spec fn view(&self) -> RefItemV {
        RefItemV {
            line: self.line as int,
            column: self.column as int,
            snippet: self.snippet@,
            snippet_truncated: self.snippet_truncated,
        }
    }
}

/// The reference hits of one file.
pub struct FileRefs {
    pub path: String,
    pub references: Vec<RefItem>,
}

impl View for FileRefs {
    type V = (Seq<char>, Seq<RefItemV>);

    open spec fn view(&self) -> (Seq<char>, Seq<RefItemV>) {
        (self.path@, self.references@.map_values(|r: RefItem| r@))
    }
}

/// The reference search's running state.
#[verifier::ext_equal]
pub struct RefsStateV {
    pub results: Seq<(Seq<char>, Seq<RefItemV>)>,
    pub total: int,
    pub bytes: int,
    pub truncated: bool,
    pub last_path: Option<Seq<char>>,
}

/// Why a reference search was refused.
#[derive(Clone, Copy, PartialEq, Eq, Structural, Debug)]
pub enum RefsError {
    /// The word-boundary pattern for the name does not compile.
    InvalidName,
}

/// Consuming the match offsets of one line: each hit is admitted only while
/// the per-file cap is free, the page has room, and its serialized size
/// fits the byte budget; a full page or budget stops the whole search.
pub open spec fn refs_match_rec(
    starts: Seq<usize>,
    m: int,
    line_no: int,
    snip: (Seq<char>, bool),
    refs: Seq<RefItemV>,
    total: int,
    bytes: int,
    mpf: int,
    page: int,
    maxb: int,
) -> (Seq<RefItemV>, int, int, bool)
    decreases starts.len() - m,
{
    if m < 0 || m >= starts.len() || refs.len() >= mpf {
        (refs, total, bytes, false)
    } else if total >= page {
        (refs, total, bytes, true)
    } else {
        let ib = ref_entry_encoded_len(line_no, starts[m] + 1, snip.0, snip.1);
        if bytes + ib > maxb {
            (refs, total, bytes, true)
        } else {
            refs_match_rec(
                starts,
                m + 1,
                line_no,
                snip,
                refs.push(
                    RefItemV {
                        line: line_no,
                        column: starts[m] + 1,
                        snippet: snip.0,
                        snippet_truncated: snip.1,
                    },
                ),
                total + 1,
                bytes + ib,
                mpf,
                page,
                maxb,
            )
        }
    }
}

/// Walking one file's lines.
pub open spec fn refs_lines_rec(
    name: Seq<char>,
    lines: Seq<Seq<char>>,
    j: int,
    ctx: int,
    refs: Seq<RefItemV>,
    total: int,
    bytes: int,
    mpf: int,
    page: int,
    maxb: int,
) -> (Seq<RefItemV>, int, int, bool)
    decreases lines.len() - j,
{
    if j < 0 || j >= lines.len() || refs.len() >= mpf {
        (refs, total, bytes, false)
    } else {
        let starts = word_match_starts(name, lines[j]);
        let snip = build_snippet_spec(lines, j, ctx, 400);
        let r = refs_match_rec(starts, 0, j + 1, snip, refs, total, bytes, mpf, page, maxb);
        if r.3 {
            r
        } else {
            refs_lines_rec(name, lines, j + 1, ctx, r.0, r.1, r.2, mpf, page, maxb)
        }
    }
}

/// Whether a candidate file is passed over: outside the scope's
/// directories, not a C# file, at or before the resumption cursor, or
/// without the path fragment.
pub open spec fn refs_skip_file(
    path: Seq<char>,
    dirs: Seq<Seq<char>>,
    start_after: Option<Seq<char>>,
    pfilter: Option<Seq<char>>,
) -> bool {
    !(path_in_dirs_spec(path, dirs) && is_csharp_file_spec(path)) || (match start_after {
        Some(c) => lex_le(path, c),
        None => false,
    }) || (match pfilter {
        Some(f) => !contains_seq(path, f),
        None => false,
    })
}

/// Walking the tree's files in order.
pub open spec fn refs_tree_rec(
    files: Seq<SourceFileV>,
    k: int,
    name: Seq<char>,
    dirs: Seq<Seq<char>>,
    start_after: Option<Seq<char>>,
    pfilter: Option<Seq<char>>,
    ctx: int,
    st: RefsStateV,
    mpf: int,
    page: int,
    maxb: int,
) -> RefsStateV
    decreases files.len() - k,
{
    if k < 0 || k >= files.len() {
        st
    } else {
        let f = files[k];
        if refs_skip_file(f.path, dirs, start_after, pfilter) {
            refs_tree_rec(files, k + 1, name, dirs, start_after, pfilter, ctx, st, mpf, page, maxb)
        } else {
            let r = refs_lines_rec(
                name,
                lines_spec(f.content),
                0,
                ctx,
                Seq::empty(),
                st.total,
                st.bytes,
                mpf,
                page,
                maxb,
            );
            let st2 = RefsStateV {
                results: if r.0.len() > 0 {
                    st.results.push((f.path, r.0))
                } else {
                    st.results
                },
                total: r.1,
                bytes: r.2,
                truncated: r.3,
                last_path: if r.0.len() > 0 {
                    Some(f.path)
                } else {
                    st.last_path
                },
            };
            if r.3 {
                st2
            } else {
                refs_tree_rec(
                    files,
                    k + 1,
                    name,
                    dirs,
                    start_after,
                    pfilter,
                    ctx,
                    st2,
                    mpf,
                    page,
                    maxb,
                )
            }
        }
    }
}

pub open spec fn refs_init_state() -> RefsStateV {
    RefsStateV {
        results: Seq::empty(),
        total: 0,
        bytes: 0,
        truncated: false,
        last_path: None,
    }
}

/// The whole reference search over a file tree.
pub open spec fn find_refs_spec(
    files: Seq<SourceFileV>,
    name: Seq<char>,
    scope: Seq<char>,
    start_after: Option<Seq<char>>,
    pfilter: Option<Seq<char>>,
    page_opt: Option<u64>,
    maxb_opt: Option<u64>,
    mpf_opt: Option<u64>,
    ctx_opt: Option<u64>,
) -> Result<RefsStateV, RefsError> {
    if !word_pattern_ok(name) {
        Err(RefsError::InvalidName)
    } else {
        let page = clamp_spec(
            match page_opt {
                Some(v) => v as int,
                None => 50int,
            },
            1,
            1000,
        );
        let maxb = clamp_spec(
            match maxb_opt {
                Some(v) => v as int,
                None => 65536int,
            },
            128,
            1048576,
        );
        let mpf = clamp_spec(
            match mpf_opt {
                Some(v) => v as int,
                None => 5int,
            },
            1,
            100,
        );
        let ctx = clamp_spec(
            match ctx_opt {
                Some(v) => v as int,
                None => 1int,
            },
            0,
            20,
        );
        Ok(
            refs_tree_rec(
                files,
                0,
                name,
                refs_scope_dirs_spec(scope),
                start_after,
                pfilter,
                ctx,
                refs_init_state(),
                mpf,
                page,
                maxb,
            ),
        )
    }
}

/// A reference search's outcome: per-file grouped hits, the hit count,
/// whether a stop condition cut the scan short, and then the path of the
/// last file that contributed, as the resumption cursor.
pub struct FindRefsOut {
    pub results: Vec<FileRefs>,
    pub total: usize,
    pub truncated: bool,
    pub cursor: Option<String>,
}

} // verus!

verus! {

/// Scan one file for word-boundary references, threading the page and byte
/// budgets; yields the file's hits, the updated counters, and whether a stop
/// condition fired.
#[verifier::loop_isolation(false)]
#[verifier::rlimit(100)]
fn scan_file_refs(
    name: &str,
    content: &str,
    ctx: usize,
    total0: usize,
    bytes0: usize,
    mpf: usize,
    page: usize,
    maxb: usize,
) -> (out: (Vec<RefItem>, usize, usize, bool))
    requires
        word_pattern_ok(name@),
        total0 <= page,
        bytes0 <= maxb,
        1 <= page <= 1000,
        1 <= mpf <= 100,
        128 <= maxb <= 1048576,
        ctx <= 20,
    ensures
        ({
            let fr = refs_lines_rec(
                name@,
                lines_spec(content@),
                0,
                ctx as int,
                Seq::<RefItemV>::empty(),
                total0 as int,
                bytes0 as int,
                mpf as int,
                page as int,
                maxb as int,
            );
            out.0@.map_values(|r: RefItem| r@) == fr.0 && out.1 as int == fr.1 && out.2 as int
                == fr.2 && out.3 == fr.3
        }),
        out.1 <= page,
        out.2 <= maxb,
{
    let ghost linesv = lines_spec(content@);
    let mut total: usize = total0;
    let mut bytes: usize = bytes0;
    let ghost file_result = refs_lines_rec(
        name@,
        linesv,
        0,
        ctx as int,
        Seq::<RefItemV>::empty(),
        total as int,
        bytes as int,
        mpf as int,
        page as int,
        maxb as int,
    );
    let lines = split_lines(content);
    let mut refs: Vec<RefItem> = Vec::new();
    let mut truncated = false;
    let mut j: usize = 0;
    let ln = lines.len();
    proof {
        assert(refs@.map_values(|r: RefItem| r@) =~= Seq::<RefItemV>::empty());
    }
    while j < ln
        invariant
            ln == lines@.len(),
            linesv == lines@.map_values(|l: Vec<char>| l@),
            j <= ln,
            refs@.len() <= mpf,
            total <= page,
            bytes <= maxb,
            !truncated,
            refs_lines_rec(
                name@,
                linesv,
                j as int,
                ctx as int,
                refs@.map_values(|r: RefItem| r@),
                total as int,
                bytes as int,
                mpf as int,
                page as int,
                maxb as int,
            ) == file_result,
        decreases ln - j,
    {
        if refs.len() >= mpf {
            break ;
        }
        proof {
            assert(linesv[j as int] == lines@[j as int]@);
        }
        let line_str = string_of(lines[j].as_slice());
        let starts = match word_ref_starts(name, line_str.as_str()) {
            Some(v) => v,
            None => {
                proof {
                    assert(false);
                }
                Vec::new()
            },
        };
        let snip = build_snippet(&lines, j, ctx, 400);
        let ghost snipv = (snip.0@, snip.1);
        let ghost line_result = refs_match_rec(
            starts@,
            0,
            j as int + 1,
            snipv,
            refs@.map_values(|r: RefItem| r@),
            total as int,
            bytes as int,
            mpf as int,
            page as int,
            maxb as int,
        );
        let mut m: usize = 0;
        let sn = starts.len();
        while m < sn
            invariant
                sn == starts@.len(),
                m <= sn,
                refs@.len() <= mpf,
                total <= page,
                bytes <= maxb,
                !truncated,
                forall|q: int| 0 <= q < starts@.len() ==> starts@[q] < usize::MAX,
                refs_match_rec(
                    starts@,
                    m as int,
                    j as int + 1,
                    snipv,
                    refs@.map_values(|r: RefItem| r@),
                    total as int,
                    bytes as int,
                    mpf as int,
                    page as int,
                    maxb as int,
                ) == line_result,
            decreases sn - m,
        {
            if refs.len() >= mpf {
                break ;
            }
            if total >= page {
                truncated = true;
                break ;
            }
            let col = starts[m] + 1;
            let ib = ref_item_encoded_len((j + 1) as u64, col as u64, snip.0.as_str(), snip.1);
            if ib > maxb - bytes {
                truncated = true;
                break ;
            }
            let ghost rpre = refs@.map_values(|r: RefItem| r@);
            refs.push(
                RefItem {
                    line: j + 1,
                    column: col,
                    snippet: snip.0.clone(),
                    snippet_truncated: snip.1,
                },
            );
            proof {
                assert(refs@.map_values(|r: RefItem| r@) =~= rpre.push(
                    RefItemV {
                        line: j as int + 1,
                        column: col as int,
                        snippet: snipv.0,
                        snippet_truncated: snipv.1,
                    },
                ));
            }
            bytes = bytes + ib;
            total = total + 1;
            m = m + 1;
        }
        if truncated {
            proof {
                assert(line_result == (
                    refs@.map_values(|r: RefItem| r@),
                    total as int,
                    bytes as int,
                    true,
                ));
                assert(file_result == line_result);
            }
            break ;
        }
        proof {
            assert(line_result == (
                refs@.map_values(|r: RefItem| r@),
                total as int,
                bytes as int,
                false,
            ));
        }
        j = j + 1;
    }
    proof {
        if !truncated {
            assert(file_result == (
                refs@.map_values(|r: RefItem| r@),
                total as int,
                bytes as int,
                false,
            ));
        } else {
            assert(file_result == (
                refs@.map_values(|r: RefItem| r@),
                total as int,
                bytes as int,
                true,
            ));
        }
    }
    (refs, total, bytes, truncated)
}

/// Search the tree for word-boundary references to `name`, in file order,
/// honoring the cursor, the optional path fragment, the per-file cap, the
/// page size and the byte budget; when a stop condition hits, the cursor
/// names the last file that contributed a hit.
#[verifier::loop_isolation(false)]
#[verifier::rlimit(100)]
#[verifier::spinoff_prover]
pub fn find_refs(
    files: &Vec<SourceFile>,
    name: &str,
    scope: &str,
    start_after: Option<&str>,
    pfilter: Option<&str>,
    page_opt: Option<u64>,
    maxb_opt: Option<u64>,
    mpf_opt: Option<u64>,
    ctx_opt: Option<u64>,
) -> (out: Result<FindRefsOut, RefsError>)
    ensures
        ({
            let spec = find_refs_spec(
                files@.map_values(|f: SourceFile| f@),
                name@,
                scope@,
                match start_after {
                    Some(c) => Some(c@),
                    None => None,
                },
                match pfilter {
                    Some(f) => Some(f@),
                    None => None,
                },
                page_opt,
                maxb_opt,
                mpf_opt,
                ctx_opt,
            );
            match out {
                Ok(o) => {
                    &&& spec matches Ok(st)
                    &&& o.results@.map_values(|f: FileRefs| f@) == st.results
                    &&& o.total as int == st.total
                    &&& o.truncated == st.truncated
                    &&& (match o.cursor {
                        Some(c) => st.truncated && st.last_path == Some(c@),
                        None => !st.truncated || st.last_path is None,
                    })
                },
                Err(e) => spec == Err::<RefsStateV, RefsError>(e),
            }
        }),
{
    let ghost fv = files@.map_values(|f: SourceFile| f@);
    let ghost sav = match start_after {
        Some(c) => Some(c@),
        None => None::<Seq<char>>,
    };
    let ghost pfv = match pfilter {
        Some(f) => Some(f@),
        None => None::<Seq<char>>,
    };
    let probe = word_ref_starts(name, "");
    if probe.is_none() {
        return Err(RefsError::InvalidName);
    }
    let page = clamp_u64(
        match page_opt {
            Some(v) => v,
            None => 50,
        },
        1,
        1000,
    ) as usize;
    let maxb = clamp_u64(
        match maxb_opt {
            Some(v) => v,
            None => 65536,
        },
        128,
        1048576,
    ) as usize;
    let mpf = clamp_u64(
        match mpf_opt {
            Some(v) => v,
            None => 5,
        },
        1,
        100,
    ) as usize;
    let ctx = clamp_u64(
        match ctx_opt {
            Some(v) => v,
            None => 1,
        },
        0,
        20,
    ) as usize;
    let dirs = refs_scope_dirs(scope);
    let ghost dv = refs_scope_dirs_spec(scope@);
    let ghost target = refs_tree_rec(
        fv,
        0,
        name@,
        dv,
        sav,
        pfv,
        ctx as int,
        refs_init_state(),
        mpf as int,
        page as int,
        maxb as int,
    );

    let mut results: Vec<FileRefs> = Vec::new();
    let mut total: usize = 0;
    let mut bytes: usize = 0;
    let mut last_path: Option<String> = None;
    let mut k: usize = 0;
    let n = files.len();
    proof {
        assert(results@.map_values(|f: FileRefs| f@) =~= Seq::<(Seq<char>, Seq<RefItemV>)>::empty());
    }
    while k < n
        invariant
            n == files@.len(),
            k <= n,
            total <= page,
            bytes <= maxb,
            refs_tree_rec(
                fv,
                k as int,
                name@,
                dv,
                sav,
                pfv,
                ctx as int,
                RefsStateV {
                    results: results@.map_values(|f: FileRefs| f@),
                    total: total as int,
                    bytes: bytes as int,
                    truncated: false,
                    last_path: match last_path {
                        Some(ref p) => Some(p@),
                        None => None,
                    },
                },
                mpf as int,
                page as int,
                maxb as int,
            ) == target,
        decreases n - k,
    {
        proof {
            assert(fv[k as int] == files@[k as int]@);
        }
        let f = &files[k];
        let in_scope = path_in_dirs(f.path.as_str(), &dirs) && is_csharp_file(f.path.as_str());
        let after_cursor = match start_after {
            Some(c) => {
                let pv = chars_of(f.path.as_str());
                let cv = chars_of(c);
                !crate::text::chars_le(pv.as_slice(), cv.as_slice())
            },
            None => true,
        };
        let filter_ok = match pfilter {
            Some(flt) => {
                let pv = chars_of(f.path.as_str());
                let fl = chars_of(flt);
                contains_sub(pv.as_slice(), fl.as_slice())
            },
            None => true,
        };
        if !(in_scope && after_cursor && filter_ok) {
            proof {
                assert(refs_skip_file(fv[k as int].path, dv, sav, pfv));
            }
            k = k + 1;
            continue ;
        }
        proof {
            assert(!refs_skip_file(fv[k as int].path, dv, sav, pfv));
        }
        let ghost st0 = RefsStateV {
            results: results@.map_values(|f: FileRefs| f@),
            total: total as int,
            bytes: bytes as int,
            truncated: false,
            last_path: match last_path {
                Some(ref p) => Some(p@),
                None => None,
            },
        };
        let ghost file_result = refs_lines_rec(
            name@,
            lines_spec(f.content@),
            0,
            ctx as int,
            Seq::<RefItemV>::empty(),
            total as int,
            bytes as int,
            mpf as int,
            page as int,
            maxb as int,
        );
        let scanned = scan_file_refs(name, f.content.as_str(), ctx, total, bytes, mpf, page, maxb);
        let refs = scanned.0;
        total = scanned.1;
        bytes = scanned.2;
        let truncated = scanned.3;
        let contributed = refs.len() > 0;
        if contributed {
            last_path = Some(f.path.clone());
            let ghost rpre = results@.map_values(|f2: FileRefs| f2@);
            let ghost rv = refs@.map_values(|r: RefItem| r@);
            results.push(FileRefs { path: f.path.clone(), references: refs });
            proof {
                assert(results@.map_values(|f2: FileRefs| f2@) =~= rpre.push(
                    (fv[k as int].path, rv),
                ));
            }
        }
        if truncated {
            proof {
                let st2 = RefsStateV {
                    results: results@.map_values(|f2: FileRefs| f2@),
                    total: total as int,
                    bytes: bytes as int,
                    truncated: true,
                    last_path: match last_path {
                        Some(ref p) => Some(p@),
                        None => None,
                    },
                };
                assert(target =~~= st2);
            }
            let cursor = match &last_path {
                Some(p) => Some(p.clone()),
                None => None,
            };
            return Ok(FindRefsOut { results, total, truncated: true, cursor });
        }
        k = k + 1;
    }
    proof {
        let stf = RefsStateV {
            results: results@.map_values(|f2: FileRefs| f2@),
            total: total as int,
            bytes: bytes as int,
            truncated: false,
            last_path: match last_path {
                Some(ref p) => Some(p@),
                None => None,
            },
        };
        assert(target =~~= stf);
    }
    Ok(FindRefsOut { results, total, truncated: false, cursor: None })
}

} // verus!
