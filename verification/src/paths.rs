//! Project-relative path handling: normalization to the recognized root
//! prefixes, scope filtering, and the small path helpers the tool engine and
//! the protocol clients share. Paths are modelled as character strings in
//! forward-slash form.

use vstd::prelude::*;

use crate::text::{
    chars_eq, chars_of, contains_part, eq_ignore_ascii_case, filter_nonempty, find_first,
    first_occ, is_prefix, join_char, join_with, last_occ_char, lemma_first_occ,
    lemma_last_occ_char, lower_seq, nonempty_parts, occurs_at, push_all, rfind_char, slashify,
    slice_range, split_by, split_char, starts_with, string_of, strip_all_prefix, to_slashes, trim,
    trim_spec,
};

verus! {

/// Strip every leading `./`, as the normalization's first pass does.
pub open spec fn strip_dot_slash(s: Seq<char>) -> Seq<char>
    decreases s.len(),
{
    if s.len() >= 2 && s[0] == '.' && s[1] == '/' {
        strip_dot_slash(s.skip(2))
    } else {
        s
    }
}

/// Strip every leading `/`.
pub open spec fn strip_leading_slashes(s: Seq<char>) -> Seq<char>
    decreases s.len(),
{
    if s.len() >= 1 && s[0] == '/' {
        strip_leading_slashes(s.skip(1))
    } else {
        s
    }
}

/// The trimmed, slash-normalized form of a raw path, before the root prefix
/// is looked for.
pub open spec fn cleaned_path(raw: Seq<char>) -> Seq<char> {
    strip_leading_slashes(strip_dot_slash(slashify(trim_spec(raw))))
}

pub open spec fn min_opt(a: Option<int>, b: Option<int>) -> Option<int> {
    match (a, b) {
        (Some(x), Some(y)) => Some(
            if x <= y {
                x
            } else {
                y
            },
        ),
        (Some(x), None) => Some(x),
        (None, other) => other,
    }
}

/// Position of the earliest recognized root prefix in `s`, if any.
pub open spec fn earliest_root_prefix(s: Seq<char>) -> Option<int> {
    min_opt(
        min_opt(first_occ(s, "Assets/"@), first_occ(s, "Packages/"@)),
        first_occ(s, "Library/PackageCache/"@),
    )
}

/// Truncate `s` so that it begins at the earliest recognized root prefix.
pub open spec fn truncated_at_root(s: Seq<char>) -> Seq<char> {
    match earliest_root_prefix(s) {
        Some(i) => s.skip(i),
        None => s,
    }
}

pub open spec fn has_root_prefix(s: Seq<char>) -> bool {
    is_prefix("Assets/"@, s) || is_prefix("Packages/"@, s) || is_prefix(
        "Library/PackageCache/"@,
        s,
    )
}

/// The path normalization rule: trim, turn backslashes into slashes, strip
/// `./` and leading `/`, cut to the earliest root prefix, refuse paths without
/// a root prefix or with a `..` component, and collapse empty components.
pub open spec fn normalize_rel_path_spec(raw: Seq<char>) -> Option<Seq<char>> {
    let t = truncated_at_root(cleaned_path(raw));
    if !has_root_prefix(t) {
        None
    } else {
        let parts = nonempty_parts(split_char(t, '/'));
        if parts.contains(".."@) {
            None
        } else {
            Some(join_char(parts, '/'))
        }
    }
}

/// Pick the smaller of two found positions.
fn min_found(a: Option<usize>, b: Option<usize>) -> (r: Option<usize>)
    ensures
        min_opt(
            match a {
                Some(x) => Some(x as int),
                None => None,
            },
            match b {
                Some(y) => Some(y as int),
                None => None,
            },
        ) == (match r {
            Some(z) => Some(z as int),
            None => None::<int>,
        }),
{
    match (a, b) {
        (Some(x), Some(y)) => if x <= y {
            Some(x)
        } else {
            Some(y)
        },
        (Some(x), None) => Some(x),
        (None, other) => other,
    }
}

/// Normalize a raw path to project-relative, forward-slash form; `None` when
/// no recognized root prefix is present or a parent-directory component
/// remains.
pub fn normalize_rel_path(raw: &str) -> (r: Option<String>)
    ensures
        match r {
            Some(p) => normalize_rel_path_spec(raw@) == Some(p@),
            None => normalize_rel_path_spec(raw@) == None::<Seq<char>>,
        },
{
    let v = chars_of(raw);
    let t = trim(v.as_slice());
    let mut cur = to_slashes(t.as_slice());
    while cur.len() >= 2 && cur[0] == '.' && cur[1] == '/'
        invariant
            strip_dot_slash(cur@) == strip_dot_slash(slashify(trim_spec(raw@))),
        decreases cur@.len(),
    {
        let nxt = slice_range(cur.as_slice(), 2, cur.len());
        proof {
            assert(nxt@ =~= cur@.skip(2));
        }
        cur = nxt;
    }
    while cur.len() >= 1 && cur[0] == '/'
        invariant
            strip_leading_slashes(cur@) == strip_leading_slashes(strip_dot_slash(
                slashify(trim_spec(raw@)),
            )),
        decreases cur@.len(),
    {
        let nxt = slice_range(cur.as_slice(), 1, cur.len());
        proof {
            assert(nxt@ =~= cur@.skip(1));
        }
        cur = nxt;
    }
    proof {
        assert(cur@ == cleaned_path(raw@));
    }
    let assets = chars_of("Assets/");
    let packages = chars_of("Packages/");
    let cache = chars_of("Library/PackageCache/");

    let fa = find_first(cur.as_slice(), assets.as_slice());
    let fp = find_first(cur.as_slice(), packages.as_slice());
    let fc = find_first(cur.as_slice(), cache.as_slice());
    let best = min_found(min_found(fa, fp), fc);
    if let Some(i) = best {
        proof {
            lemma_first_occ(cur@, "Assets/"@);
            lemma_first_occ(cur@, "Packages/"@);
            lemma_first_occ(cur@, "Library/PackageCache/"@);
            assert(occurs_at(cur@, "Assets/"@, i as int) || occurs_at(cur@, "Packages/"@, i as int)
                || occurs_at(cur@, "Library/PackageCache/"@, i as int));
        }
        let nxt = slice_range(cur.as_slice(), i, cur.len());
        proof {
            assert(nxt@ =~= cur@.skip(i as int));
        }
        cur = nxt;
    }
    let ok = starts_with(cur.as_slice(), assets.as_slice()) || starts_with(
        cur.as_slice(),
        packages.as_slice(),
    ) || starts_with(cur.as_slice(), cache.as_slice());
    if !ok {
        return None;
    }
    let parts = filter_nonempty(split_by(cur.as_slice(), '/'));
    let dotdot = chars_of("..");
    if contains_part(&parts, dotdot.as_slice()) {
        return None;
    }
    let joined = join_with(&parts, '/');
    Some(string_of(joined.as_slice()))
}

/// Whether a project-relative path falls under the named search scope.
pub open spec fn path_matches_scope_spec(path: Seq<char>, scope: Seq<char>) -> bool {
    if scope == "assets"@ {
        is_prefix("Assets/"@, path)
    } else if scope == "packages"@ {
        is_prefix("Packages/"@, path) || is_prefix("Library/PackageCache/"@, path)
    } else if scope == "embedded"@ {
        is_prefix("Packages/"@, path)
    } else if scope == "library"@ {
        is_prefix("Library/PackageCache/"@, path)
    } else {
        true
    }
}

pub fn path_matches_scope(path: &str, scope: &str) -> (r: bool)
    ensures
        r == path_matches_scope_spec(path@, scope@),
{
    let p = chars_of(path);
    let s = chars_of(scope);
    let assets = chars_of("Assets/");
    let packages = chars_of("Packages/");
    let cache = chars_of("Library/PackageCache/");
    if chars_eq(s.as_slice(), chars_of("assets").as_slice()) {
        starts_with(p.as_slice(), assets.as_slice())
    } else if chars_eq(s.as_slice(), chars_of("packages").as_slice()) {
        starts_with(p.as_slice(), packages.as_slice()) || starts_with(
            p.as_slice(),
            cache.as_slice(),
        )
    } else if chars_eq(s.as_slice(), chars_of("embedded").as_slice()) {
        starts_with(p.as_slice(), packages.as_slice())
    } else if chars_eq(s.as_slice(), chars_of("library").as_slice()) {
        starts_with(p.as_slice(), cache.as_slice())
    } else {
        true
    }
}

/// The file-name component: what follows the last `/`.
pub open spec fn file_name_spec(p: Seq<char>) -> Seq<char> {
    match last_occ_char(p, '/') {
        Some(i) => p.skip(i + 1),
        None => p,
    }
}

/// The extension of a file name: what follows the last `.`, provided the dot
/// is not the leading character.
pub open spec fn extension_spec(p: Seq<char>) -> Option<Seq<char>> {
    let name = file_name_spec(p);
    match last_occ_char(name, '.') {
        Some(i) => if i > 0 {
            Some(name.skip(i + 1))
        } else {
            None
        },
        None => None,
    }
}

/// Whether the path names a C# source file: extension `cs`, compared without
/// regard to ASCII case.
pub open spec fn is_csharp_file_spec(p: Seq<char>) -> bool {
    match extension_spec(p) {
        Some(e) => lower_seq(e) == "cs"@,
        None => false,
    }
}

pub fn is_csharp_file(path: &str) -> (r: bool)
    ensures
        r == is_csharp_file_spec(path@),
{
    let p = chars_of(path);
    let name = match rfind_char(p.as_slice(), '/') {
        Some(i) => {
            let plen = p.len();
            proof {
                lemma_last_occ_char(p@, '/');
                assert(i < plen);
            }
            slice_range(p.as_slice(), i + 1, plen)
        },
        None => p,
    };
    proof {
        assert(name@ =~= file_name_spec(path@));
    }
    match rfind_char(name.as_slice(), '.') {
        Some(i) => {
            if i == 0 {
                return false;
            }
            let nlen = name.len();
            proof {
                lemma_last_occ_char(name@, '.');
                assert(i < nlen);
            }
            let ext = slice_range(name.as_slice(), i + 1, nlen);
            proof {
                assert(ext@ =~= name@.skip(i + 1));
            }
            let cs = chars_of("cs");
            let r = eq_ignore_ascii_case(ext.as_slice(), cs.as_slice());
            proof {
                reveal_strlit("cs");
                assert(lower_seq("cs"@) =~= "cs"@);
            }
            r
        },
        None => false,
    }
}

} // verus!

verus! {

/// Strip a root-directory prefix: the path equal to the root maps to the
/// empty remainder, a path under `root/` loses that lead, anything else is
/// refused.
pub open spec fn strip_root_prefix(root: Seq<char>, p: Seq<char>) -> Option<Seq<char>> {
    if p == root {
        Some(Seq::<char>::empty())
    } else if is_prefix(root.push('/'), p) {
        Some(p.skip(root.len() as int + 1))
    } else {
        None
    }
}

fn strip_root_prefix_exec(root: &[char], p: &[char]) -> (r: Option<Vec<char>>)
    ensures
        match r {
            Some(v) => strip_root_prefix(root@, p@) == Some(v@),
            None => strip_root_prefix(root@, p@) == None::<Seq<char>>,
        },
{
    if chars_eq(p, root) {
        let empty: Vec<char> = Vec::new();
        proof {
            assert(empty@ =~= Seq::<char>::empty());
        }
        return Some(empty);
    }
    let mut sep = slice_range(root, 0, root.len());
    sep.push('/');
    proof {
        assert(sep@ =~= root@.push('/'));
    }
    if starts_with(p, sep.as_slice()) {
        let plen = p.len();
        proof {
            assert(sep@.len() <= plen);
        }
        let out = slice_range(p, root.len() + 1, plen);
        proof {
            assert(out@ =~= p@.skip(root@.len() as int + 1));
        }
        Some(out)
    } else {
        None
    }
}

/// A path made relative to the project root where possible, in
/// forward-slash form.
pub open spec fn to_rel_project_path_spec(root: Seq<char>, p: Seq<char>) -> Seq<char> {
    match strip_root_prefix(root, p) {
        Some(r) => slashify(r),
        None => slashify(p),
    }
}

pub fn to_rel_project_path(root: &str, path: &str) -> (r: String)
    ensures
        r@ == to_rel_project_path_spec(root@, path@),
{
    let rv = chars_of(root);
    let pv = chars_of(path);
    let rel = match strip_root_prefix_exec(rv.as_slice(), pv.as_slice()) {
        Some(stripped) => to_slashes(stripped.as_slice()),
        None => to_slashes(pv.as_slice()),
    };
    string_of(rel.as_slice())
}

/// A `file://` URI for an absolute path.
pub open spec fn file_uri_spec(p: Seq<char>) -> Seq<char> {
    "file://"@ + slashify(p)
}

pub fn file_uri(path: &str) -> (r: String)
    ensures
        r@ == file_uri_spec(path@),
{
    let mut out = chars_of("file://");
    let p = to_slashes(chars_of(path).as_slice());
    push_all(&mut out, p.as_slice());
    string_of(out.as_slice())
}

/// Map a `file://` URI back to a normalized project-relative path.
pub open spec fn uri_to_rel_path_spec(root: Seq<char>, uri: Seq<char>) -> Option<Seq<char>> {
    if !is_prefix("file://"@, uri) {
        None
    } else {
        let raw = slashify(strip_all_prefix(uri, "file://"@));
        let rel = match strip_root_prefix(root, raw) {
            Some(r) => r,
            None => raw,
        };
        normalize_rel_path_spec(rel)
    }
}

pub fn uri_to_rel_path(root: &str, uri: &str) -> (r: Option<String>)
    ensures
        match r {
            Some(p) => uri_to_rel_path_spec(root@, uri@) == Some(p@),
            None => uri_to_rel_path_spec(root@, uri@) == None::<Seq<char>>,
        },
{
    let uv = chars_of(uri);
    let scheme = chars_of("file://");
    if !starts_with(uv.as_slice(), scheme.as_slice()) {
        return None;
    }
    let stripped = crate::text::trim_start_matches_seq(uv, scheme.as_slice());
    let raw = to_slashes(stripped.as_slice());
    let rv = chars_of(root);
    let rel = match strip_root_prefix_exec(rv.as_slice(), raw.as_slice()) {
        Some(r) => r,
        None => raw,
    };
    let rel_str = string_of(rel.as_slice());
    normalize_rel_path(rel_str.as_str())
}

/// Make an absolute path project-relative where possible; keep anything else
/// as given, in forward-slash form.
pub open spec fn to_project_relative_or_raw_spec(root: Seq<char>, raw: Seq<char>) -> Seq<char> {
    if raw.len() > 0 && raw[0] == '/' {
        match strip_root_prefix(root, raw) {
            Some(r) => slashify(r),
            None => slashify(raw),
        }
    } else {
        slashify(raw)
    }
}

pub fn to_project_relative_or_raw(root: &str, raw: &str) -> (r: String)
    ensures
        r@ == to_project_relative_or_raw_spec(root@, raw@),
{
    let rv = chars_of(root);
    let pv = chars_of(raw);
    if pv.len() > 0 && pv[0] == '/' {
        let rel = match strip_root_prefix_exec(rv.as_slice(), pv.as_slice()) {
            Some(stripped) => to_slashes(stripped.as_slice()),
            None => to_slashes(pv.as_slice()),
        };
        string_of(rel.as_slice())
    } else {
        let rel = to_slashes(pv.as_slice());
        string_of(rel.as_slice())
    }
}

/// Where the symbol index is persisted, below the project root.
pub open spec fn index_file_path_spec(root: Seq<char>) -> Seq<char> {
    root.push('/') + ".unity/cache/unity-cli/symbol-index.json"@
}

pub fn index_file_path(root: &str) -> (r: String)
    ensures
        r@ == index_file_path_spec(root@),
{
    let mut out = chars_of(root);
    out.push('/');
    let tail = chars_of(".unity/cache/unity-cli/symbol-index.json");
    push_all(&mut out, tail.as_slice());
    string_of(out.as_slice())
}

/// Why a requested path was refused.
#[derive(Clone, Copy, PartialEq, Eq, Structural, Debug)]
pub enum PathError {
    /// An absolute path that does not lie under the project root.
    NotUnderRoot,
    /// A path in which no recognized root prefix was found, or one with a
    /// parent-directory component.
    NoRootPrefix,
}

/// Accept either a project-relative path or an absolute path under the
/// project root, and normalize it.
pub open spec fn normalize_rel_or_abs_path_spec(root: Seq<char>, raw: Seq<char>) -> Result<
    Seq<char>,
    PathError,
> {
    if raw.len() > 0 && raw[0] == '/' {
        match strip_root_prefix(root, raw) {
            Some(rel) => match normalize_rel_path_spec(slashify(rel)) {
                Some(p) => Ok(p),
                None => Err(PathError::NoRootPrefix),
            },
            None => Err(PathError::NotUnderRoot),
        }
    } else {
        match normalize_rel_path_spec(raw) {
            Some(p) => Ok(p),
            None => Err(PathError::NoRootPrefix),
        }
    }
}

pub fn normalize_rel_or_abs_path(root: &str, raw: &str) -> (r: Result<String, PathError>)
    ensures
        match r {
            Ok(p) => normalize_rel_or_abs_path_spec(root@, raw@) == Ok::<Seq<char>, PathError>(p@),
            Err(e) => normalize_rel_or_abs_path_spec(root@, raw@) == Err::<Seq<char>, PathError>(
                e,
            ),
        },
{
    let pv = chars_of(raw);
    if pv.len() > 0 && pv[0] == '/' {
        let rv = chars_of(root);
        match strip_root_prefix_exec(rv.as_slice(), pv.as_slice()) {
            Some(rel) => {
                let rel_text = string_of(to_slashes(rel.as_slice()).as_slice());
                match normalize_rel_path(rel_text.as_str()) {
                    Some(p) => Ok(p),
                    None => Err(PathError::NoRootPrefix),
                }
            },
            None => Err(PathError::NotUnderRoot),
        }
    } else {
        match normalize_rel_path(raw) {
            Some(p) => Ok(p),
            None => Err(PathError::NoRootPrefix),
        }
    }
}

/// The directories a full index build walks for a scope.
pub open spec fn build_scope_dirs_spec(scope: Seq<char>, exclude_cache: bool) -> Seq<Seq<char>> {
    let base = if scope == "assets"@ {
        seq!["Assets"@]
    } else if scope == "packages"@ {
        seq!["Packages"@]
    } else if scope == "embedded"@ {
        seq!["Packages"@]
    } else if scope == "library"@ {
        seq!["Library/PackageCache"@]
    } else {
        seq!["Assets"@, "Packages"@]
    };
    if !exclude_cache && scope != "assets"@ && scope != "embedded"@ {
        base.push("Library/PackageCache"@)
    } else {
        base
    }
}

pub fn build_scope_dirs(scope: &str, exclude_cache: bool) -> (r: Vec<String>)
    ensures
        r@.map_values(|s: String| s@) == build_scope_dirs_spec(scope@, exclude_cache),
{
    let sv = chars_of(scope);
    let is_assets = chars_eq(sv.as_slice(), chars_of("assets").as_slice());
    let is_packages = chars_eq(sv.as_slice(), chars_of("packages").as_slice());
    let is_embedded = chars_eq(sv.as_slice(), chars_of("embedded").as_slice());
    let is_library = chars_eq(sv.as_slice(), chars_of("library").as_slice());
    let mut out: Vec<String> = Vec::new();
    if is_assets {
        out.push(string_of(chars_of("Assets").as_slice()));
    } else if is_packages || is_embedded {
        out.push(string_of(chars_of("Packages").as_slice()));
    } else if is_library {
        out.push(string_of(chars_of("Library/PackageCache").as_slice()));
    } else {
        out.push(string_of(chars_of("Assets").as_slice()));
        out.push(string_of(chars_of("Packages").as_slice()));
    }
    if !exclude_cache && !is_assets && !is_embedded {
        out.push(string_of(chars_of("Library/PackageCache").as_slice()));
    }
    proof {
        assert(out@.map_values(|s: String| s@) =~= build_scope_dirs_spec(scope@, exclude_cache));
    }
    out
}

/// The directories a reference search walks for a scope.
pub open spec fn refs_scope_dirs_spec(scope: Seq<char>) -> Seq<Seq<char>> {
    if scope == "assets"@ {
        seq!["Assets"@]
    } else if scope == "packages"@ {
        seq!["Packages"@, "Library/PackageCache"@]
    } else if scope == "embedded"@ {
        seq!["Packages"@]
    } else if scope == "library"@ {
        seq!["Library/PackageCache"@]
    } else {
        seq!["Assets"@, "Packages"@, "Library/PackageCache"@]
    }
}

pub fn refs_scope_dirs(scope: &str) -> (r: Vec<String>)
    ensures
        r@.map_values(|s: String| s@) == refs_scope_dirs_spec(scope@),
{
    let sv = chars_of(scope);
    let mut out: Vec<String> = Vec::new();
    if chars_eq(sv.as_slice(), chars_of("assets").as_slice()) {
        out.push(string_of(chars_of("Assets").as_slice()));
    } else if chars_eq(sv.as_slice(), chars_of("packages").as_slice()) {
        out.push(string_of(chars_of("Packages").as_slice()));
        out.push(string_of(chars_of("Library/PackageCache").as_slice()));
    } else if chars_eq(sv.as_slice(), chars_of("embedded").as_slice()) {
        out.push(string_of(chars_of("Packages").as_slice()));
    } else if chars_eq(sv.as_slice(), chars_of("library").as_slice()) {
        out.push(string_of(chars_of("Library/PackageCache").as_slice()));
    } else {
        out.push(string_of(chars_of("Assets").as_slice()));
        out.push(string_of(chars_of("Packages").as_slice()));
        out.push(string_of(chars_of("Library/PackageCache").as_slice()));
    }
    proof {
        assert(out@.map_values(|s: String| s@) =~= refs_scope_dirs_spec(scope@));
    }
    out
}

/// Whether `path` lies below one of the listed directories.
pub open spec fn path_in_dirs_spec(path: Seq<char>, dirs: Seq<Seq<char>>) -> bool {
    exists|k: int| 0 <= k < dirs.len() && is_prefix(#[trigger] dirs[k].push('/'), path)
}

pub fn path_in_dirs(path: &str, dirs: &Vec<String>) -> (r: bool)
    ensures
        r == path_in_dirs_spec(path@, dirs@.map_values(|s: String| s@)),
{
    let ghost dv = dirs@.map_values(|s: String| s@);
    let pv = chars_of(path);
    let mut k: usize = 0;
    while k < dirs.len()
        invariant
            dv == dirs@.map_values(|s: String| s@),
            pv@ == path@,
            k <= dirs@.len(),
            forall|m: int| 0 <= m < k ==> !is_prefix(#[trigger] dv[m].push('/'), path@),
        decreases dirs@.len() - k,
    {
        let mut d = chars_of(dirs[k].as_str());
        d.push('/');
        proof {
            assert(d@ =~= dv[k as int].push('/'));
        }
        if starts_with(pv.as_slice(), d.as_slice()) {
            return true;
        }
        k = k + 1;
    }
    false
}

} // verus!
