//! The C# symbol extractor: a line-oriented lexical scanner that strips
//! comments, tracks brace depth and open type scopes, and recognizes
//! namespace, type, property, method, constructor and field declarations
//! through a fixed set of compiled patterns.

use vstd::prelude::*;

use crate::text::{
    chars_eq, chars_of, find_first, first_occ, occurs_at, slice_range, split_by, split_char,
    string_of, trim, trim_spec,
};

verus! {

#[verifier::external_type_specification]
#[verifier::external_body]
pub struct ExRegex(regex::Regex);

/// The extractor's precompiled patterns, built once and shared by every
/// extraction call. The fields stay private: every value comes from
/// `matchers_new`, which is what ties each capture wrapper's named result
/// to its fixed pattern.
pub struct Matchers {
    namespace: regex::Regex,
    type_decl: regex::Regex,
    method: regex::Regex,
    constructor: regex::Regex,
    property: regex::Regex,
    field: regex::Regex,
}

/// Relies on `regex::Regex::new`: compiles the six fixed extractor patterns.
/// Every pattern is a valid constant, so compilation succeeds.
#[verifier::external_body]
pub fn matchers_new() -> Matchers {
    Matchers {
        namespace: regex::Regex::new(r"^\s*namespace\s+([A-Za-z_][A-Za-z0-9_.]*)").unwrap(),
        type_decl: regex::Regex::new(r"^\s*(?:public|private|protected|internal|static|sealed|abstract|partial|new|\s)*(class|struct|interface|enum)\s+([A-Za-z_][A-Za-z0-9_]*)").unwrap(),
        method: regex::Regex::new(r"^\s*(?:public|private|protected|internal|static|virtual|override|sealed|abstract|async|partial|new|extern|\s)+[A-Za-z_][A-Za-z0-9_<>,\[\]\.?]*\s+([A-Za-z_][A-Za-z0-9_]*)\s*\([^;{}]*\)\s*(?:\{|=>)").unwrap(),
        constructor: regex::Regex::new(r"^\s*(?:public|private|protected|internal|static|extern|\s)*([A-Za-z_][A-Za-z0-9_]*)\s*\([^;{}]*\)\s*(?:\{|=>)").unwrap(),
        property: regex::Regex::new(r"^\s*(?:public|private|protected|internal|static|virtual|override|sealed|abstract|new|\s)+[A-Za-z_][A-Za-z0-9_<>,\[\]\.?]*\s+([A-Za-z_][A-Za-z0-9_]*)\s*\{\s*(?:get|set)\b").unwrap(),
        field: regex::Regex::new(r"^\s*(?:public|private|protected|internal|static|readonly|const|volatile|new|\s)+[A-Za-z_][A-Za-z0-9_<>,\[\]\.?]*\s+([A-Za-z_][A-Za-z0-9_]*)\s*(?:=|;)").unwrap(),
    }
}

/// The namespace name that the namespace pattern captures on a line, if any.
pub uninterp spec fn namespace_match(line: Seq<char>) -> Option<Seq<char>>;

/// The declaration keyword and type name that the type pattern captures, if
/// any.
pub uninterp spec fn type_match(line: Seq<char>) -> Option<(Seq<char>, Seq<char>)>;

/// The property name that the property pattern captures, if any.
pub uninterp spec fn property_match(line: Seq<char>) -> Option<Seq<char>>;

/// The method name that the method pattern captures, if any.
pub uninterp spec fn method_match(line: Seq<char>) -> Option<Seq<char>>;

/// The name that the constructor pattern captures, if any.
pub uninterp spec fn constructor_match(line: Seq<char>) -> Option<Seq<char>>;

/// The field name that the field pattern captures, if any.
pub uninterp spec fn field_match(line: Seq<char>) -> Option<Seq<char>>;

/// Relies on `regex::Regex::captures` with the namespace pattern
/// `^\s*namespace\s+([A-Za-z_][A-Za-z0-9_.]*)`: the captured group is a
/// function of the line alone; the group's shape makes it a non-empty piece
/// of the line that starts with a letter or underscore and holds only
/// letters, digits, underscores and dots.
#[verifier::external_body]
fn capture_namespace(m: &Matchers, line: &str) -> (r: Option<String>)
    ensures
        match r {
            Some(n) => namespace_match(line@) == Some(n@) && n@.len() >= 1
                && crate::text::contains_seq(line@, n@) && (('A' <= n@[0] && n@[0] <= 'Z') || (
            'a' <= n@[0] && n@[0] <= 'z') || n@[0] == '_') && (forall|k: int|
                0 <= k < n@.len() ==> (('A' <= #[trigger] n@[k] && n@[k] <= 'Z') || ('a' <= n@[k]
                    && n@[k] <= 'z') || ('0' <= n@[k] && n@[k] <= '9') || n@[k] == '_' || n@[k]
                    == '.')),
            None => namespace_match(line@) == None::<Seq<char>>,
        },
{
    m.namespace.captures(line).and_then(|c| c.get(1)).map(|g| g.as_str().to_string())
}

/// Relies on `regex::Regex::captures` with the type-declaration pattern: the
/// two captured groups (declaration keyword, type name) are a function of the
/// line alone, and both are non-empty.
#[verifier::external_body]
fn capture_type(m: &Matchers, line: &str) -> (r: Option<(String, String)>)
    ensures
        match r {
            Some(kn) => type_match(line@) == Some((kn.0@, kn.1@)) && kn.0@.len() >= 1
                && kn.1@.len() >= 1,
            None => type_match(line@) == None::<(Seq<char>, Seq<char>)>,
        },
{
    m.type_decl.captures(line).and_then(|c| match (c.get(1), c.get(2)) {
        (Some(a), Some(b)) => Some((a.as_str().to_string(), b.as_str().to_string())),
        _ => None,
    })
}

/// Relies on `regex::Regex::captures` with the property pattern: the captured
/// name is a function of the line alone and non-empty.
#[verifier::external_body]
fn capture_property(m: &Matchers, line: &str) -> (r: Option<String>)
    ensures
        match r {
            Some(n) => property_match(line@) == Some(n@) && n@.len() >= 1,
            None => property_match(line@) == None::<Seq<char>>,
        },
{
    m.property.captures(line).and_then(|c| c.get(1)).map(|g| g.as_str().to_string())
}

/// Relies on `regex::Regex::captures` with the method pattern: the captured
/// name is a function of the line alone and non-empty.
#[verifier::external_body]
fn capture_method(m: &Matchers, line: &str) -> (r: Option<String>)
    ensures
        match r {
            Some(n) => method_match(line@) == Some(n@) && n@.len() >= 1,
            None => method_match(line@) == None::<Seq<char>>,
        },
{
    m.method.captures(line).and_then(|c| c.get(1)).map(|g| g.as_str().to_string())
}

/// Relies on `regex::Regex::captures` with the constructor pattern: the
/// captured name is a function of the line alone and non-empty.
#[verifier::external_body]
fn capture_constructor(m: &Matchers, line: &str) -> (r: Option<String>)
    ensures
        match r {
            Some(n) => constructor_match(line@) == Some(n@) && n@.len() >= 1,
            None => constructor_match(line@) == None::<Seq<char>>,
        },
{
    m.constructor.captures(line).and_then(|c| c.get(1)).map(|g| g.as_str().to_string())
}

/// Relies on `regex::Regex::captures` with the field pattern: the captured
/// name is a function of the line alone and non-empty.
#[verifier::external_body]
fn capture_field(m: &Matchers, line: &str) -> (r: Option<String>)
    ensures
        match r {
            Some(n) => field_match(line@) == Some(n@) && n@.len() >= 1,
            None => field_match(line@) == None::<Seq<char>>,
        },
{
    m.field.captures(line).and_then(|c| c.get(1)).map(|g| g.as_str().to_string())
}

/// Control-flow keywords that would otherwise match the constructor shape.
pub open spec fn is_control_keyword_spec(name: Seq<char>) -> bool {
    name == "if"@ || name == "for"@ || name == "foreach"@ || name == "while"@ || name
        == "switch"@ || name == "catch"@ || name == "using"@ || name == "lock"@
}

pub fn is_control_keyword(name: &str) -> (r: bool)
    ensures
        r == is_control_keyword_spec(name@),
{
    let v = chars_of(name);
    chars_eq(v.as_slice(), chars_of("if").as_slice()) || chars_eq(
        v.as_slice(),
        chars_of("for").as_slice(),
    ) || chars_eq(v.as_slice(), chars_of("foreach").as_slice()) || chars_eq(
        v.as_slice(),
        chars_of("while").as_slice(),
    ) || chars_eq(v.as_slice(), chars_of("switch").as_slice()) || chars_eq(
        v.as_slice(),
        chars_of("catch").as_slice(),
    ) || chars_eq(v.as_slice(), chars_of("using").as_slice()) || chars_eq(
        v.as_slice(),
        chars_of("lock").as_slice(),
    )
}

/// One comment-stripping move over a line: `i` is the scan position,
/// `in_block`/`in_string`/`escape` the scanner state, `acc` the output so
/// far. Yields the stripped text and whether a block comment remains open.
pub open spec fn strip_cs(
    chars: Seq<char>,
    i: int,
    in_block: bool,
    in_string: bool,
    escape: bool,
    acc: Seq<char>,
) -> (Seq<char>, bool)
    decreases chars.len() - i,
{
    if i < 0 || i >= chars.len() {
        (acc, in_block)
    } else {
        let ch = chars[i];
        let has_next = i + 1 < chars.len();
        if in_block {
            if ch == '*' && has_next && chars[i + 1] == '/' {
                strip_cs(chars, i + 2, false, in_string, escape, acc)
            } else {
                strip_cs(chars, i + 1, true, in_string, escape, acc)
            }
        } else if !in_string && ch == '/' && has_next && chars[i + 1] == '*' {
            strip_cs(chars, i + 2, true, in_string, escape, acc)
        } else if !in_string && ch == '/' && has_next && chars[i + 1] == '/' {
            (acc, in_block)
        } else {
            let ns = if ch == '"' && !escape {
                !in_string
            } else {
                in_string
            };
            let ne = ch == '\\' && !escape;
            strip_cs(chars, i + 1, in_block, ns, ne, acc.push(ch))
        }
    }
}

/// What one line looks like with `//` and `/*...*/` comments removed, given
/// whether a block comment was open when the line began.
pub open spec fn strip_comments_spec(line: Seq<char>, in_block: bool) -> (Seq<char>, bool) {
    strip_cs(line, 0, in_block, false, false, Seq::empty())
}

/// Remove C# comments from one line, carrying block-comment state across
/// lines; string contents are left untouched.
pub fn strip_csharp_comments(line: &str, in_block_comment: &mut bool) -> (out: String)
    ensures
        out@ == strip_comments_spec(line@, *old(in_block_comment)).0,
        *final(in_block_comment) == strip_comments_spec(line@, *old(in_block_comment)).1,
{
    let v = chars_of(line);
    let n = v.len();
    let mut out: Vec<char> = Vec::new();
    let mut i: usize = 0;
    let mut bc: bool = *in_block_comment;
    let mut instr: bool = false;
    let mut esc: bool = false;
    let ghost target = strip_comments_spec(line@, *old(in_block_comment));
    while i < n
        invariant
            n == v@.len(),
            v@ == line@,
            i <= n,
            target == strip_comments_spec(line@, *old(in_block_comment)),
            strip_cs(v@, i as int, bc, instr, esc, out@) == target,
        decreases n - i,
    {
        let ch = v[i];
        let has_next = i + 1 < n;
        if bc {
            if ch == '*' && has_next && v[i + 1] == '/' {
                bc = false;
                i = i + 2;
            } else {
                i = i + 1;
            }
        } else if !instr && ch == '/' && has_next && v[i + 1] == '*' {
            bc = true;
            i = i + 2;
        } else if !instr && ch == '/' && has_next && v[i + 1] == '/' {
            *in_block_comment = bc;
            return string_of(out.as_slice());
        } else {
            if ch == '"' && !esc {
                instr = !instr;
            }
            esc = ch == '\\' && !esc;
            out.push(ch);
            i = i + 1;
        }
    }
    *in_block_comment = bc;
    string_of(out.as_slice())
}

} // verus!

verus! {

/// One extracted symbol, at spec level.
#[verifier::ext_equal]
pub struct SymbolV {
    pub path: Seq<char>,
    pub name: Seq<char>,
    pub kind: Seq<char>,
    pub line: int,
    pub column: int,
    pub container: Option<Seq<char>>,
    pub namespace: Option<Seq<char>>,
}

/// One extracted symbol: its project-relative path, name, kind, 1-based line
/// and column, the nearest enclosing type, and the active namespace.
pub struct SymbolEntry {
    pub path: String,
    pub name: String,
    pub kind: String,
    pub line: usize,
    pub column: usize,
    pub container: Option<String>,
    pub namespace: Option<String>,
}

pub open spec fn opt_view(o: Option<String>) -> Option<Seq<char>> {
    match o {
        Some(s) => Some(s@),
        None => None,
    }
}

impl View for SymbolEntry {
    type V = SymbolV;

    open spec fn view(&self) -> SymbolV {
        SymbolV {
            path: self.path@,
            name: self.name@,
            kind: self.kind@,
            line: self.line as int,
            column: self.column as int,
            container: opt_view(self.container),
            namespace: opt_view(self.namespace),
        }
    }
}

/// An open type scope: the type's name and the brace depth at which its body
/// opened.
struct ScopedType {
    name: String,
    depth: usize,
}

spec fn stack_seq(s: Seq<ScopedType>) -> Seq<(Seq<char>, int)> {
    s.map_values(|t: ScopedType| (t.name@, t.depth as int))
}

/// Scope entries whose opening depth exceeds `depth` are closed.
pub open spec fn popped(stack: Seq<(Seq<char>, int)>, depth: int) -> Seq<(Seq<char>, int)>
    decreases stack.len(),
{
    if stack.len() > 0 && stack.last().1 > depth {
        popped(stack.drop_last(), depth)
    } else {
        stack
    }
}

fn pop_scopes(stack: &mut Vec<ScopedType>, depth: usize)
    ensures
        stack_seq(final(stack)@) == popped(stack_seq(old(stack)@), depth as int),
{
    loop
        invariant
            popped(stack_seq(stack@), depth as int) == popped(
                stack_seq(old(stack)@),
                depth as int,
            ),
        ensures
            stack_seq(stack@) == popped(stack_seq(old(stack)@), depth as int),
        decreases stack@.len(),
    {
        let n = stack.len();
        if n == 0 {
            proof {
                assert(stack_seq(stack@).len() == 0);
            }
            break;
        }
        proof {
            assert(stack_seq(stack@).last() == (stack@.last().name@, stack@.last().depth as int));
        }
        if stack[n - 1].depth > depth {
            let ghost pre = stack_seq(stack@);
            stack.pop();
            proof {
                assert(stack_seq(stack@) =~= pre.drop_last());
            }
        } else {
            break;
        }
    }
}

/// Number of occurrences of `c` in `s`.
pub open spec fn count_char(s: Seq<char>, c: char) -> int
    decreases s.len(),
{
    if s.len() == 0 {
        0
    } else {
        count_char(s.drop_last(), c) + if s.last() == c {
            1int
        } else {
            0int
        }
    }
}

proof fn lemma_count_char_bounds(s: Seq<char>, c: char)
    ensures
        0 <= count_char(s, c) <= s.len(),
    decreases s.len(),
{
    if s.len() > 0 {
        lemma_count_char_bounds(s.drop_last(), c);
    }
}

fn count_char_exec(v: &[char], c: char) -> (n: usize)
    ensures
        n as int == count_char(v@, c),
{
    let mut n: usize = 0;
    let mut i: usize = 0;
    while i < v.len()
        invariant
            i <= v@.len(),
            n as int == count_char(v@.subrange(0, i as int), c),
            n <= i,
        decreases v@.len() - i,
    {
        let ghost pre = v@.subrange(0, i as int);
        let ghost post = v@.subrange(0, i as int + 1);
        proof {
            assert(post.drop_last() =~= pre);
            assert(post.last() == v@[i as int]);
        }
        if v[i] == c {
            n = n + 1;
        }
        i = i + 1;
    }
    proof {
        assert(v@.subrange(0, v@.len() as int) =~= v@);
    }
    n
}

/// The 1-based byte column of the first occurrence of `name` on the
/// original, unstripped line; 1 when the name is not found. Byte counting
/// saturates at the machine word.
pub open spec fn symbol_column_spec(line: Seq<char>, name: Seq<char>) -> int {
    match first_occ(line, name) {
        Some(i) => crate::text::sat_add(crate::text::byte_pos(line, i), 1),
        None => 1,
    }
}

pub fn symbol_column(line: &[char], name: &[char]) -> (c: usize)
    ensures
        c as int == symbol_column_spec(line@, name@),
{
    let ll = line.len();
    match find_first(line, name) {
        Some(i) => {
            proof {
                crate::text::lemma_first_occ(line@, name@);
                assert(i + name@.len() <= ll);
            }
            let mut bp: usize = 0;
            let mut k: usize = 0;
            while k < i
                invariant
                    k <= i,
                    i <= line@.len(),
                    ll == line@.len(),
                    bp as int == crate::text::byte_pos(line@, k as int),
                decreases i - k,
            {
                bp = crate::text::usat_add(bp, crate::text::utf8_len_exec(line[k]));
                k = k + 1;
            }
            crate::text::usat_add(bp, 1)
        },
        None => 1,
    }
}

/// The scanner's whole-file state.
#[verifier::ext_equal]
pub struct ScanState {
    pub namespace: Option<Seq<char>>,
    pub stack: Seq<(Seq<char>, int)>,
    pub pending: Option<Seq<char>>,
    pub in_block: bool,
    pub depth: int,
    pub symbols: Seq<SymbolV>,
}

pub open spec fn init_scan_state() -> ScanState {
    ScanState {
        namespace: None,
        stack: Seq::empty(),
        pending: None,
        in_block: false,
        depth: 0,
        symbols: Seq::empty(),
    }
}

/// What scanning one line does to the state: close stale scopes, strip
/// comments, read a namespace, then recognize at most one declaration, then
/// account for braces and open or close scopes.
pub open spec fn ext_step(path: Seq<char>, line_idx: int, raw: Seq<char>, st: ScanState) -> ScanState {
    let stack0 = popped(st.stack, st.depth);
    let stripped = strip_comments_spec(raw, st.in_block);
    let cleaned = stripped.0;
    let nb = stripped.1;
    let trimmed = trim_spec(cleaned);
    let open_count = count_char(cleaned, '{');
    let close_count = count_char(cleaned, '}');
    let ns = match namespace_match(trimmed) {
        Some(n) => Some(n),
        None => st.namespace,
    };
    let container0 = if stack0.len() > 0 {
        Some(stack0.last().0)
    } else {
        None
    };
    let branch = ext_line_symbols(path, line_idx, raw, trimmed, ns, container0, st.pending,
        open_count, close_count);
    let new_symbols = st.symbols + branch.0;
    let push_now = branch.1;
    let pending1 = branch.2;
    let d1 = st.depth + open_count - close_count;
    let d2 = if d1 < 0 {
        0
    } else {
        d1
    };
    let opened = if d2 < 1 {
        1
    } else {
        d2
    };
    let after_push = match push_now {
        Some(nm) => (stack0.push((nm, opened)), pending1),
        None => match pending1 {
            Some(pn) => if open_count > close_count {
                (stack0.push((pn, opened)), None)
            } else {
                (stack0, pending1)
            },
            None => (stack0, pending1),
        },
    };
    ScanState {
        namespace: ns,
        stack: popped(after_push.0, d2),
        pending: after_push.1,
        in_block: nb,
        depth: d2,
        symbols: new_symbols,
    }
}

/// The symbols one line contributes, the type to open a scope for now, and
/// the pending type name afterward.
pub open spec fn ext_line_symbols(
    path: Seq<char>,
    line_idx: int,
    raw: Seq<char>,
    trimmed: Seq<char>,
    ns: Option<Seq<char>>,
    container0: Option<Seq<char>>,
    pending: Option<Seq<char>>,
    open_count: int,
    close_count: int,
) -> (Seq<SymbolV>, Option<Seq<char>>, Option<Seq<char>>) {
    match type_match(trimmed) {
        Some(kn) => {
            let sym = SymbolV {
                path: path,
                name: kn.1,
                kind: kn.0,
                line: line_idx + 1,
                column: symbol_column_spec(raw, kn.1),
                container: container0,
                namespace: ns,
            };
            let push_now = if open_count > close_count {
                Some(kn.1)
            } else {
                None
            };
            let pending1 = if open_count > close_count {
                pending
            } else if open_count == 0 {
                Some(kn.1)
            } else {
                pending
            };
            (seq![sym], push_now, pending1)
        },
        None => match container0 {
            Some(cname) => {
                if trimmed.len() > 0 && trimmed[0] == '[' {
                    (Seq::empty(), None, pending)
                } else {
                    match property_match(trimmed) {
                        Some(n) => (
                            seq![member_symbol(path, n, "property"@, line_idx, raw, cname, ns)],
                            None,
                            pending,
                        ),
                        None => match method_match(trimmed) {
                            Some(n) => if !is_control_keyword_spec(n) {
                                (
                                    seq![
                                        member_symbol(path, n, "method"@, line_idx, raw, cname, ns),
                                    ],
                                    None,
                                    pending,
                                )
                            } else {
                                (Seq::empty(), None, pending)
                            },
                            None => match constructor_match(trimmed) {
                                Some(n) => if n == cname {
                                    (
                                        seq![
                                            member_symbol(
                                                path,
                                                n,
                                                "method"@,
                                                line_idx,
                                                raw,
                                                cname,
                                                ns,
                                            ),
                                        ],
                                        None,
                                        pending,
                                    )
                                } else {
                                    (Seq::empty(), None, pending)
                                },
                                None => match field_match(trimmed) {
                                    Some(n) => (
                                        seq![
                                            member_symbol(
                                                path,
                                                n,
                                                "field"@,
                                                line_idx,
                                                raw,
                                                cname,
                                                ns,
                                            ),
                                        ],
                                        None,
                                        pending,
                                    ),
                                    None => (Seq::empty(), None, pending),
                                },
                            },
                        },
                    }
                }
            },
            None => (Seq::empty(), None, pending),
        },
    }
}

/// A member symbol (property, method or field) found inside an open type.
pub open spec fn member_symbol(
    path: Seq<char>,
    name: Seq<char>,
    kind: Seq<char>,
    line_idx: int,
    raw: Seq<char>,
    cname: Seq<char>,
    ns: Option<Seq<char>>,
) -> SymbolV {
    SymbolV {
        path: path,
        name: name,
        kind: kind,
        line: line_idx + 1,
        column: symbol_column_spec(raw, name),
        container: Some(cname),
        namespace: ns,
    }
}

/// Scanning the remaining lines from `i` on.
pub open spec fn ext_scan(path: Seq<char>, lines: Seq<Seq<char>>, i: int, st: ScanState) -> ScanState
    decreases lines.len() - i,
{
    if i < 0 || i >= lines.len() {
        st
    } else {
        ext_scan(path, lines, i + 1, ext_step(path, i, lines[i], st))
    }
}

/// What follows the last `\r`-stripping of a line.
pub open spec fn strip_cr(s: Seq<char>) -> Seq<char> {
    if s.len() > 0 && s.last() == '\r' {
        s.drop_last()
    } else {
        s
    }
}

/// The lines of a text, as `str::lines` yields them: split at `\n`, one
/// `\r` before each `\n` removed, and the optional final unterminated line
/// kept exactly as written.
pub open spec fn lines_spec(s: Seq<char>) -> Seq<Seq<char>> {
    let parts = split_char(s, '\n');
    let terminated = parts.drop_last().map_values(|p: Seq<char>| strip_cr(p));
    if parts.last().len() == 0 {
        terminated
    } else {
        terminated.push(parts.last())
    }
}

/// The ordered symbols extracted from one file's text.
pub open spec fn extract_symbols_spec(path: Seq<char>, text: Seq<char>) -> Seq<SymbolV> {
    ext_scan(path, lines_spec(text), 0, init_scan_state()).symbols
}

/// Split a text into its lines.
pub fn split_lines(text: &str) -> (r: Vec<Vec<char>>)
    ensures
        r@.map_values(|v: Vec<char>| v@) == lines_spec(text@),
{
    let chars = chars_of(text);
    let parts = split_by(chars.as_slice(), '\n');
    let ghost parts_v = parts@.map_values(|p: Vec<char>| p@);
    proof {
        lemma_split_len(text@, '\n', Seq::empty());
    }
    let dl = parts.len() - 1;
    let mut out: Vec<Vec<char>> = Vec::new();
    let mut i: usize = 0;
    proof {
        assert(out@.map_values(|v: Vec<char>| v@) =~= parts_v.subrange(0, 0).map_values(
            |p: Seq<char>| strip_cr(p),
        ));
    }
    while i < dl
        invariant
            dl == parts@.len() - 1,
            parts_v == parts@.map_values(|p: Vec<char>| p@),
            i <= dl,
            out@.map_values(|v: Vec<char>| v@) == parts_v.subrange(0, i as int).map_values(
                |p: Seq<char>| strip_cr(p),
            ),
        decreases dl - i,
    {
        let ghost pre = parts_v.subrange(0, i as int).map_values(|p: Seq<char>| strip_cr(p));
        let ghost post = parts_v.subrange(0, i as int + 1).map_values(
            |p: Seq<char>| strip_cr(p),
        );
        proof {
            assert(parts_v.subrange(0, i as int + 1).drop_last() =~= parts_v.subrange(
                0,
                i as int,
            ));
            assert(post.drop_last() =~= pre);
            assert(post.last() == strip_cr(parts_v[i as int]));
            assert(parts_v[i as int] == parts@[i as int]@);
        }
        let pl = parts[i].len();
        let line = if pl > 0 && parts[i][pl - 1] == '\r' {
            slice_range(parts[i].as_slice(), 0, pl - 1)
        } else {
            slice_range(parts[i].as_slice(), 0, pl)
        };
        let ghost lval = line@;
        proof {
            assert(lval =~= strip_cr(parts_v[i as int]));
        }
        out.push(line);
        proof {
            assert(out@.map_values(|v: Vec<char>| v@) =~= pre.push(lval));
            assert(pre.push(lval) =~= post);
        }
        i = i + 1;
    }
    proof {
        assert(parts_v.subrange(0, dl as int) =~= parts_v.drop_last());
    }
    let last_len = parts[dl].len();
    if last_len > 0 {
        let ghost pre = out@.map_values(|v: Vec<char>| v@);
        let line = slice_range(parts[dl].as_slice(), 0, last_len);
        let ghost lval = line@;
        proof {
            assert(lval =~= parts_v.last());
        }
        out.push(line);
        proof {
            assert(out@.map_values(|v: Vec<char>| v@) =~= pre.push(lval));
        }
    }
    out
}

} // verus!

verus! {

/// Total length of a sequence of lines.
pub open spec fn sum_lens(parts: Seq<Seq<char>>) -> int
    decreases parts.len(),
{
    if parts.len() == 0 {
        0
    } else {
        sum_lens(parts.drop_last()) + parts.last().len()
    }
}

proof fn lemma_sum_lens_nonneg(parts: Seq<Seq<char>>)
    ensures
        sum_lens(parts) >= 0,
    decreases parts.len(),
{
    if parts.len() > 0 {
        lemma_sum_lens_nonneg(parts.drop_last());
    }
}

proof fn lemma_sum_cons(x: Seq<char>, r: Seq<Seq<char>>)
    ensures
        sum_lens(seq![x] + r) == x.len() + sum_lens(r),
    decreases r.len(),
{
    if r.len() == 0 {
        assert(seq![x] + r =~= seq![x]);
        assert(seq![x].drop_last() =~= Seq::<Seq<char>>::empty());
        assert(sum_lens(Seq::<Seq<char>>::empty()) == 0);
        assert(sum_lens(seq![x]) == x.len());
    } else {
        assert((seq![x] + r).drop_last() =~= seq![x] + r.drop_last());
        assert((seq![x] + r).last() == r.last());
        lemma_sum_cons(x, r.drop_last());
    }
}

proof fn lemma_sum_split(s: Seq<char>, sep: char, cur: Seq<char>)
    ensures
        sum_lens(crate::text::split_rec(s, sep, cur)) <= cur.len() + s.len(),
    decreases s.len(),
{
    if s.len() == 0 {
        assert(seq![cur].drop_last() =~= Seq::<Seq<char>>::empty());
        assert(sum_lens(Seq::<Seq<char>>::empty()) == 0);
        assert(sum_lens(seq![cur]) == cur.len());
    } else if s[0] == sep {
        lemma_sum_split(s.drop_first(), sep, Seq::empty());
        lemma_sum_cons(cur, crate::text::split_rec(s.drop_first(), sep, Seq::empty()));
    } else {
        lemma_sum_split(s.drop_first(), sep, cur.push(s[0]));
    }
}

proof fn lemma_sum_map_strip_cr(parts: Seq<Seq<char>>)
    ensures
        sum_lens(parts.map_values(|p: Seq<char>| strip_cr(p))) <= sum_lens(parts),
    decreases parts.len(),
{
    if parts.len() > 0 {
        lemma_sum_map_strip_cr(parts.drop_last());
        let mapped = parts.map_values(|p: Seq<char>| strip_cr(p));
        assert(mapped.drop_last() =~= parts.drop_last().map_values(|p: Seq<char>| strip_cr(p)));
        assert(mapped.last() == strip_cr(parts.last()));
    }
}

/// Splitting yields at least one part.
proof fn lemma_split_len(s: Seq<char>, sep: char, cur: Seq<char>)
    ensures
        crate::text::split_rec(s, sep, cur).len() >= 1,
    decreases s.len(),
{
    if s.len() > 0 {
        if s[0] == sep {
            lemma_split_len(s.drop_first(), sep, Seq::empty());
        } else {
            lemma_split_len(s.drop_first(), sep, cur.push(s[0]));
        }
    }
}

/// The lines of a text are no longer than the text itself.
proof fn lemma_lines_sum(text: Seq<char>)
    ensures
        sum_lens(lines_spec(text)) <= text.len(),
{
    lemma_sum_split(text, '\n', Seq::empty());
    lemma_split_len(text, '\n', Seq::empty());
    let parts = split_char(text, '\n');
    let terminated = parts.drop_last().map_values(|p: Seq<char>| strip_cr(p));
    lemma_sum_lens_nonneg(parts.drop_last());
    lemma_sum_map_strip_cr(parts.drop_last());
    assert(sum_lens(parts) == sum_lens(parts.drop_last()) + parts.last().len());
    if parts.last().len() == 0 {
    } else {
        let lines = terminated.push(parts.last());
        assert(lines.drop_last() =~= terminated);
        assert(sum_lens(lines) == sum_lens(terminated) + parts.last().len());
    }
}

proof fn lemma_sum_take_succ(parts: Seq<Seq<char>>, j: int)
    requires
        0 <= j < parts.len(),
    ensures
        sum_lens(parts.take(j + 1)) == sum_lens(parts.take(j)) + parts[j].len(),
{
    assert(parts.take(j + 1).drop_last() =~= parts.take(j));
    assert(parts.take(j + 1).last() == parts[j]);
}

proof fn lemma_sum_take_le(parts: Seq<Seq<char>>, j: int)
    requires
        0 <= j <= parts.len(),
    ensures
        sum_lens(parts.take(j)) <= sum_lens(parts),
    decreases parts.len() - j,
{
    if j == parts.len() {
        assert(parts.take(j) =~= parts);
    } else {
        lemma_sum_take_succ(parts, j);
        lemma_sum_take_le(parts, j + 1);
    }
}

/// Stripping comments never lengthens a line.
proof fn lemma_strip_len(
    chars: Seq<char>,
    i: int,
    in_block: bool,
    in_string: bool,
    escape: bool,
    acc: Seq<char>,
)
    requires
        0 <= i <= chars.len(),
    ensures
        strip_cs(chars, i, in_block, in_string, escape, acc).0.len() <= acc.len() + chars.len()
            - i,
    decreases chars.len() - i,
{
    if i < chars.len() {
        let ch = chars[i];
        let has_next = i + 1 < chars.len();
        if in_block {
            if ch == '*' && has_next && chars[i + 1] == '/' {
                lemma_strip_len(chars, i + 2, false, in_string, escape, acc);
            } else {
                lemma_strip_len(chars, i + 1, true, in_string, escape, acc);
            }
        } else if !in_string && ch == '/' && has_next && chars[i + 1] == '*' {
            lemma_strip_len(chars, i + 2, true, in_string, escape, acc);
        } else if !in_string && ch == '/' && has_next && chars[i + 1] == '/' {
        } else {
            let ns = if ch == '"' && !escape {
                !in_string
            } else {
                in_string
            };
            let ne = ch == '\\' && !escape;
            lemma_strip_len(chars, i + 1, in_block, ns, ne, acc.push(ch));
        }
    }
}

pub fn clone_opt(o: &Option<String>) -> (r: Option<String>)
    ensures
        opt_view(r) == opt_view(*o),
{
    match o {
        Some(s) => Some(s.clone()),
        None => None,
    }
}

spec fn st_of(
    ns: Option<String>,
    stack: Seq<ScopedType>,
    pending: Option<String>,
    in_block: bool,
    depth: int,
    symbols: Seq<SymbolEntry>,
) -> ScanState {
    ScanState {
        namespace: opt_view(ns),
        stack: stack_seq(stack),
        pending: opt_view(pending),
        in_block: in_block,
        depth: depth,
        symbols: symbols.map_values(|s: SymbolEntry| s@),
    }
}

/// Scan a file's text and collect its symbols, in order of appearance.
#[verifier::loop_isolation(false)]
#[verifier::rlimit(100)]
pub fn extract_symbols_from_text(m: &Matchers, path: &str, text: &str) -> (out: Vec<SymbolEntry>)
    ensures
        out@.map_values(|s: SymbolEntry| s@) == extract_symbols_spec(path@, text@),
{
    let tlen = text.unicode_len();
    let lines = split_lines(text);
    let ghost lv = lines@.map_values(|v: Vec<char>| v@);
    proof {
        lemma_lines_sum(text@);
        lemma_sum_lens_nonneg(lv);
    }
    let mut namespace: Option<String> = None;
    let mut stack: Vec<ScopedType> = Vec::new();
    let mut pending: Option<String> = None;
    let mut in_block: bool = false;
    let mut depth: usize = 0;
    let mut symbols: Vec<SymbolEntry> = Vec::new();
    let ghost full = ext_scan(path@, lv, 0, init_scan_state());
    proof {
        assert(st_of(namespace, stack@, pending, in_block, depth as int, symbols@)
            =~~= init_scan_state());
        assert(sum_lens(lv.take(0)) == 0) by {
            assert(lv.take(0) =~= Seq::<Seq<char>>::empty());
        }
    }
    let mut li: usize = 0;
    while li < lines.len()
        invariant
            li <= lv.len(),
            depth as int <= sum_lens(lv.take(li as int)),
            ext_scan(
                path@,
                lv,
                li as int,
                st_of(namespace, stack@, pending, in_block, depth as int, symbols@),
            ) == full,
        decreases lv.len() - li,
    {
        let ghost st0 = st_of(namespace, stack@, pending, in_block, depth as int, symbols@);
        let ghost raw_v = lv[li as int];
        proof {
            assert(lines@[li as int]@ == raw_v);
        }

        pop_scopes(&mut stack, depth);
        let raw_str = string_of(lines[li].as_slice());
        let cleaned = strip_csharp_comments(raw_str.as_str(), &mut in_block);
        let cleaned_chars = chars_of(cleaned.as_str());
        let trimmed = trim(cleaned_chars.as_slice());
        let trimmed_str = string_of(trimmed.as_slice());
        let open_c = count_char_exec(cleaned_chars.as_slice(), '{');
        let close_c = count_char_exec(cleaned_chars.as_slice(), '}');
        proof {
            lemma_strip_len(raw_v, 0, st0.in_block, false, false, Seq::empty());
            lemma_count_char_bounds(cleaned_chars@, '{');
            lemma_count_char_bounds(cleaned_chars@, '}');
            lemma_sum_take_succ(lv, li as int);
            lemma_sum_take_le(lv, li as int + 1);
            assert(depth + open_c <= tlen);
        }

        match capture_namespace(m, trimmed_str.as_str()) {
            Some(nsname) => {
                namespace = Some(nsname);
            },
            None => {},
        }
        let container0: Option<String> = if stack.len() > 0 {
            Some(stack[stack.len() - 1].name.clone())
        } else {
            None
        };
        proof {
            if stack@.len() > 0 {
                assert(stack_seq(stack@).last() == (
                    stack@.last().name@,
                    stack@.last().depth as int,
                ));
            }
        }
        let mut push_now: Option<String> = None;
        match capture_type(m, trimmed_str.as_str()) {
            Some(kind_and_name) => {
                let (kindtext, symname) = kind_and_name;
                let name_chars = chars_of(symname.as_str());
                let col = symbol_column(lines[li].as_slice(), name_chars.as_slice());
                symbols.push(
                    SymbolEntry {
                        path: String::from_str(path),
                        name: symname.clone(),
                        kind: kindtext,
                        line: li + 1,
                        column: col,
                        container: clone_opt(&container0),
                        namespace: clone_opt(&namespace),
                    },
                );
                if open_c > close_c {
                    push_now = Some(symname);
                } else if open_c == 0 {
                    pending = Some(symname);
                }
            },
            None => {
                match &container0 {
                    Some(cname) => {
                        if trimmed.len() > 0 && trimmed[0] == '[' {
                            // Attribute lines contribute nothing.
                        } else {
                            match capture_property(m, trimmed_str.as_str()) {
                                Some(n) => {
                                    let nc = chars_of(n.as_str());
                                    let col = symbol_column(lines[li].as_slice(), nc.as_slice());
                                    symbols.push(
                                        SymbolEntry {
                                            path: String::from_str(path),
                                            name: n,
                                            kind: String::from_str("property"),
                                            line: li + 1,
                                            column: col,
                                            container: Some(cname.clone()),
                                            namespace: clone_opt(&namespace),
                                        },
                                    );
                                },
                                None => {
                                    match capture_method(m, trimmed_str.as_str()) {
                                        Some(n) => {
                                            if !is_control_keyword(n.as_str()) {
                                                let nc = chars_of(n.as_str());
                                                let col = symbol_column(
                                                    lines[li].as_slice(),
                                                    nc.as_slice(),
                                                );
                                                symbols.push(
                                                    SymbolEntry {
                                                        path: String::from_str(path),
                                                        name: n,
                                                        kind: String::from_str("method"),
                                                        line: li + 1,
                                                        column: col,
                                                        container: Some(cname.clone()),
                                                        namespace: clone_opt(&namespace),
                                                    },
                                                );
                                            }
                                        },
                                        None => {
                                            match capture_constructor(m, trimmed_str.as_str()) {
                                                Some(n) => {
                                                    if n == *cname {
                                                        let nc = chars_of(n.as_str());
                                                        let col = symbol_column(
                                                            lines[li].as_slice(),
                                                            nc.as_slice(),
                                                        );
                                                        symbols.push(
                                                            SymbolEntry {
                                                                path: String::from_str(path),
                                                                name: n,
                                                                kind: String::from_str("method"),
                                                                line: li + 1,
                                                                column: col,
                                                                container: Some(cname.clone()),
                                                                namespace: clone_opt(&namespace),
                                                            },
                                                        );
                                                    }
                                                },
                                                None => {
                                                    match capture_field(m, trimmed_str.as_str()) {
                                                        Some(n) => {
                                                            let nc = chars_of(n.as_str());
                                                            let col = symbol_column(
                                                                lines[li].as_slice(),
                                                                nc.as_slice(),
                                                            );
                                                            symbols.push(
                                                                SymbolEntry {
                                                                    path: String::from_str(path),
                                                                    name: n,
                                                                    kind: String::from_str(
                                                                        "field",
                                                                    ),
                                                                    line: li + 1,
                                                                    column: col,
                                                                    container: Some(cname.clone()),
                                                                    namespace: clone_opt(
                                                                        &namespace,
                                                                    ),
                                                                },
                                                            );
                                                        },
                                                        None => {},
                                                    }
                                                },
                                            }
                                        },
                                    }
                                },
                            }
                        }
                    },
                    None => {},
                }
            },
        }

        let d_plus = depth + open_c;
        depth = if d_plus >= close_c {
            d_plus - close_c
        } else {
            0
        };
        let opened = if depth < 1 {
            1
        } else {
            depth
        };
        match push_now {
            Some(nm) => {
                let ghost pre = stack_seq(stack@);
                stack.push(ScopedType { name: nm, depth: opened });
                proof {
                    assert(stack_seq(stack@) =~= pre.push((nm@, opened as int)));
                }
            },
            None => {
                if open_c > close_c {
                    match pending {
                        Some(pn) => {
                            let ghost pre = stack_seq(stack@);
                            let ghost pnv = pn@;
                            stack.push(ScopedType { name: pn, depth: opened });
                            pending = None;
                            proof {
                                assert(stack_seq(stack@) =~= pre.push((pnv, opened as int)));
                            }
                        },
                        None => {
                            pending = None;
                        },
                    }
                }
            },
        }
        pop_scopes(&mut stack, depth);

        proof {
            let st1 = st_of(namespace, stack@, pending, in_block, depth as int, symbols@);
            let step = ext_step(path@, li as int, raw_v, st0);
            assert(st1.namespace == step.namespace);
            assert(st1.in_block == step.in_block);
            assert(st1.depth == step.depth);
            assert(st1.pending == step.pending);
            assert(st1.stack =~~= step.stack);
            assert(st1.symbols =~~= step.symbols);
            assert(st1 =~~= step);
            assert(ext_scan(path@, lv, li as int, st0) == ext_scan(path@, lv, li as int + 1, step));
        }
        li = li + 1;
    }
    proof {
        assert(lv.take(lv.len() as int) =~= lv);
        assert(ext_scan(
            path@,
            lv,
            li as int,
            st_of(namespace, stack@, pending, in_block, depth as int, symbols@),
        ) == st_of(namespace, stack@, pending, in_block, depth as int, symbols@));
    }
    symbols
}

} // verus!

verus! {

proof fn lemma_split_count(s: Seq<char>, sep: char, cur: Seq<char>)
    ensures
        crate::text::split_rec(s, sep, cur).len() + sum_lens(crate::text::split_rec(s, sep, cur))
            <= cur.len() + s.len() + 1,
    decreases s.len(),
{
    let out = crate::text::split_rec(s, sep, cur);
    if s.len() == 0 {
        assert(seq![cur].drop_last() =~= Seq::<Seq<char>>::empty());
        assert(sum_lens(Seq::<Seq<char>>::empty()) == 0);
        assert(sum_lens(seq![cur]) == cur.len());
    } else if s[0] == sep {
        lemma_split_count(s.drop_first(), sep, Seq::empty());
        lemma_sum_cons(cur, crate::text::split_rec(s.drop_first(), sep, Seq::empty()));
    } else {
        lemma_split_count(s.drop_first(), sep, cur.push(s[0]));
    }
}

/// A text has no more lines than characters.
pub proof fn lemma_lines_count(text: Seq<char>)
    ensures
        lines_spec(text).len() <= text.len(),
{
    lemma_split_count(text, '\n', Seq::empty());
    lemma_split_len(text, '\n', Seq::empty());
    let parts = crate::text::split_char(text, '\n');
    lemma_sum_lens_nonneg(parts);
    lemma_sum_lens_nonneg(parts.drop_last());
    assert(sum_lens(parts) == sum_lens(parts.drop_last()) + parts.last().len());
}

} // verus!
