//! The language-server client's pure logic: header-delimited framing,
//! request-id correlation, the symbol-kind vocabulary, document-symbol
//! flattening, and the per-item rules of the symbol and reference handlers.
//! The child process, its streams and the background reader live at the
//! process edge.

use vstd::prelude::*;

use crate::text::{
    chars_eq, chars_of, dec_repr, dec_val, digits_of_int, find_first, first_occ, lower_seq,
    parse_u64_chars, parses_as_u64, push_all, slice_range, string_of, to_lower_vec, trim,
    trim_spec, u64_to_dec_chars,
};

verus! {

/// A header may grow to 16 KiB before the reader gives up.
pub const MAX_HEADER_BYTES: usize = 16384;

/// The wire header written before a payload of `n` bytes.
pub open spec fn lsp_header_spec(n: int) -> Seq<char> {
    "Content-Length: "@ + dec_repr(n as nat) + "\r\n\r\n"@
}

pub fn lsp_header_for(n: usize) -> (r: String)
    ensures
        r@ == lsp_header_spec(n as int),
{
    let mut out = chars_of("Content-Length: ");
    let digits = u64_to_dec_chars(n as u64);
    push_all(&mut out, digits.as_slice());
    let tail = chars_of("\r\n\r\n");
    push_all(&mut out, tail.as_slice());
    string_of(out.as_slice())
}

/// Splitting a header at `\r\n` boundaries.
pub open spec fn split_crlf(s: Seq<char>, cur: Seq<char>) -> Seq<Seq<char>>
    decreases s.len(),
{
    if s.len() == 0 {
        seq![cur]
    } else if s.len() >= 2 && s[0] == '\r' && s[1] == '\n' {
        seq![cur] + split_crlf(s.skip(2), Seq::empty())
    } else {
        split_crlf(s.drop_first(), cur.push(s[0]))
    }
}

fn split_crlf_exec(v: &[char]) -> (parts: Vec<Vec<char>>)
    ensures
        parts@.map_values(|p: Vec<char>| p@) == split_crlf(v@, Seq::empty()),
{
    let n = v.len();
    let mut parts: Vec<Vec<char>> = Vec::new();
    let mut cur: Vec<char> = Vec::new();
    let mut i: usize = 0;
    proof {
        assert(v@.skip(0) =~= v@);
        assert(parts@.map_values(|p: Vec<char>| p@) + split_crlf(v@, cur@) =~= split_crlf(
            v@,
            cur@,
        ));
    }
    while i < n
        invariant
            n == v@.len(),
            i <= n,
            split_crlf(v@, Seq::empty()) == parts@.map_values(|p: Vec<char>| p@) + split_crlf(
                v@.skip(i as int),
                cur@,
            ),
        decreases n - i,
    {
        let ghost rest = v@.skip(i as int);
        proof {
            assert(rest[0] == v@[i as int]);
            if i + 1 < n {
                assert(rest[1] == v@[i as int + 1]);
            }
            assert(rest.drop_first() =~= v@.skip(i as int + 1));
            if i + 2 <= n {
                assert(rest.skip(2) =~= v@.skip(i as int + 2));
            }
        }
        if i + 1 < n && v[i] == '\r' && v[i + 1] == '\n' {
            let done = cur;
            cur = Vec::new();
            parts.push(done);
            proof {
                assert(parts@.map_values(|p: Vec<char>| p@) =~= parts@.drop_last().map_values(
                    |p: Vec<char>| p@,
                ).push(parts@.last()@));
                assert(parts@.drop_last().map_values(|p: Vec<char>| p@).push(parts@.last()@)
                    + split_crlf(v@.skip(i as int + 2), cur@) =~= parts@.drop_last().map_values(
                    |p: Vec<char>| p@,
                ) + (seq![parts@.last()@] + split_crlf(v@.skip(i as int + 2), cur@)));
            }
            i = i + 2;
        } else {
            cur.push(v[i]);
            i = i + 1;
        }
    }
    proof {
        assert(v@.skip(n as int).len() == 0);
    }
    parts.push(cur);
    proof {
        assert(parts@.map_values(|p: Vec<char>| p@) =~= parts@.drop_last().map_values(
            |p: Vec<char>| p@,
        ) + seq![parts@.last()@]);
    }
    parts
}

/// The value of the first `Content-Length` header line: the first line
/// with a colon whose key, trimmed and without regard to ASCII case, is
/// `Content-Length` decides; its value must parse as a length.
pub open spec fn content_length_of(lines: Seq<Seq<char>>) -> Option<int>
    decreases lines.len(),
{
    if lines.len() == 0 {
        None
    } else {
        match first_occ(lines[0], seq![':']) {
            Some(i) => {
                let key = lines[0].subrange(0, i);
                let val = lines[0].skip(i + 1);
                if lower_seq(trim_spec(key)) == lower_seq("Content-Length"@) {
                    let t = trim_spec(val);
                    if parses_as_u64(t) && dec_val(digits_of_int(t)) <= usize::MAX {
                        Some(dec_val(digits_of_int(t)) as int)
                    } else {
                        None
                    }
                } else {
                    content_length_of(lines.drop_first())
                }
            },
            None => content_length_of(lines.drop_first()),
        }
    }
}

/// Read the payload length out of a received header.
#[verifier::loop_isolation(false)]
pub fn parse_content_length(header: &str) -> (r: Option<usize>)
    ensures
        match r {
            Some(n) => content_length_of(split_crlf(header@, Seq::empty())) == Some(n as int),
            None => content_length_of(split_crlf(header@, Seq::empty())) == None::<int>,
        },
{
    let hv = chars_of(header);
    let lines = split_crlf_exec(hv.as_slice());
    let ghost lv = lines@.map_values(|p: Vec<char>| p@);
    let ghost target = content_length_of(lv);
    let colon = chars_of(":");
    proof {
        reveal_strlit(":");
        assert(colon@ =~= seq![':']);
        assert(lv.skip(0) =~= lv);
    }
    let want = to_lower_vec(chars_of("Content-Length").as_slice());
    let mut k: usize = 0;
    let n = lines.len();
    while k < n
        invariant
            n == lines@.len(),
            k <= n,
            content_length_of(lv.skip(k as int)) == target,
        decreases n - k,
    {
        proof {
            assert(lv.skip(k as int)[0] == lv[k as int]);
            assert(lv[k as int] == lines@[k as int]@);
            assert(lv.skip(k as int).drop_first() =~= lv.skip(k as int + 1));
        }
        let line = &lines[k];
        match find_first(line.as_slice(), colon.as_slice()) {
            Some(i) => {
                let llen = line.len();
                proof {
                    crate::text::lemma_first_occ(line@, seq![':']);
                    assert(i + 1 <= llen);
                }
                let key = slice_range(line.as_slice(), 0, i);
                let val = slice_range(line.as_slice(), i + 1, llen);
                proof {
                    assert(val@ =~= lv[k as int].skip(i + 1));
                }
                let tkey = to_lower_vec(trim(key.as_slice()).as_slice());
                if chars_eq(tkey.as_slice(), want.as_slice()) {
                    let tval = trim(val.as_slice());
                    return match parse_u64_chars(tval.as_slice()) {
                        Some(nval) => if nval <= usize::MAX as u64 {
                            Some(nval as usize)
                        } else {
                            None
                        },
                        None => None,
                    };
                }
            },
            None => {},
        }
        k = k + 1;
    }
    proof {
        assert(lv.skip(n as int).len() == 0);
    }
    None
}

/// The symbol-kind word for the protocol's numeric kind.
pub open spec fn kind_from_lsp_spec(kind: int) -> Seq<char> {
    if kind == 3 {
        "namespace"@
    } else if kind == 5 {
        "class"@
    } else if kind == 6 {
        "method"@
    } else if kind == 7 {
        "property"@
    } else if kind == 8 {
        "field"@
    } else if kind == 10 {
        "enum"@
    } else if kind == 11 {
        "interface"@
    } else if kind == 23 {
        "struct"@
    } else {
        "unknown"@
    }
}

pub fn kind_from_lsp(kind: i64) -> (r: String)
    ensures
        r@ == kind_from_lsp_spec(kind as int),
{
    if kind == 3 {
        string_of(chars_of("namespace").as_slice())
    } else if kind == 5 {
        string_of(chars_of("class").as_slice())
    } else if kind == 6 {
        string_of(chars_of("method").as_slice())
    } else if kind == 7 {
        string_of(chars_of("property").as_slice())
    } else if kind == 8 {
        string_of(chars_of("field").as_slice())
    } else if kind == 10 {
        string_of(chars_of("enum").as_slice())
    } else if kind == 11 {
        string_of(chars_of("interface").as_slice())
    } else if kind == 23 {
        string_of(chars_of("struct").as_slice())
    } else {
        string_of(chars_of("unknown").as_slice())
    }
}

/// A response's `id` field, reduced to what correlation reads: an
/// unsigned number, a signed number, a numeric string, or anything else.
pub enum JsonId {
    UInt(u64),
    Int(i64),
    Text(String),
    Absent,
}

#[verifier::ext_equal]
pub enum JsonIdV {
    UInt(u64),
    Int(i64),
    Text(Seq<char>),
    Absent,
}

impl View for JsonId {
    type V = JsonIdV;

    open spec fn view(&self) -> JsonIdV {
        match self {
            JsonId::UInt(u) => JsonIdV::UInt(*u),
            JsonId::Int(i) => JsonIdV::Int(*i),
            JsonId::Text(s) => JsonIdV::Text(s@),
            JsonId::Absent => JsonIdV::Absent,
        }
    }
}

/// Whether a message's id matches the awaited request id: equal as an
/// unsigned number, a non-negative signed number of the same value, or a
/// numeric string of the same value.
pub open spec fn id_matches_spec(id: JsonIdV, want: u64) -> bool {
    match id {
        JsonIdV::UInt(u) => u == want,
        JsonIdV::Int(i) => i >= 0 && i == want as int,
        JsonIdV::Text(s) => parses_as_u64(s) && dec_val(digits_of_int(s)) == want,
        JsonIdV::Absent => false,
    }
}

pub fn id_matches(id: &JsonId, want: u64) -> (r: bool)
    ensures
        r == id_matches_spec(id@, want),
{
    match id {
        JsonId::UInt(u) => *u == want,
        JsonId::Int(i) => *i >= 0 && (*i as u64) == want,
        JsonId::Text(s) => {
            match parse_u64_chars(chars_of(s.as_str()).as_slice()) {
                Some(v) => v == want,
                None => false,
            }
        },
        JsonId::Absent => false,
    }
}

/// The decimal text of a signed number.
pub open spec fn i64_dec_repr(n: int) -> Seq<char> {
    if n >= 0 {
        dec_repr(n as nat)
    } else {
        seq!['-'] + dec_repr((-n) as nat)
    }
}

/// The message built for a response that carries a protocol error object.
pub open spec fn lsp_error_text(code: int, text: Seq<char>) -> Seq<char> {
    "LSP error ("@ + i64_dec_repr(code) + "): "@ + text
}

pub fn lsp_error_message(code: i64, text: &str) -> (r: String)
    ensures
        r@ == lsp_error_text(code as int, text@),
{
    let mut out = chars_of("LSP error (");
    if code >= 0 {
        let digits = u64_to_dec_chars(code as u64);
        push_all(&mut out, digits.as_slice());
    } else {
        out.push('-');
        let mag: u64 = ((-(code + 1)) as u64) + 1;
        proof {
            assert(mag as int == -(code as int));
        }
        let digits = u64_to_dec_chars(mag);
        push_all(&mut out, digits.as_slice());
        proof {
            assert(out@ =~= "LSP error ("@ + (seq!['-'] + dec_repr((-(code as int)) as nat)));
        }
    }
    let mid = chars_of("): ");
    push_all(&mut out, mid.as_slice());
    let tv = chars_of(text);
    push_all(&mut out, tv.as_slice());
    proof {
        assert(out@ =~= lsp_error_text(code as int, text@));
    }
    string_of(out.as_slice())
}

/// One node of a document-symbol response.
pub struct DocNode {
    pub name: String,
    pub kind: i64,
    pub line: u64,
    pub column: u64,
    pub children: Vec<DocNode>,
}

/// One flattened symbol row.
pub struct FlatSymbol {
    pub name: String,
    pub kind: String,
    pub line: u64,
    pub column: u64,
    pub container: Option<String>,
}

#[verifier::ext_equal]
pub struct FlatRowV {
    pub name: Seq<char>,
    pub kind: Seq<char>,
    pub line: u64,
    pub column: u64,
    pub container: Option<Seq<char>>,
}

impl View for FlatSymbol {
    type V = FlatRowV;

    open spec fn view(&self) -> FlatRowV {
        FlatRowV {
            name: self.name@,
            kind: self.kind@,
            line: self.line,
            column: self.column,
            container: crate::extract::opt_view(self.container),
        }
    }
}

/// The row one named document symbol yields: kind translated, line and
/// column made 1-based (saturating), the enclosing symbol as container.
pub open spec fn doc_row(n: DocNode, container: Option<Seq<char>>) -> FlatRowV {
    FlatRowV {
        name: n.name@,
        kind: kind_from_lsp_spec(n.kind as int),
        line: if n.line < u64::MAX {
            ((n.line + 1) as u64)
        } else {
            u64::MAX
        },
        column: if n.column < u64::MAX {
            ((n.column + 1) as u64)
        } else {
            u64::MAX
        },
        container: container,
    }
}

/// The rows of the nodes from index `i` on, in preorder.
pub open spec fn doc_rows(nodes: Seq<DocNode>, i: int, container: Option<Seq<char>>) -> Seq<
    FlatRowV,
>
    decreases nodes, nodes.len() - i, 0int,
{
    if i < 0 || i >= nodes.len() {
        Seq::empty()
    } else {
        node_rows(nodes[i], container) + doc_rows(nodes, i + 1, container)
    }
}

/// A document symbol with an empty name is dropped together with its
/// children; any other yields its row, then its children's rows with it as
/// the container.
pub open spec fn node_rows(n: DocNode, container: Option<Seq<char>>) -> Seq<FlatRowV>
    decreases n, 0int, 1int,
{
    if n.name@.len() == 0 {
        Seq::empty()
    } else {
        seq![doc_row(n, container)] + doc_rows(n.children@, 0, Some(n.name@))
    }
}

/// Flatten a document-symbol tree in preorder, tracking the enclosing
/// symbol as container.
pub fn flatten_doc_symbols(
    nodes: &Vec<DocNode>,
    container: &Option<String>,
    out: &mut Vec<FlatSymbol>,
)
    ensures
        final(out)@.map_values(|s: FlatSymbol| s@) == old(out)@.map_values(|s: FlatSymbol| s@)
            + doc_rows(nodes@, 0, crate::extract::opt_view(*container)),
    decreases nodes,
{
    let ghost cv = crate::extract::opt_view(*container);
    let mut i: usize = 0;
    proof {
        assert(out@.map_values(|s: FlatSymbol| s@) + doc_rows(nodes@, 0, cv) =~= old(out)@
            .map_values(|s: FlatSymbol| s@) + doc_rows(nodes@, 0, cv));
    }
    while i < nodes.len()
        invariant
            i <= nodes@.len(),
            cv == crate::extract::opt_view(*container),
            out@.map_values(|s: FlatSymbol| s@) + doc_rows(nodes@, i as int, cv) == old(out)@
                .map_values(|s: FlatSymbol| s@) + doc_rows(nodes@, 0, cv),
        decreases nodes@.len() - i,
    {
        let ghost pre = out@.map_values(|s: FlatSymbol| s@);
        let n = &nodes[i];
        if !n.name.as_str().is_empty() {
            let line = if n.line < u64::MAX {
                n.line + 1
            } else {
                u64::MAX
            };
            let column = if n.column < u64::MAX {
                n.column + 1
            } else {
                u64::MAX
            };
            let row = FlatSymbol {
                name: n.name.clone(),
                kind: kind_from_lsp(n.kind),
                line,
                column,
                container: crate::extract::clone_opt(container),
            };
            proof {
                assert(row@ =~= doc_row(nodes@[i as int], cv));
            }
            out.push(row);
            proof {
                assert(out@.map_values(|s: FlatSymbol| s@) =~= pre.push(
                    doc_row(nodes@[i as int], cv),
                ));
            }
            let next_container = Some(n.name.clone());
            flatten_doc_symbols(&n.children, &next_container, out);
            proof {
                assert(out@.map_values(|s: FlatSymbol| s@) =~= pre + node_rows(
                    nodes@[i as int],
                    cv,
                )) by {
                    assert(node_rows(nodes@[i as int], cv) =~= seq![
                        doc_row(nodes@[i as int], cv),
                    ] + doc_rows(nodes@[i as int].children@, 0, Some(nodes@[i as int].name@)));
                }
                assert(out@.map_values(|s: FlatSymbol| s@) + doc_rows(nodes@, i as int + 1, cv)
                    =~= pre + (node_rows(nodes@[i as int], cv) + doc_rows(
                    nodes@,
                    i as int + 1,
                    cv,
                )));
            }
        } else {
            proof {
                assert(node_rows(nodes@[i as int], cv) =~= Seq::<FlatRowV>::empty());
                assert(node_rows(nodes@[i as int], cv) + doc_rows(nodes@, i as int + 1, cv)
                    =~= doc_rows(nodes@, i as int + 1, cv));
            }
        }
        i = i + 1;
    }
}

} // verus!

verus! {

/// One reference row reported by the language server, already reduced to
/// its project-relative path.
pub struct LspRef {
    pub path: String,
    pub line: u64,
    pub column: u64,
    pub snippet: String,
}

#[verifier::ext_equal]
pub struct LspRefV {
    pub path: Seq<char>,
    pub line: u64,
    pub column: u64,
    pub snippet: Seq<char>,
}

impl View for LspRef {
    type V = LspRefV;

    open spec fn view(&self) -> LspRefV {
        LspRefV {
            path: self.path@,
            line: self.line,
            column: self.column,
            snippet: self.snippet@,
        }
    }
}

/// The paging order: by path, then line, then column.
pub open spec fn ref_le(a: LspRefV, b: LspRefV) -> bool {
    crate::text::lex_lt(a.path, b.path) || (a.path == b.path && (a.line < b.line || (a.line
        == b.line && a.column <= b.column)))
}

/// Insert one row after every row at or below it in the paging order, as a
/// stable sort leaves equals.
pub open spec fn insert_ref(rows: Seq<LspRefV>, e: LspRefV) -> Seq<LspRefV>
    decreases rows.len(),
{
    if rows.len() == 0 {
        seq![e]
    } else if ref_le(rows[0], e) {
        seq![rows[0]] + insert_ref(rows.drop_first(), e)
    } else {
        seq![e] + rows
    }
}

pub open spec fn sorted_refs(rows: Seq<LspRefV>) -> Seq<LspRefV>
    decreases rows.len(),
{
    if rows.len() == 0 {
        Seq::empty()
    } else {
        insert_ref(sorted_refs(rows.drop_last()), rows.last())
    }
}

proof fn lemma_insert_ref_split(rows: Seq<LspRefV>, e: LspRefV, i: int)
    requires
        0 <= i <= rows.len(),
        forall|k: int| 0 <= k < i ==> ref_le(#[trigger] rows[k], e),
    ensures
        insert_ref(rows, e) == rows.subrange(0, i) + insert_ref(rows.skip(i), e),
    decreases i,
{
    if i == 0 {
        assert(rows.skip(0) =~= rows);
        assert(rows.subrange(0, 0) + insert_ref(rows, e) =~= insert_ref(rows, e));
    } else {
        assert(ref_le(rows[0], e));
        lemma_insert_ref_split(rows.drop_first(), e, i - 1);
        assert(rows.drop_first().subrange(0, i - 1) =~= rows.subrange(1, i));
        assert(rows.drop_first().skip(i - 1) =~= rows.skip(i));
        assert(seq![rows[0]] + (rows.subrange(1, i) + insert_ref(rows.skip(i), e))
            =~= rows.subrange(0, i) + insert_ref(rows.skip(i), e));
    }
}

fn ref_le_exec(a: &LspRef, b: &LspRef) -> (r: bool)
    ensures
        r == ref_le(a@, b@),
{
    let av = chars_of(a.path.as_str());
    let bv = chars_of(b.path.as_str());
    if crate::text::chars_lt(av.as_slice(), bv.as_slice()) {
        true
    } else if chars_eq(av.as_slice(), bv.as_slice()) {
        a.line < b.line || (a.line == b.line && a.column <= b.column)
    } else {
        false
    }
}

fn clone_ref(r: &LspRef) -> (out: LspRef)
    ensures
        out@ == r@,
{
    LspRef {
        path: r.path.clone(),
        line: r.line,
        column: r.column,
        snippet: r.snippet.clone(),
    }
}

/// The insertion point in the paging order: past every row at or below
/// the new one.
fn ref_insert_pos(out: &Vec<LspRef>, e: &LspRef) -> (j: usize)
    ensures
        j <= out@.len(),
        forall|k: int| 0 <= k < j ==> ref_le((#[trigger] out@[k])@, e@),
        j < out@.len() ==> !ref_le(out@[j as int]@, e@),
{
    let m = out.len();
    let mut j: usize = 0;
    while j < m
        invariant
            m == out@.len(),
            j <= m,
            forall|k: int| 0 <= k < j ==> ref_le((#[trigger] out@[k])@, e@),
        decreases m - j,
    {
        if !ref_le_exec(&out[j], e) {
            return j;
        }
        j = j + 1;
    }
    j
}

/// Sort the reported rows by path, line and column, keeping the order of
/// equal rows.
#[verifier::loop_isolation(false)]
pub fn sort_lsp_refs(rows: Vec<LspRef>) -> (out: Vec<LspRef>)
    ensures
        out@.map_values(|r: LspRef| r@) == sorted_refs(rows@.map_values(|r: LspRef| r@)),
{
    let ghost rv = rows@.map_values(|r: LspRef| r@);
    let src = rows;
    let mut out: Vec<LspRef> = Vec::new();
    let mut i: usize = 0;
    let n = src.len();
    proof {
        assert(out@.map_values(|r: LspRef| r@) =~= sorted_refs(rv.subrange(0, 0)));
    }
    while i < n
        invariant
            n == src@.len(),
            rv == src@.map_values(|r: LspRef| r@),
            i <= n,
            out@.map_values(|r: LspRef| r@) == sorted_refs(rv.subrange(0, i as int)),
        decreases n - i,
    {
        let ghost pre = rv.subrange(0, i as int);
        let ghost post = rv.subrange(0, i as int + 1);
        proof {
            assert(post.drop_last() =~= pre);
            assert(post.last() == rv[i as int]);
            assert(rv[i as int] == src@[i as int]@);
        }
        let e = clone_ref(&src[i]);
        let ghost ev = rv[i as int];
        let ghost cur = out@.map_values(|r: LspRef| r@);
        let m = out.len();
        let j = ref_insert_pos(&out, &e);
        proof {
            assert(forall|k: int| 0 <= k < cur.len() ==> #[trigger] cur[k] == out@[k]@);
            lemma_insert_ref_split(cur, ev, j as int);
        }
        out.insert(j, e);
        proof {
            assert(out@.map_values(|r: LspRef| r@) =~= cur.subrange(0, j as int) + (seq![ev]
                + cur.skip(j as int)));
            if j < m {
                assert(insert_ref(cur.skip(j as int), ev) =~= seq![ev] + cur.skip(j as int)) by {
                    assert(cur.skip(j as int)[0] == cur[j as int]);
                }
            } else {
                assert(cur.skip(j as int).len() == 0);
                assert(insert_ref(cur.skip(j as int), ev) =~= seq![ev]);
            }
            assert(out@.map_values(|r: LspRef| r@) =~= insert_ref(cur, ev));
        }
        i = i + 1;
    }
    proof {
        assert(rv.subrange(0, n as int) =~= rv);
    }
    out
}

/// One page entry: line, column and the server-provided snippet.
#[verifier::ext_equal]
pub struct LspEntryV {
    pub line: u64,
    pub column: u64,
    pub snippet: Seq<char>,
}

/// Insert a row's entry into the per-path groups, which stay sorted by
/// path.
pub open spec fn add_to_group(
    results: Seq<(Seq<char>, Seq<LspEntryV>)>,
    path: Seq<char>,
    e: LspEntryV,
) -> Seq<(Seq<char>, Seq<LspEntryV>)>
    decreases results.len(),
{
    if results.len() == 0 {
        seq![(path, seq![e])]
    } else if crate::text::lex_lt(results[0].0, path) {
        seq![results[0]] + add_to_group(results.drop_first(), path, e)
    } else if results[0].0 == path {
        seq![(path, results[0].1.push(e))] + results.drop_first()
    } else {
        seq![(path, seq![e])] + results
    }
}

/// How many entries the group of `path` already holds.
pub open spec fn group_len(results: Seq<(Seq<char>, Seq<LspEntryV>)>, path: Seq<char>) -> int
    decreases results.len(),
{
    if results.len() == 0 {
        0
    } else if results[0].0 == path {
        results[0].1.len() as int
    } else {
        group_len(results.drop_first(), path)
    }
}

/// The language-server reference page, folded over the sorted rows: the
/// cursor, scope and path-fragment rules skip rows; a full page or an
/// exhausted byte budget stops the walk; a full per-file group drops the
/// row but walks on.
pub open spec fn lsp_page_rec(
    rows: Seq<LspRefV>,
    i: int,
    scope: Seq<char>,
    start_after: Option<Seq<char>>,
    pfilter: Option<Seq<char>>,
    results: Seq<(Seq<char>, Seq<LspEntryV>)>,
    total: int,
    bytes: int,
    last: Option<Seq<char>>,
    page: int,
    maxb: int,
    mpf: int,
) -> (Seq<(Seq<char>, Seq<LspEntryV>)>, int, bool, Option<Seq<char>>)
    decreases rows.len() - i,
{
    if i < 0 || i >= rows.len() {
        (results, total, false, last)
    } else {
        let r = rows[i];
        let skipped = (match start_after {
            Some(c) => crate::text::lex_le(r.path, c),
            None => false,
        }) || !crate::paths::path_matches_scope_spec(r.path, scope) || (match pfilter {
            Some(f) => !crate::text::contains_seq(r.path, f),
            None => false,
        });
        if skipped {
            lsp_page_rec(
                rows,
                i + 1,
                scope,
                start_after,
                pfilter,
                results,
                total,
                bytes,
                last,
                page,
                maxb,
                mpf,
            )
        } else if total >= page {
            (results, total, true, last)
        } else if group_len(results, r.path) >= mpf {
            lsp_page_rec(
                rows,
                i + 1,
                scope,
                start_after,
                pfilter,
                results,
                total,
                bytes,
                last,
                page,
                maxb,
                mpf,
            )
        } else {
            let e = LspEntryV { line: r.line, column: r.column, snippet: r.snippet };
            let ib = crate::engine::ref_entry_encoded_len(
                r.line as int,
                r.column as int,
                r.snippet,
                false,
            );
            if bytes + ib > maxb {
                (results, total, true, last)
            } else {
                lsp_page_rec(
                    rows,
                    i + 1,
                    scope,
                    start_after,
                    pfilter,
                    add_to_group(results, r.path, e),
                    total + 1,
                    bytes + ib,
                    Some(r.path),
                    page,
                    maxb,
                    mpf,
                )
            }
        }
    }
}

} // verus!

verus! {

/// One grouped page entry.
pub struct LspEntry {
    pub line: u64,
    pub column: u64,
    pub snippet: String,
}

impl View for LspEntry {
    type V = LspEntryV;

    open spec fn view(&self) -> LspEntryV {
        LspEntryV { line: self.line, column: self.column, snippet: self.snippet@ }
    }
}

/// One page of language-server references.
pub struct LspRefsPage {
    pub results: Vec<(String, Vec<LspEntry>)>,
    pub total: usize,
    pub truncated: bool,
    pub cursor: Option<String>,
}

pub open spec fn groups_view(results: Seq<(String, Vec<LspEntry>)>) -> Seq<
    (Seq<char>, Seq<LspEntryV>),
> {
    results.map_values(
        |g: (String, Vec<LspEntry>)| (g.0@, g.1@.map_values(|e: LspEntry| e@)),
    )
}

proof fn lemma_add_group_split(
    results: Seq<(Seq<char>, Seq<LspEntryV>)>,
    path: Seq<char>,
    e: LspEntryV,
    i: int,
)
    requires
        0 <= i <= results.len(),
        forall|k: int| 0 <= k < i ==> crate::text::lex_lt((#[trigger] results[k]).0, path),
    ensures
        add_to_group(results, path, e) == results.subrange(0, i) + add_to_group(
            results.skip(i),
            path,
            e,
        ),
        group_len(results, path) == group_len(results.skip(i), path),
    decreases i,
{
    if i == 0 {
        assert(results.skip(0) =~= results);
        assert(results.subrange(0, 0) + add_to_group(results, path, e) =~= add_to_group(
            results,
            path,
            e,
        ));
    } else {
        assert(crate::text::lex_lt(results[0].0, path));
        crate::text::lemma_lex_lt_irrefl(path);
        assert(results[0].0 != path);
        lemma_add_group_split(results.drop_first(), path, e, i - 1);
        assert(results.drop_first().subrange(0, i - 1) =~= results.subrange(1, i));
        assert(results.drop_first().skip(i - 1) =~= results.skip(i));
        assert(seq![results[0]] + (results.subrange(1, i) + add_to_group(
            results.skip(i),
            path,
            e,
        )) =~= results.subrange(0, i) + add_to_group(results.skip(i), path, e));
    }
}

fn group_insert_pos(results: &Vec<(String, Vec<LspEntry>)>, path: &[char]) -> (j: usize)
    ensures
        j <= results@.len(),
        forall|k: int|
            0 <= k < j ==> crate::text::lex_lt((#[trigger] results@[k]).0@, path@),
        j < results@.len() ==> !crate::text::lex_lt(results@[j as int].0@, path@),
{
    let m = results.len();
    let mut j: usize = 0;
    while j < m
        invariant
            m == results@.len(),
            j <= m,
            forall|k: int|
                0 <= k < j ==> crate::text::lex_lt((#[trigger] results@[k]).0@, path@),
        decreases m - j,
    {
        let kv = chars_of(results[j].0.as_str());
        if !crate::text::chars_lt(kv.as_slice(), path) {
            return j;
        }
        j = j + 1;
    }
    j
}

fn group_len_exec(results: &Vec<(String, Vec<LspEntry>)>, path: &[char]) -> (n: usize)
    ensures
        n as int == group_len(groups_view(results@), path@),
{
    let ghost gv = groups_view(results@);
    let mut k: usize = 0;
    let m = results.len();
    proof {
        assert(gv.skip(0) =~= gv);
    }
    while k < m
        invariant
            m == results@.len(),
            gv == groups_view(results@),
            k <= m,
            group_len(gv, path@) == group_len(gv.skip(k as int), path@),
        decreases m - k,
    {
        proof {
            assert(gv.skip(k as int)[0] == gv[k as int]);
            assert(gv[k as int].0 == results@[k as int].0@);
            assert(gv.skip(k as int).drop_first() =~= gv.skip(k as int + 1));
        }
        if chars_eq(chars_of(results[k].0.as_str()).as_slice(), path) {
            let n = results[k].1.len();
            proof {
                assert(gv[k as int].1 == results@[k as int].1@.map_values(|e: LspEntry| e@));
            }
            return n;
        }
        k = k + 1;
    }
    proof {
        assert(gv.skip(m as int).len() == 0);
    }
    0
}

/// Page the sorted reference rows: honor the cursor, scope and path
/// fragment, the page size, the byte budget and the per-file cap, and
/// report the cursor when the page was cut short.
#[verifier::loop_isolation(false)]
#[verifier::rlimit(60)]
pub fn lsp_page_refs(
    rows: &Vec<LspRef>,
    scope: &str,
    start_after: Option<&str>,
    pfilter: Option<&str>,
    page_opt: Option<u64>,
    maxb_opt: Option<u64>,
    mpf_opt: Option<u64>,
) -> (out: LspRefsPage)
    ensures
        ({
            let spec = lsp_page_rec(
                rows@.map_values(|r: LspRef| r@),
                0,
                scope@,
                match start_after {
                    Some(c) => Some(c@),
                    None => None,
                },
                match pfilter {
                    Some(f) => Some(f@),
                    None => None,
                },
                Seq::empty(),
                0,
                0,
                None,
                crate::engine::clamp_spec(
                    match page_opt {
                        Some(v) => v as int,
                        None => 50int,
                    },
                    1,
                    1000,
                ),
                crate::engine::clamp_spec(
                    match maxb_opt {
                        Some(v) => v as int,
                        None => 65536int,
                    },
                    128,
                    1048576,
                ),
                crate::engine::clamp_spec(
                    match mpf_opt {
                        Some(v) => v as int,
                        None => 5int,
                    },
                    1,
                    100,
                ),
            );
            groups_view(out.results@) == spec.0 && out.total as int == spec.1 && out.truncated
                == spec.2 && (match out.cursor {
                Some(ref c) => spec.2 && spec.3 == Some(c@),
                None => !spec.2 || spec.3 is None,
            })
        }),
{
    let ghost rv = rows@.map_values(|r: LspRef| r@);
    let ghost sav = match start_after {
        Some(c) => Some(c@),
        None => None::<Seq<char>>,
    };
    let ghost pfv = match pfilter {
        Some(f) => Some(f@),
        None => None::<Seq<char>>,
    };
    let page = crate::engine::clamp_u64(
        match page_opt {
            Some(v) => v,
            None => 50,
        },
        1,
        1000,
    ) as usize;
    let maxb = crate::engine::clamp_u64(
        match maxb_opt {
            Some(v) => v,
            None => 65536,
        },
        128,
        1048576,
    ) as usize;
    let mpf = crate::engine::clamp_u64(
        match mpf_opt {
            Some(v) => v,
            None => 5,
        },
        1,
        100,
    ) as usize;
    let ghost target = lsp_page_rec(
        rv,
        0,
        scope@,
        sav,
        pfv,
        Seq::empty(),
        0,
        0,
        None,
        page as int,
        maxb as int,
        mpf as int,
    );
    let mut results: Vec<(String, Vec<LspEntry>)> = Vec::new();
    let mut total: usize = 0;
    let mut bytes: usize = 0;
    let mut last: Option<String> = None;
    let mut i: usize = 0;
    let n = rows.len();
    proof {
        assert(groups_view(results@) =~= Seq::<(Seq<char>, Seq<LspEntryV>)>::empty());
    }
    while i < n
        invariant
            n == rows@.len(),
            i <= n,
            total <= page,
            bytes <= maxb,
            lsp_page_rec(
                rv,
                i as int,
                scope@,
                sav,
                pfv,
                groups_view(results@),
                total as int,
                bytes as int,
                match last {
                    Some(ref p) => Some(p@),
                    None => None,
                },
                page as int,
                maxb as int,
                mpf as int,
            ) == target,
        decreases n - i,
    {
        proof {
            assert(rv[i as int] == rows@[i as int]@);
        }
        let r = &rows[i];
        let pv = chars_of(r.path.as_str());
        let skipped = (match start_after {
            Some(c) => crate::text::chars_le(pv.as_slice(), chars_of(c).as_slice()),
            None => false,
        }) || !crate::paths::path_matches_scope(r.path.as_str(), scope) || (match pfilter {
            Some(f) => !crate::text::contains_sub(pv.as_slice(), chars_of(f).as_slice()),
            None => false,
        });
        if skipped {
            i = i + 1;
            continue ;
        }
        if total >= page {
            let cursor = match &last {
                Some(p) => Some(p.clone()),
                None => None,
            };
            return LspRefsPage { results, total, truncated: true, cursor };
        }
        let ghost cur = groups_view(results@);
        let pos = group_insert_pos(&results, pv.as_slice());
        proof {
            assert(forall|k: int| 0 <= k < cur.len() ==> (#[trigger] cur[k]).0 == results@[k].0@);
            lemma_add_group_split(cur, rv[i as int].path, LspEntryV {
                line: rv[i as int].line,
                column: rv[i as int].column,
                snippet: rv[i as int].snippet,
            }, pos as int);
        }
        let at_path = pos < results.len() && chars_eq(
            chars_of(results[pos].0.as_str()).as_slice(),
            pv.as_slice(),
        );
        let existing = group_len_exec(&results, pv.as_slice());
        proof {
            if pos < results@.len() {
                assert(cur.skip(pos as int)[0] == cur[pos as int]);
            }
        }
        if existing >= mpf {
            i = i + 1;
            continue ;
        }
        let ib = crate::engine::ref_item_encoded_len(r.line, r.column, r.snippet.as_str(), false);
        if ib > maxb - bytes {
            let cursor = match &last {
                Some(p) => Some(p.clone()),
                None => None,
            };
            return LspRefsPage { results, total, truncated: true, cursor };
        }
        let entry = LspEntry { line: r.line, column: r.column, snippet: r.snippet.clone() };
        let ghost ev = entry@;
        if at_path {
            let mut group = results.remove(pos);
            group.1.push(entry);
            results.insert(pos, group);
            proof {
                assert(groups_view(results@) =~~= cur.subrange(0, pos as int) + (seq![
                    (rv[i as int].path, cur[pos as int].1.push(ev)),
                ] + cur.skip(pos as int).drop_first()));
                assert(add_to_group(cur.skip(pos as int), rv[i as int].path, ev) =~~= seq![
                    (rv[i as int].path, cur[pos as int].1.push(ev)),
                ] + cur.skip(pos as int).drop_first()) by {
                    crate::text::lemma_lex_lt_irrefl(rv[i as int].path);
                }
                assert(groups_view(results@) =~~= add_to_group(cur, rv[i as int].path, ev));
            }
        } else {
            let path_copy = string_of(pv.as_slice());
            let mut fresh: Vec<LspEntry> = Vec::new();
            fresh.push(entry);
            results.insert(pos, (path_copy, fresh));
            proof {
                assert(groups_view(results@) =~~= cur.subrange(0, pos as int) + (seq![
                    (rv[i as int].path, seq![ev]),
                ] + cur.skip(pos as int)));
                if pos < cur.len() {
                    assert(add_to_group(cur.skip(pos as int), rv[i as int].path, ev) =~~= seq![
                        (rv[i as int].path, seq![ev]),
                    ] + cur.skip(pos as int));
                } else {
                    assert(cur.skip(pos as int).len() == 0);
                    assert(add_to_group(cur.skip(pos as int), rv[i as int].path, ev) =~~= seq![
                        (rv[i as int].path, seq![ev]),
                    ]);
                }
                assert(groups_view(results@) =~~= add_to_group(cur, rv[i as int].path, ev));
            }
        }
        bytes = bytes + ib;
        total = total + 1;
        last = Some(string_of(pv.as_slice()));
        i = i + 1;
    }
    let cursor: Option<String> = None;
    LspRefsPage { results, total, truncated: false, cursor }
}

} // verus!

verus! {

/// One row of a workspace-symbol response, reduced to plain values; the
/// path is already project-relative, or absent when the reported location
/// could not be mapped.
pub struct WsRow {
    pub name: String,
    pub kind_num: i64,
    pub rel_path: Option<String>,
    pub line: u64,
    pub column: u64,
}

#[verifier::ext_equal]
pub struct WsRowV {
    pub name: Seq<char>,
    pub kind_num: i64,
    pub rel_path: Option<Seq<char>>,
    pub line: u64,
    pub column: u64,
}

impl View for WsRow {
    type V = WsRowV;

    open spec fn view(&self) -> WsRowV {
        WsRowV {
            name: self.name@,
            kind_num: self.kind_num,
            rel_path: match self.rel_path {
                Some(ref p) => Some(p@),
                None => None,
            },
            line: self.line,
            column: self.column,
        }
    }
}

/// Whether one reported row passes the symbol search's filters: a
/// non-empty name that matches exactly or by substring, the kind word
/// equal to the lowered kind filter, and a mapped path within scope.
pub open spec fn ws_row_accepted(
    r: WsRowV,
    name: Seq<char>,
    exact: bool,
    kind: Option<Seq<char>>,
    scope: Seq<char>,
) -> bool {
    r.name.len() > 0 && crate::index::symbol_name_matches_spec(r.name, name, exact) && (match kind {
        Some(k) => kind_from_lsp_spec(r.kind_num as int) == lower_seq(k),
        None => true,
    }) && (match r.rel_path {
        Some(p) => crate::paths::path_matches_scope_spec(p, scope),
        None => false,
    })
}

/// The row an accepted report yields: kind translated, positions made
/// 1-based (saturating), no container.
pub open spec fn ws_row_flat(r: WsRowV) -> FlatRowV {
    FlatRowV {
        name: r.name,
        kind: kind_from_lsp_spec(r.kind_num as int),
        line: if r.line < u64::MAX {
            ((r.line + 1) as u64)
        } else {
            u64::MAX
        },
        column: if r.column < u64::MAX {
            ((r.column + 1) as u64)
        } else {
            u64::MAX
        },
        container: None,
    }
}

/// Insert a row under its path; the groups stay sorted by path, rows in
/// arrival order within a group.
pub open spec fn ws_add(
    results: Seq<(Seq<char>, Seq<FlatRowV>)>,
    path: Seq<char>,
    row: FlatRowV,
) -> Seq<(Seq<char>, Seq<FlatRowV>)>
    decreases results.len(),
{
    if results.len() == 0 {
        seq![(path, seq![row])]
    } else if crate::text::lex_lt(results[0].0, path) {
        seq![results[0]] + ws_add(results.drop_first(), path, row)
    } else if results[0].0 == path {
        seq![(path, results[0].1.push(row))] + results.drop_first()
    } else {
        seq![(path, seq![row])] + results
    }
}

/// The filtered, grouped symbol search over the reported rows.
pub open spec fn ws_filter_rec(
    rows: Seq<WsRowV>,
    i: int,
    name: Seq<char>,
    exact: bool,
    kind: Option<Seq<char>>,
    scope: Seq<char>,
    results: Seq<(Seq<char>, Seq<FlatRowV>)>,
    total: int,
) -> (Seq<(Seq<char>, Seq<FlatRowV>)>, int)
    decreases rows.len() - i,
{
    if i < 0 || i >= rows.len() {
        (results, total)
    } else {
        let r = rows[i];
        if ws_row_accepted(r, name, exact, kind, scope) {
            ws_filter_rec(
                rows,
                i + 1,
                name,
                exact,
                kind,
                scope,
                ws_add(results, r.rel_path->Some_0, ws_row_flat(r)),
                total + 1,
            )
        } else {
            ws_filter_rec(rows, i + 1, name, exact, kind, scope, results, total)
        }
    }
}

/// One page of grouped workspace-symbol results.
pub struct LspSymbolsPage {
    pub results: Vec<(String, Vec<FlatSymbol>)>,
    pub total: usize,
}

pub open spec fn ws_groups_view(results: Seq<(String, Vec<FlatSymbol>)>) -> Seq<
    (Seq<char>, Seq<FlatRowV>),
> {
    results.map_values(
        |g: (String, Vec<FlatSymbol>)| (g.0@, g.1@.map_values(|s: FlatSymbol| s@)),
    )
}

proof fn lemma_ws_add_split(
    results: Seq<(Seq<char>, Seq<FlatRowV>)>,
    path: Seq<char>,
    row: FlatRowV,
    i: int,
)
    requires
        0 <= i <= results.len(),
        forall|k: int| 0 <= k < i ==> crate::text::lex_lt((#[trigger] results[k]).0, path),
    ensures
        ws_add(results, path, row) == results.subrange(0, i) + ws_add(
            results.skip(i),
            path,
            row,
        ),
    decreases i,
{
    if i == 0 {
        assert(results.skip(0) =~= results);
        assert(results.subrange(0, 0) + ws_add(results, path, row) =~= ws_add(
            results,
            path,
            row,
        ));
    } else {
        assert(crate::text::lex_lt(results[0].0, path));
        lemma_ws_add_split(results.drop_first(), path, row, i - 1);
        assert(results.drop_first().subrange(0, i - 1) =~= results.subrange(1, i));
        assert(results.drop_first().skip(i - 1) =~= results.skip(i));
        assert(seq![results[0]] + (results.subrange(1, i) + ws_add(results.skip(i), path, row))
            =~= results.subrange(0, i) + ws_add(results.skip(i), path, row));
    }
}

fn ws_group_pos(results: &Vec<(String, Vec<FlatSymbol>)>, path: &[char]) -> (j: usize)
    ensures
        j <= results@.len(),
        forall|k: int|
            0 <= k < j ==> crate::text::lex_lt((#[trigger] results@[k]).0@, path@),
        j < results@.len() ==> !crate::text::lex_lt(results@[j as int].0@, path@),
{
    let m = results.len();
    let mut j: usize = 0;
    while j < m
        invariant
            m == results@.len(),
            j <= m,
            forall|k: int|
                0 <= k < j ==> crate::text::lex_lt((#[trigger] results@[k]).0@, path@),
        decreases m - j,
    {
        let kv = chars_of(results[j].0.as_str());
        if !crate::text::chars_lt(kv.as_slice(), path) {
            return j;
        }
        j = j + 1;
    }
    j
}

/// Filter and group the workspace-symbol rows: non-empty names matching
/// the query, the kind word equal to the lowered filter, mapped paths
/// within scope; results grouped by path in ascending path order.
#[verifier::loop_isolation(false)]
#[verifier::rlimit(60)]
pub fn filter_workspace_symbols(
    rows: &Vec<WsRow>,
    name: &str,
    kind: Option<&str>,
    scope: &str,
    exact: bool,
) -> (out: LspSymbolsPage)
    ensures
        ({
            let spec = ws_filter_rec(
                rows@.map_values(|r: WsRow| r@),
                0,
                name@,
                exact,
                match kind {
                    Some(k) => Some(k@),
                    None => None,
                },
                scope@,
                Seq::empty(),
                0,
            );
            ws_groups_view(out.results@) == spec.0 && out.total as int == spec.1
        }),
{
    let ghost rv = rows@.map_values(|r: WsRow| r@);
    let ghost kv = match kind {
        Some(k) => Some(k@),
        None => None::<Seq<char>>,
    };
    let ghost target = ws_filter_rec(rv, 0, name@, exact, kv, scope@, Seq::empty(), 0);
    let lowered_kind: Option<Vec<char>> = match kind {
        Some(k) => Some(to_lower_vec(chars_of(k).as_slice())),
        None => None,
    };
    let mut results: Vec<(String, Vec<FlatSymbol>)> = Vec::new();
    let mut total: usize = 0;
    let mut i: usize = 0;
    let n = rows.len();
    proof {
        assert(ws_groups_view(results@) =~= Seq::<(Seq<char>, Seq<FlatRowV>)>::empty());
    }
    while i < n
        invariant
            n == rows@.len(),
            i <= n,
            total <= i,
            ws_filter_rec(
                rv,
                i as int,
                name@,
                exact,
                kv,
                scope@,
                ws_groups_view(results@),
                total as int,
            ) == target,
        decreases n - i,
    {
        proof {
            assert(rv[i as int] == rows@[i as int]@);
        }
        let r = &rows[i];
        let kind_word = kind_from_lsp(r.kind_num);
        let name_ok = !r.name.as_str().is_empty() && crate::index::symbol_name_matches(
            r.name.as_str(),
            name,
            exact,
        );
        let kind_ok = match &lowered_kind {
            Some(k) => chars_eq(chars_of(kind_word.as_str()).as_slice(), k.as_slice()),
            None => true,
        };
        let scope_ok = match &r.rel_path {
            Some(p) => crate::paths::path_matches_scope(p.as_str(), scope),
            None => false,
        };
        if name_ok && kind_ok && scope_ok {
            proof {
                assert(ws_row_accepted(rv[i as int], name@, exact, kv, scope@));
            }
            let path = match &r.rel_path {
                Some(p) => p.clone(),
                None => {
                    proof {
                        assert(false);
                    }
                    String::new()
                },
            };
            let pv = chars_of(path.as_str());
            let line = if r.line < u64::MAX {
                r.line + 1
            } else {
                u64::MAX
            };
            let column = if r.column < u64::MAX {
                r.column + 1
            } else {
                u64::MAX
            };
            let row = FlatSymbol {
                name: r.name.clone(),
                kind: kind_word,
                line,
                column,
                container: None,
            };
            let ghost ev = row@;
            proof {
                assert(ev =~= ws_row_flat(rv[i as int]));
            }
            let ghost cur = ws_groups_view(results@);
            let pos = ws_group_pos(&results, pv.as_slice());
            proof {
                assert(forall|k: int|
                    0 <= k < cur.len() ==> (#[trigger] cur[k]).0 == results@[k].0@);
                lemma_ws_add_split(cur, rv[i as int].rel_path->Some_0, ev, pos as int);
            }
            let at_path = pos < results.len() && chars_eq(
                chars_of(results[pos].0.as_str()).as_slice(),
                pv.as_slice(),
            );
            if at_path {
                let mut group = results.remove(pos);
                group.1.push(row);
                results.insert(pos, group);
                proof {
                    assert(ws_groups_view(results@) =~~= cur.subrange(0, pos as int) + (seq![
                        (rv[i as int].rel_path->Some_0, cur[pos as int].1.push(ev)),
                    ] + cur.skip(pos as int).drop_first()));
                    assert(ws_add(cur.skip(pos as int), rv[i as int].rel_path->Some_0, ev)
                        =~~= seq![
                        (rv[i as int].rel_path->Some_0, cur[pos as int].1.push(ev)),
                    ] + cur.skip(pos as int).drop_first()) by {
                        assert(cur.skip(pos as int)[0] == cur[pos as int]);
                        crate::text::lemma_lex_lt_irrefl(rv[i as int].rel_path->Some_0);
                    }
                    assert(ws_groups_view(results@) =~~= ws_add(
                        cur,
                        rv[i as int].rel_path->Some_0,
                        ev,
                    ));
                }
            } else {
                let mut fresh: Vec<FlatSymbol> = Vec::new();
                fresh.push(row);
                results.insert(pos, (path, fresh));
                proof {
                    assert(ws_groups_view(results@) =~~= cur.subrange(0, pos as int) + (seq![
                        (rv[i as int].rel_path->Some_0, seq![ev]),
                    ] + cur.skip(pos as int)));
                    if pos < cur.len() {
                        assert(cur.skip(pos as int)[0] == cur[pos as int]);
                        assert(ws_add(cur.skip(pos as int), rv[i as int].rel_path->Some_0, ev)
                            =~~= seq![(rv[i as int].rel_path->Some_0, seq![ev])] + cur.skip(
                            pos as int,
                        ));
                    } else {
                        assert(cur.skip(pos as int).len() == 0);
                        assert(ws_add(cur.skip(pos as int), rv[i as int].rel_path->Some_0, ev)
                            =~~= seq![(rv[i as int].rel_path->Some_0, seq![ev])]);
                    }
                    assert(ws_groups_view(results@) =~~= ws_add(
                        cur,
                        rv[i as int].rel_path->Some_0,
                        ev,
                    ));
                }
            }
            total = total + 1;
        } else {
            proof {
                assert(!ws_row_accepted(rv[i as int], name@, exact, kv, scope@));
            }
        }
        i = i + 1;
    }
    LspSymbolsPage { results, total }
}

} // verus!
