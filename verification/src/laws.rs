//! Cross-cutting laws of the library, stated over the same spec functions
//! that the executable functions' contracts use.

use vstd::prelude::*;

use crate::engine::{refs_skip_file, refs_tree_rec, RefsStateV};
use crate::extract::lines_spec;
use crate::index::{
    build_entries, files_sorted, filter_syms, find_symbol_results, insert_entry, results_total,
    symbol_matches, IndexedFileV, SymbolIndexV,
};
use crate::index::SourceFileV;
use crate::paths::{
    cleaned_path, normalize_rel_or_abs_path_spec, normalize_rel_path_spec, path_matches_scope_spec,
    strip_root_prefix, truncated_at_root, PathError,
};
use crate::remote::failure_text;
use crate::text::{
    contains_seq, lemma_lex_lt_total, lex_le, lex_lt, nonempty_parts, occurs_at, split_char,
};

verus! {

/// A path whose components keep a parent-directory segment is refused by
/// normalization outright; it is never silently cleaned up.
pub proof fn lemma_parent_segment_refused(raw: Seq<char>)
    requires
        nonempty_parts(split_char(truncated_at_root(cleaned_path(raw)), '/')).contains(".."@),
    ensures
        normalize_rel_path_spec(raw) == None::<Seq<char>>,
{
}

/// An absolute path that does not lie under the project root is refused,
/// never reinterpreted.
pub proof fn lemma_out_of_root_refused(root: Seq<char>, raw: Seq<char>)
    requires
        raw.len() > 0,
        raw[0] == '/',
        strip_root_prefix(root, raw) is None,
    ensures
        normalize_rel_or_abs_path_spec(root, raw) == Err::<Seq<char>, PathError>(
            PathError::NotUnderRoot,
        ),
{
}

proof fn lemma_results_total_nonneg(results: Seq<(Seq<char>, Seq<crate::extract::SymbolV>)>)
    ensures
        results_total(results) >= 0,
    decreases results.len(),
{
    if results.len() > 0 {
        lemma_results_total_nonneg(results.drop_last());
    }
}

proof fn lemma_filter_syms_finds(
    syms: Seq<crate::extract::SymbolV>,
    name: Seq<char>,
    exact: bool,
    kind: Option<Seq<char>>,
    j: int,
)
    requires
        0 <= j < syms.len(),
        symbol_matches(syms[j], name, exact, kind),
    ensures
        filter_syms(syms, name, exact, kind).len() >= 1,
    decreases syms.len(),
{
    if j < syms.len() - 1 {
        lemma_filter_syms_finds(syms.drop_last(), name, exact, kind, j);
    }
}

/// Round trip: an index holding a symbol of the wanted name, in a file
/// within scope, makes the exact search report at least one match, and the
/// grouped results name that file.
pub proof fn lemma_find_symbol_roundtrip(
    files: Seq<(Seq<char>, IndexedFileV)>,
    scope: Seq<char>,
    name: Seq<char>,
    i: int,
    j: int,
)
    requires
        0 <= i < files.len(),
        path_matches_scope_spec(files[i].0, scope),
        0 <= j < files[i].1.symbols.len(),
        files[i].1.symbols[j].name == name,
    ensures
        results_total(find_symbol_results(files, scope, name, true, None)) >= 1,
        exists|k: int|
            0 <= k < find_symbol_results(files, scope, name, true, None).len() && (
            #[trigger] find_symbol_results(files, scope, name, true, None)[k]).0 == files[i].0,
    decreases files.len(),
{
    let res = find_symbol_results(files, scope, name, true, None);
    let rest = find_symbol_results(files.drop_last(), scope, name, true, None);
    lemma_results_total_nonneg(rest);
    if i == files.len() - 1 {
        lemma_filter_syms_finds(files[i].1.symbols, name, true, None, j);
        let f = filter_syms(files[i].1.symbols, name, true, None);
        assert(res == rest.push((files[i].0, f)));
        assert(res[res.len() - 1].0 == files[i].0);
        lemma_results_total_nonneg(res.drop_last());
        assert(res.drop_last() =~= rest);
    } else {
        assert(files.drop_last()[i] == files[i]);
        lemma_find_symbol_roundtrip(files.drop_last(), scope, name, i, j);
        let last = files.last();
        if path_matches_scope_spec(last.0, scope) && filter_syms(
            last.1.symbols,
            name,
            true,
            None,
        ).len() > 0 {
            assert(res == rest.push((last.0, filter_syms(last.1.symbols, name, true, None))));
            assert(res.drop_last() =~= rest);
            let w = choose|w: int| 0 <= w < rest.len() && (#[trigger] rest[w]).0 == files[i].0;
            assert(res[w].0 == files[i].0);
        } else {
            assert(res == rest);
        }
    }
}

/// Rebuilding over an unchanged tree yields identical file entries; only
/// the generation stamp may differ between the two builds.
pub proof fn lemma_rebuild_unchanged(
    ix1: SymbolIndexV,
    ix2: SymbolIndexV,
    files: Seq<SourceFileV>,
    dirs: Seq<Seq<char>>,
)
    requires
        ix1.files == build_entries(files, dirs),
        ix2.files == build_entries(files, dirs),
    ensures
        ix1.files == ix2.files,
{
}

/// An incremental insert holds exactly the new entry under its path and
/// keeps every entry of another path as it was.
pub proof fn lemma_update_replaces(
    files: Seq<(Seq<char>, IndexedFileV)>,
    key: Seq<char>,
    val: IndexedFileV,
)
    requires
        files_sorted(files),
    ensures
        exists|k: int|
            0 <= k < insert_entry(files, key, val).len() && #[trigger] insert_entry(
                files,
                key,
                val,
            )[k] == (key, val),
        forall|k: int|
            0 <= k < insert_entry(files, key, val).len() && (#[trigger] insert_entry(
                files,
                key,
                val,
            )[k]).0 != key ==> exists|m: int|
                0 <= m < files.len() && files[m] == insert_entry(files, key, val)[k],
    decreases files.len(),
{
    let out = insert_entry(files, key, val);
    if files.len() == 0 {
        assert(out[0] == (key, val));
    } else if lex_lt(files[0].0, key) {
        assert(files_sorted(files.drop_first())) by {
            assert(forall|a: int, b: int|
                0 <= a < b < files.drop_first().len() ==> lex_lt(
                    (#[trigger] files.drop_first()[a]).0,
                    (#[trigger] files.drop_first()[b]).0,
                ));
        }
        lemma_update_replaces(files.drop_first(), key, val);
        let rest = insert_entry(files.drop_first(), key, val);
        let w = choose|w: int| 0 <= w < rest.len() && #[trigger] rest[w] == (key, val);
        assert(out[w + 1] == (key, val));
        assert forall|k: int|
            0 <= k < out.len() && (#[trigger] out[k]).0 != key implies exists|m: int|
            0 <= m < files.len() && files[m] == out[k] by {
            if k == 0 {
                assert(files[0] == out[0]);
            } else {
                assert(out[k] == rest[k - 1]);
                let m = choose|m: int|
                    0 <= m < files.drop_first().len() && #[trigger] files.drop_first()[m]
                        == rest[k - 1];
                assert(files[m + 1] == out[k]);
            }
        }
    } else if files[0].0 == key {
        assert(out[0] == (key, val));
        assert forall|k: int|
            0 <= k < out.len() && (#[trigger] out[k]).0 != key implies exists|m: int|
            0 <= m < files.len() && files[m] == out[k] by {
            assert(files[k] == out[k]);
        }
    } else {
        assert(out[0] == (key, val));
        assert forall|k: int|
            0 <= k < out.len() && (#[trigger] out[k]).0 != key implies exists|m: int|
            0 <= m < files.len() && files[m] == out[k] by {
            assert(files[k - 1] == out[k]);
        }
    }
}

/// Resuming a reference search past a cursor returns only files strictly
/// after it: the file already delivered is never repeated.
pub proof fn lemma_refs_cursor_excludes(
    files: Seq<SourceFileV>,
    k: int,
    name: Seq<char>,
    dirs: Seq<Seq<char>>,
    cursor: Seq<char>,
    pfilter: Option<Seq<char>>,
    ctx: int,
    st: RefsStateV,
    mpf: int,
    page: int,
    maxb: int,
)
    requires
        forall|q: int|
            0 <= q < st.results.len() ==> lex_lt(cursor, (#[trigger] st.results[q]).0),
    ensures
        forall|q: int|
            0 <= q < refs_tree_rec(
                files,
                k,
                name,
                dirs,
                Some(cursor),
                pfilter,
                ctx,
                st,
                mpf,
                page,
                maxb,
            ).results.len() ==> lex_lt(
                cursor,
                (#[trigger] refs_tree_rec(
                    files,
                    k,
                    name,
                    dirs,
                    Some(cursor),
                    pfilter,
                    ctx,
                    st,
                    mpf,
                    page,
                    maxb,
                ).results[q]).0,
            ),
    decreases files.len() - k,
{
    if 0 <= k < files.len() {
        let f = files[k];
        if refs_skip_file(f.path, dirs, Some(cursor), pfilter) {
            lemma_refs_cursor_excludes(
                files,
                k + 1,
                name,
                dirs,
                cursor,
                pfilter,
                ctx,
                st,
                mpf,
                page,
                maxb,
            );
        } else {
            assert(!lex_le(f.path, cursor));
            lemma_lex_lt_total(f.path, cursor);
            assert(lex_lt(cursor, f.path));
            let r = crate::engine::refs_lines_rec(
                name,
                lines_spec(f.content),
                0,
                ctx,
                Seq::empty(),
                st.total,
                st.bytes,
                mpf,
                page,
                maxb,
            );
            let st2 = RefsStateV {
                results: if r.0.len() > 0 {
                    st.results.push((f.path, r.0))
                } else {
                    st.results
                },
                total: r.1,
                bytes: r.2,
                truncated: r.3,
                last_path: if r.0.len() > 0 {
                    Some(f.path)
                } else {
                    st.last_path
                },
            };
            assert(forall|q: int|
                0 <= q < st2.results.len() ==> lex_lt(cursor, (#[trigger] st2.results[q]).0));
            if !r.3 {
                lemma_refs_cursor_excludes(
                    files,
                    k + 1,
                    name,
                    dirs,
                    cursor,
                    pfilter,
                    ctx,
                    st2,
                    mpf,
                    page,
                    maxb,
                );
            }
        }
    }
}

/// A start line past the end of the file yields an empty selection, not an
/// error.
pub proof fn lemma_read_past_end(content: Seq<char>, sl: u64, ml: Option<u64>)
    requires
        sl as int > lines_spec(content).len(),
    ensures
        crate::engine::read_selection_spec(content, Some(sl), ml).2 == 0,
{
}

/// A normalized failure message carries both the reported error text and
/// the error code.
pub proof fn lemma_failure_text_carries(msg: Seq<char>, code: Seq<char>)
    ensures
        contains_seq(failure_text(msg, code), msg),
        contains_seq(failure_text(msg, code), code),
{
    let f = failure_text(msg, code);
    assert(f.subrange(0, msg.len() as int) =~= msg);
    assert(occurs_at(f, msg, 0));
    let at = msg.len() as int + " (code: "@.len() as int;
    assert(f.subrange(at, at + code.len() as int) =~= code);
    assert(occurs_at(f, code, at));
}

} // verus!
