use unity_cli::engine::{find_refs, list_packages, read_selection, search_files, SearchError};
use unity_cli::extract::{extract_symbols_from_text, matchers_new, strip_csharp_comments};
use unity_cli::index::{
    build_index, find_symbol, index_is_ready, plan_update_paths, update_index, update_success,
    SourceFile, SymbolIndex,
};

fn file(path: &str, content: &str) -> SourceFile {
    SourceFile {
        path: path.to_string(),
        content: content.to_string(),
        signature: "1-1".to_string(),
    }
}

#[test]
fn read_returns_file_slice() {
    let out = read_selection("line1\nline2\nline3\nline4\n", Some(2), Some(2));
    assert_eq!(out.start_line, 2);
    assert_eq!(out.end_line, 3);
    assert_eq!(out.line_count, 2);
    assert_eq!(out.content, "line2\nline3");
}

#[test]
fn read_past_end_is_empty_not_error() {
    let out = read_selection("a\nb\n", Some(10), Some(5));
    assert_eq!(out.line_count, 0);
    assert_eq!(out.content, "");
}

#[test]
fn search_finds_matching_lines() {
    let files = vec![file("Assets/Scripts/Test.cs", "public class Foo {}\npublic class Bar {}\n")];
    let out = search_files(&files, "class", None, Some(10)).expect("search should succeed");
    assert_eq!(out.count, 2);
    assert_eq!(out.truncated, false);
}

#[test]
fn search_honors_limit_with_truncation() {
    let files = vec![file("Assets/Scripts/Test.cs", "class a\nclass b\nclass c\n")];
    let out = search_files(&files, "class", None, Some(2)).expect("search should succeed");
    assert_eq!(out.count, 2);
    assert_eq!(out.truncated, true);
}

#[test]
fn search_rejects_invalid_pattern() {
    let files = vec![file("Assets/A.cs", "x\n")];
    match search_files(&files, "[", None, None) {
        Err(err) => assert_eq!(err, SearchError::InvalidPattern),
        Ok(_) => panic!("bad pattern must be refused"),
    }
}

#[test]
fn search_rejects_path_without_root_prefix() {
    let files = vec![file("Assets/A.cs", "x\n")];
    match search_files(&files, "x", Some("nowhere"), None) {
        Err(err) => assert_eq!(err, SearchError::BadPath),
        Ok(_) => panic!("path without a root prefix must be refused"),
    }
}

#[test]
fn list_packages_lists_package_dirs() {
    let names = vec!["com.test.b".to_string(), "com.test.a".to_string()];
    let out = list_packages(&names);
    assert_eq!(out.len(), 2);
    assert_eq!(out[0].0, "com.test.a");
    assert_eq!(out[0].1, "Packages/com.test.a");
    assert_eq!(out[1].0, "com.test.b");
}

#[test]
fn get_symbols_extracts_class_and_method() {
    let m = matchers_new();
    let symbols = extract_symbols_from_text(
        &m,
        "Assets/Scripts/Player.cs",
        "namespace Demo {\n  public class Player {\n    public int Health;\n    public void Jump() {}\n  }\n}\n",
    );
    assert!(symbols.iter().any(|s| s.name == "Player" && s.kind == "class"));
    assert!(symbols.iter().any(|s| s.name == "Jump" && s.kind == "method"));
}

#[test]
fn extractor_reports_namespace_and_container() {
    let m = matchers_new();
    let symbols = extract_symbols_from_text(
        &m,
        "Assets/P.cs",
        "namespace Demo {\n public class Player {\n public void Jump() {}\n }\n}\n",
    );
    let player = symbols
        .iter()
        .find(|s| s.name == "Player")
        .expect("class should be extracted");
    assert_eq!(player.kind, "class");
    assert!(player.container.is_none());
    assert_eq!(player.namespace.as_deref(), Some("Demo"));
    let jump = symbols
        .iter()
        .find(|s| s.name == "Jump")
        .expect("method should be extracted");
    assert_eq!(jump.kind, "method");
    assert_eq!(jump.container.as_deref(), Some("Player"));
    assert_eq!(jump.namespace.as_deref(), Some("Demo"));
}

#[test]
fn comment_stripping_respects_strings() {
    let mut in_block = false;
    let out = strip_csharp_comments("int x = 1; // trailing", &mut in_block);
    assert_eq!(out, "int x = 1; ");
    assert!(!in_block);
    let out2 = strip_csharp_comments("a /* open", &mut in_block);
    assert_eq!(out2, "a ");
    assert!(in_block);
    let out3 = strip_csharp_comments("still */ b", &mut in_block);
    assert_eq!(out3, " b");
    assert!(!in_block);
    let mut fresh = false;
    let out4 = strip_csharp_comments("var s = \"//not a comment\";", &mut fresh);
    assert_eq!(out4, "var s = \"//not a comment\";");
}

#[test]
fn find_symbol_returns_index_not_ready_before_build() {
    let index = SymbolIndex::default();
    assert!(!index_is_ready(&index));
}

#[test]
fn build_index_and_find_symbol_roundtrip() {
    let m = matchers_new();
    let files = vec![
        file(
            "Assets/Scripts/Player.cs",
            "namespace Demo {\n  public class Player { public void Jump() {} }\n}\n",
        ),
        file("Packages/com.demo/Runtime/Enemy.cs", "namespace Demo {\n  public class Enemy { }\n}\n"),
    ];
    let (index, stats) = build_index(&m, &files, "all", false, 1000);
    assert_eq!(stats.indexed_files, 2);
    assert!(index_is_ready(&index));

    let found = find_symbol(&index, "Player", Some("class"), "assets", true);
    assert!(found.total >= 1);
    assert!(found.results.iter().any(|r| r.path.starts_with("Assets/")));
}

#[test]
fn rebuilding_unchanged_tree_reproduces_files() {
    let m = matchers_new();
    let files = vec![file("Assets/A.cs", "public class A {}\n")];
    let (ix1, s1) = build_index(&m, &files, "all", false, 1);
    let (ix2, s2) = build_index(&m, &files, "all", false, 999);
    assert_eq!(s1.indexed_files, s2.indexed_files);
    assert_eq!(s1.indexed_symbols, s2.indexed_symbols);
    assert_eq!(ix1.files.len(), ix2.files.len());
    for k in 0..ix1.files.len() {
        assert_eq!(ix1.files[k].0, ix2.files[k].0);
        assert_eq!(ix1.files[k].1.symbols.len(), ix2.files[k].1.symbols.len());
    }
    assert_eq!(ix1.generated_at_epoch_ms, 1);
    assert_eq!(ix2.generated_at_epoch_ms, 999);
}

#[test]
fn update_index_refreshes_symbol_names() {
    let m = matchers_new();
    let before = vec![file("Assets/Scripts/Player.cs", "public class BeforeName {}\n")];
    let (index, _) = build_index(&m, &before, "all", false, 1);

    let planned = plan_update_paths("/proj", &vec!["Assets/Scripts/Player.cs".to_string()]);
    let found = vec![file("Assets/Scripts/Player.cs", "public class AfterName {}\n")];
    let out = update_index(&m, index, &planned, &found, 2);
    assert_eq!(out.updated, 1);
    assert!(update_success(&out));

    let old = find_symbol(&out.index, "BeforeName", None, "all", true);
    assert_eq!(old.total, 0);
    let new = find_symbol(&out.index, "AfterName", None, "all", true);
    assert!(new.total >= 1);
}

#[test]
fn update_index_reports_missing_and_unsupported() {
    let m = matchers_new();
    let planned = plan_update_paths(
        "/proj",
        &vec!["Assets/Gone.cs".to_string(), "Assets/notes.txt".to_string()],
    );
    let found = vec![file("Assets/notes.txt", "text\n")];
    let out = update_index(&m, SymbolIndex::default(), &planned, &found, 3);
    assert_eq!(out.updated, 0);
    assert!(!update_success(&out));
    assert!(out.skipped.iter().any(|s| s.1 == "missing"));
    assert!(out.skipped.iter().any(|s| s.1 == "unsupported_extension"));
}

#[test]
fn find_refs_supports_cursor_paging() {
    let files = vec![
        file("Assets/Scripts/Player.cs", "public class Player {}\n"),
        file("Assets/Scripts/UserA.cs", "public class UserA { private Player _p; }\n"),
        file("Assets/Scripts/UserB.cs", "public class UserB { private Player _p; }\n"),
    ];
    let first = find_refs(&files, "Player", "all", None, None, Some(1), Some(65536), Some(5), None)
        .expect("find_refs should succeed");
    assert_eq!(first.truncated, true);
    let cursor = first.cursor.clone().expect("cursor should be present when truncated");

    let second = find_refs(
        &files,
        "Player",
        "all",
        Some(cursor.as_str()),
        None,
        Some(10),
        Some(65536),
        Some(5),
        None,
    )
    .expect("find_refs should succeed");
    assert!(second.total >= 1, "expected remaining reference results after cursor");
    for r in second.results.iter() {
        assert!(r.path.as_str() > cursor.as_str());
    }
}

#[test]
fn find_refs_counts_every_word_match_on_a_line() {
    let files = vec![file("Assets/A.cs", "Player Player NotAPlayerWord\n")];
    let out = find_refs(&files, "Player", "all", None, None, Some(10), Some(65536), Some(5), None)
        .expect("find_refs should succeed");
    assert_eq!(out.total, 2);
    assert_eq!(out.results.len(), 1);
    assert_eq!(out.results[0].references[0].column, 1);
    assert_eq!(out.results[0].references[1].column, 8);
}

#[test]
fn find_refs_stops_at_byte_budget() {
    let files = vec![file(
        "Assets/A.cs",
        "Player a\nPlayer b\nPlayer c\nPlayer d\nPlayer e\n",
    )];
    let out = find_refs(
        &files,
        "Player",
        "all",
        None,
        None,
        Some(100),
        Some(128),
        Some(100),
        None,
    )
    .expect("find_refs should succeed");
    assert_eq!(out.truncated, true);
    assert!(out.total < 5);
}

#[test]
fn find_refs_respects_scope_and_filter() {
    let files = vec![
        file("Assets/A.cs", "Player here\n"),
        file("Packages/com.x/B.cs", "Player there\n"),
    ];
    let assets_only =
        find_refs(&files, "Player", "assets", None, None, None, None, None, None).unwrap();
    assert_eq!(assets_only.results.len(), 1);
    assert_eq!(assets_only.results[0].path, "Assets/A.cs");

    let filtered =
        find_refs(&files, "Player", "all", None, Some("com.x"), None, None, None, None).unwrap();
    assert_eq!(filtered.results.len(), 1);
    assert_eq!(filtered.results[0].path, "Packages/com.x/B.cs");
}

#[test]
fn symbol_columns_count_bytes() {
    // 'é' is two bytes in UTF-8, so a name after it lands at byte column 3.
    let line: Vec<char> = vec!['\u{e9}', 'x'];
    let name: Vec<char> = vec!['x'];
    assert_eq!(unity_cli::extract::symbol_column(&line, &name), 3);
    let ascii: Vec<char> = vec!['a', 'x'];
    assert_eq!(unity_cli::extract::symbol_column(&ascii, &name), 2);
}

#[test]
fn final_unterminated_line_keeps_its_carriage_return() {
    // A \r is removed only when a \n followed it.
    let crlf = read_selection("a\r\nb", None, None);
    assert_eq!(crlf.content, "a\nb");
    let lone = read_selection("a\r", None, None);
    assert_eq!(lone.content, "a\r");
    assert_eq!(lone.line_count, 1);
}
