//! Backend dispatch: which tool names the local engine serves, which of
//! those can go to the language server, and the three-way fallback policy
//! for language-server attempts.

use vstd::prelude::*;

use crate::text::{chars_eq, chars_of, lower_seq, string_of, to_lower_vec};

verus! {

/// The tools the local engine implements.
#[derive(Clone, Copy, PartialEq, Eq, Structural, Debug)]
pub enum LocalTool {
    Read,
    Search,
    ListPackages,
    GetSymbols,
    BuildIndex,
    UpdateIndex,
    FindSymbol,
    FindRefs,
}

pub open spec fn local_tool_spec(name: Seq<char>) -> Option<LocalTool> {
    if name == "read"@ {
        Some(LocalTool::Read)
    } else if name == "search"@ {
        Some(LocalTool::Search)
    } else if name == "list_packages"@ {
        Some(LocalTool::ListPackages)
    } else if name == "get_symbols"@ {
        Some(LocalTool::GetSymbols)
    } else if name == "build_index"@ {
        Some(LocalTool::BuildIndex)
    } else if name == "update_index"@ {
        Some(LocalTool::UpdateIndex)
    } else if name == "find_symbol"@ {
        Some(LocalTool::FindSymbol)
    } else if name == "find_refs"@ {
        Some(LocalTool::FindRefs)
    } else {
        None
    }
}

/// Which local tool a name selects; any other name goes to the remote
/// editor.
pub fn local_tool_for(name: &str) -> (r: Option<LocalTool>)
    ensures
        r == local_tool_spec(name@),
{
    let v = chars_of(name);
    if chars_eq(v.as_slice(), chars_of("read").as_slice()) {
        Some(LocalTool::Read)
    } else if chars_eq(v.as_slice(), chars_of("search").as_slice()) {
        Some(LocalTool::Search)
    } else if chars_eq(v.as_slice(), chars_of("list_packages").as_slice()) {
        Some(LocalTool::ListPackages)
    } else if chars_eq(v.as_slice(), chars_of("get_symbols").as_slice()) {
        Some(LocalTool::GetSymbols)
    } else if chars_eq(v.as_slice(), chars_of("build_index").as_slice()) {
        Some(LocalTool::BuildIndex)
    } else if chars_eq(v.as_slice(), chars_of("update_index").as_slice()) {
        Some(LocalTool::UpdateIndex)
    } else if chars_eq(v.as_slice(), chars_of("find_symbol").as_slice()) {
        Some(LocalTool::FindSymbol)
    } else if chars_eq(v.as_slice(), chars_of("find_refs").as_slice()) {
        Some(LocalTool::FindRefs)
    } else {
        None
    }
}

/// The tools that have a language-server equivalent.
pub open spec fn lsp_capable_spec(t: LocalTool) -> bool {
    t == LocalTool::GetSymbols || t == LocalTool::FindSymbol || t == LocalTool::FindRefs || t
        == LocalTool::BuildIndex
}

pub fn lsp_capable(t: LocalTool) -> (r: bool)
    ensures
        r == lsp_capable_spec(t),
{
    match t {
        LocalTool::GetSymbols => true,
        LocalTool::FindSymbol => true,
        LocalTool::FindRefs => true,
        LocalTool::BuildIndex => true,
        _ => false,
    }
}

/// The language-server policy.
#[derive(Clone, Copy, PartialEq, Eq, Structural, Debug)]
pub enum LspMode {
    Off,
    Auto,
    Required,
}

/// The mode named by a raw configuration value: `required` and `auto` are
/// recognized without regard to ASCII case, anything else is off.
pub open spec fn lsp_mode_spec(raw: Option<Seq<char>>) -> LspMode {
    match raw {
        Some(s) => if lower_seq(s) == "required"@ {
            LspMode::Required
        } else if lower_seq(s) == "auto"@ {
            LspMode::Auto
        } else {
            LspMode::Off
        },
        None => LspMode::Off,
    }
}

pub fn lsp_mode_from(raw: Option<&str>) -> (r: LspMode)
    ensures
        r == lsp_mode_spec(match raw {
            Some(s) => Some(s@),
            None => None,
        }),
{
    proof {
        reveal_strlit("required");
        reveal_strlit("auto");
        assert(lower_seq("required"@) =~= "required"@);
        assert(lower_seq("auto"@) =~= "auto"@);
    }
    match raw {
        Some(s) => {
            let lowered = to_lower_vec(chars_of(s).as_slice());
            if chars_eq(lowered.as_slice(), chars_of("required").as_slice()) {
                LspMode::Required
            } else if chars_eq(lowered.as_slice(), chars_of("auto").as_slice()) {
                LspMode::Auto
            } else {
                LspMode::Off
            }
        },
        None => LspMode::Off,
    }
}

/// Whether a language-server attempt is made at all.
pub open spec fn lsp_should_attempt_spec(mode: LspMode, t: LocalTool) -> bool {
    mode != LspMode::Off && lsp_capable_spec(t)
}

pub fn lsp_should_attempt(mode: LspMode, t: LocalTool) -> (r: bool)
    ensures
        r == lsp_should_attempt_spec(mode, t),
{
    !(mode == LspMode::Off) && lsp_capable(t)
}

/// What happens after a language-server attempt.
#[derive(Clone, Copy, PartialEq, Eq, Structural, Debug)]
pub enum LspAfter {
    /// A successful attempt's value is used as the result.
    UseResult,
    /// In `required` mode a failure is surfaced unchanged.
    PropagateError,
    /// In `auto` mode a failure falls back to the built-in engine.
    FallBack,
}

/// The fallback policy: success is always used; a failure propagates under
/// `required` and falls back under `auto`.
pub open spec fn lsp_after_spec(mode: LspMode, attempt_ok: bool) -> LspAfter {
    if attempt_ok {
        LspAfter::UseResult
    } else if mode == LspMode::Required {
        LspAfter::PropagateError
    } else {
        LspAfter::FallBack
    }
}

pub fn lsp_after(mode: LspMode, attempt_ok: bool) -> (r: LspAfter)
    ensures
        r == lsp_after_spec(mode, attempt_ok),
{
    if attempt_ok {
        LspAfter::UseResult
    } else if mode == LspMode::Required {
        LspAfter::PropagateError
    } else {
        LspAfter::FallBack
    }
}

/// The catalog of tool names accepted from the free-form external path:
/// the local engine's tools plus the remote editor operations the binary
/// exposes.
pub fn tool_names() -> (r: Vec<String>)
    ensures
        r@.map_values(|s: String| s@) == seq![
            "read"@,
            "search"@,
            "list_packages"@,
            "get_symbols"@,
            "build_index"@,
            "update_index"@,
            "find_symbol"@,
            "find_refs"@,
            "ping"@,
            "create_scene"@,
        ],
{
    let mut v: Vec<String> = Vec::new();
    v.push(string_of(chars_of("read").as_slice()));
    v.push(string_of(chars_of("search").as_slice()));
    v.push(string_of(chars_of("list_packages").as_slice()));
    v.push(string_of(chars_of("get_symbols").as_slice()));
    v.push(string_of(chars_of("build_index").as_slice()));
    v.push(string_of(chars_of("update_index").as_slice()));
    v.push(string_of(chars_of("find_symbol").as_slice()));
    v.push(string_of(chars_of("find_refs").as_slice()));
    v.push(string_of(chars_of("ping").as_slice()));
    v.push(string_of(chars_of("create_scene").as_slice()));
    proof {
        assert(v@.map_values(|s: String| s@) =~= seq![
            "read"@,
            "search"@,
            "list_packages"@,
            "get_symbols"@,
            "build_index"@,
            "update_index"@,
            "find_symbol"@,
            "find_refs"@,
            "ping"@,
            "create_scene"@,
        ]);
    }
    v
}

/// Whether a free-form tool name is in the catalog.
pub open spec fn is_known_tool_spec(name: Seq<char>) -> bool {
    local_tool_spec(name) is Some || name == "ping"@ || name == "create_scene"@
}

pub fn is_known_tool(name: &str) -> (r: bool)
    ensures
        r == is_known_tool_spec(name@),
{
    let v = chars_of(name);
    match local_tool_for(name) {
        Some(_) => true,
        None => chars_eq(v.as_slice(), chars_of("ping").as_slice()) || chars_eq(
            v.as_slice(),
            chars_of("create_scene").as_slice(),
        ),
    }
}

} // verus!
