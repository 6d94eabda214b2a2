//! The command-line surface and the resolved runtime configuration: the
//! argument structures the binary fills in, and how explicit arguments and
//! environment-supplied defaults combine into host, port and timeout.

use vstd::prelude::*;

use crate::text::{chars_of, dec_val, digits_of_int, parse_u16_chars, parse_u64_chars,
    parses_as_u64, push_all, string_of, trim, trim_spec};

verus! {

/// How results are printed.
pub enum OutputFormat {
    Text,
    Json,
}

/// One free-form tool invocation: the tool's name and its parameters,
/// inline as JSON or from a file.
pub struct RawArgs {
    pub tool_name: String,
    pub json: Option<String>,
    pub params_file: Option<String>,
}

pub enum ToolCommand {
    List,
    Call(RawArgs),
    External(Vec<String>),
}

pub enum SystemCommand {
    Ping { message: Option<String> },
}

pub enum SceneCommand {
    Create {
        scene_name: String,
        path: Option<String>,
        load_scene: bool,
        add_to_build_settings: bool,
    },
}

pub enum InstancesCommand {
    List { ports: Option<String>, host: String, timeout_ms: u64 },
    SetActive { id: String, timeout_ms: u64 },
}

pub enum Command {
    Raw(RawArgs),
    Tool { command: ToolCommand },
    System { command: SystemCommand },
    Scene { command: SceneCommand },
    Instances { command: InstancesCommand },
}

/// The parsed command line.
pub struct Cli {
    pub output: OutputFormat,
    pub host: Option<String>,
    pub port: Option<u16>,
    pub timeout_ms: Option<u64>,
    pub verbose: u8,
    pub command: Command,
}

/// The environment-supplied fallback values, read at the process edge: the
/// first present variable's raw text for each setting.
pub struct EnvDefaults {
    pub host: Option<String>,
    pub port: Option<String>,
    pub timeout_ms: Option<String>,
}

/// The connection settings a remote call uses.
pub struct RuntimeConfig {
    pub host: String,
    pub port: u16,
    pub timeout_ms: u64,
}

/// The fallback host: the environment value trimmed, unless that leaves
/// nothing, else `localhost`.
pub open spec fn default_host_spec(env: Option<Seq<char>>) -> Seq<char> {
    match env {
        Some(raw) => if trim_spec(raw).len() > 0 {
            trim_spec(raw)
        } else {
            "localhost"@
        },
        None => "localhost"@,
    }
}

pub fn default_host(env: Option<&str>) -> (r: String)
    ensures
        r@ == default_host_spec(match env {
            Some(s) => Some(s@),
            None => None,
        }),
{
    match env {
        Some(raw) => {
            let t = trim(chars_of(raw).as_slice());
            if t.len() > 0 {
                string_of(t.as_slice())
            } else {
                string_of(chars_of("localhost").as_slice())
            }
        },
        None => string_of(chars_of("localhost").as_slice()),
    }
}

/// The fallback port: the environment value trimmed and parsed, kept only
/// when positive, else 6400.
pub open spec fn default_port_spec(env: Option<Seq<char>>) -> int {
    match env {
        Some(raw) => {
            let t = trim_spec(raw);
            if parses_as_u64(t) && dec_val(digits_of_int(t)) <= u16::MAX && dec_val(
                digits_of_int(t),
            ) > 0 {
                dec_val(digits_of_int(t)) as int
            } else {
                6400int
            }
        },
        None => 6400int,
    }
}

pub fn default_port(env: Option<&str>) -> (r: u16)
    ensures
        r as int == default_port_spec(match env {
            Some(s) => Some(s@),
            None => None,
        }),
{
    match env {
        Some(raw) => {
            let t = trim(chars_of(raw).as_slice());
            match parse_u16_chars(t.as_slice()) {
                Some(p) => if p > 0 {
                    p
                } else {
                    6400
                },
                None => 6400,
            }
        },
        None => 6400,
    }
}

/// The fallback timeout: the environment value trimmed and parsed, kept
/// only when positive, else 30000 milliseconds.
pub open spec fn default_timeout_spec(env: Option<Seq<char>>) -> int {
    match env {
        Some(raw) => {
            let t = trim_spec(raw);
            if parses_as_u64(t) && dec_val(digits_of_int(t)) > 0 {
                dec_val(digits_of_int(t)) as int
            } else {
                30000int
            }
        },
        None => 30000int,
    }
}

pub fn default_timeout_ms(env: Option<&str>) -> (r: u64)
    ensures
        r as int == default_timeout_spec(match env {
            Some(s) => Some(s@),
            None => None,
        }),
{
    match env {
        Some(raw) => {
            let t = trim(chars_of(raw).as_slice());
            match parse_u64_chars(t.as_slice()) {
                Some(v) => if v > 0 {
                    v
                } else {
                    30000
                },
                None => 30000,
            }
        },
        None => 30000,
    }
}

impl RuntimeConfig {
    /// Resolve the connection settings: an explicit argument wins, else the
    /// environment default, else the built-in value.
    pub fn from_cli(cli: &Cli, env: &EnvDefaults) -> (r: RuntimeConfig)
        ensures
            r.host@ == (match cli.host {
                Some(ref h) => h@,
                None => default_host_spec(
                    match env.host {
                        Some(ref s) => Some(s@),
                        None => None,
                    },
                ),
            }),
            r.port as int == (match cli.port {
                Some(p) => p as int,
                None => default_port_spec(
                    match env.port {
                        Some(ref s) => Some(s@),
                        None => None,
                    },
                ),
            }),
            r.timeout_ms as int == (match cli.timeout_ms {
                Some(t) => t as int,
                None => default_timeout_spec(
                    match env.timeout_ms {
                        Some(ref s) => Some(s@),
                        None => None,
                    },
                ),
            }),
    {
        let host = match &cli.host {
            Some(h) => h.clone(),
            None => default_host(
                match &env.host {
                    Some(s) => Some(s.as_str()),
                    None => None,
                },
            ),
        };
        let port = match cli.port {
            Some(p) => p,
            None => default_port(
                match &env.port {
                    Some(s) => Some(s.as_str()),
                    None => None,
                },
            ),
        };
        let timeout_ms = match cli.timeout_ms {
            Some(t) => t,
            None => default_timeout_ms(
                match &env.timeout_ms {
                    Some(s) => Some(s.as_str()),
                    None => None,
                },
            ),
        };
        RuntimeConfig { host, port, timeout_ms }
    }
}

} // verus!

verus! {

/// Why a ports list was refused.
pub struct PortsError {
    pub token: String,
}

/// The trimmed, non-empty tokens of the comma-separated list.
pub open spec fn port_tokens(csv: Seq<char>) -> Seq<Seq<char>> {
    crate::text::nonempty_parts(
        crate::text::split_char(csv, ',').map_values(|p: Seq<char>| trim_spec(p)),
    )
}

/// Parsing the tokens left to right: the first bad token refuses the whole
/// list, and a port already collected is not repeated.
pub open spec fn ports_rec(tokens: Seq<Seq<char>>, acc: Seq<u16>) -> Result<Seq<u16>, Seq<char>>
    decreases tokens.len(),
{
    if tokens.len() == 0 {
        Ok(acc)
    } else {
        let t = tokens[0];
        if !(parses_as_u64(t) && dec_val(digits_of_int(t)) <= u16::MAX) {
            Err(t)
        } else {
            let p = dec_val(digits_of_int(t)) as u16;
            ports_rec(
                tokens.drop_first(),
                if acc.contains(p) {
                    acc
                } else {
                    acc.push(p)
                },
            )
        }
    }
}

pub open spec fn parse_ports_spec(raw: Option<Seq<char>>) -> Result<Seq<u16>, Seq<char>> {
    match raw {
        None => Ok(Seq::empty()),
        Some(csv) => ports_rec(port_tokens(csv), Seq::empty()),
    }
}

fn ports_contain(acc: &Vec<u16>, p: u16) -> (r: bool)
    ensures
        r == acc@.contains(p),
{
    let mut k: usize = 0;
    while k < acc.len()
        invariant
            k <= acc@.len(),
            forall|m: int| 0 <= m < k ==> acc@[m] != p,
        decreases acc@.len() - k,
    {
        if acc[k] == p {
            return true;
        }
        k = k + 1;
    }
    proof {
        if acc@.contains(p) {
            let w = choose|w: int| 0 <= w < acc@.len() && acc@[w] == p;
            assert(false);
        }
    }
    false
}

/// Parse the `--ports` list: comma-separated port numbers, trimmed, with
/// blanks dropped and duplicates collapsed in first-seen order.
#[verifier::loop_isolation(false)]
pub fn parse_ports(raw: &Option<String>) -> (r: Result<Vec<u16>, PortsError>)
    ensures
        match r {
            Ok(ports) => parse_ports_spec(
                match *raw {
                    Some(ref s) => Some(s@),
                    None => None,
                },
            ) == Ok::<Seq<u16>, Seq<char>>(ports@),
            Err(e) => parse_ports_spec(
                match *raw {
                    Some(ref s) => Some(s@),
                    None => None,
                },
            ) == Err::<Seq<u16>, Seq<char>>(e.token@),
        },
{
    let csv = match raw {
        Some(s) => s,
        None => {
            let empty: Vec<u16> = Vec::new();
            proof {
                assert(empty@ =~= Seq::<u16>::empty());
            }
            return Ok(empty);
        },
    };
    let cv = chars_of(csv.as_str());
    let parts = crate::text::split_by(cv.as_slice(), ',');
    let ghost parts_v = parts@.map_values(|p: Vec<char>| p@);
    let mut tokens: Vec<Vec<char>> = Vec::new();
    let mut i: usize = 0;
    proof {
        assert(tokens@.map_values(|p: Vec<char>| p@) =~= crate::text::nonempty_parts(
            parts_v.subrange(0, 0).map_values(|p: Seq<char>| trim_spec(p)),
        ));
    }
    while i < parts.len()
        invariant
            parts_v == parts@.map_values(|p: Vec<char>| p@),
            i <= parts@.len(),
            tokens@.map_values(|p: Vec<char>| p@) == crate::text::nonempty_parts(
                parts_v.subrange(0, i as int).map_values(|p: Seq<char>| trim_spec(p)),
            ),
        decreases parts@.len() - i,
    {
        let ghost pre = parts_v.subrange(0, i as int).map_values(|p: Seq<char>| trim_spec(p));
        let ghost post = parts_v.subrange(0, i as int + 1).map_values(
            |p: Seq<char>| trim_spec(p),
        );
        proof {
            assert(post.drop_last() =~= pre);
            assert(post.last() == trim_spec(parts_v[i as int]));
            assert(parts_v[i as int] == parts@[i as int]@);
        }
        let t = trim(parts[i].as_slice());
        if t.len() > 0 {
            let ghost tv = t@;
            let ghost tpre = tokens@.map_values(|p: Vec<char>| p@);
            tokens.push(t);
            proof {
                assert(tokens@.map_values(|p: Vec<char>| p@) =~= tpre.push(tv));
            }
        }
        i = i + 1;
    }
    proof {
        assert(parts_v.subrange(0, parts_v.len() as int) =~= parts_v);
    }
    let ghost toks = tokens@.map_values(|p: Vec<char>| p@);
    let mut acc: Vec<u16> = Vec::new();
    let mut k: usize = 0;
    proof {
        assert(toks.skip(0) =~= toks);
        assert(acc@ =~= Seq::<u16>::empty());
    }
    while k < tokens.len()
        invariant
            toks == tokens@.map_values(|p: Vec<char>| p@),
            k <= tokens@.len(),
            ports_rec(toks.skip(k as int), acc@) == ports_rec(toks, Seq::empty()),
        decreases tokens@.len() - k,
    {
        proof {
            assert(toks.skip(k as int)[0] == toks[k as int]);
            assert(toks[k as int] == tokens@[k as int]@);
            assert(toks.skip(k as int).drop_first() =~= toks.skip(k as int + 1));
        }
        match parse_u16_chars(tokens[k].as_slice()) {
            None => {
                return Err(PortsError { token: string_of(tokens[k].as_slice()) });
            },
            Some(p) => {
                if !ports_contain(&acc, p) {
                    acc.push(p);
                }
            },
        }
        k = k + 1;
    }
    proof {
        assert(toks.skip(tokens@.len() as int).len() == 0);
    }
    Ok(acc)
}

/// The reason text for a refused ports list.
pub open spec fn ports_error_text(token: Seq<char>) -> Seq<char> {
    "Invalid port in --ports: "@ + token
}

pub fn ports_error_message(e: &PortsError) -> (r: String)
    ensures
        r@ == ports_error_text(e.token@),
{
    let mut out = chars_of("Invalid port in --ports: ");
    let tv = chars_of(e.token.as_str());
    push_all(&mut out, tv.as_slice());
    string_of(out.as_slice())
}

} // verus!
