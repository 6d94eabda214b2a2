//! The editor-instance registry's rules: instance ids, merging probed
//! ports into the known entries, liveness statuses, and the switch of the
//! active instance. Reading, probing and persisting the registry happen at
//! the process edge.

use vstd::prelude::*;

use crate::text::{
    chars_eq, chars_of, dec_repr, dec_val, digits_of_int, find_first, first_occ, lex_le,
    parse_u16_chars, parses_as_u64, push_all, slice_range, string_of, trim, trim_spec,
    u64_to_dec_chars,
};

verus! {

/// One known editor endpoint.
pub struct InstanceRecord {
    pub id: String,
    pub host: String,
    pub port: u16,
}

#[verifier::ext_equal]
pub struct InstanceRecordV {
    pub id: Seq<char>,
    pub host: Seq<char>,
    pub port: u16,
}

impl View for InstanceRecord {
    type V = InstanceRecordV;

    open spec fn view(&self) -> InstanceRecordV {
        InstanceRecordV { id: self.id@, host: self.host@, port: self.port }
    }
}

/// The registry: the known endpoints and which one is active.
pub struct Registry {
    pub active_id: Option<String>,
    pub entries: Vec<InstanceRecord>,
}

/// One probed endpoint's report.
pub struct InstanceStatus {
    pub id: String,
    pub host: String,
    pub port: u16,
    pub status: String,
    pub last_checked_at: String,
    pub active: bool,
}

/// What switching the active instance reports.
pub struct SetActiveResult {
    pub active_id: String,
    pub previous_id: Option<String>,
}

/// Why an instance id was refused.
#[derive(Clone, Copy, PartialEq, Eq, Structural, Debug)]
pub enum IdError {
    /// No `:` separates host and port.
    MissingSeparator,
    /// The port is not a valid number.
    InvalidPort,
    /// The host part is blank.
    EmptyHost,
}

/// An id splits at its first `:` into a non-blank host and a port number.
pub open spec fn parse_id_spec(id: Seq<char>) -> Result<(Seq<char>, int), IdError> {
    match first_occ(id, seq![':']) {
        None => Err(IdError::MissingSeparator),
        Some(i) => {
            let host = id.subrange(0, i);
            let port_str = id.skip(i + 1);
            if !(parses_as_u64(port_str) && dec_val(digits_of_int(port_str)) <= u16::MAX) {
                Err(IdError::InvalidPort)
            } else if trim_spec(host).len() == 0 {
                Err(IdError::EmptyHost)
            } else {
                Ok((host, dec_val(digits_of_int(port_str)) as int))
            }
        },
    }
}

/// Parse an instance id of the shape `host:port`.
pub fn parse_id(id: &str) -> (r: Result<(String, u16), IdError>)
    ensures
        match r {
            Ok(hp) => parse_id_spec(id@) == Ok::<(Seq<char>, int), IdError>(
                (hp.0@, hp.1 as int),
            ),
            Err(e) => parse_id_spec(id@) == Err::<(Seq<char>, int), IdError>(e),
        },
{
    let v = chars_of(id);
    let colon = chars_of(":");
    proof {
        reveal_strlit(":");
        assert(colon@ =~= seq![':']);
    }
    match find_first(v.as_slice(), colon.as_slice()) {
        None => Err(IdError::MissingSeparator),
        Some(i) => {
            let vlen = v.len();
            proof {
                crate::text::lemma_first_occ(v@, seq![':']);
                assert(i + 1 <= vlen);
            }
            let host = slice_range(v.as_slice(), 0, i);
            let port_str = slice_range(v.as_slice(), i + 1, vlen);
            proof {
                assert(port_str@ =~= id@.skip(i + 1));
            }
            match parse_u16_chars(port_str.as_slice()) {
                None => Err(IdError::InvalidPort),
                Some(port) => {
                    let t = trim(host.as_slice());
                    if t.len() == 0 {
                        Err(IdError::EmptyHost)
                    } else {
                        Ok((string_of(host.as_slice()), port))
                    }
                },
            }
        },
    }
}

/// The reason text for a refused instance id.
pub open spec fn id_error_text(e: IdError, id: Seq<char>) -> Seq<char> {
    match e {
        IdError::MissingSeparator => "Invalid instance id: "@ + id + ". Expected host:port"@,
        IdError::InvalidPort => "Invalid port in instance id: "@ + id,
        IdError::EmptyHost => "Invalid host in instance id: "@ + id,
    }
}

pub fn id_error_message(e: IdError, id: &str) -> (r: String)
    ensures
        r@ == id_error_text(e, id@),
{
    let idv = chars_of(id);
    match e {
        IdError::MissingSeparator => {
            let mut out = chars_of("Invalid instance id: ");
            push_all(&mut out, idv.as_slice());
            let tail = chars_of(". Expected host:port");
            push_all(&mut out, tail.as_slice());
            string_of(out.as_slice())
        },
        IdError::InvalidPort => {
            let mut out = chars_of("Invalid port in instance id: ");
            push_all(&mut out, idv.as_slice());
            string_of(out.as_slice())
        },
        IdError::EmptyHost => {
            let mut out = chars_of("Invalid host in instance id: ");
            push_all(&mut out, idv.as_slice());
            string_of(out.as_slice())
        },
    }
}

/// The id written for a host and port.
pub open spec fn id_text(host: Seq<char>, port: u16) -> Seq<char> {
    host + seq![':'] + dec_repr(port as nat)
}

pub fn make_id(host: &str, port: u16) -> (r: String)
    ensures
        r@ == id_text(host@, port),
{
    let mut out = chars_of(host);
    out.push(':');
    let digits = u64_to_dec_chars(port as u64);
    push_all(&mut out, digits.as_slice());
    proof {
        assert(out@ =~= id_text(host@, port));
    }
    string_of(out.as_slice())
}

pub open spec fn has_entry_id(entries: Seq<InstanceRecordV>, id: Seq<char>) -> bool {
    exists|k: int| 0 <= k < entries.len() && (#[trigger] entries[k]).id == id
}

fn contains_id(entries: &Vec<InstanceRecord>, id: &str) -> (r: bool)
    ensures
        r == has_entry_id(entries@.map_values(|e: InstanceRecord| e@), id@),
{
    let ghost ev = entries@.map_values(|e: InstanceRecord| e@);
    let idv = chars_of(id);
    let mut k: usize = 0;
    while k < entries.len()
        invariant
            ev == entries@.map_values(|e: InstanceRecord| e@),
            idv@ == id@,
            k <= entries@.len(),
            forall|m: int| 0 <= m < k ==> (#[trigger] ev[m]).id != id@,
        decreases entries@.len() - k,
    {
        proof {
            assert(ev[k as int].id == entries@[k as int].id@);
        }
        if chars_eq(chars_of(entries[k].id.as_str()).as_slice(), idv.as_slice()) {
            return true;
        }
        k = k + 1;
    }
    proof {
        if has_entry_id(ev, id@) {
            let w = choose|w: int| 0 <= w < ev.len() && ev[w].id == id@;
            assert(false);
        }
    }
    false
}

/// The entries after merging probed ports: each `host:port` id not yet
/// present is appended, and an empty registry gets the default endpoint at
/// port 6400.
pub open spec fn merged_entries(
    entries: Seq<InstanceRecordV>,
    host: Seq<char>,
    ports: Seq<u16>,
) -> Seq<InstanceRecordV>
    decreases ports.len(),
{
    if ports.len() == 0 {
        if entries.len() == 0 {
            seq![
                InstanceRecordV { id: id_text(host, 6400), host: host, port: 6400 },
            ]
        } else {
            entries
        }
    } else {
        let base = if has_entry_id(entries, id_text(host, ports[0])) {
            entries
        } else {
            entries.push(
                InstanceRecordV {
                    id: id_text(host, ports[0]),
                    host: host,
                    port: ports[0],
                },
            )
        };
        merged_entries(base, host, ports.drop_first())
    }
}

/// Merge the probed ports into the registry's entries.
#[verifier::loop_isolation(false)]
pub fn merge_instance_ports(entries: Vec<InstanceRecord>, host: &str, ports: &Vec<u16>) -> (out:
    Vec<InstanceRecord>)
    ensures
        out@.map_values(|e: InstanceRecord| e@) == merged_entries(
            entries@.map_values(|e: InstanceRecord| e@),
            host@,
            ports@,
        ),
{
    let mut cur = entries;
    let mut i: usize = 0;
    let n = ports.len();
    proof {
        assert(ports@.skip(0) =~= ports@);
    }
    while i < n
        invariant
            n == ports@.len(),
            i <= n,
            merged_entries(
                cur@.map_values(|e: InstanceRecord| e@),
                host@,
                ports@.skip(i as int),
            ) == merged_entries(entries@.map_values(|e: InstanceRecord| e@), host@, ports@),
        decreases n - i,
    {
        proof {
            assert(ports@.skip(i as int)[0] == ports@[i as int]);
            assert(ports@.skip(i as int).drop_first() =~= ports@.skip(i as int + 1));
        }
        let id = make_id(host, ports[i]);
        if !contains_id(&cur, id.as_str()) {
            let ghost pre = cur@.map_values(|e: InstanceRecord| e@);
            let host_copy = string_of(chars_of(host).as_slice());
            cur.push(InstanceRecord { id, host: host_copy, port: ports[i] });
            proof {
                assert(cur@.map_values(|e: InstanceRecord| e@) =~= pre.push(
                    InstanceRecordV {
                        id: id_text(host@, ports@[i as int]),
                        host: host@,
                        port: ports@[i as int],
                    },
                ));
            }
        }
        i = i + 1;
    }
    proof {
        assert(ports@.skip(n as int) =~= Seq::<u16>::empty());
    }
    if cur.len() == 0 {
        let id = make_id(host, 6400);
        let host_copy = string_of(chars_of(host).as_slice());
        let ghost pre = cur@.map_values(|e: InstanceRecord| e@);
        cur.push(InstanceRecord { id, host: host_copy, port: 6400 });
        proof {
            assert(cur@.map_values(|e: InstanceRecord| e@) =~= pre.push(
                InstanceRecordV { id: id_text(host@, 6400), host: host@, port: 6400 },
            ));
        }
    }
    cur
}

/// Entries ordered by id, appending after equal ids, as a stable sort
/// leaves them.
pub open spec fn insert_record(
    entries: Seq<InstanceRecordV>,
    e: InstanceRecordV,
) -> Seq<InstanceRecordV>
    decreases entries.len(),
{
    if entries.len() == 0 {
        seq![e]
    } else if lex_le(entries[0].id, e.id) {
        seq![entries[0]] + insert_record(entries.drop_first(), e)
    } else {
        seq![e] + entries
    }
}

pub open spec fn sorted_records(entries: Seq<InstanceRecordV>) -> Seq<InstanceRecordV>
    decreases entries.len(),
{
    if entries.len() == 0 {
        Seq::empty()
    } else {
        insert_record(sorted_records(entries.drop_last()), entries.last())
    }
}

proof fn lemma_insert_record_split(entries: Seq<InstanceRecordV>, e: InstanceRecordV, i: int)
    requires
        0 <= i <= entries.len(),
        forall|k: int| 0 <= k < i ==> lex_le((#[trigger] entries[k]).id, e.id),
    ensures
        insert_record(entries, e) == entries.subrange(0, i) + insert_record(
            entries.skip(i),
            e,
        ),
    decreases i,
{
    if i == 0 {
        assert(entries.skip(0) =~= entries);
        assert(entries.subrange(0, 0) + insert_record(entries, e) =~= insert_record(entries, e));
    } else {
        assert(lex_le(entries[0].id, e.id));
        lemma_insert_record_split(entries.drop_first(), e, i - 1);
        assert(entries.drop_first().subrange(0, i - 1) =~= entries.subrange(1, i));
        assert(entries.drop_first().skip(i - 1) =~= entries.skip(i));
        assert(seq![entries[0]] + (entries.subrange(1, i) + insert_record(entries.skip(i), e))
            =~= entries.subrange(0, i) + insert_record(entries.skip(i), e));
    }
}

fn record_insert_pos(out: &Vec<InstanceRecord>, id: &[char]) -> (j: usize)
    ensures
        j <= out@.len(),
        forall|k: int| 0 <= k < j ==> lex_le((#[trigger] out@[k]).id@, id@),
        j < out@.len() ==> !lex_le(out@[j as int].id@, id@),
{
    let m = out.len();
    let mut j: usize = 0;
    while j < m
        invariant
            m == out@.len(),
            j <= m,
            forall|k: int| 0 <= k < j ==> lex_le((#[trigger] out@[k]).id@, id@),
        decreases m - j,
    {
        let kv = chars_of(out[j].id.as_str());
        if !(crate::text::chars_lt(kv.as_slice(), id) || chars_eq(kv.as_slice(), id)) {
            return j;
        }
        j = j + 1;
    }
    j
}

/// Sort the entries by id, keeping the order of equal ids.
#[verifier::loop_isolation(false)]
pub fn sort_records(entries: Vec<InstanceRecord>) -> (out: Vec<InstanceRecord>)
    ensures
        out@.map_values(|e: InstanceRecord| e@) == sorted_records(
            entries@.map_values(|e: InstanceRecord| e@),
        ),
{
    let ghost ev = entries@.map_values(|e: InstanceRecord| e@);
    let mut src = entries;
    let mut out: Vec<InstanceRecord> = Vec::new();
    let mut i: usize = 0;
    let n = src.len();
    proof {
        assert(out@.map_values(|e: InstanceRecord| e@) =~= sorted_records(ev.subrange(0, 0)));
    }
    while i < n
        invariant
            n == src@.len(),
            ev == src@.map_values(|e: InstanceRecord| e@),
            i <= n,
            out@.map_values(|e: InstanceRecord| e@) == sorted_records(ev.subrange(0, i as int)),
        decreases n - i,
    {
        let ghost pre = ev.subrange(0, i as int);
        let ghost post = ev.subrange(0, i as int + 1);
        proof {
            assert(post.drop_last() =~= pre);
            assert(post.last() == ev[i as int]);
            assert(ev[i as int] == src@[i as int]@);
        }
        let e = InstanceRecord {
            id: src[i].id.clone(),
            host: src[i].host.clone(),
            port: src[i].port,
        };
        let idv = chars_of(e.id.as_str());
        let ghost cur = out@.map_values(|e2: InstanceRecord| e2@);
        let j = record_insert_pos(&out, idv.as_slice());
        proof {
            assert(forall|k: int| 0 <= k < cur.len() ==> (#[trigger] cur[k]).id == out@[k].id@);
            lemma_insert_record_split(cur, ev[i as int], j as int);
        }
        let ghost evi = ev[i as int];
        out.insert(j, e);
        proof {
            assert(out@.map_values(|e2: InstanceRecord| e2@) =~= cur.subrange(0, j as int) + (
            seq![evi] + cur.skip(j as int)));
            if j < cur.len() {
                assert(insert_record(cur.skip(j as int), evi) =~= seq![evi] + cur.skip(j as int))
                    by {
                    assert(cur.skip(j as int)[0] == cur[j as int]);
                }
            } else {
                assert(cur.skip(j as int).len() == 0);
                assert(insert_record(cur.skip(j as int), evi) =~= seq![evi]);
            }
            assert(out@.map_values(|e2: InstanceRecord| e2@) =~= insert_record(cur, evi));
        }
        i = i + 1;
    }
    proof {
        assert(ev.subrange(0, n as int) =~= ev);
    }
    out
}

/// The statuses reported for the probed entries: `up` or `down` per the
/// probe, the shared check time, and the active marker.
#[verifier::loop_isolation(false)]
pub fn statuses_for(
    entries: &Vec<InstanceRecord>,
    reachable: &Vec<bool>,
    checked_at: &str,
    active_id: &Option<String>,
) -> (out: Vec<InstanceStatus>)
    requires
        entries@.len() == reachable@.len(),
    ensures
        out@.len() == entries@.len(),
        forall|k: int|
            0 <= k < out@.len() ==> {
                let o = #[trigger] out@[k];
                o.id@ == entries@[k].id@ && o.host@ == entries@[k].host@ && o.port == entries@[
                    k
                ].port && o.status@ == (if reachable@[k] {
                    "up"@
                } else {
                    "down"@
                }) && o.last_checked_at@ == checked_at@ && o.active == (match *active_id {
                    Some(ref a) => a@ == entries@[k].id@,
                    None => false,
                })
            },
{
    let mut out: Vec<InstanceStatus> = Vec::new();
    let mut k: usize = 0;
    let n = entries.len();
    while k < n
        invariant
            n == entries@.len(),
            reachable@.len() == n,
            k <= n,
            out@.len() == k,
            forall|m: int|
                0 <= m < k ==> {
                    let o = #[trigger] out@[m];
                    o.id@ == entries@[m].id@ && o.host@ == entries@[m].host@ && o.port
                        == entries@[m].port && o.status@ == (if reachable@[m] {
                        "up"@
                    } else {
                        "down"@
                    }) && o.last_checked_at@ == checked_at@ && o.active == (match *active_id {
                        Some(ref a) => a@ == entries@[m].id@,
                        None => false,
                    })
                },
        decreases n - k,
    {
        let e = &entries[k];
        let status = if reachable[k] {
            string_of(chars_of("up").as_slice())
        } else {
            string_of(chars_of("down").as_slice())
        };
        let active = match active_id {
            Some(a) => chars_eq(
                chars_of(a.as_str()).as_slice(),
                chars_of(e.id.as_str()).as_slice(),
            ),
            None => false,
        };
        out.push(
            InstanceStatus {
                id: e.id.clone(),
                host: e.host.clone(),
                port: e.port,
                status,
                last_checked_at: string_of(chars_of(checked_at).as_slice()),
                active,
            },
        );
        k = k + 1;
    }
    out
}

/// Why switching the active instance was refused.
pub enum ActivateError {
    /// The instance did not answer the probe.
    Unreachable,
}

/// Make sure the registry holds an entry for `id`: a registry that already
/// has one is returned unchanged; otherwise the id is parsed and its record
/// appended. A refused id leaves nothing changed.
pub fn ensure_instance(registry: Registry, id: &str) -> (r: Result<Registry, IdError>)
    ensures
        match r {
            Ok(reg) => {
                &&& has_entry_id(reg.entries@.map_values(|e: InstanceRecord| e@), id@)
                &&& reg.active_id == registry.active_id
                &&& if has_entry_id(registry.entries@.map_values(|e: InstanceRecord| e@), id@) {
                    reg.entries@.map_values(|e: InstanceRecord| e@)
                        == registry.entries@.map_values(|e: InstanceRecord| e@)
                } else {
                    match parse_id_spec(id@) {
                        Ok(hp) => reg.entries@.map_values(|e: InstanceRecord| e@)
                            == registry.entries@.map_values(|e: InstanceRecord| e@).push(
                            InstanceRecordV { id: id@, host: hp.0, port: (hp.1 as u16) },
                        ),
                        Err(_) => false,
                    }
                }
            },
            Err(e) => parse_id_spec(id@) == Err::<(Seq<char>, int), IdError>(e)
                && !has_entry_id(registry.entries@.map_values(|e: InstanceRecord| e@), id@),
        },
{
    let mut reg = registry;
    if contains_id(&reg.entries, id) {
        return Ok(reg);
    }
    match parse_id(id) {
        Err(e) => Err(e),
        Ok(hp) => {
            let ghost pre = reg.entries@.map_values(|e: InstanceRecord| e@);
            let idc = string_of(chars_of(id).as_slice());
            let ghost idv = idc@;
            let ghost port = hp.1;
            reg.entries.push(InstanceRecord { id: idc, host: hp.0, port: hp.1 });
            proof {
                let ev = reg.entries@.map_values(|e: InstanceRecord| e@);
                assert(ev[ev.len() - 1].id == idv);
                assert(ev =~= pre.push(
                    InstanceRecordV {
                        id: id@,
                        host: ev[ev.len() - 1].host,
                        port: port,
                    },
                ));
            }
            Ok(reg)
        },
    }
}

/// Record the new active instance; the target must have answered the
/// probe. The entries are left untouched.
pub fn activate_instance(registry: Registry, id: &str, reachable: bool) -> (r: Result<
    (Registry, SetActiveResult),
    ActivateError,
>)
    ensures
        match r {
            Ok(p) => reachable && (match p.0.active_id {
                Some(ref a) => a@ == id@,
                None => false,
            }) && p.0.entries@.map_values(|e: InstanceRecord| e@)
                == registry.entries@.map_values(|e: InstanceRecord| e@) && p.1.active_id@ == id@
                && (match (p.1.previous_id, registry.active_id) {
                (Some(ref prev), Some(ref old)) => prev@ == old@,
                (None, None) => true,
                _ => false,
            }),
            Err(e) => !reachable && e == ActivateError::Unreachable,
        },
{
    if !reachable {
        return Err(ActivateError::Unreachable);
    }
    let mut reg = registry;
    let previous_id = reg.active_id;
    let idc = string_of(chars_of(id).as_slice());
    reg.active_id = Some(string_of(chars_of(id).as_slice()));
    let prev_copy = match &previous_id {
        Some(p) => Some(p.clone()),
        None => None,
    };
    Ok((reg, SetActiveResult { active_id: idc, previous_id: prev_copy }))
}

} // verus!
