//! The remote editor wire protocol: length-prefixed frames (4-byte
//! big-endian signed length, then a JSON body), the resynchronizing fallback
//! for unframed responses, and the normalization of response shapes into one
//! success-or-failure outcome.

use vstd::prelude::*;

use crate::text::{chars_of, lower_seq, push_all, string_of, to_lower_vec, chars_eq};

verus! {

/// The largest frame the protocol accepts, 10 MiB.
pub const MAX_FRAME_BYTES: usize = 10485760;

/// The big-endian 32-bit value of four bytes.
pub open spec fn be_u32_val(b0: u8, b1: u8, b2: u8, b3: u8) -> int {
    (b0 as int) * 16777216 + (b1 as int) * 65536 + (b2 as int) * 256 + (b3 as int)
}

/// A response header is a frame exactly when, read as a big-endian signed
/// length, it falls in `(0, 10 MiB]`; negative lengths read as values at or
/// above `2^31`, which the bound excludes.
pub open spec fn framed_len(b0: u8, b1: u8, b2: u8, b3: u8) -> Option<int> {
    let v = be_u32_val(b0, b1, b2, b3);
    if 1 <= v && v <= MAX_FRAME_BYTES as int {
        Some(v)
    } else {
        None
    }
}

/// Decide whether four header bytes announce a framed payload, and its
/// length.
pub fn frame_header_len(b0: u8, b1: u8, b2: u8, b3: u8) -> (r: Option<usize>)
    ensures
        match r {
            Some(n) => framed_len(b0, b1, b2, b3) == Some(n as int),
            None => framed_len(b0, b1, b2, b3) == None::<int>,
        },
{
    let v: u32 = (b0 as u32) * 16777216 + (b1 as u32) * 65536 + (b2 as u32) * 256 + (b3 as u32);
    if 1 <= v && v <= 10485760 {
        Some(v as usize)
    } else {
        None
    }
}

/// The frame built for a payload: its length in four big-endian bytes,
/// then the payload itself.
pub open spec fn encoded_frame(payload: Seq<u8>) -> Seq<u8> {
    seq![
        (payload.len() as int / 16777216) as u8,
        ((payload.len() as int / 65536) % 256) as u8,
        ((payload.len() as int / 256) % 256) as u8,
        (payload.len() as int % 256) as u8,
    ] + payload
}

/// Frame a request payload; a payload that does not fit a signed 32-bit
/// length is refused.
pub fn encode_frame(payload: &Vec<u8>) -> (r: Option<Vec<u8>>)
    ensures
        match r {
            Some(v) => payload@.len() <= 0x7fffffff && v@ == encoded_frame(payload@),
            None => payload@.len() > 0x7fffffff,
        },
{
    let n = payload.len();
    if n > 0x7fffffff {
        return None;
    }
    let l = n as u32;
    let b0: u8 = (l / 16777216) as u8;
    let b1: u8 = ((l / 65536) % 256) as u8;
    let b2: u8 = ((l / 256) % 256) as u8;
    let b3: u8 = (l % 256) as u8;
    let mut out: Vec<u8> = Vec::new();
    out.push(b0);
    out.push(b1);
    out.push(b2);
    out.push(b3);
    let mut i: usize = 0;
    while i < n
        invariant
            n == payload@.len(),
            i <= n,
            out@ == seq![b0, b1, b2, b3] + payload@.subrange(0, i as int),
        decreases n - i,
    {
        out.push(payload[i]);
        i = i + 1;
        proof {
            assert(out@ =~= seq![b0, b1, b2, b3] + payload@.subrange(0, i as int));
        }
    }
    proof {
        assert(payload@.subrange(0, n as int) =~= payload@);
        assert(out@ =~= encoded_frame(payload@));
    }
    Some(out)
}

/// The length prefix reads back as the payload's length: decoding what
/// `encode_frame` wrote yields a frame of exactly that length.
pub proof fn lemma_frame_round_trip(payload: Seq<u8>)
    requires
        1 <= payload.len() <= MAX_FRAME_BYTES,
    ensures
        ({
            let f = encoded_frame(payload);
            framed_len(f[0], f[1], f[2], f[3]) == Some(payload.len() as int) && f.skip(4)
                =~= payload
        }),
{
    let n = payload.len() as int;
    let f = encoded_frame(payload);
    assert(f[0] == (n / 16777216) as u8);
    assert(f[1] == ((n / 65536) % 256) as u8);
    assert(f[2] == ((n / 256) % 256) as u8);
    assert(f[3] == (n % 256) as u8);
    assert(f.skip(4) =~= payload);
    assert(be_u32_val(f[0], f[1], f[2], f[3]) == n) by (nonlinear_arith)
        requires
            1 <= n <= 0x7fffffff,
            f[0] == (n / 16777216) as u8,
            f[1] == ((n / 65536) % 256) as u8,
            f[2] == ((n / 256) % 256) as u8,
            f[3] == (n % 256) as u8,
    ;
}

/// How the remote response is to be treated, once its envelope fields are
/// known.
pub enum RemoteOutcome {
    /// The call failed; the message carries the reported error and code.
    Failure { message: String },
    /// Take the `result` field as the value.
    TakeResult,
    /// Take the `data` field as the value.
    TakeData,
    /// Return the whole response object.
    Whole,
}

#[verifier::ext_equal]
pub enum RemoteOutcomeV {
    Failure { message: Seq<char> },
    TakeResult,
    TakeData,
    Whole,
}

impl View for RemoteOutcome {
    type V = RemoteOutcomeV;

    open spec fn view(&self) -> RemoteOutcomeV {
        match self {
            RemoteOutcome::Failure { message } => RemoteOutcomeV::Failure { message: message@ },
            RemoteOutcome::TakeResult => RemoteOutcomeV::TakeResult,
            RemoteOutcome::TakeData => RemoteOutcomeV::TakeData,
            RemoteOutcome::Whole => RemoteOutcomeV::Whole,
        }
    }
}

/// The failure text: the reported error, then the code in parentheses.
pub open spec fn failure_text(msg: Seq<char>, code: Seq<char>) -> Seq<char> {
    msg + " (code: "@ + code + ")"@
}

/// The normalization rule over a response's envelope fields: an `error`
/// field or `status == "error"` fails the call with the message and the
/// code (`UNKNOWN_ERROR` when absent); `success == false` fails it too;
/// otherwise the `result` field is preferred, then `data`, then the whole
/// object.
pub open spec fn normalize_spec(
    status: Option<Seq<char>>,
    success: Option<bool>,
    error: Option<Seq<char>>,
    code: Option<Seq<char>>,
    has_result: bool,
    has_data: bool,
) -> RemoteOutcomeV {
    let status_error = match status {
        Some(s) => lower_seq(s) == "error"@,
        None => false,
    };
    let emsg = match error {
        Some(e) => Some(e),
        None => if status_error {
            Some("Unity command returned status=error"@)
        } else {
            None
        },
    };
    let codev = match code {
        Some(c) => c,
        None => "UNKNOWN_ERROR"@,
    };
    match emsg {
        Some(msg) => RemoteOutcomeV::Failure { message: failure_text(msg, codev) },
        None => if success == Some(false) {
            RemoteOutcomeV::Failure { message: failure_text("Unity command failed"@, codev) }
        } else if has_result {
            RemoteOutcomeV::TakeResult
        } else if has_data {
            RemoteOutcomeV::TakeData
        } else {
            RemoteOutcomeV::Whole
        },
    }
}

fn build_failure(msg: &[char], code: &Option<String>) -> (r: String)
    ensures
        r@ == failure_text(msg@, match *code {
            Some(ref c) => c@,
            None => "UNKNOWN_ERROR"@,
        }),
{
    let mut out = slice_to_vec(msg);
    let mid = chars_of(" (code: ");
    push_all(&mut out, mid.as_slice());
    match code {
        Some(c) => {
            let cv = chars_of(c.as_str());
            push_all(&mut out, cv.as_slice());
        },
        None => {
            let cv = chars_of("UNKNOWN_ERROR");
            push_all(&mut out, cv.as_slice());
        },
    }
    let tail = chars_of(")");
    push_all(&mut out, tail.as_slice());
    string_of(out.as_slice())
}

fn slice_to_vec(v: &[char]) -> (out: Vec<char>)
    ensures
        out@ == v@,
{
    let r = crate::text::slice_range(v, 0, v.len());
    proof {
        assert(r@ =~= v@);
    }
    r
}

/// Normalize a response's envelope into one outcome.
pub fn normalize_envelope(
    status: &Option<String>,
    success: Option<bool>,
    error: &Option<String>,
    code: &Option<String>,
    has_result: bool,
    has_data: bool,
) -> (r: RemoteOutcome)
    ensures
        r@ == normalize_spec(
            match *status {
                Some(ref s) => Some(s@),
                None => None,
            },
            success,
            match *error {
                Some(ref e) => Some(e@),
                None => None,
            },
            match *code {
                Some(ref c) => Some(c@),
                None => None,
            },
            has_result,
            has_data,
        ),
{
    let status_error = match status {
        Some(s) => {
            let lowered = to_lower_vec(chars_of(s.as_str()).as_slice());
            chars_eq(lowered.as_slice(), chars_of("error").as_slice())
        },
        None => false,
    };
    proof {
        reveal_strlit("error");
        assert(lower_seq("error"@) =~= "error"@);
    }
    let emsg: Option<Vec<char>> = match error {
        Some(e) => Some(chars_of(e.as_str())),
        None => if status_error {
            Some(chars_of("Unity command returned status=error"))
        } else {
            None
        },
    };
    match emsg {
        Some(msg) => RemoteOutcome::Failure { message: build_failure(msg.as_slice(), code) },
        None => {
            if success == Some(false) {
                let msg = chars_of("Unity command failed");
                RemoteOutcome::Failure { message: build_failure(msg.as_slice(), code) }
            } else if has_result {
                RemoteOutcome::TakeResult
            } else if has_data {
                RemoteOutcome::TakeData
            } else {
                RemoteOutcome::Whole
            }
        },
    }
}

/// What the unframed fallback does after one pump round: deliver a parsed
/// value, keep reading, refuse an oversized buffer, or give up after the
/// bounded number of rounds with one final parse attempt.
pub enum PumpStep {
    Deliver,
    ReadMore,
    TooLarge,
    FinalParse,
}

#[verifier::ext_equal]
#[derive(PartialEq, Eq, Structural, Clone, Copy, Debug)]
pub enum PumpStepV {
    Deliver,
    ReadMore,
    TooLarge,
    FinalParse,
}

impl View for PumpStep {
    type V = PumpStepV;

    open spec fn view(&self) -> PumpStepV {
        match self {
            PumpStep::Deliver => PumpStepV::Deliver,
            PumpStep::ReadMore => PumpStepV::ReadMore,
            PumpStep::TooLarge => PumpStepV::TooLarge,
            PumpStep::FinalParse => PumpStepV::FinalParse,
        }
    }
}

/// The fallback pump's policy for one round: a buffer that parses is
/// delivered; one over the frame ceiling is refused; twenty rounds exhaust
/// the retries, after which one final parse is attempted.
pub open spec fn pump_step_spec(round: u64, parse_ok: bool, buffer_len: int) -> PumpStepV {
    if round >= 20 {
        PumpStepV::FinalParse
    } else if parse_ok {
        PumpStepV::Deliver
    } else if buffer_len > MAX_FRAME_BYTES as int {
        PumpStepV::TooLarge
    } else {
        PumpStepV::ReadMore
    }
}

pub fn pump_step(round: u64, parse_ok: bool, buffer_len: usize) -> (r: PumpStep)
    ensures
        r@ == pump_step_spec(round, parse_ok, buffer_len as int),
{
    if round >= 20 {
        PumpStep::FinalParse
    } else if parse_ok {
        PumpStep::Deliver
    } else if buffer_len > MAX_FRAME_BYTES {
        PumpStep::TooLarge
    } else {
        PumpStep::ReadMore
    }
}

} // verus!
