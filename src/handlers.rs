//! What each HTTP endpoint answers, decided from plain values: the local
//! render, and what the upstream exporter sent back, if anything.
use vstd::prelude::*;
use vstd::string::*;

verus! {

/// Size of the throughput-probe payload, in bytes.
pub const SPEEDTEST_BYTES: usize = 512 * 1024;

/// What a request to the upstream exporter gave.
pub enum UpstreamFetch {
    /// The request could not be sent or no response came.
    SendFailed,
    /// A response came with this status; its body, where it could be read.
    Responded { status: u16, body: Option<Vec<u8>> },
}

/// An endpoint's answer.
pub enum Reply {
    /// 200 with this body.
    Success(Vec<u8>),
    /// 404 with an empty body.
    NotFound,
    /// 500 with this diagnostic text.
    InternalError(String),
}

pub open spec fn fetch_failed_text() -> Seq<char> {
    "Failed to get upstream data"@
}

pub open spec fn upstream_error_text() -> Seq<char> {
    "Failed to fetch upstream data"@
}

pub open spec fn body_failed_text() -> Seq<char> {
    "Failed to parse upstream data"@
}

/// Whether an HTTP status is of the server-error class.
pub open spec fn is_server_error(status: u16) -> bool {
    500 <= status < 600
}

/// What `/metrics` answers, given the local render and, in upstream mode,
/// the upstream fetch: the local body alone without upstream; a fixed
/// diagnostic when the fetch failed, when upstream answered a server
/// error (a diagnostic of its own), or when its body could not be read;
/// otherwise the upstream body followed by the local one.
pub open spec fn metrics_reply_spec(upstream: Option<UpstreamFetch>, local: Seq<u8>) -> (Option<Seq<u8>>, Seq<char>) {
    match upstream {
        None => (Some(local), Seq::empty()),
        Some(UpstreamFetch::SendFailed) => (None, fetch_failed_text()),
        Some(UpstreamFetch::Responded { status, body }) => if is_server_error(status) {
            (None, upstream_error_text())
        } else {
            match body {
                None => (None, body_failed_text()),
                Some(b) => (Some(b@ + local), Seq::empty()),
            }
        },
    }
}

/// The body of a reply, or the diagnostic of a 500; a 404 has neither.
pub open spec fn reply_view(r: Reply) -> (Option<Seq<u8>>, Seq<char>) {
    match r {
        Reply::Success(b) => (Some(b@), Seq::empty()),
        Reply::NotFound => (None, Seq::empty()),
        Reply::InternalError(m) => (None, m@),
    }
}

/// Answers `/metrics`, as `metrics_reply_spec` describes; it never answers 404.
pub fn metrics_reply(upstream: Option<UpstreamFetch>, local: Vec<u8>) -> (r: Reply)
    ensures
        reply_view(r) == metrics_reply_spec(upstream, local@),
        !(r is NotFound),
        r is InternalError <==> metrics_reply_spec(upstream, local@).0 is None,
{
    match upstream {
        None => Reply::Success(local),
        Some(UpstreamFetch::SendFailed) => Reply::InternalError(String::from_str("Failed to get upstream data")),
        Some(UpstreamFetch::Responded { status, body }) => {
            if 500 <= status && status < 600 {
                Reply::InternalError(String::from_str("Failed to fetch upstream data"))
            } else {
                match body {
                    None => Reply::InternalError(String::from_str("Failed to parse upstream data")),
                    Some(b) => {
                        let mut out = b;
                        let mut rest = local;
                        out.append(&mut rest);
                        Reply::Success(out)
                    },
                }
            }
        },
    }
}

/// Answers `/`: 404 when upstream mode is off; else the upstream root
/// document as it came, or the fetch diagnostic when it could not be had.
pub fn root_reply(upstream_enabled: bool, fetch: Option<UpstreamFetch>) -> (r: Reply)
    ensures
        !upstream_enabled ==> r is NotFound,
        upstream_enabled ==> match fetch {
            Some(UpstreamFetch::Responded { body: Some(b), .. }) => reply_view(r) == (Some(b@), Seq::<char>::empty()),
            _ => reply_view(r) == (None::<Seq<u8>>, fetch_failed_text()) && r is InternalError,
        },
{
    if !upstream_enabled {
        return Reply::NotFound;
    }
    match fetch {
        Some(UpstreamFetch::Responded { body: Some(b), .. }) => Reply::Success(b),
        _ => Reply::InternalError(String::from_str("Failed to get upstream data")),
    }
}

/// The constant body of `/status`.
pub fn status_body() -> (r: String)
    ensures
        r@ == "ok"@,
{
    String::from_str("ok")
}

/// The throughput-probe payload: `SPEEDTEST_BYTES` zero bytes.
pub fn speedtest_body() -> (r: Vec<u8>)
    ensures
        r@.len() == SPEEDTEST_BYTES,
        forall|i: int| 0 <= i < r@.len() ==> r@[i] == 0,
{
    let mut r: Vec<u8> = Vec::new();
    while r.len() < SPEEDTEST_BYTES
        invariant
            r@.len() <= SPEEDTEST_BYTES,
            forall|i: int| 0 <= i < r@.len() ==> r@[i] == 0,
        decreases SPEEDTEST_BYTES - r@.len(),
    {
        r.push(0);
    }
    r
}

} // verus!
