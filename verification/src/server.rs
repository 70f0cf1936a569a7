//! Executor-side server core.
//!
//! The worker process owns an immutable configuration, the address it
//! advertises to the coordinator, and the decisions its two endpoints make:
//! `extract` surfaces a capability failure as HTTP 500 with the failure's
//! message, and `sync_executor` acknowledges at once — the heartbeat runs
//! as a detached unit of work whose outcome never reaches the response.
//! The HTTP transport itself lives outside the crate.

use vstd::prelude::*;

use crate::errors::ExtractionError;
use crate::hashing::{dec_of, push_dec};
use crate::persistence::ContentPayload;
use crate::strutil::{chars_vec, string_of_chars};

verus! {

/// Immutable configuration of one executor process.
#[derive(Debug)]
pub struct ExecutorConfig {
    pub listen_if: String,
    pub listen_port: u16,
    pub advertise_if: String,
}

/// The address an executor advertises: interface, colon, listener port in
/// decimal.
pub open spec fn advertise_addr_of(advertise_if: Seq<char>, port: u16) -> Seq<char> {
    advertise_if + seq![':'] + dec_of(port as u64)
}

/// Compute the advertised address once, at startup.
pub fn advertise_addr(advertise_if: &str, port: u16) -> (r: String)
    ensures
        r@ == advertise_addr_of(advertise_if@, port),
{
    let mut out = chars_vec(advertise_if);
    out.push(':');
    push_dec(port as u64, &mut out);
    proof {
        assert(out@ =~= advertise_addr_of(advertise_if@, port));
    }
    string_of_chars(&out)
}

/// The executor server: its configuration and the path of the extractor
/// configuration it loads at startup.
pub struct ExecutorServer {
    pub executor_config: ExecutorConfig,
    pub extractor_config_path: String,
}

impl ExecutorServer {
    pub fn new(extractor_config_path: &str, executor_config: ExecutorConfig) -> (r: Self)
        ensures
            r.extractor_config_path@ == extractor_config_path@,
            r.executor_config == executor_config,
    {
        ExecutorServer { executor_config, extractor_config_path: extractor_config_path.to_owned() }
    }

    /// The identity line served by the liveness probe.
    pub fn identity() -> (r: &'static str)
        ensures
            r@ == "Indexify Extractor Server"@,
    {
        "Indexify Extractor Server"
    }
}

/// The per-process scheduler state: configuration and the advertised
/// address, both immutable after construction.
pub struct ExtractorExecutor {
    pub executor_config: ExecutorConfig,
    pub advertise_addr: String,
}

impl ExtractorExecutor {
    pub fn new(executor_config: ExecutorConfig, advertise_addr: String) -> (r: Self)
        ensures
            r.executor_config == executor_config,
            r.advertise_addr@ == advertise_addr@,
    {
        ExtractorExecutor { executor_config, advertise_addr }
    }
}

/// Response body of the extract endpoint: the extracted sub-items.
#[derive(Debug)]
pub struct ExtractResponse {
    pub content: Vec<ContentPayload>,
}

/// A structured API error: HTTP status code and message.
#[derive(Debug)]
pub struct ApiError {
    pub status_code: u16,
    pub message: String,
}

impl ApiError {
    pub fn new(status_code: u16, message: String) -> (r: Self)
        ensures
            r.status_code == status_code,
            r.message@ == message@,
    {
        ApiError { status_code, message }
    }
}

/// The extract endpoint's decision: a capability success becomes the
/// response body unchanged, a capability failure surfaces as HTTP 500
/// carrying the capability's own message.
pub fn extract_response(outcome: Result<Vec<ContentPayload>, ExtractionError>) -> (r: Result<
    ExtractResponse,
    ApiError,
>)
    ensures
        r is Ok <==> outcome is Ok,
        (match r {
            Ok(resp) => resp.content == outcome->Ok_0,
            Err(err) => err.status_code == 500 && err.message@ == outcome->Err_0.message@,
        }),
{
    match outcome {
        Ok(content) => Ok(ExtractResponse { content }),
        Err(err) => Err(ApiError { status_code: 500, message: err.message }),
    }
}

/// The sync endpoint's decision: acknowledge unconditionally.  The
/// heartbeat is detached, best-effort work; nothing of its outcome flows
/// into this response, so the acknowledgement never waits on it.
pub fn sync_response() -> (r: Result<(), ApiError>)
    ensures
        r is Ok,
{
    Ok(())
}

} // verus!
