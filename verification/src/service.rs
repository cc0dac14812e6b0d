use vstd::prelude::*;

use crate::cache::{cache_key, CacheFlow, FlowAction, FlowState, MAX_AGE};
use crate::envelope::{Metadata, ServerPing, ServerQuery};
use crate::error::{error_text_spec, Error};
use crate::text::dec_digits;

verus! {

/// Start a cached status get: refuse ports below 1024 with an offline
/// envelope, otherwise open a flow on the ping keyspace with the default
/// freshness bound.
pub fn start_ping_get(host: &str, port: u16) -> (r: Result<
    (String, CacheFlow<ServerPing>, FlowAction<ServerPing>),
    ServerPing,
>)
    ensures
        match r {
            Ok((key, flow, action)) => {
                &&& port >= 1024
                &&& key@ == "ping:"@ + host@ + ":"@ + dec_digits(port as nat)
                &&& flow.state == FlowState::FirstRead
                &&& !flow.refreshed
                &&& flow.max_age == MAX_AGE
                &&& action matches FlowAction::Read
            },
            Err(env) => {
                &&& port < 1024
                &&& !env.online_spec()
                &&& env.error_spec() == Some(error_text_spec(Error::InvalidPort(port)))
            },
        },
{
    if port < 1024 {
        return Err(ServerPing::from_error(Error::InvalidPort(port)));
    }
    let key = cache_key("ping:", host, port);
    let (flow, action) = CacheFlow::<ServerPing>::start(MAX_AGE);
    Ok((key, flow, action))
}

/// Start a cached query get: refuse ports below 1024 with an offline
/// envelope, otherwise open a flow on the query keyspace with the default
/// freshness bound.
pub fn start_query_get(host: &str, port: u16) -> (r: Result<
    (String, CacheFlow<ServerQuery>, FlowAction<ServerQuery>),
    ServerQuery,
>)
    ensures
        match r {
            Ok((key, flow, action)) => {
                &&& port >= 1024
                &&& key@ == "query:"@ + host@ + ":"@ + dec_digits(port as nat)
                &&& flow.state == FlowState::FirstRead
                &&& !flow.refreshed
                &&& flow.max_age == MAX_AGE
                &&& action matches FlowAction::Read
            },
            Err(env) => {
                &&& port < 1024
                &&& !env.online_spec()
                &&& env.error_spec() == Some(error_text_spec(Error::InvalidPort(port)))
            },
        },
{
    if port < 1024 {
        return Err(ServerQuery::from_error(Error::InvalidPort(port)));
    }
    let key = cache_key("query:", host, port);
    let (flow, action) = CacheFlow::<ServerQuery>::start(MAX_AGE);
    Ok((key, flow, action))
}

} // verus!
