//! YouTube broadcast set-up: the statuses reported to the front end and the
//! request that binds a broadcast to its ingest stream.
use vstd::prelude::*;

use crate::types::YoutubeStatus;

verus! {

pub const LIVE_BROADCASTS_URL: &'static str = "https://www.googleapis.com/youtube/v3/liveBroadcasts?part=snippet,status,contentDetails";

pub const LIVE_STREAMS_URL: &'static str = "https://www.googleapis.com/youtube/v3/liveStreams?part=snippet,cdn";

/// A status that names no broadcast, stream, chat or ingest point.
pub open spec fn bare_status(s: YoutubeStatus, connected: bool, message: Seq<char>) -> bool {
    &&& s.connected == connected
    &&& s.message@ == message
    &&& s.broadcast_id is None
    &&& s.stream_id is None
    &&& s.live_chat_id is None
    &&& s.ingest_url is None
    &&& s.stream_key is None
}

fn bare(connected: bool, message: &str) -> (r: YoutubeStatus)
    ensures
        bare_status(r, connected, message@),
{
    YoutubeStatus {
        connected,
        message: message.to_string(),
        broadcast_id: None,
        stream_id: None,
        live_chat_id: None,
        ingest_url: None,
        stream_key: None,
    }
}

/// What connecting YouTube reports, given whether an OAuth token is held.
pub fn connection_status(token_available: bool) -> (r: YoutubeStatus)
    ensures
        token_available ==> bare_status(
            r,
            true,
            "YouTube OAuth token available from the OS keychain"@,
        ),
        !token_available ==> bare_status(
            r,
            false,
            "Connect YouTube OAuth before using managed RTMPS, or switch to manual RTMP/key."@,
        ),
{
    if token_available {
        bare(true, "YouTube OAuth token available from the OS keychain")
    } else {
        bare(false, "Connect YouTube OAuth before using managed RTMPS, or switch to manual RTMP/key.")
    }
}

/// What creating a broadcast reports without an OAuth token.
pub fn oauth_missing_status() -> (r: YoutubeStatus)
    ensures
        bare_status(r, false, "YouTube OAuth is not connected. Manual RTMP/key fallback is available."@),
{
    bare(false, "YouTube OAuth is not connected. Manual RTMP/key fallback is available.")
}

pub open spec fn bind_url_spec(broadcast_id: Seq<char>, stream_id: Seq<char>) -> Seq<char> {
    "https://www.googleapis.com/youtube/v3/liveBroadcasts/bind?part=id,contentDetails&id="@
        + broadcast_id + "&streamId="@ + stream_id
}

/// The request that binds a broadcast to its ingest stream.
pub fn bind_broadcast_url(broadcast_id: &str, stream_id: &str) -> (r: String)
    ensures
        r@ == bind_url_spec(broadcast_id@, stream_id@),
{
    let mut u = String::from_str(
        "https://www.googleapis.com/youtube/v3/liveBroadcasts/bind?part=id,contentDetails&id=",
    );
    u.push_str(broadcast_id);
    u.push_str("&streamId=");
    u.push_str(stream_id);
    proof {
        reveal_strlit(
            "https://www.googleapis.com/youtube/v3/liveBroadcasts/bind?part=id,contentDetails&id=",
        );
        reveal_strlit("&streamId=");
    }
    assert(u@ =~= bind_url_spec(broadcast_id@, stream_id@));
    u
}

/// An id a response must carry, or the error naming what is missing.
pub fn required_id(id: Option<String>, missing: &str) -> (r: Result<String, String>)
    ensures
        match id {
            Some(x) => r == Ok::<String, String>(x),
            None => r matches Err(m) && m@ == missing@,
        },
{
    match id {
        Some(x) => Ok(x),
        None => Err(missing.to_string()),
    }
}

/// The status of a bound broadcast. The ingest point is the RTMPS address
/// when the stream reports one, else its plain ingestion address.
pub fn bound_status(
    broadcast_id: String,
    stream_id: String,
    live_chat_id: Option<String>,
    rtmps_ingestion_address: Option<String>,
    ingestion_address: Option<String>,
    stream_key: Option<String>,
) -> (r: YoutubeStatus)
    ensures
        r.connected,
        r.message@ == "YouTube broadcast and RTMPS stream are bound"@,
        r.broadcast_id == Some(broadcast_id),
        r.stream_id == Some(stream_id),
        r.live_chat_id == live_chat_id,
        r.ingest_url == (if rtmps_ingestion_address is Some {
            rtmps_ingestion_address
        } else {
            ingestion_address
        }),
        r.stream_key == stream_key,
{
    let ingest_url = match rtmps_ingestion_address {
        Some(a) => Some(a),
        None => ingestion_address,
    };
    YoutubeStatus {
        connected: true,
        message: String::from_str("YouTube broadcast and RTMPS stream are bound"),
        broadcast_id: Some(broadcast_id),
        stream_id: Some(stream_id),
        live_chat_id,
        ingest_url,
        stream_key,
    }
}

} // verus!
