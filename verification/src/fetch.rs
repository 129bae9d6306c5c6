//! The engine's policy over remote responses.
//!
//! The transport itself (HTTP GET with `Accept: application/json` and the
//! client-agent header) lives in the service layer; it hands the engine the
//! status code and body it received.  The engine decides whether the
//! response is a failure and, if so, builds the diagnostic error carrying a
//! bounded body snippet.

use vstd::prelude::*;
use crate::errors::SyncError;

verus! {

/// Longest body snippet carried in a remote-failure diagnostic.
pub const SNIPPET_MAX: usize = 200;

/// The diagnostic snippet kept of a response body: the body itself when it
/// is short, else its first `SNIPPET_MAX` characters.
pub open spec fn snippet_spec(body: Seq<char>) -> Seq<char> {
    if body.len() <= SNIPPET_MAX {
        body
    } else {
        body.subrange(0, SNIPPET_MAX as int)
    }
}

/// Any status of 400 or above is a fetch failure.
pub open spec fn status_failed(status: u16) -> bool {
    status >= 400
}

/// Classify a remote response.  A status below 400 is accepted and the body
/// is left for the decoder; otherwise the result is a `Remote` error that
/// carries the status, the request URL and a bounded snippet of the body.
pub fn check_response(status: u16, url: &str, body: &str) -> (r: Result<(), SyncError>)
    ensures
        r is Ok <==> !status_failed(status),
        status_failed(status) ==> (r matches Err(SyncError::Remote {
            status: est,
            url: eurl,
            snippet: esnip,
        }) && est == status && eurl@ == url@ && esnip@ == snippet_spec(body@)),
{
    if status < 400 {
        Ok(())
    } else {
        let len = body.unicode_len();
        let cut = if len <= SNIPPET_MAX {
            len
        } else {
            SNIPPET_MAX
        };
        let snip = body.substring_char(0, cut);
        proof {
            if body@.len() <= SNIPPET_MAX {
                assert(snip@ =~= body@);
            }
        }
        Err(SyncError::Remote {
            status,
            url: String::from_str(url),
            snippet: String::from_str(snip),
        })
    }
}

} // verus!
