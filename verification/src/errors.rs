//! Failure kinds of the request pipeline and their mapping to HTTP status
//! codes and plain-text bodies.

use vstd::prelude::*;
use crate::ascii::push_slice;

verus! {

/// Every way one proxied request can fail. Each is terminal for that request;
/// none is retried and none outlives the request.
#[derive(Clone, Copy, Debug, PartialEq, Eq, Structural)]
pub enum ProxyError {
    /// No target-URL parameter was given.
    MissingTarget,
    /// The target-URL parameter is not base64 or not UTF-8 once decoded.
    InvalidTarget,
    /// A manifest line could not be resolved against the target URL.
    RewriteFailure,
    /// The upstream connection or exchange failed.
    UpstreamConnectFailure,
}

pub open spec fn status_of(e: ProxyError) -> u16 {
    match e {
        ProxyError::MissingTarget => 400u16,
        ProxyError::InvalidTarget => 400u16,
        ProxyError::RewriteFailure => 404u16,
        ProxyError::UpstreamConnectFailure => 500u16,
    }
}

/// "Missing url parameter"
pub open spec fn missing_target_body() -> Seq<u8> {
    seq![
        77u8, 105u8, 115u8, 115u8, 105u8, 110u8, 103u8, 32u8, 117u8, 114u8, 108u8, 32u8, 112u8,
        97u8, 114u8, 97u8, 109u8, 101u8, 116u8, 101u8, 114u8,
    ]
}

/// "Invalid Base64 URL"
pub open spec fn invalid_target_body() -> Seq<u8> {
    seq![
        73u8, 110u8, 118u8, 97u8, 108u8, 105u8, 100u8, 32u8, 66u8, 97u8, 115u8, 101u8, 54u8, 52u8,
        32u8, 85u8, 82u8, 76u8,
    ]
}

/// "Rejected"
pub open spec fn rewrite_failure_body() -> Seq<u8> {
    seq![82u8, 101u8, 106u8, 101u8, 99u8, 116u8, 101u8, 100u8]
}

/// The plain-text body for a failure: a fixed message for client errors, the
/// upstream error's own description for a transport failure.
pub open spec fn spec_error_body(e: ProxyError, detail: Seq<u8>) -> Seq<u8> {
    match e {
        ProxyError::MissingTarget => missing_target_body(),
        ProxyError::InvalidTarget => invalid_target_body(),
        ProxyError::RewriteFailure => rewrite_failure_body(),
        ProxyError::UpstreamConnectFailure => detail,
    }
}

/// Maps a failure to the response the proxy sends: status code and body.
/// `detail` is the transport error's description and is used only there.
pub fn error_response(e: ProxyError, detail: &[u8]) -> (r: (u16, Vec<u8>))
    ensures
        r.0 == status_of(e),
        r.1@ == spec_error_body(e, detail@),
{
    let mut body: Vec<u8> = Vec::new();
    let status: u16 = match e {
        ProxyError::MissingTarget => {
            let msg: Vec<u8> = vec![
                77u8, 105u8, 115u8, 115u8, 105u8, 110u8, 103u8, 32u8, 117u8, 114u8, 108u8, 32u8,
                112u8, 97u8, 114u8, 97u8, 109u8, 101u8, 116u8, 101u8, 114u8,
            ];
            push_slice(&mut body, msg.as_slice());
            proof {
                assert(body@ =~= missing_target_body());
            }
            400
        },
        ProxyError::InvalidTarget => {
            let msg: Vec<u8> = vec![
                73u8, 110u8, 118u8, 97u8, 108u8, 105u8, 100u8, 32u8, 66u8, 97u8, 115u8, 101u8,
                54u8, 52u8, 32u8, 85u8, 82u8, 76u8,
            ];
            push_slice(&mut body, msg.as_slice());
            proof {
                assert(body@ =~= invalid_target_body());
            }
            400
        },
        ProxyError::RewriteFailure => {
            let msg: Vec<u8> = vec![82u8, 101u8, 106u8, 101u8, 99u8, 116u8, 101u8, 100u8];
            push_slice(&mut body, msg.as_slice());
            proof {
                assert(body@ =~= rewrite_failure_body());
            }
            404
        },
        ProxyError::UpstreamConnectFailure => {
            push_slice(&mut body, detail);
            proof {
                assert(body@ =~= detail@);
            }
            500
        },
    };
    (status, body)
}

} // verus!
