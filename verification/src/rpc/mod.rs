//! Records read from the Solana RPC, the conversion of vote accounts into snapshots, and the
//! request pacing of the RPC client.
use vstd::prelude::*;
use crate::rpc::rate_limiter::{error_delay, success_delay, RateLimiter};

pub mod amounts;
pub mod epoch_info;
pub mod stake_accounts;
pub mod vote_accounts;
pub mod rate_limiter;

pub use epoch_info::EpochInfo;
pub use stake_accounts::StakeAccountRecord;

verus! {

/// How a JSON-RPC call ended, once its reply was read.
pub enum RpcReply {
    /// The reply carried a result and no error.
    Delivered,
    /// The HTTP status was not a success.
    HttpFailure,
    /// The reply carried an error object, with its code and message.
    RemoteError { code: i64, message: String },
    /// The reply carried neither a result nor an error.
    Empty,
    /// The body was not a JSON-RPC reply.
    Malformed,
}

/// Classifies the reply to a JSON-RPC call from what was read of it: whether the HTTP status
/// was a success, whether the body parsed as a JSON-RPC envelope, whether it held a result,
/// and the error object it held, if any. An HTTP failure comes first, then an unreadable
/// body, then an error object (whether or not a result came with it).
pub fn classify_rpc_reply(http_success: bool, body_parsed: bool, has_result: bool, error: Option<(i64, String)>) -> (r: RpcReply)
    ensures
        !http_success ==> r is HttpFailure,
        http_success && !body_parsed ==> r is Malformed,
        http_success && body_parsed ==> match error {
            Some((code, message)) => r matches RpcReply::RemoteError { code: c, message: m } && c == code && m@ == message@,
            None => if has_result { r is Delivered } else { r is Empty },
        },
{
    if !http_success {
        return RpcReply::HttpFailure;
    }
    if !body_parsed {
        return RpcReply::Malformed;
    }
    match error {
        Some((code, message)) => RpcReply::RemoteError { code, message },
        None => if has_result {
            RpcReply::Delivered
        } else {
            RpcReply::Empty
        },
    }
}

impl RateLimiter {
    /// Feeds a reply back into the pacing: a delivered result shortens the delay, an HTTP
    /// failure, an error object or an empty reply lengthens it, and an unreadable body leaves
    /// it as it was.
    pub fn settle(&mut self, reply: &RpcReply)
        ensures
            final(self).delay_nanos == match *reply {
                RpcReply::Delivered => success_delay(*old(self)),
                RpcReply::Malformed => old(self).delay_nanos as int,
                _ => error_delay(*old(self)),
            },
            final(self).min_delay_nanos == old(self).min_delay_nanos,
            final(self).max_delay_nanos == old(self).max_delay_nanos,
            final(self).last_request_at_nanos == old(self).last_request_at_nanos,
    {
        match reply {
            RpcReply::Delivered => self.on_success(),
            RpcReply::Malformed => {},
            _ => self.on_error(),
        }
    }
}

} // verus!
