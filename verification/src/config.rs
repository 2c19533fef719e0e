//! Settings of the facilitator, and the snapshots it starts from.

use vstd::prelude::*;

use crate::codec;
use crate::text;

verus! {

/// Port of the HTTP server where none is set.
pub const DEFAULT_HTTP_PORT: u16 = 7002;

/// Time limit of calls to the chain where none is set, in milliseconds.
pub const DEFAULT_RPC_TIMEOUT_MS: u64 = 20_000;

/// The port that is set, or the default where it is not set or no port number.
pub fn http_port(setting: Option<String>) -> (r: u16)
    ensures
        r == (match setting {
            Some(s) => match text::decimal_number(s@, 0xffff) {
                Some(v) => v,
                None => DEFAULT_HTTP_PORT as nat,
            },
            None => DEFAULT_HTTP_PORT as nat,
        }),
{
    match setting {
        Some(s) => match text::parse_decimal(s.as_str(), 0xffff) {
            Some(v) => v as u16,
            None => DEFAULT_HTTP_PORT,
        },
        None => DEFAULT_HTTP_PORT,
    }
}

/// The time limit that is set, or the default where it is not set or no number.
pub fn rpc_timeout_ms(setting: Option<String>) -> (r: u64)
    ensures
        r == (match setting {
            Some(s) => match text::decimal_number(s@, u64::MAX as nat) {
                Some(v) => v,
                None => DEFAULT_RPC_TIMEOUT_MS as nat,
            },
            None => DEFAULT_RPC_TIMEOUT_MS as nat,
        }),
{
    match setting {
        Some(s) => match text::parse_decimal(s.as_str(), u64::MAX) {
            Some(v) => v,
            None => DEFAULT_RPC_TIMEOUT_MS,
        },
        None => DEFAULT_RPC_TIMEOUT_MS,
    }
}

/// The data directory that is set, or the default.
pub fn data_dir(setting: Option<String>) -> (r: String)
    ensures
        r@ == (match setting {
            Some(s) => s@,
            None => "./.x402-data"@,
        }),
{
    match setting {
        Some(s) => s,
        None => "./.x402-data".to_owned(),
    }
}

/// Reads a snapshot: base-64 text, white space around it or not.
pub fn snapshot_bytes(snapshot: &str) -> (r: Result<Vec<u8>, String>)
    ensures
        match r {
            Ok(v) => vstd::utf8::encode_utf8(text::trim(snapshot@)) == codec::base64_of(v@),
            Err(e) => {
                &&& forall|v: Seq<u8>|
                    #[trigger] codec::base64_of(v) != vstd::utf8::encode_utf8(
                        text::trim(snapshot@),
                    )
                &&& e@ == codec::base64_error(vstd::utf8::encode_utf8(text::trim(snapshot@)))
            },
        },
{
    codec::base64_decode(text::trim_text(snapshot).as_bytes())
}

/// What is used where nothing is set.
pub proof fn law_defaults()
    ensures
        DEFAULT_HTTP_PORT == 7002,
        DEFAULT_RPC_TIMEOUT_MS == 20_000,
{
}

} // verus!
