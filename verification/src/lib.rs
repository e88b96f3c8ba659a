//! An XML-RPC value model, its XML wire codec, and the client-side call
//! pipeline: call serialization, response/fault resolution, and multicall
//! outcome decoding.

pub mod b64;
pub mod client;
pub mod codec;
pub mod decode;
pub mod laws;
pub mod text;
pub mod textlaws;
pub mod xml;
pub mod values;

use vstd::prelude::*;

verus! {

/// Default value of the `User-Agent` header sent with every call.
pub const DEFAULT_USER_AGENT: &'static str = "dxr-client";

/// The timestamp layout of the wire format: four-digit year, two-digit month
/// and day, a literal `T`, then colon-separated clock fields.
pub const XML_RPC_DATE_FORMAT: &'static str = "%Y%m%dT%H:%M:%S";

} // verus!
