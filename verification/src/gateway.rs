//! Configuration consumed by the core and the small per-request decisions
//! the gateway collaborator delegates to it: which inbound header survives
//! forwarding, when the stream-terminating sentinel has arrived, and when
//! think-tag extraction applies.

use vstd::prelude::*;
use vstd::string::StrSliceExecFns;
use crate::text::str_starts_with;

verus! {

/// Which think-tag dialect to extract from streaming responses.
#[derive(Clone, Copy, PartialEq, Eq, Structural, Debug)]
pub enum CotParser {
    Deepseek,
}

/// The gateway's configuration: where to listen, which backend to forward
/// to, an optional input token budget (absent means no truncation), an
/// optional extraction dialect (absent means no extraction), and whether to
/// log verbosely.
pub struct Cli {
    pub listen: String,
    pub backend: String,
    pub input_max_token: Option<usize>,
    pub cot_parser: Option<CotParser>,
    pub debug: bool,
}

/// Only the authorization header is forwarded upstream; every other inbound
/// header is dropped before forwarding.
pub fn keep_header(name: &str) -> (r: bool)
    ensures
        r == (name@ == "authorization"@),
{
    let keep = "authorization";
    let n = keep.unicode_len();
    let m = name.unicode_len();
    if m != n {
        proof {
            assert(name@ != keep@);
        }
        return false;
    }
    let r = str_starts_with(name, keep);
    proof {
        if r {
            assert(name@.take(n as int) =~= name@);
        } else {
            assert(name@.take(n as int) =~= name@);
        }
    }
    r
}

/// The literal sentinel that terminates a streaming response; it is
/// consumed by the transport layer, never forwarded.
pub fn is_end_sentinel(data: &str) -> (r: bool)
    ensures
        r == (data@ == "[DONE]"@),
{
    let done = "[DONE]";
    let n = done.unicode_len();
    let m = data.unicode_len();
    if m != n {
        proof {
            assert(data@ != done@);
        }
        return false;
    }
    let r = str_starts_with(data, done);
    proof {
        if r {
            assert(data@.take(n as int) =~= data@);
        } else {
            assert(data@.take(n as int) =~= data@);
        }
    }
    r
}

/// Extraction applies exactly when the response streams and a dialect is
/// configured.
pub fn should_extract(streaming: bool, parser: Option<CotParser>) -> (r: bool)
    ensures
        r == (streaming && parser is Some),
{
    streaming && match parser {
        Option::Some(_) => true,
        Option::None => false,
    }
}

} // verus!
