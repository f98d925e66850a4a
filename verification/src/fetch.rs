//! Fetching a document over HTTP with curl.

use crate::invocation::Invocation;
use crate::utf8;
use vstd::prelude::*;

verus! {

/// The invocation of curl that prints the document at `url`: silent but for errors, over IPv4,
/// following redirections, with five seconds to connect and fifteen in all.
pub open spec fn curl_line(url: Seq<char>) -> (Seq<char>, Seq<Seq<char>>) {
    (
        "curl"@,
        seq!["-sS"@, "-4"@, "-L"@, "--connect-timeout"@, "5"@, "--max-time"@, "15"@, url],
    )
}

/// The invocation of curl that prints the document at `url`.
pub fn curl(url: &str) -> (invocation: Invocation)
    ensures
        invocation@ == curl_line(url@),
        invocation@ == (
            "curl"@,
            seq!["-sS"@, "-4"@, "-L"@, "--connect-timeout"@, "5"@, "--max-time"@, "15"@, url@],
        ),
{
    let invocation = Invocation::new("curl").arg("-sS").arg("-4").arg("-L").arg(
        "--connect-timeout",
    ).arg("5").arg("--max-time").arg("15").arg(url);
    assert(invocation@.1 =~= curl_line(url@).1);
    invocation
}

/// Why a document could not be fetched although curl has run.
#[derive(Clone, Copy, PartialEq, Eq, Structural, Debug)]
pub enum FetchError {
    /// curl has reported a failure.
    Failed,
    /// The document is not UTF-8.
    NotUtf8,
}

/// The document that curl has printed.
pub fn fetched(success: bool, output: Vec<u8>) -> (document: Result<String, FetchError>)
    ensures
        match document {
            Ok(document) => success && vstd::utf8::valid_utf8(output@) && document@
                == vstd::utf8::decode_utf8(output@),
            Err(FetchError::Failed) => !success,
            Err(FetchError::NotUtf8) => success && !vstd::utf8::valid_utf8(output@),
        },
{
    if !success {
        return Err(FetchError::Failed);
    }
    match utf8::decode(output) {
        Some(document) => Ok(document),
        None => Err(FetchError::NotUtf8),
    }
}

} // verus!
