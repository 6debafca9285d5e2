use vstd::prelude::*;
use vstd::utf8::{decode_utf8, valid_utf8};

verus! {

/// How a finished job is classified.
#[derive(Clone, Copy, Debug, PartialEq, Eq, Structural)]
pub enum Outcome {
    Success,
    Failure,
}

/// A job succeeds exactly when its exit status is present and equal to zero.
pub open spec fn outcome_of(code: Option<i32>) -> Outcome {
    if code == Some(0i32) {
        Outcome::Success
    } else {
        Outcome::Failure
    }
}

/// Classifies an exit status: zero is success; any other code, or no code
/// at all (the process was killed by a signal), is failure.
pub fn classify(code: Option<i32>) -> (r: Outcome)
    ensures
        r == outcome_of(code),
        r == Outcome::Success <==> code == Some(0i32),
{
    match code {
        Some(c) => if c == 0 {
            Outcome::Success
        } else {
            Outcome::Failure
        },
        None => Outcome::Failure,
    }
}

/// The text that lossy UTF-8 decoding makes of a byte string.
pub uninterp spec fn lossy_text(b: Seq<u8>) -> Seq<char>;

/// Relies on `String::from_utf8_lossy`: each invalid sequence becomes
/// U+FFFD, and valid UTF-8 decodes unchanged.
#[verifier::external_body]
fn decode_lossy(b: &[u8]) -> (r: String)
    ensures
        r@ == lossy_text(b@),
        valid_utf8(b@) ==> r@ == decode_utf8(b@),
{
    String::from_utf8_lossy(b).into_owned()
}

/// One record per finished job: which job, how it was classified, and what
/// it wrote.
pub struct OutcomeRecord {
    pub job: String,
    pub outcome: Outcome,
    pub stdout: String,
    pub stderr: String,
}

/// Builds the record of a finished job from its identity, exit status and
/// captured output. The output is decoded permissively: invalid UTF-8 is
/// replaced, never refused.
pub fn outcome_record(job: String, code: Option<i32>, stdout: &[u8], stderr: &[u8]) -> (r:
    OutcomeRecord)
    ensures
        r.job@ == job@,
        r.outcome == outcome_of(code),
        r.stdout@ == lossy_text(stdout@),
        r.stderr@ == lossy_text(stderr@),
        valid_utf8(stdout@) ==> r.stdout@ == decode_utf8(stdout@),
        valid_utf8(stderr@) ==> r.stderr@ == decode_utf8(stderr@),
{
    OutcomeRecord {
        job,
        outcome: classify(code),
        stdout: decode_lossy(stdout),
        stderr: decode_lossy(stderr),
    }
}

} // verus!
