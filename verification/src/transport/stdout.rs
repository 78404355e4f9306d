//! Default/stdout transport: writes event bodies to stdout; useful for
//! end-to-end pipeline testing with zero network.

use vstd::prelude::*;
use vstd::utf8::encode_utf8;

use crate::event::Event;
use crate::transport::{result_is, BatchResult};

verus! {

broadcast use vstd::string::group_string_axioms;

/// Writes event bodies, one per line.
pub struct StdoutTransport;

/// The line of an event.
pub open spec fn event_line(e: Event) -> Seq<char> {
    e.body@.push('\n')
}

/// The bytes of the lines of the first `n` events.
pub open spec fn line_bytes(batch: Seq<Event>, n: int) -> int
    decreases n,
{
    if n <= 0 {
        0
    } else {
        line_bytes(batch, n - 1) + encode_utf8(event_line(batch[n - 1])).len()
    }
}

proof fn lemma_line_bytes_grow(batch: Seq<Event>, a: int, b: int)
    requires
        0 <= a <= b,
    ensures
        0 <= line_bytes(batch, a) <= line_bytes(batch, b),
    decreases b,
{
    if a < b {
        lemma_line_bytes_grow(batch, a, b - 1);
    } else if b > 0 {
        lemma_line_bytes_grow(batch, b - 1, b - 1);
    }
}

impl StdoutTransport {
    pub fn new() -> StdoutTransport {
        StdoutTransport
    }

    pub fn name(&self) -> (r: &'static str)
        ensures
            r@ == "stdout"@,
    {
        "stdout"
    }

    /// What is written for an event.
    pub fn line(&self, e: &Event) -> (r: String)
        ensures
            r@ == event_line(*e),
    {
        let mut line = e.body.clone();
        line.push('\n');
        line
    }

    /// The outcome when every line was written.
    pub fn written(&self, batch: &[Event]) -> (r: BatchResult)
        requires
            line_bytes(batch@, batch@.len() as int) <= u64::MAX,
        ensures
            result_is(
                r,
                batch@.len() as int,
                0,
                line_bytes(batch@, batch@.len() as int),
                false,
                false,
                None,
                None,
            ),
    {
        let mut bytes: u64 = 0;
        let mut i: usize = 0;
        while i < batch.len()
            invariant
                i <= batch@.len(),
                bytes == line_bytes(batch@, i as int),
                line_bytes(batch@, batch@.len() as int) <= u64::MAX,
            decreases batch@.len() - i,
        {
            let line = self.line(&batch[i]);
            proof {
                lemma_line_bytes_grow(batch@, i + 1, batch@.len() as int);
            }
            bytes = bytes + line.as_str().as_bytes().len() as u64;
            i += 1;
        }
        BatchResult::delivered(batch.len() as u64, bytes)
    }

    /// The outcome when a line could not be written.
    pub fn failed(&self, batch: &[Event], problem: &str) -> (r: BatchResult)
        ensures
            result_is(
                r,
                0,
                batch@.len() as int,
                0,
                false,
                false,
                None,
                Some("stdout write failed: "@ + problem@),
            ),
    {
        let mut reason = String::new();
        reason.append("stdout write failed: ");
        reason.append(problem);
        assert(reason@ =~= "stdout write failed: "@ + problem@);
        BatchResult::none(batch.len() as u64, false, reason.as_str())
    }
}

} // verus!
