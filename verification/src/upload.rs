//! The chunked upload protocol client, modeled as an explicit state
//! machine: the session yields the next request to issue (byte offset
//! and JSON body), the caller performs the HTTP POST and reports the
//! outcome, and the session advances — or aborts on the first failure,
//! after which no further request is ever yielded. No retry is attempted.

use vstd::prelude::*;
use crate::chunking::{UploadChunk, chunk_count, chunk_payload, split_chunks, lemma_chunk_count_bounds};
use crate::wire::{base64_of, upload_body_spec, base64_encode, upload_body};

verus! {

/// Why an upload stopped: the device rejected the chunk at the given
/// byte offset (non-success HTTP status), or the transport itself
/// failed (connection refused, timeout). Both abort the whole upload.
#[derive(Clone, Copy, Debug, PartialEq, Eq, Structural)]
pub enum UploadError {
    UploadFailed { index: usize },
    TransportError,
}

/// The outcome of POSTing one chunk, as reported back by the caller:
/// a success status, a non-success status, or a transport failure.
#[derive(Clone, Copy, Debug, PartialEq, Eq, Structural)]
pub enum ChunkResponse {
    Accepted,
    Rejected,
    Unreachable,
}

/// Whether a response lets the upload proceed.
pub open spec fn is_accept(r: ChunkResponse) -> bool {
    r == ChunkResponse::Accepted
}

/// One chunked upload of a packed bitmap: the chunks, how many have
/// been accepted so far, and whether the session has aborted.
pub struct UploadSession {
    pub chunks: Vec<UploadChunk>,
    pub next: usize,
    pub failed: bool,
    pub total_len: usize,
    pub source: Ghost<Seq<u8>>,
}

impl UploadSession {
    /// The session's chunks are exactly the chunks of its source stream,
    /// and the cursor stays within them.
    pub open spec fn wf(&self) -> bool {
        &&& self.chunks@.len() == chunk_count(self.source@.len() as int)
        &&& forall|i: int| 0 <= i < self.chunks@.len()
            ==> (#[trigger] self.chunks@[i]).offset == 96 * i
        &&& forall|i: int| 0 <= i < self.chunks@.len()
            ==> (#[trigger] self.chunks@[i]).payload@ == chunk_payload(self.source@, i)
        &&& self.next <= self.chunks@.len()
        &&& self.total_len == self.source@.len()
    }

    /// Opens an upload session for a packed bitmap: all chunks pending,
    /// nothing failed.
    pub fn new(data: &Vec<u8>) -> (s: UploadSession)
        ensures
            s.wf(),
            s.source@ == data@,
            s.next == 0,
            !s.failed,
            s.total_len == data@.len(),
    {
        let total_len = data.len();
        let chunks = split_chunks(data);
        UploadSession { chunks, next: 0, failed: false, total_len, source: Ghost(data@) }
    }

    /// The next request to issue, if any: the byte offset of the next
    /// pending chunk and the JSON envelope to POST for it. Yields
    /// nothing once every chunk was accepted — and nothing ever again
    /// after a failure.
    pub fn next_request(&self) -> (r: Option<(usize, Vec<u8>)>)
        requires
            self.wf(),
        ensures
            r is Some <==> (!self.failed && self.next < self.chunks@.len()),
            r is Some ==> r->Some_0.0 as int == 96 * self.next as int,
            r is Some ==> r->Some_0.1@ == upload_body_spec(
                (96 * self.next as int) as nat,
                base64_of(chunk_payload(self.source@, self.next as int)),
            ),
    {
        if self.failed || self.next >= self.chunks.len() {
            return None;
        }
        let chunk = &self.chunks[self.next];
        let b64 = base64_encode(&chunk.payload);
        let body = upload_body(chunk.offset as u64, &b64);
        Some((chunk.offset, body))
    }

    /// Records the outcome of POSTing the pending chunk. On a success
    /// status the session advances to the next chunk. On a non-success
    /// status it aborts with `UploadFailed` carrying the chunk's byte
    /// offset; on a transport failure it aborts with `TransportError`.
    /// An aborted session yields no further requests.
    pub fn record_response(&mut self, resp: ChunkResponse) -> (r: Result<(), UploadError>)
        requires
            old(self).wf(),
            !old(self).failed,
            old(self).next < old(self).chunks@.len(),
        ensures
            final(self).wf(),
            final(self).source@ == old(self).source@,
            final(self).chunks@ == old(self).chunks@,
            final(self).total_len == old(self).total_len,
            is_accept(resp) ==> {
                &&& !final(self).failed
                &&& final(self).next == old(self).next + 1
                &&& r is Ok
            },
            resp == ChunkResponse::Rejected ==> {
                &&& final(self).failed
                &&& final(self).next == old(self).next
                &&& r == Err::<(), UploadError>(UploadError::UploadFailed {
                    index: (96 * old(self).next as int) as usize,
                })
            },
            resp == ChunkResponse::Unreachable ==> {
                &&& final(self).failed
                &&& final(self).next == old(self).next
                &&& r == Err::<(), UploadError>(UploadError::TransportError)
            },
    {
        match resp {
            ChunkResponse::Accepted => {
                self.next = self.next + 1;
                Ok(())
            },
            ChunkResponse::Rejected => {
                self.failed = true;
                let index = self.chunks[self.next].offset;
                Err(UploadError::UploadFailed { index })
            },
            ChunkResponse::Unreachable => {
                self.failed = true;
                Err(UploadError::TransportError)
            },
        }
    }

    /// Whether every chunk was accepted.
    pub fn is_complete(&self) -> (r: bool)
        requires
            self.wf(),
        ensures
            r <==> (!self.failed && self.next == self.chunks@.len()),
    {
        !self.failed && self.next == self.chunks.len()
    }

    /// The total number of bytes transmitted when the upload completed:
    /// the length of the packed bitmap.
    pub fn total_bytes(&self) -> (r: usize)
        requires
            self.wf(),
        ensures
            r == self.source@.len(),
    {
        self.total_len
    }
}

/// How many POSTs a conforming upload driver makes for `n` chunks with
/// the device answering as in `rs`: one per chunk while the device
/// accepts, stopping right after the first non-accepted chunk.
pub open spec fn posts_made(n: nat, rs: Seq<ChunkResponse>) -> nat
    decreases n,
{
    if n == 0 || rs.len() == 0 {
        0
    } else if !is_accept(rs[0]) {
        1
    } else {
        1 + posts_made((n - 1) as nat, rs.drop_first())
    }
}

/// UPLOAD ABORT-ON-FAILURE: for a bitmap of `n` chunks where chunk `i`
/// is the first not accepted, exactly `i + 1` POSTs are made — none for
/// any chunk past `i`.
pub proof fn lemma_upload_abort(n: nat, rs: Seq<ChunkResponse>, i: int)
    requires
        rs.len() >= n,
        0 <= i < n,
        !is_accept(rs[i]),
        forall|j: int| 0 <= j < i ==> is_accept(#[trigger] rs[j]),
    ensures
        posts_made(n, rs) == i + 1,
    decreases i,
{
    if i > 0 {
        lemma_upload_abort((n - 1) as nat, rs.drop_first(), i - 1);
    }
}

/// When the device accepts every chunk, exactly one POST per chunk is
/// made.
pub proof fn lemma_upload_all_accepted(n: nat, rs: Seq<ChunkResponse>)
    requires
        rs.len() >= n,
        forall|j: int| 0 <= j < n ==> is_accept(#[trigger] rs[j]),
    ensures
        posts_made(n, rs) == n,
    decreases n,
{
    if n > 0 {
        lemma_upload_all_accepted((n - 1) as nat, rs.drop_first());
    }
}

/// Drives a whole upload against a given sequence of device responses
/// (response `i` answers the POST of chunk `i`): issues requests
/// strictly in increasing offset order, one at a time, and stops at the
/// first failure. Returns how many POSTs were made, and either the
/// total bytes transmitted or the first error.
pub fn run_upload(data: &Vec<u8>, responses: &Vec<ChunkResponse>) -> (r: (usize, Result<
    usize,
    UploadError,
>))
    requires
        responses@.len() >= chunk_count(data@.len() as int),
    ensures
        r.0 as int == posts_made(chunk_count(data@.len() as int) as nat, responses@),
        (forall|j: int| 0 <= j < chunk_count(data@.len() as int)
            ==> is_accept(#[trigger] responses@[j])) ==> r.1 == Ok::<usize, UploadError>(
            data@.len() as usize,
        ),
        forall|i: int|
            (0 <= i < chunk_count(data@.len() as int) && !is_accept(responses@[i]) && (forall|
                j: int,
            | 0 <= j < i ==> is_accept(#[trigger] responses@[j]))) ==> r.1 == Err::<
                usize,
                UploadError,
            >(
                if responses@[i] == ChunkResponse::Rejected {
                    UploadError::UploadFailed { index: (96 * i) as usize }
                } else {
                    UploadError::TransportError
                },
            ),
{
    let ghost n = chunk_count(data@.len() as int);
    proof {
        lemma_chunk_count_bounds(data@.len() as int);
    }
    let mut session = UploadSession::new(data);
    let total = session.chunks.len();
    let mut posts: usize = 0;
    while posts < total
        invariant
            session.wf(),
            session.source@ == data@,
            !session.failed,
            session.next == posts,
            posts <= total,
            total == session.chunks@.len(),
            total as int == n,
            n == chunk_count(data@.len() as int),
            responses@.len() >= n,
            forall|j: int| 0 <= j < posts ==> is_accept(#[trigger] responses@[j]),
        decreases total - posts,
    {
        let resp = responses[posts];
        let outcome = session.record_response(resp);
        match outcome {
            Ok(()) => {
                posts = posts + 1;
            },
            Err(e) => {
                proof {
                    lemma_upload_abort(n as nat, responses@, posts as int);
                    assert forall|i: int|
                        (0 <= i < n && !is_accept(responses@[i]) && (forall|j: int|
                            0 <= j < i ==> is_accept(#[trigger] responses@[j])))
                        implies i == posts as int by {
                        if i < posts as int {
                            assert(is_accept(responses@[i]));
                        }
                        if i > posts as int {
                            assert(is_accept(responses@[posts as int]));
                        }
                    }
                }
                return (posts + 1, Err(e));
            },
        }
    }
    proof {
        lemma_upload_all_accepted(n as nat, responses@);
    }
    let sent = session.total_bytes();
    (posts, Ok(sent))
}

} // verus!
