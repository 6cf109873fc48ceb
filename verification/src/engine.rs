use vstd::prelude::*;

use crate::buffer::{merge_bytes, StreamBuffer};
use crate::errors::StreamError;
use crate::layout::{lemma_parts_ordered, parts_total, parts_wf, PartModel, VirtualLayout};
use crate::ranges::{span, RangeTracker};

verus! {

/// The fixed fetch-unit width used by the prefetch heuristic and by the
/// byte-range requests that are dispatched.
pub const CHUNK_SIZE: usize = 1024 * 256;

/// A fetch the engine has decided to dispatch: the index and URL of the part
/// that owns the range, and the virtual byte range `[start, end)` that the
/// delivered bytes are expected to cover.
pub struct FetchRequest {
    pub part_index: usize,
    pub url: String,
    pub start: usize,
    pub end: usize,
}

/// The origin of a seek offset.
#[derive(Clone, Copy, Debug, PartialEq, Eq, Structural)]
pub enum SeekFrom {
    Start(u64),
    Current(i64),
    End(i64),
}

/// `run_end` closes the contiguous downloaded run that begins at `position`:
/// everything from `position` up to it is downloaded, and it is not.
pub open spec fn is_run_end(downloaded: Set<int>, position: int, run_end: int) -> bool {
    &&& position < run_end
    &&& span(position, run_end).subset_of(downloaded)
    &&& !downloaded.contains(run_end)
}

/// The end of a contiguous downloaded run is unique.
pub proof fn lemma_run_end_unique(downloaded: Set<int>, position: int, end1: int, end2: int)
    requires
        is_run_end(downloaded, position, end1),
        is_run_end(downloaded, position, end2),
    ensures
        end1 == end2,
{
    if end1 < end2 {
        assert(span(position, end2).contains(end1));
    }
    if end2 < end1 {
        assert(span(position, end1).contains(end2));
    }
}

/// The chunked-streaming engine: a seekable byte stream over remote parts,
/// assembled from background fetches into one contiguous buffer.
pub struct HlsStream {
    layout: VirtualLayout,
    buffer: StreamBuffer,
    read_position: usize,
    chunk_size: usize,
    downloaded: RangeTracker,
    requested: RangeTracker,
}

impl HlsStream {
    /// The parts of the virtual layout.
    pub closed spec fn parts(&self) -> Seq<PartModel> {
        self.layout@
    }

    /// The total virtual length of the stream.
    pub closed spec fn total_len(&self) -> int {
        self.layout.spec_total()
    }

    /// The bytes of the assembly buffer.
    pub closed spec fn bytes(&self) -> Seq<u8> {
        self.buffer@
    }

    /// The virtual read cursor.
    pub closed spec fn cursor(&self) -> int {
        self.read_position as int
    }

    /// The virtual positions already downloaded and merged into the buffer.
    pub closed spec fn downloaded(&self) -> Set<int> {
        self.downloaded.points()
    }

    /// The virtual positions covered by a fetch in flight.
    pub closed spec fn requested(&self) -> Set<int> {
        self.requested.points()
    }

    /// The fetch-unit width.
    pub closed spec fn chunk(&self) -> int {
        self.chunk_size as int
    }

    pub open spec fn wf(&self) -> bool {
        &&& parts_wf(self.parts())
        &&& self.total_len() == parts_total(self.parts())
        &&& 0 <= self.cursor() <= self.total_len()
        &&& self.total_len() <= self.bytes().len()
        &&& self.downloaded().subset_of(span(0, self.total_len()))
        &&& self.requested().subset_of(span(0, self.total_len()))
        &&& 0 < self.chunk()
        &&& 2 * self.chunk() <= usize::MAX
    }

    /// A fresh stream over the given layout: cursor at zero, nothing
    /// downloaded or requested, and a zero-filled buffer pre-sized to the
    /// total length.
    pub fn with_chunk_size(layout: VirtualLayout, chunk_size: usize) -> (r: HlsStream)
        requires
            layout.wf(),
            0 < chunk_size,
            2 * chunk_size <= usize::MAX,
        ensures
            r.wf(),
            r.parts() == layout@,
            r.total_len() == layout.spec_total(),
            r.cursor() == 0,
            r.downloaded() == Set::<int>::empty(),
            r.requested() == Set::<int>::empty(),
            r.bytes() == Seq::new(layout.spec_total() as nat, |i: int| 0u8),
            r.chunk() == chunk_size,
    {
        let total = layout.total_length();
        HlsStream {
            layout,
            buffer: StreamBuffer::with_length(total),
            read_position: 0,
            chunk_size,
            downloaded: RangeTracker::new(),
            requested: RangeTracker::new(),
        }
    }

    /// A fresh stream with the default fetch-unit width.
    pub fn new(layout: VirtualLayout) -> (r: HlsStream)
        requires
            layout.wf(),
        ensures
            r.wf(),
            r.parts() == layout@,
            r.total_len() == layout.spec_total(),
            r.cursor() == 0,
            r.downloaded() == Set::<int>::empty(),
            r.requested() == Set::<int>::empty(),
            r.bytes() == Seq::new(layout.spec_total() as nat, |i: int| 0u8),
            r.chunk() == CHUNK_SIZE,
    {
        Self::with_chunk_size(layout, CHUNK_SIZE)
    }

    /// The stream supports out-of-order seeks.
    pub fn is_seekable(&self) -> (r: bool)
        ensures
            r,
    {
        true
    }

    /// The total byte length of the stream.
    pub fn byte_len(&self) -> (r: Option<u64>)
        ensures
            r matches Some(n) && n == self.total_len(),
    {
        Some(self.layout.total_length() as u64)
    }

    /// The current cursor position.
    pub fn position(&self) -> (r: usize)
        ensures
            r == self.cursor(),
    {
        self.read_position
    }

    /// Whether the position about to be read has not been downloaded yet:
    /// the buffering signal published before each read attempt.
    pub fn is_buffering(&self) -> (r: bool)
        ensures
            r == !self.downloaded().contains(self.cursor()),
    {
        !self.downloaded.contains(self.read_position)
    }

    /// Whether draining a pending fetch must block: nothing at all has been
    /// downloaded, or the position about to be read is still missing.
    pub fn must_block(&self) -> (r: bool)
        ensures
            r == (self.downloaded().is_empty() || !self.downloaded().contains(self.cursor())),
    {
        self.downloaded.is_empty() || !self.downloaded.contains(self.read_position)
    }

    /// Whether the given virtual position has been downloaded.
    pub fn is_downloaded(&self, position: usize) -> (r: bool)
        ensures
            r == self.downloaded().contains(position as int),
    {
        self.downloaded.contains(position)
    }

    /// Whether the given virtual position is covered by a fetch in flight.
    pub fn is_requested(&self, position: usize) -> (r: bool)
        ensures
            r == self.requested().contains(position as int),
    {
        self.requested.contains(position)
    }

    /// The maximal downloaded interval enclosing `position`, if any.
    pub fn enclosing(&self, position: usize) -> (r: Option<(usize, usize)>)
        ensures
            (r is Some) <==> self.downloaded().contains(position as int),
            r matches Some(range) ==> {
                &&& range.0 <= position < range.1
                &&& span(range.0 as int, range.1 as int).subset_of(self.downloaded())
                &&& !self.downloaded().contains(range.1 as int)
                &&& (range.0 > 0 ==> !self.downloaded().contains(range.0 - 1))
            },
    {
        self.downloaded.enclosing(position)
    }

    /// The prefetch heuristic. When the cursor is outside the downloaded
    /// ranges, a fetch must start right at the cursor. Otherwise the result
    /// carries the end of the downloaded run enclosing the cursor, and a
    /// fetch is wanted there exactly when the look-ahead window of two
    /// fetch units has reached that end, no fetch in flight already covers
    /// the point one fetch unit ahead, and the run does not already reach
    /// the end of the stream.
    pub fn should_get_chunk(&self) -> (r: (bool, usize))
        requires
            self.wf(),
        ensures
            !self.downloaded().contains(self.cursor()) ==> r.0 && r.1 == self.cursor(),
            self.downloaded().contains(self.cursor()) ==> {
                &&& is_run_end(self.downloaded(), self.cursor(), r.1 as int)
                &&& r.1 <= self.total_len()
                &&& r.0 == ((self.cursor() + 2 * self.chunk() >= r.1)
                    && !self.requested().contains(self.cursor() + self.chunk())
                    && r.1 != self.total_len())
            },
    {
        let position = self.read_position;
        let got = self.downloaded.enclosing(position);
        match got {
            None => (true, position),
            Some(run) => {
                let run_end = run.1;
                proof {
                    assert(span(run.0 as int, run_end as int).contains(run_end as int - 1));
                    assert(self.downloaded().contains(run_end as int - 1));
                    assert(span(0, self.total_len()).contains(run_end as int - 1));
                    assert(span(position as int, run_end as int).subset_of(
                        self.downloaded(),
                    )) by {
                        assert forall|p: int|
                            span(position as int, run_end as int).contains(p) implies self
                            .downloaded().contains(p) by {
                            assert(span(run.0 as int, run_end as int).contains(p));
                        }
                    }
                }
                let total = self.layout.total_length();
                let reached = run_end <= 2 * self.chunk_size || position >= run_end - 2
                    * self.chunk_size;
                let ahead_covered = if self.chunk_size <= usize::MAX - position {
                    self.requested.contains(position + self.chunk_size)
                } else {
                    proof {
                        if self.requested().contains(self.cursor() + self.chunk()) {
                            assert(span(0, self.total_len()).contains(
                                self.cursor() + self.chunk(),
                            ));
                        }
                    }
                    false
                };
                let should = reached && !ahead_covered && run_end != total;
                (should, run_end)
            },
        }
    }

    /// The fetch the heuristic asks for at the given start position.
    pub open spec fn should_fetch_at(&self, start: int) -> bool {
        if !self.downloaded().contains(self.cursor()) {
            start == self.cursor()
        } else {
            &&& is_run_end(self.downloaded(), self.cursor(), start)
            &&& self.cursor() + 2 * self.chunk() >= start
            &&& !self.requested().contains(self.cursor() + self.chunk())
            &&& start != self.total_len()
        }
    }

    /// Decides whether a fetch is to be dispatched now. When one is, the
    /// owning part is located, the range from the fetch start to that part's
    /// end is marked as requested, and the request to hand to a fetch worker
    /// is returned. No fetch is dispatched at or past the end of the stream,
    /// nor when the heuristic declines.
    pub fn dispatch_fetch(&mut self) -> (r: Option<FetchRequest>)
        requires
            old(self).wf(),
        ensures
            final(self).wf(),
            final(self).parts() == old(self).parts(),
            final(self).total_len() == old(self).total_len(),
            final(self).bytes() == old(self).bytes(),
            final(self).cursor() == old(self).cursor(),
            final(self).downloaded() == old(self).downloaded(),
            final(self).chunk() == old(self).chunk(),
            (r is Some) <==> (old(self).cursor() < old(self).total_len() && exists|s: int|
                old(self).should_fetch_at(s)),
            r matches Some(req) ==> {
                &&& old(self).should_fetch_at(req.start as int)
                &&& 0 <= req.part_index < old(self).parts().len()
                &&& old(self).parts()[req.part_index as int].start <= req.start
                    < old(self).parts()[req.part_index as int].end
                &&& req.end == old(self).parts()[req.part_index as int].end
                &&& req.url@ == old(self).parts()[req.part_index as int].url
                &&& final(self).requested() == old(self).requested().union(
                    span(req.start as int, req.end as int),
                )
            },
            (r is None) ==> final(self).requested() == old(self).requested(),
    {
        let total = self.layout.total_length();
        if self.read_position >= total {
            return None;
        }
        let decision = self.should_get_chunk();
        let should = decision.0;
        let start = decision.1;
        if !should {
            proof {
                assert forall|s: int| !old(self).should_fetch_at(s) by {
                    if old(self).should_fetch_at(s) {
                        lemma_run_end_unique(
                            old(self).downloaded(),
                            old(self).cursor(),
                            s,
                            start as int,
                        );
                    }
                }
            }
            return None;
        }
        proof {
            assert(old(self).should_fetch_at(start as int));
            if old(self).downloaded().contains(old(self).cursor()) {
                assert(start as int <= old(self).total_len());
                assert(start as int != old(self).total_len());
            }
            assert(start < total);
        }
        let located = self.layout.locate(start);
        match located {
            Err(_) => {
                proof {
                    assert(false);
                }
                None
            },
            Ok(found) => {
                let part_index = found.0;
                let part_end = self.layout.part_end(part_index);
                let url = self.layout.part_url(part_index);
                proof {
                    lemma_parts_ordered(
                        self.layout@,
                        part_index as int,
                        self.layout@.len() - 1,
                    );
                }
                self.requested.insert(start, part_end);
                Some(FetchRequest { part_index, url, start, end: part_end })
            },
        }
    }

    /// Merges a completed fetch's bytes into the buffer at their virtual
    /// start offset, records the delivered range (clamped to the stream) as
    /// downloaded, and retires it from the requested ranges. A zero-length
    /// chunk changes nothing.
    pub fn deliver_chunk(&mut self, position: usize, chunk: &Vec<u8>)
        requires
            old(self).wf(),
            position + chunk@.len() <= usize::MAX,
        ensures
            final(self).wf(),
            final(self).parts() == old(self).parts(),
            final(self).total_len() == old(self).total_len(),
            final(self).cursor() == old(self).cursor(),
            final(self).chunk() == old(self).chunk(),
            final(self).bytes() == merge_bytes(old(self).bytes(), position as int, chunk@),
            final(self).downloaded() == old(self).downloaded().union(
                span(position as int, position + chunk@.len()).intersect(
                    span(0, old(self).total_len()),
                ),
            ),
            final(self).requested() == old(self).requested().difference(
                span(position as int, position + chunk@.len()),
            ),
    {
        let length = chunk.len();
        if length == 0 {
            proof {
                assert(old(self).downloaded().union(
                    span(position as int, position as int).intersect(
                        span(0, old(self).total_len()),
                    ),
                ) =~= old(self).downloaded());
                assert(old(self).requested().difference(
                    span(position as int, position as int),
                ) =~= old(self).requested());
            }
            return;
        }
        let end = position + length;
        let total = self.layout.total_length();
        self.buffer.merge(position, chunk);
        if position < total {
            let clamped_end = if end < total {
                end
            } else {
                total
            };
            self.downloaded.insert(position, clamped_end);
            proof {
                assert(span(position as int, clamped_end as int) =~= span(
                    position as int,
                    end as int,
                ).intersect(span(0, total as int)));
            }
        } else {
            proof {
                assert(span(position as int, end as int).intersect(span(0, total as int))
                    =~= Set::<int>::empty());
                assert(self.downloaded.points().union(Set::<int>::empty())
                    =~= self.downloaded.points());
            }
        }
        self.requested.remove(position, end);
    }

    /// Serves a read of up to `max_len` bytes from the buffer at the cursor,
    /// clamped to the end of the stream, and advances the cursor by the
    /// number of bytes returned. At or past the end of the stream the read
    /// returns no bytes and the cursor stays put.
    pub fn read(&mut self, max_len: usize) -> (r: Vec<u8>)
        requires
            old(self).wf(),
        ensures
            final(self).wf(),
            final(self).parts() == old(self).parts(),
            final(self).total_len() == old(self).total_len(),
            final(self).bytes() == old(self).bytes(),
            final(self).downloaded() == old(self).downloaded(),
            final(self).requested() == old(self).requested(),
            final(self).chunk() == old(self).chunk(),
            ({
                let n = if old(self).cursor() >= old(self).total_len() {
                    0
                } else if max_len <= old(self).total_len() - old(self).cursor() {
                    max_len as int
                } else {
                    old(self).total_len() - old(self).cursor()
                };
                &&& r@ == old(self).bytes().subrange(old(self).cursor(), old(self).cursor() + n)
                &&& final(self).cursor() == old(self).cursor() + n
            }),
    {
        let total = self.layout.total_length();
        if self.read_position >= total {
            let r: Vec<u8> = Vec::new();
            proof {
                assert(r@ =~= old(self).bytes().subrange(
                    old(self).cursor(),
                    old(self).cursor(),
                ));
            }
            return r;
        }
        let remaining = total - self.read_position;
        let count = if max_len <= remaining {
            max_len
        } else {
            remaining
        };
        let out = self.buffer.copy_range(self.read_position, count);
        self.read_position = self.read_position + count;
        out
    }

    /// The virtual position a seek asks for, before clamping.
    pub open spec fn seek_target(&self, pos: SeekFrom) -> int {
        match pos {
            SeekFrom::Start(n) => n as int,
            SeekFrom::Current(delta) => self.cursor() + delta as int,
            SeekFrom::End(delta) => self.total_len() + delta as int,
        }
    }

    /// Repositions the cursor. A negative resulting position fails with
    /// `InvalidSeek`; a position past the end of the stream is accepted as a
    /// no-op that leaves the cursor unchanged; otherwise the cursor moves to
    /// the requested position. No fetch is dispatched by a seek.
    pub fn seek(&mut self, pos: SeekFrom) -> (r: Result<u64, StreamError>)
        requires
            old(self).wf(),
        ensures
            final(self).wf(),
            final(self).parts() == old(self).parts(),
            final(self).total_len() == old(self).total_len(),
            final(self).bytes() == old(self).bytes(),
            final(self).downloaded() == old(self).downloaded(),
            final(self).requested() == old(self).requested(),
            final(self).chunk() == old(self).chunk(),
            ({
                let target = old(self).seek_target(pos);
                &&& (target < 0 ==> (r matches Err(e) && e == StreamError::InvalidSeek)
                    && final(self).cursor() == old(self).cursor())
                &&& (target > old(self).total_len() ==> (r matches Ok(p) && p
                    == old(self).cursor()) && final(self).cursor() == old(self).cursor())
                &&& (0 <= target <= old(self).total_len() ==> (r matches Ok(p) && p == target)
                    && final(self).cursor() == target)
            }),
    {
        let target_wide: i128 = match pos {
            SeekFrom::Start(n) => n as i128,
            SeekFrom::Current(delta) => self.read_position as i128 + delta as i128,
            SeekFrom::End(delta) => {
                let total = self.layout.total_length();
                total as i128 + delta as i128
            },
        };
        if target_wide < 0 {
            return Err(StreamError::InvalidSeek);
        }
        let total = self.layout.total_length();
        if target_wide > total as i128 {
            return Ok(self.read_position as u64);
        }
        let target = target_wide as usize;
        self.read_position = target;
        Ok(target as u64)
    }
}

/// Delivering the same chunk at the same offset twice leaves the buffer, the
/// downloaded ranges and the requested ranges exactly as one delivery does.
pub proof fn lemma_deliver_idempotent(
    bytes: Seq<u8>,
    downloaded: Set<int>,
    requested: Set<int>,
    position: int,
    chunk: Seq<u8>,
    total: int,
)
    requires
        0 <= position,
    ensures
        ({
            let delivered = span(position, position + chunk.len()).intersect(span(0, total));
            let retired = span(position, position + chunk.len());
            &&& merge_bytes(merge_bytes(bytes, position, chunk), position, chunk) == merge_bytes(
                bytes,
                position,
                chunk,
            )
            &&& downloaded.union(delivered).union(delivered) == downloaded.union(delivered)
            &&& requested.difference(retired).difference(retired) == requested.difference(retired)
        }),
{
    crate::buffer::lemma_merge_bytes_idempotent(bytes, position, chunk);
    let delivered = span(position, position + chunk.len()).intersect(span(0, total));
    let retired = span(position, position + chunk.len());
    assert(downloaded.union(delivered).union(delivered) =~= downloaded.union(delivered));
    assert(requested.difference(retired).difference(retired) =~= requested.difference(retired));
}

/// Deliveries of chunks covering disjoint ranges commute: the buffer and the
/// downloaded ranges end up the same whichever completion is merged first.
pub proof fn lemma_deliver_commutes(
    bytes: Seq<u8>,
    downloaded: Set<int>,
    position1: int,
    chunk1: Seq<u8>,
    position2: int,
    chunk2: Seq<u8>,
    total: int,
)
    requires
        0 <= position1,
        0 <= position2,
        position1 + chunk1.len() <= position2 || position2 + chunk2.len() <= position1,
    ensures
        ({
            let delivered1 = span(position1, position1 + chunk1.len()).intersect(span(0, total));
            let delivered2 = span(position2, position2 + chunk2.len()).intersect(span(0, total));
            &&& merge_bytes(merge_bytes(bytes, position1, chunk1), position2, chunk2)
                == merge_bytes(merge_bytes(bytes, position2, chunk2), position1, chunk1)
            &&& downloaded.union(delivered1).union(delivered2) == downloaded.union(
                delivered2,
            ).union(delivered1)
        }),
{
    crate::buffer::lemma_merge_bytes_commutes(bytes, position1, chunk1, position2, chunk2);
    let delivered1 = span(position1, position1 + chunk1.len()).intersect(span(0, total));
    let delivered2 = span(position2, position2 + chunk2.len()).intersect(span(0, total));
    assert(downloaded.union(delivered1).union(delivered2) =~= downloaded.union(
        delivered2,
    ).union(delivered1));
}

} // verus!
