use vstd::prelude::*;

verus! {

/// The bytes after a chunk is merged at `position`: the buffer keeps its
/// contents outside the chunk's range, grows with zero-filled bytes when the
/// chunk's end exceeds its length, and holds the chunk's bytes at
/// `[position, position + chunk.len())`. An empty chunk changes nothing.
pub open spec fn merge_bytes(buf: Seq<u8>, position: int, chunk: Seq<u8>) -> Seq<u8> {
    if chunk.len() == 0 {
        buf
    } else {
        let merged_len = if buf.len() >= position + chunk.len() {
            buf.len() as int
        } else {
            position + chunk.len()
        };
        Seq::new(
            merged_len as nat,
            |i: int|
                if position <= i < position + chunk.len() {
                    chunk[i - position]
                } else if i < buf.len() {
                    buf[i]
                } else {
                    0u8
                },
        )
    }
}

/// Merging the same chunk at the same position twice leaves the buffer as
/// after one merge.
pub proof fn lemma_merge_bytes_idempotent(buf: Seq<u8>, position: int, chunk: Seq<u8>)
    requires
        0 <= position,
    ensures
        merge_bytes(merge_bytes(buf, position, chunk), position, chunk) == merge_bytes(
            buf,
            position,
            chunk,
        ),
{
    assert(merge_bytes(merge_bytes(buf, position, chunk), position, chunk) =~= merge_bytes(
        buf,
        position,
        chunk,
    ));
}

/// Merging two chunks with disjoint ranges gives the same buffer in either
/// order.
pub proof fn lemma_merge_bytes_commutes(
    buf: Seq<u8>,
    position1: int,
    chunk1: Seq<u8>,
    position2: int,
    chunk2: Seq<u8>,
)
    requires
        0 <= position1,
        0 <= position2,
        position1 + chunk1.len() <= position2 || position2 + chunk2.len() <= position1,
    ensures
        merge_bytes(merge_bytes(buf, position1, chunk1), position2, chunk2) == merge_bytes(
            merge_bytes(buf, position2, chunk2),
            position1,
            chunk1,
        ),
{
    assert(merge_bytes(merge_bytes(buf, position1, chunk1), position2, chunk2) =~= merge_bytes(
        merge_bytes(buf, position2, chunk2),
        position1,
        chunk1,
    ));
}

/// The buffer bytes after a whole sequence of chunk merges, applied in
/// order.
pub open spec fn buffer_after(bytes: Seq<u8>, merges: Seq<(int, Seq<u8>)>) -> Seq<u8>
    decreases merges.len(),
{
    if merges.len() == 0 {
        bytes
    } else {
        merge_bytes(buffer_after(bytes, merges.drop_last()), merges.last().0, merges.last().1)
    }
}

/// No two of the merges overlap.
pub open spec fn merges_disjoint(merges: Seq<(int, Seq<u8>)>) -> bool {
    forall|i: int, j: int|
        0 <= i < j < merges.len() ==> ((#[trigger] merges[i]).0 + merges[i].1.len()
            <= (#[trigger] merges[j]).0 || merges[j].0 + merges[j].1.len() <= merges[i].0)
}

/// The round trip behind reading back merged chunks: after any sequence of
/// merges whose ranges do not overlap, every position covered by one of them
/// holds exactly that chunk's byte, in whatever order the chunks arrived.
pub proof fn lemma_round_trip(bytes: Seq<u8>, merges: Seq<(int, Seq<u8>)>, i: int, p: int)
    requires
        forall|k: int| 0 <= k < merges.len() ==> (#[trigger] merges[k]).0 >= 0,
        merges_disjoint(merges),
        0 <= i < merges.len(),
        merges[i].0 <= p < merges[i].0 + merges[i].1.len(),
    ensures
        p < buffer_after(bytes, merges).len(),
        buffer_after(bytes, merges)[p] == merges[i].1[p - merges[i].0],
    decreases merges.len(),
{
    let front = merges.drop_last();
    let last = merges.last();
    let previous = buffer_after(bytes, front);
    if i == merges.len() - 1 {
        assert(last.1.len() > 0);
    } else {
        assert(front[i] == merges[i]);
        lemma_round_trip(bytes, front, i, p);
        assert(last.0 + last.1.len() <= merges[i].0 || merges[i].0 + merges[i].1.len()
            <= last.0);
        assert(!(last.0 <= p < last.0 + last.1.len()));
        if last.1.len() > 0 {
            assert(buffer_after(bytes, merges)[p] == previous[p]);
        }
    }
}

/// A growable byte store addressed by virtual position.
pub struct StreamBuffer {
    data: Vec<u8>,
}

impl View for StreamBuffer {
    type V = Seq<u8>;

    closed spec fn view(&self) -> Seq<u8> {
        self.data@
    }
}

impl StreamBuffer {
    /// A zero-filled buffer of the given length.
    pub fn with_length(length: usize) -> (r: StreamBuffer)
        ensures
            r@ == Seq::new(length as nat, |i: int| 0u8),
    {
        let mut data: Vec<u8> = Vec::new();
        while data.len() < length
            invariant
                data@.len() <= length,
                forall|i: int| 0 <= i < data@.len() ==> data@[i] == 0u8,
            decreases length - data@.len(),
        {
            data.push(0u8);
        }
        proof {
            assert(data@ =~= Seq::new(length as nat, |i: int| 0u8));
        }
        StreamBuffer { data }
    }

    pub fn len(&self) -> (r: usize)
        ensures
            r == self@.len(),
    {
        self.data.len()
    }

    /// Copies `chunk` into place at `position`, first extending the buffer
    /// with zero-filled bytes if the chunk's end exceeds its length, and
    /// returns the merged range. A zero-length chunk is a no-op and no range
    /// is reported.
    pub fn merge(&mut self, position: usize, chunk: &Vec<u8>) -> (r: Option<(usize, usize)>)
        requires
            position + chunk@.len() <= usize::MAX,
        ensures
            final(self)@ == merge_bytes(old(self)@, position as int, chunk@),
            (r is Some) <==> chunk@.len() > 0,
            r matches Some(range) ==> range.0 == position && range.1 == position + chunk@.len(),
    {
        let length = chunk.len();
        if length == 0 {
            return None;
        }
        let end = position + length;
        while self.data.len() < end
            invariant
                position + chunk@.len() <= usize::MAX,
                end == position + chunk@.len(),
                old(self)@.len() <= self.data@.len(),
                self.data@.len() <= end || self.data@.len() == old(self)@.len(),
                forall|i: int| 0 <= i < old(self)@.len() ==> self.data@[i] == old(self)@[i],
                forall|i: int|
                    old(self)@.len() <= i < self.data@.len() ==> self.data@[i] == 0u8,
            decreases end - self.data@.len(),
        {
            self.data.push(0u8);
        }
        let ghost grown = self.data@;
        let mut i: usize = 0;
        while i < length
            invariant
                0 <= i <= length,
                length == chunk@.len(),
                end == position + length,
                end <= grown.len(),
                old(self)@.len() <= grown.len(),
                grown.len() <= end || grown.len() == old(self)@.len(),
                forall|j: int| 0 <= j < old(self)@.len() ==> grown[j] == old(self)@[j],
                forall|j: int| old(self)@.len() <= j < grown.len() ==> grown[j] == 0u8,
                self.data@.len() == grown.len(),
                forall|j: int|
                    position <= j < position + i ==> self.data@[j] == chunk@[j - position],
                forall|j: int|
                    0 <= j < self.data@.len() && !(position <= j < position + i)
                        ==> self.data@[j] == grown[j],
            decreases length - i,
        {
            self.data.set(position + i, chunk[i]);
            i = i + 1;
        }
        proof {
            let merged = merge_bytes(old(self)@, position as int, chunk@);
            assert(self.data@.len() == merged.len());
            assert forall|j: int| 0 <= j < merged.len() implies self.data@[j] == merged[j] by {
                if position <= j < position + chunk@.len() {
                    assert(self.data@[j] == chunk@[j - position]);
                } else {
                    assert(self.data@[j] == grown[j]);
                    if j < old(self)@.len() {
                        assert(grown[j] == old(self)@[j]);
                    } else {
                        assert(grown[j] == 0u8);
                    }
                }
            }
            assert(self.data@ =~= merged);
        }
        Some((position, end))
    }

    /// The `count` bytes starting at `start`.
    pub fn copy_range(&self, start: usize, count: usize) -> (r: Vec<u8>)
        requires
            start + count <= self@.len(),
        ensures
            r@ == self@.subrange(start as int, start as int + count as int),
    {
        let mut r: Vec<u8> = Vec::new();
        let stored = self.data.len();
        let mut i: usize = 0;
        while i < count
            invariant
                0 <= i <= count,
                stored == self@.len(),
                start + count <= self@.len(),
                r@.len() == i,
                forall|j: int| 0 <= j < i ==> r@[j] == self@[start + j],
            decreases count - i,
        {
            r.push(self.data[start + i]);
            i = i + 1;
        }
        proof {
            assert(r@ =~= self@.subrange(start as int, start as int + count as int));
        }
        r
    }
}

} // verus!
