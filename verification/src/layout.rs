use vstd::prelude::*;

use crate::errors::StreamError;

verus! {

/// Mathematical model of one remote part: the half-open byte range of the
/// virtual address space that it owns, and the URL its bytes come from.
pub ghost struct PartModel {
    pub start: int,
    pub end: int,
    pub url: Seq<char>,
}

/// One remote part of the stream.
pub struct Part {
    start: usize,
    end: usize,
    url: String,
}

impl View for Part {
    type V = PartModel;

    closed spec fn view(&self) -> PartModel {
        PartModel { start: self.start as int, end: self.end as int, url: self.url@ }
    }
}

/// The parts partition `[0, total)`: they begin at zero, each part is a
/// non-empty-or-empty ascending range, and each part ends where the next
/// one begins.
pub open spec fn parts_wf(parts: Seq<PartModel>) -> bool {
    &&& forall|i: int| 0 <= i < parts.len() ==> (#[trigger] parts[i]).start <= parts[i].end
    &&& (parts.len() > 0 ==> parts[0].start == 0)
    &&& forall|i: int| 0 <= i < parts.len() - 1 ==> (#[trigger] parts[i]).end == parts[i + 1].start
}

/// The total virtual length spanned by a contiguous sequence of parts.
pub open spec fn parts_total(parts: Seq<PartModel>) -> int {
    if parts.len() == 0 {
        0
    } else {
        parts.last().end
    }
}

/// The sum of the individual part sizes.
pub open spec fn sizes_of(parts: Seq<PartModel>) -> int
    decreases parts.len(),
{
    if parts.len() == 0 {
        0
    } else {
        sizes_of(parts.drop_last()) + (parts.last().end - parts.last().start)
    }
}

/// The declared size of one input entry, zero when it is missing.
pub open spec fn entry_size(entry: (Option<usize>, String)) -> int {
    match entry.0 {
        Some(n) => n as int,
        None => 0,
    }
}

/// The sum of the declared sizes of the input entries.
pub open spec fn sizes_sum(entries: Seq<(Option<usize>, String)>) -> int
    decreases entries.len(),
{
    if entries.len() == 0 {
        0
    } else {
        sizes_sum(entries.drop_last()) + entry_size(entries.last())
    }
}

proof fn lemma_sizes_sum_take_succ(entries: Seq<(Option<usize>, String)>, i: int)
    requires
        0 <= i < entries.len(),
    ensures
        sizes_sum(entries.take(i + 1)) == sizes_sum(entries.take(i)) + entry_size(entries[i]),
{
    assert(entries.take(i + 1).drop_last() =~= entries.take(i));
    assert(entries.take(i + 1).last() == entries[i]);
}

proof fn lemma_sizes_sum_take_le(entries: Seq<(Option<usize>, String)>, i: int)
    requires
        0 <= i <= entries.len(),
    ensures
        sizes_sum(entries.take(i)) <= sizes_sum(entries),
    decreases entries.len() - i,
{
    if i == entries.len() {
        assert(entries.take(i) =~= entries);
    } else {
        lemma_sizes_sum_take_succ(entries, i);
        lemma_sizes_sum_take_le(entries, i + 1);
    }
}

/// Ranges of distinct well-formed parts are ordered with their indices.
pub proof fn lemma_parts_ordered(parts: Seq<PartModel>, i: int, j: int)
    requires
        parts_wf(parts),
        0 <= i <= j < parts.len(),
    ensures
        parts[i].start <= parts[j].start,
        parts[i].end <= parts[j].end,
        i < j ==> parts[i].end <= parts[j].start,
    decreases j - i,
{
    if i < j {
        lemma_parts_ordered(parts, i + 1, j);
    }
}

/// The first clause of the layout laws: for a well-formed layout the part
/// sizes sum exactly to the total virtual length.
pub proof fn lemma_sizes_sum_total(parts: Seq<PartModel>)
    requires
        parts_wf(parts),
    ensures
        sizes_of(parts) == parts_total(parts),
    decreases parts.len(),
{
    if parts.len() > 0 {
        let front = parts.drop_last();
        assert(parts_wf(front));
        lemma_sizes_sum_total(front);
        if parts.len() > 1 {
            assert(parts[parts.len() - 2].end == parts[parts.len() - 1].start);
        }
    }
}

/// Every virtual position below the total length lies in exactly one part.
pub proof fn lemma_locate_unique(parts: Seq<PartModel>, position: int)
    requires
        parts_wf(parts),
        0 <= position < parts_total(parts),
    ensures
        exists|i: int|
            0 <= i < parts.len() && (#[trigger] parts[i]).start <= position < parts[i].end,
        forall|i: int, j: int|
            (0 <= i < parts.len() && 0 <= j < parts.len()
                && (#[trigger] parts[i]).start <= position < parts[i].end
                && (#[trigger] parts[j]).start <= position < parts[j].end) ==> i == j,
    decreases parts.len(),
{
    let n = parts.len() as int;
    let front = parts.drop_last();
    assert(parts_wf(front));
    if position >= parts_total(front) {
        assert(parts[n - 1].start == parts_total(front)) by {
            if n >= 2 {
                assert(parts[n - 2].end == parts[n - 1].start);
            }
        }
        assert(parts[n - 1].start <= position < parts[n - 1].end);
    } else {
        lemma_locate_unique(front, position);
        let w = choose|i: int|
            0 <= i < front.len() && (#[trigger] front[i]).start <= position < front[i].end;
        assert(parts[w].start <= position < parts[w].end);
    }
    assert forall|i: int, j: int|
        (0 <= i < parts.len() && 0 <= j < parts.len()
            && (#[trigger] parts[i]).start <= position < parts[i].end
            && (#[trigger] parts[j]).start <= position < parts[j].end) implies i == j by {
        if i < j {
            lemma_parts_ordered(parts, i, j);
        }
        if j < i {
            lemma_parts_ordered(parts, j, i);
        }
    }
}

/// The ordered map of remote parts onto one contiguous virtual address space.
pub struct VirtualLayout {
    parts: Vec<Part>,
    total: usize,
}

impl View for VirtualLayout {
    type V = Seq<PartModel>;

    closed spec fn view(&self) -> Seq<PartModel> {
        self.parts@.map_values(|p: Part| p@)
    }
}

impl VirtualLayout {
    /// The total virtual length, as a mathematical integer.
    pub closed spec fn spec_total(&self) -> int {
        self.total as int
    }

    pub open spec fn wf(&self) -> bool {
        &&& parts_wf(self@)
        &&& self.spec_total() == parts_total(self@)
    }

    /// Builds the layout from an ordered enumeration of `(declared size, url)`
    /// entries, computing cumulative offsets. Fails if and only if some
    /// entry's size is missing.
    pub fn build(entries: Vec<(Option<usize>, String)>) -> (r: Result<VirtualLayout, StreamError>)
        requires
            sizes_sum(entries@) <= usize::MAX,
        ensures
            (r is Ok) <==> (forall|i: int|
                0 <= i < entries@.len() ==> (#[trigger] entries@[i]).0 is Some),
            r matches Err(e) ==> e == StreamError::UnresolvableSize,
            r matches Ok(layout) ==> {
                &&& layout.wf()
                &&& layout@.len() == entries@.len()
                &&& forall|i: int| 0 <= i < entries@.len() ==> {
                    &&& (#[trigger] layout@[i]).url == entries@[i].1@
                    &&& layout@[i].start == sizes_sum(entries@.take(i))
                    &&& layout@[i].end == sizes_sum(entries@.take(i + 1))
                }
                &&& layout.spec_total() == sizes_sum(entries@)
            },
    {
        let n = entries.len();
        let mut built: Vec<Part> = Vec::new();
        let mut total: usize = 0;
        let mut i: usize = 0;
        while i < n
            invariant
                0 <= i <= n,
                n == entries@.len(),
                sizes_sum(entries@) <= usize::MAX,
                total as int == sizes_sum(entries@.take(i as int)),
                built@.len() == i,
                forall|j: int| 0 <= j < i ==> (#[trigger] entries@[j]).0 is Some,
                forall|j: int| 0 <= j < i ==> {
                    &&& (#[trigger] built@[j])@.url == entries@[j].1@
                    &&& built@[j]@.start == sizes_sum(entries@.take(j))
                    &&& built@[j]@.end == sizes_sum(entries@.take(j + 1))
                },
            decreases n - i,
        {
            proof {
                lemma_sizes_sum_take_succ(entries@, i as int);
                lemma_sizes_sum_take_le(entries@, i as int + 1);
            }
            let size = match entries[i].0 {
                None => {
                    return Err(StreamError::UnresolvableSize);
                },
                Some(size) => size,
            };
            let url = entries[i].1.clone();
            built.push(Part { start: total, end: total + size, url });
            total = total + size;
            i = i + 1;
        }
        proof {
            assert(entries@.take(n as int) =~= entries@);
        }
        let layout = VirtualLayout { parts: built, total };
        proof {
            assert forall|j: int| 0 <= j < n implies (#[trigger] layout@[j]) == built@[j]@ by {}
            assert(parts_wf(layout@)) by {
                assert forall|j: int| 0 <= j < layout@.len() - 1 implies (#[trigger] layout@[j]).end
                    == layout@[j + 1].start by {
                    lemma_sizes_sum_take_succ(entries@, j);
                }
                if n > 0 {
                    assert(layout@[0].start == sizes_sum(entries@.take(0)));
                    assert(entries@.take(0) =~= Seq::<(Option<usize>, String)>::empty());
                }
                assert forall|j: int| 0 <= j < layout@.len() implies (#[trigger] layout@[j]).start
                    <= layout@[j].end by {
                    lemma_sizes_sum_take_succ(entries@, j);
                }
            }
            if n > 0 {
                assert(layout@.last() == built@[n - 1]@);
                lemma_sizes_sum_take_succ(entries@, n as int - 1);
            }
        }
        Ok(layout)
    }

    /// The number of parts.
    pub fn part_count(&self) -> (r: usize)
        ensures
            r == self@.len(),
    {
        self.parts.len()
    }

    /// The total virtual length of the stream.
    pub fn total_length(&self) -> (r: usize)
        ensures
            r == self.spec_total(),
    {
        self.total
    }

    /// The fetch URL of the part at the given index.
    pub fn part_url(&self, index: usize) -> (r: String)
        requires
            index < self@.len(),
        ensures
            r@ == self@[index as int].url,
    {
        self.parts[index].url.clone()
    }

    /// The exclusive end of the byte range of the part at the given index.
    pub fn part_end(&self, index: usize) -> (r: usize)
        requires
            index < self@.len(),
        ensures
            r == self@[index as int].end,
    {
        self.parts[index].end
    }

    /// Finds the unique part whose byte range contains `position`, returning
    /// its index together with the part-relative offset of `position`.
    /// Fails if and only if `position` lies at or beyond the total length.
    pub fn locate(&self, position: usize) -> (r: Result<(usize, usize), StreamError>)
        requires
            self.wf(),
        ensures
            (r is Ok) <==> position < self.spec_total(),
            r matches Err(e) ==> e == StreamError::OutOfRange,
            r matches Ok(found) ==> {
                &&& 0 <= found.0 < self@.len()
                &&& self@[found.0 as int].start <= position < self@[found.0 as int].end
                &&& found.1 == position - self@[found.0 as int].start
            },
    {
        let n = self.parts.len();
        let mut j: usize = 0;
        while j < n
            invariant
                0 <= j <= n,
                n == self@.len(),
                self.wf(),
                forall|k: int| 0 <= k < j ==> (#[trigger] self@[k]).end <= position,
            decreases n - j,
        {
            if position < self.parts[j].end {
                proof {
                    if j > 0 {
                        assert(self@[j as int - 1].end == self@[j as int].start);
                    }
                    lemma_parts_ordered(self@, j as int, n as int - 1);
                    assert(self@[j as int].end <= parts_total(self@));
                }
                return Ok((j, position - self.parts[j].start));
            }
            j = j + 1;
        }
        proof {
            if n > 0 {
                assert(self@[n as int - 1].end <= position);
            }
        }
        Err(StreamError::OutOfRange)
    }
}

} // verus!
