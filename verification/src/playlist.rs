use vstd::prelude::*;

verus! {

/// The URL marker "http", in ASCII bytes, starts at index `i` of the line.
pub open spec fn has_url_marker_at(line: Seq<u8>, i: int) -> bool {
    &&& 0 <= i
    &&& i + 4 <= line.len()
    &&& line[i] == 0x68u8
    &&& line[i + 1] == 0x74u8
    &&& line[i + 2] == 0x74u8
    &&& line[i + 3] == 0x70u8
}

/// A line of playlist text is taken as a part reference exactly when it
/// holds the URL marker somewhere.
pub open spec fn is_candidate_line(line: Seq<u8>) -> bool {
    exists|i: int| has_url_marker_at(line, i)
}

/// The index of the first line-break byte of `s`, or its length when none.
pub open spec fn first_break(s: Seq<u8>) -> int
    decreases s.len(),
{
    if s.len() == 0 {
        0
    } else if s[0] == 0x0Au8 {
        0
    } else {
        1 + first_break(s.skip(1))
    }
}

pub proof fn lemma_first_break(s: Seq<u8>)
    ensures
        0 <= first_break(s) <= s.len(),
        first_break(s) < s.len() ==> s[first_break(s)] == 0x0Au8,
        forall|j: int| 0 <= j < first_break(s) ==> s[j] != 0x0Au8,
    decreases s.len(),
{
    if s.len() != 0 && s[0] != 0x0Au8 {
        lemma_first_break(s.skip(1));
        assert forall|j: int| 0 <= j < first_break(s) implies s[j] != 0x0Au8 by {
            if j > 0 {
                assert(s.skip(1)[j - 1] == s[j]);
            }
        }
        if first_break(s) < s.len() {
            assert(s.skip(1)[first_break(s) - 1] == s[first_break(s)]);
        }
    }
}

/// A line with its trailing carriage return removed, as the line-oriented
/// playlist text is read.
pub open spec fn strip_return(line: Seq<u8>) -> Seq<u8> {
    if line.len() > 0 && line.last() == 0x0Du8 {
        line.drop_last()
    } else {
        line
    }
}

/// The lines of the text: split at each line-break byte, each line stripped
/// of a trailing carriage return, with no final empty line after a trailing
/// line break.
pub open spec fn spec_lines(s: Seq<u8>) -> Seq<Seq<u8>>
    decreases s.len(),
{
    if s.len() == 0 {
        Seq::empty()
    } else {
        let k = first_break(s);
        if 0 <= k < s.len() {
            seq![strip_return(s.take(k))] + spec_lines(s.skip(k + 1))
        } else {
            seq![strip_return(s)]
        }
    }
}

/// The predicate keeping the lines that hold the URL marker.
pub open spec fn candidate_pred() -> spec_fn(Seq<u8>) -> bool {
    |line: Seq<u8>| is_candidate_line(line)
}

/// The part references of a playlist: its lines that hold the URL marker.
pub open spec fn spec_candidates(s: Seq<u8>) -> Seq<Seq<u8>> {
    spec_lines(s).filter(candidate_pred())
}

/// Whether the given playlist line holds the URL marker anywhere.
pub fn line_is_candidate(line: &Vec<u8>) -> (r: bool)
    ensures
        r == is_candidate_line(line@),
{
    let n = line.len();
    if n < 4 {
        return false;
    }
    let limit = n - 4;
    let mut i: usize = 0;
    while i <= limit
        invariant
            n == line@.len(),
            4 <= n,
            limit == n - 4,
            0 <= i <= limit + 1,
            forall|j: int| 0 <= j < i ==> !has_url_marker_at(line@, j),
        decreases limit + 1 - i,
    {
        if line[i] == 0x68u8 && line[i + 1] == 0x74u8 && line[i + 2] == 0x74u8 && line[i + 3]
            == 0x70u8 {
            proof {
                assert(has_url_marker_at(line@, i as int));
            }
            return true;
        }
        i = i + 1;
    }
    false
}

/// Splits the playlist text into lines and keeps those that name a part:
/// the compute half of stream construction, fed by whatever transport
/// fetched the playlist body.
pub fn extract_candidate_lines(data: &Vec<u8>) -> (r: Vec<Vec<u8>>)
    ensures
        r@.map_values(|line: Vec<u8>| line@) == spec_candidates(data@),
{
    let n = data.len();
    let mut r: Vec<Vec<u8>> = Vec::new();
    let mut pos: usize = 0;
    proof {
        assert(data@.skip(0) =~= data@);
        assert(r@.map_values(|line: Vec<u8>| line@) =~= Seq::<Seq<u8>>::empty());
        assert(Seq::<Seq<u8>>::empty() + spec_candidates(data@) =~= spec_candidates(data@));
    }
    while pos < n
        invariant
            0 <= pos <= n,
            n == data@.len(),
            r@.map_values(|line: Vec<u8>| line@) + spec_lines(data@.skip(pos as int)).filter(
                candidate_pred(),
            ) == spec_candidates(data@),
        decreases n - pos,
    {
        let mut k: usize = pos;
        while k < n && data[k] != 0x0Au8
            invariant
                pos <= k <= n,
                n == data@.len(),
                forall|j: int| pos <= j < k ==> data@[j] != 0x0Au8,
            decreases n - k,
        {
            k = k + 1;
        }
        let end = if k > pos && data[k - 1] == 0x0Du8 {
            k - 1
        } else {
            k
        };
        let mut line: Vec<u8> = Vec::new();
        let mut i: usize = pos;
        while i < end
            invariant
                pos <= i <= end,
                end <= n,
                n == data@.len(),
                line@ == data@.subrange(pos as int, i as int),
            decreases end - i,
        {
            line.push(data[i]);
            proof {
                assert(line@ =~= data@.subrange(pos as int, i as int + 1));
            }
            i = i + 1;
        }
        let next_pos = if k < n {
            k + 1
        } else {
            n
        };
        proof {
            let suffix = data@.skip(pos as int);
            let rest = data@.skip(next_pos as int);
            lemma_first_break(suffix);
            // The scan stopped exactly at the first line break of the suffix.
            assert forall|j: int| 0 <= j < k - pos implies suffix[j] != 0x0Au8 by {
                assert(suffix[j] == data@[pos + j]);
            }
            if first_break(suffix) < k - pos {
                assert(suffix[first_break(suffix)] == data@[pos + first_break(suffix)]);
                assert(false);
            }
            if k < n && first_break(suffix) > k - pos {
                assert(suffix[k - pos] == data@[k as int]);
                assert(false);
            }
            assert(first_break(suffix) == k - pos);
            // The copied bytes are this line, with the carriage return gone.
            assert(suffix.take(k - pos) =~= data@.subrange(pos as int, k as int));
            if k > pos && data@[k - 1] == 0x0Du8 {
                assert(suffix.take(k - pos).last() == 0x0Du8);
                assert(suffix.take(k - pos).drop_last() =~= data@.subrange(
                    pos as int,
                    end as int,
                ));
            }
            assert(strip_return(suffix.take(k - pos)) == line@);
            // One unfolding of the line decomposition.
            if k < n {
                assert(suffix.skip(k - pos + 1) =~= rest);
                assert(spec_lines(suffix) == seq![line@] + spec_lines(rest));
            } else {
                assert(suffix.take(k - pos) =~= suffix);
                assert(spec_lines(suffix) == seq![strip_return(suffix)]);
                assert(rest =~= Seq::<u8>::empty());
                assert(spec_lines(rest) =~= Seq::<Seq<u8>>::empty());
                assert(seq![line@] + spec_lines(rest) =~= seq![line@]);
                assert(spec_lines(suffix) == seq![line@] + spec_lines(rest));
            }
            // The filtered lines of this suffix: this line first, if kept.
            Seq::<Seq<u8>>::filter_distributes_over_add(
                seq![line@],
                spec_lines(rest),
                candidate_pred(),
            );
            reveal_with_fuel(Seq::<Seq<u8>>::filter, 3);
            let single = seq![line@];
            assert(single.drop_last() =~= Seq::<Seq<u8>>::empty());
            assert(single.last() == line@);
            assert(Seq::<Seq<u8>>::empty().push(line@) =~= single);
            assert(Seq::<Seq<u8>>::empty().filter(candidate_pred()) =~= Seq::<Seq<u8>>::empty());
            if candidate_pred()(line@) {
                assert(single.filter(candidate_pred()) == single);
            } else {
                assert(single.filter(candidate_pred()) == Seq::<Seq<u8>>::empty());
            }
        }
        if line_is_candidate(&line) {
            let ghost mapped = r@.map_values(|l: Vec<u8>| l@);
            r.push(line);
            proof {
                assert(r@.map_values(|l: Vec<u8>| l@) =~= mapped + seq![line@]);
                assert(mapped + seq![line@] + spec_lines(data@.skip(next_pos as int)).filter(
                    candidate_pred(),
                ) =~= spec_candidates(data@));
            }
        } else {
            proof {
                assert(r@.map_values(|l: Vec<u8>| l@) + spec_lines(
                    data@.skip(next_pos as int),
                ).filter(candidate_pred()) =~= spec_candidates(data@));
            }
        }
        pos = next_pos;
    }
    proof {
        assert(data@.skip(pos as int) =~= Seq::<u8>::empty());
        assert(spec_lines(data@.skip(pos as int)) =~= Seq::<Seq<u8>>::empty());
        assert(Seq::<Seq<u8>>::empty().filter(candidate_pred()) =~= Seq::<Seq<u8>>::empty());
        assert(r@.map_values(|line: Vec<u8>| line@) =~= r@.map_values(|line: Vec<u8>| line@)
            + Seq::<Seq<u8>>::empty());
    }
    r
}

} // verus!
