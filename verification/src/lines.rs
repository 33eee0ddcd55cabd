//! Input as a sequence of lines: where each line ends, and what is left of
//! it once its line ending is taken away.

use vstd::prelude::*;

verus! {

/// The line feed, which ends a line.
pub const LF: u8 = 10;

/// The carriage return, which may stand before the line feed.
pub const CR: u8 = 13;

/// The position of the first line feed in `data`, or the length of `data`
/// where it holds none.
pub open spec fn newline_at(data: Seq<u8>) -> int
    decreases data.len(),
{
    if data.len() == 0 || data[0] == LF {
        0
    } else {
        1 + newline_at(data.drop_first())
    }
}

/// The length of the first line of `data`, its line feed included. The last
/// line of an input need not end in a line feed.
pub open spec fn first_line_len(data: Seq<u8>) -> int {
    if newline_at(data) < data.len() {
        newline_at(data) + 1
    } else {
        data.len() as int
    }
}

/// The lines of `data`, each with its line ending. An empty input has no
/// line; any other input is the concatenation of its lines.
pub open spec fn lines_of(data: Seq<u8>) -> Seq<Seq<u8>>
    decreases data.len(),
    via lines_of_decreases
{
    if data.len() == 0 {
        Seq::empty()
    } else {
        seq![data.take(first_line_len(data))] + lines_of(data.skip(first_line_len(data)))
    }
}

#[via_fn]
proof fn lines_of_decreases(data: Seq<u8>) {
    lemma_newline_at_bounds(data);
}

/// A line without its line ending: a final line feed is taken away, and a
/// carriage return just before that line feed with it.
pub open spec fn strip_eol(line: Seq<u8>) -> Seq<u8> {
    if line.len() > 0 && line.last() == LF {
        if line.len() > 1 && line[line.len() - 2] == CR {
            line.take(line.len() - 2)
        } else {
            line.take(line.len() - 1)
        }
    } else {
        line
    }
}

/// The first line feed lies within the data, or at its end.
pub proof fn lemma_newline_at_bounds(data: Seq<u8>)
    ensures
        0 <= newline_at(data) <= data.len(),
        newline_at(data) < data.len() ==> data[newline_at(data)] == LF,
        forall|i: int| 0 <= i < newline_at(data) ==> #[trigger] data[i] != LF,
    decreases data.len(),
{
    if !(data.len() == 0 || data[0] == LF) {
        let rest = data.drop_first();
        lemma_newline_at_bounds(rest);
        assert forall|i: int| 0 <= i < newline_at(data) implies #[trigger] data[i] != LF by {
            if i > 0 {
                assert(data[i] == rest[i - 1]);
            }
        }
    }
}

/// The first position without a line feed before it and with one on it, or
/// the end, is where the first line feed is.
pub proof fn lemma_newline_found(data: Seq<u8>, k: int)
    requires
        0 <= k <= data.len(),
        forall|i: int| 0 <= i < k ==> #[trigger] data[i] != LF,
        k == data.len() || data[k] == LF,
    ensures
        newline_at(data) == k,
    decreases k,
{
    if k > 0 {
        let rest = data.drop_first();
        assert forall|i: int| 0 <= i < k - 1 implies #[trigger] rest[i] != LF by {
            assert(rest[i] == data[i + 1]);
        }
        lemma_newline_found(rest, k - 1);
    }
}

/// Where the line that starts at `pos` ends: the position just after its
/// line feed, or the end of the data.
pub fn line_end(data: &[u8], pos: usize) -> (end: usize)
    requires
        pos < data@.len(),
    ensures
        pos < end <= data@.len(),
        end - pos == first_line_len(data@.skip(pos as int)),
        data@.subrange(pos as int, end as int) == lines_of(data@.skip(pos as int))[0],
        lines_of(data@.skip(pos as int)) == seq![data@.subrange(pos as int, end as int)]
            + lines_of(data@.skip(end as int)),
{
    let mut i: usize = pos;
    while i < data.len() && data[i] != LF
        invariant
            pos <= i <= data@.len(),
            forall|j: int| pos <= j < i ==> #[trigger] data@[j] != LF,
        decreases data@.len() - i,
    {
        i += 1;
    }
    let end: usize = if i < data.len() {
        i + 1
    } else {
        i
    };
    proof {
        let rest = data@.skip(pos as int);
        assert forall|j: int| 0 <= j < i - pos implies #[trigger] rest[j] != LF by {
            assert(rest[j] == data@[pos + j]);
        }
        lemma_newline_found(rest, i - pos);
        assert(rest.take(end - pos) == data@.subrange(pos as int, end as int));
        assert(rest.skip(end - pos) == data@.skip(end as int));
    }
    end
}

/// The length of the line once its line ending is taken away.
pub fn stripped_len(line: &[u8]) -> (n: usize)
    ensures
        n <= line@.len(),
        line@.take(n as int) == strip_eol(line@),
{
    let n: usize = line.len();
    if n > 0 && line[n - 1] == LF {
        if n > 1 && line[n - 2] == CR {
            n - 2
        } else {
            n - 1
        }
    } else {
        proof {
            assert(line@.take(n as int) == line@);
        }
        n
    }
}

} // verus!
