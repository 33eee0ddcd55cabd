//! The three extractors: what a list of selectors picks out of one line.

use crate::cutr::record::{csv_line, field_at, field_count, record_fields, texts};
use crate::text::{chars_of, decode_lossy, text_of, utf8_lossy};
use csv::StringRecord;
use std::ops::Range;
use vstd::prelude::*;
use vstd::utf8::{
    decode_utf8, encode_utf8, encode_utf8_decode_utf8, encode_utf8_valid_utf8, is_ascii_chars,
    is_ascii_chars_encode_utf8, valid_utf8,
};

verus! {

/// What one selector picks out of `items`: the items at the positions of
/// `[start, end)` that exist, in ascending order of position.
pub open spec fn slice_of<T>(items: Seq<T>, sel: Range<usize>) -> Seq<T> {
    if sel.start < sel.end && sel.start < items.len() {
        items.subrange(
            sel.start as int,
            if sel.end <= items.len() {
                sel.end as int
            } else {
                items.len() as int
            },
        )
    } else {
        Seq::empty()
    }
}

/// What a list of selectors picks out of `items`: the contribution of each
/// selector, one after the other in the order of the list.
pub open spec fn select<T>(items: Seq<T>, sels: Seq<Range<usize>>) -> Seq<T>
    decreases sels.len(),
{
    if sels.len() == 0 {
        Seq::empty()
    } else {
        select(items, sels.drop_last()) + slice_of(items, sels.last())
    }
}

/// Appends to `out` what `sel` picks out of `items`.
fn push_slice<T: Copy>(out: &mut Vec<T>, items: &[T], sel: &Range<usize>)
    ensures
        final(out)@ == old(out)@ + slice_of(items@, *sel),
{
    let n: usize = items.len();
    if sel.start < sel.end && sel.start < n {
        let stop: usize = if sel.end <= n {
            sel.end
        } else {
            n
        };
        let mut i: usize = sel.start;
        while i < stop
            invariant
                sel.start <= i <= stop <= n,
                n == items@.len(),
                out@ == old(out)@ + items@.subrange(sel.start as int, i as int),
            decreases stop - i,
        {
            out.push(items[i]);
            i += 1;
        }
    }
}

/// The items that the selectors pick, in the order of the selectors.
fn select_copy<T: Copy>(items: &[T], sels: &[Range<usize>]) -> (out: Vec<T>)
    ensures
        out@ == select(items@, sels@),
{
    let mut out: Vec<T> = Vec::new();
    let mut k: usize = 0;
    while k < sels.len()
        invariant
            k <= sels@.len(),
            out@ == select(items@, sels@.take(k as int)),
        decreases sels@.len() - k,
    {
        push_slice(&mut out, items, &sels[k]);
        proof {
            assert(sels@.take(k + 1).drop_last() == sels@.take(k as int));
        }
        k += 1;
    }
    proof {
        assert(sels@.take(k as int) == sels@);
    }
    out
}

/// The positions `0, 1, ..., n - 1`.
pub open spec fn positions(n: nat) -> Seq<int> {
    Seq::new(n, |i: int| i)
}

/// The items at the given positions, in the order of the positions.
pub open spec fn pick<T>(items: Seq<T>, at: Seq<int>) -> Seq<T> {
    Seq::new(at.len(), |k: int| items[at[k]])
}

/// The selectors, taken in order, cover each position below `n` exactly
/// once and in ascending order.
pub open spec fn spans_in_order(sels: Seq<Range<usize>>, n: nat) -> bool {
    select(positions(n), sels) == positions(n)
}

/// Selector order is kept: what a list of selectors picks is what its first
/// part picks followed by what its second part picks, whether or not the
/// selectors overlap or repeat.
pub proof fn lemma_select_concat<T>(
    items: Seq<T>,
    first: Seq<Range<usize>>,
    second: Seq<Range<usize>>,
)
    ensures
        select(items, first + second) == select(items, first) + select(items, second),
    decreases second.len(),
{
    if second.len() == 0 {
        assert(first + second == first);
        assert(select(items, first) + select(items, second) == select(items, first));
    } else {
        lemma_select_concat(items, first, second.drop_last());
        assert((first + second).drop_last() == first + second.drop_last());
        assert((first + second).last() == second.last());
        assert(select(items, first + second) == (select(items, first) + select(
            items,
            second.drop_last(),
        )) + slice_of(items, second.last()));
        assert(select(items, first + second) == select(items, first) + select(items, second));
    }
}

/// A single selector picks its own contribution.
pub proof fn lemma_select_one<T>(items: Seq<T>, sel: Range<usize>)
    ensures
        select(items, seq![sel]) == slice_of(items, sel),
{
    assert(seq![sel].drop_last() == Seq::<Range<usize>>::empty());
    assert(select(items, seq![sel].drop_last()) == Seq::<T>::empty());
    assert(Seq::<T>::empty() + slice_of(items, sel) == slice_of(items, sel));
}

/// Positions that do not exist are passed over: selectors that all start at
/// or beyond the end pick nothing.
pub proof fn lemma_select_beyond_end<T>(items: Seq<T>, sels: Seq<Range<usize>>)
    requires
        forall|i: int| 0 <= i < sels.len() ==> (#[trigger] sels[i]).start >= items.len(),
    ensures
        select(items, sels) == Seq::<T>::empty(),
    decreases sels.len(),
{
    if sels.len() > 0 {
        lemma_select_beyond_end(items, sels.drop_last());
        assert(Seq::<T>::empty() + Seq::<T>::empty() == Seq::<T>::empty());
    }
}

/// A selector picks the same whether it ends at the end of the items or
/// anywhere beyond it.
pub proof fn lemma_slice_clipped<T>(items: Seq<T>, sel: Range<usize>, clipped: Range<usize>)
    requires
        sel.end >= items.len(),
        clipped.start == sel.start,
        clipped.end == items.len(),
    ensures
        slice_of(items, sel) == slice_of(items, clipped),
{
}

/// What the selectors pick is the items at the positions that they pick,
/// and each such position exists.
pub proof fn lemma_select_positions<T>(items: Seq<T>, sels: Seq<Range<usize>>)
    ensures
        forall|k: int|
            0 <= k < select(positions(items.len()), sels).len() ==> 0 <= #[trigger] select(
                positions(items.len()),
                sels,
            )[k] < items.len(),
        select(items, sels) == pick(items, select(positions(items.len()), sels)),
    decreases sels.len(),
{
    let all = positions(items.len());
    if sels.len() == 0 {
        assert(select(items, sels) == pick(items, select(all, sels)));
    } else {
        lemma_select_positions(items, sels.drop_last());
        let head = select(all, sels.drop_last());
        let tail = slice_of(all, sels.last());
        assert forall|k: int| 0 <= k < (head + tail).len() implies 0 <= #[trigger] (head + tail)[k]
            < items.len() by {
            if k >= head.len() {
                assert((head + tail)[k] == tail[k - head.len()]);
            }
        }
        assert(select(items, sels) == pick(items, head + tail));
    }
}

/// Taking every position once, in order, gives the items back.
pub proof fn lemma_select_round_trip<T>(items: Seq<T>, sels: Seq<Range<usize>>)
    requires
        spans_in_order(sels, items.len()),
    ensures
        select(items, sels) == items,
{
    lemma_select_positions(items, sels);
    assert(pick(items, positions(items.len())) == items);
}

/// The one selector `[0, n)` covers each position below `n` once, in order.
pub proof fn lemma_whole_range_spans(n: usize)
    ensures
        spans_in_order(seq![Range { start: 0, end: n }], n as nat),
{
    let whole = Range { start: 0usize, end: n };
    lemma_select_one(positions(n as nat), whole);
    assert(slice_of(positions(n as nat), whole) == positions(n as nat));
}

/// A record whose fields are all selected, once and in order, is written as
/// the record itself is.
pub proof fn lemma_record_round_trip(
    fields: Seq<Seq<char>>,
    sels: Seq<Range<usize>>,
    delimiter: u8,
)
    requires
        spans_in_order(sels, fields.len()),
    ensures
        select(fields, sels) == fields,
        csv_line(select(fields, sels), delimiter) == csv_line(fields, delimiter),
{
    lemma_select_round_trip(fields, sels);
}

/// Every item that the selectors pick is one of the items.
pub proof fn lemma_select_members<T>(items: Seq<T>, sels: Seq<Range<usize>>)
    ensures
        forall|k: int|
            0 <= k < select(items, sels).len() ==> items.contains(#[trigger] select(items, sels)[k]),
{
    lemma_select_positions(items, sels);
    let at = select(positions(items.len()), sels);
    assert forall|k: int| 0 <= k < select(items, sels).len() implies items.contains(
        #[trigger] select(items, sels)[k],
    ) by {
        assert(select(items, sels)[k] == items[at[k]]);
    }
}

/// Out of text that is all ASCII, the bytes that the selectors pick encode
/// the characters that they pick.
pub proof fn lemma_ascii_bytes(line: Seq<char>, sels: Seq<Range<usize>>)
    requires
        is_ascii_chars(line),
    ensures
        select(encode_utf8(line), sels) == encode_utf8(select(line, sels)),
{
    let bytes = encode_utf8(line);
    let picked = select(line, sels);
    is_ascii_chars_encode_utf8(line);
    lemma_select_positions(line, sels);
    lemma_select_positions(bytes, sels);
    lemma_select_members(line, sels);
    assert(is_ascii_chars(picked));
    is_ascii_chars_encode_utf8(picked);
    let at = select(positions(line.len()), sels);
    assert forall|k: int| 0 <= k < picked.len() implies select(bytes, sels)[k] == encode_utf8(
        picked,
    )[k] by {
        assert(select(bytes, sels)[k] == bytes[at[k]]);
        assert(picked[k] == line[at[k]]);
    }
    assert(select(bytes, sels) == encode_utf8(picked));
}

/// The characters of `line` that the selectors pick, in selector order.
/// Positions count characters, so no character is ever cut apart.
pub fn extract_chars(line: &str, char_pos: &[Range<usize>]) -> (text: String)
    ensures
        text@ == select(line@, char_pos@),
        forall|k: int| 0 <= k < text@.len() ==> line@.contains(#[trigger] text@[k]),
{
    proof {
        lemma_select_members(line@, char_pos@);
    }
    let chars = chars_of(line);
    let selected = select_copy(chars.as_slice(), char_pos);
    text_of(&selected)
}

/// The bytes of `line` that the selectors pick, in selector order, decoded
/// leniently: where the picked bytes cut a character apart, a replacement
/// character stands in the result. Where the picked bytes are well-formed,
/// the result is the text that they encode; out of a line that is all ASCII
/// it is the characters at the selected positions.
pub fn extract_bytes(line: &str, byte_pos: &[Range<usize>]) -> (text: String)
    ensures
        text@ == utf8_lossy(select(encode_utf8(line@), byte_pos@)),
        valid_utf8(select(encode_utf8(line@), byte_pos@)) ==> text@ == decode_utf8(
            select(encode_utf8(line@), byte_pos@),
        ),
        is_ascii_chars(line@) ==> text@ == select(line@, byte_pos@),
{
    proof {
        if is_ascii_chars(line@) {
            lemma_ascii_bytes(line@, byte_pos@);
            encode_utf8_valid_utf8(select(line@, byte_pos@));
            encode_utf8_decode_utf8(select(line@, byte_pos@));
        }
    }
    let selected = select_copy(line.as_bytes(), byte_pos);
    decode_lossy(selected.as_slice())
}

/// The fields of `records` that the selectors pick, in selector order. A
/// field that several selectors cover comes out once for each of them, and a
/// position that the record does not have contributes nothing.
pub fn extract_fields<'a>(records: &'a StringRecord, field_pos: &[Range<usize>]) -> (out: Vec<
    &'a str,
>)
    ensures
        texts(out@) == select(record_fields(*records), field_pos@),
{
    let ghost fields = record_fields(*records);
    let n: usize = field_count(records);
    let mut out: Vec<&'a str> = Vec::new();
    let mut k: usize = 0;
    proof {
        assert(texts(out@) == Seq::<Seq<char>>::empty());
    }
    while k < field_pos.len()
        invariant
            k <= field_pos@.len(),
            fields == record_fields(*records),
            n == fields.len(),
            texts(out@) == select(fields, field_pos@.take(k as int)),
        decreases field_pos@.len() - k,
    {
        let sel = &field_pos[k];
        let ghost before = texts(out@);
        if sel.start < sel.end && sel.start < n {
            let stop: usize = if sel.end <= n {
                sel.end
            } else {
                n
            };
            let mut i: usize = sel.start;
            while i < stop
                invariant
                    sel.start <= i <= stop <= n,
                    fields == record_fields(*records),
                    n == fields.len(),
                    texts(out@) == before + fields.subrange(sel.start as int, i as int),
                decreases stop - i,
            {
                let ghost so_far = out@;
                match field_at(records, i) {
                    Some(f) => {
                        out.push(f);
                        proof {
                            assert(texts(out@) == texts(so_far).push(f@));
                        }
                    },
                    None => {},
                }
                i += 1;
            }
        }
        proof {
            assert(field_pos@.take(k + 1).drop_last() == field_pos@.take(k as int));
        }
        k += 1;
    }
    proof {
        assert(field_pos@.take(k as int) == field_pos@);
    }
    out
}

} // verus!
