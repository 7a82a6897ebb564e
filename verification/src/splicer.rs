//! Puts the output together from the source text, the URL ranges and the
//! replacement strings.
//!
//! The text between two ranges (a gap) is copied as it stands; each range
//! gives way to its replacement. All of it is stated over bytes.

use vstd::prelude::*;
use vstd::utf8::*;
use vstd::string::*;
use crate::span::Span;

verus! {

/// The ranges lie inside the text on character boundaries, in rising order,
/// and none reaches into the next.
pub open spec fn ranges_wf(text: Seq<u8>, ranges: Seq<Span>) -> bool {
    &&& forall|i: int|
        0 <= i < ranges.len() ==> {
            &&& (#[trigger] ranges[i]).within(text.len())
            &&& is_char_boundary(text, ranges[i].start as int)
            &&& is_char_boundary(text, ranges[i].end as int)
        }
    &&& forall|i: int, j: int|
        0 <= i < j < ranges.len() ==> (#[trigger] ranges[i]).end <= (#[trigger] ranges[j]).start
}

/// Where gap `index` begins: at the end of the range in front of it.
pub open spec fn gap_start(ranges: Seq<Span>, index: int) -> int {
    if index <= 0 {
        0
    } else {
        ranges[index - 1].end as int
    }
}

/// Where gap `index` ends: at the start of the range behind it, or at the
/// end of the text.
pub open spec fn gap_end(text: Seq<u8>, ranges: Seq<Span>, index: int) -> int {
    if index < ranges.len() {
        ranges[index].start as int
    } else {
        text.len() as int
    }
}

/// The bytes of gap `index`. With `n` ranges there are `n + 1` gaps.
pub open spec fn gap(text: Seq<u8>, ranges: Seq<Span>, index: int) -> Seq<u8> {
    text.subrange(gap_start(ranges, index), gap_end(text, ranges, index))
}

/// The output up to and with the replacement of range `count - 1`.
pub open spec fn spliced_prefix(
    text: Seq<u8>,
    ranges: Seq<Span>,
    replacements: Seq<Seq<u8>>,
    count: nat,
) -> Seq<u8>
    decreases count,
{
    if count == 0 {
        Seq::empty()
    } else {
        spliced_prefix(text, ranges, replacements, (count - 1) as nat) + gap(
            text,
            ranges,
            count - 1,
        ) + replacements[count - 1]
    }
}

/// The whole output: gap, replacement, gap, replacement, and the last gap.
pub open spec fn spliced(text: Seq<u8>, ranges: Seq<Span>, replacements: Seq<Seq<u8>>) -> Seq<u8> {
    spliced_prefix(text, ranges, replacements, ranges.len()) + gap(
        text,
        ranges,
        ranges.len() as int,
    )
}

/// The UTF-8 bytes of each string.
pub open spec fn bytes_of_each(strings: Seq<String>) -> Seq<Seq<u8>> {
    strings.map_values(|s: String| encode_utf8(s@))
}

/// The bytes of two texts in a row are the bytes of the one, then of the other.
pub proof fn lemma_encode_concat(first: Seq<char>, second: Seq<char>)
    ensures
        encode_utf8(first + second) == encode_utf8(first) + encode_utf8(second),
    decreases first.len(),
{
    if first.len() == 0 {
        assert(first + second =~= second);
        assert(encode_utf8(first) + encode_utf8(second) =~= encode_utf8(second));
    } else {
        lemma_encode_concat(first.drop_first(), second);
        assert((first + second).drop_first() =~= first.drop_first() + second);
        assert(encode_utf8(first + second) =~= encode_utf8(first) + encode_utf8(second));
    }
}

/// A character boundary of a text is one of each prefix that reaches it.
proof fn lemma_boundary_in_prefix(text: Seq<u8>, from: int, to: int)
    requires
        valid_utf8(text),
        0 <= from <= to <= text.len(),
        is_char_boundary(text, from),
        is_char_boundary(text, to),
    ensures
        valid_utf8(text.subrange(0, to)),
        is_char_boundary(text.subrange(0, to), from),
{
    let head = text.subrange(0, to);
    valid_utf8_split(text, to);
    if from == to {
        is_char_boundary_start_end_of_seq(head);
    } else {
        is_char_boundary_iff_not_is_continuation_byte(text, from);
        is_char_boundary_iff_not_is_continuation_byte(head, from);
    }
}

/// The stretch of `text` from byte `from` up to byte `to`.
fn slice_between(text: &str, from: usize, to: usize) -> (piece: &str)
    requires
        from <= to <= text.spec_bytes().len(),
        is_char_boundary(text.spec_bytes(), from as int),
        is_char_boundary(text.spec_bytes(), to as int),
    ensures
        piece.spec_bytes() == text.spec_bytes().subrange(from as int, to as int),
{
    broadcast use encode_utf8_valid_utf8;

    let (head, _) = text.split_at(to);
    proof {
        lemma_boundary_in_prefix(text.spec_bytes(), from as int, to as int);
    }
    let (_, piece) = head.split_at(from);
    assert(piece.spec_bytes() =~= text.spec_bytes().subrange(from as int, to as int));
    piece
}

/// `String::with_capacity` of std: an empty string with room for `capacity`
/// bytes. Not proved: that the string is empty. Capacities that std refuses
/// with a panic, those over `isize::MAX`, are kept out.
#[verifier::external_body]
fn string_with_capacity(capacity: usize) -> (empty: String)
    requires
        capacity <= isize::MAX,
    ensures
        empty@ == Seq::<char>::empty(),
{
    String::with_capacity(capacity)
}

/// The length of the output in bytes, where a `usize` holds it.
fn output_len(text: &str, ranges: &Vec<Span>, replacements: &Vec<String>) -> (len: Option<usize>)
    requires
        ranges_wf(text.spec_bytes(), ranges@),
        replacements.len() == ranges.len(),
    ensures
        match len {
            Some(len) => len == spliced(
                text.spec_bytes(),
                ranges@,
                bytes_of_each(replacements@),
            ).len(),
            None => spliced(text.spec_bytes(), ranges@, bytes_of_each(replacements@)).len()
                > usize::MAX,
        },
{
    let ghost source = text.spec_bytes();
    let ghost inserted = bytes_of_each(replacements@);
    let mut kept: usize = text.as_bytes().len();
    let mut added: Option<usize> = Some(0);
    let mut i: usize = 0;
    while i < ranges.len()
        invariant
            i <= ranges.len(),
            replacements.len() == ranges.len(),
            source == text.spec_bytes(),
            inserted == bytes_of_each(replacements@),
            ranges_wf(source, ranges@),
            kept == source.len() - removed_len(ranges@, i as nat),
            match added {
                Some(sum) => sum == inserted_len(inserted, i as nat),
                None => inserted_len(inserted, i as nat) > usize::MAX,
            },
        decreases ranges.len() - i,
    {
        proof {
            lemma_prefix_len(source, ranges@, inserted, (i + 1) as nat);
            assert(inserted[i as int] == encode_utf8(replacements@[i as int]@));
        }
        let range = ranges[i];
        kept = kept - (range.end - range.start);
        let width: usize = replacements[i].as_str().as_bytes().len();
        added = match added {
            Some(sum) => sum.checked_add(width),
            None => None,
        };
        i += 1;
    }
    proof {
        lemma_spliced_len(source, ranges@, inserted);
    }
    match added {
        Some(sum) => kept.checked_add(sum),
        None => None,
    }
}

/// Builds the output text: the gaps of `text` as they stand, with
/// `replacements[i]` in the place of `ranges[i]`. The buffer is made once,
/// in the size of the output.
pub fn splice(text: &str, ranges: &Vec<Span>, replacements: &Vec<String>) -> (out: String)
    requires
        ranges_wf(text.spec_bytes(), ranges@),
        replacements.len() == ranges.len(),
    ensures
        encode_utf8(out@) == spliced(text.spec_bytes(), ranges@, bytes_of_each(replacements@)),
{
    broadcast use encode_utf8_valid_utf8;

    let ghost source = text.spec_bytes();
    let ghost inserted = bytes_of_each(replacements@);
    let mut out = match output_len(text, ranges, replacements) {
        Some(len) if len <= isize::MAX as usize => string_with_capacity(len),
        _ => String::new(),
    };
    let mut prev_end: usize = 0;
    let mut i: usize = 0;
    proof {
        is_char_boundary_start_end_of_seq(source);
    }
    while i < ranges.len()
        invariant
            i <= ranges.len(),
            replacements.len() == ranges.len(),
            source == text.spec_bytes(),
            inserted == bytes_of_each(replacements@),
            valid_utf8(source),
            is_char_boundary(source, source.len() as int),
            ranges_wf(source, ranges@),
            prev_end == gap_start(ranges@, i as int),
            prev_end <= source.len(),
            is_char_boundary(source, prev_end as int),
            encode_utf8(out@) == spliced_prefix(source, ranges@, inserted, i as nat),
        decreases ranges.len() - i,
    {
        let range = ranges[i];
        let ghost before = out@;
        let kept = slice_between(text, prev_end, range.start);
        out.append(kept);
        out.append(replacements[i].as_str());
        proof {
            lemma_encode_concat(before, kept@);
            lemma_encode_concat(before + kept@, replacements@[i as int]@);
            assert(inserted[i as int] == encode_utf8(replacements@[i as int]@));
        }
        prev_end = range.end;
        i += 1;
    }
    let ghost before = out@;
    let rest = slice_between(text, prev_end, text.as_bytes().len());
    out.append(rest);
    proof {
        lemma_encode_concat(before, rest@);
    }
    out
}

/// The bytes that the first `count` ranges cover, summed.
pub open spec fn removed_len(ranges: Seq<Span>, count: nat) -> nat
    decreases count,
{
    if count == 0 {
        0
    } else {
        removed_len(ranges, (count - 1) as nat) + ranges[count - 1].spec_len()
    }
}

/// The lengths of the first `count` replacements, summed.
pub open spec fn inserted_len(replacements: Seq<Seq<u8>>, count: nat) -> nat
    decreases count,
{
    if count == 0 {
        0
    } else {
        inserted_len(replacements, (count - 1) as nat) + replacements[count - 1].len()
    }
}

/// Where the byte at `position` of the text, lying in gap `index`, stands in
/// the output: moved by what was put in and taken out in front of it.
pub open spec fn output_position(
    ranges: Seq<Span>,
    replacements: Seq<Seq<u8>>,
    index: int,
    position: int,
) -> int {
    position - removed_len(ranges, index as nat) + inserted_len(replacements, index as nat)
}

/// The byte at `position` lies in gap `index`, so in no range.
pub open spec fn in_gap(text: Seq<u8>, ranges: Seq<Span>, index: int, position: int) -> bool {
    &&& 0 <= index <= ranges.len()
    &&& gap_start(ranges, index) <= position < gap_end(text, ranges, index)
}

/// The length of the output after `count` ranges.
proof fn lemma_prefix_len(
    text: Seq<u8>,
    ranges: Seq<Span>,
    replacements: Seq<Seq<u8>>,
    count: nat,
)
    requires
        ranges_wf(text, ranges),
        replacements.len() == ranges.len(),
        count <= ranges.len(),
    ensures
        spliced_prefix(text, ranges, replacements, count).len() == gap_start(ranges, count as int)
            - removed_len(ranges, count) + inserted_len(replacements, count),
        removed_len(ranges, count) <= gap_start(ranges, count as int) <= text.len(),
    decreases count,
{
    if count > 0 {
        let last = (count - 1) as nat;
        lemma_prefix_len(text, ranges, replacements, last);
        assert(ranges[last as int].within(text.len()));
        if last > 0 {
            assert(ranges[last - 1].end <= ranges[last as int].start);
        }
    }
}

/// The output only grows from range to range.
proof fn lemma_prefix_grows(
    text: Seq<u8>,
    ranges: Seq<Span>,
    replacements: Seq<Seq<u8>>,
    index: nat,
    upto: nat,
)
    requires
        index < upto,
    ensures
        spliced_prefix(text, ranges, replacements, index).len() + gap(text, ranges, index as int).len()
            <= spliced_prefix(text, ranges, replacements, upto).len(),
        forall|j: int|
            0 <= j < spliced_prefix(text, ranges, replacements, index).len() + gap(
                text,
                ranges,
                index as int,
            ).len() ==> spliced_prefix(text, ranges, replacements, upto)[j] == (spliced_prefix(
                text,
                ranges,
                replacements,
                index,
            ) + gap(text, ranges, index as int))[j],
    decreases upto,
{
    if index + 1 < upto {
        lemma_prefix_grows(text, ranges, replacements, index, (upto - 1) as nat);
    }
}

/// With no range the output is the text.
pub proof fn lemma_no_ranges_no_change(text: Seq<u8>)
    ensures
        spliced(text, Seq::empty(), Seq::empty()) == text,
{
    assert(spliced(text, Seq::empty(), Seq::empty()) =~= text);
}

/// The output is as long as the text, less the bytes of the ranges, plus the
/// bytes of the replacements.
pub proof fn lemma_spliced_len(text: Seq<u8>, ranges: Seq<Span>, replacements: Seq<Seq<u8>>)
    requires
        ranges_wf(text, ranges),
        replacements.len() == ranges.len(),
    ensures
        spliced(text, ranges, replacements).len() == text.len() - removed_len(
            ranges,
            ranges.len(),
        ) + inserted_len(replacements, ranges.len()),
{
    lemma_prefix_len(text, ranges, replacements, ranges.len());
}

/// Each byte of the text that lies in no range stands unchanged in the
/// output, at its own place moved by the replacements in front of it.
pub proof fn lemma_outside_bytes_kept(
    text: Seq<u8>,
    ranges: Seq<Span>,
    replacements: Seq<Seq<u8>>,
    index: int,
    position: int,
)
    requires
        ranges_wf(text, ranges),
        replacements.len() == ranges.len(),
        in_gap(text, ranges, index, position),
    ensures
        0 <= output_position(ranges, replacements, index, position) < spliced(
            text,
            ranges,
            replacements,
        ).len(),
        spliced(text, ranges, replacements)[output_position(ranges, replacements, index, position)]
            == text[position],
{
    let count = ranges.len();
    lemma_prefix_len(text, ranges, replacements, index as nat);
    lemma_prefix_len(text, ranges, replacements, count);
    if index < count {
        assert(ranges[index].within(text.len()));
        lemma_prefix_grows(text, ranges, replacements, index as nat, count);
    }
}

/// Two bytes of the text that lie in no range keep their order in the output.
pub proof fn lemma_outside_order_kept(
    text: Seq<u8>,
    ranges: Seq<Span>,
    replacements: Seq<Seq<u8>>,
    first_index: int,
    first: int,
    second_index: int,
    second: int,
)
    requires
        ranges_wf(text, ranges),
        replacements.len() == ranges.len(),
        in_gap(text, ranges, first_index, first),
        in_gap(text, ranges, second_index, second),
        first < second,
    ensures
        output_position(ranges, replacements, first_index, first) < output_position(
            ranges,
            replacements,
            second_index,
            second,
        ),
{
    lemma_prefix_len(text, ranges, replacements, first_index as nat);
    lemma_prefix_len(text, ranges, replacements, second_index as nat);
    if first_index < second_index {
        assert(ranges[first_index].within(text.len()));
        lemma_prefix_grows(text, ranges, replacements, first_index as nat, second_index as nat);
    } else if second_index < first_index {
        assert(ranges[second_index].within(text.len()));
        assert(ranges[first_index - 1].within(text.len()));
    }
}

/// Each replacement stands whole in the output, right behind the gap in
/// front of its range.
pub proof fn lemma_replacement_placed(
    text: Seq<u8>,
    ranges: Seq<Span>,
    replacements: Seq<Seq<u8>>,
    index: int,
)
    requires
        ranges_wf(text, ranges),
        replacements.len() == ranges.len(),
        0 <= index < ranges.len(),
    ensures
        ({
            let at = output_position(ranges, replacements, index, ranges[index].start as int);
            &&& 0 <= at
            &&& at + replacements[index].len() <= spliced(text, ranges, replacements).len()
            &&& spliced(text, ranges, replacements).subrange(at, at + replacements[index].len())
                == replacements[index]
        }),
{
    let count = ranges.len();
    let whole = spliced(text, ranges, replacements);
    let at = output_position(ranges, replacements, index, ranges[index].start as int);
    lemma_prefix_len(text, ranges, replacements, index as nat);
    lemma_prefix_len(text, ranges, replacements, (index + 1) as nat);
    lemma_prefix_len(text, ranges, replacements, count);
    assert(ranges[index].within(text.len()));
    let through = spliced_prefix(text, ranges, replacements, (index + 1) as nat);
    assert(through.subrange(at, at + replacements[index].len()) =~= replacements[index]);
    if index + 1 < count {
        assert(ranges[index + 1].within(text.len()));
        lemma_prefix_grows(text, ranges, replacements, (index + 1) as nat, count);
    }
    assert(whole.subrange(at, at + replacements[index].len()) =~= replacements[index]);
}

/// The output is settled by the text, the ranges and the replacements: two
/// strings that both spell it are the same string.
pub proof fn lemma_output_determined(
    text: Seq<u8>,
    ranges: Seq<Span>,
    replacements: Seq<Seq<u8>>,
    first: Seq<char>,
    second: Seq<char>,
)
    requires
        encode_utf8(first) == spliced(text, ranges, replacements),
        encode_utf8(second) == spliced(text, ranges, replacements),
    ensures
        first == second,
{
    encode_utf8_decode_utf8(first);
    encode_utf8_decode_utf8(second);
}

} // verus!
