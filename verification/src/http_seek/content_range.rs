//! The `Content-Range` header.

use vstd::prelude::*;

use crate::text::{blank, decimal_bytes, find_byte, first_index, law_first_index, law_parse_decimal, law_trims, lemma_decimal_bytes, lemma_first_index_behind, parse_u64, parsed_u64, trim, trimmed};

verus! {

/// Whether a header value with these bytes is readable text.
pub open spec fn is_header_text(value: Seq<u8>) -> bool {
    forall|i: int| 0 <= i < value.len() ==> 32 <= #[trigger] value[i] < 127 || value[i] == 9
}

/// `reqwest::header::HeaderValue::to_str`: a value is text exactly where all of its bytes are
/// visible ASCII, spaces or tabs, and the text has the same bytes.
#[verifier::external_body]
fn header_text(value: &[u8]) -> (r: Option<Vec<u8>>)
    ensures
        r is Some == is_header_text(value@),
        r is Some ==> r->0@ == value@,
{
    let header = reqwest::header::HeaderValue::from_bytes(value).ok()?;
    header.to_str().ok().map(|text| text.as_bytes().to_vec())
}

/// `bytes `, the unit in front of a range.
pub open spec fn bytes_unit() -> Seq<u8> {
    seq![98, 121, 116, 101, 115, 32]
}

/// `bytes START-END/TOTAL`.
pub open spec fn content_range(start: u64, end: u64, total: u64) -> Seq<u8> {
    bytes_unit() + decimal_bytes(start as nat) + seq![45u8] + decimal_bytes(end as nat) + seq![47u8]
        + decimal_bytes(total as nat)
}

/// The number between the unit and the first dash of a header value.
pub open spec fn range_start(value: Seq<u8>) -> Option<u64> {
    let text = trimmed(value);
    if !is_header_text(value) || text.len() < 6 || text.take(6) != bytes_unit() {
        None
    } else {
        let range = text.skip(6);
        let dash = first_index(range, 45);
        if dash == range.len() {
            None
        } else {
            parsed_u64(trimmed(range.take(dash)))
        }
    }
}

/// The number between the first slash of a header value and the second, or the end.
pub open spec fn range_total(value: Seq<u8>) -> Option<u64> {
    let slash = first_index(value, 47);
    if !is_header_text(value) || slash == value.len() {
        None
    } else {
        let tail = value.skip(slash + 1);
        parsed_u64(trimmed(tail.take(first_index(tail, 47))))
    }
}

/// The start of the range that a response carries, from the value of its header.
pub fn content_range_start(value: &[u8]) -> (r: Option<u64>)
    ensures
        r == range_start(value@),
{
    let header: Vec<u8> = match header_text(value) {
        Some(header) => header,
        None => {
            return None;
        },
    };
    let text = trim(header.as_slice());
    if text.len() < 6 {
        return None;
    }
    if text[0] != 98 || text[1] != 121 || text[2] != 116 || text[3] != 101 || text[4] != 115
        || text[5] != 32 {
        proof {
            let unit = bytes_unit();
            assert(unit[0] == 98 && unit[1] == 121 && unit[2] == 116 && unit[3] == 101 && unit[4]
                == 115 && unit[5] == 32);
            assert(text@.take(6)[0] == text@[0]);
            assert(text@.take(6)[1] == text@[1]);
            assert(text@.take(6)[2] == text@[2]);
            assert(text@.take(6)[3] == text@[3]);
            assert(text@.take(6)[4] == text@[4]);
            assert(text@.take(6)[5] == text@[5]);
        }
        return None;
    }
    assert(text@.take(6) =~= bytes_unit());
    let range = vstd::slice::slice_subrange(text, 6, text.len());
    assert(range@ =~= text@.skip(6));
    let dash: usize = find_byte(range, 45);
    if dash == range.len() {
        return None;
    }
    let start = vstd::slice::slice_subrange(range, 0, dash);
    assert(start@ =~= range@.take(dash as int));
    parse_u64(trim(start))
}

/// The total size that a response reports, from the value of its header.
pub fn content_range_total(value: &[u8]) -> (r: Option<u64>)
    ensures
        r == range_total(value@),
{
    let header: Vec<u8> = match header_text(value) {
        Some(header) => header,
        None => {
            return None;
        },
    };
    let text = header.as_slice();
    let slash: usize = find_byte(text, 47);
    if slash == text.len() {
        return None;
    }
    let tail = vstd::slice::slice_subrange(text, slash + 1, text.len());
    assert(tail@ =~= value@.skip(slash + 1));
    let total = vstd::slice::slice_subrange(tail, 0, find_byte(tail, 47));
    assert(total@ =~= tail@.take(first_index(tail@, 47)));
    parse_u64(trim(total))
}

/// Digits are not trimmed, and hold neither dash nor slash.
proof fn lemma_digits(n: u64)
    ensures
        trimmed(decimal_bytes(n as nat)) == decimal_bytes(n as nat),
        parsed_u64(trimmed(decimal_bytes(n as nat))) == Some(n),
        forall|i: int|
            0 <= i < decimal_bytes(n as nat).len() ==> 48 <= #[trigger] decimal_bytes(n as nat)[i]
                <= 57,
{
    lemma_decimal_bytes(n as nat);
    law_parse_decimal(n);
}

/// Both parsers read back what a well-formed header says.
pub proof fn law_content_range(start: u64, end: u64, total: u64)
    ensures
        range_start(content_range(start, end, total)) == Some(start),
        range_total(content_range(start, end, total)) == Some(total),
{
    let value = content_range(start, end, total);
    let s = decimal_bytes(start as nat);
    let e = decimal_bytes(end as nat);
    let t = decimal_bytes(total as nat);
    lemma_digits(start);
    lemma_digits(end);
    lemma_digits(total);
    lemma_decimal_bytes(start as nat);
    lemma_decimal_bytes(total as nat);
    let head = bytes_unit() + s + seq![45u8] + e;
    assert(value =~= head + (seq![47u8] + t));
    assert forall|i: int| 0 <= i < head.len() implies (32 <= #[trigger] head[i] < 127 && head[i] != 47) by {
        if i < 6 {
            assert(head[i] == bytes_unit()[i]);
        } else if i < 6 + s.len() {
            assert(head[i] == s[i - 6]);
        } else if i == 6 + s.len() {
        } else {
            assert(head[i] == e[i - 7 - s.len()]);
        }
    }
    assert forall|i: int| 0 <= i < value.len() implies 32 <= #[trigger] value[i] < 127 by {
        if i < head.len() {
            assert(value[i] == head[i]);
        } else if i > head.len() {
            assert(value[i] == t[i - head.len() - 1]);
        }
    }
    assert(value.last() == t.last());
    assert(value[0] == 98);
    assert(trimmed(value) == value);
    assert(value.take(6) =~= bytes_unit());
    let range = value.skip(6);
    assert(range =~= s + (seq![45u8] + e + seq![47u8] + t));
    lemma_first_index_behind(s, 45, seq![45u8] + e + seq![47u8] + t);
    assert(range.take(s.len() as int) =~= s);
    lemma_first_index_behind(head, 47, seq![47u8] + t);
    let tail = value.skip(head.len() as int + 1);
    assert(tail =~= t);
    lemma_first_index_behind(t, 47, Seq::empty());
    assert(t + Seq::<u8>::empty() =~= t);
    assert(tail.take(t.len() as int) =~= t);
}

/// A header value is text exactly where it holds nothing but visible ASCII, blanks and tabs; other
/// values are not read at all.
pub proof fn law_header_text(value: Seq<u8>, i: int)
    ensures
        (forall|k: int| 0 <= k < value.len() ==> ' ' as u8 <= #[trigger] value[k] <= '~' as u8 || value[k] == 9)
            ==> is_header_text(value),
        0 <= i < value.len() && !(' ' as u8 <= value[i] <= '~' as u8 || value[i] == 9) ==> range_start(
            value,
        ) is None && range_total(value) is None,
{
}

/// The start is the number between the unit and the first dash, blanks around it or around the
/// whole aside.
pub proof fn law_reads_start(before: Seq<u8>, number: Seq<u8>, behind: Seq<u8>)
    requires
        blank(before),
        forall|i: int| 0 <= i < number.len() ==> #[trigger] number[i] != '-' as u8,
        is_header_text(
            before + seq![
                'b' as u8,
                'y' as u8,
                't' as u8,
                'e' as u8,
                's' as u8,
                ' ' as u8,
            ] + number + seq!['-' as u8] + behind,
        ),
    ensures
        range_start(
            before + seq![
                'b' as u8,
                'y' as u8,
                't' as u8,
                'e' as u8,
                's' as u8,
                ' ' as u8,
            ] + number + seq!['-' as u8] + behind,
        ) == parsed_u64(trimmed(number)),
{
    let unit = seq!['b' as u8, 'y' as u8, 't' as u8, 'e' as u8, 's' as u8, ' ' as u8];
    assert(unit =~= bytes_unit());
    let core = unit + number + seq![45u8];
    let value = before + unit + number + seq![45u8] + behind;
    let k = lemma_blank_tail(behind);
    let text = core + behind.take(k);
    assert(value =~= before + text + behind.skip(k));
    assert(text[0] == 98);
    assert(seq![text[0]][0] == 98u8);
    assert(!blank(seq![text[0]]));
    if k > 0 {
        assert(text.last() == behind[k - 1]);
    } else {
        assert(text.last() == 45);
        assert(seq![text.last()][0] == 45u8);
    }
    law_trims(before, text, behind.skip(k));
    assert(text.take(6) =~= bytes_unit());
    let range = text.skip(6);
    assert(range =~= number + (seq![45u8] + behind.take(k)));
    lemma_first_index_behind(number, 45, seq![45u8] + behind.take(k));
    assert((seq![45u8] + behind.take(k))[0] == 45);
    assert(range.take(number.len() as int) =~= number);
}

/// A value without the unit, or without a dash behind it, has no start.
pub proof fn law_reads_no_start(value: Seq<u8>)
    requires
        value.len() > 0,
        !blank(seq![value[0]]),
        !blank(seq![value.last()]),
    ensures
        value.len() < 6 ==> range_start(value) is None,
        value.len() >= 6 && value.take(6) != seq![
            'b' as u8,
            'y' as u8,
            't' as u8,
            'e' as u8,
            's' as u8,
            ' ' as u8,
        ] ==> range_start(value) is None,
        (forall|i: int| 0 <= i < value.len() ==> #[trigger] value[i] != '-' as u8) ==> range_start(
            value,
        ) is None,
{
    law_trims(Seq::empty(), value, Seq::empty());
    assert(Seq::<u8>::empty() + value + Seq::<u8>::empty() =~= value);
    assert(bytes_unit() =~= seq!['b' as u8, 'y' as u8, 't' as u8, 'e' as u8, 's' as u8, ' ' as u8]);
    if value.len() >= 6 && forall|i: int| 0 <= i < value.len() ==> #[trigger] value[i] != '-' as u8 {
        let range = value.skip(6);
        law_first_index(range, 45);
        if first_index(range, 45) < range.len() {
            assert(value[first_index(range, 45) + 6] == 45);
        }
    }
}

/// Where the blanks at the end of `s` begin.
proof fn lemma_blank_tail(s: Seq<u8>) -> (k: int)
    ensures
        0 <= k <= s.len(),
        blank(s.skip(k)),
        k > 0 ==> !blank(seq![s[k - 1]]),
    decreases s.len(),
{
    if s.len() == 0 || !blank(seq![s.last()]) {
        s.len() as int
    } else {
        let front = s.drop_last();
        let k = lemma_blank_tail(front);
        assert(seq![s.last()][0] == s.last());
        assert forall|i: int| 0 <= i < s.skip(k).len() implies #[trigger] s.skip(k)[i] == ' ' as u8 || 9
            <= s.skip(k)[i] <= 13 by {
            if i < front.len() - k {
                assert(s.skip(k)[i] == front.skip(k)[i]);
            } else {
                assert(s.skip(k)[i] == s.last());
            }
        }
        k
    }
}

/// The total is the number behind the first slash, up to the second or the end, blanks around it
/// aside; without a slash there is none.
pub proof fn law_reads_total(front: Seq<u8>, number: Seq<u8>, behind: Seq<u8>)
    requires
        forall|i: int| 0 <= i < front.len() ==> #[trigger] front[i] != '/' as u8,
        forall|i: int| 0 <= i < number.len() ==> #[trigger] number[i] != '/' as u8,
    ensures
        is_header_text(front + seq!['/' as u8] + number) ==> range_total(
            front + seq!['/' as u8] + number,
        ) == parsed_u64(trimmed(number)),
        is_header_text(front + seq!['/' as u8] + number + seq!['/' as u8] + behind) ==> range_total(
            front + seq!['/' as u8] + number + seq!['/' as u8] + behind,
        ) == parsed_u64(trimmed(number)),
        range_total(front) is None,
{
    let slash = seq!['/' as u8];
    let short = front + slash + number;
    assert(short =~= front + (slash + number));
    lemma_first_index_behind(front, 47, slash + number);
    assert((slash + number)[0] == 47);
    assert(short.skip(front.len() as int + 1) =~= number);
    lemma_first_index_behind(number, 47, Seq::empty());
    assert(number + Seq::<u8>::empty() =~= number);
    assert(number.take(number.len() as int) =~= number);
    let tail = slash + behind;
    let long = front + slash + number + slash + behind;
    assert(long =~= front + (slash + (number + tail)));
    lemma_first_index_behind(front, 47, slash + (number + tail));
    assert((slash + (number + tail))[0] == 47);
    assert(long.skip(front.len() as int + 1) =~= number + tail);
    lemma_first_index_behind(number, 47, tail);
    assert(tail[0] == 47);
    assert((number + tail).take(number.len() as int) =~= number);
    lemma_first_index_behind(front, 47, Seq::empty());
    assert(front + Seq::<u8>::empty() =~= front);
}

} // verus!
