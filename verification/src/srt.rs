//! Rendering a transcript as a SubRip (`.srt`) subtitle document.

use vstd::prelude::*;
use crate::text::{decimal, digit_char, digits_value, is_digit, lemma_decimal_reads_back, padded_decimal, push_char, push_decimal, push_padded_decimal, trim, trimmed};

verus! {

/// A stretch of transcript with its place in the recording, in milliseconds
/// from the start.
pub struct TimedSegment {
    pub text: String,
    pub start_ms: u64,
    pub end_ms: u64,
}

/// Milliseconds in an hour.
pub const MS_PER_HOUR: u64 = 3600000;

/// Milliseconds in a minute.
pub const MS_PER_MINUTE: u64 = 60000;

/// Milliseconds in a second.
pub const MS_PER_SECOND: u64 = 1000;

/// The SubRip timestamp `HH:MM:SS,mmm` of `total_ms` milliseconds: hours
/// (at least two digits), minutes and seconds (two digits each) and
/// milliseconds (three digits).
pub open spec fn timestamp(total_ms: nat) -> Seq<char> {
    padded_decimal(total_ms / 3600000, 2) + seq![':']
        + padded_decimal((total_ms / 60000) % 60, 2) + seq![':']
        + padded_decimal((total_ms / 1000) % 60, 2) + seq![',']
        + padded_decimal(total_ms % 1000, 3)
}

/// The arrow between the two timestamps of a block.
pub open spec fn arrow() -> Seq<char> {
    seq![' ', '-', '-', '>', ' ']
}

/// The block of subtitle number `number` for `seg`: the number, the time
/// range, the trimmed text, then an empty line.
pub open spec fn srt_block(number: nat, seg: TimedSegment) -> Seq<char> {
    decimal(number) + seq!['\n']
        + timestamp(seg.start_ms as nat) + arrow() + timestamp(seg.end_ms as nat) + seq!['\n']
        + trimmed(seg.text@) + seq!['\n', '\n']
}

/// The SubRip document of `segs`: one block per segment, numbered from 1.
pub open spec fn srt_document(segs: Seq<TimedSegment>) -> Seq<char>
    decreases segs.len(),
{
    if segs.len() == 0 {
        Seq::empty()
    } else {
        srt_document(segs.drop_last()) + srt_block(segs.len(), segs.last())
    }
}

proof fn lemma_decimal_short(n: nat)
    ensures
        decimal(n).len() >= 1,
        n < 10 ==> decimal(n).len() == 1,
        n < 100 ==> decimal(n).len() <= 2,
        n < 1000 ==> decimal(n).len() <= 3,
    decreases n,
{
    if n >= 10 {
        lemma_decimal_short(n / 10);
    }
}

/// A timestamp loses nothing: its hours, minutes, seconds and milliseconds
/// add back up to the time it shows.
pub proof fn lemma_timestamp_fields_recompose(total_ms: nat)
    ensures
        (total_ms / 3600000) * 3600000 + ((total_ms / 60000) % 60) * 60000
            + ((total_ms / 1000) % 60) * 1000 + total_ms % 1000 == total_ms,
        (total_ms / 60000) % 60 < 60,
        (total_ms / 1000) % 60 < 60,
        total_ms % 1000 < 1000,
{
    let t = total_ms as int;
    assert((t / 3600000) * 3600000 + ((t / 60000) % 60) * 60000 + ((t / 1000) % 60) * 1000
        + t % 1000 == t) by (nonlinear_arith)
        requires
            t >= 0,
    {
        assert(t / 60000 == (t / 3600000) * 60 + (t / 60000) % 60) by (nonlinear_arith)
            requires t >= 0;
        assert(t / 1000 == (t / 60000) * 60 + (t / 1000) % 60) by (nonlinear_arith)
            requires t >= 0;
        assert(t == (t / 1000) * 1000 + t % 1000) by (nonlinear_arith)
            requires t >= 0;
    }
}

/// Below one hundred hours every timestamp has the fixed width of twelve
/// characters, `HH:MM:SS,mmm`; longer times only widen the hours.
pub proof fn lemma_timestamp_width(total_ms: nat)
    ensures
        timestamp(total_ms).len() >= 12,
        total_ms < 360000000 ==> timestamp(total_ms).len() == 12,
{
    lemma_decimal_short(total_ms / 3600000);
    lemma_decimal_short((total_ms / 60000) % 60);
    lemma_decimal_short((total_ms / 1000) % 60);
    lemma_decimal_short(total_ms % 1000);
    if total_ms < 360000000 {
        assert(total_ms / 3600000 < 100);
    }
}

/// The blocks of `segs`, numbered from `first`.
pub open spec fn srt_blocks_from(segs: Seq<TimedSegment>, first: nat) -> Seq<char>
    decreases segs.len(),
{
    if segs.len() == 0 {
        Seq::empty()
    } else {
        srt_blocks_from(segs.drop_last(), first) + srt_block((first + segs.len() - 1) as nat, segs.last())
    }
}

/// The document of two lists of segments, one after the other, is the
/// document of the first followed by the blocks of the second, whose
/// numbering goes on where the first one stopped.
pub proof fn lemma_srt_document_concat(a: Seq<TimedSegment>, b: Seq<TimedSegment>)
    ensures
        srt_document(a + b) == srt_document(a) + srt_blocks_from(b, a.len() + 1),
    decreases b.len(),
{
    if b.len() == 0 {
        assert(a + b =~= a);
        assert(srt_document(a) + srt_blocks_from(b, a.len() + 1) =~= srt_document(a));
    } else {
        let b0 = b.drop_last();
        lemma_srt_document_concat(a, b0);
        assert((a + b).drop_last() =~= a + b0);
        assert((a + b).last() == b.last());
        assert(srt_document(a + b) =~= srt_document(a) + srt_blocks_from(b, a.len() + 1));
    }
}

/// `s` comes no later than `t` in lexicographic (dictionary) order by
/// character code: equal, a proper prefix of `t`, or smaller at the first
/// position where the two differ.
pub open spec fn lex_le(s: Seq<char>, t: Seq<char>) -> bool {
    ||| s == t
    ||| s.len() < t.len() && t.take(s.len() as int) == s
    ||| exists|j: int| #[trigger] first_smaller_at(s, t, j)
}

/// `s` and `t` agree before position `j`, and `s` is smaller there.
pub open spec fn first_smaller_at(s: Seq<char>, t: Seq<char>, j: int) -> bool {
    &&& 0 <= j < s.len()
    &&& j < t.len()
    &&& s.take(j) == t.take(j)
    &&& s[j] < t[j]
}

/// The place value of digit `k` of a timestamp below one hundred hours, in
/// milliseconds: tens of hours, hours, tens of minutes, minutes, tens of
/// seconds, seconds, hundreds, tens and single milliseconds.
pub open spec fn digit_unit(k: int) -> int {
    if k == 0 {
        36000000
    } else if k == 1 {
        3600000
    } else if k == 2 {
        600000
    } else if k == 3 {
        60000
    } else if k == 4 {
        10000
    } else if k == 5 {
        1000
    } else if k == 6 {
        100
    } else if k == 7 {
        10
    } else {
        1
    }
}

/// How many values digit `k` takes: six for the tens of minutes and of
/// seconds, ten for the others.
pub open spec fn digit_radix(k: int) -> int {
    if k == 2 || k == 4 {
        6
    } else {
        10
    }
}

/// Digit `k` of the timestamp of `t` milliseconds (below one hundred hours).
pub open spec fn timestamp_digit(t: int, k: int) -> int {
    if k == 0 {
        t / digit_unit(0)
    } else {
        (t / digit_unit(k)) % digit_radix(k)
    }
}

/// The position of digit `k` in the text `HH:MM:SS,mmm`.
pub open spec fn digit_position(k: int) -> int {
    if k < 2 {
        k
    } else if k < 4 {
        k + 1
    } else if k < 6 {
        k + 2
    } else {
        k + 3
    }
}

proof fn lemma_padded_two(n: nat)
    requires
        n < 100,
    ensures
        padded_decimal(n, 2) == seq![digit_char((n / 10) as int), digit_char((n % 10) as int)],
{
    reveal_with_fuel(decimal, 2);
    assert(padded_decimal(n, 2) =~= seq![digit_char((n / 10) as int), digit_char((n % 10) as int)]);
}

proof fn lemma_padded_three(n: nat)
    requires
        n < 1000,
    ensures
        padded_decimal(n, 3) == seq![
            digit_char((n / 100) as int),
            digit_char(((n / 10) % 10) as int),
            digit_char((n % 10) as int),
        ],
{
    reveal_with_fuel(decimal, 3);
    assert((n / 10) / 10 == n / 100);
    assert(padded_decimal(n, 3) =~= seq![
        digit_char((n / 100) as int),
        digit_char(((n / 10) % 10) as int),
        digit_char((n % 10) as int),
    ]);
}

proof fn lemma_split_mod(y: int, a: int, b: int)
    requires
        y >= 0,
        a > 0,
        b > 0,
    ensures
        (y % (a * b)) / a == (y / a) % b,
        (y % (a * b)) % a == y % a,
{
    vstd::arithmetic::div_mod::lemma_mod_breakdown(y, a, b);
    vstd::arithmetic::div_mod::lemma_mod_mod(y, a, b);
    let q = (y / a) % b;
    let r = y % a;
    assert(0 <= r < a);
    assert((a * q + r) / a == q) by (nonlinear_arith)
        requires
            a > 0,
            0 <= r < a,
    ;
}

/// Below one hundred hours, the timestamp of `t` is its nine digits in the
/// fixed frame `HH:MM:SS,mmm`.
proof fn lemma_timestamp_digits(t: nat)
    requires
        t < 360000000,
    ensures
        timestamp(t).len() == 12,
        timestamp(t)[2] == ':',
        timestamp(t)[5] == ':',
        timestamp(t)[8] == ',',
        forall|k: int|
            0 <= k < 9 ==> #[trigger] timestamp(t)[digit_position(k)] == digit_char(
                timestamp_digit(t as int, k),
            ),
{
    let ti = t as int;
    let h = t / 3600000;
    let m = (t / 60000) % 60;
    let s = (t / 1000) % 60;
    let ms = t % 1000;
    lemma_padded_two(h);
    lemma_padded_two(m);
    lemma_padded_two(s);
    lemma_padded_three(ms);
    vstd::arithmetic::div_mod::lemma_div_denominator(ti, 3600000, 10);
    vstd::arithmetic::div_mod::lemma_div_denominator(ti, 60000, 10);
    vstd::arithmetic::div_mod::lemma_div_denominator(ti, 1000, 10);
    vstd::arithmetic::div_mod::lemma_div_denominator(ti, 10, 10);
    lemma_split_mod(ti / 60000, 10, 6);
    lemma_split_mod(ti / 1000, 10, 6);
    lemma_split_mod(ti, 100, 10);
    lemma_split_mod(ti, 10, 100);
    lemma_split_mod(ti / 10, 10, 10);
    assert(h / 10 == ti / 36000000);
    assert(h % 10 == (ti / 3600000) % 10);
    assert(m / 10 == (ti / 600000) % 6);
    assert(m % 10 == (ti / 60000) % 10);
    assert(s / 10 == (ti / 10000) % 6);
    assert(s % 10 == (ti / 1000) % 10);
    assert(ms / 100 == (ti / 100) % 10);
    assert((ms / 10) % 10 == (ti / 10) % 10);
    assert(ms % 10 == ti % 10);
    let d = seq![
        digit_char(ti / 36000000),
        digit_char((ti / 3600000) % 10),
        ':',
        digit_char((ti / 600000) % 6),
        digit_char((ti / 60000) % 10),
        ':',
        digit_char((ti / 10000) % 6),
        digit_char((ti / 1000) % 10),
        ',',
        digit_char((ti / 100) % 10),
        digit_char((ti / 10) % 10),
        digit_char(ti % 10),
    ];
    assert(timestamp(t) =~= d);
}

/// Where two times below one hundred hours first differ in their digits,
/// the earlier time has the smaller digit.
proof fn lemma_first_different_digit(a: int, b: int, k: int) -> (d: int)
    requires
        0 <= a < b < 360000000,
        0 <= k < 9,
        forall|j: int| 0 <= j < k ==> a / digit_unit(j) == b / digit_unit(j),
    ensures
        k <= d < 9,
        forall|j: int| 0 <= j < d ==> timestamp_digit(a, j) == timestamp_digit(b, j),
        timestamp_digit(a, d) < timestamp_digit(b, d),
    decreases 9 - k,
{
    vstd::arithmetic::div_mod::lemma_div_is_ordered(a, b, digit_unit(k));
    if a / digit_unit(k) == b / digit_unit(k) && k < 8 {
        lemma_first_different_digit(a, b, k + 1)
    } else {
        if k > 0 {
            let u = digit_unit(k);
            let r = digit_radix(k);
            assert(u * r == digit_unit(k - 1));
            vstd::arithmetic::div_mod::lemma_div_denominator(a, u, r);
            vstd::arithmetic::div_mod::lemma_div_denominator(b, u, r);
            vstd::arithmetic::div_mod::lemma_fundamental_div_mod(a / u, r);
            vstd::arithmetic::div_mod::lemma_fundamental_div_mod(b / u, r);
            assert(a / u != b / u);
            assert((a / u) / r == (b / u) / r);
            assert((a / u) % r < (b / u) % r);
        }
        k
    }
}

/// Below one hundred hours, timestamps keep the order of the times they
/// show: as text, an earlier time never comes after a later one.
pub proof fn lemma_timestamp_order(a: nat, b: nat)
    requires
        a <= b < 360000000,
    ensures
        lex_le(timestamp(a), timestamp(b)),
{
    if a < b {
        let ta = timestamp(a);
        let tb = timestamp(b);
        lemma_timestamp_digits(a);
        lemma_timestamp_digits(b);
        let k = lemma_first_different_digit(a as int, b as int, 0);
        let j = digit_position(k);
        assert forall|p: int| 0 <= p < j implies ta[p] == tb[p] by {
            if p == 2 || p == 5 || p == 8 {
            } else {
                let q = if p < 2 {
                    p
                } else if p < 5 {
                    p - 1
                } else if p < 8 {
                    p - 2
                } else {
                    p - 3
                };
                assert(digit_position(q) == p);
                assert(ta[digit_position(q)] == digit_char(timestamp_digit(a as int, q)));
                assert(tb[digit_position(q)] == digit_char(timestamp_digit(b as int, q)));
            }
        }
        assert(ta.take(j) =~= tb.take(j));
        assert(ta[digit_position(k)] == digit_char(timestamp_digit(a as int, k)));
        assert(tb[digit_position(k)] == digit_char(timestamp_digit(b as int, k)));
        assert(0 <= timestamp_digit(a as int, k));
        assert(timestamp_digit(b as int, k) < 10) by {
            if k == 0 {
                assert(b / 36000000 < 10);
            }
        }
        assert(ta[j] < tb[j]);
        assert(first_smaller_at(ta, tb, j));
    }
}

/// The first line of a block is its number: decimal digits without a
/// leading zero that read back as `number`, followed by a line break.
pub proof fn lemma_block_starts_with_its_number(number: nat, seg: TimedSegment)
    requires
        number >= 1,
    ensures
        exists|n: int|
            #![trigger srt_block(number, seg).take(n)]
            1 <= n < srt_block(number, seg).len() && srt_block(number, seg)[n] == '\n'
                && (forall|i: int| 0 <= i < n ==> is_digit(#[trigger] srt_block(number, seg)[i]))
                && digits_value(srt_block(number, seg).take(n)) == number && srt_block(number, seg)[0]
                != '0',
{
    lemma_decimal_reads_back(number);
    let b = srt_block(number, seg);
    let n = decimal(number).len() as int;
    assert(b.take(n) =~= decimal(number));
    assert(b[n] == '\n');
    assert(forall|i: int| 0 <= i < n ==> b[i] == decimal(number)[i]);
}

/// Block `k` of the document of `segs` renders segment `k - 1` under the
/// number `k`: the document is the blocks before it, that block, and the
/// blocks after it.
pub proof fn lemma_document_holds_each_block(segs: Seq<TimedSegment>, k: int)
    requires
        1 <= k <= segs.len(),
    ensures
        srt_document(segs) == srt_document(segs.take(k - 1)) + srt_block(k as nat, segs[k - 1])
            + srt_blocks_from(segs.skip(k), (k + 1) as nat),
{
    let a = segs.take(k);
    let b = segs.skip(k);
    assert(segs =~= a + b);
    lemma_srt_document_concat(a, b);
    assert(a.drop_last() =~= segs.take(k - 1));
    assert(a.last() == segs[k - 1]);
}

/// Renders `total_ms` milliseconds as a SubRip timestamp (see [`timestamp`]).
pub fn format_timestamp(total_ms: u64) -> (r: String)
    ensures
        r@ == timestamp(total_ms as nat),
{
    let ms = total_ms % MS_PER_SECOND;
    let s = (total_ms / MS_PER_SECOND) % 60;
    let m = (total_ms / MS_PER_MINUTE) % 60;
    let h = total_ms / MS_PER_HOUR;
    let mut out = String::new();
    push_padded_decimal(&mut out, h, 2);
    push_char(&mut out, ':');
    push_padded_decimal(&mut out, m, 2);
    push_char(&mut out, ':');
    push_padded_decimal(&mut out, s, 2);
    push_char(&mut out, ',');
    push_padded_decimal(&mut out, ms, 3);
    assert(out@ =~= timestamp(total_ms as nat));
    out
}

/// Renders the segments as a SubRip document (see [`srt_document`]).
pub fn to_srt(segments: &[TimedSegment]) -> (out: String)
    ensures
        out@ == srt_document(segments@),
{
    let mut out = String::new();
    let n = segments.len();
    let mut i: usize = 0;
    assert(segments@.take(0) =~= Seq::<TimedSegment>::empty());
    while i < n
        invariant
            n == segments@.len(),
            i <= n,
            out@ == srt_document(segments@.take(i as int)),
        decreases n - i,
    {
        let seg = &segments[i];
        let ghost before = out@;
        push_decimal(&mut out, (i + 1) as u64);
        push_char(&mut out, '\n');
        let start = format_timestamp(seg.start_ms);
        out.append(start.as_str());
        out.append(" --> ");
        let end = format_timestamp(seg.end_ms);
        out.append(end.as_str());
        push_char(&mut out, '\n');
        let text = trim(seg.text.as_str());
        out.append(text.as_str());
        push_char(&mut out, '\n');
        push_char(&mut out, '\n');
        proof {
            reveal_strlit(" --> ");
            assert(out@ =~= before + srt_block((i + 1) as nat, segments@[i as int]));
            assert(segments@.take(i + 1).drop_last() =~= segments@.take(i as int));
        }
        i = i + 1;
    }
    assert(segments@.take(n as int) =~= segments@);
    out
}

} // verus!
