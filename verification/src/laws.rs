//! The library's general guarantees, stated and proved over the decoding
//! model: sample counts per byte budget, the differential accumulator's
//! values, agreement of seeking with sequential reading, and replay after a
//! reset.

use vstd::prelude::*;

use crate::SignalFormat;
use crate::signal::{decode_stream, spec_bytes_per_frame, spec_bytes_per_sample, spec_decodable,
    Decoder, fmt212_future, fmt310_future, fmt311_future, fmt8_diff, fmt8_future,
    lemma_fmt212_future_len,
    lemma_fmt310_count_closed, lemma_fmt310_future_len, lemma_fmt311_count_closed,
    lemma_fmt311_future_len, lemma_fmt8_future_len, lemma_fmt16_stream_skip,
    lemma_fmt160_stream_skip, lemma_fmt24_stream_skip, lemma_fmt32_stream_skip,
    lemma_fmt61_stream_skip, lemma_fmt80_stream_skip, spec_saturating_add};
use crate::record::spec_frame_stream;

verus! {

/// A fixed-width format decodes exactly one sample per `b` bytes: `b * k`
/// bytes yield `k` samples, and any byte budget yields the floor of its
/// quotient by `b`.
pub proof fn lemma_fixed_width_sample_count(fmt: SignalFormat, init: int, bytes: Seq<u8>)
    requires
        spec_bytes_per_sample(fmt) matches Some(b) && b > 0,
    ensures
        decode_stream(fmt, init, bytes).len() == bytes.len() as int / spec_bytes_per_sample(
            fmt,
        )->Some_0,
{
    if fmt is Format8 {
        lemma_fmt8_future_len(init, bytes);
        assert(bytes.len() as int / 1 == bytes.len());
    } else if fmt is Format80 {
        assert(bytes.len() as int / 1 == bytes.len());
    }
}

/// Format 212 turns every `3 * k` bytes into exactly `2 * k` samples.
pub proof fn lemma_fmt212_sample_count(init: int, bytes: Seq<u8>, k: int)
    requires
        bytes.len() == 3 * k,
        k >= 0,
    ensures
        decode_stream(SignalFormat::Format212, init, bytes).len() == 2 * k,
{
    lemma_fmt212_future_len(bytes);
    assert(bytes.len() as int % 3 == 0) by (nonlinear_arith)
        requires
            bytes.len() == 3 * k,
            k >= 0,
    ;
    assert(bytes.len() as int / 3 == k) by (nonlinear_arith)
        requires
            bytes.len() == 3 * k,
            k >= 0,
    ;
}

/// Formats 310 and 311 turn every `4 * k` bytes into exactly `3 * k`
/// samples.
pub proof fn lemma_fmt310_311_sample_count(fmt: SignalFormat, init: int, bytes: Seq<u8>, k: int)
    requires
        fmt is Format310 || fmt is Format311,
        bytes.len() == 4 * k,
        k >= 0,
    ensures
        decode_stream(fmt, init, bytes).len() == 3 * k,
{
    assert(bytes.len() as int % 4 == 0) by (nonlinear_arith)
        requires
            bytes.len() == 4 * k,
            k >= 0,
    ;
    assert(bytes.len() as int / 4 == k) by (nonlinear_arith)
        requires
            bytes.len() == 4 * k,
            k >= 0,
    ;
    if fmt is Format310 {
        lemma_fmt310_future_len(0, 0, 0, bytes);
        lemma_fmt310_count_closed(bytes.len() as int);
    } else {
        lemma_fmt311_future_len(0, 0, bytes);
        lemma_fmt311_count_closed(bytes.len() as int);
    }
}

/// The exact sum of the first `k` differences of a format-8 stream.
pub open spec fn spec_diff_sum(bytes: Seq<u8>, k: int) -> int
    decreases k,
{
    if k <= 0 {
        0
    } else {
        spec_diff_sum(bytes, k - 1) + fmt8_diff(bytes[k - 1])
    }
}

/// The differential format's `i`-th output is its initial value plus the sum
/// of the first `i + 1` differences, whenever no intermediate accumulator
/// value leaves the sample range (the accumulator saturates otherwise).
pub proof fn lemma_fmt8_accumulates(init: int, bytes: Seq<u8>, i: int)
    requires
        0 <= i < bytes.len(),
        forall|k: int|
            1 <= k <= i + 1 ==> i32::MIN <= init + #[trigger] spec_diff_sum(bytes, k) <= i32::MAX,
    ensures
        fmt8_future(init, bytes)[i] == init + spec_diff_sum(bytes, i + 1),
    decreases i,
{
    lemma_fmt8_future_len(init, bytes);
    let v = spec_saturating_add(init, fmt8_diff(bytes[0]));
    assert(spec_diff_sum(bytes, 0) == 0);
    assert(spec_diff_sum(bytes, 1) == fmt8_diff(bytes[0]));
    assert(v == init + spec_diff_sum(bytes, 1));
    if i == 0 {
    } else {
        let rest = bytes.skip(1);
        assert forall|k: int| 1 <= k <= i implies i32::MIN <= v + #[trigger] spec_diff_sum(
            rest,
            k,
        ) <= i32::MAX by {
            lemma_diff_sum_skip(bytes, k);
            assert(spec_diff_sum(bytes, k + 1) == spec_diff_sum(rest, k) + fmt8_diff(bytes[0]));
        }
        lemma_fmt8_accumulates(v, rest, i - 1);
        lemma_diff_sum_skip(bytes, i);
        assert(fmt8_future(init, bytes)[i] == fmt8_future(v, rest)[i - 1]);
    }
}

/// Sums over a one-byte-shifted stream differ by the first difference.
proof fn lemma_diff_sum_skip(bytes: Seq<u8>, k: int)
    requires
        0 <= k,
        k + 1 <= bytes.len(),
    ensures
        spec_diff_sum(bytes, k + 1) == fmt8_diff(bytes[0]) + spec_diff_sum(bytes.skip(1), k),
    decreases k,
{
    if k > 0 {
        lemma_diff_sum_skip(bytes, k - 1);
        assert(bytes.skip(1)[k - 1] == bytes[k]);
    } else {
        assert(spec_diff_sum(bytes, 0) == 0);
        assert(spec_diff_sum(bytes, 1) == fmt8_diff(bytes[0]));
        assert(spec_diff_sum(bytes.skip(1), 0) == 0);
    }
}

/// Skipping whole packing groups of format 212 skips two samples per group.
pub proof fn lemma_fmt212_group_skip(bytes: Seq<u8>, t: int)
    requires
        0 <= 3 * t <= bytes.len(),
    ensures
        fmt212_future(None, bytes.skip(3 * t)) == fmt212_future(None, bytes).skip(2 * t),
    decreases t,
{
    if t <= 0 {
        assert(bytes.skip(0) =~= bytes);
        assert(fmt212_future(None, bytes).skip(0) =~= fmt212_future(None, bytes));
    } else {
        let f = fmt212_future(None, bytes);
        assert(bytes.len() >= 3);
        assert(bytes.skip(2)[0] == bytes[2]);
        vstd::seq_lib::lemma_seq_skip_of_skip(bytes, 2, 1);
        assert(bytes.skip(2).skip(1) =~= bytes.skip(3));
        assert(fmt212_future(Some(bytes[1]), bytes.skip(2)) == seq![
            crate::signal::fmt212_second(bytes[1], bytes[2]),
        ] + fmt212_future(None, bytes.skip(3)));
        assert(f == seq![crate::signal::fmt212_first(bytes[0], bytes[1])] + (seq![
            crate::signal::fmt212_second(bytes[1], bytes[2]),
        ] + fmt212_future(None, bytes.skip(3))));
        assert(f.skip(2) =~= fmt212_future(None, bytes.skip(3)));
        vstd::seq_lib::lemma_seq_skip_of_skip(bytes, 3, 3 * (t - 1));
        assert(bytes.skip(3).skip(3 * (t - 1)) =~= bytes.skip(3 * t));
        lemma_fmt212_group_skip(bytes.skip(3), t - 1);
        assert(f.len() >= 2 * t) by {
            lemma_fmt212_future_len(bytes);
            vstd::arithmetic::div_mod::lemma_div_is_ordered(3 * t, bytes.len() as int, 3);
            assert(3 * t / 3 == t) by (nonlinear_arith);
        }
        vstd::seq_lib::lemma_seq_skip_of_skip(f, 2, 2 * (t - 1));
        assert(f.skip(2 * t) =~= f.skip(2).skip(2 * (t - 1)));
    }
}

/// The buffered words of a format 310 decoder at a group boundary do not
/// matter: they are overwritten before use.
proof fn lemma_fmt310_words_irrelevant(a: u16, b: u16, c: u16, d: u16, bytes: Seq<u8>)
    ensures
        fmt310_future(0, a, b, bytes) == fmt310_future(0, c, d, bytes),
{
    if bytes.len() >= 2 {
        let w = crate::signal::le16(bytes[0], bytes[1]);
        let rest = bytes.skip(2);
        if rest.len() >= 2 {
            let w2 = crate::signal::le16(rest[0], rest[1]);
            assert(fmt310_future(1, (w as u16), b, rest) == seq![
                crate::signal::fmt310_word_sample(w2),
            ] + fmt310_future(2, (w as u16), (w2 as u16), rest.skip(2)));
            assert(fmt310_future(1, (w as u16), d, rest) == seq![
                crate::signal::fmt310_word_sample(w2),
            ] + fmt310_future(2, (w as u16), (w2 as u16), rest.skip(2)));
        } else {
            assert(fmt310_future(1, (w as u16), b, rest) == Seq::<int>::empty());
            assert(fmt310_future(1, (w as u16), d, rest) == Seq::<int>::empty());
        }
        assert(fmt310_future(0, a, b, bytes) == seq![crate::signal::fmt310_word_sample(w)]
            + fmt310_future(1, (w as u16), b, rest));
        assert(fmt310_future(0, c, d, bytes) == seq![crate::signal::fmt310_word_sample(w)]
            + fmt310_future(1, (w as u16), d, rest));
    } else {
        assert(fmt310_future(0, a, b, bytes) == Seq::<int>::empty());
        assert(fmt310_future(0, c, d, bytes) == Seq::<int>::empty());
    }
}

/// Skipping whole packing groups of format 310 skips three samples per
/// group.
pub proof fn lemma_fmt310_group_skip(bytes: Seq<u8>, t: int)
    requires
        0 <= 4 * t <= bytes.len(),
    ensures
        fmt310_future(0, 0, 0, bytes.skip(4 * t)) == fmt310_future(0, 0, 0, bytes).skip(3 * t),
    decreases t,
{
    if t <= 0 {
        assert(bytes.skip(0) =~= bytes);
        assert(fmt310_future(0, 0, 0, bytes).skip(0) =~= fmt310_future(0, 0, 0, bytes));
    } else {
        let f = fmt310_future(0, 0, 0, bytes);
        assert(bytes.len() >= 4);
        let w = crate::signal::le16(bytes[0], bytes[1]);
        let rest = bytes.skip(2);
        assert(rest[0] == bytes[2]);
        assert(rest[1] == bytes[3]);
        let w2 = crate::signal::le16(bytes[2], bytes[3]);
        vstd::seq_lib::lemma_seq_skip_of_skip(bytes, 2, 2);
        assert(rest.skip(2) =~= bytes.skip(4));
        assert(fmt310_future(1, (w as u16), 0u16, rest) == seq![
            crate::signal::fmt310_word_sample(w2),
        ] + fmt310_future(2, (w as u16), (w2 as u16), bytes.skip(4)));
        assert(fmt310_future(2, (w as u16), (w2 as u16), bytes.skip(4)) == seq![
            crate::signal::fmt310_third_sample(w, w2),
        ] + fmt310_future(0, (w as u16), (w2 as u16), bytes.skip(4)));
        lemma_fmt310_words_irrelevant((w as u16), (w2 as u16), 0, 0, bytes.skip(4));
        assert(f.skip(3) =~= fmt310_future(0, 0, 0, bytes.skip(4)));
        vstd::seq_lib::lemma_seq_skip_of_skip(bytes, 4, 4 * (t - 1));
        assert(bytes.skip(4).skip(4 * (t - 1)) =~= bytes.skip(4 * t));
        lemma_fmt310_group_skip(bytes.skip(4), t - 1);
        assert(f.len() >= 3 * t) by {
            lemma_fmt310_future_len(0, 0, 0, bytes);
            lemma_fmt310_count_closed(bytes.len() as int);
            vstd::arithmetic::div_mod::lemma_div_is_ordered(4 * t, bytes.len() as int, 4);
            assert(4 * t / 4 == t) by (nonlinear_arith);
        }
        vstd::seq_lib::lemma_seq_skip_of_skip(f, 3, 3 * (t - 1));
        assert(f.skip(3 * t) =~= f.skip(3).skip(3 * (t - 1)));
    }
}

/// Skipping whole packing groups of format 311 skips three samples per
/// group.
pub proof fn lemma_fmt311_group_skip(bytes: Seq<u8>, t: int)
    requires
        0 <= 4 * t <= bytes.len(),
    ensures
        fmt311_future(0, 0, bytes.skip(4 * t)) == fmt311_future(0, 0, bytes).skip(3 * t),
    decreases t,
{
    if t <= 0 {
        assert(bytes.skip(0) =~= bytes);
        assert(fmt311_future(0, 0, bytes).skip(0) =~= fmt311_future(0, 0, bytes));
    } else {
        let f = fmt311_future(0, 0, bytes);
        assert(bytes.len() >= 4);
        let w = crate::signal::le32(bytes[0], bytes[1], bytes[2], bytes[3]);
        assert(fmt311_future(1, (w as u32), bytes.skip(4)) == seq![
            crate::signal::fmt311_field(w, 1),
        ] + fmt311_future(2, (w as u32), bytes.skip(4)));
        assert(fmt311_future(2, (w as u32), bytes.skip(4)) == seq![
            crate::signal::fmt311_field(w, 2),
        ] + fmt311_future(0, (w as u32), bytes.skip(4)));
        if bytes.skip(4).len() >= 4 {
            let rest = bytes.skip(4);
            let w2 = crate::signal::le32(rest[0], rest[1], rest[2], rest[3]);
            assert(fmt311_future(0, (w as u32), rest) == seq![crate::signal::fmt311_field(w2, 0)]
                + fmt311_future(1, (w2 as u32), rest.skip(4)));
            assert(fmt311_future(0, 0, rest) == seq![crate::signal::fmt311_field(w2, 0)]
                + fmt311_future(1, (w2 as u32), rest.skip(4)));
        }
        assert(fmt311_future(0, (w as u32), bytes.skip(4)) == fmt311_future(0, 0, bytes.skip(4)));
        assert(f.skip(3) =~= fmt311_future(0, 0, bytes.skip(4)));
        vstd::seq_lib::lemma_seq_skip_of_skip(bytes, 4, 4 * (t - 1));
        assert(bytes.skip(4).skip(4 * (t - 1)) =~= bytes.skip(4 * t));
        lemma_fmt311_group_skip(bytes.skip(4), t - 1);
        assert(f.len() >= 3 * t) by {
            lemma_fmt311_future_len(0, 0, bytes);
            lemma_fmt311_count_closed(bytes.len() as int);
            vstd::arithmetic::div_mod::lemma_div_is_ordered(4 * t, bytes.len() as int, 4);
            assert(4 * t / 4 == t) by (nonlinear_arith);
        }
        vstd::seq_lib::lemma_seq_skip_of_skip(f, 3, 3 * (t - 1));
        assert(f.skip(3 * t) =~= f.skip(3).skip(3 * (t - 1)));
    }
}

/// Seeking agrees with sequential reading: for every format with a defined
/// frame byte cost, positioning at frame `k`'s byte offset and decoding from
/// a fresh state yields exactly the sequential sample stream from sample
/// `k * width` on. For the packed formats this holds when the width is a
/// multiple of the packing group; the differential format is excluded, since
/// a seek resets its accumulator to the initial value regardless of the
/// skipped differences.
pub proof fn lemma_seek_matches_sequential(
    fmt: SignalFormat,
    init: int,
    data: Seq<u8>,
    off: int,
    w: int,
    k: int,
)
    requires
        spec_decodable(fmt),
        !(fmt is Format0),
        !(fmt is Format8),
        w >= 1,
        k >= 0,
        off >= 0,
        fmt is Format212 ==> w % 2 == 0,
        fmt is Format310 || fmt is Format311 ==> w % 3 == 0,
        off + k * spec_bytes_per_frame(fmt, w)->Some_0 <= data.len(),
    ensures
        spec_frame_stream(data, off, spec_bytes_per_frame(fmt, w)->Some_0, fmt, init, k)
            == decode_stream(fmt, init, data.skip(off)).skip(k * w),
{
    let bpf = spec_bytes_per_frame(fmt, w)->Some_0;
    let byte = off + k * bpf;
    assert(k * bpf >= 0) by (nonlinear_arith)
        requires
            k >= 0,
            bpf >= 0,
    ;
    vstd::seq_lib::lemma_seq_skip_of_skip(data, off, k * bpf);
    assert(data.skip(off).skip(k * bpf) =~= data.skip(byte));
    let seq_bytes = data.skip(off);
    match fmt {
        SignalFormat::Format16 => {
            assert(k * (2 * w) == 2 * (k * w)) by (nonlinear_arith);
            lemma_fmt16_stream_skip(seq_bytes, k * w);
        },
        SignalFormat::Format61 => {
            assert(k * (2 * w) == 2 * (k * w)) by (nonlinear_arith);
            lemma_fmt61_stream_skip(seq_bytes, k * w);
        },
        SignalFormat::Format160 => {
            assert(k * (2 * w) == 2 * (k * w)) by (nonlinear_arith);
            lemma_fmt160_stream_skip(seq_bytes, k * w);
        },
        SignalFormat::Format24 => {
            assert(k * (3 * w) == 3 * (k * w)) by (nonlinear_arith);
            lemma_fmt24_stream_skip(seq_bytes, k * w);
        },
        SignalFormat::Format32 => {
            assert(k * (4 * w) == 4 * (k * w)) by (nonlinear_arith);
            lemma_fmt32_stream_skip(seq_bytes, k * w);
        },
        SignalFormat::Format80 => {
            assert(k * w == k * w);
            lemma_fmt80_stream_skip(seq_bytes, k * w);
        },
        SignalFormat::Format212 => {
            let t = k * (w / 2);
            assert(bpf == 3 * ((w + 1) / 2));
            assert((w + 1) / 2 == w / 2) by (nonlinear_arith)
                requires
                    w % 2 == 0,
                    w >= 1,
            ;
            assert(k * bpf == 3 * t && 2 * t == k * w && t >= 0) by (nonlinear_arith)
                requires
                    t == k * (w / 2),
                    bpf == 3 * (w / 2),
                    w % 2 == 0,
                    w >= 1,
                    k >= 0,
            ;
            lemma_fmt212_group_skip(seq_bytes, t);
        },
        SignalFormat::Format310 => {
            let t = k * (w / 3);
            assert(bpf == 4 * ((w + 2) / 3));
            assert((w + 2) / 3 == w / 3) by (nonlinear_arith)
                requires
                    w % 3 == 0,
                    w >= 1,
            ;
            assert(k * bpf == 4 * t && 3 * t == k * w && t >= 0) by (nonlinear_arith)
                requires
                    t == k * (w / 3),
                    bpf == 4 * (w / 3),
                    w % 3 == 0,
                    w >= 1,
                    k >= 0,
            ;
            lemma_fmt310_group_skip(seq_bytes, t);
        },
        SignalFormat::Format311 => {
            let t = k * (w / 3);
            assert(bpf == 4 * ((w + 2) / 3));
            assert((w + 2) / 3 == w / 3) by (nonlinear_arith)
                requires
                    w % 3 == 0,
                    w >= 1,
            ;
            assert(k * bpf == 4 * t && 3 * t == k * w && t >= 0) by (nonlinear_arith)
                requires
                    t == k * (w / 3),
                    bpf == 4 * (w / 3),
                    w % 3 == 0,
                    w >= 1,
                    k >= 0,
            ;
            lemma_fmt311_group_skip(seq_bytes, t);
        },
        _ => {
            assert(false);
        },
    }
}

/// Replay after a reset: a decoder that has been reset decodes any byte
/// sequence to exactly the stream a fresh decoder of the same format and
/// initial value would produce.
pub proof fn lemma_reset_replays_fresh(d1: Decoder, d2: Decoder, bytes: Seq<u8>)
    requires
        d1.is_fresh(),
        d2.is_fresh(),
        d1.spec_fmt() == d2.spec_fmt(),
        d1.spec_init() == d2.spec_init(),
    ensures
        d1.future(bytes) == d2.future(bytes),
{
    d1.lemma_fresh_future(bytes);
    d2.lemma_fresh_future(bytes);
}

} // verus!
