//! Caption timing: re-wraps each narrated line into chunks of bounded width
//! and spreads the measured duration of the line over its chunks.

use vstd::prelude::*;
use crate::text::{lemma_flatten_single, padded_string, padded_text, texts};

verus! {

/// A narrated line together with the measured length of its audio.
#[derive(Debug)]
pub struct TimedLine {
    pub text: String,
    pub duration_ms: u64,
}

/// One entry of the caption file.
#[derive(Debug, PartialEq, Eq)]
pub struct Caption {
    pub start_ms: u64,
    pub end_ms: u64,
    pub text: String,
}

pub struct TimedLineView {
    pub text: Seq<char>,
    pub duration_ms: int,
}

pub struct CaptionView {
    pub start_ms: int,
    pub end_ms: int,
    pub text: Seq<char>,
}

impl View for TimedLine {
    type V = TimedLineView;

    open spec fn view(&self) -> TimedLineView {
        TimedLineView { text: self.text@, duration_ms: self.duration_ms as int }
    }
}

impl View for Caption {
    type V = CaptionView;

    open spec fn view(&self) -> CaptionView {
        CaptionView {
            start_ms: self.start_ms as int,
            end_ms: self.end_ms as int,
            text: self.text@,
        }
    }
}

pub open spec fn lines_view(lines: Seq<TimedLine>) -> Seq<TimedLineView> {
    Seq::new(lines.len(), |i: int| lines[i]@)
}

pub open spec fn captions_view(captions: Seq<Caption>) -> Seq<CaptionView> {
    Seq::new(captions.len(), |i: int| captions[i]@)
}

/// Where the chunk that starts at `pos` ends.
pub open spec fn chunk_end(len: nat, width: nat, pos: nat) -> nat {
    if len <= pos + width {
        len
    } else {
        pos + width
    }
}

/// The chunks of `s` from position `pos` on: each holds `width` characters
/// but the last, which holds what is left.
pub open spec fn wrap_from(s: Seq<char>, width: nat, pos: nat) -> Seq<Seq<char>>
    decreases s.len() - pos,
{
    if pos >= s.len() || width == 0 {
        Seq::empty()
    } else {
        let end = chunk_end(s.len(), width, pos);
        seq![s.subrange(pos as int, end as int)] + wrap_from(s, width, end)
    }
}

/// A line re-wrapped to `width` characters. An empty line is one empty
/// chunk.
pub open spec fn wrap_text(s: Seq<char>, width: nat) -> Seq<Seq<char>> {
    if s.len() == 0 {
        seq![Seq::empty()]
    } else {
        wrap_from(s, width, 0)
    }
}

/// Time that has passed within a line of `len` characters and `duration`
/// milliseconds when `pos` characters have been shown.
pub open spec fn elapsed_at(duration: int, pos: nat, len: nat) -> int
    recommends
        len > 0,
{
    duration * pos / (len as int)
}

/// Captions of the chunks of `s` from position `pos` on, for a line that
/// starts at `base` and lasts `duration`.
pub open spec fn captions_from(
    s: Seq<char>,
    width: nat,
    pos: nat,
    base: int,
    duration: int,
) -> Seq<CaptionView>
    decreases s.len() - pos,
{
    if pos >= s.len() || width == 0 {
        Seq::empty()
    } else {
        let end = chunk_end(s.len(), width, pos);
        seq![
            CaptionView {
                start_ms: base + elapsed_at(duration, pos, s.len()),
                end_ms: base + elapsed_at(duration, end, s.len()),
                text: s.subrange(pos as int, end as int),
            },
        ] + captions_from(s, width, end, base, duration)
    }
}

/// Captions of one line. An empty line gets one empty caption that spans
/// its whole duration.
pub open spec fn line_captions(s: Seq<char>, width: nat, base: int, duration: int) -> Seq<
    CaptionView,
> {
    if s.len() == 0 {
        seq![CaptionView { start_ms: base, end_ms: base + duration, text: Seq::empty() }]
    } else {
        captions_from(s, width, 0, base, duration)
    }
}

/// Sum of the durations of `lines`.
pub open spec fn total_ms(lines: Seq<TimedLineView>) -> int
    decreases lines.len(),
{
    if lines.len() == 0 {
        0
    } else {
        total_ms(lines.drop_last()) + lines.last().duration_ms
    }
}

/// The captions of a document: those of each line in order, each line
/// starting where the one before it ended.
pub open spec fn timeline(lines: Seq<TimedLineView>, width: nat) -> Seq<CaptionView>
    decreases lines.len(),
{
    if lines.len() == 0 {
        Seq::empty()
    } else {
        timeline(lines.drop_last(), width) + line_captions(
            lines.last().text,
            width,
            total_ms(lines.drop_last()),
            lines.last().duration_ms,
        )
    }
}

/// `duration * pos / len` without overflow.
pub fn elapsed(duration: u64, pos: usize, len: usize) -> (r: u64)
    requires
        pos <= len,
        len > 0,
    ensures
        r == elapsed_at(duration as int, pos as nat, len as nat),
        r <= duration,
{
    assert(duration * pos <= duration * len) by (nonlinear_arith)
        requires
            pos <= len,
            0 <= duration,
    ;
    assert(duration * len <= 0xffff_ffff_ffff_ffff * 0xffff_ffff_ffff_ffff) by (nonlinear_arith)
        requires
            0 <= duration <= 0xffff_ffff_ffff_ffff,
            0 <= len <= 0xffff_ffff_ffff_ffff,
    ;
    let product: u128 = (duration as u128) * (pos as u128);
    let q: u128 = product / (len as u128);
    assert(q <= duration) by (nonlinear_arith)
        requires
            q == product / (len as u128),
            product <= duration * len,
            len > 0,
    ;
    q as u64
}

/// Splits a line into chunks of at most `width` characters.
pub fn wrap_line(text: &str, width: usize) -> (chunks: Vec<String>)
    requires
        width >= 1,
    ensures
        texts(chunks@) == wrap_text(text@, width as nat),
{
    let len: usize = text.unicode_len();
    let mut chunks: Vec<String> = Vec::new();
    if len == 0 {
        chunks.push(String::new());
        assert(texts(chunks@) =~= wrap_text(text@, width as nat));
        return chunks;
    }
    let mut pos: usize = 0;
    assert(texts(chunks@) + wrap_from(text@, width as nat, 0) =~= wrap_text(text@, width as nat));
    while pos < len
        invariant
            pos <= len,
            len == text@.len(),
            width >= 1,
            texts(chunks@) + wrap_from(text@, width as nat, pos as nat) == wrap_text(
                text@,
                width as nat,
            ),
        decreases len - pos,
    {
        let end: usize = if len - pos <= width {
            len
        } else {
            pos + width
        };
        let ghost before = texts(chunks@);
        let ghost tail = wrap_from(text@, width as nat, end as nat);
        let ghost piece = text@.subrange(pos as int, end as int);
        assert(end == chunk_end(len as nat, width as nat, pos as nat));
        assert(wrap_from(text@, width as nat, pos as nat) == seq![piece] + tail);
        let chunk = String::from_str(text.substring_char(pos, end));
        chunks.push(chunk);
        assert(texts(chunks@) =~= before.push(piece));
        assert(before.push(piece) + tail =~= before + (seq![piece] + tail));
        pos = end;
    }
    assert(wrap_from(text@, width as nat, pos as nat) =~= Seq::<Seq<char>>::empty());
    assert(texts(chunks@) + Seq::<Seq<char>>::empty() =~= texts(chunks@));
    chunks
}

/// Appends the captions of one line that starts at `base`.
fn push_line_captions(out: &mut Vec<Caption>, text: &str, width: usize, base: u64, duration: u64)
    requires
        width >= 1,
        base + duration <= u64::MAX,
    ensures
        captions_view(final(out)@) == captions_view(old(out)@) + line_captions(
            text@,
            width as nat,
            base as int,
            duration as int,
        ),
{
    let len: usize = text.unicode_len();
    let ghost before = captions_view(out@);
    let ghost w = width as nat;
    let ghost b = base as int;
    let ghost d = duration as int;
    if len == 0 {
        out.push(Caption { start_ms: base, end_ms: base + duration, text: String::new() });
        assert(captions_view(out@) =~= before + line_captions(text@, w, b, d));
        return ;
    }
    let mut pos: usize = 0;
    assert(captions_view(out@) + captions_from(text@, w, 0, b, d) =~= before + line_captions(
        text@,
        w,
        b,
        d,
    ));
    while pos < len
        invariant
            pos <= len,
            len == text@.len(),
            width >= 1,
            w == width as nat,
            b == base as int,
            d == duration as int,
            base + duration <= u64::MAX,
            captions_view(out@) + captions_from(text@, w, pos as nat, b, d) == before
                + line_captions(text@, w, b, d),
        decreases len - pos,
    {
        let end: usize = if len - pos <= width {
            len
        } else {
            pos + width
        };
        let ghost sofar = captions_view(out@);
        let ghost tail = captions_from(text@, w, end as nat, b, d);
        assert(end == chunk_end(len as nat, w, pos as nat));
        let start_ms: u64 = base + elapsed(duration, pos, len);
        let end_ms: u64 = base + elapsed(duration, end, len);
        let ghost piece = CaptionView {
            start_ms: start_ms as int,
            end_ms: end_ms as int,
            text: text@.subrange(pos as int, end as int),
        };
        assert(captions_from(text@, w, pos as nat, b, d) == seq![piece] + tail);
        let chunk = String::from_str(text.substring_char(pos, end));
        out.push(Caption { start_ms, end_ms, text: chunk });
        assert(captions_view(out@) =~= sofar.push(piece));
        assert(sofar.push(piece) + tail =~= sofar + (seq![piece] + tail));
        pos = end;
    }
    assert(captions_from(text@, w, pos as nat, b, d) =~= Seq::<CaptionView>::empty());
    assert(captions_view(out@) + Seq::<CaptionView>::empty() =~= captions_view(out@));
}

/// The total of a list of durations is at least the total of any prefix.
pub proof fn lemma_total_ms_grows(lines: Seq<TimedLineView>, n: int)
    requires
        0 <= n <= lines.len(),
        forall|i: int| 0 <= i < lines.len() ==> (#[trigger] lines[i]).duration_ms >= 0,
    ensures
        0 <= total_ms(lines.take(n)) <= total_ms(lines),
    decreases lines.len() - n,
{
    lemma_total_ms_nonnegative(lines.take(n));
    if n < lines.len() {
        assert(lines.take(n + 1).drop_last() =~= lines.take(n));
        lemma_total_ms_grows(lines, n + 1);
    } else {
        assert(lines.take(n) =~= lines);
    }
}

pub proof fn lemma_total_ms_nonnegative(lines: Seq<TimedLineView>)
    requires
        forall|i: int| 0 <= i < lines.len() ==> (#[trigger] lines[i]).duration_ms >= 0,
    ensures
        0 <= total_ms(lines),
    decreases lines.len(),
{
    if lines.len() > 0 {
        lemma_total_ms_nonnegative(lines.drop_last());
    }
}

/// Builds the captions of a document from its narrated lines, each with
/// the measured duration of its audio. Returns `None` when the durations
/// add up to more than 64 bits of milliseconds.
pub fn build(lines: &Vec<TimedLine>, max_chars_per_line: usize) -> (r: Option<Vec<Caption>>)
    requires
        max_chars_per_line >= 1,
    ensures
        r is Some <==> total_ms(lines_view(lines@)) <= u64::MAX,
        r matches Some(captions) ==> captions_view(captions@) == timeline(
            lines_view(lines@),
            max_chars_per_line as nat,
        ),
        r matches Some(captions) ==> lines@.len() > 0 ==> captions@.len() > 0
            && captions@[0].start_ms == 0 && captions@.last().end_ms == total_ms(
            lines_view(lines@),
        ),
{
    let mut out: Vec<Caption> = Vec::new();
    let mut base: u64 = 0;
    let mut i: usize = 0;
    let ghost all = lines_view(lines@);
    assert(all.take(0) =~= Seq::<TimedLineView>::empty());
    assert(captions_view(out@) =~= Seq::<CaptionView>::empty());
    while i < lines.len()
        invariant
            i <= lines.len(),
            max_chars_per_line >= 1,
            all == lines_view(lines@),
            base == total_ms(all.take(i as int)),
            captions_view(out@) == timeline(all.take(i as int), max_chars_per_line as nat),
        decreases lines.len() - i,
    {
        let line = &lines[i];
        proof {
            assert(all.take(i + 1).drop_last() =~= all.take(i as int));
            assert(all.take(i + 1).last() == line@);
        }
        if line.duration_ms > u64::MAX - base {
            proof {
                lemma_total_ms_grows(all, i + 1);
            }
            return None;
        }
        push_line_captions(&mut out, line.text.as_str(), max_chars_per_line, base, line.duration_ms);
        base = base + line.duration_ms;
        i += 1;
    }
    assert(all.take(i as int) =~= all);
    proof {
        lemma_timeline_chain(all, max_chars_per_line as nat);
        if lines@.len() > 0 {
            let captions = captions_view(out@);
            assert(captions.first() == out@[0]@);
            assert(captions.last() == out@.last()@);
        }
    }
    Some(out)
}

/// The time tag of a caption: minutes, seconds and hundredths.
pub open spec fn timestamp_text(ms: nat) -> Seq<char> {
    seq!['['] + padded_text(ms / 60000) + seq![':'] + padded_text(ms / 1000 % 60) + seq!['.']
        + padded_text(ms / 10 % 100) + seq![']']
}

/// One line of the caption file.
pub open spec fn caption_text(caption: CaptionView) -> Seq<char> {
    timestamp_text(caption.start_ms as nat) + caption.text + seq!['\n']
}

/// The caption file: one line per caption, in order.
pub open spec fn lrc_text(captions: Seq<CaptionView>) -> Seq<char>
    decreases captions.len(),
{
    if captions.len() == 0 {
        Seq::empty()
    } else {
        lrc_text(captions.drop_last()) + caption_text(captions.last())
    }
}

pub fn format_timestamp(ms: u64) -> (s: String)
    ensures
        s@ == timestamp_text(ms as nat),
{
    proof {
        reveal_strlit("[");
        reveal_strlit(":");
        reveal_strlit(".");
        reveal_strlit("]");
    }
    let mut s = String::from_str("[");
    s.append(padded_string(ms / 60000).as_str());
    s.append(":");
    s.append(padded_string(ms / 1000 % 60).as_str());
    s.append(".");
    s.append(padded_string(ms / 10 % 100).as_str());
    s.append("]");
    assert(s@ =~= timestamp_text(ms as nat));
    s
}

/// Writes the captions out as the text of a caption file.
pub fn render_lrc(captions: &Vec<Caption>) -> (s: String)
    ensures
        s@ == lrc_text(captions_view(captions@)),
{
    let mut s = String::new();
    let mut i: usize = 0;
    let ghost all = captions_view(captions@);
    assert(all.take(0) =~= Seq::<CaptionView>::empty());
    while i < captions.len()
        invariant
            i <= captions.len(),
            all == captions_view(captions@),
            s@ == lrc_text(all.take(i as int)),
        decreases captions.len() - i,
    {
        proof {
            reveal_strlit("\n");
            assert(all.take(i + 1).drop_last() =~= all.take(i as int));
            assert(all.take(i + 1).last() == captions[i as int]@);
        }
        let ghost before = s@;
        let stamp = format_timestamp(captions[i].start_ms);
        s.append(stamp.as_str());
        s.append(captions[i].text.as_str());
        s.append("\n");
        assert(s@ =~= before + caption_text(captions[i as int]@));
        i += 1;
    }
    assert(all.take(i as int) =~= all);
    s
}

/// The caption file of a document, re-wrapped to `chars_per_line`.
pub fn generate_lrc(lines: &Vec<TimedLine>, chars_per_line: usize) -> (r: Option<String>)
    requires
        chars_per_line >= 1,
    ensures
        r is Some <==> total_ms(lines_view(lines@)) <= u64::MAX,
        r matches Some(s) ==> s@ == lrc_text(
            timeline(lines_view(lines@), chars_per_line as nat),
        ),
{
    match build(lines, chars_per_line) {
        None => None,
        Some(captions) => Some(render_lrc(&captions)),
    }
}

/// Each caption begins where the one before it ended.
pub open spec fn contiguous(captions: Seq<CaptionView>) -> bool {
    forall|j: int|
        0 <= j < captions.len() - 1 ==> (#[trigger] captions[j]).end_ms == captions[j
            + 1].start_ms
}

/// No caption ends before it begins.
pub open spec fn forward(captions: Seq<CaptionView>) -> bool {
    forall|j: int| 0 <= j < captions.len() ==> (#[trigger] captions[j]).start_ms <= captions[j].end_ms
}

/// The texts of a list of captions.
pub open spec fn caption_texts(captions: Seq<CaptionView>) -> Seq<Seq<char>> {
    Seq::new(captions.len(), |k: int| captions[k].text)
}

proof fn lemma_elapsed_bounds(duration: int, pos: nat, end: nat, len: nat)
    requires
        0 <= duration,
        pos <= end <= len,
        len > 0,
    ensures
        elapsed_at(duration, 0, len) == 0,
        elapsed_at(duration, len, len) == duration,
        0 <= elapsed_at(duration, pos, len) <= elapsed_at(duration, end, len) <= duration,
{
    let l = len as int;
    vstd::arithmetic::div_mod::lemma_div_multiples_vanish(duration, l);
    assert(duration * len == l * duration) by (nonlinear_arith)
        requires
            l == len,
    ;
    assert(duration * 0 == 0);
    assert(0 <= duration * pos <= duration * end <= duration * len) by (nonlinear_arith)
        requires
            0 <= duration,
            pos <= end <= len,
    ;
    vstd::arithmetic::div_mod::lemma_div_is_ordered(0, duration * pos, l);
    vstd::arithmetic::div_mod::lemma_div_is_ordered(duration * pos, duration * end, l);
    vstd::arithmetic::div_mod::lemma_div_is_ordered(duration * end, duration * len, l);
}

proof fn lemma_wrap_from_chunks(s: Seq<char>, width: nat, pos: nat)
    requires
        width >= 1,
        pos <= s.len(),
    ensures
        forall|k: int|
            0 <= k < wrap_from(s, width, pos).len() ==> 1 <= (#[trigger] wrap_from(
                s,
                width,
                pos,
            )[k]).len() <= width,
        wrap_from(s, width, pos).flatten() == s.subrange(pos as int, s.len() as int),
        pos < s.len() ==> wrap_from(s, width, pos).len() >= 1,
    decreases s.len() - pos,
{
    let chunks = wrap_from(s, width, pos);
    if pos < s.len() {
        let end = chunk_end(s.len(), width, pos);
        let piece = s.subrange(pos as int, end as int);
        let tail = wrap_from(s, width, end);
        lemma_wrap_from_chunks(s, width, end);
        assert(chunks == seq![piece] + tail);
        assert forall|k: int| 0 <= k < chunks.len() implies 1 <= (#[trigger] chunks[k]).len()
            <= width by {
            if k > 0 {
                assert(chunks[k] == tail[k - 1]);
            }
        }
        assert(chunks.first() == piece);
        assert(chunks.drop_first() =~= tail);
        assert(chunks.flatten() == piece + tail.flatten());
        assert(piece + s.subrange(end as int, s.len() as int) =~= s.subrange(
            pos as int,
            s.len() as int,
        ));
    } else {
        assert(chunks.flatten() =~= s.subrange(pos as int, s.len() as int));
    }
}

/// No chunk of a re-wrapped line is longer than the width.
pub proof fn lemma_wrap_bounded(s: Seq<char>, width: nat, k: int)
    requires
        width >= 1,
        0 <= k < wrap_text(s, width).len(),
    ensures
        wrap_text(s, width)[k].len() <= width,
{
    if s.len() > 0 {
        lemma_wrap_from_chunks(s, width, 0);
    }
}

/// Re-wrapping is idempotent: a chunk of a re-wrapped line, re-wrapped
/// again to the same width, is that chunk alone.
pub proof fn lemma_rewrap_is_identity(s: Seq<char>, width: nat, k: int)
    requires
        width >= 1,
        0 <= k < wrap_text(s, width).len(),
    ensures
        wrap_text(wrap_text(s, width)[k], width) == seq![wrap_text(s, width)[k]],
{
    let c = wrap_text(s, width)[k];
    if s.len() > 0 {
        lemma_wrap_from_chunks(s, width, 0);
        assert(1 <= c.len() <= width);
        assert(chunk_end(c.len(), width, 0) == c.len());
        assert(wrap_from(c, width, c.len()) =~= Seq::<Seq<char>>::empty());
        assert(c.subrange(0, c.len() as int) =~= c);
        assert(wrap_from(c, width, 0) =~= seq![c]);
    } else {
        assert(c =~= Seq::<char>::empty());
    }
}

/// Re-wrapping loses no character: the chunks of a line, put together in
/// order, are the line.
pub proof fn lemma_wrap_keeps_text(s: Seq<char>, width: nat)
    requires
        width >= 1,
    ensures
        wrap_text(s, width).flatten() == s,
{
    if s.len() > 0 {
        lemma_wrap_from_chunks(s, width, 0);
        assert(s.subrange(0, s.len() as int) =~= s);
    } else {
        lemma_flatten_single(Seq::<char>::empty());
    }
}

proof fn lemma_captions_from_chain(s: Seq<char>, width: nat, pos: nat, base: int, duration: int)
    requires
        width >= 1,
        pos < s.len(),
        0 <= duration,
    ensures
        captions_from(s, width, pos, base, duration).len() >= 1,
        captions_from(s, width, pos, base, duration).first().start_ms == base + elapsed_at(
            duration,
            pos,
            s.len(),
        ),
        captions_from(s, width, pos, base, duration).last().end_ms == base + duration,
        contiguous(captions_from(s, width, pos, base, duration)),
        forward(captions_from(s, width, pos, base, duration)),
        caption_texts(captions_from(s, width, pos, base, duration)) == wrap_from(s, width, pos),
    decreases s.len() - pos,
{
    let caps = captions_from(s, width, pos, base, duration);
    let end = chunk_end(s.len(), width, pos);
    let tail = captions_from(s, width, end, base, duration);
    let head = caps[0];
    lemma_elapsed_bounds(duration, pos, end, s.len());
    assert(caps == seq![head] + tail);
    if end < s.len() {
        lemma_captions_from_chain(s, width, end, base, duration);
        assert(caps.last() == tail.last());
        assert forall|j: int| 0 <= j < caps.len() - 1 implies (#[trigger] caps[j]).end_ms
            == caps[j + 1].start_ms by {
            if j > 0 {
                assert(caps[j] == tail[j - 1]);
                assert(caps[j + 1] == tail[j]);
            } else {
                assert(caps[1] == tail[0]);
            }
        }
        assert forall|j: int| 0 <= j < caps.len() implies (#[trigger] caps[j]).start_ms
            <= caps[j].end_ms by {
            if j > 0 {
                assert(caps[j] == tail[j - 1]);
            }
        }
        assert(caption_texts(caps) =~= seq![head.text] + caption_texts(tail));
    } else {
        assert(tail =~= Seq::<CaptionView>::empty());
        assert(caps =~= seq![head]);
        assert(caption_texts(caps) =~= seq![head.text] + wrap_from(s, width, end));
    }
}

/// The captions of one line begin at its start, follow one another without
/// gap or overlap, end at its end, and carry the chunks of its text.
pub proof fn lemma_line_captions_chain(s: Seq<char>, width: nat, base: int, duration: int)
    requires
        width >= 1,
        0 <= duration,
    ensures
        line_captions(s, width, base, duration).len() >= 1,
        line_captions(s, width, base, duration).first().start_ms == base,
        line_captions(s, width, base, duration).last().end_ms == base + duration,
        contiguous(line_captions(s, width, base, duration)),
        forward(line_captions(s, width, base, duration)),
        caption_texts(line_captions(s, width, base, duration)) == wrap_text(s, width),
{
    if s.len() > 0 {
        lemma_captions_from_chain(s, width, 0, base, duration);
        lemma_elapsed_bounds(duration, 0, 0, s.len());
    } else {
        assert(caption_texts(line_captions(s, width, base, duration)) =~= wrap_text(s, width));
    }
}

/// The captions of a document begin at zero, follow one another without
/// gap or overlap, and the last one ends at the sum of all durations.
pub proof fn lemma_timeline_chain(lines: Seq<TimedLineView>, width: nat)
    requires
        width >= 1,
        forall|i: int| 0 <= i < lines.len() ==> (#[trigger] lines[i]).duration_ms >= 0,
    ensures
        lines.len() > 0 ==> timeline(lines, width).len() >= 1,
        lines.len() > 0 ==> timeline(lines, width).first().start_ms == 0,
        lines.len() > 0 ==> timeline(lines, width).last().end_ms == total_ms(lines),
        contiguous(timeline(lines, width)),
        forward(timeline(lines, width)),
    decreases lines.len(),
{
    if lines.len() > 0 {
        let before = timeline(lines.drop_last(), width);
        let base = total_ms(lines.drop_last());
        let here = line_captions(lines.last().text, width, base, lines.last().duration_ms);
        let all = timeline(lines, width);
        lemma_timeline_chain(lines.drop_last(), width);
        lemma_line_captions_chain(lines.last().text, width, base, lines.last().duration_ms);
        assert(all == before + here);
        assert(all.last() == here.last());
        assert forall|j: int| 0 <= j < all.len() - 1 implies (#[trigger] all[j]).end_ms == all[j
            + 1].start_ms by {
            if j + 1 < before.len() {
                assert(all[j] == before[j]);
                assert(all[j + 1] == before[j + 1]);
            } else if j < before.len() {
                assert(all[j] == before.last());
                assert(all[j + 1] == here.first());
            } else {
                assert(all[j] == here[j - before.len()]);
                assert(all[j + 1] == here[j + 1 - before.len()]);
            }
        }
        assert forall|j: int| 0 <= j < all.len() implies (#[trigger] all[j]).start_ms
            <= all[j].end_ms by {
            if j < before.len() {
                assert(all[j] == before[j]);
            } else {
                assert(all[j] == here[j - before.len()]);
            }
        }
        if lines.len() == 1 {
            assert(before =~= Seq::<CaptionView>::empty());
            assert(all.first() == here.first());
        } else {
            assert(all.first() == before.first());
        }
    }
}

/// The texts of the lines of a document.
pub open spec fn line_texts(lines: Seq<TimedLineView>) -> Seq<Seq<char>> {
    Seq::new(lines.len(), |i: int| lines[i].text)
}

/// No caption of a document is longer than the width, and the captions,
/// put together in order, are the lines put together in order: nothing is
/// lost and nothing is added.
pub proof fn lemma_timeline_keeps_text(lines: Seq<TimedLineView>, width: nat)
    requires
        width >= 1,
        forall|i: int| 0 <= i < lines.len() ==> (#[trigger] lines[i]).duration_ms >= 0,
    ensures
        forall|k: int|
            0 <= k < timeline(lines, width).len() ==> (#[trigger] timeline(
                lines,
                width,
            )[k]).text.len() <= width,
        caption_texts(timeline(lines, width)).flatten() == line_texts(lines).flatten(),
    decreases lines.len(),
{
    let all = timeline(lines, width);
    if lines.len() > 0 {
        let before = timeline(lines.drop_last(), width);
        let last = lines.last();
        let here = line_captions(last.text, width, total_ms(lines.drop_last()), last.duration_ms);
        lemma_timeline_keeps_text(lines.drop_last(), width);
        lemma_line_captions_chain(last.text, width, total_ms(lines.drop_last()), last.duration_ms);
        assert(all == before + here);
        assert forall|k: int| 0 <= k < all.len() implies (#[trigger] all[k]).text.len()
            <= width by {
            if k < before.len() {
                assert(all[k] == before[k]);
            } else {
                let j = k - before.len();
                assert(all[k] == here[j]);
                assert(caption_texts(here)[j] == here[j].text);
                lemma_wrap_bounded(last.text, width, j);
            }
        }
        assert(caption_texts(all) =~= caption_texts(before) + caption_texts(here));
        vstd::seq_lib::lemma_flatten_concat(caption_texts(before), caption_texts(here));
        lemma_wrap_keeps_text(last.text, width);
        assert(line_texts(lines) =~= line_texts(lines.drop_last()) + seq![last.text]);
        vstd::seq_lib::lemma_flatten_concat(line_texts(lines.drop_last()), seq![last.text]);
        lemma_flatten_single(last.text);
    } else {
        assert(caption_texts(all) =~= line_texts(lines));
    }
}

} // verus!
