//! Sample-accurate assembly of decoded speech segments into one waveform.

use vstd::prelude::*;

verus! {

/// Error reported by the WAVE codec; its contents are never inspected.
#[verifier::external_type_specification]
#[verifier::external_body]
pub struct ExCodecError(hound::Error);

/// How the samples of a waveform are stored.
#[derive(Clone, Copy, Debug, PartialEq, Eq, Structural)]
pub enum SampleKind {
    Int,
    Float,
}

/// The sample rate, channel count and bit depth shared by every segment of
/// one merged waveform.
#[derive(Clone, Copy, Debug, PartialEq, Eq, Structural)]
pub struct FormatSpec {
    pub sample_rate: u32,
    pub channels: u16,
    pub bits_per_sample: u16,
    pub sample_kind: SampleKind,
}

/// What the header of an encoded segment announces.
#[derive(Clone, Copy, Debug, PartialEq, Eq, Structural)]
pub struct WavHeader {
    pub format: FormatSpec,
    /// Number of samples in the data chunk, all channels counted.
    pub sample_count: u32,
}

/// What `append_segment` reports for one segment.
#[derive(Clone, Copy, Debug, PartialEq, Eq, Structural)]
pub struct SegmentReceipt {
    pub duration_ms: u64,
    /// `false` when the segment was left out of the merge.
    pub accepted: bool,
}

#[derive(Clone, Copy, Debug, PartialEq, Eq, Structural)]
pub enum AssemblyError {
    /// The segment is no readable waveform, or announces a zero sample rate.
    Decode,
    /// The merged waveform is outside what a WAVE container can describe.
    Unwritable,
    /// The codec refused the merged samples.
    Encode,
}

/// The header that the codec reads from `bytes`, if it accepts them.
pub uninterp spec fn wav_header(bytes: Seq<u8>) -> Option<WavHeader>;

/// The 16-bit samples that the codec decodes from `bytes`, if it reads a
/// header and every sample decodes.
pub uninterp spec fn wav_samples(bytes: Seq<u8>) -> Option<Seq<i16>>;

/// The container that the codec writes for `samples` under `format`, if it
/// accepts them.
pub uninterp spec fn wav_encoding(format: FormatSpec, samples: Seq<i16>) -> Option<Seq<u8>>;

pub open spec fn option_samples(samples: Option<Vec<i16>>) -> Option<Seq<i16>> {
    match samples {
        Some(v) => Some(v@),
        None => None,
    }
}

/// Calls `hound::WavReader::new`, then `spec`, `len` and `samples::<i16>`
/// on the reader. Trusted: header and samples are functions of the bytes
/// alone, named `wav_header` and `wav_samples`, and when every sample
/// decodes there are as many as the header announces.
#[verifier::external_body]
fn read_wav(bytes: &[u8]) -> (r: Result<(WavHeader, Option<Vec<i16>>), hound::Error>)
    ensures
        r is Ok <==> wav_header(bytes@) is Some,
        r matches Ok((h, s)) ==> wav_header(bytes@) == Some(h) && wav_samples(bytes@)
            == option_samples(s),
        r matches Ok((h, Some(v))) ==> v@.len() == h.sample_count,
{
    let mut reader = hound::WavReader::new(bytes)?;
    let spec = reader.spec();
    let (sample_rate, channels) = (spec.sample_rate, spec.channels);
    let bits_per_sample = spec.bits_per_sample;
    let sample_kind = match spec.sample_format {
        hound::SampleFormat::Int => SampleKind::Int,
        hound::SampleFormat::Float => SampleKind::Float,
    };
    let format = FormatSpec { sample_rate, channels, bits_per_sample, sample_kind };
    let header = WavHeader { format, sample_count: reader.len() };
    Ok((header, reader.samples::<i16>().collect::<Result<Vec<i16>, hound::Error>>().ok()))
}

/// Bytes that the container spends on one sample of `bits` bits.
pub open spec fn container_bytes(bits: u16) -> int {
    (bits + 7) / 8
}

/// Whether a WAVE container can describe `count` samples under `format`:
/// there is a channel and a sample rate, and its 32-bit size fields hold
/// the byte rate and the data length.
pub open spec fn encodable(format: FormatSpec, count: nat) -> bool {
    &&& format.sample_rate > 0
    &&& format.channels > 0
    &&& 1 <= format.bits_per_sample <= 32
    &&& (format.sample_kind is Int || format.bits_per_sample == 32)
    &&& format.sample_rate * container_bytes(format.bits_per_sample) * format.channels
        <= u32::MAX
    &&& count * container_bytes(format.bits_per_sample) + 60 <= u32::MAX
}

/// Calls `hound::WavWriter::new` on a buffer in memory, `write_sample` for
/// each sample in order, and `finalize`. Trusted: the bytes written are a
/// function of the format and the samples alone, named `wav_encoding`.
#[verifier::external_body]
fn write_wav(format: &FormatSpec, samples: &Vec<i16>) -> (r: Result<Vec<u8>, hound::Error>)
    requires
        encodable(*format, samples@.len()),
    ensures
        r is Ok <==> wav_encoding(*format, samples@) is Some,
        r matches Ok(v) ==> wav_encoding(*format, samples@) == Some(v@),
{
    let (channels, sample_rate) = (format.channels, format.sample_rate);
    let bits_per_sample = format.bits_per_sample;
    let sample_format = match format.sample_kind {
        SampleKind::Int => hound::SampleFormat::Int,
        SampleKind::Float => hound::SampleFormat::Float,
    };
    let spec = hound::WavSpec { channels, sample_rate, bits_per_sample, sample_format };
    let mut out = std::io::Cursor::new(Vec::new());
    let mut writer = hound::WavWriter::new(&mut out, spec)?;
    for sample in samples {
        writer.write_sample(*sample)?;
    }
    writer.finalize()?;
    Ok(out.into_inner())
}

/// Length of a segment in whole milliseconds: sample count divided by
/// sample rate.
pub open spec fn duration_ms(header: WavHeader) -> int
    recommends
        header.format.sample_rate > 0,
{
    header.sample_count * 1000 / (header.format.sample_rate as int)
}

pub fn segment_duration_ms(header: &WavHeader) -> (d: u64)
    requires
        header.format.sample_rate > 0,
    ensures
        d == duration_ms(*header),
{
    let n: u64 = header.sample_count as u64;
    let rate: u64 = header.format.sample_rate as u64;
    n * 1000 / rate
}

pub fn can_encode(format: &FormatSpec, count: usize) -> (b: bool)
    ensures
        b == encodable(*format, count as nat),
{
    if format.sample_rate == 0 || format.channels == 0 || format.bits_per_sample < 1
        || format.bits_per_sample > 32 {
        return false;
    }
    if format.sample_kind == SampleKind::Float && format.bits_per_sample != 32 {
        return false;
    }
    let width: u64 = (format.bits_per_sample as u64 + 7) / 8;
    assert(width == container_bytes(format.bits_per_sample));
    assert(1 <= width <= 4);
    assert(width * format.channels <= 4 * 0xffff) by (nonlinear_arith)
        requires
            0 <= width <= 4,
            0 <= format.channels <= 0xffff,
    ;
    let per_frame: u64 = width * (format.channels as u64);
    assert(format.sample_rate * per_frame <= 0xffff_ffff * (4 * 0xffff)) by (nonlinear_arith)
        requires
            0 <= format.sample_rate <= 0xffff_ffff,
            0 <= per_frame <= 4 * 0xffff,
    ;
    let byte_rate: u64 = (format.sample_rate as u64) * per_frame;
    assert(byte_rate == format.sample_rate * container_bytes(format.bits_per_sample)
        * format.channels) by (nonlinear_arith)
        requires
            byte_rate == format.sample_rate * per_frame,
            per_frame == width * format.channels,
            width == container_bytes(format.bits_per_sample),
    ;
    if byte_rate > 0xffff_ffff {
        return false;
    }
    let room: u64 = (0xffff_ffffu64 - 60) / width;
    assert(count * width + 60 <= 0xffff_ffff <==> count <= room) by (nonlinear_arith)
        requires
            room == (0xffff_ffff - 60int) / (width as int),
            1 <= width <= 4,
    ;
    count as u64 <= room
}

/// The mathematical state of an assembler.
pub struct AssemblerView {
    /// Fixed by the first segment; `None` until then.
    pub format: Option<FormatSpec>,
    /// Samples of the accepted segments, in append order.
    pub samples: Seq<i16>,
    pub accepted: nat,
    pub rejected: nat,
    /// One entry per appended segment, accepted or not, in append order.
    pub durations: Seq<u64>,
    /// Positions, in append order and counted from zero, of the segments
    /// that were left out of the merge.
    pub left_out: Seq<usize>,
}

impl AssemblerView {
    pub open spec fn empty() -> AssemblerView {
        AssemblerView {
            format: None,
            samples: Seq::empty(),
            accepted: 0,
            rejected: 0,
            durations: Seq::empty(),
            left_out: Seq::empty(),
        }
    }

    /// Every segment was either accepted or rejected, each rejected one is
    /// on record, and nothing was appended before the format was fixed.
    pub open spec fn wf(self) -> bool {
        &&& self.accepted + self.rejected == self.durations.len()
        &&& self.left_out.len() == self.rejected
        &&& forall|k: int| 0 <= k < self.left_out.len() ==> #[trigger] self.left_out[k]
            < self.durations.len()
        &&& self.format is None ==> self.durations.len() == 0 && self.samples.len() == 0
    }
}

/// A segment enters the merge when it is the first one or when its format
/// equals the format of the first one.
pub open spec fn admits(format: Option<FormatSpec>, header: WavHeader) -> bool {
    format matches Some(f) ==> f == header.format
}

/// State and receipt after appending a segment whose header and samples
/// decode as given; `None` when the segment cannot be decoded. The samples
/// are consulted only for a segment that enters the merge.
pub open spec fn append_outcome(
    state: AssemblerView,
    header: Option<WavHeader>,
    samples: Option<Seq<i16>>,
) -> Option<(AssemblerView, SegmentReceipt)> {
    match header {
        None => None,
        Some(h) => {
            let d = duration_ms(h) as u64;
            if h.format.sample_rate == 0 {
                None
            } else if admits(state.format, h) {
                match samples {
                    None => None,
                    Some(v) => Some(
                        (
                            AssemblerView {
                                format: Some(h.format),
                                samples: state.samples + v,
                                accepted: state.accepted + 1,
                                rejected: state.rejected,
                                durations: state.durations.push(d),
                                left_out: state.left_out,
                            },
                            SegmentReceipt { duration_ms: d, accepted: true },
                        ),
                    ),
                }
            } else {
                Some(
                    (
                        AssemblerView {
                            format: state.format,
                            samples: state.samples,
                            accepted: state.accepted,
                            rejected: state.rejected + 1,
                            durations: state.durations.push(d),
                            left_out: state.left_out.push(state.durations.len() as usize),
                        },
                        SegmentReceipt { duration_ms: d, accepted: false },
                    ),
                )
            }
        },
    }
}

/// The merge of a document.
#[derive(Debug, PartialEq, Eq)]
pub struct Merged {
    /// The merged waveform; `None` when no segment was appended.
    pub audio: Option<Vec<u8>>,
    /// Positions, in append order and counted from zero, of the segments
    /// that were left out because their format differs from the first.
    pub left_out: Vec<usize>,
}

pub struct MergedView {
    pub audio: Option<Seq<u8>>,
    pub left_out: Seq<usize>,
}

impl View for Merged {
    type V = MergedView;

    open spec fn view(&self) -> MergedView {
        MergedView {
            audio: match self.audio {
                Some(v) => Some(v@),
                None => None,
            },
            left_out: self.left_out@,
        }
    }
}

/// What `finalize` returns in a given state: no audio when no segment was
/// appended, else the encoded merge or the reason why there is none; and
/// with the audio the positions of the segments left out.
pub open spec fn finalize_outcome(state: AssemblerView) -> Result<MergedView, AssemblyError> {
    match state.format {
        None => Ok(MergedView { audio: None, left_out: state.left_out }),
        Some(f) => if !encodable(f, state.samples.len()) {
            Err(AssemblyError::Unwritable)
        } else {
            match wav_encoding(f, state.samples) {
                None => Err(AssemblyError::Encode),
                Some(bytes) => Ok(MergedView { audio: Some(bytes), left_out: state.left_out }),
            }
        },
    }
}

/// Whether an executable result holds exactly what `want` describes.
pub open spec fn merge_matches(
    got: Result<Merged, AssemblyError>,
    want: Result<MergedView, AssemblyError>,
) -> bool {
    match (got, want) {
        (Ok(m), Ok(w)) => m@ == w,
        (Err(e), Err(f)) => e == f,
        _ => false,
    }
}

/// Collects the segments of one document.
pub struct Assembler {
    format: Option<FormatSpec>,
    samples: Vec<i16>,
    accepted: usize,
    rejected: usize,
    durations: Vec<u64>,
    left_out: Vec<usize>,
}

impl View for Assembler {
    type V = AssemblerView;

    closed spec fn view(&self) -> AssemblerView {
        AssemblerView {
            format: self.format,
            samples: self.samples@,
            accepted: self.accepted as nat,
            rejected: self.rejected as nat,
            durations: self.durations@,
            left_out: self.left_out@,
        }
    }
}

impl Assembler {
    /// Starts an empty document.
    pub fn begin_document() -> (a: Assembler)
        ensures
            a@ == AssemblerView::empty(),
            a@.wf(),
    {
        Assembler {
            format: None,
            samples: Vec::new(),
            accepted: 0,
            rejected: 0,
            durations: Vec::new(),
            left_out: Vec::new(),
        }
    }

    pub fn format(&self) -> (f: Option<FormatSpec>)
        ensures
            f == self@.format,
    {
        self.format
    }

    pub fn accepted(&self) -> (n: usize)
        ensures
            n == self@.accepted,
    {
        self.accepted
    }

    pub fn rejected(&self) -> (n: usize)
        ensures
            n == self@.rejected,
    {
        self.rejected
    }

    pub fn sample_count(&self) -> (n: usize)
        ensures
            n == self@.samples.len(),
    {
        self.samples.len()
    }

    pub fn durations(&self) -> (d: &Vec<u64>)
        ensures
            d@ == self@.durations,
    {
        &self.durations
    }

    /// Positions of the segments that were left out of the merge.
    pub fn left_out(&self) -> (l: &Vec<usize>)
        ensures
            l@ == self@.left_out,
    {
        &self.left_out
    }

    /// Whether a segment with this header would enter the merge.
    pub fn would_accept(&self, header: &WavHeader) -> (b: bool)
        ensures
            b == admits(self@.format, *header),
    {
        match self.format {
            None => true,
            Some(f) => f == header.format,
        }
    }

    /// Appends a segment whose header has been read. `samples` holds the
    /// decoded samples, or `None` where they did not decode; it is consulted
    /// only when the segment enters the merge.
    pub fn append_decoded(&mut self, header: WavHeader, samples: Option<Vec<i16>>) -> (r: Result<
        SegmentReceipt,
        AssemblyError,
    >)
        requires
            old(self)@.wf(),
        ensures
            final(self)@.wf(),
            match append_outcome(
                old(self)@,
                Some(header),
                option_samples(samples),
            ) {
                Some((state, receipt)) => r == Ok::<SegmentReceipt, AssemblyError>(receipt)
                    && final(self)@ == state,
                None => r == Err::<SegmentReceipt, AssemblyError>(AssemblyError::Decode)
                    && final(self)@ == old(self)@,
            },
    {
        if header.format.sample_rate == 0 {
            return Err(AssemblyError::Decode);
        }
        let d: u64 = segment_duration_ms(&header);
        if self.would_accept(&header) {
            match samples {
                None => Err(AssemblyError::Decode),
                Some(mut v) => {
                    self.format = Some(header.format);
                    self.samples.append(&mut v);
                    self.durations.push(d);
                    let total: usize = self.durations.len();
                    assert(self.accepted < total);
                    self.accepted = self.accepted + 1;
                    Ok(SegmentReceipt { duration_ms: d, accepted: true })
                },
            }
        } else {
            self.left_out.push(self.durations.len());
            self.durations.push(d);
            let total: usize = self.durations.len();
            assert(self.rejected < total);
            self.rejected = self.rejected + 1;
            Ok(SegmentReceipt { duration_ms: d, accepted: false })
        }
    }

    /// Decodes one synthesized segment and appends it. The first segment
    /// fixes the format of the document; a later one with another format is
    /// left out of the merge, and its duration is recorded all the same.
    pub fn append_segment(&mut self, bytes: &[u8]) -> (r: Result<SegmentReceipt, AssemblyError>)
        requires
            old(self)@.wf(),
        ensures
            final(self)@.wf(),
            match append_outcome(old(self)@, wav_header(bytes@), wav_samples(bytes@)) {
                Some((state, receipt)) => r == Ok::<SegmentReceipt, AssemblyError>(receipt)
                    && final(self)@ == state,
                None => r == Err::<SegmentReceipt, AssemblyError>(AssemblyError::Decode)
                    && final(self)@ == old(self)@,
            },
    {
        match read_wav(bytes) {
            Err(_) => Err(AssemblyError::Decode),
            Ok((header, samples)) => self.append_decoded(header, samples),
        }
    }

    /// Encodes all accepted segments, in append order, as one waveform
    /// under the document's format, and names the segments left out.
    pub fn finalize(self) -> (r: Result<Merged, AssemblyError>)
        ensures
            merge_matches(r, finalize_outcome(self@)),
    {
        match self.format {
            None => Ok(Merged { audio: None, left_out: self.left_out }),
            Some(f) => {
                if !can_encode(&f, self.samples.len()) {
                    Err(AssemblyError::Unwritable)
                } else {
                    match write_wav(&f, &self.samples) {
                        Ok(bytes) => Ok(Merged { audio: Some(bytes), left_out: self.left_out }),
                        Err(_) => Err(AssemblyError::Encode),
                    }
                }
            },
        }
    }
}

/// The byte sequences held by a list of buffers.
pub open spec fn blobs(segments: Seq<Vec<u8>>) -> Seq<Seq<u8>> {
    Seq::new(segments.len(), |i: int| segments[i]@)
}

/// State after appending every segment in order; `None` as soon as one of
/// them cannot be decoded.
pub open spec fn append_all(state: AssemblerView, segments: Seq<Seq<u8>>) -> Option<AssemblerView>
    decreases segments.len(),
{
    if segments.len() == 0 {
        Some(state)
    } else {
        match append_all(state, segments.drop_last()) {
            None => None,
            Some(mid) => match append_outcome(
                mid,
                wav_header(segments.last()),
                wav_samples(segments.last()),
            ) {
                None => None,
                Some((next, _)) => Some(next),
            },
        }
    }
}

/// The merge of a whole document.
pub open spec fn combine_outcome(segments: Seq<Seq<u8>>) -> Result<MergedView, AssemblyError> {
    match append_all(AssemblerView::empty(), segments) {
        None => Err(AssemblyError::Decode),
        Some(state) => finalize_outcome(state),
    }
}

/// Whether the segment at position `i` is left out of the merge: the
/// segments before it fixed a format, and its own format is another.
pub open spec fn is_left_out(segments: Seq<Seq<u8>>, i: int) -> bool {
    match (append_all(AssemblerView::empty(), segments.take(i)), wav_header(segments[i])) {
        (Some(state), Some(header)) => header.format.sample_rate != 0 && !admits(
            state.format,
            header,
        ),
        _ => false,
    }
}

/// Merges the encoded segments of one document into a single waveform: a
/// segment whose format differs from that of the first is left out, and
/// its position is reported. There is no audio for a document without
/// segments.
pub fn combine_wav_files(segments: &Vec<Vec<u8>>) -> (r: Result<Merged, AssemblyError>)
    ensures
        merge_matches(r, combine_outcome(blobs(segments@))),
        r matches Ok(m) ==> forall|p: usize|
            p < segments@.len() ==> (#[trigger] m.left_out@.contains(p) <==> is_left_out(
                blobs(segments@),
                p as int,
            )),
{
    let mut assembler = Assembler::begin_document();
    let mut i: usize = 0;
    let ghost all = blobs(segments@);
    assert(all.take(0) =~= Seq::<Seq<u8>>::empty());
    while i < segments.len()
        invariant
            i <= segments.len(),
            all == blobs(segments@),
            assembler@.wf(),
            assembler@.durations.len() == i,
            append_all(AssemblerView::empty(), all.take(i as int)) == Some(assembler@),
            forall|p: usize|
                p < i ==> (#[trigger] assembler@.left_out.contains(p) <==> is_left_out(
                    all,
                    p as int,
                )),
        decreases segments.len() - i,
    {
        let ghost before = assembler@;
        proof {
            assert(all.take(i + 1).drop_last() =~= all.take(i as int));
            assert(all.take(i + 1).last() == segments[i as int]@);
        }
        match assembler.append_segment(segments[i].as_slice()) {
            Err(e) => {
                proof {
                    lemma_append_all_fails(AssemblerView::empty(), all, i + 1);
                }
                return Err(e);
            },
            Ok(receipt) => {
                proof {
                    let after = assembler@;
                    if receipt.accepted {
                        assert(after.left_out == before.left_out);
                        assert(!is_left_out(all, i as int));
                        if after.left_out.contains(i) {
                            let k = choose|k: int|
                                0 <= k < after.left_out.len() && after.left_out[k] == i;
                            assert(before.left_out[k] < before.durations.len());
                        }
                    } else {
                        assert(after.left_out == before.left_out.push(i));
                        assert(after.left_out[before.left_out.len() as int] == i);
                        assert(is_left_out(all, i as int));
                        assert forall|p: usize| p < i implies (#[trigger] after.left_out.contains(
                            p,
                        ) <==> before.left_out.contains(p)) by {
                            if before.left_out.contains(p) {
                                let k = choose|k: int|
                                    0 <= k < before.left_out.len() && before.left_out[k] == p;
                                assert(after.left_out[k] == p);
                            }
                            if after.left_out.contains(p) {
                                let k = choose|k: int|
                                    0 <= k < after.left_out.len() && after.left_out[k] == p;
                                assert(k < before.left_out.len());
                                assert(before.left_out[k] == p);
                            }
                        }
                    }
                }
            },
        }
        i += 1;
    }
    proof {
        assert(all.take(i as int) =~= all);
    }
    assembler.finalize()
}

/// Once a prefix of the segments cannot be appended, neither can the whole.
pub proof fn lemma_append_all_fails(state: AssemblerView, segments: Seq<Seq<u8>>, n: int)
    requires
        0 <= n <= segments.len(),
        append_all(state, segments.take(n)) is None,
    ensures
        append_all(state, segments) is None,
    decreases segments.len() - n,
{
    if n < segments.len() {
        assert(segments.take(n + 1).drop_last() =~= segments.take(n));
        lemma_append_all_fails(state, segments, n + 1);
    } else {
        assert(segments.take(n) =~= segments);
    }
}

/// The duration recorded for a segment is its sample count divided by its
/// sample rate, in whole milliseconds, whether or not the segment enters
/// the merge; and a segment is merged exactly when it is the first or has
/// the format of the first.
pub proof fn lemma_duration_ignores_acceptance(
    state: AssemblerView,
    header: WavHeader,
    samples: Option<Seq<i16>>,
)
    requires
        append_outcome(state, Some(header), samples) is Some,
    ensures
        header.format.sample_rate > 0,
        match append_outcome(state, Some(header), samples) {
            Some((next, receipt)) => {
                &&& receipt.duration_ms == header.sample_count * 1000 / (
                header.format.sample_rate as int)
                &&& next.durations == state.durations.push(receipt.duration_ms)
                &&& receipt.accepted == admits(state.format, header)
            },
            None => false,
        },
{
    let count = header.sample_count as int;
    let rate = header.format.sample_rate as int;
    assert(0 <= count * 1000 / rate <= count * 1000) by (nonlinear_arith)
        requires
            0 <= count,
            rate >= 1,
    ;
}

} // verus!
