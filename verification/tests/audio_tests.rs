use baitts::audio::{
    can_encode, combine_wav_files, segment_duration_ms, Assembler, AssemblyError, FormatSpec,
    Merged, SampleKind, SegmentReceipt, WavHeader,
};

fn wav(sample_rate: u32, channels: u16, samples: &[i16]) -> Vec<u8> {
    let spec = hound::WavSpec {
        channels,
        sample_rate,
        bits_per_sample: 16,
        sample_format: hound::SampleFormat::Int,
    };
    let mut out = std::io::Cursor::new(Vec::new());
    let mut writer = hound::WavWriter::new(&mut out, spec).unwrap();
    for s in samples {
        writer.write_sample(*s).unwrap();
    }
    writer.finalize().unwrap();
    out.into_inner()
}

fn decode(bytes: &[u8]) -> (hound::WavSpec, Vec<i16>) {
    let mut reader = hound::WavReader::new(bytes).unwrap();
    let spec = reader.spec();
    let samples: Vec<i16> = reader.samples::<i16>().map(|s| s.unwrap()).collect();
    (spec, samples)
}

fn mono(sample_rate: u32) -> FormatSpec {
    FormatSpec { sample_rate, channels: 1, bits_per_sample: 16, sample_kind: SampleKind::Int }
}

fn header_with_zero_rate() -> Vec<u8> {
    let mut b: Vec<u8> = Vec::new();
    b.extend_from_slice(b"RIFF");
    b.extend_from_slice(&36u32.to_le_bytes());
    b.extend_from_slice(b"WAVE");
    b.extend_from_slice(b"fmt ");
    b.extend_from_slice(&16u32.to_le_bytes());
    b.extend_from_slice(&1u16.to_le_bytes());
    b.extend_from_slice(&1u16.to_le_bytes());
    b.extend_from_slice(&0u32.to_le_bytes());
    b.extend_from_slice(&0u32.to_le_bytes());
    b.extend_from_slice(&2u16.to_le_bytes());
    b.extend_from_slice(&16u16.to_le_bytes());
    b.extend_from_slice(b"data");
    b.extend_from_slice(&0u32.to_le_bytes());
    b
}

#[test]
fn first_segment_fixes_the_format() {
    let mut a = Assembler::begin_document();
    assert_eq!(a.format(), None);
    let r = a.append_segment(&wav(8000, 1, &[1, 2, 3, 4])).unwrap();
    assert_eq!(r, SegmentReceipt { duration_ms: 0, accepted: true });
    assert_eq!(a.format(), Some(mono(8000)));
    assert_eq!(a.accepted(), 1);
    assert_eq!(a.rejected(), 0);
    assert_eq!(a.sample_count(), 4);
}

#[test]
fn duration_is_sample_count_over_sample_rate() {
    let mut a = Assembler::begin_document();
    let one_second = vec![0i16; 8000];
    let r = a.append_segment(&wav(8000, 1, &one_second)).unwrap();
    assert_eq!(r.duration_ms, 1000);
    let half = vec![0i16; 4000];
    let r = a.append_segment(&wav(8000, 1, &half)).unwrap();
    assert_eq!(r.duration_ms, 500);
    let odd = vec![0i16; 1234];
    let r = a.append_segment(&wav(8000, 1, &odd)).unwrap();
    assert_eq!(r.duration_ms, 154);
    assert_eq!(a.durations(), &vec![1000, 500, 154]);
}

#[test]
fn duration_counts_the_samples_of_all_channels() {
    let header = WavHeader {
        format: FormatSpec {
            sample_rate: 44100,
            channels: 2,
            bits_per_sample: 16,
            sample_kind: SampleKind::Int,
        },
        sample_count: 88200,
    };
    assert_eq!(segment_duration_ms(&header), 2000);
    let mut a = Assembler::begin_document();
    let r = a.append_segment(&wav(44100, 2, &vec![0i16; 88200])).unwrap();
    assert_eq!(r.duration_ms, 2000);
}

#[test]
fn mismatched_segment_is_left_out_but_timed() {
    let mut a = Assembler::begin_document();
    let first = a.append_segment(&wav(8000, 1, &vec![1i16; 8000])).unwrap();
    let second = a.append_segment(&wav(16000, 1, &vec![2i16; 8000])).unwrap();
    let third = a.append_segment(&wav(8000, 1, &vec![3i16; 9600])).unwrap();
    assert_eq!(first, SegmentReceipt { duration_ms: 1000, accepted: true });
    assert_eq!(second, SegmentReceipt { duration_ms: 500, accepted: false });
    assert_eq!(third, SegmentReceipt { duration_ms: 1200, accepted: true });
    assert_eq!(a.accepted(), 2);
    assert_eq!(a.rejected(), 1);
    assert_eq!(a.sample_count(), 8000 + 9600);
    assert_eq!(a.durations(), &vec![1000, 500, 1200]);
    assert_eq!(a.left_out(), &vec![1]);
    let merged = a.finalize().unwrap();
    assert_eq!(merged.left_out, vec![1]);
    let (spec, samples) = decode(&merged.audio.unwrap());
    assert_eq!(spec.sample_rate, 8000);
    assert_eq!(spec.channels, 1);
    assert_eq!(samples.len(), 17600);
    assert!(samples[..8000].iter().all(|s| *s == 1));
    assert!(samples[8000..].iter().all(|s| *s == 3));
}

#[test]
fn channel_count_and_bit_depth_must_match_too() {
    let mut a = Assembler::begin_document();
    a.append_segment(&wav(8000, 1, &[1, 2])).unwrap();
    let stereo = a.append_segment(&wav(8000, 2, &[5, 6])).unwrap();
    assert!(!stereo.accepted);
    let header = WavHeader {
        format: FormatSpec {
            sample_rate: 8000,
            channels: 1,
            bits_per_sample: 8,
            sample_kind: SampleKind::Int,
        },
        sample_count: 2,
    };
    assert!(!a.would_accept(&header));
    let r = a.append_decoded(header, None).unwrap();
    assert_eq!(r, SegmentReceipt { duration_ms: 0, accepted: false });
    assert_eq!(a.rejected(), 2);
    assert_eq!(a.left_out(), &vec![1, 2]);
    assert_eq!(a.sample_count(), 2);
}

#[test]
fn undecodable_segment_is_fatal_and_changes_nothing() {
    let mut a = Assembler::begin_document();
    a.append_segment(&wav(8000, 1, &[1, 2])).unwrap();
    assert_eq!(a.append_segment(b"this is no waveform"), Err(AssemblyError::Decode));
    assert_eq!(a.append_segment(&[]), Err(AssemblyError::Decode));
    assert_eq!(a.accepted(), 1);
    assert_eq!(a.rejected(), 0);
    assert_eq!(a.durations(), &vec![0]);
}

#[test]
fn truncated_samples_are_a_decode_error() {
    let mut bytes = wav(8000, 1, &[1, 2, 3, 4]);
    bytes.truncate(bytes.len() - 3);
    let mut a = Assembler::begin_document();
    assert_eq!(a.append_segment(&bytes), Err(AssemblyError::Decode));
    assert_eq!(a.format(), None);
}

#[test]
fn zero_sample_rate_is_a_decode_error() {
    let mut a = Assembler::begin_document();
    assert_eq!(a.append_segment(&header_with_zero_rate()), Err(AssemblyError::Decode));
    assert_eq!(a.durations().len(), 0);
}

#[test]
fn accepted_segment_without_samples_is_a_decode_error() {
    let mut a = Assembler::begin_document();
    let header = WavHeader { format: mono(8000), sample_count: 4 };
    assert_eq!(a.append_decoded(header, None), Err(AssemblyError::Decode));
    assert_eq!(
        a.append_decoded(header, Some(vec![1, 2, 3, 4])),
        Ok(SegmentReceipt { duration_ms: 0, accepted: true })
    );
}

#[test]
fn finalize_without_segments_gives_nothing() {
    let a = Assembler::begin_document();
    assert_eq!(a.finalize(), Ok(Merged { audio: None, left_out: vec![] }));
    assert_eq!(combine_wav_files(&vec![]), Ok(Merged { audio: None, left_out: vec![] }));
}

#[test]
fn finalize_keeps_append_order() {
    let mut a = Assembler::begin_document();
    a.append_segment(&wav(22050, 1, &[10, -20, 30])).unwrap();
    a.append_segment(&wav(22050, 1, &[])).unwrap();
    a.append_segment(&wav(22050, 1, &[-32768, 32767])).unwrap();
    let merged = a.finalize().unwrap().audio.unwrap();
    let (spec, samples) = decode(&merged);
    assert_eq!(spec.sample_rate, 22050);
    assert_eq!(spec.bits_per_sample, 16);
    assert_eq!(samples, vec![10, -20, 30, -32768, 32767]);
    assert_eq!(merged, wav(22050, 1, &[10, -20, 30, -32768, 32767]));
}

#[test]
fn combine_merges_matching_segments() {
    let segments = vec![wav(8000, 1, &[1, 2]), wav(44100, 1, &[9, 9, 9]), wav(8000, 1, &[3])];
    let merged = combine_wav_files(&segments).unwrap();
    assert_eq!(merged.left_out, vec![1]);
    let (spec, samples) = decode(&merged.audio.unwrap());
    assert_eq!(spec.sample_rate, 8000);
    assert_eq!(samples, vec![1, 2, 3]);
}

#[test]
fn combine_names_every_segment_left_out() {
    let segments = vec![
        wav(8000, 1, &[1]),
        wav(8000, 2, &[2, 2]),
        wav(8000, 1, &[3]),
        wav(16000, 1, &[4]),
        wav(44100, 1, &[5]),
        wav(8000, 1, &[6]),
    ];
    let merged = combine_wav_files(&segments).unwrap();
    assert_eq!(merged.left_out, vec![1, 3, 4]);
    assert_eq!(decode(&merged.audio.unwrap()).1, vec![1, 3, 6]);
    let all_alike = vec![wav(8000, 1, &[1]), wav(8000, 1, &[2])];
    assert_eq!(combine_wav_files(&all_alike).unwrap().left_out, Vec::<usize>::new());
}

#[test]
fn combine_fails_on_a_broken_segment() {
    let segments = vec![wav(8000, 1, &[1, 2]), b"RIFFjunk".to_vec(), wav(8000, 1, &[3])];
    assert_eq!(combine_wav_files(&segments), Err(AssemblyError::Decode));
    let segments = vec![wav(8000, 1, &[1, 2]), wav(16000, 1, &[3]), b"RIFFjunk".to_vec()];
    assert_eq!(combine_wav_files(&segments), Err(AssemblyError::Decode));
}

#[test]
fn unwritable_formats_are_refused() {
    let float16 = FormatSpec {
        sample_rate: 8000,
        channels: 1,
        bits_per_sample: 16,
        sample_kind: SampleKind::Float,
    };
    assert!(!can_encode(&float16, 0));
    assert!(can_encode(&mono(8000), 0));
    assert!(can_encode(&mono(8000), (u32::MAX as usize - 60) / 2));
    assert!(!can_encode(&mono(8000), (u32::MAX as usize - 60) / 2 + 1));
    let fast = FormatSpec {
        sample_rate: u32::MAX,
        channels: 2,
        bits_per_sample: 16,
        sample_kind: SampleKind::Int,
    };
    assert!(!can_encode(&fast, 0));
    let silent = FormatSpec {
        sample_rate: 8000,
        channels: 0,
        bits_per_sample: 16,
        sample_kind: SampleKind::Int,
    };
    assert!(!can_encode(&silent, 0));
    let unrated = FormatSpec {
        sample_rate: 0,
        channels: 1,
        bits_per_sample: 16,
        sample_kind: SampleKind::Int,
    };
    assert!(!can_encode(&unrated, 0));
    let mut a = Assembler::begin_document();
    a.append_decoded(WavHeader { format: float16, sample_count: 0 }, Some(vec![])).unwrap();
    assert_eq!(a.finalize(), Err(AssemblyError::Unwritable));
}

#[test]
fn samples_too_wide_for_the_format_fail_to_encode() {
    let eight = FormatSpec {
        sample_rate: 8000,
        channels: 1,
        bits_per_sample: 8,
        sample_kind: SampleKind::Int,
    };
    let mut a = Assembler::begin_document();
    a.append_decoded(WavHeader { format: eight, sample_count: 1 }, Some(vec![1000])).unwrap();
    assert_eq!(a.finalize(), Err(AssemblyError::Encode));
}
