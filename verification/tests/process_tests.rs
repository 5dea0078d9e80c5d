use baitts::api::{ApiClient, ApiError};
use baitts::args::Cli;
use baitts::audio::{AssemblyError, SegmentReceipt};
use baitts::blacklist::Blacklist;
use baitts::lrc::{build, Caption};
use baitts::process::{process_file, read_document, DocumentRun, ProcessError};

fn tone(sample_rate: u32, millis: u32, value: i16) -> Vec<u8> {
    let spec = hound::WavSpec {
        channels: 1,
        sample_rate,
        bits_per_sample: 16,
        sample_format: hound::SampleFormat::Int,
    };
    let mut out = std::io::Cursor::new(Vec::new());
    let mut writer = hound::WavWriter::new(&mut out, spec).unwrap();
    for _ in 0..(sample_rate / 1000 * millis) {
        writer.write_sample(value).unwrap();
    }
    writer.finalize().unwrap();
    out.into_inner()
}

fn samples_of(bytes: &[u8]) -> (u32, Vec<i16>) {
    let mut reader = hound::WavReader::new(bytes).unwrap();
    let rate = reader.spec().sample_rate;
    (rate, reader.samples::<i16>().map(|s| s.unwrap()).collect())
}

fn options(sub: Option<usize>) -> Cli {
    Cli {
        list: false,
        file: Some("book.txt".to_string()),
        dir: None,
        api: Some("http://tts.test".to_string()),
        out: "output".to_string(),
        voice: Some("v1".to_string()),
        volume: Some(80),
        speed: None,
        pitch: None,
        sub,
        blacklist: None,
    }
}

fn client() -> ApiClient {
    ApiClient::new("http://tts.test".to_string())
}

/// Drives a run to its end with the given audio, one piece per narrated
/// line, and returns the addresses requested and the receipts.
fn drive(
    run: &mut DocumentRun,
    blacklist: &Option<Blacklist>,
    audio: &[Vec<u8>],
) -> (Vec<String>, Vec<SegmentReceipt>) {
    let mut urls = Vec::new();
    let mut receipts = Vec::new();
    let mut k = 0;
    while let Some(call) = run.next_request(&client(), blacklist).unwrap() {
        urls.push(call.url().to_string());
        receipts.push(run.deliver(&audio[k]).unwrap());
        k += 1;
    }
    assert_eq!(k, audio.len());
    (urls, receipts)
}

#[test]
fn document_is_read_line_by_line() {
    assert_eq!(read_document("one\ntwo\nthree"), vec!["one", "two", "three"]);
    assert_eq!(read_document("one\r\ntwo\r\n"), vec!["one", "two"]);
    assert_eq!(read_document("one\n\n"), vec!["one", ""]);
    assert_eq!(read_document("\n"), vec![""]);
    assert_eq!(read_document("a\rb"), vec!["a\rb"]);
    assert_eq!(read_document("a\r"), vec!["a\r"]);
    assert_eq!(read_document(""), Vec::<String>::new());
}

#[test]
fn pause_directive_is_sent_with_the_last_line_and_never_shown() {
    let mut run = process_file("ab\ncd\nef", &options(Some(15))).unwrap();
    let audio = vec![tone(8000, 1000, 1), tone(8000, 500, 2), tone(8000, 1200, 3)];
    let (urls, _) = drive(&mut run, &None, &audio);
    assert_eq!(
        urls,
        vec![
            "http://tts.test/forward?text=ab&voice=v1&volume=80",
            "http://tts.test/forward?text=cd&voice=v1&volume=80",
            "http://tts.test/forward?text=ef%5B%5BPAUSE%3A1000%5D%5D&voice=v1&volume=80",
        ]
    );
    assert_eq!(run.line(2), "ef");
    let captions = build(run.timed_lines(), 15).unwrap();
    assert_eq!(
        captions,
        vec![
            Caption { start_ms: 0, end_ms: 1000, text: "ab".to_string() },
            Caption { start_ms: 1000, end_ms: 1500, text: "cd".to_string() },
            Caption { start_ms: 1500, end_ms: 2700, text: "ef".to_string() },
        ]
    );
    assert_eq!(run.finish().unwrap().lrc.unwrap(), "[00:00.00]ab\n[00:01.00]cd\n[00:01.50]ef\n");
}

#[test]
fn long_first_line_is_wrapped_and_nothing_is_added() {
    let mut run = process_file("abcdefghijklmnopqrst\ncd\nef", &options(Some(15))).unwrap();
    let audio = vec![tone(8000, 1000, 1), tone(8000, 500, 2), tone(8000, 1200, 3)];
    drive(&mut run, &None, &audio);
    let captions = build(run.timed_lines(), 15).unwrap();
    let texts: Vec<&str> = captions.iter().map(|c| c.text.as_str()).collect();
    assert_eq!(texts, vec!["abcdefghijklmno", "pqrst", "cd", "ef"]);
    assert_eq!(texts.concat().chars().count(), 24);
    assert_eq!((captions[0].start_ms, captions[1].end_ms), (0, 1000));
    assert_eq!(captions[0].end_ms, captions[1].start_ms);
    assert_eq!(captions.last().unwrap().end_ms, 2700);
}

#[test]
fn blank_last_line_carries_the_pause_alone() {
    let mut run = process_file("one\n\n", &options(Some(15))).unwrap();
    assert_eq!(run.line_count(), 2);
    assert!(run.narrates(0));
    assert!(run.narrates(1));
    let audio = vec![tone(8000, 300, 1), tone(8000, 1000, 0)];
    let (urls, _) = drive(&mut run, &None, &audio);
    assert_eq!(
        urls,
        vec![
            "http://tts.test/forward?text=one&voice=v1&volume=80",
            "http://tts.test/forward?text=%5B%5BPAUSE%3A1000%5D%5D&voice=v1&volume=80",
        ]
    );
    assert_eq!(run.accepted() + run.rejected(), 2);
    let texts: Vec<&str> = run.timed_lines().iter().map(|t| t.text.as_str()).collect();
    assert_eq!(texts, vec!["one", ""]);
    assert_eq!(run.finish().unwrap().lrc.unwrap(), "[00:00.00]one\n[00:00.30]\n");
}

#[test]
fn three_lines_give_three_requests_and_a_timeline() {
    let mut run = process_file("first line\nsecond\nthird", &options(Some(15))).unwrap();
    assert_eq!(run.line_count(), 3);
    let audio = vec![tone(8000, 1000, 1), tone(8000, 500, 2), tone(8000, 1200, 3)];
    let (urls, receipts) = drive(&mut run, &None, &audio);
    assert_eq!(
        urls,
        vec![
            "http://tts.test/forward?text=first+line&voice=v1&volume=80",
            "http://tts.test/forward?text=second&voice=v1&volume=80",
            "http://tts.test/forward?text=third%5B%5BPAUSE%3A1000%5D%5D&voice=v1&volume=80",
        ]
    );
    assert_eq!(
        receipts,
        vec![
            SegmentReceipt { duration_ms: 1000, accepted: true },
            SegmentReceipt { duration_ms: 500, accepted: true },
            SegmentReceipt { duration_ms: 1200, accepted: true },
        ]
    );
    assert_eq!(run.accepted() + run.rejected(), 3);
    assert_eq!(run.durations(), &vec![1000, 500, 1200]);
    let out = run.finish().unwrap();
    let (rate, samples) = samples_of(&out.audio.unwrap());
    assert_eq!(rate, 8000);
    assert_eq!(samples.len(), 8000 + 4000 + 9600);
    assert_eq!(
        out.lrc.unwrap(),
        "[00:00.00]first line\n[00:01.00]second\n[00:01.50]third\n"
    );
    assert_eq!(out.left_out, Vec::<usize>::new());
}

#[test]
fn segment_with_another_sample_rate_is_dropped_from_the_audio_only() {
    let mut run = process_file("one\ntwo\nthree", &options(Some(100))).unwrap();
    let audio = vec![tone(8000, 1000, 1), tone(16000, 500, 2), tone(8000, 1200, 3)];
    let (_, receipts) = drive(&mut run, &None, &audio);
    assert_eq!(receipts[1], SegmentReceipt { duration_ms: 500, accepted: false });
    assert_eq!(run.accepted(), 2);
    assert_eq!(run.rejected(), 1);
    let out = run.finish().unwrap();
    assert_eq!(out.left_out, vec![1]);
    let (rate, samples) = samples_of(&out.audio.unwrap());
    assert_eq!(rate, 8000);
    assert_eq!(samples.len(), 8000 + 9600);
    assert!(samples[..8000].iter().all(|s| *s == 1));
    assert!(samples[8000..].iter().all(|s| *s == 3));
    assert_eq!(
        out.lrc.unwrap(),
        "[00:00.00]one\n[00:01.00]two\n[00:01.50]three\n"
    );
}

#[test]
fn blank_lines_are_neither_narrated_nor_captioned() {
    let mut run = process_file("\none\n   \n\t\ntwo\n", &options(Some(50))).unwrap();
    assert_eq!(run.line_count(), 5);
    let audio = vec![tone(8000, 100, 1), tone(8000, 200, 2)];
    let (urls, _) = drive(&mut run, &None, &audio);
    assert_eq!(urls.len(), 2);
    assert_eq!(run.position(), 5);
    assert_eq!(run.accepted() + run.rejected(), 2);
    let texts: Vec<&str> = run.timed_lines().iter().map(|t| t.text.as_str()).collect();
    assert_eq!(texts, vec!["one", "two"]);
    assert!(!run.narrates(0));
    assert!(run.narrates(1));
    assert!(!run.narrates(2));
    let out = run.finish().unwrap();
    assert_eq!(out.lrc.unwrap(), "[00:00.00]one\n[00:00.10]two\n");
}

#[test]
fn blacklist_changes_what_is_sent_not_what_is_shown() {
    let blacklist = Some(Blacklist::new("damn|heck".to_string()).unwrap());
    let mut run = process_file("oh damn it\nwhat the heck", &options(Some(100))).unwrap();
    let audio = vec![tone(8000, 100, 1), tone(8000, 100, 2)];
    let (urls, _) = drive(&mut run, &blacklist, &audio);
    assert_eq!(
        urls,
        vec![
            "http://tts.test/forward?text=oh++it&voice=v1&volume=80",
            "http://tts.test/forward?text=what+the+%5B%5BPAUSE%3A1000%5D%5D&voice=v1&volume=80",
        ]
    );
    assert_eq!(run.timed_lines()[0].text, "oh damn it");
    assert_eq!(run.timed_lines()[1].text, "what the heck");
    assert_eq!(run.line(0), "oh damn it");
    let out = run.finish().unwrap();
    assert_eq!(
        out.lrc.unwrap(),
        "[00:00.00]oh damn it\n[00:00.10]what the heck\n"
    );
}

#[test]
fn empty_document_gives_nothing() {
    let mut run = process_file("", &options(Some(15))).unwrap();
    assert!(run.next_request(&client(), &None).unwrap().is_none());
    let out = run.finish().unwrap();
    assert_eq!(out.audio, None);
    assert_eq!(out.lrc, None);
}

#[test]
fn without_caption_width_there_is_no_caption_file() {
    let mut run = process_file("one", &options(None)).unwrap();
    drive(&mut run, &None, &vec![tone(8000, 10, 1)]);
    let out = run.finish().unwrap();
    assert!(out.audio.is_some());
    assert_eq!(out.lrc, None);
}

#[test]
fn caption_width_must_lie_between_10_and_100() {
    assert!(matches!(process_file("one", &options(Some(9))), Err(ProcessError::CaptionWidth)));
    assert!(matches!(process_file("one", &options(Some(101))), Err(ProcessError::CaptionWidth)));
    assert!(matches!(process_file("one", &options(Some(0))), Err(ProcessError::CaptionWidth)));
    assert!(process_file("one", &options(Some(10))).is_ok());
    assert!(process_file("one", &options(Some(100))).is_ok());
}

#[test]
fn undecodable_audio_is_fatal_and_leaves_the_run_where_it_was() {
    let mut run = process_file("one\ntwo", &options(Some(15))).unwrap();
    run.next_request(&client(), &None).unwrap().unwrap();
    assert_eq!(
        run.deliver(b"<html>not audio</html>"),
        Err(ProcessError::Assembly(AssemblyError::Decode))
    );
    assert_eq!(run.position(), 0);
    assert_eq!(run.accepted() + run.rejected(), 0);
    assert_eq!(run.timed_lines().len(), 0);
}

#[test]
fn audio_without_a_waiting_line_is_refused() {
    let mut run = process_file("\none", &options(None)).unwrap();
    assert_eq!(run.deliver(&tone(8000, 10, 1)), Err(ProcessError::NothingPending));
    run.next_request(&client(), &None).unwrap().unwrap();
    assert!(run.deliver(&tone(8000, 10, 1)).is_ok());
    assert_eq!(run.deliver(&tone(8000, 10, 1)), Err(ProcessError::NothingPending));
}

#[test]
fn asking_twice_gives_the_same_request() {
    let mut run = process_file("one\ntwo", &options(None)).unwrap();
    let a = run.next_request(&client(), &None).unwrap().unwrap();
    let b = run.next_request(&client(), &None).unwrap().unwrap();
    assert_eq!(a.url(), b.url());
    assert_eq!(run.position(), 0);
}

#[test]
fn request_errors_are_passed_on() {
    let mut run = process_file("one", &options(None)).unwrap();
    let nowhere = ApiClient::new("nowhere".to_string());
    assert!(matches!(
        run.next_request(&nowhere, &None),
        Err(ProcessError::Api(ApiError::InvalidUrl))
    ));
}

#[test]
fn first_segment_that_fails_to_encode_is_reported_at_the_end() {
    let mut run = process_file("one", &options(None)).unwrap();
    run.next_request(&client(), &None).unwrap().unwrap();
    let spec = hound::WavSpec {
        channels: 1,
        sample_rate: 8000,
        bits_per_sample: 8,
        sample_format: hound::SampleFormat::Int,
    };
    let mut out = std::io::Cursor::new(Vec::new());
    let mut writer = hound::WavWriter::new(&mut out, spec).unwrap();
    writer.write_sample(5i8).unwrap();
    writer.finalize().unwrap();
    assert!(run.deliver(&out.into_inner()).unwrap().accepted);
    let merged = run.finish().unwrap().audio.unwrap();
    let mut reader = hound::WavReader::new(&merged[..]).unwrap();
    assert_eq!(reader.spec().bits_per_sample, 8);
    let samples: Vec<i16> = reader.samples::<i16>().map(|s| s.unwrap()).collect();
    assert_eq!(samples, vec![5]);
}
