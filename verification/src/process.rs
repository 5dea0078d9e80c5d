//! One document from text to merged audio and captions, as a state
//! machine: the caller fetches the audio of each request and hands it back.

use vstd::prelude::*;
use crate::api::{
    option_text, request_address, speech_pairs, ApiClient, ApiError, RemoteCall,
};
use crate::args::{Cli, MAX_CAPTION_WIDTH, MIN_CAPTION_WIDTH};
use crate::audio::{
    append_outcome, finalize_outcome, wav_header, wav_samples, Assembler, AssemblerView,
    AssemblyError, SegmentReceipt,
};
use crate::blacklist::{blacklisted, Blacklist};
use crate::lrc::{
    generate_lrc, lines_view, lrc_text, timeline, total_ms, TimedLine, TimedLineView,
};
use crate::retry::RetryView;
use crate::text::{is_blank, is_blank_text, lines_of, split_lines, texts};

verus! {

#[derive(Clone, Copy, Debug, PartialEq, Eq, Structural)]
pub enum ProcessError {
    /// The caption width lies outside 10..=100.
    CaptionWidth,
    /// The request for a line could not be formed.
    Api(ApiError),
    /// Audio was delivered while no line was waiting for it.
    NothingPending,
    /// A segment could not be decoded, or the merge could not be encoded.
    Assembly(AssemblyError),
    /// The durations add up to more than 64 bits of milliseconds.
    TimelineOverflow,
}

/// The directive that asks the service for a second of silence.
pub open spec fn pause_marker() -> Seq<char> {
    "[[PAUSE:1000]]"@
}

/// What stands for line `i` before the blacklist is applied: the line
/// itself, and for the last line of the document the line followed by
/// the pause directive.
pub open spec fn sent_line(lines: Seq<Seq<char>>, i: int) -> Seq<char> {
    if i == lines.len() - 1 {
        lines[i] + pause_marker()
    } else {
        lines[i]
    }
}

/// A line is narrated when what stands for it is not blank.
pub open spec fn is_narrated(lines: Seq<Seq<char>>, i: int) -> bool {
    !is_blank_text(sent_line(lines, i))
}

/// The narrated lines among the first `upto` lines, as they were read, in
/// order.
pub open spec fn narrated(lines: Seq<Seq<char>>, upto: nat) -> Seq<Seq<char>>
    decreases upto,
{
    if upto == 0 {
        Seq::empty()
    } else if is_narrated(lines, upto - 1) {
        narrated(lines, (upto - 1) as nat).push(lines[upto - 1])
    } else {
        narrated(lines, (upto - 1) as nat)
    }
}

/// The lines among the first `upto` lines that are not blank, in order.
pub open spec fn non_blank(lines: Seq<Seq<char>>, upto: nat) -> Seq<Seq<char>>
    decreases upto,
{
    if upto == 0 {
        Seq::empty()
    } else if !is_blank_text(lines[upto - 1]) {
        non_blank(lines, (upto - 1) as nat).push(lines[upto - 1])
    } else {
        non_blank(lines, (upto - 1) as nat)
    }
}

/// Index of the first narrated line at or after `from`, or the number of
/// lines when there is none.
pub open spec fn next_narrated(lines: Seq<Seq<char>>, from: nat) -> nat
    decreases lines.len() - from,
{
    if from >= lines.len() {
        lines.len()
    } else if is_narrated(lines, from as int) {
        from
    } else {
        next_narrated(lines, from + 1)
    }
}

/// The texts that a list of timed lines carries.
pub open spec fn timed_texts(timed: Seq<TimedLineView>) -> Seq<Seq<char>> {
    Seq::new(timed.len(), |k: int| timed[k].text)
}

/// The mathematical state of a document run.
pub struct RunView {
    /// The lines of the document as they were read.
    pub lines: Seq<Seq<char>>,
    /// Lines before this index are dealt with.
    pub next: nat,
    pub assembler: AssemblerView,
    /// Every narrated line so far with the measured length of its audio.
    pub timed: Seq<TimedLineView>,
    /// Indices of the lines whose audio was left out of the merge.
    pub left_out: Seq<usize>,
    pub voice: Option<Seq<char>>,
    pub volume: Option<u8>,
    pub speed: Option<u8>,
    pub pitch: Option<u8>,
    /// Width of a caption line; `None` when no captions are wanted.
    pub width: Option<usize>,
}

impl RunView {
    /// Audio and captions keep step with the text: there is one recorded
    /// duration and one caption source for every narrated line dealt with,
    /// the caption source is the line as it was read, and every segment
    /// was either merged or left out.
    pub open spec fn wf(self) -> bool {
        &&& self.next <= self.lines.len()
        &&& self.assembler.wf()
        &&& self.timed.len() == self.assembler.durations.len()
        &&& forall|k: int|
            0 <= k < self.timed.len() ==> (#[trigger] self.timed[k]).duration_ms
                == self.assembler.durations[k]
        &&& timed_texts(self.timed) == narrated(self.lines, self.next)
        &&& self.left_out.len() == self.assembler.rejected
        &&& self.width matches Some(w) ==> MIN_CAPTION_WIDTH <= w <= MAX_CAPTION_WIDTH
    }

    /// Whether every line has been dealt with.
    pub open spec fn done(self) -> bool {
        next_narrated(self.lines, self.next) == self.lines.len()
    }

    /// The state when the run has moved on to the next narrated line.
    pub open spec fn at_next_line(self) -> RunView {
        RunView { next: next_narrated(self.lines, self.next), ..self }
    }
}

/// What is sent for synthesis in place of `line`: the line itself, or
/// the line without the matches of the blacklist.
pub open spec fn speech_text(blacklist: Option<Seq<char>>, line: Seq<char>) -> Seq<char> {
    match blacklist {
        None => line,
        Some(pattern) => blacklisted(pattern, line),
    }
}

pub open spec fn blacklist_text(blacklist: Option<Blacklist>) -> Option<Seq<char>> {
    match blacklist {
        Some(b) => Some(b.pattern_text()),
        None => None,
    }
}

/// The address to request for a line, given what stands for it, or the
/// reason why there is none.
pub open spec fn line_request(
    run: RunView,
    base_url: Seq<char>,
    blacklist: Option<Seq<char>>,
    line: Seq<char>,
) -> Result<Seq<char>, ProcessError> {
    match request_address(
        base_url,
        "/forward"@,
        speech_pairs(speech_text(blacklist, line), run.voice, run.volume, run.speed, run.pitch),
    ) {
        Ok(address) => Ok(address),
        Err(e) => Err(ProcessError::Api(e)),
    }
}

/// What a finished run hands out: the merged audio, if any segment was
/// narrated, and the text of the caption file, if captions are wanted and
/// the document is not empty.
pub open spec fn document_output(run: RunView) -> Result<
    (Option<Seq<u8>>, Option<Seq<char>>),
    ProcessError,
> {
    match finalize_outcome(run.assembler) {
        Err(e) => Err(ProcessError::Assembly(e)),
        Ok(merged) => match run.width {
            Some(w) if run.lines.len() > 0 => if total_ms(run.timed) > u64::MAX {
                Err(ProcessError::TimelineOverflow)
            } else {
                Ok((merged.audio, Some(lrc_text(timeline(run.timed, w as nat)))))
            },
            _ => Ok((merged.audio, None)),
        },
    }
}

/// The results of one document.
#[derive(Debug)]
pub struct DocumentOutput {
    /// The merged waveform; `None` when nothing was narrated.
    pub audio: Option<Vec<u8>>,
    /// The text of the caption file; `None` when none is wanted.
    pub lrc: Option<String>,
    /// Indices of the lines whose audio was left out of the merge.
    pub left_out: Vec<usize>,
}

/// One document on its way from text to merged audio and captions.
pub struct DocumentRun {
    lines: Vec<String>,
    next: usize,
    assembler: Assembler,
    timed: Vec<TimedLine>,
    left_out: Vec<usize>,
    voice: Option<String>,
    volume: Option<u8>,
    speed: Option<u8>,
    pitch: Option<u8>,
    width: Option<usize>,
}

impl View for DocumentRun {
    type V = RunView;

    closed spec fn view(&self) -> RunView {
        RunView {
            lines: texts(self.lines@),
            next: self.next as nat,
            assembler: self.assembler@,
            timed: lines_view(self.timed@),
            left_out: self.left_out@,
            voice: option_text(self.voice),
            volume: self.volume,
            speed: self.speed,
            pitch: self.pitch,
            width: self.width,
        }
    }
}

/// The state in which a document starts.
pub open spec fn initial_run(content: Seq<char>, args: Cli) -> RunView {
    RunView {
        lines: split_lines(content),
        next: 0,
        assembler: AssemblerView::empty(),
        timed: Seq::empty(),
        left_out: Seq::empty(),
        voice: option_text(args.voice),
        volume: args.volume,
        speed: args.speed,
        pitch: args.pitch,
        width: args.sub,
    }
}

/// Splits a document into its lines.
pub fn read_document(content: &str) -> (lines: Vec<String>)
    ensures
        texts(lines@) == split_lines(content@),
{
    lines_of(content)
}

/// The pause directive holds more than white space, so what stands for
/// the last line of a document is never blank.
pub proof fn lemma_last_line_is_narrated(lines: Seq<Seq<char>>)
    requires
        lines.len() > 0,
    ensures
        is_narrated(lines, lines.len() - 1),
{
    reveal_strlit("[[PAUSE:1000]]");
    let sent = sent_line(lines, lines.len() - 1);
    assert(sent[lines.last().len() as int] == '[');
}

/// Starts the run of one document with the voice options and the caption
/// width of `args`. Fails when the caption width lies outside 10..=100.
pub fn process_file(content: &str, args: &Cli) -> (r: Result<DocumentRun, ProcessError>)
    ensures
        match args.sub {
            Some(w) if w < MIN_CAPTION_WIDTH || w > MAX_CAPTION_WIDTH => r matches Err(e) && e
                == ProcessError::CaptionWidth,
            _ => r matches Ok(run) && run@ == initial_run(content@, *args) && run@.wf(),
        },
{
    match args.sub {
        Some(w) => {
            if w < MIN_CAPTION_WIDTH || w > MAX_CAPTION_WIDTH {
                return Err(ProcessError::CaptionWidth);
            }
        },
        None => {},
    }
    let voice = match &args.voice {
        Some(v) => Some(v.clone()),
        None => None,
    };
    let run = DocumentRun {
        lines: read_document(content),
        next: 0,
        assembler: Assembler::begin_document(),
        timed: Vec::new(),
        left_out: Vec::new(),
        voice,
        volume: args.volume,
        speed: args.speed,
        pitch: args.pitch,
        width: args.sub,
    };
    proof {
        assert(run@.timed =~= Seq::<TimedLineView>::empty());
        assert(timed_texts(run@.timed) =~= narrated(run@.lines, 0));
    }
    Ok(run)
}

impl DocumentRun {
    pub fn line_count(&self) -> (n: usize)
        ensures
            n == self@.lines.len(),
    {
        self.lines.len()
    }

    /// Index of the line that is dealt with next.
    pub fn position(&self) -> (n: usize)
        ensures
            n == self@.next,
    {
        self.next
    }

    pub fn line(&self, index: usize) -> (l: &str)
        requires
            index < self@.lines.len(),
        ensures
            l@ == self@.lines[index as int],
    {
        self.lines[index].as_str()
    }

    pub fn accepted(&self) -> (n: usize)
        ensures
            n == self@.assembler.accepted,
    {
        self.assembler.accepted()
    }

    pub fn rejected(&self) -> (n: usize)
        ensures
            n == self@.assembler.rejected,
    {
        self.assembler.rejected()
    }

    pub fn durations(&self) -> (d: &Vec<u64>)
        ensures
            d@ == self@.assembler.durations,
    {
        self.assembler.durations()
    }

    /// The narrated lines so far, each with the length of its audio.
    pub fn timed_lines(&self) -> (t: &Vec<TimedLine>)
        ensures
            lines_view(t@) == self@.timed,
    {
        &self.timed
    }

    /// Whether the line at `index` is narrated.
    pub fn narrates(&self, index: usize) -> (b: bool)
        requires
            index < self@.lines.len(),
        ensures
            b == is_narrated(self@.lines, index as int),
    {
        if index == self.lines.len() - 1 {
            proof {
                lemma_last_line_is_narrated(self@.lines);
            }
            true
        } else {
            !is_blank(self.lines[index].as_str())
        }
    }

    /// Moves on to the next narrated line and forms the request that
    /// synthesizes it. What is sent is the line, followed by the pause
    /// directive if it is the last one, without the matches of the
    /// blacklist; the line itself is never changed. Returns `Ok(None)` when
    /// no line is left.
    pub fn next_request(&mut self, client: &ApiClient, blacklist: &Option<Blacklist>) -> (r:
        Result<Option<RemoteCall>, ProcessError>)
        requires
            old(self)@.wf(),
        ensures
            final(self)@.wf(),
            final(self)@ == old(self)@.at_next_line(),
            if old(self)@.done() {
                r matches Ok(None)
            } else {
                match line_request(
                    old(self)@,
                    client.base_text(),
                    blacklist_text(*blacklist),
                    sent_line(old(self)@.lines, final(self)@.next as int),
                ) {
                    Ok(address) => r matches Ok(Some(call)) && call.url_text() == address
                        && call.retry_view() == RetryView::initial(),
                    Err(e) => r matches Err(f) && f == e,
                }
            },
    {
        let ghost start = self@;
        while self.next < self.lines.len() && !self.narrates(self.next)
            invariant
                self@.wf(),
                self@ == (RunView { next: self@.next, ..start }),
                next_narrated(start.lines, self@.next) == next_narrated(start.lines, start.next),
            decreases self.lines.len() - self.next,
        {
            self.next = self.next + 1;
        }
        if self.next >= self.lines.len() {
            return Ok(None);
        }
        let mut sent = self.lines[self.next].clone();
        if self.next == self.lines.len() - 1 {
            sent.append("[[PAUSE:1000]]");
        }
        let call = match blacklist {
            None => client.generate_speech(
                sent.as_str(),
                &self.voice,
                &self.volume,
                &self.speed,
                &self.pitch,
            ),
            Some(b) => client.generate_speech(
                b.apply(sent.as_str()).as_str(),
                &self.voice,
                &self.volume,
                &self.speed,
                &self.pitch,
            ),
        };
        match call {
            Ok(c) => Ok(Some(c)),
            Err(e) => Err(ProcessError::Api(e)),
        }
    }

    /// Takes the audio of the line that the last request was for: decodes
    /// it, records its duration together with the line as it was read,
    /// and merges it unless its format differs from that of the first
    /// segment.
    pub fn deliver(&mut self, audio: &[u8]) -> (r: Result<SegmentReceipt, ProcessError>)
        requires
            old(self)@.wf(),
        ensures
            final(self)@.wf(),
            if old(self)@.next >= old(self)@.lines.len() || !is_narrated(
                old(self)@.lines,
                old(self)@.next as int,
            ) {
                r == Err::<SegmentReceipt, ProcessError>(ProcessError::NothingPending)
                    && final(self)@ == old(self)@
            } else {
                match append_outcome(old(self)@.assembler, wav_header(audio@), wav_samples(audio@)) {
                    None => r == Err::<SegmentReceipt, ProcessError>(
                        ProcessError::Assembly(AssemblyError::Decode),
                    ) && final(self)@ == old(self)@,
                    Some((state, receipt)) => r == Ok::<SegmentReceipt, ProcessError>(receipt)
                        && final(self)@ == (RunView {
                        next: old(self)@.next + 1,
                        assembler: state,
                        timed: old(self)@.timed.push(
                            TimedLineView {
                                text: old(self)@.lines[old(self)@.next as int],
                                duration_ms: receipt.duration_ms as int,
                            },
                        ),
                        left_out: if receipt.accepted {
                            old(self)@.left_out
                        } else {
                            old(self)@.left_out.push(old(self)@.next as usize)
                        },
                        ..old(self)@
                    }),
                }
            },
    {
        if self.next >= self.lines.len() || !self.narrates(self.next) {
            return Err(ProcessError::NothingPending);
        }
        let ghost before = self@;
        match self.assembler.append_segment(audio) {
            Err(e) => Err(ProcessError::Assembly(e)),
            Ok(receipt) => {
                let text = self.lines[self.next].clone();
                self.timed.push(TimedLine { text, duration_ms: receipt.duration_ms });
                if !receipt.accepted {
                    self.left_out.push(self.next);
                }
                self.next = self.next + 1;
                proof {
                    let lines = before.lines;
                    let n = before.next as int;
                    let entry = TimedLineView {
                        text: lines[n],
                        duration_ms: receipt.duration_ms as int,
                    };
                    assert(self@.timed =~= before.timed.push(entry));
                    assert(timed_texts(self@.timed) =~= timed_texts(before.timed).push(lines[n]));
                }
                Ok(receipt)
            },
        }
    }

    /// Ends the run: encodes the merged audio and, where captions are
    /// wanted, builds the caption file from the recorded durations.
    pub fn finish(self) -> (r: Result<DocumentOutput, ProcessError>)
        requires
            self@.wf(),
        ensures
            match document_output(self@) {
                Err(e) => r matches Err(f) && f == e,
                Ok((audio, lrc)) => r matches Ok(out) && option_bytes(out.audio) == audio
                    && option_text(out.lrc) == lrc && out.left_out@ == self@.left_out,
            },
    {
        let has_lines = self.lines.len() > 0;
        let audio = match self.assembler.finalize() {
            Ok(merged) => merged.audio,
            Err(e) => {
                return Err(ProcessError::Assembly(e));
            },
        };
        let lrc = match self.width {
            Some(w) => {
                if has_lines {
                    match generate_lrc(&self.timed, w) {
                        Some(text) => Some(text),
                        None => {
                            return Err(ProcessError::TimelineOverflow);
                        },
                    }
                } else {
                    None
                }
            },
            None => None,
        };
        Ok(DocumentOutput { audio, lrc, left_out: self.left_out })
    }
}

pub open spec fn option_bytes(value: Option<Vec<u8>>) -> Option<Seq<u8>> {
    match value {
        Some(v) => Some(v@),
        None => None,
    }
}

/// When every line of a document has been dealt with, the segments that
/// were merged and those that were left out are together as many as the
/// narrated lines, and there is one duration for each of them.
pub proof fn lemma_every_narrated_line_counted(run: RunView)
    requires
        run.wf(),
        run.next == run.lines.len(),
    ensures
        run.assembler.accepted + run.assembler.rejected == narrated(run.lines, run.lines.len()).len(),
        run.assembler.durations.len() == narrated(run.lines, run.lines.len()).len(),
        run.timed.len() == narrated(run.lines, run.lines.len()).len(),
{
    assert(timed_texts(run.timed).len() == run.timed.len());
}

/// In a document whose last line is not blank, the narrated lines are the
/// lines that are not blank.
pub proof fn lemma_narrated_are_non_blank(lines: Seq<Seq<char>>, upto: nat)
    requires
        upto <= lines.len(),
        lines.len() > 0 ==> !is_blank_text(lines.last()),
    ensures
        narrated(lines, upto) == non_blank(lines, upto),
    decreases upto,
{
    if upto > 0 {
        lemma_narrated_are_non_blank(lines, (upto - 1) as nat);
        if upto == lines.len() {
            lemma_last_line_is_narrated(lines);
        }
    }
}

/// When every line of a document whose last line is not blank has been
/// dealt with, the segments that were merged and those that were left out
/// are together as many as the lines that are not blank.
pub proof fn lemma_every_non_blank_line_counted(run: RunView)
    requires
        run.wf(),
        run.next == run.lines.len(),
        run.lines.len() > 0 ==> !is_blank_text(run.lines.last()),
    ensures
        run.assembler.accepted + run.assembler.rejected == non_blank(
            run.lines,
            run.lines.len(),
        ).len(),
{
    lemma_every_narrated_line_counted(run);
    lemma_narrated_are_non_blank(run.lines, run.lines.len());
}

/// The caption of a narrated line is made from the line as it was read,
/// whatever was sent for synthesis in its place: the caption sources are
/// the narrated lines, in order, without the pause directive and
/// untouched by the blacklist.
pub proof fn lemma_captions_show_line_text(run: RunView, k: int)
    requires
        run.wf(),
        0 <= k < run.timed.len(),
    ensures
        run.timed.len() == narrated(run.lines, run.next).len(),
        run.timed[k].text == narrated(run.lines, run.next)[k],
        run.timed[k].duration_ms == run.assembler.durations[k],
{
    assert(timed_texts(run.timed).len() == run.timed.len());
    assert(timed_texts(run.timed)[k] == run.timed[k].text);
}

} // verus!
