//! Text encodings: which files of a batch are not UTF-8, whether they may
//! be converted, and what they hold once converted.

use vstd::prelude::*;
use vstd::utf8::valid_utf8;
use crate::text::{is_space, is_space_char};

verus! {

/// Confidence of a detection that is certain, in thousandths.
pub const FULL_CONFIDENCE: u16 = 1000;

/// A file of the batch as it was read, with the outcome of charset
/// detection on its bytes.
#[derive(Debug)]
pub struct FileProbe {
    pub path: String,
    pub content: Vec<u8>,
    /// Label of the detector's best guess.
    pub encoding: String,
    /// Confidence of the guess in thousandths.
    pub confidence: u16,
}

/// A file that is not UTF-8.
#[derive(Debug, PartialEq, Eq)]
pub struct EncodingReport {
    pub path: String,
    pub encoding: String,
    /// Confidence of the guess in thousandths, at most `FULL_CONFIDENCE`.
    pub confidence: u16,
}

/// A file after conversion.
#[derive(Debug, PartialEq, Eq)]
pub struct ConvertedFile {
    pub path: String,
    pub text: String,
}

pub struct FileProbeView {
    pub path: Seq<char>,
    pub content: Seq<u8>,
    pub encoding: Seq<char>,
    pub confidence: u16,
}

pub struct EncodingReportView {
    pub path: Seq<char>,
    pub encoding: Seq<char>,
    pub confidence: u16,
}

pub struct ConvertedFileView {
    pub path: Seq<char>,
    pub text: Seq<char>,
}

impl View for FileProbe {
    type V = FileProbeView;

    open spec fn view(&self) -> FileProbeView {
        FileProbeView {
            path: self.path@,
            content: self.content@,
            encoding: self.encoding@,
            confidence: self.confidence,
        }
    }
}

impl View for EncodingReport {
    type V = EncodingReportView;

    open spec fn view(&self) -> EncodingReportView {
        EncodingReportView {
            path: self.path@,
            encoding: self.encoding@,
            confidence: self.confidence,
        }
    }
}

impl View for ConvertedFile {
    type V = ConvertedFileView;

    open spec fn view(&self) -> ConvertedFileView {
        ConvertedFileView { path: self.path@, text: self.text@ }
    }
}

pub open spec fn probes_view(probes: Seq<FileProbe>) -> Seq<FileProbeView> {
    Seq::new(probes.len(), |i: int| probes[i]@)
}

pub open spec fn reports_view(reports: Seq<EncodingReport>) -> Seq<EncodingReportView> {
    Seq::new(reports.len(), |i: int| reports[i]@)
}

pub open spec fn files_view(files: Seq<ConvertedFile>) -> Seq<ConvertedFileView> {
    Seq::new(files.len(), |i: int| files[i]@)
}

#[derive(Clone, Copy, Debug, PartialEq, Eq, Structural)]
pub enum ConversionPlan {
    /// Every file is UTF-8 already.
    NothingToConvert,
    /// The files that are not UTF-8 are all to be converted.
    ConvertAll,
    /// Conversion was declined: the whole operation ends.
    Abort,
}

#[derive(Clone, Copy, Debug, PartialEq, Eq, Structural)]
pub enum EncodingError {
    /// A file cannot be decoded from the encoding that was detected.
    Undecodable,
}

/// The text that `bytes` hold in the encoding that the detector calls
/// `label`; `None` when no decoder goes by that label.
pub uninterp spec fn transcoded(label: Seq<char>, bytes: Seq<u8>) -> Option<Seq<char>>;

/// Calls `std::str::from_utf8`. Trusted: it succeeds exactly on valid
/// UTF-8.
#[verifier::external_body]
fn is_utf8(bytes: &[u8]) -> (b: bool)
    ensures
        b == valid_utf8(bytes@),
{
    std::str::from_utf8(bytes).is_ok()
}

/// Calls `chardet::charset2encoding` on the label,
/// `encoding::label::encoding_from_whatwg_label` on the result and `decode`
/// on the encoding found, skipping what cannot be decoded. Trusted: the
/// result is a function of label and bytes alone, named `transcoded`.
#[verifier::external_body]
fn decode_with_label(label: &String, bytes: &[u8]) -> (r: Option<String>)
    ensures
        r is Some <==> transcoded(label@, bytes@) is Some,
        r matches Some(s) ==> transcoded(label@, bytes@) == Some(s@),
{
    let codec = encoding::label::encoding_from_whatwg_label(chardet::charset2encoding(label))?;
    codec.decode(bytes, encoding::DecoderTrap::Ignore).ok()
}

/// The report on a file that is not UTF-8.
pub open spec fn report_of(probe: FileProbeView) -> EncodingReportView {
    EncodingReportView {
        path: probe.path,
        encoding: probe.encoding,
        confidence: if probe.confidence > FULL_CONFIDENCE {
            FULL_CONFIDENCE
        } else {
            probe.confidence
        },
    }
}

/// The reports on a batch: one for each file that is not valid UTF-8, in
/// the order of the batch.
pub open spec fn flagged(probes: Seq<FileProbeView>) -> Seq<EncodingReportView>
    decreases probes.len(),
{
    if probes.len() == 0 {
        Seq::empty()
    } else if valid_utf8(probes.last().content) {
        flagged(probes.drop_last())
    } else {
        flagged(probes.drop_last()).push(report_of(probes.last()))
    }
}

/// Reports the files of a batch that are not UTF-8, each with the label
/// and the confidence of the detector's guess.
pub fn scan(probes: &Vec<FileProbe>) -> (reports: Vec<EncodingReport>)
    ensures
        reports_view(reports@) == flagged(probes_view(probes@)),
{
    let mut reports: Vec<EncodingReport> = Vec::new();
    let ghost all = probes_view(probes@);
    let mut i: usize = 0;
    assert(all.take(0) =~= Seq::<FileProbeView>::empty());
    assert(reports_view(reports@) =~= Seq::<EncodingReportView>::empty());
    while i < probes.len()
        invariant
            i <= probes.len(),
            all == probes_view(probes@),
            reports_view(reports@) == flagged(all.take(i as int)),
        decreases probes.len() - i,
    {
        proof {
            assert(all.take(i + 1).drop_last() =~= all.take(i as int));
            assert(all.take(i + 1).last() == probes[i as int]@);
        }
        let probe = &probes[i];
        if !is_utf8(probe.content.as_slice()) {
            let ghost before = reports_view(reports@);
            let confidence: u16 = if probe.confidence > FULL_CONFIDENCE {
                FULL_CONFIDENCE
            } else {
                probe.confidence
            };
            reports.push(
                EncodingReport {
                    path: probe.path.clone(),
                    encoding: probe.encoding.clone(),
                    confidence,
                },
            );
            assert(reports_view(reports@) =~= before.push(report_of(probe@)));
        }
        i += 1;
    }
    assert(all.take(i as int) =~= all);
    reports
}

/// An answer confirms when it is the single letter y, in either case,
/// with nothing but white space around it.
pub open spec fn affirmative(answer: Seq<char>) -> bool {
    exists|i: int|
        0 <= i < answer.len() && (#[trigger] answer[i] == 'y' || answer[i] == 'Y') && forall|
            j: int,
        |
            0 <= j < answer.len() && j != i ==> is_space_char(#[trigger] answer[j])
}

pub fn is_affirmative(answer: &str) -> (b: bool)
    ensures
        b == affirmative(answer@),
{
    let n: usize = answer.unicode_len();
    let mut found: Option<usize> = None;
    let mut i: usize = 0;
    while i < n
        invariant
            i <= n,
            n == answer@.len(),
            match found {
                None => forall|j: int| 0 <= j < i ==> is_space_char(#[trigger] answer@[j]),
                Some(k) => k < i && (answer@[k as int] == 'y' || answer@[k as int] == 'Y')
                    && !is_space_char(answer@[k as int]) && forall|j: int|
                    0 <= j < i && j != k ==> is_space_char(#[trigger] answer@[j]),
            },
        decreases n - i,
    {
        let c: char = answer.get_char(i);
        if !is_space(c) {
            if found.is_some() || !(c == 'y' || c == 'Y') {
                proof {
                    assert forall|w: int|
                        0 <= w < answer@.len() && (answer@[w] == 'y' || answer@[w]
                            == 'Y') implies !(forall|j: int|
                        0 <= j < answer@.len() && j != w ==> is_space_char(
                            #[trigger] answer@[j],
                        )) by {
                        if w != i {
                            assert(!is_space_char(answer@[i as int]));
                        } else {
                            assert(found is Some);
                            assert(!is_space_char(answer@[found->0 as int]));
                        }
                    }
                }
                return false;
            }
            found = Some(i);
        }
        i += 1;
    }
    match found {
        Some(k) => {
            assert(answer@[k as int] == 'y' || answer@[k as int] == 'Y');
            true
        },
        None => false,
    }
}

/// Whether the batch holds a file that is not UTF-8, so that the user has
/// to be asked before anything else happens.
pub fn needs_confirmation(reports: &Vec<EncodingReport>) -> (b: bool)
    ensures
        b == (reports@.len() > 0),
{
    reports.len() > 0
}

/// What becomes of the batch, given the reports and the user's answer.
/// The answer counts only when a file was reported.
pub open spec fn conversion_plan(reported: nat, answer: Seq<char>) -> ConversionPlan {
    if reported == 0 {
        ConversionPlan::NothingToConvert
    } else if affirmative(answer) {
        ConversionPlan::ConvertAll
    } else {
        ConversionPlan::Abort
    }
}

/// Decides on the conversion of a batch: it goes ahead as it is, is
/// converted as a whole, or ends.
pub fn plan_conversion(reports: &Vec<EncodingReport>, answer: &str) -> (plan: ConversionPlan)
    ensures
        plan == conversion_plan(reports@.len(), answer@),
{
    if reports.len() == 0 {
        ConversionPlan::NothingToConvert
    } else if is_affirmative(answer) {
        ConversionPlan::ConvertAll
    } else {
        ConversionPlan::Abort
    }
}

/// The converted files of a batch: one for each file that is not valid
/// UTF-8, in the order of the batch; `None` when one of them cannot be
/// decoded.
pub open spec fn converted(probes: Seq<FileProbeView>) -> Option<Seq<ConvertedFileView>>
    decreases probes.len(),
{
    if probes.len() == 0 {
        Some(Seq::empty())
    } else {
        match converted(probes.drop_last()) {
            None => None,
            Some(files) => if valid_utf8(probes.last().content) {
                Some(files)
            } else {
                match transcoded(probes.last().encoding, probes.last().content) {
                    None => None,
                    Some(text) => Some(
                        files.push(ConvertedFileView { path: probes.last().path, text }),
                    ),
                }
            },
        }
    }
}

proof fn lemma_converted_fails(probes: Seq<FileProbeView>, n: int)
    requires
        0 <= n <= probes.len(),
        converted(probes.take(n)) is None,
    ensures
        converted(probes) is None,
    decreases probes.len() - n,
{
    if n < probes.len() {
        assert(probes.take(n + 1).drop_last() =~= probes.take(n));
        lemma_converted_fails(probes, n + 1);
    } else {
        assert(probes.take(n) =~= probes);
    }
}

/// Converts every file of the batch that is not UTF-8. Either all of them
/// are converted or none is handed out.
pub fn convert(probes: &Vec<FileProbe>) -> (r: Result<Vec<ConvertedFile>, EncodingError>)
    ensures
        match converted(probes_view(probes@)) {
            Some(files) => r matches Ok(v) && files_view(v@) == files,
            None => r matches Err(e) && e == EncodingError::Undecodable,
        },
{
    let mut files: Vec<ConvertedFile> = Vec::new();
    let ghost all = probes_view(probes@);
    let mut i: usize = 0;
    assert(all.take(0) =~= Seq::<FileProbeView>::empty());
    assert(files_view(files@) =~= Seq::<ConvertedFileView>::empty());
    while i < probes.len()
        invariant
            i <= probes.len(),
            all == probes_view(probes@),
            converted(all.take(i as int)) == Some(files_view(files@)),
        decreases probes.len() - i,
    {
        proof {
            assert(all.take(i + 1).drop_last() =~= all.take(i as int));
            assert(all.take(i + 1).last() == probes[i as int]@);
        }
        let probe = &probes[i];
        if !is_utf8(probe.content.as_slice()) {
            match decode_with_label(&probe.encoding, probe.content.as_slice()) {
                None => {
                    proof {
                        lemma_converted_fails(all, i + 1);
                    }
                    return Err(EncodingError::Undecodable);
                },
                Some(text) => {
                    let ghost before = files_view(files@);
                    files.push(ConvertedFile { path: probe.path.clone(), text });
                    assert(files_view(files@) =~= before.push(
                        ConvertedFileView { path: probe@.path, text: text@ },
                    ));
                },
            }
        }
        i += 1;
    }
    assert(all.take(i as int) =~= all);
    Ok(files)
}

} // verus!
