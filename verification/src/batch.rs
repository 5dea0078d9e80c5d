//! A batch of documents: which entries of a directory are narrated, and in
//! what order.

use vstd::prelude::*;
use vstd::seq_lib::to_multiset_insert;
use vstd::utf8::encode_utf8;
use crate::text::texts;

verus! {

/// An entry of the input directory.
#[derive(Debug)]
pub struct DirEntry {
    /// The name of the entry within the directory.
    pub name: String,
    /// Whether the entry is a regular file.
    pub is_file: bool,
}

pub struct DirEntryView {
    pub name: Seq<char>,
    pub is_file: bool,
}

impl View for DirEntry {
    type V = DirEntryView;

    open spec fn view(&self) -> DirEntryView {
        DirEntryView { name: self.name@, is_file: self.is_file }
    }
}

pub open spec fn entries_view(entries: Seq<DirEntry>) -> Seq<DirEntryView> {
    Seq::new(entries.len(), |i: int| entries[i]@)
}

/// Whether a file name has the extension `txt`: it ends in `.txt` and
/// something comes before the dot.
pub open spec fn is_text_file_name(name: Seq<char>) -> bool {
    let n = name.len() as int;
    &&& n > 4
    &&& name[n - 4] == '.'
    &&& name[n - 3] == 't'
    &&& name[n - 2] == 'x'
    &&& name[n - 1] == 't'
}

/// The names of the documents among `entries`: the regular files with the
/// extension `txt`, in the order of the entries.
pub open spec fn documents(entries: Seq<DirEntryView>) -> Seq<Seq<char>>
    decreases entries.len(),
{
    if entries.len() == 0 {
        Seq::empty()
    } else if entries.last().is_file && is_text_file_name(entries.last().name) {
        documents(entries.drop_last()).push(entries.last().name)
    } else {
        documents(entries.drop_last())
    }
}

/// Lexicographic order of byte strings: a proper prefix comes first.
pub open spec fn lex_le(a: Seq<u8>, b: Seq<u8>) -> bool
    decreases a.len(),
{
    if a.len() == 0 {
        true
    } else if b.len() == 0 {
        false
    } else if a[0] != b[0] {
        a[0] < b[0]
    } else {
        lex_le(a.drop_first(), b.drop_first())
    }
}

/// The order in which documents are processed: by the bytes of their
/// names.
pub open spec fn name_le(a: Seq<char>, b: Seq<char>) -> bool {
    lex_le(encode_utf8(a), encode_utf8(b))
}

pub open spec fn sorted_names(names: Seq<Seq<char>>) -> bool {
    forall|i: int, j: int| 0 <= i < j < names.len() ==> name_le(names[i], names[j])
}

pub proof fn lemma_lex_total(a: Seq<u8>, b: Seq<u8>)
    ensures
        lex_le(a, b) || lex_le(b, a),
    decreases a.len(),
{
    if a.len() > 0 && b.len() > 0 && a[0] == b[0] {
        lemma_lex_total(a.drop_first(), b.drop_first());
    }
}

pub proof fn lemma_lex_transitive(a: Seq<u8>, b: Seq<u8>, c: Seq<u8>)
    requires
        lex_le(a, b),
        lex_le(b, c),
    ensures
        lex_le(a, c),
    decreases a.len(),
{
    if a.len() > 0 && b.len() > 0 && c.len() > 0 && a[0] == b[0] && b[0] == c[0] {
        lemma_lex_transitive(a.drop_first(), b.drop_first(), c.drop_first());
    }
}

/// Whether `a` comes before `b`, or equals it, in processing order.
pub fn comes_before(a: &str, b: &str) -> (r: bool)
    ensures
        r == name_le(a@, b@),
{
    let x = a.as_bytes();
    let y = b.as_bytes();
    let mut i: usize = 0;
    assert(x@.skip(0) =~= x@ && y@.skip(0) =~= y@);
    while i < x.len() && i < y.len()
        invariant
            i <= x.len(),
            i <= y.len(),
            x@ == encode_utf8(a@),
            y@ == encode_utf8(b@),
            lex_le(x@, y@) == lex_le(x@.skip(i as int), y@.skip(i as int)),
        decreases x.len() - i,
    {
        let ghost p = x@.skip(i as int);
        let ghost q = y@.skip(i as int);
        assert(p[0] == x@[i as int] && q[0] == y@[i as int]);
        assert(p.drop_first() =~= x@.skip(i + 1));
        assert(q.drop_first() =~= y@.skip(i + 1));
        if x[i] != y[i] {
            return x[i] < y[i];
        }
        i += 1;
    }
    i >= x.len()
}

pub fn has_text_extension(name: &str) -> (r: bool)
    ensures
        r == is_text_file_name(name@),
{
    let n: usize = name.unicode_len();
    n > 4 && name.get_char(n - 4) == '.' && name.get_char(n - 3) == 't' && name.get_char(n - 2)
        == 'x' && name.get_char(n - 1) == 't'
}

/// Puts `name` into a sorted list at its place.
fn insert_sorted(out: &mut Vec<String>, name: String)
    requires
        sorted_names(texts(old(out)@)),
    ensures
        sorted_names(texts(final(out)@)),
        texts(final(out)@).to_multiset() == texts(old(out)@).to_multiset().insert(name@),
{
    let ghost before = texts(out@);
    let mut p: usize = 0;
    while p < out.len() && comes_before(out[p].as_str(), name.as_str())
        invariant
            p <= out.len(),
            before == texts(out@),
            forall|q: int| 0 <= q < p ==> name_le(#[trigger] before[q], name@),
        decreases out.len() - p,
    {
        p += 1;
    }
    out.insert(p, name);
    let ghost after = texts(out@);
    proof {
        assert(after =~= before.insert(p as int, name@));
        to_multiset_insert(before, p as int, name@);
        assert forall|i: int, j: int| 0 <= i < j < after.len() implies name_le(
            after[i],
            after[j],
        ) by {
            if j < p {
                assert(after[i] == before[i] && after[j] == before[j]);
            } else if j == p {
                assert(after[i] == before[i]);
            } else if i == p {
                assert(after[j] == before[j - 1]);
                lemma_lex_total(encode_utf8(before[p as int]), encode_utf8(name@));
                if j - 1 > p {
                    assert(name_le(before[p as int], before[j - 1]));
                    lemma_lex_transitive(
                        encode_utf8(name@),
                        encode_utf8(before[p as int]),
                        encode_utf8(before[j - 1]),
                    );
                }
            } else if i < p {
                assert(after[i] == before[i] && after[j] == before[j - 1]);
            } else {
                assert(after[i] == before[i - 1] && after[j] == before[j - 1]);
            }
        }
    }
}

/// Picks the documents of a directory and puts them in processing order:
/// the regular files with the extension `txt`, sorted by name.
pub fn process_directory(entries: &Vec<DirEntry>) -> (names: Vec<String>)
    ensures
        sorted_names(texts(names@)),
        texts(names@).to_multiset() == documents(entries_view(entries@)).to_multiset(),
{
    let mut names: Vec<String> = Vec::new();
    let ghost all = entries_view(entries@);
    let mut i: usize = 0;
    assert(all.take(0) =~= Seq::<DirEntryView>::empty());
    assert(texts(names@) =~= Seq::<Seq<char>>::empty());
    while i < entries.len()
        invariant
            i <= entries.len(),
            all == entries_view(entries@),
            sorted_names(texts(names@)),
            texts(names@).to_multiset() == documents(all.take(i as int)).to_multiset(),
        decreases entries.len() - i,
    {
        proof {
            assert(all.take(i + 1).drop_last() =~= all.take(i as int));
            assert(all.take(i + 1).last() == entries[i as int]@);
            vstd::seq_lib::to_multiset_build(
                documents(all.take(i as int)),
                entries[i as int]@.name,
            );
        }
        if entries[i].is_file && has_text_extension(entries[i].name.as_str()) {
            insert_sorted(&mut names, entries[i].name.clone());
        }
        i += 1;
    }
    assert(all.take(i as int) =~= all);
    names
}

/// Position of the last dot in a file name, or -1 when it has none.
pub open spec fn last_dot(name: Seq<char>) -> int
    decreases name.len(),
{
    if name.len() == 0 {
        -1
    } else if name.last() == '.' {
        name.len() - 1
    } else {
        last_dot(name.drop_last())
    }
}

/// A file name without its extension: what comes before the last dot,
/// or the whole name when it has no dot but at its start.
pub open spec fn file_stem(name: Seq<char>) -> Seq<char> {
    if last_dot(name) <= 0 {
        name
    } else {
        name.take(last_dot(name))
    }
}

/// The stem of a file name.
pub fn stem_of(name: &str) -> (stem: String)
    ensures
        stem@ == file_stem(name@),
{
    let n: usize = name.unicode_len();
    let mut i: usize = n;
    assert(name@.take(n as int) =~= name@);
    while i > 0
        invariant
            i <= n,
            n == name@.len(),
            last_dot(name@) == last_dot(name@.take(i as int)),
        decreases i,
    {
        proof {
            assert(name@.take(i as int).drop_last() =~= name@.take(i - 1));
            assert(name@.take(i as int).last() == name@[i - 1]);
        }
        if name.get_char(i - 1) == '.' {
            if i - 1 == 0 {
                return String::from_str(name);
            }
            assert(name@.subrange(0, i - 1) =~= name@.take(i - 1));
            return String::from_str(name.substring_char(0, i - 1));
        }
        i -= 1;
    }
    String::from_str(name)
}

/// The names of the files that a document is turned into.
#[derive(Debug, PartialEq, Eq)]
pub struct OutputNames {
    /// The merged audio: the stem of the document with `.wav`.
    pub audio: String,
    /// The caption file: the stem of the document with `.lrc`.
    pub captions: String,
}

/// Names the results of a document after the document: audio and captions
/// share its stem.
pub fn output_names(document: &str) -> (names: OutputNames)
    ensures
        names.audio@ == file_stem(document@) + ".wav"@,
        names.captions@ == file_stem(document@) + ".lrc"@,
{
    let mut audio = stem_of(document);
    let mut captions = audio.clone();
    audio.append(".wav");
    captions.append(".lrc");
    OutputNames { audio, captions }
}

/// The mathematical state of a batch.
pub struct BatchView {
    /// The documents in processing order.
    pub names: Seq<Seq<char>>,
    /// Documents before this index were processed without error.
    pub next: nat,
    /// Whether a document has failed.
    pub failed: bool,
}

impl BatchView {
    pub open spec fn wf(self) -> bool {
        self.next <= self.names.len()
    }

    /// The document to process now: the next one in order, as long as
    /// none has failed.
    pub open spec fn current(self) -> Option<Seq<char>> {
        if !self.failed && self.next < self.names.len() {
            Some(self.names[self.next as int])
        } else {
            None
        }
    }

    /// The state after the current document ended; a failure ends the
    /// batch.
    pub open spec fn after_document(self, succeeded: bool) -> BatchView {
        if self.current() is None {
            self
        } else if succeeded {
            BatchView { next: self.next + 1, ..self }
        } else {
            BatchView { failed: true, ..self }
        }
    }
}

/// The documents of a batch on their way through processing, one at a
/// time and in order.
pub struct BatchRun {
    names: Vec<String>,
    next: usize,
    failed: bool,
}

impl View for BatchRun {
    type V = BatchView;

    closed spec fn view(&self) -> BatchView {
        BatchView { names: texts(self.names@), next: self.next as nat, failed: self.failed }
    }
}

impl BatchRun {
    /// Starts a batch with the documents of a directory.
    pub fn new(entries: &Vec<DirEntry>) -> (batch: BatchRun)
        ensures
            batch@.wf(),
            batch@.next == 0,
            !batch@.failed,
            sorted_names(batch@.names),
            batch@.names.to_multiset() == documents(entries_view(entries@)).to_multiset(),
    {
        BatchRun { names: process_directory(entries), next: 0, failed: false }
    }

    /// The documents in processing order.
    pub fn names(&self) -> (names: &Vec<String>)
        ensures
            texts(names@) == self@.names,
    {
        &self.names
    }

    /// Number of documents processed without error.
    pub fn processed(&self) -> (n: usize)
        ensures
            n == self@.next,
    {
        self.next
    }

    pub fn has_failed(&self) -> (b: bool)
        ensures
            b == self@.failed,
    {
        self.failed
    }

    /// The document to process now, if any.
    pub fn current(&self) -> (name: Option<&str>)
        requires
            self@.wf(),
        ensures
            match self@.current() {
                Some(text) => name matches Some(n) && n@ == text,
                None => name is None,
            },
    {
        if !self.failed && self.next < self.names.len() {
            Some(self.names[self.next].as_str())
        } else {
            None
        }
    }

    /// Records how the current document ended.
    pub fn document_done(&mut self, succeeded: bool)
        requires
            old(self)@.wf(),
        ensures
            final(self)@.wf(),
            final(self)@ == old(self)@.after_document(succeeded),
    {
        if !self.failed && self.next < self.names.len() {
            if succeeded {
                self.next = self.next + 1;
            } else {
                self.failed = true;
            }
        }
    }
}

/// Processing is fail-fast: once a document has failed, no further
/// document is handed out, whatever is reported afterwards.
pub proof fn lemma_failure_ends_batch(batch: BatchView, succeeded: bool)
    requires
        batch.failed,
    ensures
        batch.current() is None,
        batch.after_document(succeeded) == batch,
{
}

} // verus!
