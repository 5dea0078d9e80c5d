//! The remote speech service: which requests to make, and what to make of
//! the voice catalogue it returns.

use vstd::prelude::*;
use crate::retry::{AttemptOutcome, RetryAction, RetrySession, RetryView};
use vstd::seq_lib::lemma_flatten_concat;
use crate::text::{decimal_string, decimal_text, lemma_flatten_single};

verus! {

/// Error of the address parser; its contents are never inspected.
#[verifier::external_type_specification]
#[verifier::external_body]
pub struct ExAddressError(url::ParseError);

/// A voice that the service offers.
#[derive(Debug)]
pub struct Voice {
    pub id: String,
    pub name: String,
    pub gender: String,
    pub locale: String,
    pub voice_type: String,
}

#[derive(Clone, Copy, Debug, PartialEq, Eq, Structural)]
pub enum ApiError {
    /// The base address with its path is no absolute address.
    InvalidUrl,
    /// The base address is longer than `MAX_URL_PART_BYTES`, or it holds a
    /// fragment and a parameter is longer than that.
    TooLong,
    /// The service answered that it did not succeed.
    Unsuccessful,
}

/// Longest base address, in bytes, that is put into a request address;
/// also the longest parameter name or value where the base address holds
/// a fragment.
pub const MAX_URL_PART_BYTES: usize = 0x100_0000;

/// Most parameters of a request whose base address holds a fragment.
pub const MAX_FRAGMENT_PAIRS: usize = 8;

/// Seconds after which one attempt is abandoned.
pub const REQUEST_TIMEOUT_SECS: u64 = 15;

/// Length of `s` in bytes of UTF-8.
pub open spec fn byte_len(s: Seq<char>) -> nat {
    vstd::utf8::encode_utf8(s).len()
}

/// The texts of a list of name and value pairs.
pub open spec fn pair_texts(pairs: Seq<(String, String)>) -> Seq<(Seq<char>, Seq<char>)> {
    Seq::new(pairs.len(), |i: int| (pairs[i].0@, pairs[i].1@))
}

/// Whether `s` holds the character that starts a fragment.
pub open spec fn has_fragment_mark(s: Seq<char>) -> bool {
    exists|i: int| 0 <= i < s.len() && s[i] == '#'
}

/// Whether there are few pairs and every name and value is short.
pub open spec fn short_pairs(pairs: Seq<(Seq<char>, Seq<char>)>) -> bool {
    &&& pairs.len() <= MAX_FRAGMENT_PAIRS
    &&& forall|i: int|
        0 <= i < pairs.len() ==> byte_len((#[trigger] pairs[i]).0) <= MAX_URL_PART_BYTES
            && byte_len(pairs[i].1) <= MAX_URL_PART_BYTES
}

/// Whether the parts of an address stay within what 32-bit positions can
/// describe: the base address is short, and so are the pairs where a
/// fragment has to be put back behind them. Without a fragment the pairs
/// may have any length.
pub open spec fn fits_address(base: Seq<char>, pairs: Seq<(Seq<char>, Seq<char>)>) -> bool {
    &&& byte_len(base) <= MAX_URL_PART_BYTES
    &&& !has_fragment_mark(base) || short_pairs(pairs)
}

/// The address that results from parsing `base` as an absolute address and
/// appending `pairs` to its query in form encoding; `None` when `base`
/// does not parse.
pub uninterp spec fn address_with_query(
    base: Seq<char>,
    pairs: Seq<(Seq<char>, Seq<char>)>,
) -> Option<Seq<char>>;

/// Calls `url::Url::parse`, then `query_pairs_mut().extend_pairs` on the
/// parsed address, and returns its serialization. Trusted: the result is a
/// function of the texts alone, named `address_with_query`. The parser
/// keeps positions in 32 bits and stops without returning where the start
/// of the query, or of a fragment put back behind the query, lies beyond
/// that: such inputs are left out.
#[verifier::external_body]
fn extend_address(base: &str, pairs: &Vec<(String, String)>) -> (r: Result<
    String,
    url::ParseError,
>)
    requires
        fits_address(base@, pair_texts(pairs@)),
    ensures
        r is Ok <==> address_with_query(base@, pair_texts(pairs@)) is Some,
        r matches Ok(s) ==> address_with_query(base@, pair_texts(pairs@)) == Some(s@),
{
    let mut address = url::Url::parse(base)?;
    address.query_pairs_mut().extend_pairs(pairs);
    Ok(String::from(address))
}

/// The query parameter `name`, present when `value` is.
pub open spec fn text_pair(name: Seq<char>, value: Option<Seq<char>>) -> Seq<
    (Seq<char>, Seq<char>),
> {
    match value {
        Some(v) => seq![(name, v)],
        None => Seq::empty(),
    }
}

/// The query parameter `name` in decimal, present when `value` is.
pub open spec fn level_pair(name: Seq<char>, value: Option<u8>) -> Seq<(Seq<char>, Seq<char>)> {
    match value {
        Some(v) => seq![(name, decimal_text(v as nat))],
        None => Seq::empty(),
    }
}

/// The query of a synthesis request: the text, then each option that is
/// set, in the order voice, volume, speed, pitch.
pub open spec fn speech_pairs(
    text: Seq<char>,
    voice: Option<Seq<char>>,
    volume: Option<u8>,
    speed: Option<u8>,
    pitch: Option<u8>,
) -> Seq<(Seq<char>, Seq<char>)> {
    seq![("text"@, text)] + text_pair("voice"@, voice) + level_pair("volume"@, volume)
        + level_pair("speed"@, speed) + level_pair("pitch"@, pitch)
}

pub open spec fn option_text(value: Option<String>) -> Option<Seq<char>> {
    match value {
        Some(v) => Some(v@),
        None => None,
    }
}

/// The address of a request for `path` with `pairs` as its query.
pub open spec fn request_address(
    base_url: Seq<char>,
    path: Seq<char>,
    pairs: Seq<(Seq<char>, Seq<char>)>,
) -> Result<Seq<char>, ApiError> {
    if !fits_address(base_url + path, pairs) {
        Err(ApiError::TooLong)
    } else {
        match address_with_query(base_url + path, pairs) {
            Some(address) => Ok(address),
            None => Err(ApiError::InvalidUrl),
        }
    }
}

fn push_level(pairs: &mut Vec<(String, String)>, name: &str, value: &Option<u8>)
    ensures
        pair_texts(final(pairs)@) == pair_texts(old(pairs)@) + level_pair(name@, *value),
        final(pairs)@.len() <= old(pairs)@.len() + 1,
{
    let ghost before = pair_texts(pairs@);
    match value {
        Some(v) => {
            pairs.push((String::from_str(name), decimal_string(*v as u64)));
            assert(pair_texts(pairs@) =~= before + level_pair(name@, *value));
        },
        None => {
            assert(pair_texts(pairs@) =~= before + level_pair(name@, *value));
        },
    }
}

/// Builds the query of a synthesis request. An option that is not set is
/// left out.
pub fn query_pairs(
    text: &str,
    voice: &Option<String>,
    volume: &Option<u8>,
    speed: &Option<u8>,
    pitch: &Option<u8>,
) -> (pairs: Vec<(String, String)>)
    ensures
        pair_texts(pairs@) == speech_pairs(text@, option_text(*voice), *volume, *speed, *pitch),
        pairs@.len() <= 5,
{
    let mut pairs: Vec<(String, String)> = Vec::new();
    pairs.push((String::from_str("text"), String::from_str(text)));
    assert(pair_texts(pairs@) =~= seq![("text"@, text@)]);
    let ghost before = pair_texts(pairs@);
    match voice {
        Some(v) => {
            pairs.push((String::from_str("voice"), v.clone()));
            assert(pair_texts(pairs@) =~= before + text_pair("voice"@, option_text(*voice)));
        },
        None => {
            assert(pair_texts(pairs@) =~= before + text_pair("voice"@, option_text(*voice)));
        },
    }
    push_level(&mut pairs, "volume", volume);
    push_level(&mut pairs, "speed", speed);
    push_level(&mut pairs, "pitch", pitch);
    pairs
}

/// Whether `s` holds the character that starts a fragment.
pub fn find_fragment_mark(s: &str) -> (b: bool)
    ensures
        b == has_fragment_mark(s@),
{
    broadcast use vstd::string::group_string_axioms;

    for c in it: s.chars()
        invariant
            it.seq() == s@,
            forall|j: int| 0 <= j < it.index() ==> s@[j] != '#',
    {
        if c == '#' {
            return true;
        }
    }
    false
}

/// Whether there are few pairs and every name and value is short.
pub fn check_short_pairs(pairs: &Vec<(String, String)>) -> (b: bool)
    ensures
        b == short_pairs(pair_texts(pairs@)),
{
    if pairs.len() > MAX_FRAGMENT_PAIRS {
        return false;
    }
    let mut i: usize = 0;
    while i < pairs.len()
        invariant
            i <= pairs.len(),
            pairs.len() <= MAX_FRAGMENT_PAIRS,
            forall|j: int|
                0 <= j < i ==> byte_len((#[trigger] pairs@[j]).0@) <= MAX_URL_PART_BYTES
                    && byte_len(pairs@[j].1@) <= MAX_URL_PART_BYTES,
        decreases pairs.len() - i,
    {
        if pairs[i].0.as_str().as_bytes().len() > MAX_URL_PART_BYTES
            || pairs[i].1.as_str().as_bytes().len() > MAX_URL_PART_BYTES {
            assert(pair_texts(pairs@)[i as int].0 == pairs@[i as int].0@);
            assert(pair_texts(pairs@)[i as int].1 == pairs@[i as int].1@);
            return false;
        }
        i += 1;
    }
    assert forall|j: int| 0 <= j < pair_texts(pairs@).len() implies byte_len(
        (#[trigger] pair_texts(pairs@)[j]).0,
    ) <= MAX_URL_PART_BYTES && byte_len(pair_texts(pairs@)[j].1) <= MAX_URL_PART_BYTES by {
        assert(pair_texts(pairs@)[j].0 == pairs@[j].0@);
        assert(pair_texts(pairs@)[j].1 == pairs@[j].1@);
    }
    true
}

/// Whether the parts of an address stay within what 32-bit positions can
/// describe.
pub fn check_fits(base: &str, pairs: &Vec<(String, String)>) -> (b: bool)
    ensures
        b == fits_address(base@, pair_texts(pairs@)),
{
    if base.as_bytes().len() > MAX_URL_PART_BYTES {
        return false;
    }
    !find_fragment_mark(base) || check_short_pairs(pairs)
}

/// One request to the service together with its retry bookkeeping.
pub struct RemoteCall {
    url: String,
    retry: RetrySession,
}

impl RemoteCall {
    pub closed spec fn url_text(&self) -> Seq<char> {
        self.url@
    }

    pub closed spec fn retry_view(&self) -> RetryView {
        self.retry@
    }

    /// The address to request at every attempt.
    pub fn url(&self) -> (u: &str)
        ensures
            u@ == self.url_text(),
    {
        self.url.as_str()
    }

    pub fn retry(&self) -> (r: &RetrySession)
        ensures
            r@ == self.retry_view(),
    {
        &self.retry
    }

    /// Starts the first attempt.
    pub fn start(&mut self) -> (action: RetryAction)
        requires
            old(self).retry_view() == RetryView::initial(),
        ensures
            final(self).retry_view() == RetryView::started(),
            final(self).retry_view().wf(),
            final(self).url_text() == old(self).url_text(),
            action == RetryAction::Attempt,
    {
        self.retry.start()
    }

    /// Records how the attempt under way ended and says what to do next.
    pub fn on_outcome(&mut self, outcome: AttemptOutcome) -> (action: RetryAction)
        requires
            old(self).retry_view().wf(),
            old(self).retry_view().state is Attempting,
        ensures
            final(self).retry_view().wf(),
            (final(self).retry_view(), action) == old(self).retry_view().after_outcome(outcome),
            final(self).url_text() == old(self).url_text(),
    {
        self.retry.on_outcome(outcome)
    }
}

/// All voices of a catalogue answer, provider after provider; an error
/// when the answer does not report success.
pub open spec fn catalogue_voices(success: bool, providers: Seq<Seq<Voice>>) -> Result<
    Seq<Voice>,
    ApiError,
> {
    if success {
        Ok(providers.flatten())
    } else {
        Err(ApiError::Unsuccessful)
    }
}

pub open spec fn provider_lists(providers: Seq<Vec<Voice>>) -> Seq<Seq<Voice>> {
    Seq::new(providers.len(), |i: int| providers[i]@)
}

/// Flattens the providers of a catalogue answer into one list of voices.
pub fn collect_voices(success: bool, providers: Vec<Vec<Voice>>) -> (r: Result<
    Vec<Voice>,
    ApiError,
>)
    ensures
        match catalogue_voices(success, provider_lists(providers@)) {
            Ok(voices) => r matches Ok(v) && v@ == voices,
            Err(e) => r == Err::<Vec<Voice>, ApiError>(e),
        },
{
    if !success {
        return Err(ApiError::Unsuccessful);
    }
    let ghost all = provider_lists(providers@);
    let mut rest = providers;
    let mut out: Vec<Voice> = Vec::new();
    // Providers are taken from the back, so each one goes in front of
    // what was collected before.
    while rest.len() > 0
        invariant
            provider_lists(rest@).flatten() + out@ == all.flatten(),
        decreases rest.len(),
    {
        let ghost before = provider_lists(rest@);
        let ghost collected = out@;
        let mut last = rest.pop().unwrap();
        last.append(&mut out);
        out = last;
        proof {
            let shorter = provider_lists(rest@);
            assert(before =~= shorter + seq![before.last()]);
            lemma_flatten_concat(shorter, seq![before.last()]);
            lemma_flatten_single(before.last());
            assert(shorter.flatten() + (before.last() + collected) =~= (shorter.flatten()
                + before.last()) + collected);
        }
    }
    assert(provider_lists(rest@).flatten() + out@ =~= out@);
    Ok(out)
}

/// The service behind one base address.
pub struct ApiClient {
    base_url: String,
}

impl ApiClient {
    pub closed spec fn base_text(&self) -> Seq<char> {
        self.base_url@
    }

    pub fn new(base_url: String) -> (client: ApiClient)
        ensures
            client.base_text() == base_url@,
    {
        ApiClient { base_url }
    }

    pub fn base_url(&self) -> (u: &str)
        ensures
            u@ == self.base_text(),
    {
        self.base_url.as_str()
    }

    /// The request for the voice catalogue, not yet started.
    pub fn list_voices(&self) -> (call: RemoteCall)
        ensures
            call.url_text() == self.base_text() + "/voices"@,
            call.retry_view() == RetryView::initial(),
    {
        let mut url = self.base_url.clone();
        url.append("/voices");
        RemoteCall { url, retry: RetrySession::new() }
    }

    /// The request that synthesizes `text`, not yet started. An option
    /// that is not set is left out of the request.
    pub fn generate_speech(
        &self,
        text: &str,
        voice: &Option<String>,
        volume: &Option<u8>,
        speed: &Option<u8>,
        pitch: &Option<u8>,
    ) -> (r: Result<RemoteCall, ApiError>)
        ensures
            match request_address(
                self.base_text(),
                "/forward"@,
                speech_pairs(text@, option_text(*voice), *volume, *speed, *pitch),
            ) {
                Ok(address) => r matches Ok(call) && call.url_text() == address
                    && call.retry_view() == RetryView::initial(),
                Err(e) => r matches Err(f) && f == e,
            },
    {
        let pairs = query_pairs(text, voice, volume, speed, pitch);
        let mut base = self.base_url.clone();
        base.append("/forward");
        if !check_fits(base.as_str(), &pairs) {
            return Err(ApiError::TooLong);
        }
        match extend_address(base.as_str(), &pairs) {
            Ok(url) => Ok(RemoteCall { url, retry: RetrySession::new() }),
            Err(_) => Err(ApiError::InvalidUrl),
        }
    }
}

} // verus!
