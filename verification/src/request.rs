//! The request of a client: one line that holds a URL and ends with CR LF.

use vstd::prelude::*;
use vstd::string::StringExecFns;
use vstd::string::StringSliceAdditionalSpecFns;
use vstd::utf8::{decode_utf8, valid_utf8};

verus! {

/// The most bytes that a URL in a request may have.
pub const MAX_URL_LENGTH: usize = 1024;

/// The number of bytes that end a request line.
pub const EOL_LENGTH: usize = 2;

/// The most bytes that are read for a request: the longest URL and the end of its line.
pub const MAX_REQUEST_LENGTH: usize = MAX_URL_LENGTH + EOL_LENGTH;

pub const CARRIAGE_RETURN: u8 = 0x0D;

pub const LINE_FEED: u8 = 0x0A;

/// Why no request line was read.
#[derive(Clone, Copy, Debug, PartialEq, Eq, Structural)]
pub enum FramingError {
    /// The connection ended before the end of the request line.
    UnexpectedEnd,
    /// All the bytes that a request may have were read and the line did not end.
    TooLong,
}

/// Why a request is not served.
#[derive(Clone, Copy, Debug, PartialEq, Eq, Structural)]
pub enum RequestError {
    /// No request line was read.
    Framing(FramingError),
    /// The request line is not UTF-8.
    InvalidUtf8,
    /// The request line is not a URL.
    InvalidUrl,
    /// The URL has a scheme other than `gemini`.
    UnsupportedScheme,
}

/// How far the reading of a request has come.
#[derive(Clone, Copy, Debug, PartialEq, Eq, Structural)]
pub enum ReadStatus {
    /// The line has not ended: another read is due.
    Reading,
    /// The bytes read end with CR LF.
    Complete,
    Failed(FramingError),
}

/// The state of a [`RequestReader`]: the bytes read so far and what follows from them.
pub struct ReaderView {
    pub filled: Seq<u8>,
    pub status: ReadStatus,
}

/// Whether the last two bytes are CR LF.
pub open spec fn ends_with_eol(bytes: Seq<u8>) -> bool {
    &&& bytes.len() >= 2
    &&& bytes[bytes.len() - 2] == CARRIAGE_RETURN
    &&& bytes[bytes.len() - 1] == LINE_FEED
}

/// The bytes before the last two.
pub open spec fn without_eol(bytes: Seq<u8>) -> Seq<u8> {
    bytes.take(bytes.len() - 2)
}

impl ReaderView {
    /// No more bytes are held than a request may have, and a complete request ends
    /// with CR LF.
    pub open spec fn well_formed(self) -> bool {
        &&& self.filled.len() <= MAX_REQUEST_LENGTH
        &&& self.status == ReadStatus::Complete ==> ends_with_eol(self.filled)
    }
}

/// The state before the first read.
pub open spec fn before_reading() -> ReaderView {
    ReaderView { filled: Seq::empty(), status: ReadStatus::Reading }
}

/// The state after a read that returned `chunk`; an empty chunk is the end of the
/// connection.
///
/// The terminator is sought only at the end of what has been read. A read that
/// returns more than the bytes still allowed, or that fills the allowance without
/// ending the line, fails the request. Once the request is complete or has failed,
/// reads change nothing.
pub open spec fn after_read(state: ReaderView, chunk: Seq<u8>) -> ReaderView {
    if state.status != ReadStatus::Reading {
        state
    } else if state.filled.len() + chunk.len() > MAX_REQUEST_LENGTH {
        ReaderView { filled: state.filled, status: ReadStatus::Failed(FramingError::TooLong) }
    } else {
        let filled = state.filled + chunk;
        let status = if ends_with_eol(filled) {
            ReadStatus::Complete
        } else if chunk.len() == 0 {
            ReadStatus::Failed(FramingError::UnexpectedEnd)
        } else if filled.len() == MAX_REQUEST_LENGTH {
            ReadStatus::Failed(FramingError::TooLong)
        } else {
            ReadStatus::Reading
        };
        ReaderView { filled, status }
    }
}

/// Collects the bytes of a request read by read and tells when the line is complete.
pub struct RequestReader {
    buffer: Vec<u8>,
    status: ReadStatus,
}

impl View for RequestReader {
    type V = ReaderView;

    closed spec fn view(&self) -> ReaderView {
        ReaderView { filled: self.buffer@, status: self.status }
    }
}

impl RequestReader {
    /// A reader before the first read.
    pub fn new() -> (reader: Self)
        ensures
            reader@ == before_reading(),
            reader@.well_formed(),
    {
        RequestReader { buffer: Vec::new(), status: ReadStatus::Reading }
    }

    /// How far the reading has come.
    pub fn status(&self) -> (status: ReadStatus)
        ensures
            status == self@.status,
    {
        self.status
    }

    /// The most bytes that the next read may return.
    pub fn capacity_left(&self) -> (capacity: usize)
        requires
            self@.well_formed(),
        ensures
            capacity == MAX_REQUEST_LENGTH - self@.filled.len(),
    {
        MAX_REQUEST_LENGTH - self.buffer.len()
    }

    /// Takes in what a read returned; an empty chunk is the end of the connection.
    pub fn feed(&mut self, chunk: &[u8]) -> (status: ReadStatus)
        requires
            old(self)@.well_formed(),
        ensures
            final(self)@ == after_read(old(self)@, chunk@),
            final(self)@.well_formed(),
            status == final(self)@.status,
    {
        match self.status {
            ReadStatus::Reading => {
                if chunk.len() > MAX_REQUEST_LENGTH - self.buffer.len() {
                    self.status = ReadStatus::Failed(FramingError::TooLong);
                } else {
                    self.buffer.extend_from_slice(chunk);
                    assert(self.buffer@ =~= old(self).buffer@ + chunk@);
                    let length = self.buffer.len();
                    let ended = length >= EOL_LENGTH && self.buffer[length - EOL_LENGTH]
                        == CARRIAGE_RETURN && self.buffer[length - 1] == LINE_FEED;
                    if ended {
                        self.status = ReadStatus::Complete;
                    } else if chunk.len() == 0 {
                        self.status = ReadStatus::Failed(FramingError::UnexpectedEnd);
                    } else if length == MAX_REQUEST_LENGTH {
                        self.status = ReadStatus::Failed(FramingError::TooLong);
                    }
                }
            },
            _ => {},
        }
        self.status
    }

    /// The request line without its end, once it is complete.
    pub fn request_line(&self) -> (line: Option<&[u8]>)
        requires
            self@.well_formed(),
        ensures
            line is Some <==> self@.status == ReadStatus::Complete,
            line matches Some(bytes) ==> bytes@ == without_eol(self@.filled),
    {
        match self.status {
            ReadStatus::Complete => {
                let end = self.buffer.len() - EOL_LENGTH;
                Some(vstd::slice::slice_subrange(self.buffer.as_slice(), 0, end))
            },
            _ => None,
        }
    }
}

/// A URL as far as a request is judged and served by it.
#[derive(Debug, PartialEq, Eq)]
pub struct RequestUrl {
    /// The scheme, without the colon after it.
    pub scheme: String,
    /// The parts of the path between its slashes; `None` where the path does not
    /// start with a slash.
    pub path_segments: Option<Vec<String>>,
}

/// The mathematical value of a [`RequestUrl`].
pub struct UrlView {
    pub scheme: Seq<char>,
    pub path_segments: Option<Seq<Seq<char>>>,
}

impl View for RequestUrl {
    type V = UrlView;

    open spec fn view(&self) -> UrlView {
        UrlView {
            scheme: self.scheme@,
            path_segments: match self.path_segments {
                Some(segments) => Some(segments@.map_values(|segment: String| segment@)),
                None => None,
            },
        }
    }
}

/// The scheme of the protocol, which a URL without a scheme gets.
pub open spec fn default_scheme() -> Seq<char> {
    "gemini"@
}

/// The scheme of the protocol letter by letter.
pub proof fn lemma_default_scheme()
    ensures
        default_scheme() == seq!['g', 'e', 'm', 'i', 'n', 'i'],
{
    reveal_strlit("gemini");
}

/// What `url::Url::parse` makes of a text: the scheme and the path segments of the
/// URL that it returns, or `None` where it returns an error. Nothing is stated of
/// which texts are URLs: the parser is trusted to decide alike on the same text.
pub uninterp spec fn parsed_url(text: Seq<char>) -> Option<UrlView>;

/// `url::ParseError`, which [`parse_url`] hands on where a text is no URL.
#[verifier::external_type_specification]
#[verifier::external_body]
pub struct ExUrlParseError(url::ParseError);

/// Calls `std::str::from_utf8`. The claim is that it accepts the bytes that are
/// well-formed UTF-8 and no others, and that the text it returns is the one that
/// the bytes encode.
#[verifier::external_body]
fn text_of(bytes: &[u8]) -> (text: Option<&str>)
    ensures
        text is Some <==> valid_utf8(bytes@),
        text matches Some(decoded) ==> decoded.spec_bytes() == bytes@,
{
    std::str::from_utf8(bytes).ok()
}

/// Calls `url::Url::parse` and reads the URL that it returns with `Url::scheme` and
/// `Url::path_segments`. The claim is that the outcome depends on the text alone: it
/// is the one that [`parsed_url`] names.
#[verifier::external_body]
fn parse_url(text: &str) -> (parsed: Result<RequestUrl, url::ParseError>)
    ensures
        match parsed {
            Ok(found) => parsed_url(text@) == Some(found@),
            Err(_) => parsed_url(text@) is None,
        },
{
    let parsed = url::Url::parse(text)?;
    Ok(
        RequestUrl {
            scheme: parsed.scheme().to_string(),
            path_segments: parsed.path_segments().map(|parts| parts.map(String::from).collect()),
        },
    )
}

/// The rule on schemes: a URL without a scheme gets the scheme of the protocol, and a
/// URL with any other scheme is refused.
pub open spec fn validated(found: UrlView) -> Result<UrlView, RequestError> {
    if found.scheme.len() == 0 {
        Ok(UrlView { scheme: default_scheme(), path_segments: found.path_segments })
    } else if found.scheme == default_scheme() {
        Ok(found)
    } else {
        Err(RequestError::UnsupportedScheme)
    }
}

/// What a request line, taken without its end, asks for.
pub open spec fn request_of(line: Seq<u8>) -> Result<UrlView, RequestError> {
    if !valid_utf8(line) {
        Err(RequestError::InvalidUtf8)
    } else {
        match parsed_url(decode_utf8(line)) {
            None => Err(RequestError::InvalidUrl),
            Some(found) => validated(found),
        }
    }
}

/// The mathematical value of the outcome of reading a request.
pub open spec fn value_of(result: Result<RequestUrl, RequestError>) -> Result<
    UrlView,
    RequestError,
> {
    match result {
        Ok(found) => Ok(found@),
        Err(error) => Err(error),
    }
}

/// Applies the rule on schemes to a parsed URL.
pub fn validate_scheme(found: RequestUrl) -> (result: Result<RequestUrl, RequestError>)
    ensures
        value_of(result) == validated(found@),
        result matches Ok(accepted) ==> accepted@.scheme == default_scheme(),
{
    let mut found = found;
    let gemini = String::from_str("gemini");
    if found.scheme.as_str().is_empty() {
        found.scheme = gemini;
        Ok(found)
    } else if found.scheme == gemini {
        Ok(found)
    } else {
        Err(RequestError::UnsupportedScheme)
    }
}

/// Reads a request line, taken without its end, as a URL of the protocol.
pub fn parse_request(line: &[u8]) -> (result: Result<RequestUrl, RequestError>)
    ensures
        value_of(result) == request_of(line@),
        result matches Ok(accepted) ==> accepted@.scheme == default_scheme(),
{
    broadcast use vstd::utf8::encode_utf8_decode_utf8;

    match text_of(line) {
        None => Err(RequestError::InvalidUtf8),
        Some(text) => match parse_url(text) {
            Err(_) => Err(RequestError::InvalidUrl),
            Ok(found) => validate_scheme(found),
        },
    }
}

/// The state after some reads, one after another.
pub open spec fn after_reads(state: ReaderView, reads: Seq<Seq<u8>>) -> ReaderView
    decreases reads.len(),
{
    if reads.len() == 0 {
        state
    } else {
        after_read(after_reads(state, reads.drop_last()), reads.last())
    }
}

/// The request line, without its end, of a connection on which `reads` arrived and
/// which then ended, or the reason for which there is none.
pub open spec fn framed(reads: Seq<Seq<u8>>) -> Result<Seq<u8>, FramingError> {
    let last = after_read(after_reads(before_reading(), reads), Seq::empty());
    match last.status {
        ReadStatus::Complete => Ok(without_eol(last.filled)),
        ReadStatus::Failed(error) => Err(error),
        ReadStatus::Reading => Err(FramingError::UnexpectedEnd),
    }
}

/// What a connection asks for on which `reads` arrived and which then ended.
pub open spec fn request_from(reads: Seq<Seq<u8>>) -> Result<UrlView, RequestError> {
    match framed(reads) {
        Ok(line) => request_of(line),
        Err(error) => Err(RequestError::Framing(error)),
    }
}

/// What each of some reads returned.
pub open spec fn chunks_of(reads: Seq<Vec<u8>>) -> Seq<Seq<u8>> {
    reads.map_values(|read: Vec<u8>| read@)
}

/// Reads a request from what the reads on a connection returned, in their order; after
/// them the connection has ended.
pub fn read_request(reads: &[Vec<u8>]) -> (result: Result<RequestUrl, RequestError>)
    ensures
        value_of(result) == request_from(chunks_of(reads@)),
{
    let ghost chunks = chunks_of(reads@);
    let mut reader = RequestReader::new();
    let mut i: usize = 0;
    while i < reads.len()
        invariant
            i <= reads.len(),
            chunks == chunks_of(reads@),
            reader@.well_formed(),
            reader@ == after_reads(before_reading(), chunks.take(i as int)),
        decreases reads.len() - i,
    {
        reader.feed(reads[i].as_slice());
        assert(chunks.take(i + 1).drop_last() =~= chunks.take(i as int));
        i = i + 1;
    }
    assert(chunks.take(i as int) =~= chunks);
    let end: [u8; 0] = [];
    reader.feed(end.as_slice());
    match reader.request_line() {
        Some(line) => parse_request(line),
        None => match reader.status() {
            ReadStatus::Failed(error) => Err(RequestError::Framing(error)),
            _ => Err(RequestError::Framing(FramingError::UnexpectedEnd)),
        },
    }
}

/// All the bytes of some reads, in their order.
pub open spec fn concat(reads: Seq<Seq<u8>>) -> Seq<u8>
    decreases reads.len(),
{
    if reads.len() == 0 {
        Seq::empty()
    } else {
        concat(reads.drop_last()) + reads.last()
    }
}

/// A reader holds a beginning of what the reads returned, never more than a request
/// may have; it holds all of it while it goes on reading, and a line that ends with
/// CR LF when it is complete.
pub proof fn lemma_reader_holds_stream(reads: Seq<Seq<u8>>)
    ensures
        ({
            let state = after_reads(before_reading(), reads);
            let stream = concat(reads);
            &&& state.well_formed()
            &&& state.filled.len() <= stream.len()
            &&& state.filled == stream.take(state.filled.len() as int)
            &&& state.status == ReadStatus::Reading ==> state.filled == stream
        }),
    decreases reads.len(),
{
    if reads.len() > 0 {
        lemma_reader_holds_stream(reads.drop_last());
        let earlier = after_reads(before_reading(), reads.drop_last());
        assert(concat(reads).take(earlier.filled.len() as int) =~= concat(reads.drop_last()).take(
            earlier.filled.len() as int,
        ));
    }
}

/// A connection whose bytes hold no CR LF that ends within the length that a request
/// may have gives no request line, however the bytes are spread over the reads.
pub proof fn lemma_unterminated_request_fails(reads: Seq<Seq<u8>>)
    requires
        forall|length: int|
            0 <= length <= concat(reads).len() && length <= MAX_REQUEST_LENGTH ==> !ends_with_eol(
                #[trigger] concat(reads).take(length),
            ),
    ensures
        framed(reads) is Err,
        request_from(reads) matches Err(RequestError::Framing(_)),
{
    lemma_reader_holds_stream(reads);
}

/// The bytes of the first reads are the first bytes of all the reads.
pub proof fn lemma_concat_prefix(reads: Seq<Seq<u8>>, count: int)
    requires
        0 <= count <= reads.len(),
    ensures
        concat(reads.take(count)).len() <= concat(reads).len(),
        concat(reads).take(concat(reads.take(count)).len() as int) == concat(reads.take(count)),
    decreases reads.len(),
{
    if count == reads.len() {
        assert(reads.take(count) =~= reads);
    } else {
        let earlier = reads.drop_last();
        lemma_concat_prefix(earlier, count);
        assert(earlier.take(count) =~= reads.take(count));
    }
}

/// Whether the first `count` reads lead no further than to the end of the request
/// line: while bytes are still to come, what has been read does not end with CR LF
/// and the next read returns something.
pub open spec fn on_the_way(reads: Seq<Seq<u8>>, count: int) -> bool {
    forall|earlier: int|
        0 <= earlier < count && (#[trigger] concat(reads.take(earlier))).len() < concat(
            reads,
        ).len() ==> !ends_with_eol(concat(reads.take(earlier))) && reads[earlier].len() > 0
}

/// Whether the reads bring a request line to its end and no earlier.
pub open spec fn arrives_whole(reads: Seq<Seq<u8>>) -> bool {
    on_the_way(reads, reads.len() as int)
}

/// Once a request is complete or has failed, reads change nothing.
pub proof fn lemma_outcome_stays(state: ReaderView, reads: Seq<Seq<u8>>)
    requires
        state.status != ReadStatus::Reading,
    ensures
        after_reads(state, reads) == state,
    decreases reads.len(),
{
    if reads.len() > 0 {
        lemma_outcome_stays(state, reads.drop_last());
    }
}

/// The reads are taken in one after another: the state after all of them is the state
/// after the first of them, carried on through the rest.
pub proof fn lemma_reads_in_two_parts(state: ReaderView, reads: Seq<Seq<u8>>, count: int)
    requires
        0 <= count <= reads.len(),
    ensures
        after_reads(state, reads) == after_reads(
            after_reads(state, reads.take(count)),
            reads.skip(count),
        ),
    decreases reads.len(),
{
    if count == reads.len() {
        assert(reads.take(count) =~= reads);
    } else {
        let earlier = reads.drop_last();
        lemma_reads_in_two_parts(state, earlier, count);
        assert(earlier.take(count) =~= reads.take(count));
        assert(reads.skip(count).drop_last() =~= earlier.skip(count));
    }
}

/// Reads that lead no further than to the end of a request line are all taken in; the
/// reading goes on while what has been read does not end with CR LF.
pub proof fn lemma_reads_until_terminated(reads: Seq<Seq<u8>>, count: int)
    requires
        0 <= count <= reads.len(),
        concat(reads).len() <= MAX_REQUEST_LENGTH,
        ends_with_eol(concat(reads)),
        on_the_way(reads, count),
    ensures
        ({
            let state = after_reads(before_reading(), reads.take(count));
            let begun = concat(reads.take(count));
            &&& state.filled == begun
            &&& state.status == if ends_with_eol(begun) {
                ReadStatus::Complete
            } else {
                ReadStatus::Reading
            }
        }),
    decreases count,
{
    lemma_concat_prefix(reads, count);
    if count > 0 {
        lemma_reads_until_terminated(reads, count - 1);
        lemma_concat_prefix(reads, count - 1);
        assert(reads.take(count).drop_last() =~= reads.take(count - 1));
    }
}

/// A request line of no more bytes than a URL may have, followed by CR LF, is read
/// whole where the reads bring it to its end and no earlier, however its bytes are
/// spread over them; the request is the bytes before the CR LF.
pub proof fn lemma_terminated_request_succeeds(reads: Seq<Seq<u8>>, line: Seq<u8>)
    requires
        concat(reads) == line + seq![CARRIAGE_RETURN, LINE_FEED],
        line.len() <= MAX_URL_LENGTH,
        arrives_whole(reads),
    ensures
        framed(reads) == Ok::<Seq<u8>, FramingError>(line),
        request_from(reads) == request_of(line),
{
    lemma_reads_until_terminated(reads, reads.len() as int);
    assert(reads.take(reads.len() as int) =~= reads);
    assert(without_eol(concat(reads)) =~= line);
}

/// Where the reads end the line earlier, or return nothing while bytes are still to
/// come, the request line is not read whole.
pub proof fn lemma_terminated_request_needs_whole_arrival(reads: Seq<Seq<u8>>, line: Seq<u8>)
    requires
        concat(reads) == line + seq![CARRIAGE_RETURN, LINE_FEED],
        line.len() <= MAX_URL_LENGTH,
        !arrives_whole(reads),
    ensures
        framed(reads) != Ok::<Seq<u8>, FramingError>(line),
{
    let first = first_departure(reads, reads.len() as int);
    lemma_concat_prefix(reads, first);
    lemma_reads_until_terminated(reads, first);
    lemma_reads_in_two_parts(before_reading(), reads, first);
    let state = after_reads(before_reading(), reads.take(first));
    let rest = reads.skip(first);
    if ends_with_eol(concat(reads.take(first))) {
        // The line ends here, too early, and stays as it is.
        lemma_outcome_stays(state, rest);
    } else {
        // The next read returns nothing, which fails the request for good.
        lemma_reads_in_two_parts(state, rest, 1);
        assert(after_reads(state, rest.take(1).drop_last()) == state);
        lemma_outcome_stays(after_reads(state, rest.take(1)), rest.skip(1));
    }
}

/// The first read at which the reads leave the way to the end of the request line,
/// where they do so among the first `count`.
proof fn first_departure(reads: Seq<Seq<u8>>, count: int) -> (first: int)
    requires
        0 <= count <= reads.len(),
        !on_the_way(reads, count),
    ensures
        0 <= first < count,
        on_the_way(reads, first),
        concat(reads.take(first)).len() < concat(reads).len(),
        ends_with_eol(concat(reads.take(first))) || reads[first].len() == 0,
    decreases count,
{
    if count > 0 && on_the_way(reads, count - 1) {
        count - 1
    } else {
        first_departure(reads, count - 1)
    }
}

} // verus!
