//! What travels between the two halves of a transfer and up to the application:
//! file descriptions, completion events, and the header a sender writes.

use crate::codec::{
    header_ended, joined, lemma_reads_deliver_body, lemma_wire_round_trip, newline_free, row,
    stream_body, stream_digest, stream_name, wire_image, written_after, Receipt, NEWLINE,
};
use crate::digest::{digest, is_digest_text, sha1_hex, DIGEST_INPUT_LIMIT};
use vstd::prelude::*;
use vstd::string::StringExecFns;
use vstd::utf8::{decode_utf8, encode_utf8, valid_utf8};

verus! {

/// Seconds after which an unfinished send or receive counts as failed.
pub const UPGRADE_TIMEOUT_SECS: u64 = 120;

/// A file that waits to be sent.
#[derive(Clone, Debug, PartialEq, Eq)]
pub struct FileToSend {
    pub name: String,
    pub path: String,
}

/// How the one transfer of a stream ended.
#[derive(Clone, Debug, PartialEq, Eq)]
pub enum ProtocolEvent {
    /// A file was received and stored.
    Received { name: String, path: String, hash: String, size_bytes: usize },
    /// A file was sent and the stream closed.
    Sent,
    /// The stream failed before its transfer was complete.
    Failed,
}

/// Describes a file that is about to be sent, or one that was just received.
#[derive(Clone, Debug, PartialEq, Eq)]
pub struct TransferPayload {
    pub name: String,
    pub path: String,
    pub hash: String,
    pub size_bytes: usize,
}

/// Why a received file is not accepted.
#[derive(Debug, Clone, Copy, PartialEq, Eq, Structural)]
pub enum TransferError {
    /// The digest of the stored bytes is not the declared one.
    Corrupted,
    /// A header line is not UTF-8 text.
    InvalidHeader,
}

/// A waiting file as plain values.
pub struct FileView {
    pub name: Seq<char>,
    pub path: Seq<char>,
}

impl View for FileToSend {
    type V = FileView;

    open spec fn view(&self) -> FileView {
        FileView { name: self.name@, path: self.path@ }
    }
}

/// A completion event as plain values.
pub enum EventView {
    Received(PayloadView),
    Sent,
    Failed,
}

impl View for ProtocolEvent {
    type V = EventView;

    open spec fn view(&self) -> EventView {
        match *self {
            ProtocolEvent::Received { name, path, hash, size_bytes } => EventView::Received(
                PayloadView { name: name@, path: path@, hash: hash@, size_bytes: size_bytes as nat },
            ),
            ProtocolEvent::Sent => EventView::Sent,
            ProtocolEvent::Failed => EventView::Failed,
        }
    }
}

/// A payload as plain values.
pub struct PayloadView {
    pub name: Seq<char>,
    pub path: Seq<char>,
    pub hash: Seq<char>,
    pub size_bytes: nat,
}

impl View for TransferPayload {
    type V = PayloadView;

    open spec fn view(&self) -> PayloadView {
        PayloadView {
            name: self.name@,
            path: self.path@,
            hash: self.hash@,
            size_bytes: self.size_bytes as nat,
        }
    }
}

impl Default for TransferPayload {
    fn default() -> (r: TransferPayload)
        ensures
            r@ == (PayloadView {
                name: Seq::empty(),
                path: Seq::empty(),
                hash: Seq::empty(),
                size_bytes: 0,
            }),
    {
        TransferPayload {
            name: String::new(),
            path: String::new(),
            hash: String::new(),
            size_bytes: 0,
        }
    }
}

impl TransferPayload {
    pub fn new(name: String, path: String, hash: String, size_bytes: usize) -> (r:
        TransferPayload)
        ensures
            r.name == name,
            r.path == path,
            r.hash == hash,
            r.size_bytes == size_bytes,
    {
        TransferPayload { name, path, hash, size_bytes }
    }

    /// Holds a digest computed from the stored bytes against the declared one.
    pub fn verify_digest(&self, computed: &str) -> (r: Result<(), TransferError>)
        ensures
            r is Ok <==> computed@ == self.hash@,
            r is Err ==> r == Err::<(), TransferError>(TransferError::Corrupted),
    {
        if !same_text(computed, self.hash.as_str()) {
            Err(TransferError::Corrupted)
        } else {
            Ok(())
        }
    }

    /// Holds the bytes found at `path` against the declared digest.
    pub fn check_file(&self, contents: &Vec<u8>) -> (r: Result<(), TransferError>)
        requires
            contents@.len() < DIGEST_INPUT_LIMIT,
        ensures
            r is Ok <==> sha1_hex(contents@) == self.hash@,
            r is Err ==> r == Err::<(), TransferError>(TransferError::Corrupted),
    {
        let hash_from_disk = digest(contents);
        self.verify_digest(hash_from_disk.as_str())
    }

    /// The name by which both sides agree on this protocol.
    pub fn protocol_info(&self) -> (r: &'static str)
        ensures
            r@ == "/transfer/1.0"@,
    {
        "/transfer/1.0"
    }
}

impl From<()> for ProtocolEvent {
    fn from(done: ()) -> (r: ProtocolEvent) {
        ProtocolEvent::Sent
    }
}

impl vstd::std_specs::convert::FromSpecImpl<()> for ProtocolEvent {
    open spec fn obeys_from_spec() -> bool {
        true
    }

    open spec fn from_spec(done: ()) -> ProtocolEvent {
        ProtocolEvent::Sent
    }
}

impl From<TransferPayload> for ProtocolEvent {
    fn from(transfer: TransferPayload) -> (r: ProtocolEvent) {
        ProtocolEvent::Received {
            name: transfer.name,
            path: transfer.path,
            hash: transfer.hash,
            size_bytes: transfer.size_bytes,
        }
    }
}

impl vstd::std_specs::convert::FromSpecImpl<TransferPayload> for ProtocolEvent {
    open spec fn obeys_from_spec() -> bool {
        true
    }

    open spec fn from_spec(transfer: TransferPayload) -> ProtocolEvent {
        ProtocolEvent::Received {
            name: transfer.name,
            path: transfer.path,
            hash: transfer.hash,
            size_bytes: transfer.size_bytes,
        }
    }
}

/// Whether two texts are the same.
fn same_text(a: &str, b: &str) -> (r: bool)
    ensures
        r == (a@ == b@),
{
    let x = a.as_bytes();
    let y = b.as_bytes();
    proof {
        vstd::utf8::encode_utf8_decode_utf8(a@);
        vstd::utf8::encode_utf8_decode_utf8(b@);
    }
    if x.len() != y.len() {
        return false;
    }
    let mut i: usize = 0;
    while i < x.len()
        invariant
            i <= x@.len(),
            x@.len() == y@.len(),
            x@ == encode_utf8(a@),
            y@ == encode_utf8(b@),
            forall|k: int| 0 <= k < i ==> x@[k] == y@[k],
        decreases x@.len() - i,
    {
        if x[i] != y[i] {
            assert(x@[i as int] != y@[i as int]);
            return false;
        }
        i += 1;
    }
    assert(x@ =~= y@);
    true
}

/// The header line for `value`: its UTF-8 bytes and a newline.
pub fn add_row(value: &str) -> (r: Vec<u8>)
    ensures
        r@ == row(encode_utf8(value@)),
{
    let bytes = value.as_bytes();
    let mut out: Vec<u8> = Vec::new();
    let mut i: usize = 0;
    while i < bytes.len()
        invariant
            i <= bytes@.len(),
            out@ == bytes@.take(i as int),
        decreases bytes@.len() - i,
    {
        out.push(bytes[i]);
        assert(bytes@.take(i + 1) =~= bytes@.take(i as int).push(bytes@[i as int]));
        i += 1;
    }
    assert(bytes@.take(i as int) =~= bytes@);
    out.push(NEWLINE);
    out
}

/// The two header lines that a sender writes before the contents.
pub open spec fn header_image(name: Seq<char>, digest: Seq<char>) -> Seq<u8> {
    row(encode_utf8(name)) + row(encode_utf8(digest))
}

/// The header for a file `name` whose contents have the digest `digest`: the
/// name line, then the digest line.
pub fn header_for(name: &str, digest: &str) -> (r: Vec<u8>)
    ensures
        r@ == header_image(name@, digest@),
{
    let mut out = add_row(name);
    let mut checksum = add_row(digest);
    out.append(&mut checksum);
    out
}

/// What a sender writes first for the file `name` with these contents: the name
/// line and the line of the contents' digest. The contents follow it unchanged.
///
/// Unless the name holds a newline, a receiver that reads the header and then the
/// contents finds the same name, the digest of the contents, and the contents as
/// the body.
pub fn outbound_header(name: &str, contents: &Vec<u8>) -> (r: Vec<u8>)
    requires
        contents@.len() < DIGEST_INPUT_LIMIT,
    ensures
        r@ == header_image(name@, sha1_hex(contents@)),
        newline_free(encode_utf8(name@)) ==> header_ended(r@ + contents@),
        newline_free(encode_utf8(name@)) ==> decode_utf8(stream_name(r@ + contents@)) == name@,
        newline_free(encode_utf8(name@)) ==> decode_utf8(stream_digest(r@ + contents@))
            == sha1_hex(contents@),
        newline_free(encode_utf8(name@)) ==> stream_body(r@ + contents@) == contents@,
{
    let hash = digest(contents);
    proof {
        if newline_free(encode_utf8(name@)) {
            lemma_transfer_round_trip(name@, hash@, contents@);
        }
    }
    header_for(name, hash.as_str())
}

/// The character for a single decimal digit.
pub open spec fn digit_char(d: nat) -> char {
    if d == 0 {
        '0'
    } else if d == 1 {
        '1'
    } else if d == 2 {
        '2'
    } else if d == 3 {
        '3'
    } else if d == 4 {
        '4'
    } else if d == 5 {
        '5'
    } else if d == 6 {
        '6'
    } else if d == 7 {
        '7'
    } else if d == 8 {
        '8'
    } else {
        '9'
    }
}

/// `n` in decimal, without leading zeros.
pub open spec fn decimal_text(n: nat) -> Seq<char>
    decreases n,
{
    if n < 10 {
        seq![digit_char(n)]
    } else {
        decimal_text(n / 10).push(digit_char(n % 10))
    }
}

/// The text of a single decimal digit.
fn digit_str(d: u64) -> (r: &'static str)
    requires
        d < 10,
    ensures
        r@ == seq![digit_char(d as nat)],
{
    proof {
        reveal_strlit("0");
        reveal_strlit("1");
        reveal_strlit("2");
        reveal_strlit("3");
        reveal_strlit("4");
        reveal_strlit("5");
        reveal_strlit("6");
        reveal_strlit("7");
        reveal_strlit("8");
        reveal_strlit("9");
    }
    let r = if d == 0 {
        "0"
    } else if d == 1 {
        "1"
    } else if d == 2 {
        "2"
    } else if d == 3 {
        "3"
    } else if d == 4 {
        "4"
    } else if d == 5 {
        "5"
    } else if d == 6 {
        "6"
    } else if d == 7 {
        "7"
    } else if d == 8 {
        "8"
    } else {
        "9"
    };
    assert(r@ =~= seq![digit_char(d as nat)]);
    r
}

/// Appends `n` in decimal to `out`.
fn push_decimal(out: &mut String, n: u64)
    ensures
        final(out)@ == old(out)@ + decimal_text(n as nat),
    decreases n,
{
    if n >= 10 {
        push_decimal(out, n / 10);
    }
    out.append(digit_str(n % 10));
    assert(out@ =~= old(out)@ + decimal_text(n as nat));
}

/// The directory prefix of every destination path.
pub open spec fn receipt_prefix() -> Seq<char> {
    "/tmp/files/"@
}

/// Where a file received at `timestamp_secs` under the declared `name` is stored:
/// the prefix, the seconds in decimal, an underscore, the name.
pub open spec fn destination_text(timestamp_secs: u64, name: Seq<char>) -> Seq<char> {
    receipt_prefix() + decimal_text(timestamp_secs as nat) + "_"@ + name
}

/// The path under which a file received at `timestamp_secs` is stored.
pub fn destination_path(timestamp_secs: u64, name: &str) -> (r: String)
    ensures
        r@ == destination_text(timestamp_secs, name@),
{
    let mut path = String::from_str("/tmp/files/");
    push_decimal(&mut path, timestamp_secs);
    path.append("_");
    path.append(name);
    path
}

/// `String::from_utf8` of std, on a copy of the bytes. Trusted: it succeeds exactly
/// on valid UTF-8, and the text it returns is the one whose encoding is the bytes given.
#[verifier::external_body]
fn text_of(bytes: &Vec<u8>) -> (r: Option<String>)
    ensures
        r is Some <==> valid_utf8(bytes@),
        r matches Some(text) ==> encode_utf8(text@) == bytes@,
{
    String::from_utf8(bytes.clone()).ok()
}

/// The path under which a file received at `timestamp_secs` is stored, for the
/// name as it was read from the stream. A name that is not UTF-8 is refused.
pub fn receipt_path(timestamp_secs: u64, name: &Vec<u8>) -> (r: Result<String, TransferError>)
    ensures
        r is Ok <==> valid_utf8(name@),
        r is Err ==> r == Err::<String, TransferError>(TransferError::InvalidHeader),
        r matches Ok(path) ==> path@ == destination_text(timestamp_secs, decode_utf8(name@)),
{
    match text_of(name) {
        Some(text) => {
            proof {
                vstd::utf8::encode_utf8_decode_utf8(text@);
            }
            Ok(destination_path(timestamp_secs, text.as_str()))
        },
        None => Err(TransferError::InvalidHeader),
    }
}

/// The description of a received file, from what the receiver read and the path
/// the body was stored under. Header lines that are not UTF-8 are refused.
pub fn inbound_payload(receipt: Receipt, path: String) -> (r: Result<
    TransferPayload,
    TransferError,
>)
    ensures
        r is Ok <==> valid_utf8(receipt.name@) && valid_utf8(receipt.digest@),
        r is Err ==> r == Err::<TransferPayload, TransferError>(TransferError::InvalidHeader),
        r matches Ok(payload) ==> payload@ == (PayloadView {
            name: decode_utf8(receipt.name@),
            path: path@,
            hash: decode_utf8(receipt.digest@),
            size_bytes: receipt.size_bytes as nat,
        }),
{
    let size_bytes = receipt.size_bytes;
    match text_of(&receipt.name) {
        Some(name) => match text_of(&receipt.digest) {
            Some(hash) => {
                proof {
                    vstd::utf8::encode_utf8_decode_utf8(name@);
                    vstd::utf8::encode_utf8_decode_utf8(hash@);
                }
                Ok(TransferPayload::new(name, path, hash, size_bytes))
            },
            None => Err(TransferError::InvalidHeader),
        },
        None => Err(TransferError::InvalidHeader),
    }
}

/// A digest's text is written on the wire without a newline.
pub proof fn lemma_digest_line(text: Seq<char>)
    requires
        is_digest_text(text),
    ensures
        newline_free(encode_utf8(text)),
        encode_utf8(text).len() == text.len(),
{
    assert(vstd::utf8::is_ascii_chars(text)) by {
        assert forall|i: int| 0 <= i < text.len() implies '\0' <= #[trigger] text[i]
            <= '\u{7f}' by {
            assert(crate::digest::is_hex_char(text[i]));
        }
    }
    vstd::utf8::is_ascii_chars_encode_utf8(text);
    assert forall|k: int| 0 <= k < encode_utf8(text).len() implies encode_utf8(text)[k]
        != NEWLINE by {
        assert(crate::digest::is_hex_char(text[k]));
        assert(text[k] as u8 == encode_utf8(text)[k]);
    }
}

/// Sending and receiving give back what was sent: a receiver that has read the
/// header written for a name and a digest, and then the contents, ends with that
/// name, that digest, and a body that is the contents. It holds for every name
/// whose bytes hold no newline.
pub proof fn lemma_transfer_round_trip(name: Seq<char>, digest: Seq<char>, contents: Seq<u8>)
    requires
        newline_free(encode_utf8(name)),
        is_digest_text(digest),
    ensures
        header_image(name, digest) + contents == wire_image(
            encode_utf8(name),
            encode_utf8(digest),
            contents,
        ),
        header_ended(header_image(name, digest) + contents),
        decode_utf8(stream_name(header_image(name, digest) + contents)) == name,
        decode_utf8(stream_digest(header_image(name, digest) + contents)) == digest,
        stream_body(header_image(name, digest) + contents) == contents,
{
    lemma_digest_line(digest);
    lemma_wire_round_trip(encode_utf8(name), encode_utf8(digest), contents);
    vstd::utf8::encode_utf8_decode_utf8(name);
    vstd::utf8::encode_utf8_decode_utf8(digest);
}

/// A file arrives as it was sent, whatever the sizes of the reads. When the reads
/// together are the header written for a name and a digest, followed by the
/// contents, then both header lines are text, they are that name and that digest,
/// the body is the contents, and the sink followed by what is held back at the end
/// is the contents, byte for byte. It holds for every name whose bytes hold no newline.
pub proof fn lemma_transfer_arrives(
    name: Seq<char>,
    digest: Seq<char>,
    contents: Seq<u8>,
    reads: Seq<Seq<u8>>,
)
    requires
        newline_free(encode_utf8(name)),
        is_digest_text(digest),
        joined(reads) == header_image(name, digest) + contents,
    ensures
        valid_utf8(stream_name(joined(reads))),
        valid_utf8(stream_digest(joined(reads))),
        decode_utf8(stream_name(joined(reads))) == name,
        decode_utf8(stream_digest(joined(reads))) == digest,
        stream_body(joined(reads)) == contents,
        written_after(reads) + contents.skip(written_after(reads).len() as int) == contents,
{
    lemma_transfer_round_trip(name, digest, contents);
    lemma_digest_line(digest);
    lemma_wire_round_trip(encode_utf8(name), encode_utf8(digest), contents);
    vstd::utf8::encode_utf8_valid_utf8(name);
    vstd::utf8::encode_utf8_valid_utf8(digest);
    lemma_reads_deliver_body(reads);
}

} // verus!
