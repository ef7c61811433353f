//! Wire framing: two newline-terminated header lines (name, digest), then the raw
//! body until the stream ends. The receiving side consumes the stream in chunks and
//! hands the body on in bounded batches.

use vstd::prelude::*;

verus! {

/// Largest number of bytes asked of the stream in one read.
pub const CHUNK_SIZE: usize = 4096;

/// Once more than this many body bytes are held back, they are handed to the sink.
pub const FLUSH_THRESHOLD: usize = 1048576;

/// The byte that ends a header line.
pub const NEWLINE: u8 = 10;

/// Number of bytes before the first newline of `s`; its length when it has none.
pub open spec fn line_len(s: Seq<u8>) -> int
    decreases s.len(),
{
    if s.len() == 0 || s[0] == NEWLINE {
        0
    } else {
        1 + line_len(s.skip(1))
    }
}

/// The bytes of `s` before its first newline.
pub open spec fn first_line(s: Seq<u8>) -> Seq<u8> {
    s.take(line_len(s))
}

/// The bytes of `s` behind its first newline; nothing when it has none.
pub open spec fn after_line(s: Seq<u8>) -> Seq<u8> {
    if line_len(s) < s.len() {
        s.skip(line_len(s) + 1)
    } else {
        Seq::empty()
    }
}

/// Whether `s` holds no newline.
pub open spec fn newline_free(s: Seq<u8>) -> bool {
    forall|k: int| 0 <= k < s.len() ==> s[k] != NEWLINE
}

/// The name a stream declares: its first line.
pub open spec fn stream_name(stream: Seq<u8>) -> Seq<u8> {
    first_line(stream)
}

/// The digest a stream declares: its second line.
pub open spec fn stream_digest(stream: Seq<u8>) -> Seq<u8> {
    first_line(after_line(stream))
}

/// The file body a stream carries: all that follows its second line.
pub open spec fn stream_body(stream: Seq<u8>) -> Seq<u8> {
    after_line(after_line(stream))
}

/// Whether both header lines of a stream have been ended by their newline.
pub open spec fn header_ended(stream: Seq<u8>) -> bool {
    &&& line_len(stream) < stream.len()
    &&& line_len(after_line(stream)) < after_line(stream).len()
}

/// A header line on the wire: the value and a newline.
pub open spec fn row(value: Seq<u8>) -> Seq<u8> {
    value.push(NEWLINE)
}

/// What a sender puts on the stream for one file.
pub open spec fn wire_image(name: Seq<u8>, digest: Seq<u8>, body: Seq<u8>) -> Seq<u8> {
    row(name) + row(digest) + body
}

/// `line_len` is the position `n` when no newline stands before `n` and one stands
/// at `n`, or `s` ends there.
pub proof fn lemma_line_len_is(s: Seq<u8>, n: int)
    requires
        0 <= n <= s.len(),
        forall|k: int| 0 <= k < n ==> s[k] != NEWLINE,
        n == s.len() || s[n] == NEWLINE,
    ensures
        line_len(s) == n,
    decreases n,
{
    if n > 0 {
        lemma_line_len_is(s.skip(1), n - 1);
    }
}

/// A line that holds no newline, followed by one and by anything else, is read
/// back as that line and that remainder.
pub proof fn lemma_line_then_rest(line: Seq<u8>, rest: Seq<u8>)
    requires
        newline_free(line),
    ensures
        first_line(row(line) + rest) == line,
        after_line(row(line) + rest) == rest,
        line_len(row(line) + rest) < (row(line) + rest).len(),
{
    let s = row(line) + rest;
    lemma_line_len_is(s, line.len() as int);
    assert(s.take(line.len() as int) =~= line);
    assert(s.skip(line.len() as int + 1) =~= rest);
}

/// A stream that ends inside a line is read back as that line, with nothing behind it.
pub proof fn lemma_unfinished_line(line: Seq<u8>)
    requires
        newline_free(line),
    ensures
        first_line(line) == line,
        after_line(line) == Seq::<u8>::empty(),
        line_len(line) == line.len(),
{
    lemma_line_len_is(line, line.len() as int);
    assert(line.take(line.len() as int) =~= line);
}

/// Reading back what a sender wrote gives the name, the digest and the body it
/// wrote, whenever neither header value holds a newline.
pub proof fn lemma_wire_round_trip(name: Seq<u8>, digest: Seq<u8>, body: Seq<u8>)
    requires
        newline_free(name),
        newline_free(digest),
    ensures
        stream_name(wire_image(name, digest, body)) == name,
        stream_digest(wire_image(name, digest, body)) == digest,
        stream_body(wire_image(name, digest, body)) == body,
        header_ended(wire_image(name, digest, body)),
{
    let image = wire_image(name, digest, body);
    assert(image =~= row(name) + (row(digest) + body));
    lemma_line_then_rest(name, row(digest) + body);
    lemma_line_then_rest(digest, body);
}

/// The first line of any stream holds no newline, and is followed by one unless
/// the stream ends with it.
pub proof fn lemma_line_len_bounds(s: Seq<u8>)
    ensures
        0 <= line_len(s) <= s.len(),
        newline_free(first_line(s)),
        line_len(s) < s.len() ==> s[line_len(s)] == NEWLINE,
        line_len(s) < s.len() ==> s == row(first_line(s)) + after_line(s),
    decreases s.len(),
{
    if s.len() == 0 || s[0] == NEWLINE {
    } else {
        let t = s.skip(1);
        lemma_line_len_bounds(t);
        assert forall|k: int| 0 <= k < first_line(s).len() implies first_line(s)[k]
            != NEWLINE by {
            if k > 0 {
                assert(first_line(s)[k] == first_line(t)[k - 1]);
            }
        }
    }
    if line_len(s) < s.len() {
        assert(s =~= row(first_line(s)) + after_line(s));
    }
}

/// Once both header lines have ended, whatever is read later belongs to the body:
/// the name and the digest stay as they are.
pub proof fn lemma_header_is_final(stream: Seq<u8>, more: Seq<u8>)
    requires
        header_ended(stream),
    ensures
        header_ended(stream + more),
        stream_name(stream + more) == stream_name(stream),
        stream_digest(stream + more) == stream_digest(stream),
        stream_body(stream + more) == stream_body(stream) + more,
{
    let name = stream_name(stream);
    let digest = stream_digest(stream);
    let body = stream_body(stream);
    lemma_line_len_bounds(stream);
    lemma_line_len_bounds(after_line(stream));
    assert(stream + more =~= wire_image(name, digest, body + more));
    lemma_wire_round_trip(name, digest, body + more);
}

/// What a sequence of reads has delivered, joined in order.
pub open spec fn joined(reads: Seq<Seq<u8>>) -> Seq<u8>
    decreases reads.len(),
{
    if reads.len() == 0 {
        Seq::empty()
    } else {
        joined(reads.drop_last()) + reads.last()
    }
}

/// The body bytes that have gone to the sink after these reads: after each read,
/// all of the body read so far once more than `FLUSH_THRESHOLD` bytes of it have
/// not gone there yet, and otherwise what had gone there before.
pub open spec fn written_after(reads: Seq<Seq<u8>>) -> Seq<u8>
    decreases reads.len(),
{
    if reads.len() == 0 {
        Seq::empty()
    } else {
        let before = written_after(reads.drop_last());
        let body = stream_body(joined(reads));
        if body.len() - before.len() > FLUSH_THRESHOLD {
            body
        } else {
            before
        }
    }
}

/// What is read later never changes the body read so far: it can only follow it.
pub proof fn lemma_body_grows(stream: Seq<u8>, more: Seq<u8>)
    ensures
        stream_body(stream).is_prefix_of(stream_body(stream + more)),
{
    if header_ended(stream) {
        lemma_header_is_final(stream, more);
    } else {
        assert(stream_body(stream) =~= Seq::<u8>::empty());
    }
}

/// However a stream is cut into reads, what has gone to the sink is the beginning
/// of its body, and what is held back is at most `FLUSH_THRESHOLD` bytes: the sink,
/// followed by what is held back, is the body, byte for byte.
pub proof fn lemma_reads_deliver_body(reads: Seq<Seq<u8>>)
    ensures
        written_after(reads).is_prefix_of(stream_body(joined(reads))),
        stream_body(joined(reads)).len() - written_after(reads).len() <= FLUSH_THRESHOLD,
        written_after(reads) + stream_body(joined(reads)).skip(
            written_after(reads).len() as int,
        ) == stream_body(joined(reads)),
    decreases reads.len(),
{
    let body = stream_body(joined(reads));
    if reads.len() == 0 {
        assert(written_after(reads) =~= Seq::<u8>::empty());
    } else {
        lemma_reads_deliver_body(reads.drop_last());
        lemma_body_grows(joined(reads.drop_last()), reads.last());
    }
    assert(written_after(reads) + body.skip(written_after(reads).len() as int) =~= body);
}

/// A file sent under a name and a digest that hold no newline arrives whole,
/// whatever the sizes of the reads: the receiver finds that name and that digest,
/// and the sink followed by what is held back is the file, so that the number of
/// body bytes is the file's length.
pub proof fn lemma_receive_round_trip(
    name: Seq<u8>,
    digest: Seq<u8>,
    body: Seq<u8>,
    reads: Seq<Seq<u8>>,
)
    requires
        newline_free(name),
        newline_free(digest),
        joined(reads) == wire_image(name, digest, body),
    ensures
        stream_name(joined(reads)) == name,
        stream_digest(joined(reads)) == digest,
        stream_body(joined(reads)) == body,
        written_after(reads) + body.skip(written_after(reads).len() as int) == body,
        body.len() - written_after(reads).len() <= FLUSH_THRESHOLD,
{
    lemma_wire_round_trip(name, digest, body);
    lemma_reads_deliver_body(reads);
}

/// What a finished reception hands over.
#[derive(Clone, Debug, PartialEq, Eq)]
pub struct Receipt {
    /// The declared name: the first header line without its newline.
    pub name: Vec<u8>,
    /// The declared digest: the second header line without its newline.
    pub digest: Vec<u8>,
    /// Number of body bytes that the stream carried.
    pub size_bytes: usize,
    /// The body bytes that were still held back; they go to the sink last.
    pub rest: Vec<u8>,
}

/// The receiving half of one transfer. It is fed what each read of the stream
/// returned and tells after each chunk which body bytes go to the sink now, so that
/// never much more than `FLUSH_THRESHOLD` bytes are held.
pub struct Receiver {
    name: Vec<u8>,
    digest: Vec<u8>,
    lines: u8,
    pending: Vec<u8>,
    counter: usize,
    flushed: Ghost<Seq<u8>>,
    history: Ghost<Seq<Seq<u8>>>,
}

impl Receiver {
    /// Every byte fed so far, in order.
    pub closed spec fn stream(&self) -> Seq<u8> {
        if self.lines == 0 {
            self.name@
        } else if self.lines == 1 {
            row(self.name@) + self.digest@
        } else {
            row(self.name@) + row(self.digest@) + (self.flushed@ + self.pending@)
        }
    }

    /// The body bytes already handed to the sink, in order.
    pub closed spec fn written(&self) -> Seq<u8> {
        self.flushed@
    }

    /// What each read so far has delivered, in order.
    pub closed spec fn reads(&self) -> Seq<Seq<u8>> {
        self.history@
    }

    /// The parts agree with each other and with the reads so far.
    pub closed spec fn wf(&self) -> bool {
        &&& self.parts_ok()
        &&& self.stream() == joined(self.history@)
        &&& self.flushed@ == written_after(self.history@)
    }

    spec fn parts_ok(&self) -> bool {
        &&& self.lines <= 2
        &&& newline_free(self.name@)
        &&& newline_free(self.digest@)
        &&& self.lines == 0 ==> self.digest@.len() == 0
        &&& self.lines < 2 ==> self.pending@.len() == 0 && self.flushed@.len() == 0
        &&& self.counter == self.flushed@.len() + self.pending@.len()
    }

    /// The stream read so far splits into the parts held.
    proof fn lemma_parts(&self)
        requires
            self.parts_ok(),
        ensures
            stream_name(self.stream()) == self.name@,
            stream_digest(self.stream()) == self.digest@,
            stream_body(self.stream()) == self.flushed@ + self.pending@,
            header_ended(self.stream()) == (self.lines == 2),
            self.written() == self.flushed@,
            self.counter == stream_body(self.stream()).len(),
    {
        if self.lines == 0 {
            lemma_unfinished_line(self.name@);
            lemma_unfinished_line(Seq::<u8>::empty());
            assert(self.digest@ =~= Seq::<u8>::empty());
            assert(self.flushed@ + self.pending@ =~= Seq::<u8>::empty());
        } else if self.lines == 1 {
            lemma_line_then_rest(self.name@, self.digest@);
            lemma_unfinished_line(self.digest@);
            assert(self.flushed@ + self.pending@ =~= Seq::<u8>::empty());
        } else {
            let body = self.flushed@ + self.pending@;
            assert(self.stream() =~= row(self.name@) + (row(self.digest@) + body));
            lemma_line_then_rest(self.name@, row(self.digest@) + body);
            lemma_line_then_rest(self.digest@, body);
        }
    }

    /// A receiver that has read nothing.
    pub fn new() -> (r: Receiver)
        ensures
            r.wf(),
            r.reads() == Seq::<Seq<u8>>::empty(),
            r.stream() == Seq::<u8>::empty(),
            r.written() == Seq::<u8>::empty(),
    {
        Receiver {
            name: Vec::new(),
            digest: Vec::new(),
            lines: 0,
            pending: Vec::new(),
            counter: 0,
            flushed: Ghost(Seq::empty()),
            history: Ghost(Seq::empty()),
        }
    }

    /// The stream is the reads joined, and the sink holds what `written_after` says.
    pub proof fn lemma_follows_reads(&self)
        requires
            self.wf(),
        ensures
            self.stream() == joined(self.reads()),
            self.written() == written_after(self.reads()),
    {
    }

    /// Number of body bytes read so far.
    pub fn received(&self) -> (r: usize)
        requires
            self.wf(),
        ensures
            r == stream_body(self.stream()).len(),
    {
        proof {
            self.lemma_parts();
        }
        self.counter
    }

    /// Whether both header lines are complete, so that what follows is body.
    pub fn header_complete(&self) -> (r: bool)
        requires
            self.wf(),
        ensures
            r == header_ended(self.stream()),
    {
        proof {
            self.lemma_parts();
        }
        self.lines == 2
    }

    /// The declared name, as far as it has been read.
    pub fn name(&self) -> (r: &Vec<u8>)
        requires
            self.wf(),
        ensures
            r@ == stream_name(self.stream()),
    {
        proof {
            self.lemma_parts();
        }
        &self.name
    }

    /// The declared digest, as far as it has been read.
    pub fn digest(&self) -> (r: &Vec<u8>)
        requires
            self.wf(),
        ensures
            r@ == stream_digest(self.stream()),
    {
        proof {
            self.lemma_parts();
        }
        &self.digest
    }

    /// Takes in what one read returned. Returns the body bytes to append to the sink
    /// now: all that were held back, once they are more than `FLUSH_THRESHOLD`.
    pub fn feed(&mut self, chunk: &[u8]) -> (flush: Option<Vec<u8>>)
        requires
            old(self).wf(),
            stream_body(old(self).stream()).len() + chunk@.len() <= usize::MAX,
        ensures
            final(self).wf(),
            final(self).reads() == old(self).reads().push(chunk@),
            final(self).stream() == old(self).stream() + chunk@,
            final(self).stream() == joined(final(self).reads()),
            final(self).written() == written_after(final(self).reads()),
            flush is Some <==> stream_body(final(self).stream()).len() - old(self).written().len()
                > FLUSH_THRESHOLD,
            flush matches Some(bytes) ==> bytes@ == stream_body(final(self).stream()).skip(
                old(self).written().len() as int,
            ),
            final(self).written() == (if flush is Some {
                stream_body(final(self).stream())
            } else {
                old(self).written()
            }),
            flush matches Some(bytes) ==> final(self).written() == old(self).written() + bytes@,
            old(self).written().is_prefix_of(stream_body(final(self).stream())),
            header_ended(old(self).stream()) ==> stream_name(final(self).stream())
                == stream_name(old(self).stream()),
    {
        proof {
            self.lemma_parts();
            if header_ended(self.stream()) {
                lemma_header_is_final(self.stream(), chunk@);
            }
        }
        let mut i: usize = 0;
        assert(self.stream() =~= old(self).stream() + chunk@.take(0));
        while i < chunk.len()
            invariant
                i <= chunk@.len(),
                self.parts_ok(),
                self.stream() == old(self).stream() + chunk@.take(i as int),
                self.flushed@ == old(self).flushed@,
                self.history@ == old(self).history@,
                self.counter <= stream_body(old(self).stream()).len() + i,
                stream_body(old(self).stream()).len() + chunk@.len() <= usize::MAX,
            decreases chunk@.len() - i,
        {
            let b = chunk[i];
            let ghost before = self.stream();
            if self.lines == 0 {
                if b == NEWLINE {
                    self.lines = 1;
                } else {
                    self.name.push(b);
                }
            } else if self.lines == 1 {
                if b == NEWLINE {
                    self.lines = 2;
                } else {
                    self.digest.push(b);
                }
            } else {
                self.pending.push(b);
                self.counter += 1;
            }
            assert(self.stream() =~= before.push(b));
            assert(chunk@.take(i + 1) =~= chunk@.take(i as int).push(b));
            assert(old(self).stream() + chunk@.take(i + 1) =~= before.push(b));
            i += 1;
        }
        assert(chunk@.take(i as int) =~= chunk@);
        proof {
            self.lemma_parts();
            assert((self.flushed@ + self.pending@).skip(self.flushed@.len() as int)
                =~= self.pending@);
            self.history@ = self.history@.push(chunk@);
            assert(self.history@.drop_last() =~= old(self).history@);
            assert(self.history@.last() == chunk@);
        }
        if self.pending.len() > FLUSH_THRESHOLD {
            let mut out: Vec<u8> = Vec::new();
            out.append(&mut self.pending);
            proof {
                self.flushed@ = self.flushed@ + out@;
            }
            assert(self.flushed@ + self.pending@ =~= old(self).flushed@ + out@);
            proof {
                self.lemma_parts();
            }
            Some(out)
        } else {
            None
        }
    }

    /// Ends the reception once a read has returned nothing: hands over the header
    /// values, the number of body bytes, and the body bytes not yet given to the sink.
    pub fn finish(self) -> (r: Receipt)
        requires
            self.wf(),
        ensures
            r.name@ == stream_name(self.stream()),
            r.digest@ == stream_digest(self.stream()),
            r.size_bytes == stream_body(self.stream()).len(),
            r.rest@ == stream_body(self.stream()).skip(self.written().len() as int),
            self.written() + r.rest@ == stream_body(self.stream()),
            self.stream() == joined(self.reads()),
            self.written() == written_after(self.reads()),
            r.rest@.len() <= FLUSH_THRESHOLD,
    {
        proof {
            lemma_reads_deliver_body(self.reads());
        }
        proof {
            self.lemma_parts();
            assert((self.flushed@ + self.pending@).skip(self.flushed@.len() as int)
                =~= self.pending@);
        }
        Receipt {
            name: self.name,
            digest: self.digest,
            size_bytes: self.counter,
            rest: self.pending,
        }
    }
}

} // verus!
