//! Reading the one line that a daemon request is.

use vstd::prelude::*;
use vstd::utf8::{decode_utf8, valid_utf8};

use crate::error::ErrorChain;
use crate::text::{concat3, decimal, decimal_of};

verus! {

/// How many bytes a request may have.
pub const MAX_REQUEST_BYTES: usize = 16777216;

/// The line feed.
pub const LINE_FEED: u8 = 10;

/// The carriage return.
pub const CARRIAGE_RETURN: u8 = 13;

/// The index of the first line feed, or the length where there is none.
pub open spec fn line_end(bytes: Seq<u8>) -> int
    decreases bytes.len(),
{
    if bytes.len() == 0 || bytes[0] == LINE_FEED {
        0
    } else {
        1 + line_end(bytes.skip(1))
    }
}

/// The bytes of a stream up to its first line feed, with it.
pub open spec fn first_line(bytes: Seq<u8>) -> Seq<u8> {
    if line_end(bytes) < bytes.len() {
        bytes.take(line_end(bytes) + 1)
    } else {
        bytes
    }
}

/// The message of a request that is too long.
pub open spec fn too_long_text(limit: int) -> Seq<char> {
    "daemon request exceeds "@ + decimal_of(limit as nat) + " bytes"@
}

/// The request line of a stream, or the message of its error.
pub open spec fn request_line(bytes: Seq<u8>, limit: int) -> Result<Seq<u8>, Seq<char>> {
    if first_line(bytes).len() > limit {
        Err(too_long_text(limit))
    } else {
        Ok(first_line(bytes))
    }
}

/// `line_end` is where the first line feed stands.
pub proof fn lemma_line_end(bytes: Seq<u8>)
    ensures
        0 <= line_end(bytes) <= bytes.len(),
        forall|i: int| 0 <= i < line_end(bytes) ==> bytes[i] != LINE_FEED,
        line_end(bytes) < bytes.len() ==> bytes[line_end(bytes)] == LINE_FEED,
    decreases bytes.len(),
{
    if bytes.len() > 0 && bytes[0] != LINE_FEED {
        lemma_line_end(bytes.skip(1));
        assert forall|i: int| 0 <= i < line_end(bytes) implies bytes[i] != LINE_FEED by {
            if i > 0 {
                assert(bytes[i] == bytes.skip(1)[i - 1]);
            }
        }
    }
}

proof fn lemma_line_end_unique(bytes: Seq<u8>, p: int)
    requires
        0 <= p <= bytes.len(),
        forall|i: int| 0 <= i < p ==> bytes[i] != LINE_FEED,
        p < bytes.len() ==> bytes[p] == LINE_FEED,
    ensures
        line_end(bytes) == p,
{
    lemma_line_end(bytes);
    let q = line_end(bytes);
    if q < p {
        assert(bytes[q] == LINE_FEED);
    } else if p < q {
        assert(bytes[p] == LINE_FEED);
    }
}

proof fn lemma_first_line_split(a: Seq<u8>, b: Seq<u8>)
    requires
        forall|i: int| 0 <= i < a.len() ==> a[i] != LINE_FEED,
    ensures
        first_line(a + b) == a + first_line(b),
{
    lemma_line_end(b);
    let whole = a + b;
    assert forall|i: int| 0 <= i < a.len() + line_end(b) implies whole[i] != LINE_FEED by {
        if i < a.len() {
            assert(whole[i] == a[i]);
        } else {
            assert(whole[i] == b[i - a.len()]);
        }
    }
    if line_end(b) < b.len() {
        assert(whole[a.len() + line_end(b)] == b[line_end(b)]);
    }
    lemma_line_end_unique(whole, a.len() + line_end(b));
    assert(first_line(whole) =~= a + first_line(b));
}

/// What a reader of lines does next.
pub enum ReadStep {
    /// Take that many bytes off the buffer and read on.
    More(usize),
    /// Take that many bytes off the buffer: this is the line.
    Line(usize, Vec<u8>),
    /// The line is too long.
    TooLong(String),
}

/// A line that is being read.
#[derive(Debug)]
pub struct LineReader {
    out: Vec<u8>,
    limit: usize,
}

impl LineReader {
    #[verifier::type_invariant]
    spec fn open_line(self) -> bool {
        &&& self.out@.len() <= self.limit
        &&& forall|i: int| 0 <= i < self.out@.len() ==> self.out@[i] != LINE_FEED
    }

    /// What was read so far.
    pub closed spec fn taken(&self) -> Seq<u8> {
        self.out@
    }

    /// How long the line may be.
    pub closed spec fn limit(&self) -> int {
        self.limit as int
    }

    /// The beginning of a line of at most `limit` bytes.
    pub fn new(limit: usize) -> (r: Self)
        ensures
            r.taken() == Seq::<u8>::empty(),
            r.limit() == limit,
    {
        LineReader { out: Vec::new(), limit }
    }

    /// Takes in what a stream has available: nothing, where it has ended. Whatever follows in
    /// the stream, what comes of the line is what comes of the stream as a whole.
    pub fn feed(&mut self, available: &[u8]) -> (r: ReadStep)
        ensures
            final(self).limit() == old(self).limit(),
            match r {
                ReadStep::More(n) => {
                    &&& n == available@.len() && n > 0
                    &&& final(self).taken() == old(self).taken() + available@
                    &&& final(self).taken().len() <= old(self).limit()
                    &&& forall|later: Seq<u8>| #[trigger]
                        first_line(old(self).taken() + (available@ + later)) == final(self).taken() + first_line(later)
                },
                ReadStep::Line(n, line) => {
                    &&& n <= available@.len()
                    &&& line@ == old(self).taken() + available@.take(n as int)
                    &&& line@.len() <= old(self).limit()
                    &&& available@.len() == 0 ==> line@ == first_line(old(self).taken())
                    &&& available@.len() > 0 ==> forall|later: Seq<u8>| #[trigger]
                        first_line(old(self).taken() + (available@ + later)) == line@
                },
                ReadStep::TooLong(message) => {
                    &&& message@ == too_long_text(old(self).limit())
                    &&& forall|later: Seq<u8>| #[trigger]
                        first_line(old(self).taken() + (available@ + later)).len() > old(self).limit()
                },
            },
    {
        proof {
            use_type_invariant(&*self);
        }
        let ghost before = self.out@;
        let mut out: Vec<u8> = Vec::new();
        std::mem::swap(&mut out, &mut self.out);
        if available.len() == 0 {
            proof {
                lemma_line_end_unique(before, before.len() as int);
                assert(before + available@.take(0) =~= before);
            }
            return ReadStep::Line(0, out);
        }
        let mut at: usize = 0;
        while at < available.len() && available[at] != LINE_FEED
            invariant
                at <= available@.len(),
                forall|i: int| 0 <= i < at ==> available@[i] != LINE_FEED,
            decreases available@.len() - at,
        {
            at += 1;
        }
        let found: bool = at < available.len();
        let len: usize = if found {
            at + 1
        } else {
            at
        };
        proof {
            assert forall|later: Seq<u8>| #[trigger]
                first_line(before + (available@ + later)) == before + (if found {
                    available@.take(len as int)
                } else {
                    available@ + first_line(later)
                }) by {
                lemma_first_line_split(before, available@ + later);
                if found {
                    let whole = available@ + later;
                    assert(whole[at as int] == LINE_FEED);
                    assert forall|i: int| 0 <= i < at implies whole[i] != LINE_FEED by {
                        assert(whole[i] == available@[i]);
                    }
                    lemma_line_end_unique(whole, at as int);
                    assert(first_line(whole) =~= available@.take(len as int));
                } else {
                    lemma_first_line_split(available@, later);
                }
            }
        }
        if len > self.limit - out.len() {
            let message = concat3(
                "daemon request exceeds ",
                decimal(self.limit as u64).as_str(),
                " bytes",
            );
            return ReadStep::TooLong(message);
        }
        let mut i: usize = 0;
        while i < len
            invariant
                i <= len,
                len <= available@.len(),
                out@ == before + available@.take(i as int),
            decreases len - i,
        {
            out.push(available[i]);
            proof {
                assert(before + available@.take(i + 1) =~= (before + available@.take(
                    i as int,
                )).push(available@[i as int]));
            }
            i += 1;
        }
        if found {
            return ReadStep::Line(len, out);
        }
        proof {
            assert(available@.take(len as int) =~= available@);
            assert forall|later: Seq<u8>| #[trigger]
                first_line(before + (available@ + later)) == out@ + first_line(later) by {
                assert(before + (available@ + first_line(later)) =~= out@ + first_line(later));
            }
            assert forall|i: int| 0 <= i < out@.len() implies out@[i] != LINE_FEED by {
                if i < before.len() {
                    assert(out@[i] == before[i]);
                } else {
                    assert(out@[i] == available@[i - before.len()]);
                }
            }
        }
        self.out = out;
        ReadStep::More(len)
    }
}

/// The chunks as one stream.
pub open spec fn flat(chunks: Seq<Seq<u8>>) -> Seq<u8>
    decreases chunks.len(),
{
    if chunks.len() == 0 {
        Seq::empty()
    } else {
        chunks[0] + flat(chunks.skip(1))
    }
}

/// The chunks' bytes.
pub open spec fn chunks_view(chunks: Seq<Vec<u8>>) -> Seq<Seq<u8>> {
    chunks.map_values(|c: Vec<u8>| c@)
}

/// Reads a line from a stream that comes in chunks. The chunks play no role: what is read is
/// the first line of the stream that they make up, if it is not too long.
pub fn read_limited_line(chunks: &Vec<Vec<u8>>, limit: usize) -> (r: Result<Vec<u8>, String>)
    requires
        forall|i: int| 0 <= i < chunks@.len() ==> (#[trigger] chunks@[i])@.len() > 0,
    ensures
        match r {
            Ok(line) => request_line(flat(chunks_view(chunks@)), limit as int) == Ok::<
                Seq<u8>,
                Seq<char>,
            >(line@),
            Err(message) => request_line(flat(chunks_view(chunks@)), limit as int) == Err::<
                Seq<u8>,
                Seq<char>,
            >(message@),
        },
{
    let mut reader = LineReader::new(limit);
    let ghost all = chunks_view(chunks@);
    let mut i: usize = 0;
    proof {
        assert(all.skip(0) =~= all);
        assert(reader.taken() + first_line(flat(all)) =~= first_line(flat(all)));
    }
    while i < chunks.len()
        invariant
            i <= chunks.len(),
            all == chunks_view(chunks@),
            forall|k: int| 0 <= k < chunks@.len() ==> (#[trigger] chunks@[k])@.len() > 0,
            reader.limit() == limit,
            reader.taken().len() <= limit,
            first_line(flat(all)) == reader.taken() + first_line(flat(all.skip(i as int))),
            first_line(flat(all)) == first_line(reader.taken() + flat(all.skip(i as int))),
        decreases chunks.len() - i,
    {
        let ghost before = reader.taken();
        let ghost later = flat(all.skip(i + 1));
        proof {
            assert(all.skip(i as int)[0] == chunks@[i as int]@);
            assert(all.skip(i as int).skip(1) =~= all.skip(i + 1));
            assert(flat(all.skip(i as int)) == chunks@[i as int]@ + later);
        }
        match reader.feed(chunks[i].as_slice()) {
            ReadStep::More(_) => {
                proof {
                    assert(first_line(before + (chunks@[i as int]@ + later)) == reader.taken()
                        + first_line(later));
                    assert(before + (chunks@[i as int]@ + later) =~= reader.taken() + later);
                }
            },
            ReadStep::Line(_, line) => {
                proof {
                    assert(first_line(before + (chunks@[i as int]@ + later)) == line@);
                }
                return Ok(line);
            },
            ReadStep::TooLong(message) => {
                proof {
                    assert(first_line(before + (chunks@[i as int]@ + later)).len() > limit);
                }
                return Err(message);
            },
        }
        i += 1;
    }
    let ghost before = reader.taken();
    let none: Vec<u8> = Vec::new();
    proof {
        assert(all.skip(i as int).len() == 0);
        assert(flat(all.skip(i as int)) =~= Seq::empty());
        assert(before + flat(all.skip(i as int)) =~= before);
    }
    match reader.feed(none.as_slice()) {
        ReadStep::Line(_, line) => Ok(line),
        ReadStep::More(_) => Ok(Vec::new()),
        ReadStep::TooLong(message) => {
            proof {
                assert(before + (none@ + Seq::<u8>::empty()) =~= before);
                assert(first_line(before + (none@ + Seq::<u8>::empty())).len() > limit);
            }
            Err(message)
        },
    }
}

/// A line without its end: a line feed, and a carriage return before it.
pub open spec fn without_line_end(line: Seq<u8>) -> Seq<u8> {
    if line.len() > 0 && line.last() == LINE_FEED {
        let inner = line.drop_last();
        if inner.len() > 0 && inner.last() == CARRIAGE_RETURN {
            inner.drop_last()
        } else {
            inner
        }
    } else {
        line
    }
}

/// What `String::from_utf8` says of bytes that are not UTF-8.
pub uninterp spec fn utf8_fault(bytes: Seq<u8>) -> Seq<char>;

/// `String::from_utf8`: the text, of bytes that are UTF-8 only. Of other bytes it is the text
/// of the error, which depends on the bytes alone.
#[verifier::external_body]
fn utf8_text(bytes: Vec<u8>) -> (r: Result<String, String>)
    ensures
        match r {
            Ok(s) => valid_utf8(bytes@) && s@ == decode_utf8(bytes@),
            Err(e) => !valid_utf8(bytes@) && e@ == utf8_fault(bytes@),
        },
{
    String::from_utf8(bytes).map_err(|e| e.to_string())
}

/// The text of a request, from the line that was read or from why it could not be read.
pub fn read_request_line(line: Result<Vec<u8>, String>) -> (r: Result<String, ErrorChain>)
    ensures
        match line {
            Err(cause) => r matches Err(e) && e@ == seq!["reading daemon request"@, cause@],
            Ok(bytes) => match r {
                Ok(s) => valid_utf8(without_line_end(bytes@)) && s@ == decode_utf8(
                    without_line_end(bytes@),
                ),
                Err(e) => {
                    &&& !valid_utf8(without_line_end(bytes@))
                    &&& e@ == seq![
                        "daemon request is not UTF-8"@,
                        utf8_fault(without_line_end(bytes@)),
                    ]
                },
            },
        },
{
    let mut bytes = match line {
        Ok(bytes) => bytes,
        Err(cause) => {
            return Err(ErrorChain::new(cause.as_str()).context("reading daemon request"));
        },
    };
    let ghost before = bytes@;
    if bytes.len() > 0 && bytes[bytes.len() - 1] == LINE_FEED {
        let _ = bytes.pop();
        proof {
            assert(bytes@ =~= before.drop_last());
        }
        if bytes.len() > 0 && bytes[bytes.len() - 1] == CARRIAGE_RETURN {
            let _ = bytes.pop();
            proof {
                assert(bytes@ =~= before.drop_last().drop_last());
            }
        }
    }
    proof {
        assert(bytes@ =~= without_line_end(before));
    }
    match utf8_text(bytes) {
        Ok(s) => Ok(s),
        Err(cause) => Err(ErrorChain::new(cause.as_str()).context("daemon request is not UTF-8")),
    }
}

/// A request is what a stream holds up to its first line feed, with it, or all of a stream that
/// has none. It is read exactly where it is within the limit, and what follows it is left alone.
pub proof fn law_requests_end_at_the_first_line_feed(line: Seq<u8>, rest: Seq<u8>, limit: int)
    requires
        forall|i: int| 0 <= i < line.len() ==> #[trigger] line[i] != 10,
    ensures
        first_line(line) == line,
        first_line(line + seq![10u8] + rest) == line + seq![10u8],
        line.len() < limit ==> request_line(line + seq![10u8] + rest, limit) == Ok::<
            Seq<u8>,
            Seq<char>,
        >(line + seq![10u8]),
        line.len() >= limit ==> request_line(line + seq![10u8] + rest, limit) == Err::<
            Seq<u8>,
            Seq<char>,
        >("daemon request exceeds "@ + decimal_of(limit as nat) + " bytes"@),
        line.len() <= limit ==> request_line(line, limit) == Ok::<Seq<u8>, Seq<char>>(line),
        line.len() > limit ==> request_line(line, limit) is Err,
{
    lemma_line_end_unique(line, line.len() as int);
    let whole = line + seq![10u8] + rest;
    assert forall|i: int| 0 <= i < line.len() implies whole[i] != LINE_FEED by {
        assert(whole[i] == line[i]);
    }
    assert(whole[line.len() as int] == LINE_FEED);
    lemma_line_end_unique(whole, line.len() as int);
    assert(first_line(whole) =~= line + seq![10u8]);
}

/// The end of a line is a line feed, with or without a carriage return before it, and is all
/// that is taken off; a line without one is kept whole.
pub proof fn law_line_ends_are_taken_off(line: Seq<u8>)
    ensures
        line.len() == 0 || line.last() != 13 ==> without_line_end(line + seq![10u8]) == line,
        without_line_end(line + seq![13u8, 10u8]) == line,
        line.len() == 0 || line.last() != 10 ==> without_line_end(line) == line,
{
    let a = line + seq![10u8];
    assert(a.drop_last() =~= line);
    let b = line + seq![13u8, 10u8];
    assert(b.drop_last() =~= line + seq![13u8]);
    assert(b.drop_last().drop_last() =~= line);
}

/// The chunks of a stream are the stream: each follows those before it, and none is lost.
pub proof fn law_chunks_make_the_stream(chunks: Seq<Seq<u8>>, chunk: Seq<u8>)
    ensures
        flat(Seq::empty()).len() == 0,
        flat(chunks.push(chunk)) == flat(chunks) + chunk,
    decreases chunks.len(),
{
    let all = chunks.push(chunk);
    if chunks.len() == 0 {
        let none = Seq::<Seq<u8>>::empty();
        assert(all.skip(1) =~= none);
        assert(flat(none) =~= Seq::empty());
        assert(flat(all) =~= chunk);
        assert(flat(chunks) =~= Seq::empty());
        assert(flat(all) =~= flat(chunks) + chunk);
    } else {
        law_chunks_make_the_stream(chunks.skip(1), chunk);
        assert(all.skip(1) =~= chunks.skip(1).push(chunk));
        assert(flat(all) =~= flat(chunks) + chunk);
    }
}

/// A request is at most sixteen mebibytes long, its line feed counted, and the message about a
/// longer one says the limit.
pub proof fn law_long_requests_are_refused(bytes: Seq<u8>, limit: u64, digits: Seq<char>)
    requires
        digits == decimal_of(limit as nat),
        bytes.len() > limit,
        forall|i: int| 0 <= i < bytes.len() - 1 ==> #[trigger] bytes[i] != 10,
    ensures
        request_line(bytes, limit as int) == Err::<Seq<u8>, Seq<char>>(
            "daemon request exceeds "@ + digits + " bytes"@,
        ),
        crate::text::number_of(digits) == limit,
        MAX_REQUEST_BYTES == 16 * 1024 * 1024,
{
    crate::text::law_decimal_digits_write_the_number(limit as nat);
    lemma_line_end_at_the_last(bytes);
}

proof fn lemma_line_end_at_the_last(bytes: Seq<u8>)
    requires
        bytes.len() > 0,
        forall|i: int| 0 <= i < bytes.len() - 1 ==> #[trigger] bytes[i] != 10,
    ensures
        line_end(bytes) >= bytes.len() - 1,
    decreases bytes.len(),
{
    if bytes.len() > 1 {
        assert(bytes[0] != 10);
        let rest = bytes.skip(1);
        assert forall|i: int| 0 <= i < rest.len() - 1 implies #[trigger] rest[i] != 10 by {
            assert(rest[i] == bytes[i + 1]);
        }
        lemma_line_end_at_the_last(rest);
    } else {
        let rest = bytes.skip(1);
        assert(line_end(rest) >= 0);
    }
}

} // verus!
