use crate::kmsg::{KMsg, LogFacility, LogLevel};
use crate::text::{
    decimal_value, digits_of, find, find_in_bounds, head, i64_of, is_whitespace,
    lemma_find_after, lemma_trim_keeps_non_whitespace, lemma_trim_plain, parse_i64, parse_u32,
    parse_u64, split_once, tail, trim, trim_str, unsigned_of,
};
use std::time::Duration;
use timeout_iterator::synchronous::TimeoutIterator;
use vstd::prelude::*;
use vstd::string::*;

verus! {

#[verifier::external_type_specification]
#[verifier::external_body]
#[verifier::reject_recursive_types(T)]
pub struct ExTimeoutIterator<T>(TimeoutIterator<T>);

/// The lines that a `TimeoutIterator` holds after a peek and has not yet
/// handed out.
pub uninterp spec fn buffered_lines(it: TimeoutIterator<String>) -> Seq<Seq<char>>;

/// Relies on `TimeoutIterator::next`: a line that a peek left in the buffer
/// comes out first and leaves it; otherwise the line (or the end) comes from
/// the source and the buffer stays empty.
#[verifier::external_body]
fn next_line(it: &mut TimeoutIterator<String>) -> (r: Option<String>)
    ensures
        buffered_lines(*old(it)).len() > 0 ==> (r matches Some(l) && l@ == buffered_lines(
            *old(it),
        )[0] && buffered_lines(*final(it)) == buffered_lines(*old(it)).drop_first()),
        buffered_lines(*old(it)).len() == 0 ==> buffered_lines(*final(it)).len() == 0,
{
    it.next()
}

/// Relies on `TimeoutIterator::peek_timeout`: the first buffered line is
/// returned and kept; with an empty buffer a line that arrives in time is
/// buffered and returned, and on a timeout or a closed source nothing is.
#[verifier::external_body]
fn peek_line(it: &mut TimeoutIterator<String>, timeout_millis: u64) -> (r: Option<String>)
    ensures
        buffered_lines(*old(it)).len() > 0 ==> (r matches Some(l) && l@ == buffered_lines(
            *old(it),
        )[0] && buffered_lines(*final(it)) == buffered_lines(*old(it))),
        buffered_lines(*old(it)).len() == 0 ==> match r {
            Some(l) => buffered_lines(*final(it)) == seq![l@],
            None => buffered_lines(*final(it)).len() == 0,
        },
{
    match it.peek_timeout(Duration::from_millis(timeout_millis)) {
        Ok(l) => Some(l.clone()),
        Err(_) => None,
    }
}

/// What the reader is configured with.
#[derive(Clone, Copy)]
pub struct KMsgReaderConfig {
    pub from_sequence_number: u64,
    /// How long, in milliseconds, a record waits for a continuation line.
    pub flush_timeout_millis: u64,
}

/// An error in setting up a reader.
#[derive(Clone, Debug)]
pub struct KMsgParserError(pub String);

impl KMsgParserError {
    /// The error as text.
    pub fn describe(&self) -> (r: String)
        ensures
            r@ == "KMsgParserError:: "@ + self.0@,
    {
        let mut r = String::from_str("KMsgParserError:: ");
        r.append(self.0.as_str());
        r
    }
}

/// Why a step of the reader produced no record.
#[derive(Clone, Debug)]
pub enum KMsgParsingError {
    Completed,
    SequenceNumTooOld,
    EmptyLine,
    Generic(String),
}

impl KMsgParsingError {
    /// Whether the error ends the stream, rather than skipping one record.
    pub fn ends_stream(&self) -> (r: bool)
        ensures
            r == (self is Completed),
    {
        match self {
            KMsgParsingError::Completed => true,
            _ => false,
        }
    }

    /// The error as text.
    pub fn describe(&self) -> (r: String)
        ensures
            r@ == "KMsgParsingError:: "@ + match self {
                KMsgParsingError::Completed => "Completed Parsing"@,
                KMsgParsingError::SequenceNumTooOld =>
                    "sequence number too old (we've parsed newer messages than these)"@,
                KMsgParsingError::EmptyLine => "Empty line"@,
                KMsgParsingError::Generic(m) => m@,
            },
    {
        let mut r = String::from_str("KMsgParsingError:: ");
        match self {
            KMsgParsingError::Completed => r.append("Completed Parsing"),
            KMsgParsingError::SequenceNumTooOld => r.append(
                "sequence number too old (we've parsed newer messages than these)",
            ),
            KMsgParsingError::EmptyLine => r.append("Empty line"),
            KMsgParsingError::Generic(m) => r.append(m.as_str()),
        }
        r
    }
}

/// What a parse of a record, or a step of the reader, comes to.
pub enum Outcome {
    Record { facility: nat, level: nat, timestamp: int, message: Seq<char> },
    Empty,
    TooOld,
    Malformed,
    Completed,
    Pending,
}

/// The facility/level field, the sequence number and the offset since boot,
/// as far as each is present and well formed, from the part of a record
/// before its first `;`.
pub open spec fn header_fields(meta: Seq<char>) -> (Option<nat>, Option<nat>, Option<int>) {
    let faclev = unsigned_of(trim(head(meta, ',')), 0xffff_ffff);
    let rest1 = tail(meta, ',');
    let seq = match rest1 {
        Some(r) => unsigned_of(trim(head(r, ',')), 0xffff_ffff_ffff_ffff),
        None => None,
    };
    let time = match rest1 {
        Some(r) => match tail(r, ',') {
            Some(r2) => i64_of(trim(head(r2, ','))),
            None => None,
        },
        None => None,
    };
    (faclev, seq, time)
}

/// What a whole record (its header line with any continuation lines) stands
/// for, for a reader that resumes at `from` and whose system started at
/// `start` microseconds since the epoch.
pub open spec fn record_outcome(line: Seq<char>, from: u64, start: i64) -> Outcome {
    if trim(line).len() == 0 {
        Outcome::Empty
    } else {
        match tail(line, ';') {
            None => Outcome::Malformed,
            Some(body) => {
                let (faclev, seq, time) = header_fields(trim(head(line, ';')));
                match (faclev, seq, time) {
                    (Some(fl), Some(sq), Some(t)) => {
                        if fl / 8 >= 24 {
                            Outcome::Malformed
                        } else if sq < from {
                            Outcome::TooOld
                        } else {
                            Outcome::Record {
                                facility: fl / 8,
                                level: fl % 8,
                                timestamp: start + t,
                                message: trim(body),
                            }
                        }
                    },
                    _ => Outcome::Malformed,
                }
            },
        }
    }
}

pub open spec fn error_outcome(e: KMsgParsingError) -> Outcome {
    match e {
        KMsgParsingError::Completed => Outcome::Completed,
        KMsgParsingError::SequenceNumTooOld => Outcome::TooOld,
        KMsgParsingError::EmptyLine => Outcome::Empty,
        KMsgParsingError::Generic(_) => Outcome::Malformed,
    }
}

pub open spec fn kmsg_outcome(k: KMsg) -> Outcome {
    Outcome::Record {
        facility: k.facility.index(),
        level: k.level.index(),
        timestamp: k.timestamp as int,
        message: k.message@,
    }
}

/// What a parse produced.
pub open spec fn parse_outcome(r: Result<KMsg, KMsgParsingError>) -> Outcome {
    match r {
        Ok(k) => kmsg_outcome(k),
        Err(e) => error_outcome(e),
    }
}

/// What a step of the reader produced.
pub open spec fn poll_outcome(r: Result<Option<KMsg>, KMsgParsingError>) -> Outcome {
    match r {
        Ok(Some(k)) => kmsg_outcome(k),
        Ok(None) => Outcome::Pending,
        Err(e) => error_outcome(e),
    }
}

fn generic(what: &str, line: &str) -> (r: KMsgParsingError)
    ensures
        r is Generic,
{
    let mut m = String::from_str(what);
    m.append(line);
    KMsgParsingError::Generic(m)
}

/// Parses one record: `FACLEV,SEQ,TS_USEC,FLAGS[,...];BODY`, with any
/// continuation lines already joined to it.
pub fn parse_kmsg(line: &str, from_sequence_number: u64, system_start_time: i64) -> (r: Result<
    KMsg,
    KMsgParsingError,
>)
    ensures
        parse_outcome(r) == record_outcome(line@, from_sequence_number, system_start_time),
{
    if trim_str(line).unicode_len() == 0 {
        return Err(KMsgParsingError::EmptyLine);
    }
    let (meta_raw, body) = split_once(line, ';');
    let body = match body {
        Some(b) => b,
        None => {
            return Err(generic("Didn't find kmsg message (even if empty) in line: ", line));
        },
    };
    let meta = trim_str(meta_raw);
    let message = trim_str(body);
    let ghost fields = header_fields(meta@);

    let (faclev_str, rest1) = split_once(meta, ',');
    let faclev = match parse_u32(trim_str(faclev_str)) {
        Some(v) => v,
        None => {
            return Err(generic("Unable to parse facility/level in line: ", line));
        },
    };
    let rest1 = match rest1 {
        Some(r) => r,
        None => {
            return Err(generic("No sequence number found in line: ", line));
        },
    };
    let (seq_str, rest2) = split_once(rest1, ',');
    let sequence_num = match parse_u64(trim_str(seq_str)) {
        Some(v) => v,
        None => {
            return Err(generic("Unable to parse sequence number in line: ", line));
        },
    };
    assert((faclev >> 3) == faclev / 8 && (faclev & 7) == faclev % 8) by (bit_vector);
    // facility is the upper bits, level the lowest three
    let facility = match LogFacility::from_u32(faclev >> 3) {
        Some(f) => f,
        None => {
            return Err(generic("Unable to parse log facility in line: ", line));
        },
    };
    let level = match LogLevel::from_u32(faclev & 7) {
        Some(l) => l,
        None => {
            return Err(generic("Unable to parse log level in line: ", line));
        },
    };
    let rest2 = match rest2 {
        Some(r) => r,
        None => {
            return Err(generic("No timestamp found in line: ", line));
        },
    };
    let (time_str, _ignored) = split_once(rest2, ',');
    let micros = match parse_i64(trim_str(time_str)) {
        Some(t) => t,
        None => {
            return Err(generic("Unable to parse timestamp in line: ", line));
        },
    };
    if sequence_num < from_sequence_number {
        return Err(KMsgParsingError::SequenceNumTooOld);
    }
    Ok(
        KMsg {
            facility,
            level,
            timestamp: system_start_time as i128 + micros as i128,
            message: String::from_str(message),
        },
    )
}

/// A line that continues the record before it.
pub open spec fn is_continuation(l: Seq<char>) -> bool {
    l.len() > 0 && l[0] == ' '
}

/// A record with one more continuation line joined to it.
pub open spec fn continued(record: Seq<char>, l: Seq<char>) -> Seq<char> {
    record + seq!['\n'] + l
}

/// What a step of the reader saw: a line that it took from the source, the
/// end of a record (a following header line, a timeout or the end of the
/// source), or the end of the source with no record pending.
pub enum Seen {
    Line(Seq<char>),
    Break,
    End,
}

/// The records finished over a trace of steps, in order, and the record still
/// being assembled.
pub open spec fn assemble(trace: Seq<Seen>) -> (Seq<Seq<char>>, Option<Seq<char>>)
    decreases trace.len(),
{
    if trace.len() == 0 {
        (Seq::empty(), None)
    } else {
        let (done, pending) = assemble(trace.drop_last());
        match trace.last() {
            Seen::Line(l) => match pending {
                None => (done, Some(l)),
                Some(p) => (done, Some(continued(p, l))),
            },
            Seen::Break => match pending {
                Some(p) => (done.push(p), None),
                None => (done, None),
            },
            Seen::End => (done, pending),
        }
    }
}

/// `after` is `before` with one more line taken.
pub open spec fn steps_by_line(before: Seq<Seen>, after: Seq<Seen>) -> bool {
    &&& after.len() == before.len() + 1
    &&& after.drop_last() == before
    &&& after.last() is Line
}

/// Reads kernel records from a line source that can be peeked with a
/// timeout, one step at a time.
pub struct DevKMsgReader {
    verbosity: u8,
    kmsg_line_reader: TimeoutIterator<String>,
    from_sequence_number: u64,
    flush_timeout_millis: u64,
    system_start_time: i64,
    pending: Option<String>,
    trace: Ghost<Seq<Seen>>,
}

impl DevKMsgReader {
    /// The record being assembled, if a header line has been read and the
    /// record is not finished yet.
    pub closed spec fn pending_record(&self) -> Option<Seq<char>> {
        match self.pending {
            Some(s) => Some(s@),
            None => None,
        }
    }

    /// What the reader has seen since it was made.
    pub closed spec fn trace(&self) -> Seq<Seen> {
        self.trace@
    }

    pub closed spec fn resume_point(&self) -> u64 {
        self.from_sequence_number
    }

    pub closed spec fn start_time(&self) -> i64 {
        self.system_start_time
    }

    /// How long, in milliseconds, a pending record waits for a
    /// continuation line.
    pub closed spec fn flush_timeout(&self) -> u64 {
        self.flush_timeout_millis
    }

    pub closed spec fn verbosity_level(&self) -> u8 {
        self.verbosity
    }

    /// The lines that the source has shown to a peek and not yet handed out.
    pub closed spec fn lookahead(&self) -> Seq<Seq<char>> {
        buffered_lines(self.kmsg_line_reader)
    }

    /// The record being assembled is the one that the trace leaves pending.
    /// Every reader is made so and left so by each step.
    pub closed spec fn wf(&self) -> bool {
        assemble(self.trace@).1 == self.pending_record()
    }

    /// A reader over `kmsg_line_reader`, for a system that started
    /// `system_start_time` microseconds after the epoch.
    pub fn with_lines_iterator(
        config: KMsgReaderConfig,
        kmsg_line_reader: TimeoutIterator<String>,
        verbosity: u8,
        system_start_time: i64,
    ) -> (r: DevKMsgReader)
        ensures
            r.wf(),
            r.pending_record() is None,
            r.trace() == Seq::<Seen>::empty(),
            r.lookahead() == buffered_lines(kmsg_line_reader),
            r.resume_point() == config.from_sequence_number,
            r.flush_timeout() == config.flush_timeout_millis,
            r.verbosity_level() == verbosity,
            r.start_time() == system_start_time,
    {
        DevKMsgReader {
            verbosity,
            kmsg_line_reader,
            from_sequence_number: config.from_sequence_number,
            flush_timeout_millis: config.flush_timeout_millis,
            system_start_time,
            pending: None,
            trace: Ghost(Seq::empty()),
        }
    }

    pub fn system_start_time(&self) -> (r: i64)
        ensures
            r == self.start_time(),
    {
        self.system_start_time
    }

    pub fn verbosity(&self) -> (r: u8)
        ensures
            r == self.verbosity_level(),
    {
        self.verbosity
    }

    /// One step of reading. With no record pending, it takes the next line
    /// (the one a peek already saw, if any, else one that the source gives),
    /// which begins a record (`Ok(None)`), or it finds the source at its end
    /// (`Completed`). With a record pending, it peeks at the following line,
    /// waiting up to the flush timeout: a continuation line is taken and
    /// joined to the record (`Ok(None)`); anything else (another header, a
    /// timeout, the end) finishes the record, which is then parsed and
    /// returned, and a following header line stays in the lookahead for the
    /// next step.
    pub fn poll(&mut self) -> (r: Result<Option<KMsg>, KMsgParsingError>)
        requires
            old(self).wf(),
        ensures
            final(self).wf(),
            final(self).resume_point() == old(self).resume_point(),
            final(self).start_time() == old(self).start_time(),
            final(self).flush_timeout() == old(self).flush_timeout(),
            final(self).verbosity_level() == old(self).verbosity_level(),
            old(self).pending_record() == assemble(old(self).trace()).1,
            final(self).pending_record() == assemble(final(self).trace()).1,
            match old(self).pending_record() {
                None => {
                    &&& old(self).lookahead().len() > 0 ==> {
                        &&& r matches Ok(None)
                        &&& final(self).trace() == old(self).trace().push(
                            Seen::Line(old(self).lookahead()[0]),
                        )
                        &&& final(self).lookahead() == old(self).lookahead().drop_first()
                    }
                    &&& old(self).lookahead().len() == 0 ==> final(self).lookahead().len() == 0
                    &&& match r {
                        Err(KMsgParsingError::Completed) => final(self).trace() == old(
                            self,
                        ).trace().push(Seen::End),
                        Ok(None) => steps_by_line(old(self).trace(), final(self).trace()),
                        _ => false,
                    }
                },
                Some(rec) => {
                    &&& old(self).lookahead().len() > 0 ==> ((r matches Ok(None))
                        <==> is_continuation(old(self).lookahead()[0]))
                    &&& match r {
                        Ok(None) => {
                            &&& steps_by_line(old(self).trace(), final(self).trace())
                            &&& (final(self).trace().last() matches Seen::Line(l)
                                && is_continuation(l))
                            &&& old(self).lookahead().len() > 0 ==> {
                                &&& final(self).trace().last() == Seen::Line(
                                    old(self).lookahead()[0],
                                )
                                &&& final(self).lookahead() == old(self).lookahead().drop_first()
                            }
                            &&& old(self).lookahead().len() == 0 ==> final(self).lookahead().len()
                                == 0
                        },
                        _ => {
                            &&& final(self).trace() == old(self).trace().push(Seen::Break)
                            &&& assemble(final(self).trace()).0 == assemble(
                                old(self).trace(),
                            ).0.push(rec)
                            &&& poll_outcome(r) == record_outcome(
                                rec,
                                old(self).resume_point(),
                                old(self).start_time(),
                            )
                            &&& final(self).lookahead().len() == 0 || !is_continuation(
                                final(self).lookahead()[0],
                            )
                            &&& old(self).lookahead().len() > 0 ==> final(self).lookahead()
                                == old(self).lookahead()
                        },
                    }
                },
            },
    {
        let ghost before = self.trace@;
        match self.pending.take() {
            None => match next_line(&mut self.kmsg_line_reader) {
                None => {
                    self.trace = Ghost(before.push(Seen::End));
                    proof {
                        assert(self.trace@.drop_last() =~= before);
                    }
                    Err(KMsgParsingError::Completed)
                },
                Some(l) => {
                    self.trace = Ghost(before.push(Seen::Line(l@)));
                    proof {
                        assert(self.trace@.drop_last() =~= before);
                    }
                    self.pending = Some(l);
                    Ok(None)
                },
            },
            Some(record) => {
                let mut record = record;
                let peeked = peek_line(&mut self.kmsg_line_reader, self.flush_timeout_millis);
                if continues_record(&peeked) {
                    if let Some(c) = next_line(&mut self.kmsg_line_reader) {
                        let ghost prior = record@;
                        proof {
                            reveal_strlit("\n");
                        }
                        record.append("\n");
                        record.append(c.as_str());
                        assert(record@ == continued(prior, c@));
                        self.trace = Ghost(before.push(Seen::Line(c@)));
                        proof {
                            assert(self.trace@.drop_last() =~= before);
                        }
                    }
                    self.pending = Some(record);
                    return Ok(None);
                }
                self.trace = Ghost(before.push(Seen::Break));
                proof {
                    assert(self.trace@.drop_last() =~= before);
                }
                match parse_kmsg(record.as_str(), self.from_sequence_number, self.system_start_time) {
                    Ok(k) => Ok(Some(k)),
                    Err(e) => Err(e),
                }
            },
        }
    }
}

/// Whether the line that follows a pending record, if one came in time,
/// continues it.
pub fn continues_record(next: &Option<String>) -> (r: bool)
    ensures
        r == (next matches Some(l) && is_continuation(l@)),
{
    match next {
        Some(l) => l.unicode_len() > 0 && l.get_char(0) == ' ',
        None => false,
    }
}

/// The lines of a run, each as a step that took it.
pub open spec fn lines_seen(lines: Seq<Seq<char>>) -> Seq<Seen> {
    lines.map_values(|l: Seq<char>| Seen::Line(l))
}

/// A header line with continuation lines joined to it, in order.
pub open spec fn joined(header: Seq<char>, lines: Seq<Seq<char>>) -> Seq<char>
    decreases lines.len(),
{
    if lines.len() == 0 {
        header
    } else {
        continued(joined(header, lines.drop_last()), lines.last())
    }
}

proof fn lemma_lines_pending(trace: Seq<Seen>, header: Seq<char>, lines: Seq<Seq<char>>)
    requires
        assemble(trace).1 is None,
    ensures
        assemble(trace.push(Seen::Line(header)) + lines_seen(lines)).0 == assemble(trace).0,
        assemble(trace.push(Seen::Line(header)) + lines_seen(lines)).1 == Some(
            joined(header, lines),
        ),
    decreases lines.len(),
{
    let t = trace.push(Seen::Line(header));
    assert(t.drop_last() =~= trace);
    if lines.len() == 0 {
        assert(t + lines_seen(lines) =~= t);
    } else {
        lemma_lines_pending(trace, header, lines.drop_last());
        let whole = t + lines_seen(lines);
        assert(whole.drop_last() =~= t + lines_seen(lines.drop_last()));
        assert(whole.last() == Seen::Line(lines.last()));
    }
}

/// Continuation lines are joined to the record before them: a header line
/// that begins a record, followed by a run of lines, makes one record, the
/// header and each line in order, joined by a newline, each line kept with
/// its leading space; the records finished before are unchanged.
pub proof fn lemma_continuations_join(trace: Seq<Seen>, header: Seq<char>, lines: Seq<Seq<char>>)
    requires
        assemble(trace).1 is None,
    ensures
        assemble(trace.push(Seen::Line(header)) + lines_seen(lines).push(Seen::Break)).0
            == assemble(trace).0.push(joined(header, lines)),
        assemble(trace.push(Seen::Line(header)) + lines_seen(lines).push(Seen::Break)).1 is None,
{
    lemma_lines_pending(trace, header, lines);
    let t = trace.push(Seen::Line(header)) + lines_seen(lines);
    assert(trace.push(Seen::Line(header)) + lines_seen(lines).push(Seen::Break) =~= t.push(
        Seen::Break,
    ));
    assert(t.push(Seen::Break).drop_last() =~= t);
}

/// A finished record stays as it was, whatever the reader sees later: the
/// records finished after any further steps begin with those finished now.
pub proof fn lemma_finished_records_are_final(trace: Seq<Seen>, more: Seq<Seen>)
    ensures
        assemble(trace).0.len() <= assemble(trace + more).0.len(),
        assemble(trace).0 == assemble(trace + more).0.take(assemble(trace).0.len() as int),
    decreases more.len(),
{
    if more.len() == 0 {
        assert(trace + more =~= trace);
        assert(assemble(trace).0 =~= assemble(trace).0.take(assemble(trace).0.len() as int));
    } else {
        let shorter = more.drop_last();
        lemma_finished_records_are_final(trace, shorter);
        assert((trace + more).drop_last() =~= trace + shorter);
        let n = assemble(trace).0.len() as int;
        let a = assemble(trace + shorter).0;
        let b = assemble(trace + more).0;
        assert(b == a || b == a.push(b.last()));
        if b != a {
            assert(b.take(n) =~= a.take(n));
        }
    }
}

/// A record whose header parses (facility/level, sequence number and offset
/// since boot), whose facility is a known one, and whose sequence number is
/// at the resume point or later gives exactly one record: its facility and
/// level are the header's upper bits and lowest three bits, its time is the
/// start time plus the offset, and its message is what follows the first
/// `;`, trimmed.
pub proof fn lemma_clean_header_gives_record(line: Seq<char>, from: u64, start: i64)
    requires
        tail(line, ';') is Some,
        header_fields(trim(head(line, ';'))).0 is Some,
        header_fields(trim(head(line, ';'))).1 is Some,
        header_fields(trim(head(line, ';'))).2 is Some,
        header_fields(trim(head(line, ';'))).0->0 / 8 < 24,
        header_fields(trim(head(line, ';'))).1->0 >= from,
    ensures
        record_outcome(line, from, start) == (Outcome::Record {
            facility: header_fields(trim(head(line, ';'))).0->0 / 8,
            level: header_fields(trim(head(line, ';'))).0->0 % 8,
            timestamp: start + header_fields(trim(head(line, ';'))).2->0,
            message: trim(tail(line, ';')->0),
        }),
{
    find_in_bounds(line, ';', line.len() as int);
    lemma_trim_keeps_non_whitespace(line, find(line, ';'));
}

/// Parsing a record never ends the stream: whatever the text, its outcome
/// is a record, or a blank, too old or malformed one that the reader skips.
pub proof fn lemma_record_never_ends_stream(line: Seq<char>, from: u64, start: i64)
    ensures
        !(record_outcome(line, from, start) is Completed),
        !(record_outcome(line, from, start) is Pending),
{
}

/// A record written `F,S,T,-;M`, with `F`, `S` and `T` decimal numbers that
/// fit their types, a known facility and `S` at the resume point or later,
/// gives facility `F >> 3`, level `F & 7`, the start time plus `T`
/// microseconds, and `M` trimmed.
pub proof fn lemma_header_round_trip(
    f: Seq<char>,
    s: Seq<char>,
    t: Seq<char>,
    m: Seq<char>,
    from: u64,
    start: i64,
)
    requires
        digits_of(f, 0xffff_ffff) is Some,
        digits_of(s, 0xffff_ffff_ffff_ffff) is Some,
        digits_of(t, 0x7fff_ffff_ffff_ffff) is Some,
        decimal_value(f) / 8 < 24,
        decimal_value(s) >= from,
    ensures
        record_outcome(
            f + seq![','] + s + seq![','] + t + seq![',', '-', ';'] + m,
            from,
            start,
        ) == (Outcome::Record {
            facility: decimal_value(f) / 8,
            level: decimal_value(f) % 8,
            timestamp: start + decimal_value(t),
            message: trim(m),
        }),
{
    let rest2 = t + seq![',', '-'];
    let rest1 = s + seq![','] + rest2;
    let meta = f + seq![','] + rest1;
    let line = f + seq![','] + s + seq![','] + t + seq![',', '-', ';'] + m;
    assert(line =~= meta + seq![';'] + m);
    assert forall|i: int| 0 <= i < meta.len() implies meta[i] != ';' by {
        if i < f.len() {
            assert(meta[i] == f[i]);
        } else if i > f.len() && i < f.len() + 1 + s.len() {
            assert(meta[i] == s[i - f.len() - 1]);
        } else if i > f.len() + s.len() + 1 && i < f.len() + s.len() + 2 + t.len() {
            assert(meta[i] == t[i - f.len() - s.len() - 2]);
        }
    }
    lemma_find_after(meta, ';', m);
    assert(meta[0] == f[0]);
    assert(meta.last() == '-');
    lemma_trim_plain(meta);
    lemma_find_after(f, ',', rest1);
    lemma_trim_plain(f);
    assert(rest1 =~= s + seq![','] + rest2);
    lemma_find_after(s, ',', rest2);
    lemma_trim_plain(s);
    assert(rest2 =~= t + seq![','] + seq!['-']);
    lemma_find_after(t, ',', seq!['-']);
    lemma_trim_plain(t);
    assert(line.len() > 0 && !is_whitespace(line[0]));
    lemma_trim_keeps_non_whitespace(line, 0);
}

} // verus!
