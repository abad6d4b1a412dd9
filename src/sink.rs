//! The target-side log sink: one record per call, written whole into the
//! ring buffer or not at all.
//!
//! The sink is reached through `&mut`: on the target that exclusive access is
//! what an interrupt-masking critical section hands out, so two contexts that
//! log never write into each other's record.

use crate::ring::{OutputFull, RingOutput};
use vstd::prelude::*;

verus! {

#[verifier::external_type_specification]
pub struct ExLevel(log::Level);

/// The name of a level in ASCII, as `log::Level::as_str` gives it:
/// `ERROR`, `WARN`, `INFO`, `DEBUG`, `TRACE`.
pub open spec fn level_name(level: log::Level) -> Seq<u8> {
    match level {
        log::Level::Error => seq![69u8, 82u8, 82u8, 79u8, 82u8],
        log::Level::Warn => seq![87u8, 65u8, 82u8, 78u8],
        log::Level::Info => seq![73u8, 78u8, 70u8, 79u8],
        log::Level::Debug => seq![68u8, 69u8, 66u8, 85u8, 71u8],
        log::Level::Trace => seq![84u8, 82u8, 65u8, 67u8, 69u8],
    }
}

/// The bytes of one record: `"<level>, <message>\n"` (44 is `,`, 32 a space
/// and 10 a newline).
pub open spec fn record_bytes(level: log::Level, message: Seq<u8>) -> Seq<u8> {
    level_name(level) + seq![44u8, 32u8] + message + seq![10u8]
}

/// What one record does to the pending bytes of a buffer of `cap` bytes: it
/// is appended whole where it fits, and dropped where it does not.
pub open spec fn log_effect(pending: Seq<u8>, cap: nat, record: Seq<u8>) -> Seq<u8> {
    if pending.len() + record.len() <= cap {
        pending + record
    } else {
        pending
    }
}

/// The pending bytes after a run of records, one log call each, in the
/// order in which the calls entered the critical section.
pub open spec fn log_all(pending: Seq<u8>, cap: nat, records: Seq<Seq<u8>>) -> Seq<u8>
    decreases records.len(),
{
    if records.len() == 0 {
        pending
    } else {
        log_all(log_effect(pending, cap, records[0]), cap, records.drop_first())
    }
}

/// The records of a run that found room in the buffer, in run order.
pub open spec fn delivered(pending: Seq<u8>, cap: nat, records: Seq<Seq<u8>>) -> Seq<Seq<u8>>
    decreases records.len(),
{
    if records.len() == 0 {
        Seq::empty()
    } else if pending.len() + records[0].len() <= cap {
        seq![records[0]] + delivered(pending + records[0], cap, records.drop_first())
    } else {
        delivered(pending, cap, records.drop_first())
    }
}

/// The records laid end to end.
pub open spec fn concat(records: Seq<Seq<u8>>) -> Seq<u8>
    decreases records.len(),
{
    if records.len() == 0 {
        Seq::empty()
    } else {
        records[0] + concat(records.drop_first())
    }
}

/// `a` is `b` with some items left out, the rest in the same order.
pub open spec fn is_subsequence(a: Seq<Seq<u8>>, b: Seq<Seq<u8>>) -> bool
    decreases b.len(),
{
    if a.len() == 0 {
        true
    } else if b.len() == 0 {
        false
    } else if a[0] == b[0] && is_subsequence(a.drop_first(), b.drop_first()) {
        true
    } else {
        is_subsequence(a, b.drop_first())
    }
}

/// The total length of some records.
pub open spec fn total_len(records: Seq<Seq<u8>>) -> nat
    decreases records.len(),
{
    if records.len() == 0 {
        0
    } else {
        records[0].len() + total_len(records.drop_first())
    }
}

/// Records are never interleaved byte by byte: however the calls of several
/// contexts are ordered, the buffer ends with its earlier bytes followed by
/// whole records, those that found room, in the order of the calls. Where
/// all of them fit, that is every record, in call order.
pub proof fn lemma_records_stay_whole(pending: Seq<u8>, cap: nat, records: Seq<Seq<u8>>)
    ensures
        log_all(pending, cap, records) == pending + concat(delivered(pending, cap, records)),
        is_subsequence(delivered(pending, cap, records), records),
        pending.len() + total_len(records) <= cap ==> delivered(pending, cap, records) == records,
    decreases records.len(),
{
    if records.len() > 0 {
        let r = records[0];
        let rest = records.drop_first();
        if pending.len() + r.len() <= cap {
            lemma_records_stay_whole(pending + r, cap, rest);
            let d = delivered(pending, cap, records);
            let d2 = delivered(pending + r, cap, rest);
            assert(d == seq![r] + d2);
            assert(d.drop_first() =~= d2);
            assert(d[0] == r);
            assert(concat(d) == r + concat(d2));
            assert(pending + r + concat(d2) =~= pending + (r + concat(d2)));
            if pending.len() + total_len(records) <= cap {
                assert(d2 == rest);
                assert(d =~= records);
            }
        } else {
            lemma_records_stay_whole(pending, cap, rest);
            let d = delivered(pending, cap, records);
            if d.len() > 0 {
                assert(is_subsequence(d, rest));
            }
        }
    }
}

/// The length of a level's name.
fn level_name_len(level: log::Level) -> (n: usize)
    ensures
        n == level_name(level).len(),
{
    match level {
        log::Level::Warn => 4,
        log::Level::Info => 4,
        _ => 5,
    }
}

/// Writes the name of `level` at the tail of `out`.
fn write_level_name(out: &mut RingOutput, level: log::Level)
    requires
        old(out).wf(),
        old(out)@.len() + level_name(level).len() <= old(out).spec_capacity(),
    ensures
        final(out).wf(),
        final(out).spec_capacity() == old(out).spec_capacity(),
        final(out)@ == old(out)@ + level_name(level),
{
    let ghost start = out@;
    match level {
        log::Level::Error => {
            out.push_byte(69u8);
            out.push_byte(82u8);
            out.push_byte(82u8);
            out.push_byte(79u8);
            out.push_byte(82u8);
        },
        log::Level::Warn => {
            out.push_byte(87u8);
            out.push_byte(65u8);
            out.push_byte(82u8);
            out.push_byte(78u8);
        },
        log::Level::Info => {
            out.push_byte(73u8);
            out.push_byte(78u8);
            out.push_byte(70u8);
            out.push_byte(79u8);
        },
        log::Level::Debug => {
            out.push_byte(68u8);
            out.push_byte(69u8);
            out.push_byte(66u8);
            out.push_byte(85u8);
            out.push_byte(71u8);
        },
        log::Level::Trace => {
            out.push_byte(84u8);
            out.push_byte(82u8);
            out.push_byte(65u8);
            out.push_byte(67u8);
            out.push_byte(69u8);
        },
    }
    assert(out@ =~= start + level_name(level));
}

/// The process-wide log sink: the ring buffer once it is installed, or
/// nothing before that.
pub struct LogSink {
    output: Option<RingOutput>,
}

impl LogSink {
    /// Whether an output buffer has been installed.
    pub closed spec fn installed(&self) -> bool {
        self.output is Some
    }

    /// The bytes written and not yet read; none before installation.
    pub closed spec fn pending(&self) -> Seq<u8> {
        match self.output {
            Some(o) => o@,
            None => Seq::empty(),
        }
    }

    /// The capacity of the installed buffer.
    pub closed spec fn capacity(&self) -> nat {
        match self.output {
            Some(o) => o.spec_capacity(),
            None => 0,
        }
    }

    pub closed spec fn wf(&self) -> bool {
        self.output matches Some(o) ==> o.wf()
    }

    /// A sink with no output installed: every record is dropped.
    pub fn new() -> (r: LogSink)
        ensures
            r.wf(),
            !r.installed(),
            r.pending() == Seq::<u8>::empty(),
    {
        LogSink { output: None }
    }

    /// Installs `output` as the buffer that records go to, replacing any
    /// earlier one.
    pub fn install(&mut self, output: RingOutput)
        requires
            output.wf(),
        ensures
            final(self).wf(),
            final(self).installed(),
            final(self).pending() == output@,
            final(self).capacity() == output.spec_capacity(),
    {
        self.output = Some(output);
    }

    /// Every level is enabled here; filtering is done by the global threshold.
    pub fn enabled(&self, level: log::Level) -> (b: bool)
        ensures
            b,
    {
        true
    }

    /// Writes the record `"<level>, <message>\n"`, whole, where an output is
    /// installed and the record fits in its free space. Otherwise nothing is
    /// written: a record that does not fit is dropped, never retried. The
    /// record goes straight into the buffer, with no allocation.
    pub fn log(&mut self, level: log::Level, message: &[u8])
        requires
            old(self).wf(),
        ensures
            final(self).wf(),
            final(self).installed() == old(self).installed(),
            final(self).capacity() == old(self).capacity(),
            !old(self).installed() ==> final(self).pending() == old(self).pending(),
            old(self).installed() ==> final(self).pending() == log_effect(
                old(self).pending(),
                old(self).capacity(),
                record_bytes(level, message@),
            ),
    {
        match &mut self.output {
            Some(out) => {
                let ghost start = out@;
                let room = out.capacity() - out.pending_len();
                let name_len = level_name_len(level);
                if message.len() <= room && name_len + 3 <= room - message.len() {
                    write_level_name(out, level);
                    out.push_byte(44u8);
                    out.push_byte(32u8);
                    let written: Result<(), OutputFull> = out.write(message);
                    out.push_byte(10u8);
                    assert(out@ =~= start + record_bytes(level, message@));
                }
            },
            None => {},
        }
    }

    /// Nothing to do: each record is in the buffer once `log` returns.
    pub fn flush(&self) {
    }

    /// Takes up to `max` of the pending bytes, oldest first, as the debugger
    /// does; none where no output is installed.
    pub fn read_output(&mut self, max: usize) -> (r: Vec<u8>)
        requires
            old(self).wf(),
        ensures
            final(self).wf(),
            final(self).installed() == old(self).installed(),
            final(self).capacity() == old(self).capacity(),
            r@.len() == if max < old(self).pending().len() {
                max as nat
            } else {
                old(self).pending().len()
            },
            old(self).pending() == r@ + final(self).pending(),
    {
        match &mut self.output {
            Some(out) => out.read(max),
            None => Vec::new(),
        }
    }
}

} // verus!
