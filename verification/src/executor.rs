//! Per-command execution accounting: a `CommandExecution` is begun when the
//! child process is spawned, fed one captured line at a time while the
//! process streams, and finished into a `RunResult` when the process exits.
//!
//! The caller does the spawning, reading and waiting; it hands this module
//! plain values: raw lines, instants in milliseconds, and the exit code.

use vstd::prelude::*;
use vstd::string::StringSliceAdditionalSpecFns;
use vstd::utf8::*;
use crate::types::{CommandOutput, OutputType, RunResult};

verus! {

/// The content of one captured line: the raw line with its terminator
/// removed — a trailing newline, together with a carriage return
/// immediately before it. Leading and interior whitespace is preserved.
pub open spec fn line_content(raw: Seq<char>) -> Seq<char> {
    if raw.len() > 0 && raw.last() == '\n' {
        let t = raw.drop_last();
        if t.len() > 0 && t.last() == '\r' {
            t.drop_last()
        } else {
            t
        }
    } else {
        raw
    }
}

/// The encoding of a non-empty character sequence is the encoding of its
/// prefix followed by the encoding of its last character.
proof fn lemma_encode_utf8_peel_last(cs: Seq<char>)
    requires
        cs.len() > 0,
    ensures
        encode_utf8(cs) =~= encode_utf8(cs.drop_last()) + encode_scalar(cs.last() as u32),
    decreases cs.len(),
{
    if cs.len() == 1 {
        assert(cs.drop_first() =~= Seq::<char>::empty());
        assert(cs.drop_last() =~= Seq::<char>::empty());
    } else {
        let d = cs.drop_first();
        lemma_encode_utf8_peel_last(d);
        assert(d.drop_last() =~= cs.drop_last().drop_first());
        assert(cs.drop_last()[0] == cs[0]);
    }
}

/// The final byte of one character's encoding: a character below 0x80 is
/// encoded as exactly its own byte; any other character's encoding ends in
/// a continuation byte, which is 0x80 or above.
proof fn lemma_encode_scalar_last_byte(c: char)
    ensures
        encode_scalar(c as u32).len() > 0,
        c as u32 <= 0x7F ==> encode_scalar(c as u32) =~= seq![(c as u32) as u8],
        c as u32 > 0x7F ==> encode_scalar(c as u32).last() >= 0x80,
{
    char_is_scalar(c);
    let s = c as u32;
    if s <= 0x7F {
        assert((s & 0x7F) == s) by (bit_vector)
            requires
                s <= 0x7F,
        ;
    } else {
        let b: u8 = (s & 0x3F) as u8;
        assert((0x80u8 | b) >= 0x80) by (bit_vector);
    }
}

/// A non-empty character sequence ends in a given ASCII character exactly
/// when its encoding ends in that character's byte, and stripping the
/// character strips exactly that byte.
proof fn lemma_ends_with_ascii(cs: Seq<char>, a: char)
    requires
        cs.len() > 0,
        a as u32 <= 0x7F,
    ensures
        encode_utf8(cs).len() > 0,
        (encode_utf8(cs).last() == (a as u32) as u8) <==> (cs.last() == a),
        cs.last() == a ==> encode_utf8(cs.drop_last()) =~= encode_utf8(cs).drop_last(),
{
    lemma_encode_utf8_peel_last(cs);
    lemma_encode_scalar_last_byte(cs.last());
    let s = cs.last() as u32;
    if s <= 0x7F {
        assert(encode_utf8(cs).last() == s as u8);
        if encode_utf8(cs).last() == (a as u32) as u8 {
            assert(s == a as u32);
            char_u32_cast(cs.last(), s);
            char_u32_cast(a, a as u32);
        }
    } else {
        assert(encode_utf8(cs).last() >= 0x80);
    }
}

/// A sequence's encoding is empty exactly when the sequence is.
proof fn lemma_encode_utf8_empty(cs: Seq<char>)
    ensures
        encode_utf8(cs).len() == 0 <==> cs.len() == 0,
{
    if cs.len() > 0 {
        lemma_encode_utf8_peel_last(cs);
        lemma_encode_scalar_last_byte(cs.last());
    }
}

/// Strip the line terminator from one raw line read off a child's stream:
/// a trailing newline goes, together with a carriage return immediately
/// before it; everything else — leading and interior whitespace included —
/// stays as the child wrote it.
pub fn strip_line_terminator(raw: &str) -> (r: &str)
    ensures
        r@ == line_content(raw@),
{
    let bytes: &[u8] = raw.as_bytes();
    let n: usize = bytes.len();
    proof {
        encode_utf8_valid_utf8(raw@);
        lemma_encode_utf8_empty(raw@);
        if raw@.len() > 0 {
            lemma_ends_with_ascii(raw@, '\n');
        }
    }
    let mut end: usize = n;
    if end > 0 && bytes[end - 1] == 10u8 {
        end = end - 1;
        proof {
            assert(raw@.last() == '\n');
            let t = raw@.drop_last();
            lemma_encode_utf8_empty(t);
            if t.len() > 0 {
                lemma_ends_with_ascii(t, '\r');
            }
        }
        if end > 0 && bytes[end - 1] == 13u8 {
            end = end - 1;
        }
    }
    proof {
        if end == n {
            is_char_boundary_start_end_of_seq(raw.spec_bytes());
        } else {
            is_char_boundary_iff_is_leading_byte(raw.spec_bytes(), end as int);
        }
        assert(is_char_boundary(raw.spec_bytes(), end as int));
    }
    let (prefix, _rest) = raw.split_at(end);
    proof {
        assert(prefix.spec_bytes() =~= encode_utf8(line_content(raw@)));
        encode_utf8_decode_utf8(prefix@);
        encode_utf8_decode_utf8(line_content(raw@));
        assert(prefix@ == line_content(raw@));
    }
    prefix
}

/// The accumulating state of one running command: its literal text, the
/// instant it was spawned, and the lines captured so far in arrival order.
pub struct CommandExecution {
    pub command: String,
    pub start_time: u64,
    pub outputs: Vec<CommandOutput>,
}

impl CommandExecution {
    /// Every captured line is attributed to this execution's command.
    pub open spec fn wf(self) -> bool {
        forall|i: int|
            0 <= i < self.outputs@.len() ==> #[trigger] self.outputs@[i].command@ == self.command@
    }

    /// Start accounting for one command spawned at `start_time`.
    pub fn begin(command: String, start_time: u64) -> (e: CommandExecution)
        ensures
            e.wf(),
            e.command == command,
            e.start_time == start_time,
            e.outputs@ =~= Seq::<CommandOutput>::empty(),
    {
        CommandExecution { command, start_time, outputs: Vec::new() }
    }

    /// Record one complete line read from the child's stdout or stderr at
    /// instant `timestamp`: it is appended after every line captured so far,
    /// with its line terminator removed and everything else preserved, so
    /// lines keep the order in which they arrived.
    pub fn observe_line(&mut self, output_type: OutputType, raw: &str, timestamp: u64)
        requires
            old(self).wf(),
        ensures
            final(self).wf(),
            final(self).command == old(self).command,
            final(self).start_time == old(self).start_time,
            final(self).outputs@.len() == old(self).outputs@.len() + 1,
            final(self).outputs@ =~= old(self).outputs@.push(
                final(self).outputs@.last(),
            ),
            final(self).outputs@.last().command@ == old(self).command@,
            final(self).outputs@.last().output_type == output_type,
            final(self).outputs@.last().data@ == line_content(raw@),
            final(self).outputs@.last().timestamp == timestamp,
    {
        let data = strip_line_terminator(raw).to_owned();
        let line = CommandOutput {
            command: self.command.clone(),
            output_type,
            data,
            timestamp,
        };
        self.outputs.push(line);
    }

    /// Close the accounting once the process has terminated: `exit_code` is
    /// the code the process exited with, absent if it was killed by a
    /// signal, and `end_time` is the instant termination was observed.
    ///
    /// The result succeeds exactly on exit code zero, carries the fixed
    /// diagnostic otherwise, spans the two instants, and holds the full
    /// ordered sequence of captured lines.
    pub fn finish(self, exit_code: Option<i32>, end_time: u64) -> (r: RunResult)
        requires
            self.wf(),
        ensures
            r.wf(),
            r.command == self.command,
            r.success <==> exit_code == Some(0i32),
            r.exit_code == exit_code,
            r.start_time == Some(self.start_time),
            r.end_time == Some(end_time),
            r.duration == if self.start_time <= end_time {
                Some((end_time - self.start_time) as u64)
            } else {
                None::<u64>
            },
            r.success ==> r.error is None,
            !r.success ==> (r.error matches Some(msg) && msg@ == "Command failed"@),
            r.output == self.outputs,
    {
        let success = match exit_code {
            Some(code) => code == 0,
            None => false,
        };
        let duration = if self.start_time <= end_time {
            Some(end_time - self.start_time)
        } else {
            None
        };
        let error = if success {
            None
        } else {
            Some("Command failed".to_owned())
        };
        RunResult {
            command: self.command,
            success,
            exit_code,
            start_time: Some(self.start_time),
            end_time: Some(end_time),
            duration,
            error,
            output: self.outputs,
        }
    }
}

} // verus!
