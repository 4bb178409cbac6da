//! The line framer: it turns the byte stream of a connection into
//! CRLF-delimited command lines, under a maximum-length bound. The framer
//! is conservative: every byte received is either emitted as part of a
//! line and its terminator or still retained in the buffer.

use vstd::prelude::*;

use crate::text::{lemma_spec_find, spec_find};

verus! {

pub const LF: u8 = 10;

pub const CR: u8 = 13;

/// Why the framer gave up on the buffered bytes.
#[derive(Debug)]
pub enum FramerError {
    /// A line outgrew the maximum receive length — either the buffer held
    /// no newline yet, or the carved line itself was over the bound. The
    /// buffer has been cleared.
    MaxLength,
}

/// Accumulates incoming bytes and hands out complete lines.
pub struct LineReader {
    pub buffer: Vec<u8>,
    pub max_length: usize,
}

/// How the earliest complete line is carved out of a buffer: the line
/// (without its terminator), the terminator itself (`\n`, or `\r\n` when
/// the byte before the newline is a carriage return), and the bytes that
/// stay behind. `None` when the buffer holds no newline.
pub open spec fn spec_extract(buffer: Seq<u8>) -> Option<(Seq<u8>, Seq<u8>, Seq<u8>)> {
    match spec_find(buffer, LF) {
        None => None,
        Some(i) => if i > 0 && buffer[i - 1] == CR {
            Some((buffer.take(i - 1), buffer.subrange(i - 1, i + 1), buffer.skip(i + 1)))
        } else {
            Some((buffer.take(i), buffer.subrange(i, i + 1), buffer.skip(i + 1)))
        },
    }
}

/// Law: the framer is conservative. Whenever a line is carved out of the
/// buffer, the line's bytes plus its terminator plus the retained bytes
/// are exactly the bytes that were received, and the line itself holds no
/// newline.
pub proof fn lemma_framer_conservative(buffer: Seq<u8>)
    ensures
        match spec_extract(buffer) {
            Some((line, term, rest)) => buffer == line + term + rest && line.len() + term.len()
                + rest.len() == buffer.len() && forall|k: int|
                0 <= k < line.len() ==> line[k] != LF,
            None => forall|k: int| 0 <= k < buffer.len() ==> buffer[k] != LF,
        },
{
    lemma_spec_find(buffer, LF);
    match spec_find(buffer, LF) {
        Some(i) => {
            if i > 0 && buffer[i - 1] == CR {
                assert(buffer =~= buffer.take(i - 1) + buffer.subrange(i - 1, i + 1) + buffer.skip(
                    i + 1,
                ));
            } else {
                assert(buffer =~= buffer.take(i) + buffer.subrange(i, i + 1) + buffer.skip(i + 1));
            }
        },
        None => {},
    }
}

/// The index of the first occurrence of `b` in `v`, if any.
fn find_byte(v: &Vec<u8>, b: u8) -> (r: Option<usize>)
    ensures
        match r {
            Some(i) => i < v@.len() && v@[i as int] == b && spec_find(v@, b) == Some(i as int),
            None => spec_find(v@, b) is None,
        },
{
    let n: usize = v.len();
    let mut i: usize = 0;
    while i < n
        invariant
            0 <= i <= n,
            n == v@.len(),
            forall|k: int| 0 <= k < i ==> v@[k] != b,
        decreases n - i,
    {
        if v[i] == b {
            proof {
                lemma_spec_find(v@, b);
                match spec_find(v@, b) {
                    Some(j) => {
                        if j < i {
                            assert(v@[j] != b);
                        }
                        if j > i {
                            assert(v@[i as int] != b);
                        }
                    },
                    None => {
                        assert(v@[i as int] != b);
                    },
                }
            }
            return Some(i);
        }
        i += 1;
    }
    proof {
        lemma_spec_find(v@, b);
    }
    None
}

impl LineReader {
    /// A fresh framer with an empty buffer.
    pub fn new(max_length: usize) -> (r: Self)
        ensures
            r.buffer@ == Seq::<u8>::empty(),
            r.max_length == max_length,
    {
        LineReader { buffer: Vec::new(), max_length }
    }

    /// Append freshly received bytes to the buffer.
    pub fn feed(&mut self, data: &Vec<u8>)
        ensures
            final(self).buffer@ == old(self).buffer@ + data@,
            final(self).max_length == old(self).max_length,
    {
        self.buffer.extend_from_slice(data.as_slice());
    }

    /// Bytes are buffered but not yet emitted as a line.
    pub fn has_pending(&self) -> (r: bool)
        ensures
            r == (self.buffer@.len() > 0),
    {
        self.buffer.len() > 0
    }

    /// Carve the earliest complete line out of the buffer, dropping its
    /// `\n` (or `\r\n`) terminator. A carved line longer than the maximum
    /// receive length is refused — the whole buffer is cleared — and so
    /// is a buffer that outgrew the bound without containing a newline;
    /// with no newline and no overrun the call asks for more bytes.
    pub fn next_line(&mut self) -> (r: Result<Option<Vec<u8>>, FramerError>)
        ensures
            final(self).max_length == old(self).max_length,
            match r {
                Ok(Some(line)) => match spec_extract(old(self).buffer@) {
                    Some((l, term, rest)) => line@ == l && l.len() <= old(self).max_length
                        && final(self).buffer@ == rest,
                    None => false,
                },
                Ok(None) => spec_extract(old(self).buffer@) is None && old(self).buffer@.len()
                    <= old(self).max_length && final(self).buffer@ == old(self).buffer@,
                Err(e) => final(self).buffer@ == Seq::<u8>::empty() && match spec_extract(
                    old(self).buffer@,
                ) {
                    Some((l, term, rest)) => l.len() > old(self).max_length,
                    None => old(self).buffer@.len() > old(self).max_length,
                },
            },
    {
        let blen: usize = self.buffer.len();
        match find_byte(&self.buffer, LF) {
            Some(i) => {
                assert(i < blen);
                let mut line: Vec<u8> = self.buffer.split_off(i + 1);
                core::mem::swap(&mut self.buffer, &mut line);
                assert(line@ =~= old(self).buffer@.take(i as int + 1));
                assert(self.buffer@ =~= old(self).buffer@.skip(i as int + 1));
                line.pop();
                assert(line@ =~= old(self).buffer@.take(i as int));
                let llen: usize = line.len();
                if llen > 0 && line[llen - 1] == CR {
                    line.pop();
                    assert(line@ =~= old(self).buffer@.take(i as int - 1));
                }
                if line.len() > self.max_length {
                    self.buffer.clear();
                    return Err(FramerError::MaxLength);
                }
                Ok(Some(line))
            },
            None => {
                if self.buffer.len() > self.max_length {
                    self.buffer.clear();
                    Err(FramerError::MaxLength)
                } else {
                    Ok(None)
                }
            },
        }
    }
}

} // verus!
