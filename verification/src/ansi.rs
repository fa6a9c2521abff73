//! The message buffer a terminal byte stream edits: what each decoded
//! control event does to the accumulated text. Decoding the stream and
//! printing diagnostics happen outside; this module holds only the buffer
//! and the exact effect of each event on it.

use vstd::prelude::*;

verus! {

/// Backspace: the previous character is taken back.
pub const CTRL_BACKSPACE: u8 = 0x08;

/// Line feed: a new line starts.
pub const CTRL_LINE_FEED: u8 = 0x0a;

/// What a raw control byte does to the buffered text: backspace drops the
/// last character (of an empty buffer, nothing), a line feed appends a
/// newline, and every other control byte leaves the text alone.
pub open spec fn execute_model(s: Seq<char>, byte: u8) -> Seq<char> {
    if byte == CTRL_BACKSPACE {
        if s.len() > 0 {
            s.drop_last()
        } else {
            s
        }
    } else if byte == CTRL_LINE_FEED {
        s.push('\n')
    } else {
        s
    }
}

/// The text a terminal byte stream has accumulated.
pub struct Log {
    pub message: Vec<char>,
}

impl Log {
    /// An empty buffer.
    pub fn new() -> (r: Log)
        ensures
            r.message@ == Seq::<char>::empty(),
    {
        Log { message: Vec::new() }
    }

    /// A printable character is appended.
    pub fn print(&mut self, c: char)
        ensures
            final(self).message@ == old(self).message@.push(c),
    {
        self.message.push(c);
    }

    /// A raw control byte is applied: see `execute_model`.
    pub fn execute(&mut self, byte: u8)
        ensures
            final(self).message@ == execute_model(old(self).message@, byte),
    {
        if byte == CTRL_BACKSPACE {
            self.message.pop();
            return;
        }
        if byte == CTRL_LINE_FEED {
            self.message.push('\n');
        }
    }

    /// A control sequence is applied: an erase-in-display sequence (final
    /// byte `J`) with more than one parameter clears the whole buffer;
    /// every other sequence leaves it alone.
    pub fn csi_dispatch(&mut self, params_len: usize, c: char)
        ensures
            final(self).message@ == if c == 'J' && params_len > 1 {
                Seq::<char>::empty()
            } else {
                old(self).message@
            },
    {
        if c == 'J' && params_len > 1 {
            self.message.clear();
        }
    }
}

} // verus!
