use vstd::prelude::*;
use crate::util::{has_window, Subsequence};
use crate::wire::append_bytes;

verus! {

/// Relies on i64::to_ne_bytes: the eight bytes of `n` in this machine's byte
/// order (which order that is depends on the machine, so nothing more is stated).
#[verifier::external_body]
fn native_bytes(n: i64) -> (r: [u8; 8]) {
    n.to_ne_bytes()
}

/// An opaque run of bytes handed to or taken from a packet hook.
pub struct LuaBinary(pub Vec<u8>);

impl LuaBinary {
    /// How many bytes it holds.
    pub fn len(&self) -> (r: usize)
        ensures
            r == self.0@.len(),
    {
        self.0.len()
    }

    /// The byte at `index`, if there is one.
    pub fn get(&self, index: usize) -> (r: Option<u8>)
        ensures
            r == if index < self.0@.len() {
                Some(self.0@[index as int])
            } else {
                None::<u8>
            },
    {
        if index < self.0.len() {
            Some(self.0[index])
        } else {
            None
        }
    }

    /// Appends an integer handed over by a hook: its low eight bits when it is
    /// at most 255 (negative numbers included), else its eight bytes in this
    /// machine's byte order.
    pub fn push_integer(&mut self, n: i64)
        ensures
            n <= 255 ==> final(self).0@ == old(self).0@.push(n as u8),
            n > 255 ==> final(self).0@.len() == old(self).0@.len() + 8 && final(self).0@.subrange(
                0,
                old(self).0@.len() as int,
            ) == old(self).0@,
    {
        if n <= 255 {
            self.0.push(n as u8);
        } else {
            let bytes = native_bytes(n);
            append_bytes(&mut self.0, &bytes);
            assert(self.0@.subrange(0, old(self).0@.len() as int) =~= old(self).0@);
        }
    }

    /// Whether `needle` occurs in it as a contiguous run.
    pub fn contains(&self, needle: &[u8]) -> (r: bool)
        ensures
            r == has_window(self.0@, needle@),
    {
        self.0.subsequence(needle)
    }
}

} // verus!
