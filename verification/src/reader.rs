//! Exact-size chunk reads from the typescript bytes, through one reusable
//! buffer.

use vstd::prelude::*;

use crate::errors::ReplayError;

verus! {

/// Reads chunks of declared sizes out of the typescript stream. A single
/// growable buffer is reused across reads: it is resized to the requested
/// size before each read, so its previous contents are stale from then on.
pub struct ScriptChunkReader {
    /// The reusable buffer; after a successful read it holds exactly the
    /// freshly read bytes.
    pub buf: Vec<u8>,
}

impl ScriptChunkReader {
    /// A fresh reader with an empty buffer.
    pub fn new() -> (r: ScriptChunkReader)
        ensures
            r.buf@ == Seq::<u8>::empty(),
    {
        let buf: Vec<u8> = Vec::new();
        proof {
            assert(buf@ =~= Seq::<u8>::empty());
        }
        ScriptChunkReader { buf }
    }

    /// Reads exactly `n` bytes of `script` at `*cursor` into the buffer and
    /// advances the cursor; fails with a truncated-script error, changing
    /// nothing, when fewer than `n` bytes remain.
    pub fn read_chunk(&mut self, script: &Vec<u8>, cursor: &mut usize, n: usize) -> (r: Result<
        (),
        ReplayError,
    >)
        requires
            *old(cursor) <= script@.len(),
        ensures
            match r {
                Ok(()) => {
                    &&& *old(cursor) + n <= script@.len()
                    &&& *final(cursor) == *old(cursor) + n
                    &&& final(self).buf@ == script@.subrange(
                        *old(cursor) as int,
                        *old(cursor) + n,
                    )
                },
                Err(e) => {
                    &&& e == ReplayError::TruncatedScript
                    &&& *old(cursor) + n > script@.len()
                    &&& *final(cursor) == *old(cursor)
                    &&& *final(self) == *old(self)
                },
            },
    {
        if n > script.len() - *cursor {
            return Err(ReplayError::TruncatedScript);
        }
        self.buf.resize(n, 0);
        let start: usize = *cursor;
        let mut i: usize = 0;
        while i < n
            invariant
                i <= n,
                start + n <= script@.len(),
                script@.len() <= usize::MAX,
                self.buf@.len() == n,
                forall|k: int| 0 <= k < i ==> self.buf@[k] == script@[start + k],
            decreases n - i,
        {
            self.buf[i] = script[start + i];
            i = i + 1;
        }
        *cursor = start + n;
        proof {
            assert(self.buf@ =~= script@.subrange(start as int, start as int + n));
        }
        Ok(())
    }
}

} // verus!
