use vstd::prelude::*;

use crate::block::{is_metadata, is_tar_header};

verus! {

/// The byte that ends a line.
pub const NEWLINE: u8 = 10;

/// The byte contents of a sequence of lines.
pub open spec fn views(lines: Seq<Vec<u8>>) -> Seq<Seq<u8>> {
    lines.map_values(|l: Vec<u8>| l@)
}

/// Scans `data` with `rest` as the pending partial line: the lines that newlines in `data`
/// complete, in order, and the new pending partial line.
pub open spec fn scan(rest: Seq<u8>, data: Seq<u8>) -> (Seq<Seq<u8>>, Seq<u8>)
    decreases data.len(),
{
    if data.len() == 0 {
        (seq![], rest)
    } else {
        let prev = scan(rest, data.drop_last());
        if data.last() == NEWLINE {
            (prev.0.push(prev.1), seq![])
        } else {
            (prev.0, prev.1.push(data.last()))
        }
    }
}

/// The line that a flush emits: the pending bytes, if there are any.
pub open spec fn flushed(rest: Seq<u8>) -> Seq<Seq<u8>> {
    if rest.len() > 0 {
        seq![rest]
    } else {
        seq![]
    }
}

/// All lines of a plain stream: the newline-terminated ones and a final unterminated one.
pub open spec fn plain_lines(data: Seq<u8>) -> Seq<Seq<u8>> {
    let s = scan(seq![], data);
    s.0 + flushed(s.1)
}

/// One block of an archive stream: a metadata block flushes the pending line and
/// contributes nothing itself; a payload block is scanned for lines.
pub open spec fn archive_step(rest: Seq<u8>, block: Seq<u8>) -> (Seq<Seq<u8>>, Seq<u8>) {
    if is_metadata(block) {
        (flushed(rest), seq![])
    } else {
        scan(rest, block)
    }
}

/// Runs a sequence of archive blocks from the pending line `rest`.
pub open spec fn archive_run(rest: Seq<u8>, blocks: Seq<Seq<u8>>) -> (Seq<Seq<u8>>, Seq<u8>)
    decreases blocks.len(),
{
    if blocks.len() == 0 {
        (seq![], rest)
    } else {
        let prev = archive_run(rest, blocks.drop_last());
        let step = archive_step(prev.1, blocks.last());
        (prev.0 + step.0, step.1)
    }
}

/// All lines of an archive stream given as its blocks, the final flush included.
pub open spec fn archive_lines(blocks: Seq<Seq<u8>>) -> Seq<Seq<u8>> {
    let s = archive_run(seq![], blocks);
    s.0 + flushed(s.1)
}

/// Streaming line splitter over the decompressed bytes of one file. It holds the bytes
/// of the line that is not complete yet.
pub struct LineSplitter {
    remainder: Vec<u8>,
}

impl View for LineSplitter {
    type V = Seq<u8>;

    closed spec fn view(&self) -> Seq<u8> {
        self.remainder@
    }
}

proof fn lemma_views_push(lines: Seq<Vec<u8>>, line: Vec<u8>)
    ensures
        views(lines.push(line)) == views(lines).push(line@),
{
    assert(views(lines.push(line)) =~= views(lines).push(line@));
}

impl LineSplitter {
    /// A splitter with no pending bytes.
    pub fn new() -> (r: LineSplitter)
        ensures
            r@ == Seq::<u8>::empty(),
    {
        LineSplitter { remainder: Vec::new() }
    }

    /// The pending bytes of the line that is not complete yet.
    pub fn pending(&self) -> (r: &[u8])
        ensures
            r@ == self@,
    {
        self.remainder.as_slice()
    }

    /// Feeds bytes of the stream; returns the lines that they complete, in order.
    pub fn push_bytes(&mut self, data: &[u8]) -> (lines: Vec<Vec<u8>>)
        ensures
            (views(lines@), final(self)@) == scan(old(self)@, data@),
    {
        let mut lines: Vec<Vec<u8>> = Vec::new();
        let mut i: usize = 0;
        while i < data.len()
            invariant
                0 <= i <= data@.len(),
                (views(lines@), self.remainder@) == scan(old(self)@, data@.subrange(0, i as int)),
            decreases data@.len() - i,
        {
            let b = data[i];
            assert(data@.subrange(0, i + 1).drop_last() =~= data@.subrange(0, i as int));
            if b == NEWLINE {
                let mut line: Vec<u8> = Vec::new();
                std::mem::swap(&mut line, &mut self.remainder);
                proof {
                    lemma_views_push(lines@, line);
                }
                lines.push(line);
            } else {
                self.remainder.push(b);
            }
            i = i + 1;
        }
        assert(data@.subrange(0, data@.len() as int) =~= data@);
        lines
    }

    /// Ends the current line where it stands: returns the pending bytes as one line if
    /// there are any, and leaves nothing pending.
    pub fn flush(&mut self) -> (lines: Vec<Vec<u8>>)
        ensures
            views(lines@) == flushed(old(self)@),
            final(self)@ == Seq::<u8>::empty(),
    {
        let mut lines: Vec<Vec<u8>> = Vec::new();
        if self.remainder.len() > 0 {
            let mut line: Vec<u8> = Vec::new();
            std::mem::swap(&mut line, &mut self.remainder);
            lines.push(line);
            assert(views(lines@) =~= flushed(old(self)@));
        } else {
            assert(views(lines@) =~= flushed(old(self)@));
        }
        lines
    }

    /// Feeds one archive block (the bytes actually read, at most one full block): a
    /// metadata block flushes the pending line and yields nothing of its own; any other
    /// block is scanned for lines.
    pub fn push_block(&mut self, block: &[u8]) -> (lines: Vec<Vec<u8>>)
        ensures
            (views(lines@), final(self)@) == archive_step(old(self)@, block@),
    {
        if is_tar_header(block) {
            self.flush()
        } else {
            self.push_bytes(block)
        }
    }
}

} // verus!
