//! The saver's bookkeeping: when a chunk of records is due, which file it
//! goes to, and how many records it takes.
//!
//! The records themselves wait in a durable FIFO buffer that the caller owns.
//! For each [`SaverStep::Write`] the caller pops exactly `count` records from
//! that buffer (an empty pop is a fatal bug), and writes them as a JSON array
//! to [`chunk_file`], refusing to overwrite an existing file.
use crate::text::{chars_of, decimal, push_all, push_decimal, string_of};
use vstd::prelude::*;

verus! {

/// How the saver batches records.
pub struct Config {
    /// How long to wait when fewer than `chunk_size` records are buffered.
    pub check_interval_secs: u64,
    /// Records per output file.
    pub chunk_size: usize,
    /// The index of the first file to write.
    pub start_chunk: usize,
}

/// What the saver's loop does next.
#[derive(Debug, Clone, Copy, PartialEq, Eq, Structural)]
pub enum SaverStep {
    /// Sleep this many seconds, then poll again.
    Wait(u64),
    /// Pop `count` records from the buffer and write them as chunk `chunk`.
    Write { chunk: usize, count: usize },
}

pub struct Saver {
    /// Eventually consistent with the buffer's length.
    queue_len: usize,
    config: Config,
    chunk: usize,
    /// Records taken from the buffer so far.
    written: Ghost<nat>,
    /// Records that were in the buffer at the start or added since.
    added: Ghost<nat>,
}

/// The index of the first chunk when `existing_files` files are already in
/// the output directory.
pub fn first_chunk(existing_files: usize) -> (r: usize)
    requires
        existing_files < usize::MAX,
    ensures
        r == existing_files + 1,
{
    existing_files + 1
}

/// The file that chunk `chunk` is written to: `<save_path>/<chunk>.json`.
pub open spec fn chunk_path(save_path: Seq<char>, chunk: nat) -> Seq<char> {
    save_path + seq!['/'] + decimal(chunk) + seq!['.', 'j', 's', 'o', 'n']
}

pub fn chunk_file(save_path: &str, chunk: usize) -> (r: String)
    ensures
        r@ == chunk_path(save_path@, chunk as nat),
{
    let mut v = chars_of(save_path);
    v.push('/');
    push_decimal(chunk as u64, &mut v);
    let ext = ['.', 'j', 's', 'o', 'n'];
    push_all(&mut v, &ext);
    assert(ext@ =~= seq!['.', 'j', 's', 'o', 'n']);
    assert(v@ =~= chunk_path(save_path@, chunk as nat));
    string_of(v.as_slice())
}

impl Saver {
    pub closed spec fn pending(&self) -> nat {
        self.queue_len as nat
    }

    pub closed spec fn next_chunk(&self) -> nat {
        self.chunk as nat
    }

    pub closed spec fn start(&self) -> nat {
        self.config.start_chunk as nat
    }

    pub closed spec fn chunk_size(&self) -> nat {
        self.config.chunk_size as nat
    }

    pub closed spec fn interval(&self) -> u64 {
        self.config.check_interval_secs
    }

    /// Records taken from the buffer so far, over all chunks.
    pub closed spec fn written(&self) -> nat {
        self.written@
    }

    /// Records that were buffered at the start or added since.
    pub closed spec fn added(&self) -> nat {
        self.added@
    }

    pub closed spec fn wf(&self) -> bool {
        &&& self.config.start_chunk <= self.chunk
        &&& self.written@ == (self.chunk - self.config.start_chunk) * self.config.chunk_size
        &&& self.queue_len + self.written@ <= self.added@
    }

    /// Starts counting from the `queue_len` records already buffered.
    pub fn new(config: Config, queue_len: usize) -> (r: Saver)
        ensures
            r.wf(),
            r.pending() == queue_len,
            r.next_chunk() == config.start_chunk,
            r.start() == config.start_chunk,
            r.chunk_size() == config.chunk_size,
            r.interval() == config.check_interval_secs,
            r.written() == 0,
            r.added() == queue_len,
    {
        let chunk = config.start_chunk;
        Saver { queue_len, config, chunk, written: Ghost(0), added: Ghost(queue_len as nat) }
    }

    /// Counts one record that the caller has appended to the buffer.
    pub fn add(&mut self)
        requires
            old(self).wf(),
        ensures
            final(self).wf(),
            final(self).pending() == if old(self).pending() < usize::MAX {
                old(self).pending() + 1
            } else {
                old(self).pending()
            },
            final(self).added() == old(self).added() + 1,
            final(self).next_chunk() == old(self).next_chunk(),
            final(self).start() == old(self).start(),
            final(self).chunk_size() == old(self).chunk_size(),
            final(self).interval() == old(self).interval(),
            final(self).written() == old(self).written(),
    {
        self.queue_len = self.queue_len.saturating_add(1);
        self.added = Ghost(self.added@ + 1);
    }

    /// One turn of the saver's loop: decides what it does next. When a whole chunk is buffered (and a
    /// chunk index is left), the chunk is taken: the counter drops by the
    /// chunk size and the next index is handed out. Otherwise the saver waits.
    pub fn run(&mut self) -> (r: SaverStep)
        requires
            old(self).wf(),
        ensures
            final(self).wf(),
            final(self).start() == old(self).start(),
            final(self).chunk_size() == old(self).chunk_size(),
            final(self).interval() == old(self).interval(),
            final(self).added() == old(self).added(),
            if old(self).pending() >= old(self).chunk_size() && old(self).next_chunk() < usize::MAX {
                &&& r == SaverStep::Write { chunk: old(self).next_chunk() as usize, count: old(self).chunk_size() as usize }
                &&& final(self).pending() == old(self).pending() - old(self).chunk_size()
                &&& final(self).next_chunk() == old(self).next_chunk() + 1
                &&& final(self).written() == old(self).written() + old(self).chunk_size()
            } else {
                &&& r == SaverStep::Wait(old(self).interval())
                &&& final(self).pending() == old(self).pending()
                &&& final(self).next_chunk() == old(self).next_chunk()
                &&& final(self).written() == old(self).written()
            },
    {
        let size = self.config.chunk_size;
        if self.queue_len >= size && self.chunk < usize::MAX {
            let chunk = self.chunk;
            self.queue_len = self.queue_len - size;
            self.chunk = chunk + 1;
            self.written = Ghost(self.written@ + size as nat);
            proof {
                assert((chunk + 1 - self.config.start_chunk) * size == (chunk - self.config.start_chunk)
                    * size + size) by (nonlinear_arith)
                    requires
                        chunk >= self.config.start_chunk,
                ;
            }
            SaverStep::Write { chunk, count: size }
        } else {
            SaverStep::Wait(self.config.check_interval_secs)
        }
    }
}

/// The positions, in buffer order, of the records that chunk `k` holds.
pub open spec fn chunk_span(start: nat, chunk_size: nat, k: nat) -> (nat, nat) {
    (((k - start) * chunk_size) as nat, ((k - start + 1) * chunk_size) as nat)
}

/// The chunks written so far hold, one after the other, the first
/// `written()` records of the buffer, each exactly `chunk_size` of them, and
/// no more records than were ever added.
pub proof fn lemma_chunks_are_prefix(s: Saver, k: nat)
    requires
        s.wf(),
        s.start() <= k < s.next_chunk(),
    ensures
        chunk_span(s.start(), s.chunk_size(), s.start()).0 == 0,
        chunk_span(s.start(), s.chunk_size(), k).1 == chunk_span(s.start(), s.chunk_size(), k + 1).0,
        chunk_span(s.start(), s.chunk_size(), k).1 - chunk_span(s.start(), s.chunk_size(), k).0 == s.chunk_size(),
        s.written() == (s.next_chunk() - s.start()) * s.chunk_size(),
        s.written() <= s.added(),
{
    let a = (k - s.start()) as int;
    let c = s.chunk_size() as int;
    assert((a + 1) * c == a * c + c) by (nonlinear_arith);
    assert(a * c >= 0) by (nonlinear_arith)
        requires
            a >= 0,
            c >= 0,
    ;
}

} // verus!
