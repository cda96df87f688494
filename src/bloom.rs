//! Fingerprint filter: a bloom filter whose every `set` is first written to a
//! write-ahead log, with periodic checkpoints of the whole filter.
//!
//! The filter here holds the in-memory state and makes every decision; the
//! caller owns the files. It appends each [`SetStep::wal_line`] to `wal.log`,
//! and writes each checkpoint image it is handed to `checkpoint.bincode`
//! (through a temporary file and a rename) before truncating `wal.log`.
use crate::text::{chars_of, decimal, parse_u64, parse_u64_spec, push_decimal, string_of};
use bloomfilter::Bloom;
use vstd::prelude::*;

verus! {

#[verifier::external_type_specification]
#[verifier::external_body]
#[verifier::reject_recursive_types(T)]
pub struct ExBloom<T: ?Sized>(Bloom<T>);

/// The fingerprints that `Bloom::check` reports as present in `b`.
pub uninterp spec fn bloom_items(b: Bloom<u64>) -> Set<u64>;

/// The number of bits that `b` hashes into (`Bloom::number_of_bits`).
pub uninterp spec fn bloom_bit_count(b: Bloom<u64>) -> nat;

/// The length in bits of the bit vector that `b` holds.
pub uninterp spec fn bloom_vec_len(b: Bloom<u64>) -> nat;

/// The number of 32-bit blocks that store the bit vector of `b`.
pub uninterp spec fn bloom_block_count(b: Bloom<u64>) -> nat;

/// What bincode decodes from `bytes`, where it decodes to a `Bloom<u64>`:
/// the fingerprints the decoded filter reports, its bit count, the length of
/// its bit vector and the number of blocks that store that vector.
pub uninterp spec fn decoded_image(bytes: Seq<u8>) -> Option<(Set<u64>, nat, nat, nat)>;

/// A filter whose hashing stays inside its bit vector, and whose bit vector
/// stays inside its storage: on such a filter `Bloom::set` and `Bloom::check`
/// do not panic.
pub open spec fn bloom_sound(b: Bloom<u64>) -> bool {
    0 < bloom_bit_count(b) <= bloom_vec_len(b) <= 32 * bloom_block_count(b)
}

/// Whether a checkpoint image decodes to a sound filter.
pub open spec fn image_sound(bytes: Seq<u8>) -> bool {
    match decoded_image(bytes) {
        Some((_, bits, len, blocks)) => 0 < bits <= len <= 32 * blocks,
        None => false,
    }
}

/// The fingerprints that the filter decoded from a checkpoint image reports.
pub open spec fn image_items(bytes: Seq<u8>) -> Set<u64> {
    match decoded_image(bytes) {
        Some((items, _, _, _)) => items,
        None => Set::empty(),
    }
}

/// Relies on `Bloom::new`: all bits clear, so nothing is reported present;
/// `BitVec::from_elem` allocates enough blocks for the bits. It asserts that
/// both sizes are positive and that the size in bits fits both a `u64` and a
/// `usize`.
#[verifier::external_body]
fn bloom_new(bytes: usize, expected_entries: usize) -> (r: Bloom<u64>)
    requires
        bytes > 0,
        expected_entries > 0,
        bytes * 8 <= u64::MAX,
        bytes * 8 <= usize::MAX,
    ensures
        bloom_items(r) == Set::<u64>::empty(),
        bloom_bit_count(r) == bytes * 8,
        bloom_vec_len(r) == bytes * 8,
        32 * bloom_block_count(r) >= bytes * 8,
{
    Bloom::new(bytes, expected_entries)
}

/// Relies on `Bloom::set`: the item is reported present afterwards and no bit
/// is cleared; the sizes and the storage stay.
#[verifier::external_body]
fn bloom_set(b: &mut Bloom<u64>, x: u64)
    requires
        bloom_sound(*old(b)),
    ensures
        bloom_items(*old(b)).insert(x).subset_of(bloom_items(*final(b))),
        bloom_bit_count(*final(b)) == bloom_bit_count(*old(b)),
        bloom_vec_len(*final(b)) == bloom_vec_len(*old(b)),
        bloom_block_count(*final(b)) == bloom_block_count(*old(b)),
{
    b.set(&x)
}

/// Relies on `Bloom::check`.
#[verifier::external_body]
fn bloom_check(b: &Bloom<u64>, x: u64) -> (r: bool)
    requires
        bloom_sound(*b),
    ensures
        r == bloom_items(*b).contains(x),
{
    b.check(&x)
}

/// Relies on `Bloom::number_of_bits`.
#[verifier::external_body]
fn bloom_bits(b: &Bloom<u64>) -> (r: u64)
    ensures
        r == bloom_bit_count(*b),
{
    b.number_of_bits()
}

/// Relies on `Bloom::bit_vec` and `BitVec::len`.
#[verifier::external_body]
fn bloom_len(b: &Bloom<u64>) -> (r: usize)
    ensures
        r == bloom_vec_len(*b),
{
    b.bit_vec().len()
}

/// Relies on `Bloom::bit_vec` and `BitVec::storage` (blocks of `u32`).
#[verifier::external_body]
fn bloom_blocks(b: &Bloom<u64>) -> (r: usize)
    ensures
        r == bloom_block_count(*b),
{
    b.bit_vec().storage().len()
}

/// Relies on `bincode::serialize` of a `Bloom`: with the default options
/// (no size limit) every field serializes, so it does not fail, and decoding
/// the image gives back a filter with the same fields.
#[verifier::external_body]
fn encode_bloom(b: &Bloom<u64>) -> (r: Vec<u8>)
    ensures
        decoded_image(r@) == Some(
            (bloom_items(*b), bloom_bit_count(*b), bloom_vec_len(*b), bloom_block_count(*b)),
        ),
{
    bincode::serialize(b).unwrap()
}

/// Relies on `bincode::deserialize` of a `Bloom`.
#[verifier::external_body]
fn decode_bloom(bytes: &[u8]) -> (r: Option<Bloom<u64>>)
    ensures
        r is None <==> decoded_image(bytes@) is None,
        r matches Some(b) ==> decoded_image(bytes@) == Some(
            (bloom_items(b), bloom_bit_count(b), bloom_vec_len(b), bloom_block_count(b)),
        ),
{
    bincode::deserialize(bytes).ok()
}

/// How the filter is sized and how often it is checkpointed.
pub struct Config {
    /// Directory that holds `checkpoint.bincode` and `wal.log`.
    pub dir: String,
    pub checkpoint_secs: u64,
    /// Size of the bit array, in bytes.
    pub bytes: usize,
    pub expected_entries: usize,
}

#[derive(Debug, Clone, Copy, PartialEq, Eq, Structural)]
pub enum FilterError {
    /// A new filter was asked for with a zero or oversized bit array or a zero
    /// entry count.
    Size,
    /// The checkpoint image does not decode to a usable filter.
    Decode,
}

pub struct Filter {
    bloom: Bloom<u64>,
    checkpoint_secs: u64,
    /// When the last checkpoint was taken, in seconds.
    prev_checkpoint: u64,
    /// The fingerprints logged since the last checkpoint.
    wal: Ghost<Seq<u64>>,
}

/// What the caller persists after a `set`.
pub struct SetStep {
    /// The line to append to the write-ahead log.
    pub wal_line: String,
    /// A checkpoint image to write, after which the log is truncated.
    pub checkpoint: Option<Vec<u8>>,
}

/// A filter opened over its files.
pub struct Opened {
    pub filter: Filter,
    /// An image to write as the new checkpoint, present when the log held
    /// lines; the log is truncated in any case.
    pub checkpoint: Option<Vec<u8>>,
}

/// The text of the log line for `fp`, without its newline.
pub open spec fn wal_entry(fp: u64) -> Seq<char> {
    decimal(fp as nat)
}

/// The fingerprints that the lines of a log spell.
pub open spec fn wal_fingerprints(lines: Seq<Seq<char>>) -> Set<u64> {
    Set::new(|x: u64| exists|i: int| 0 <= i < lines.len() && parse_u64_spec(#[trigger] lines[i]) == Some(x))
}

/// Whether a filter is big enough to be built from this configuration.
pub open spec fn sizes_ok(c: &Config) -> bool {
    c.bytes > 0 && c.expected_entries > 0 && c.bytes * 8 <= u64::MAX && c.bytes * 8 <= usize::MAX
}

impl Filter {
    pub closed spec fn contents(&self) -> Set<u64> {
        bloom_items(self.bloom)
    }

    pub closed spec fn wal_entries(&self) -> Seq<u64> {
        self.wal@
    }

    pub closed spec fn last_checkpoint(&self) -> u64 {
        self.prev_checkpoint
    }

    pub closed spec fn interval(&self) -> u64 {
        self.checkpoint_secs
    }

    pub closed spec fn wf(&self) -> bool {
        &&& bloom_sound(self.bloom)
        &&& forall|i: int| 0 <= i < self.wal@.len() ==> self.contents().contains(#[trigger] self.wal@[i])
    }

    /// Whether a checkpoint is due at time `now`.
    pub open spec fn due(&self, now: u64) -> bool {
        now > self.last_checkpoint() + self.interval()
    }

    /// What a filter reopened from a checkpoint `image` (if any) and a log of
    /// `lines` reports at the least.
    pub open spec fn reopened(&self, image: Option<Seq<u8>>, lines: Seq<Seq<char>>) -> bool {
        &&& self.wf()
        &&& wal_fingerprints(lines).subset_of(self.contents())
        &&& (image matches Some(b) ==> image_items(b).subset_of(self.contents()))
        &&& self.wal_entries() == Seq::<u64>::empty()
    }

    /// Opens the filter from its checkpoint image (if one exists) and the lines
    /// of its write-ahead log. Every line that spells a fingerprint is
    /// replayed; other lines are skipped. Where the log held any line, a new
    /// checkpoint image is handed back. A new filter is made only where there
    /// is no image; an image that does not decode to a sound filter is refused.
    pub fn new(c: &Config, image: Option<Vec<u8>>, wal_lines: &Vec<String>, now: u64) -> (r: Result<Opened, FilterError>)
        ensures
            r matches Ok(o) ==> {
                &&& o.filter.reopened(
                    match image {
                        Some(b) => Some(b@),
                        None => None,
                    },
                    wal_lines@.map_values(|l: String| l@),
                )
                &&& o.filter.last_checkpoint() == now
                &&& o.filter.interval() == c.checkpoint_secs
                &&& (o.checkpoint is Some <==> wal_lines@.len() > 0)
                &&& (o.checkpoint matches Some(b) ==> image_sound(b@) && image_items(b@) == o.filter.contents())
                &&& (wal_lines@.len() == 0 ==> o.filter.contents() == match image {
                    Some(b) => image_items(b@),
                    None => Set::<u64>::empty(),
                })
            },
            r is Ok <==> match image {
                Some(b) => image_sound(b@),
                None => sizes_ok(c),
            },
            r == Err::<Opened, FilterError>(FilterError::Size) <==> (image is None && !sizes_ok(c)),
            r == Err::<Opened, FilterError>(FilterError::Decode) <==> (image matches Some(b) && !image_sound(b@)),
    {
        let mut bloom = match image {
            Some(bytes) => {
                match decode_bloom(bytes.as_slice()) {
                    Some(b) => {
                        let bits = bloom_bits(&b);
                        let len = bloom_len(&b);
                        let blocks = bloom_blocks(&b);
                        if bits == 0 || bits as u128 > len as u128 || len as u128 > 32 * (blocks as u128) {
                            return Err(FilterError::Decode);
                        }
                        b
                    },
                    None => {
                        return Err(FilterError::Decode);
                    },
                }
            },
            None => {
                if c.bytes == 0 || c.expected_entries == 0 || c.bytes as u128 * 8 > u64::MAX as u128 || c.bytes > usize::MAX / 8 {
                    return Err(FilterError::Size);
                }
                bloom_new(c.bytes, c.expected_entries)
            },
        };
        let ghost base = bloom_items(bloom);
        let ghost lines = wal_lines@.map_values(|l: String| l@);
        let mut i: usize = 0;
        while i < wal_lines.len()
            invariant
                i <= wal_lines@.len(),
                lines == wal_lines@.map_values(|l: String| l@),
                bloom_sound(bloom),
                base.subset_of(bloom_items(bloom)),
                i == 0 ==> bloom_items(bloom) == base,
                forall|x: u64|
                    (exists|k: int| 0 <= k < i && parse_u64_spec(#[trigger] lines[k]) == Some(x))
                        ==> bloom_items(bloom).contains(x),
            decreases wal_lines.len() - i,
        {
            let line = chars_of(wal_lines[i].as_str());
            match parse_u64(line.as_slice()) {
                Some(fp) => {
                    bloom_set(&mut bloom, fp);
                },
                None => {},
            }
            i = i + 1;
        }
        let checkpoint = if wal_lines.len() > 0 {
            Some(encode_bloom(&bloom))
        } else {
            None
        };
        let filter = Filter {
            bloom,
            checkpoint_secs: c.checkpoint_secs,
            prev_checkpoint: now,
            wal: Ghost(Seq::empty()),
        };
        proof {
            assert forall|x: u64| wal_fingerprints(lines).contains(x) implies filter.contents().contains(x) by {
                let k = choose|k: int| 0 <= k < lines.len() && parse_u64_spec(#[trigger] lines[k]) == Some(x);
            }
        }
        Ok(Opened { filter, checkpoint })
    }

    /// Records `fp`: the log line for it, the bit in memory, and a checkpoint
    /// when the interval since the last one has passed at time `now`.
    pub fn set(&mut self, fp: u64, now: u64) -> (r: SetStep)
        requires
            old(self).wf(),
        ensures
            final(self).wf(),
            old(self).contents().insert(fp).subset_of(final(self).contents()),
            final(self).interval() == old(self).interval(),
            r.wal_line@ == wal_entry(fp).push('\n'),
            r.checkpoint is Some <==> old(self).due(now),
            r.checkpoint matches Some(b) ==> image_sound(b@) && image_items(b@) == final(self).contents(),
            if old(self).due(now) {
                &&& final(self).wal_entries() == Seq::<u64>::empty()
                &&& final(self).last_checkpoint() == now
            } else {
                &&& final(self).wal_entries() == old(self).wal_entries().push(fp)
                &&& final(self).last_checkpoint() == old(self).last_checkpoint()
            },
    {
        let mut line: Vec<char> = Vec::new();
        push_decimal(fp, &mut line);
        line.push('\n');
        bloom_set(&mut self.bloom, fp);
        self.wal = Ghost(self.wal@.push(fp));
        proof {
            assert forall|i: int| 0 <= i < self.wal@.len() implies self.contents().contains(#[trigger] self.wal@[i]) by {
                if i < self.wal@.len() - 1 {
                    assert(old(self).wal@[i] == self.wal@[i]);
                }
            }
        }
        let due = match self.prev_checkpoint.checked_add(self.checkpoint_secs) {
            Some(t) => now > t,
            None => false,
        };
        let checkpoint = if due {
            self.prev_checkpoint = now;
            self.wal = Ghost(Seq::empty());
            Some(encode_bloom(&self.bloom))
        } else {
            None
        };
        SetStep { wal_line: string_of(line.as_slice()), checkpoint }
    }

    /// Whether `fp` may have been set: never false for a fingerprint that was.
    pub fn check(&self, fp: u64) -> (r: bool)
        requires
            self.wf(),
        ensures
            r == self.contents().contains(fp),
    {
        bloom_check(&self.bloom, fp)
    }
}

/// A fingerprint that was set survives a restart before the next checkpoint:
/// its log line, replayed, makes the reopened filter report it.
pub proof fn lemma_set_survives_restart(
    fp: u64,
    image: Option<Seq<u8>>,
    lines: Seq<Seq<char>>,
    i: int,
    reopened: Filter,
)
    requires
        0 <= i < lines.len(),
        lines[i] == wal_entry(fp),
        reopened.reopened(image, lines),
    ensures
        reopened.contents().contains(fp),
{
    crate::text::lemma_decimal_round_trip(fp);
    assert(wal_fingerprints(lines).contains(fp));
}

/// A fingerprint that was set before a checkpoint survives a restart from
/// that checkpoint's image.
pub proof fn lemma_checkpoint_survives_restart(
    fp: u64,
    before: Filter,
    image: Seq<u8>,
    lines: Seq<Seq<char>>,
    reopened: Filter,
)
    requires
        before.contents().contains(fp),
        image_items(image) == before.contents(),
        reopened.reopened(Some(image), lines),
    ensures
        reopened.contents().contains(fp),
{
}

} // verus!
