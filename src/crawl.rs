//! One crawl step: from a fetched page to the record to save and the links to
//! enqueue, and the deduplication that decides which links are new. Also the
//! keys of the URL frontier, whose byte order is the order of insertion.
use crate::bloom::{Filter, SetStep, image_items, image_sound, wal_entry};
use crate::extract::{
    entry_view, get_links, url_parse, get_training_input, get_training_output, outlinks, output_entries,
    training_input, Link, Node, Selected,
};
use crate::globals::{Rules, Save, SelectorValue};
use vstd::prelude::*;

verus! {

/// The 64-bit MetroHash of the UTF-8 bytes of `s`.
pub uninterp spec fn url_fingerprint(s: Seq<char>) -> u64;

/// Relies on `fasthash::metro::hash64` over the URL's bytes.
#[verifier::external_body]
fn fingerprint(url: &str) -> (r: u64)
    ensures
        r == url_fingerprint(url@),
{
    fasthash::metro::hash64(url.as_bytes())
}

/// Checks `url` against the filter and, where it was not seen, sets its
/// fingerprint. `None`: already seen, nothing changed. `Some(step)`: new; the
/// caller persists `step` and pushes the URL to the frontier.
pub fn add_url(filter: &mut Filter, url: &Link, now: u64) -> (r: Option<SetStep>)
    requires
        old(filter).wf(),
    ensures
        final(filter).wf(),
        final(filter).contents().contains(url_fingerprint(url.href@)),
        old(filter).contents().subset_of(final(filter).contents()),
        r is None <==> old(filter).contents().contains(url_fingerprint(url.href@)),
        r is None ==> *final(filter) == *old(filter),
        r matches Some(step) ==> {
            &&& step.wal_line@ == wal_entry(url_fingerprint(url.href@)).push('\n')
            &&& (step.checkpoint is Some <==> old(filter).due(now))
            &&& (step.checkpoint matches Some(b) ==> image_sound(b@) && image_items(b@) == final(filter).contents())
        },
{
    let fp = fingerprint(url.href.as_str());
    if filter.check(fp) {
        None
    } else {
        Some(filter.set(fp, now))
    }
}

/// The text that `bytes` spell in UTF-8, where they are valid UTF-8.
pub uninterp spec fn utf8_of(bytes: Seq<u8>) -> Option<Seq<char>>;

/// Relies on `String::from_utf8`, which fails exactly on bytes that are not
/// valid UTF-8.
#[verifier::external_body]
fn decode_utf8(bytes: Vec<u8>) -> (r: Option<String>)
    ensures
        r is None <==> utf8_of(bytes@) is None,
        r matches Some(s) ==> utf8_of(bytes@) == Some(s@),
{
    String::from_utf8(bytes).ok()
}

/// What a worker does next.
pub enum WorkerStep {
    /// The frontier was empty: sleep this many milliseconds, then pop again.
    Sleep(u64),
    /// Fetch and process this URL.
    Process(Link),
    /// The popped entry is not a URL: the stored state is corrupt.
    Fatal,
}

/// One turn of a worker's loop, given what popping the lowest frontier entry
/// gave.
pub fn worker_step(popped: Option<Vec<u8>>, worker_check_ms: u64) -> (r: WorkerStep)
    ensures
        match popped {
            None => r matches WorkerStep::Sleep(ms) && ms == worker_check_ms,
            Some(b) => match utf8_of(b@) {
                None => r is Fatal,
                Some(s) => match url_parse(s) {
                    None => r is Fatal,
                    Some(u) => r matches WorkerStep::Process(l) && l@ == u,
                },
            },
        },
{
    match popped {
        None => WorkerStep::Sleep(worker_check_ms),
        Some(bytes) => match decode_utf8(bytes) {
            None => WorkerStep::Fatal,
            Some(s) => match Link::parse(s.as_str()) {
                None => WorkerStep::Fatal,
                Some(l) => WorkerStep::Process(l),
            },
        },
    }
}

/// The start URLs of the label map's rules, parsed in order; `Err(i)` names
/// the first that does not parse.
pub fn seed_links(roots: &Vec<String>) -> (r: Result<Vec<Link>, usize>)
    ensures
        r matches Ok(ls) ==> ls@.len() == roots@.len() && forall|i: int|
            0 <= i < roots@.len() ==> url_parse(#[trigger] roots@[i]@) == Some(ls@[i]@),
        r matches Err(i) ==> i < roots@.len() && url_parse(roots@[i as int]@) is None && forall|j: int|
            0 <= j < i ==> url_parse(#[trigger] roots@[j]@) is Some,
{
    let mut out: Vec<Link> = Vec::new();
    let mut i: usize = 0;
    while i < roots.len()
        invariant
            i <= roots@.len(),
            out@.len() == i,
            forall|k: int| 0 <= k < i ==> url_parse(#[trigger] roots@[k]@) == Some(out@[k]@),
        decreases roots.len() - i,
    {
        match Link::parse(roots[i].as_str()) {
            Some(l) => {
                out.push(l);
            },
            None => {
                return Err(i);
            },
        }
        i = i + 1;
    }
    Ok(out)
}

/// What a page yields.
pub struct Page {
    /// The record to save, present when some label was extracted.
    pub save: Option<Save>,
    /// The links to offer to the frontier.
    pub links: Vec<Link>,
}

#[derive(Debug, Clone, Copy, PartialEq, Eq, Structural)]
pub enum ProcessError {
    /// The page has no training input.
    NoInput,
}

/// Processes the page fetched from `url`: `raw` is its text, `root` its tree,
/// `sels[i][j]` what the selector of label `j` of rule `i` found, and `hrefs`
/// the `href` of each of its `a` elements.
pub fn process_page(
    rules: &Rules,
    url: &Link,
    raw: String,
    root: &Node,
    sels: &Vec<Vec<Selected>>,
    hrefs: &Vec<String>,
) -> (r: Result<Page, ProcessError>)
    ensures
        r is Err <==> training_input(*root).len() == 0,
        r matches Ok(p) ==> {
            &&& p.links@.map_values(|l: Link| l@) == outlinks(
                hrefs@.map_values(|h: String| h@),
                url.scheme@,
                rules.domain@,
                rules.exclude_view(),
            )
            &&& (p.save is Some <==> output_entries(
                rules.rules@,
                url.path@,
                sels@.map_values(|v: Vec<Selected>| v@),
            ).len() > 0)
            &&& (p.save matches Some(s) ==> {
                &&& s.url@ == url.href@
                &&& s.raw == raw
                &&& s.input@ == training_input(*root)
                &&& s.labels@.map_values(|e: (String, SelectorValue)| entry_view(e)) == output_entries(
                    rules.rules@,
                    url.path@,
                    sels@.map_values(|v: Vec<Selected>| v@),
                )
            })
        },
{
    let input = match get_training_input(root) {
        Some(t) => t,
        None => {
            return Err(ProcessError::NoInput);
        },
    };
    let labels = get_training_output(rules, url.path.as_str(), sels);
    let save = if labels.len() > 0 {
        Some(Save { url: url.href.clone(), raw, input, labels })
    } else {
        None
    };
    let links = get_links(hrefs, url.scheme.as_str(), rules);
    Ok(Page { save, links })
}

/// `k` bytes holding `n` in base 256, most significant first.
pub open spec fn be_bytes(n: nat, k: nat) -> Seq<u8>
    decreases k,
{
    if k == 0 {
        Seq::empty()
    } else {
        be_bytes(n / 256, (k - 1) as nat).push((n % 256) as u8)
    }
}

/// Byte-wise lexicographic order on sequences of one length.
pub open spec fn lex_less(a: Seq<u8>, b: Seq<u8>) -> bool
    decreases a.len(),
{
    if a.len() == 0 || a.len() != b.len() {
        false
    } else {
        lex_less(a.drop_last(), b.drop_last()) || (a.drop_last() == b.drop_last() && a.last()
            < b.last())
    }
}

pub open spec fn pow256(k: nat) -> nat
    decreases k,
{
    if k == 0 {
        1
    } else {
        256 * pow256((k - 1) as nat)
    }
}

fn push_be(n: u64, k: usize, out: &mut Vec<u8>)
    ensures
        final(out)@ == old(out)@ + be_bytes(n as nat, k as nat),
    decreases k,
{
    if k > 0 {
        push_be(n / 256, k - 1, out);
        out.push((n % 256) as u8);
        assert(old(out)@ + be_bytes(n as nat, k as nat) =~= old(out)@ + be_bytes((n / 256) as nat, (k - 1) as nat) + seq![(n % 256) as u8]);
    } else {
        assert(old(out)@ + be_bytes(n as nat, 0) =~= old(out)@);
    }
}

/// The frontier key of entry `id`: its eight bytes, big-endian.
pub fn frontier_key(id: u64) -> (r: Vec<u8>)
    ensures
        r@ == be_bytes(id as nat, 8),
{
    let mut out: Vec<u8> = Vec::new();
    push_be(id, 8, &mut out);
    assert(out@ =~= be_bytes(id as nat, 8));
    out
}

proof fn lemma_be_len(n: nat, k: nat)
    ensures
        be_bytes(n, k).len() == k,
    decreases k,
{
    if k > 0 {
        lemma_be_len(n / 256, (k - 1) as nat);
    }
}

proof fn lemma_be_order(n: nat, m: nat, k: nat)
    requires
        n < m < pow256(k),
    ensures
        lex_less(be_bytes(n, k), be_bytes(m, k)),
    decreases k,
{
    lemma_be_len(n, k);
    lemma_be_len(m, k);
    if k == 0 {
        assert(false);
    } else {
        let p = pow256((k - 1) as nat);
        assert(m / 256 < p) by (nonlinear_arith)
            requires
                m < 256 * p,
        ;
        assert(n / 256 <= m / 256) by (nonlinear_arith)
            requires
                n < m,
        ;
        let a = be_bytes(n, k);
        let b = be_bytes(m, k);
        assert(a.drop_last() =~= be_bytes(n / 256, (k - 1) as nat));
        assert(b.drop_last() =~= be_bytes(m / 256, (k - 1) as nat));
        if n / 256 < m / 256 {
            lemma_be_order(n / 256, m / 256, (k - 1) as nat);
        } else {
            assert(n % 256 < m % 256) by (nonlinear_arith)
                requires
                    n < m,
                    n / 256 == m / 256,
            ;
        }
    }
}

/// Frontier keys sort as their ids do: an entry pushed with a smaller id is
/// popped (lowest key first) before one with a larger id.
pub proof fn lemma_frontier_fifo(a: u64, b: u64)
    requires
        a < b,
    ensures
        lex_less(be_bytes(a as nat, 8), be_bytes(b as nat, 8)),
{
    assert(pow256(0) == 1);
    assert(pow256(1) == 0x100);
    assert(pow256(2) == 0x1_0000);
    assert(pow256(3) == 0x100_0000);
    assert(pow256(4) == 0x1_0000_0000);
    assert(pow256(5) == 0x100_0000_0000);
    assert(pow256(6) == 0x1_0000_0000_0000);
    assert(pow256(7) == 0x100_0000_0000_0000);
    assert(pow256(8) == 0x1_0000_0000_0000_0000);
    lemma_be_order(a as nat, b as nat, 8);
}

} // verus!
