//! Proof-of-work: the search for a nonce, alone or shared out among
//! workers.

use crate::block::Block;
use crate::block::BlockHeader;
use crate::block::HeaderView;
use crate::block::meets_target;
use crate::bytes::hash_le;
use crate::digest::Sha256Hash;
use crate::error::ChainError;
use crate::error::ErrorView;
use rayon::iter::IntoParallelIterator;
use rayon::iter::ParallelIterator;
use vstd::prelude::*;

verus! {

/// The greatest difficulty that a target can show: all 256 bits of a hash.
pub const MAX_TARGET_BITS: u64 = 256;

/// The difficulty that `is_hash_valid` measures a hash by: the one given,
/// and 256 where that is more.
pub open spec fn clamped_difficulty(difficulty: u64) -> u32 {
    if difficulty <= MAX_TARGET_BITS {
        difficulty as u32
    } else {
        MAX_TARGET_BITS as u32
    }
}

/// Checks whether a hash, read as a big-endian number, is at most the
/// target of the difficulty; a difficulty above 256 counts as 256.
pub fn is_hash_valid(hash: &Sha256Hash, difficulty: u64) -> (ok: bool)
    ensures
        ok == meets_target(hash@, clamped_difficulty(difficulty)),
{
    let clamped: u32 = if difficulty <= MAX_TARGET_BITS {
        difficulty as u32
    } else {
        MAX_TARGET_BITS as u32
    };
    let target = Block::hash_to_target(&clamped);
    hash_le(hash, &target)
}

/// The timestamp for the block after one stamped `previous`: the clock's
/// reading where that is later, else the millisecond after `previous`.
pub fn next_timestamp(now: u64, previous: u64) -> (timestamp: u64)
    ensures
        timestamp == (if now > previous {
            now as int
        } else if previous < u64::MAX {
            previous + 1
        } else {
            previous as int
        }),
        previous < u64::MAX ==> timestamp > previous,
{
    if now > previous {
        now
    } else if previous < u64::MAX {
        previous + 1
    } else {
        previous
    }
}

/// Whether no nonce from `first` up to, but not including, `end` solves
/// the header.
pub open spec fn no_solution_in(header: HeaderView, first: int, end: int) -> bool {
    forall|n: u64| first <= n < end ==> !(#[trigger] header.with_nonce(n)).pow_valid()
}

fn with_nonce(header: &BlockHeader, nonce: u64) -> (h: BlockHeader)
    ensures
        h@ == header@.with_nonce(nonce),
{
    BlockHeader {
        height: header.height,
        timestamp: header.timestamp,
        previous_hash: header.previous_hash,
        merkle_root: header.merkle_root,
        difficulty: header.difficulty,
        nonce,
    }
}

fn solves(header: &BlockHeader, nonce: u64) -> (ok: bool)
    ensures
        ok == header@.with_nonce(nonce).pow_valid(),
{
    let candidate = with_nonce(header, nonce);
    let target = Block::hash_to_target(&candidate.difficulty);
    let hash = candidate.hash();
    hash_le(&hash, &target)
}

/// Searches the nonces from `first` to `last`, in order, for the first
/// one whose header hash meets the target.
pub fn search_nonces(header: &BlockHeader, first: u64, last: u64) -> (r: Option<u64>)
    requires
        first <= last,
    ensures
        match r {
            Some(nonce) => first <= nonce <= last && header@.with_nonce(nonce).pow_valid()
                && no_solution_in(header@, first as int, nonce as int),
            None => no_solution_in(header@, first as int, last + 1),
        },
{
    let mut nonce = first;
    loop
        invariant
            first <= nonce <= last,
            no_solution_in(header@, first as int, nonce as int),
        decreases last - nonce,
    {
        if solves(header, nonce) {
            return Some(nonce);
        }
        if nonce == last {
            return None;
        }
        nonce += 1;
    }
}

/// Mines a block: tries the nonces from zero upwards and returns the block
/// with the first one whose header hash meets the target. Fails where no
/// nonce does.
pub fn mine_block(block: Block) -> (r: Result<Block, ChainError>)
    ensures
        match r {
            Ok(mined) => mined@.transactions == block@.transactions && mined@.header
                == block@.header.with_nonce(mined.header.nonce) && mined@.header.pow_valid()
                && no_solution_in(block@.header, 0, mined.header.nonce as int),
            Err(e) => e@ == ErrorView::InvalidProofOfWork && no_solution_in(
                block@.header,
                0,
                u64::MAX + 1,
            ),
        },
{
    match search_nonces(&block.header, 0, u64::MAX) {
        Some(nonce) => {
            let header = with_nonce(&block.header, nonce);
            Ok(Block { header, transactions: block.transactions })
        },
        None => Err(ChainError::InvalidProofOfWork),
    }
}

/// The number of nonces in the range of every worker but the last.
pub open spec fn range_size(workers: int) -> int {
    u64::MAX as int / workers
}

/// The first nonce of the range of worker `w`.
pub open spec fn range_first(w: int, workers: int) -> int {
    w * range_size(workers)
}

/// The last nonce of the range of worker `w`; the last worker's range
/// runs to the end of the nonce space.
pub open spec fn range_last(w: int, workers: int) -> int {
    if w == workers - 1 {
        u64::MAX as int
    } else {
        (w + 1) * range_size(workers) - 1
    }
}

/// Whether the range of worker `w` holds a nonce that solves the header.
pub open spec fn range_has_solution(header: HeaderView, w: int, workers: int) -> bool {
    !no_solution_in(header, range_first(w, workers), range_last(w, workers) + 1)
}

/// The ranges of the workers are not empty, lie in the nonce space, follow
/// each other without a gap, start at zero and end at the last nonce: they
/// cut the nonce space into disjoint parts.
pub proof fn lemma_ranges_partition(workers: int)
    requires
        1 <= workers <= u64::MAX,
    ensures
        range_size(workers) >= 1,
        range_first(0, workers) == 0,
        range_last(workers - 1, workers) == u64::MAX,
        forall|w: int|
            0 <= w < workers ==> 0 <= #[trigger] range_first(w, workers) <= range_last(
                w,
                workers,
            ) <= u64::MAX,
        forall|w: int|
            0 <= w < workers - 1 ==> #[trigger] range_last(w, workers) + 1 == range_first(
                w + 1,
                workers,
            ),
{
    let size = range_size(workers);
    assert(size >= 1 && size * workers <= u64::MAX) by (nonlinear_arith)
        requires
            size == (u64::MAX as int) / workers,
            1 <= workers <= u64::MAX,
    ;
    assert forall|w: int| 0 <= w < workers implies 0 <= #[trigger] range_first(w, workers)
        <= range_last(w, workers) <= u64::MAX by {
        assert(0 <= w * size && w * size + size == (w + 1) * size && (w + 1) * size <= workers
            * size) by (nonlinear_arith)
            requires
                0 <= w < workers,
                size >= 1,
        ;
    }
    assert forall|w: int| 0 <= w < workers - 1 implies #[trigger] range_last(w, workers) + 1
        == range_first(w + 1, workers) by {}
}

/// The first and the last nonce of the range of worker `w`.
pub fn nonce_range(w: usize, workers: usize) -> (r: (u64, u64))
    requires
        w < workers,
    ensures
        r.0 == range_first(w as int, workers as int),
        r.1 == range_last(w as int, workers as int),
        r.0 <= r.1,
{
    proof {
        lemma_ranges_partition(workers as int);
    }
    let size: u64 = u64::MAX / (workers as u64);
    assert(0 <= w * size && (w + 1) * size <= workers * size && workers * size <= u64::MAX
        && w * size + size == (w + 1) * size) by (nonlinear_arith)
        requires
            0 <= w < workers,
            size == (u64::MAX as int) / (workers as int),
            workers >= 1,
    ;
    let first: u64 = (w as u64) * size;
    let last: u64 = if w == workers - 1 {
        u64::MAX
    } else {
        first + size - 1
    };
    (first, last)
}

/// Whether worker `w` of `workers` finds a solution in its range.
pub fn worker_finds(header: &BlockHeader, w: usize, workers: usize) -> (found: bool)
    requires
        w < workers,
    ensures
        found == range_has_solution(header@, w as int, workers as int),
{
    let (first, last) = nonce_range(w, workers);
    search_nonces(header, first, last).is_some()
}

/// Lets the workers search their ranges at the same time, with `rayon`'s
/// `find_any` over the workers' numbers. `find_any` returns some item for
/// which the predicate holds, not necessarily the first, and `None` only
/// where it holds for none; the predicate here is `worker_finds`.
#[verifier::external_body]
fn find_worker(header: &BlockHeader, workers: usize) -> (r: Option<usize>)
    requires
        workers >= 1,
    ensures
        match r {
            Some(w) => w < workers && range_has_solution(header@, w as int, workers as int),
            None => forall|w: int|
                0 <= w < workers ==> !#[trigger] range_has_solution(header@, w, workers as int),
        },
{
    (0..workers).into_par_iter().find_any(|w| worker_finds(header, *w, workers))
}

/// The number of threads of the `rayon` pool that would do the work, from
/// `rayon::current_num_threads`. Nothing is promised of the number.
#[verifier::external_body]
fn worker_count() -> (n: usize) {
    rayon::current_num_threads()
}

/// Where no worker's range holds a solution, no nonce is one.
proof fn lemma_no_worker_no_solution(header: HeaderView, workers: int)
    requires
        1 <= workers <= u64::MAX,
        forall|w: int| 0 <= w < workers ==> !#[trigger] range_has_solution(header, w, workers),
    ensures
        no_solution_in(header, 0, u64::MAX + 1),
{
    lemma_ranges_partition(workers);
    let size = range_size(workers);
    assert forall|n: u64| 0 <= n < u64::MAX + 1 implies !(#[trigger] header.with_nonce(
        n,
    )).pow_valid() by {
        let q = n as int / size;
        let w = if q >= workers {
            workers - 1
        } else {
            q
        };
        assert(q * size <= n < (q + 1) * size && 0 <= q) by (nonlinear_arith)
            requires
                q == n as int / size,
                size >= 1,
                n >= 0,
        ;
        if q >= workers {
            assert((workers - 1) * size <= q * size) by (nonlinear_arith)
                requires
                    q >= workers,
                    size >= 1,
            ;
        }
        assert(range_first(w, workers) <= n <= range_last(w, workers));
        assert(!range_has_solution(header, w, workers));
    }
}

/// Mines a block with several workers. The nonce space is cut into as
/// many disjoint ranges as there are workers; the block comes back with a
/// nonce whose header hash meets the target, from the range of a worker
/// that found one. Fails where no nonce at all meets the target.
pub fn mine_block_parallel(block: Block) -> (r: Result<Block, ChainError>)
    ensures
        match r {
            Ok(mined) => mined@.transactions == block@.transactions && mined@.header
                == block@.header.with_nonce(mined.header.nonce) && mined@.header.pow_valid(),
            Err(e) => e@ == ErrorView::InvalidProofOfWork && no_solution_in(
                block@.header,
                0,
                u64::MAX + 1,
            ),
        },
{
    let counted = worker_count();
    let workers: usize = if counted == 0 {
        1
    } else {
        counted
    };
    match find_worker(&block.header, workers) {
        Some(w) => {
            let (first, last) = nonce_range(w, workers);
            match search_nonces(&block.header, first, last) {
                Some(nonce) => {
                    let header = with_nonce(&block.header, nonce);
                    Ok(Block { header, transactions: block.transactions })
                },
                None => Err(ChainError::InvalidProofOfWork),
            }
        },
        None => {
            proof {
                lemma_no_worker_no_solution(block@.header, workers as int);
            }
            Err(ChainError::InvalidProofOfWork)
        },
    }
}

} // verus!
