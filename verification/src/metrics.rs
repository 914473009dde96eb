//! The repository metrics recomputed on every scrape: how many metadata
//! documents and unpacked packets there are, and how many bytes the file
//! store holds.  Walking the directories is the caller's business; the
//! counting and summing happen here.

use vstd::prelude::*;

verus! {

/// A snapshot of the repository gauges.
#[derive(Clone, Copy, PartialEq, Eq, Structural, Debug)]
pub struct RepositoryMetrics {
    pub metadata_total: u64,
    pub packets_total: u64,
    pub files_total: u64,
    pub file_size_bytes_total: u128,
}

/// The sum of a sequence of file sizes.
pub open spec fn spec_size_sum(sizes: Seq<u64>) -> int
    decreases sizes.len(),
{
    if sizes.len() == 0 {
        0
    } else {
        spec_size_sum(sizes.drop_last()) + sizes.last()
    }
}

proof fn lemma_size_sum_bounds(sizes: Seq<u64>)
    ensures
        0 <= spec_size_sum(sizes) <= sizes.len() * (u64::MAX as int),
    decreases sizes.len(),
{
    if sizes.len() > 0 {
        lemma_size_sum_bounds(sizes.drop_last());
        assert((sizes.len() - 1) * (u64::MAX as int) + (u64::MAX as int) == sizes.len() * (
        u64::MAX as int)) by (nonlinear_arith);
    }
}

/// Compute the repository gauges from the directory listings: one metadata
/// document per name under `metadata/`, one unpacked packet per name under
/// `location/local/`, and one blob per file size found under `files/`.
pub fn repository_metrics(
    metadata_ids: &Vec<String>,
    unpacked_ids: &Vec<String>,
    file_sizes: &Vec<u64>,
) -> (r: RepositoryMetrics)
    requires
        metadata_ids@.len() <= u64::MAX,
        unpacked_ids@.len() <= u64::MAX,
        file_sizes@.len() <= u64::MAX,
    ensures
        r.metadata_total == metadata_ids@.len(),
        r.packets_total == unpacked_ids@.len(),
        r.files_total == file_sizes@.len(),
        r.file_size_bytes_total == spec_size_sum(file_sizes@),
{
    let n = file_sizes.len();
    let mut total: u128 = 0;
    proof {
        assert(file_sizes@.subrange(0, 0) =~= Seq::<u64>::empty());
    }
    for i in 0..n
        invariant
            n == file_sizes@.len(),
            n <= u64::MAX,
            total == spec_size_sum(file_sizes@.subrange(0, i as int)),
    {
        proof {
            lemma_size_sum_bounds(file_sizes@.subrange(0, i as int));
            assert(i * (u64::MAX as int) + (u64::MAX as int) <= (u64::MAX as int) * (u64::MAX
                as int) + (u64::MAX as int)) by (nonlinear_arith)
                requires
                    0 <= i <= u64::MAX as int,
            ;
        }
        total = total + (file_sizes[i] as u128);
        proof {
            assert(file_sizes@.subrange(0, i + 1).drop_last() =~= file_sizes@.subrange(0, i as int));
            assert(file_sizes@.subrange(0, i + 1).last() == file_sizes@[i as int]);
        }
    }
    proof {
        assert(file_sizes@.subrange(0, n as int) =~= file_sizes@);
    }
    RepositoryMetrics {
        metadata_total: metadata_ids.len() as u64,
        packets_total: unpacked_ids.len() as u64,
        files_total: file_sizes.len() as u64,
        file_size_bytes_total: total,
    }
}

} // verus!
