use vstd::prelude::*;

verus! {

/// Counters gathered while scanning region files.
///
/// The counters form a commutative monoid under field-wise addition, with the
/// all-zero value as identity, so results of separate files can be merged in
/// any order.
#[derive(Clone, Copy, Debug, PartialEq, Eq, Structural)]
pub struct ScanStatistics {
    pub total_chunks: u64,
    pub invalid_length: u64,
    pub invalid_compression_method: u64,
    pub missing_nbt: u64,
    pub corrupted_nbt: u64,
    pub failed_to_read: u64,
    pub corrupted_compression: u64,
    pub invalid_chunk_pointer: u64,
    pub shrunk_size: u64,
    pub unused_space: u64,
}

/// The all-zero statistics.
pub open spec fn zero_stats() -> ScanStatistics {
    ScanStatistics {
        total_chunks: 0,
        invalid_length: 0,
        invalid_compression_method: 0,
        missing_nbt: 0,
        corrupted_nbt: 0,
        failed_to_read: 0,
        corrupted_compression: 0,
        invalid_chunk_pointer: 0,
        shrunk_size: 0,
        unused_space: 0,
    }
}

/// Field-wise sum of two statistics, over unbounded integers.
pub open spec fn sum_fits(a: ScanStatistics, b: ScanStatistics) -> bool {
    &&& a.total_chunks + b.total_chunks <= u64::MAX
    &&& a.invalid_length + b.invalid_length <= u64::MAX
    &&& a.invalid_compression_method + b.invalid_compression_method <= u64::MAX
    &&& a.missing_nbt + b.missing_nbt <= u64::MAX
    &&& a.corrupted_nbt + b.corrupted_nbt <= u64::MAX
    &&& a.failed_to_read + b.failed_to_read <= u64::MAX
    &&& a.corrupted_compression + b.corrupted_compression <= u64::MAX
    &&& a.invalid_chunk_pointer + b.invalid_chunk_pointer <= u64::MAX
    &&& a.shrunk_size + b.shrunk_size <= u64::MAX
    &&& a.unused_space + b.unused_space <= u64::MAX
}

/// The field-wise sum of `a` and `b` (meaningful where `sum_fits(a, b)`).
pub open spec fn stats_sum(a: ScanStatistics, b: ScanStatistics) -> ScanStatistics {
    ScanStatistics {
        total_chunks: (a.total_chunks + b.total_chunks) as u64,
        invalid_length: (a.invalid_length + b.invalid_length) as u64,
        invalid_compression_method: (a.invalid_compression_method
            + b.invalid_compression_method) as u64,
        missing_nbt: (a.missing_nbt + b.missing_nbt) as u64,
        corrupted_nbt: (a.corrupted_nbt + b.corrupted_nbt) as u64,
        failed_to_read: (a.failed_to_read + b.failed_to_read) as u64,
        corrupted_compression: (a.corrupted_compression + b.corrupted_compression) as u64,
        invalid_chunk_pointer: (a.invalid_chunk_pointer + b.invalid_chunk_pointer) as u64,
        shrunk_size: (a.shrunk_size + b.shrunk_size) as u64,
        unused_space: (a.unused_space + b.unused_space) as u64,
    }
}

/// Merge of a sequence of statistics, from the left.
pub open spec fn stats_total(s: Seq<ScanStatistics>) -> ScanStatistics
    decreases s.len(),
{
    if s.len() == 0 {
        zero_stats()
    } else {
        stats_sum(stats_total(s.drop_last()), s.last())
    }
}

/// Every partial merge of a sequence stays within the counters' range.
pub open spec fn total_fits(s: Seq<ScanStatistics>) -> bool
    decreases s.len(),
{
    s.len() == 0 || (total_fits(s.drop_last()) && sum_fits(stats_total(s.drop_last()), s.last()))
}

impl ScanStatistics {
    /// Statistics with every counter at zero.
    pub fn new() -> (r: Self)
        ensures
            r == zero_stats(),
    {
        ScanStatistics {
            total_chunks: 0,
            invalid_length: 0,
            invalid_compression_method: 0,
            missing_nbt: 0,
            corrupted_nbt: 0,
            corrupted_compression: 0,
            invalid_chunk_pointer: 0,
            failed_to_read: 0,
            shrunk_size: 0,
            unused_space: 0,
        }
    }

    /// Field-wise sum of two statistics; `None` where a counter would
    /// overflow.
    pub fn checked_add(self, rhs: Self) -> (r: Option<Self>)
        ensures
            r is Some <==> sum_fits(self, rhs),
            r matches Some(s) ==> s == stats_sum(self, rhs),
    {
        if self.total_chunks > u64::MAX - rhs.total_chunks || self.invalid_length > u64::MAX
            - rhs.invalid_length || self.invalid_compression_method > u64::MAX
            - rhs.invalid_compression_method || self.missing_nbt > u64::MAX - rhs.missing_nbt
            || self.corrupted_nbt > u64::MAX - rhs.corrupted_nbt || self.failed_to_read > u64::MAX
            - rhs.failed_to_read || self.corrupted_compression > u64::MAX
            - rhs.corrupted_compression || self.invalid_chunk_pointer > u64::MAX
            - rhs.invalid_chunk_pointer || self.shrunk_size > u64::MAX - rhs.shrunk_size
            || self.unused_space > u64::MAX - rhs.unused_space {
            None
        } else {
            Some(self.add(rhs))
        }
    }

    /// Field-wise sum of two statistics.
    pub fn add(self, rhs: Self) -> (r: Self)
        requires
            sum_fits(self, rhs),
        ensures
            r == stats_sum(self, rhs),
    {
        ScanStatistics {
            total_chunks: self.total_chunks + rhs.total_chunks,
            invalid_length: self.invalid_length + rhs.invalid_length,
            invalid_compression_method: self.invalid_compression_method
                + rhs.invalid_compression_method,
            missing_nbt: self.missing_nbt + rhs.missing_nbt,
            corrupted_nbt: self.corrupted_nbt + rhs.corrupted_nbt,
            failed_to_read: self.failed_to_read + rhs.failed_to_read,
            corrupted_compression: self.corrupted_compression + rhs.corrupted_compression,
            invalid_chunk_pointer: self.invalid_chunk_pointer + rhs.invalid_chunk_pointer,
            shrunk_size: self.shrunk_size + rhs.shrunk_size,
            unused_space: self.unused_space + rhs.unused_space,
        }
    }
}

/// Merges the statistics of several scans into one, from the left.
pub fn merge_all(all: &Vec<ScanStatistics>) -> (r: ScanStatistics)
    requires
        total_fits(all@),
    ensures
        r == stats_total(all@),
{
    let mut acc = ScanStatistics::new();
    let mut i: usize = 0;
    while i < all.len()
        invariant
            i <= all.len(),
            acc == stats_total(all@.subrange(0, i as int)),
            total_fits(all@),
        decreases all.len() - i,
    {
        proof {
            let pre = all@.subrange(0, i as int + 1);
            assert(pre.drop_last() == all@.subrange(0, i as int));
            lemma_total_fits_prefix(all@, i as int + 1);
        }
        acc = acc.add(all[i]);
        i = i + 1;
    }
    assert(all@.subrange(0, all.len() as int) == all@);
    acc
}

proof fn lemma_total_fits_prefix(s: Seq<ScanStatistics>, n: int)
    requires
        total_fits(s),
        0 <= n <= s.len(),
    ensures
        total_fits(s.subrange(0, n)),
    decreases s.len(),
{
    if n < s.len() {
        assert(s.drop_last().subrange(0, n) == s.subrange(0, n));
        lemma_total_fits_prefix(s.drop_last(), n);
    } else {
        assert(s.subrange(0, n) == s);
    }
}

/// Merging is commutative.
pub proof fn lemma_add_commutative(a: ScanStatistics, b: ScanStatistics)
    requires
        sum_fits(a, b),
    ensures
        sum_fits(b, a),
        stats_sum(a, b) == stats_sum(b, a),
{
}

/// Merging is associative: both groupings fit in range, and agree.
pub proof fn lemma_add_associative(a: ScanStatistics, b: ScanStatistics, c: ScanStatistics)
    requires
        sum_fits(a, b),
        sum_fits(stats_sum(a, b), c),
    ensures
        sum_fits(b, c),
        sum_fits(a, stats_sum(b, c)),
        stats_sum(stats_sum(a, b), c) == stats_sum(a, stats_sum(b, c)),
{
}

/// The all-zero statistics are the identity of merging, on either side.
pub proof fn lemma_add_identity(a: ScanStatistics)
    ensures
        sum_fits(a, zero_stats()),
        sum_fits(zero_stats(), a),
        stats_sum(a, zero_stats()) == a,
        stats_sum(zero_stats(), a) == a,
{
}

/// Merging two groups of results separately and then merging the two totals
/// gives the same as merging all results one by one.
pub proof fn lemma_total_split(s: Seq<ScanStatistics>, t: Seq<ScanStatistics>)
    requires
        total_fits(s + t),
    ensures
        total_fits(s),
        total_fits(t),
        sum_fits(stats_total(s), stats_total(t)),
        stats_total(s + t) == stats_sum(stats_total(s), stats_total(t)),
    decreases t.len(),
{
    if t.len() == 0 {
        assert(s + t == s);
        lemma_add_identity(stats_total(s));
    } else {
        let u = s + t;
        assert(u.drop_last() == s + t.drop_last());
        assert(u.last() == t.last());
        lemma_total_split(s, t.drop_last());
        let a = stats_total(s);
        let b = stats_total(t.drop_last());
        lemma_add_associative(a, b, t.last());
        lemma_total_split_tail_fits(t);
    }
}

/// The order in which two groups of results are merged does not matter.
pub proof fn lemma_merge_order(s: Seq<ScanStatistics>, t: Seq<ScanStatistics>)
    requires
        total_fits(s + t),
    ensures
        total_fits(t + s),
        stats_total(s + t) == stats_total(t + s),
{
    lemma_total_split(s, t);
    lemma_add_commutative(stats_total(s), stats_total(t));
    lemma_total_join(t, s);
}

/// Merging two groups whose totals fit gives a merge of all results that
/// fits, equal to the sum of the two totals.
pub proof fn lemma_total_join(s: Seq<ScanStatistics>, t: Seq<ScanStatistics>)
    requires
        total_fits(s),
        total_fits(t),
        sum_fits(stats_total(s), stats_total(t)),
    ensures
        total_fits(s + t),
        stats_total(s + t) == stats_sum(stats_total(s), stats_total(t)),
    decreases t.len(),
{
    if t.len() == 0 {
        assert(s + t == s);
        lemma_add_identity(stats_total(s));
    } else {
        let u = s + t;
        let tl = t.drop_last();
        assert(u.drop_last() == s + tl);
        assert(u.last() == t.last());
        let a = stats_total(s);
        let b = stats_total(tl);
        let c = t.last();
        assert(sum_fits(b, c));
        assert(sum_fits(a, b));
        lemma_total_join(s, tl);
        lemma_add_associative(a, b, c);
    }
}

proof fn lemma_total_split_tail_fits(t: Seq<ScanStatistics>)
    requires
        t.len() > 0,
        total_fits(t.drop_last()),
        sum_fits(stats_total(t.drop_last()), t.last()),
    ensures
        total_fits(t),
{
}

/// Options of a scan: `fix` applies bookkeeping corrections, `fix_delete`
/// additionally removes records that cannot be recovered.
#[derive(Clone, Copy, Debug, PartialEq, Eq, Structural)]
pub struct ScanOptions {
    pub fix: bool,
    pub fix_delete: bool,
}

impl ScanOptions {
    /// Options that only report, without repairing anything.
    pub fn new() -> (r: Self)
        ensures
            !r.fix,
            !r.fix_delete,
    {
        ScanOptions { fix: false, fix_delete: false }
    }

    /// The same options with `fix` set to the given value.
    pub fn fix(self, fix: bool) -> (r: Self)
        ensures
            r.fix == fix,
            r.fix_delete == self.fix_delete,
    {
        let mut s = self;
        s.fix = fix;
        s
    }

    /// The same options with `fix_delete` set to the given value.
    pub fn fix_delete(self, fix_delete: bool) -> (r: Self)
        ensures
            r.fix == self.fix,
            r.fix_delete == fix_delete,
    {
        let mut s = self;
        s.fix_delete = fix_delete;
        s
    }
}

} // verus!
