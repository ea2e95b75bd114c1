//! Interestingness of a magnitude spectrum, from two order statistics of its
//! bins, and the count of interesting windows in a block.
use vstd::prelude::*;
use vstd::relations::{sorted_by, total_ordering};

verus! {

/// A window is interesting when its high percentile exceeds this many times
/// its mid percentile.
pub const INTERESTING_RATIO: u64 = 3;

/// Ascending order on magnitudes.
pub open spec fn ascending() -> spec_fn(u32, u32) -> bool {
    |a: u32, b: u32| a <= b
}

/// The magnitudes in ascending order.
pub open spec fn sorted_bins(m: Seq<u32>) -> Seq<u32> {
    m.sort_by(ascending())
}

/// Index of the 75th percentile among `n` sorted bins.
pub open spec fn low_index(n: int) -> int {
    n * 75 / 100
}

/// Index of the 95th percentile among `n` sorted bins.
pub open spec fn high_index(n: int) -> int {
    n * 95 / 100
}

/// The two order statistics that a spectrum is judged by.
#[derive(Clone, Copy, Debug, PartialEq, Eq, Structural)]
pub struct Score {
    /// Magnitude at the 95th percentile.
    pub high: u32,
    /// Magnitude at the 75th percentile.
    pub low: u32,
}

/// 95th and 75th percentile magnitudes of a spectrum.
pub open spec fn score_spec(m: Seq<u32>) -> Score {
    Score {
        high: sorted_bins(m)[high_index(m.len() as int)],
        low: sorted_bins(m)[low_index(m.len() as int)],
    }
}

/// The ratio `high / low` exceeds `INTERESTING_RATIO`; a zero `low` makes the
/// ratio infinite, which counts as interesting.
pub open spec fn score_is_interesting(s: Score) -> bool {
    s.low == 0 || s.high as int > INTERESTING_RATIO as int * s.low as int
}

/// Whether a spectrum is interesting.
pub open spec fn interesting(m: Seq<u32>) -> bool {
    score_is_interesting(score_spec(m))
}

impl Score {
    /// Whether the ratio of the two percentiles marks a narrowband signal.
    pub fn is_interesting(&self) -> (r: bool)
        ensures
            r == score_is_interesting(*self),
    {
        self.low == 0 || (self.high as u64) > INTERESTING_RATIO * (self.low as u64)
    }
}

/// Relies on slice::sort_unstable: afterwards the elements are the same and
/// ascending.
#[verifier::external_body]
fn sort_ascending(v: &mut Vec<u32>)
    ensures
        sorted_by(final(v)@, ascending()),
        final(v)@.to_multiset() == old(v)@.to_multiset(),
{
    v.sort_unstable();
}

proof fn lemma_ascending_total()
    ensures
        total_ordering(ascending()),
{
}

/// A sequence that is ascending and holds the same magnitudes as `m` is the
/// sorted form of `m`.
proof fn lemma_sorted_is_sort(t: Seq<u32>, m: Seq<u32>)
    requires
        sorted_by(t, ascending()),
        t.to_multiset() == m.to_multiset(),
    ensures
        t == sorted_bins(m),
{
    lemma_ascending_total();
    m.lemma_sort_by_ensures(ascending());
    vstd::seq_lib::lemma_sorted_unique(t, sorted_bins(m), ascending());
}

/// `n * p / 100`, without an intermediate product that could overflow.
fn percentile_index(n: usize, p: usize) -> (r: usize)
    requires
        n >= 1,
        p < 100,
    ensures
        r == n * p / 100,
        r < n,
{
    let q = n / 100;
    let m = n % 100;
    proof {
        assert(n * p / 100 == q * p + m * p / 100) by (nonlinear_arith)
            requires q == n / 100, m == n % 100, p < 100;
        assert(n * p / 100 < n) by (nonlinear_arith)
            requires n >= 1, p < 100;
        assert(q * p <= n) by (nonlinear_arith)
            requires q == n / 100, p < 100;
        assert(m * p < 10000) by (nonlinear_arith)
            requires m < 100, p < 100;
    }
    q * p + m * p / 100
}

/// The 95th and 75th percentile magnitudes of `spectrum`.
pub fn estimate_interestingness(spectrum: &Vec<u32>) -> (r: Score)
    requires
        spectrum@.len() >= 2,
    ensures
        r == score_spec(spectrum@),
{
    let mut sorted: Vec<u32> = Vec::new();
    let mut i: usize = 0;
    while i < spectrum.len()
        invariant
            i <= spectrum@.len(),
            sorted@ == spectrum@.take(i as int),
        decreases spectrum@.len() - i,
    {
        sorted.push(spectrum[i]);
        i = i + 1;
        assert(sorted@ =~= spectrum@.take(i as int));
    }
    assert(spectrum@.take(i as int) =~= spectrum@);
    sort_ascending(&mut sorted);
    proof {
        lemma_sorted_is_sort(sorted@, spectrum@);
        sorted@.to_multiset_ensures();
        spectrum@.to_multiset_ensures();
    }
    let n = sorted.len();
    let lo = percentile_index(n, 75);
    let hi = percentile_index(n, 95);
    let low = sorted[lo];
    let high = sorted[hi];
    Score { high, low }
}

/// Whether `spectrum` is interesting.
pub fn is_interesting(spectrum: &Vec<u32>) -> (r: bool)
    requires
        spectrum@.len() >= 2,
    ensures
        r == interesting(spectrum@),
{
    estimate_interestingness(spectrum).is_interesting()
}

/// Number of interesting spectra among `ws`.
pub open spec fn hit_count_spec(ws: Seq<Seq<u32>>) -> nat
    decreases ws.len(),
{
    if ws.len() == 0 {
        0
    } else {
        hit_count_spec(ws.drop_last()) + if interesting(ws.last()) {
            1nat
        } else {
            0nat
        }
    }
}

/// The spectra of a block's windows, as sequences of magnitudes.
pub open spec fn spectra_view(ws: Seq<Vec<u32>>) -> Seq<Seq<u32>> {
    ws.map_values(|w: Vec<u32>| w@)
}

/// Number of interesting windows in a block, given the spectrum of each.
pub fn hit_count(spectra: &Vec<Vec<u32>>) -> (r: u32)
    requires
        spectra@.len() <= u32::MAX,
        forall|i: int| 0 <= i < spectra@.len() ==> (#[trigger] spectra@[i])@.len() >= 2,
    ensures
        r == hit_count_spec(spectra_view(spectra@)),
{
    let n = spectra.len();
    let mut count: u32 = 0;
    let mut i: usize = 0;
    while i < n
        invariant
            n == spectra@.len(),
            n <= u32::MAX,
            i <= n,
            forall|j: int| 0 <= j < spectra@.len() ==> (#[trigger] spectra@[j])@.len() >= 2,
            count == hit_count_spec(spectra_view(spectra@).take(i as int)),
            count <= i,
        decreases n - i,
    {
        let hit = is_interesting(&spectra[i]);
        proof {
            let v = spectra_view(spectra@);
            assert(v.take(i as int + 1).drop_last() =~= v.take(i as int));
        }
        if hit {
            count = count + 1;
        }
        i = i + 1;
    }
    assert(spectra_view(spectra@).take(n as int) =~= spectra_view(spectra@));
    count
}

/// Every magnitude multiplied by `k`.
pub open spec fn scaled(m: Seq<u32>, k: u32) -> Seq<u32> {
    m.map_values(|x: u32| (x as int * k as int) as u32)
}

/// Scaling two sequences that hold the same magnitudes gives two sequences
/// that hold the same magnitudes.
proof fn lemma_scaled_multiset(s: Seq<u32>, m: Seq<u32>, k: u32)
    requires
        s.to_multiset() == m.to_multiset(),
    ensures
        scaled(s, k).to_multiset() == scaled(m, k).to_multiset(),
    decreases s.len(),
{
    broadcast use vstd::multiset::group_multiset_axioms;

    s.to_multiset_ensures();
    m.to_multiset_ensures();
    scaled(s, k).to_multiset_ensures();
    scaled(m, k).to_multiset_ensures();
    if s.len() == 0 {
        assert(scaled(s, k) =~= scaled(m, k));
    } else {
        let x = s[0];
        assert(s.contains(x));
        assert(s.to_multiset().count(x) > 0);
        assert(m.to_multiset().count(x) > 0);
        assert(m.contains(x));
        let j = choose|j: int| 0 <= j < m.len() && m[j] == x;
        let m2 = m.remove(j);
        assert(s.remove(0) =~= s.drop_first());
        lemma_scaled_multiset(s.drop_first(), m2, k);
        assert(scaled(s.drop_first(), k) =~= scaled(s, k).remove(0));
        assert(scaled(m2, k) =~= scaled(m, k).remove(j));
        let fx = scaled(s, k)[0];
        assert(scaled(m, k)[j] == fx);
        assert(scaled(s, k).to_multiset() =~= scaled(s, k).remove(0).to_multiset().insert(fx));
        assert(scaled(m, k).to_multiset() =~= scaled(m, k).remove(j).to_multiset().insert(fx));
    }
}

/// Interestingness is unchanged when all magnitudes are multiplied by the
/// same positive factor: both percentiles are multiplied by it, so their
/// ratio stays the same.
pub proof fn lemma_score_scale_invariant(m: Seq<u32>, k: u32)
    requires
        m.len() >= 2,
        k > 0,
        forall|i: int| 0 <= i < m.len() ==> m[i] as int * k as int <= u32::MAX,
    ensures
        score_spec(scaled(m, k)).high == score_spec(m).high as int * k as int,
        score_spec(scaled(m, k)).low == score_spec(m).low as int * k as int,
        interesting(scaled(m, k)) == interesting(m),
{
    broadcast use vstd::multiset::group_multiset_axioms;

    lemma_ascending_total();
    m.lemma_sort_by_ensures(ascending());
    let t = sorted_bins(m);
    t.to_multiset_ensures();
    m.to_multiset_ensures();
    assert forall|i: int| 0 <= i < t.len() implies t[i] as int * k as int <= u32::MAX by {
        assert(t.contains(t[i]));
        assert(m.contains(t[i]));
    }
    let st = scaled(t, k);
    assert forall|i: int, j: int| 0 <= i < j < st.len() implies #[trigger] (ascending())(
        st[i],
        st[j],
    ) by {
        assert((ascending())(t[i], t[j]));
        let a = t[i] as int;
        let b = t[j] as int;
        let kk = k as int;
        assert(a * kk <= b * kk) by (nonlinear_arith)
            requires a <= b, kk > 0;
    }
    lemma_scaled_multiset(t, m, k);
    lemma_sorted_is_sort(st, scaled(m, k));
    let n = m.len() as int;
    let h = t[high_index(n)] as int;
    let l = t[low_index(n)] as int;
    let kk = k as int;
    assert(high_index(n) < n && low_index(n) < n) by (nonlinear_arith)
        requires n >= 2;
    assert((l * kk == 0) == (l == 0)) by (nonlinear_arith)
        requires kk > 0, l >= 0;
    assert((h * kk > 3 * (l * kk)) == (h > 3 * l)) by (nonlinear_arith)
        requires kk > 0;
}

/// A spectrum of at least 20 bins in which one bin is high and every other
/// bin is zero is interesting: its 95th percentile is that bin and its 75th
/// percentile is zero.
pub proof fn lemma_single_peak_interesting(m: Seq<u32>, p: int)
    requires
        m.len() >= 20,
        0 <= p < m.len(),
        m[p] > 0,
        forall|i: int| 0 <= i < m.len() && i != p ==> m[i] == 0,
    ensures
        score_spec(m).low == 0,
        interesting(m),
{
    broadcast use vstd::multiset::group_multiset_axioms;

    let n = m.len() as int;
    let t = Seq::new(n as nat, |i: int| if i == n - 1 {
        m[p]
    } else {
        0u32
    });
    assert(m.remove(p) =~= t.remove(n - 1));
    m.to_multiset_ensures();
    t.to_multiset_ensures();
    assert(m.contains(m[p]));
    assert(t[n - 1] == m[p]);
    assert(t.contains(m[p]));
    assert(m.to_multiset() =~= m.remove(p).to_multiset().insert(m[p]));
    assert(t.to_multiset() =~= t.remove(n - 1).to_multiset().insert(m[p]));
    lemma_sorted_is_sort(t, m);
    assert(low_index(n) < n - 1) by (nonlinear_arith)
        requires n >= 20;
}

} // verus!
