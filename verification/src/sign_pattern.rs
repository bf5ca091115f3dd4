//! Sign patterns: which side of the decision boundary each agent sits on.

use vstd::prelude::*;
use vstd::std_specs::cmp::PartialEqSpecImpl;

verus! {

/// Every entry is `+1` or `-1`.
pub open spec fn is_sign_seq(s: Seq<i8>) -> bool {
    forall|i: int| 0 <= i < s.len() ==> s[i] == 1 || s[i] == -1
}

/// The number of `+1` entries.
pub open spec fn positive_count(s: Seq<i8>) -> nat
    decreases s.len(),
{
    if s.len() == 0 {
        0
    } else {
        positive_count(s.drop_last()) + (if s.last() == 1 { 1nat } else { 0nat })
    }
}

/// The number of entries that differ from `x`.
pub open spec fn count_differing(s: Seq<i8>, x: i8) -> nat
    decreases s.len(),
{
    if s.len() == 0 {
        0
    } else {
        count_differing(s.drop_last(), x) + (if s.last() != x { 1nat } else { 0nat })
    }
}

/// The number of index pairs `i < j` with `s[i] != s[j]`: the edges of the
/// complete graph on the agents that cross the sign partition.
pub open spec fn crossing_pairs(s: Seq<i8>) -> nat
    decreases s.len(),
{
    if s.len() == 0 {
        0
    } else {
        crossing_pairs(s.drop_last()) + count_differing(s.drop_last(), s.last())
    }
}

/// `positive_count * negative_count` for a sign sequence.
pub open spec fn cut_value(s: Seq<i8>) -> int {
    positive_count(s) * (s.len() - positive_count(s))
}

/// The maximum cut of the complete graph on `n` vertices: `floor(n/2) * ceil(n/2)`.
pub open spec fn max_cut_value(n: nat) -> int {
    (n / 2) * (n - n / 2)
}

/// A partition whose sides have sizes `floor(n/2)` and `ceil(n/2)`.
pub open spec fn is_balanced(s: Seq<i8>) -> bool {
    positive_count(s) == s.len() / 2 || positive_count(s) == s.len() - s.len() / 2
}

/// The human-readable label: `'+'` for `+1`, `'-'` otherwise.
pub open spec fn label_of(s: Seq<i8>) -> Seq<char> {
    Seq::new(s.len(), |i: int| if s[i] == 1 { '+' } else { '-' })
}

/// The pattern whose entry `i` is `+1` exactly where `flags[i]` holds.
pub open spec fn pattern_of_flags(flags: Seq<bool>) -> Seq<i8> {
    Seq::new(flags.len(), |i: int| if flags[i] { 1i8 } else { -1i8 })
}

pub proof fn lemma_positive_count_bounded(s: Seq<i8>)
    ensures
        positive_count(s) <= s.len(),
    decreases s.len(),
{
    if s.len() > 0 {
        lemma_positive_count_bounded(s.drop_last());
    }
}

proof fn lemma_count_differing(s: Seq<i8>, x: i8)
    requires
        is_sign_seq(s),
        x == 1 || x == -1,
    ensures
        x == 1 ==> count_differing(s, x) == s.len() - positive_count(s),
        x == -1 ==> count_differing(s, x) == positive_count(s),
    decreases s.len(),
{
    if s.len() > 0 {
        let t = s.drop_last();
        assert(is_sign_seq(t)) by {
            assert forall|i: int| 0 <= i < t.len() implies t[i] == 1 || t[i] == -1 by {
                assert(t[i] == s[i]);
            }
        }
        lemma_count_differing(t, x);
        lemma_positive_count_bounded(t);
    }
}

/// The cut of the complete graph by a sign pattern, counted edge by edge,
/// is `positive_count * negative_count`.
pub proof fn lemma_crossing_pairs_is_cut_value(s: Seq<i8>)
    requires
        is_sign_seq(s),
    ensures
        crossing_pairs(s) == cut_value(s),
    decreases s.len(),
{
    if s.len() > 0 {
        let t = s.drop_last();
        let x = s.last();
        assert(is_sign_seq(t)) by {
            assert forall|i: int| 0 <= i < t.len() implies t[i] == 1 || t[i] == -1 by {
                assert(t[i] == s[i]);
            }
        }
        assert(x == s[s.len() - 1]);
        lemma_crossing_pairs_is_cut_value(t);
        lemma_count_differing(t, x);
        lemma_positive_count_bounded(t);
        let p = positive_count(t) as int;
        let n = t.len() as int;
        if x == 1 {
            assert(cut_value(s) == (p + 1) * (n + 1 - (p + 1)));
            assert((p + 1) * (n + 1 - (p + 1)) == p * (n - p) + (n - p)) by (nonlinear_arith);
        } else {
            assert(cut_value(s) == p * (n + 1 - p));
            assert(p * (n + 1 - p) == p * (n - p) + p) by (nonlinear_arith);
        }
    } else {
        assert(positive_count(s) == 0);
    }
}

proof fn lemma_product_vs_balanced(k: int, n: int)
    requires
        0 <= k <= n,
    ensures
        k * (n - k) <= (n / 2) * (n - n / 2),
        k * (n - k) == (n / 2) * (n - n / 2) <==> (k == n / 2 || k == n - n / 2),
{
    let m = n / 2;
    let r = n - 2 * m;
    assert(0 <= r <= 1);
    let d = k - m;
    assert(k * (n - k) - m * (n - m) == d * (r - d)) by (nonlinear_arith)
        requires
            d == k - m,
            r == n - 2 * m,
    ;
    if d >= 1 {
        assert(d * (r - d) <= 0) by (nonlinear_arith)
            requires
                d >= 1,
                r <= 1,
        ;
        if d >= 2 || r == 0 {
            assert(d * (r - d) < 0) by (nonlinear_arith)
                requires
                    d >= 1,
                    r - d < 0,
            ;
        }
    } else if d < 0 {
        assert(d * (r - d) < 0) by (nonlinear_arith)
            requires
                d < 0,
                r - d > 0,
        ;
    }
}

/// No sign pattern cuts more edges of the complete graph than a balanced one.
pub proof fn lemma_cut_at_most_max(s: Seq<i8>)
    ensures
        cut_value(s) <= max_cut_value(s.len()),
{
    lemma_positive_count_bounded(s);
    lemma_product_vs_balanced(positive_count(s) as int, s.len() as int);
}

/// A sign pattern is a maximum cut of the complete graph exactly when it is balanced.
pub proof fn lemma_max_cut_iff_balanced(s: Seq<i8>)
    ensures
        cut_value(s) == max_cut_value(s.len()) <==> is_balanced(s),
{
    lemma_positive_count_bounded(s);
    lemma_product_vs_balanced(positive_count(s) as int, s.len() as int);
}

/// Each character of the label is the sign of the agent at the same
/// position: `'+'` for `+1` and `'-'` for `-1`, one per agent, in order.
pub proof fn lemma_label_entries(s: Seq<i8>)
    ensures
        label_of(s).len() == s.len(),
        forall|i: int|
            0 <= i < s.len() ==> (#[trigger] label_of(s)[i] == '+' <==> s[i] == 1),
        forall|i: int|
            0 <= i < s.len() && s[i] == -1 ==> #[trigger] label_of(s)[i] == '-',
{
}

/// Agent `i` of the pattern built from nonnegativity flags is `+1` exactly
/// when flag `i` is set and `-1` otherwise, for every agent.
pub proof fn lemma_pattern_of_flags_entries(flags: Seq<bool>)
    ensures
        pattern_of_flags(flags).len() == flags.len(),
        forall|i: int|
            0 <= i < flags.len() ==> (flags[i] ==> #[trigger] pattern_of_flags(flags)[i] == 1),
        forall|i: int|
            0 <= i < flags.len() ==> (!flags[i] ==> #[trigger] pattern_of_flags(flags)[i] == -1),
        is_sign_seq(pattern_of_flags(flags)),
{
}

/// The positive count is the number of `+1` entries: the length of the
/// subsequence of entries equal to `1`.
pub proof fn lemma_positive_count_is_filter(s: Seq<i8>)
    ensures
        positive_count(s) == s.filter(|x: i8| x == 1).len(),
    decreases s.len(),
{
    reveal_with_fuel(Seq::filter, 1);
    if s.len() > 0 {
        lemma_positive_count_is_filter(s.drop_last());
    }
}

/// The cut counted edge by edge: an empty pattern cuts nothing, and adding an
/// agent adds one crossing edge for each earlier agent of the other sign.
pub proof fn lemma_crossing_pairs_step(s: Seq<i8>, x: i8)
    ensures
        crossing_pairs(Seq::<i8>::empty()) == 0,
        crossing_pairs(s.push(x)) == crossing_pairs(s) + s.filter(|y: i8| y != x).len(),
{
    assert(s.push(x).drop_last() =~= s);
    lemma_count_differing_is_filter(s, x);
}

proof fn lemma_count_differing_is_filter(s: Seq<i8>, x: i8)
    ensures
        count_differing(s, x) == s.filter(|y: i8| y != x).len(),
    decreases s.len(),
{
    reveal_with_fuel(Seq::filter, 1);
    if s.len() > 0 {
        lemma_count_differing_is_filter(s.drop_last(), x);
    }
}

/// The sign pattern of length `n` whose first `k` entries are `+1` and the rest `-1`.
pub open spec fn split_pattern(n: nat, k: nat) -> Seq<i8> {
    Seq::new(n, |i: int| if i < k { 1i8 } else { -1i8 })
}

proof fn lemma_split_pattern_count(n: nat, k: nat)
    requires
        k <= n,
    ensures
        positive_count(split_pattern(n, k)) == k,
        is_sign_seq(split_pattern(n, k)),
    decreases n,
{
    if n > 0 {
        if k == n {
            lemma_split_pattern_count((n - 1) as nat, (k - 1) as nat);
            assert(split_pattern(n, k).drop_last() =~= split_pattern((n - 1) as nat, (k - 1) as nat))
                by {
                assert forall|i: int| 0 <= i < n - 1 implies #[trigger] split_pattern(n, k)[i]
                    == split_pattern((n - 1) as nat, (k - 1) as nat)[i] by {}
            }
        } else {
            lemma_split_pattern_count((n - 1) as nat, k);
            assert(split_pattern(n, k).drop_last() =~= split_pattern((n - 1) as nat, k));
        }
    }
}

/// A pattern's cut is at least as large as that of every sign pattern on the
/// same agents exactly when it is a maximum cut, `floor(n/2) * ceil(n/2)`.
pub proof fn lemma_max_cut_is_optimal(s: Seq<i8>)
    requires
        is_sign_seq(s),
    ensures
        cut_value(s) == max_cut_value(s.len()) <==> (forall|q: Seq<i8>|
            q.len() == s.len() && is_sign_seq(q) ==> #[trigger] cut_value(q) <= cut_value(s)),
{
    let n = s.len();
    let b = split_pattern(n, n / 2);
    lemma_split_pattern_count(n, n / 2);
    assert(cut_value(b) == max_cut_value(n));
    if cut_value(s) == max_cut_value(n) {
        assert forall|q: Seq<i8>| q.len() == s.len() && is_sign_seq(q) implies #[trigger] cut_value(
            q,
        ) <= cut_value(s) by {
            lemma_cut_at_most_max(q);
        }
    } else {
        lemma_cut_at_most_max(s);
        assert(cut_value(b) > cut_value(s));
    }
}

/// Equal labels come from equal patterns, and only from them.
pub proof fn lemma_label_determines_pattern(s: Seq<i8>, t: Seq<i8>)
    requires
        is_sign_seq(s),
        is_sign_seq(t),
    ensures
        label_of(s) == label_of(t) <==> s == t,
{
    if label_of(s) == label_of(t) {
        assert(s.len() == label_of(s).len());
        assert forall|i: int| 0 <= i < s.len() implies s[i] == t[i] by {
            assert(label_of(s)[i] == label_of(t)[i]);
        }
        assert(s =~= t);
    }
}

/// A signed orientation pattern for `N` agents: each entry is `+1` or `-1`.
#[derive(Debug, Hash)]
pub struct SignPattern<const N: usize>([i8; N]);

impl<const N: usize> View for SignPattern<N> {
    type V = Seq<i8>;

    closed spec fn view(&self) -> Seq<i8> {
        self.0@
    }
}

impl<const N: usize> SignPattern<N> {
    #[verifier::type_invariant]
    spec fn entries_are_signs(self) -> bool {
        is_sign_seq(self.0@)
    }
}

impl<const N: usize> SignPattern<N> {
    /// `true` exactly when every entry of `data` is `+1` or `-1`, which is
    /// what `new` asks of its argument.
    pub fn is_valid(data: &[i8; N]) -> (b: bool)
        ensures
            b == is_sign_seq(data@),
            b == (forall|i: int| 0 <= i < N ==> #[trigger] data@[i] == 1 || data@[i] == -1),
    {
        let mut i: usize = 0;
        while i < N
            invariant
                i <= N,
                data@.len() == N,
                forall|k: int| 0 <= k < i ==> data@[k] == 1 || data@[k] == -1,
            decreases N - i,
        {
            if data[i] != 1 && data[i] != -1 {
                return false;
            }
            i = i + 1;
        }
        true
    }

    /// Create a sign pattern from raw components, each `+1` or `-1`.
    pub fn new(data: [i8; N]) -> (p: Self)
        requires
            is_sign_seq(data@),
        ensures
            p@ == data@,
            p@.len() == N,
            is_sign_seq(p@),
    {
        SignPattern(data)
    }

    /// The pattern that puts agent `i` on the `+1` side exactly when `flags[i]` holds.
    pub fn from_nonnegative(flags: &[bool; N]) -> (p: Self)
        ensures
            p@ == pattern_of_flags(flags@),
            p@.len() == N,
            forall|i: int| 0 <= i < N ==> #[trigger] p@[i] == (if flags@[i] { 1i8 } else { -1i8 }),
            is_sign_seq(p@),
    {
        let mut signs = [0i8; N];
        let mut i: usize = 0;
        while i < N
            invariant
                i <= N,
                signs@.len() == N,
                flags@.len() == N,
                forall|k: int| 0 <= k < i ==> signs@[k] == (if flags@[k] { 1i8 } else { -1i8 }),
            decreases N - i,
        {
            signs[i] = if flags[i] { 1 } else { -1 };
            i = i + 1;
        }
        assert(signs@ =~= pattern_of_flags(flags@));
        SignPattern(signs)
    }

    /// The raw sign array.
    pub fn as_slice(&self) -> (s: &[i8])
        ensures
            s@ == self@,
            s@.len() == N,
            is_sign_seq(s@),
    {
        proof {
            use_type_invariant(self);
        }
        self.0.as_slice()
    }

    /// The number of agents on the `+1` side.
    fn count_positive(&self) -> (p: usize)
        ensures
            p == positive_count(self@),
            p <= N,
    {
        let s = Ghost(self.0@);
        let mut pos: usize = 0;
        let mut i: usize = 0;
        while i < N
            invariant
                i <= N,
                s@ == self.0@,
                s@.len() == N,
                pos == positive_count(s@.subrange(0, i as int)),
                pos <= i,
            decreases N - i,
        {
            assert(s@.subrange(0, i + 1).drop_last() =~= s@.subrange(0, i as int));
            if self.0[i] == 1 {
                pos = pos + 1;
            }
            i = i + 1;
        }
        assert(s@.subrange(0, N as int) =~= s@);
        pos
    }

    /// The number of edges of the complete graph `K_N` that cross the sign
    /// partition: the pairs `(i, j)` with `sign_i != sign_j`, which is
    /// `positive_count * negative_count`.
    pub fn cut_size(&self) -> (c: usize)
        requires
            cut_value(self@) <= usize::MAX,
        ensures
            c == cut_value(self@),
            c == crossing_pairs(self@),
            c == self@.filter(|x: i8| x == 1).len() * (N - self@.filter(|x: i8| x == 1).len()),
    {
        proof {
            use_type_invariant(self);
            lemma_crossing_pairs_is_cut_value(self@);
            lemma_positive_count_is_filter(self@);
        }
        let pos = self.count_positive();
        let neg = N - pos;
        pos * neg
    }

    /// Whether this pattern is a maximum cut of the complete graph `K_N`,
    /// whose value is `floor(N/2) * ceil(N/2)`; that is, whether the
    /// partition is balanced.
    pub fn is_max_cut(&self) -> (b: bool)
        requires
            max_cut_value(N as nat) <= usize::MAX,
        ensures
            b == (cut_value(self@) == max_cut_value(N as nat)),
            b == is_balanced(self@),
            b == (self@.filter(|x: i8| x == 1).len() == N / 2 || self@.filter(|x: i8| x == 1).len()
                == N - N / 2),
            b <==> (forall|q: Seq<i8>|
                q.len() == N && is_sign_seq(q) ==> #[trigger] cut_value(q) <= cut_value(self@)),
    {
        proof {
            use_type_invariant(self);
            lemma_max_cut_is_optimal(self@);
            lemma_cut_at_most_max(self@);
            lemma_max_cut_iff_balanced(self@);
            lemma_positive_count_is_filter(self@);
        }
        let ideal = (N / 2) * (N - N / 2);
        self.cut_size() == ideal
    }

    /// Human-readable label, e.g. `"+--+"`.
    pub fn label(&self) -> (l: String)
        ensures
            l@ == label_of(self@),
            l@.len() == N,
            forall|i: int| 0 <= i < N ==> #[trigger] l@[i] == (if self@[i] == 1 { '+' } else { '-' }),
    {
        let s = Ghost(self.0@);
        let mut l = String::new();
        let mut i: usize = 0;
        while i < N
            invariant
                i <= N,
                s@ == self.0@,
                s@.len() == N,
                l@ =~= label_of(s@).subrange(0, i as int),
            decreases N - i,
        {
            if self.0[i] == 1 {
                l.append("+");
                proof {
                    reveal_strlit("+");
                }
            } else {
                l.append("-");
                proof {
                    reveal_strlit("-");
                }
            }
            assert(l@ =~= label_of(s@).subrange(0, i + 1));
            i = i + 1;
        }
        l
    }

    /// Whether two patterns put every agent on the same side.
    pub fn same_as(&self, other: &Self) -> (b: bool)
        ensures
            b == (self@ == other@),
    {
        let mut i: usize = 0;
        while i < N
            invariant
                i <= N,
                self.0@.len() == N,
                other.0@.len() == N,
                forall|k: int| 0 <= k < i ==> self.0@[k] == other.0@[k],
            decreases N - i,
        {
            if self.0[i] != other.0[i] {
                return false;
            }
            i = i + 1;
        }
        assert(self.0@ =~= other.0@);
        true
    }
}

impl<const N: usize> PartialEq for SignPattern<N> {
    fn eq(&self, other: &Self) -> (b: bool) {
        self.same_as(other)
    }
}

impl<const N: usize> Eq for SignPattern<N> {

}

impl<const N: usize> PartialEqSpecImpl for SignPattern<N> {
    open spec fn obeys_eq_spec() -> bool {
        true
    }

    open spec fn eq_spec(&self, other: &Self) -> bool {
        self@ == other@
    }
}

impl<const N: usize> Clone for SignPattern<N> {
    fn clone(&self) -> (c: Self)
        ensures
            c@ == self@,
            c@.len() == N,
            is_sign_seq(c@),
    {
        proof {
            use_type_invariant(self);
        }
        SignPattern(self.0)
    }
}

} // verus!
