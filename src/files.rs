use vstd::prelude::*;
use crate::history::{AgeError, UpdateTimeFinder};

verus! {

/// `i` placed into the index order `s` after every index whose time is
/// strictly later than its own: among equal times the index taken last
/// comes first.
pub open spec fn insert_recent(s: Seq<usize>, times: Seq<i64>, i: usize) -> Seq<usize>
    decreases s.len(),
{
    if s.len() == 0 {
        seq![i]
    } else if times[s.last() as int] > times[i as int] {
        s.push(i)
    } else {
        insert_recent(s.drop_last(), times, i).push(s.last())
    }
}

/// The indices `0..n` of `times`, newest first; equal times in the reverse
/// of their listing order.
pub open spec fn recency_order(times: Seq<i64>, n: nat) -> Seq<usize>
    decreases n,
{
    if n == 0 {
        Seq::empty()
    } else {
        insert_recent(recency_order(times, (n - 1) as nat), times, (n - 1) as usize)
    }
}

/// `files` listed in the recency order of `times`.
pub open spec fn by_recency(files: Seq<String>, times: Seq<i64>) -> Seq<String> {
    recency_order(times, files.len()).map_values(|i: usize| files[i as int])
}

proof fn lemma_insert_recent_at(s: Seq<usize>, times: Seq<i64>, i: usize, j: int)
    requires
        0 <= j <= s.len(),
        forall|m: int| j <= m < s.len() ==> times[#[trigger] s[m] as int] <= times[i as int],
        j == 0 || times[s[j - 1] as int] > times[i as int],
    ensures
        insert_recent(s, times, i) == s.insert(j, i),
    decreases s.len(),
{
    if s.len() == 0 {
        assert(s.insert(j, i) =~= seq![i]);
    } else if j == s.len() {
        assert(s.insert(j, i) =~= s.push(i));
    } else {
        let t = s.drop_last();
        assert(times[s[s.len() - 1] as int] <= times[i as int]);
        assert forall|m: int| j <= m < t.len() implies times[#[trigger] t[m] as int] <= times[i as int] by {
            assert(t[m] == s[m]);
        }
        if j > 0 {
            assert(t[j - 1] == s[j - 1]);
        }
        lemma_insert_recent_at(t, times, i, j);
        assert(t.insert(j, i).push(s.last()) =~= s.insert(j, i));
    }
}

proof fn lemma_insert_recent_bounded(s: Seq<usize>, times: Seq<i64>, i: usize, n: int)
    requires
        forall|m: int| 0 <= m < s.len() ==> #[trigger] s[m] < n,
        i < n,
    ensures
        forall|m: int| 0 <= m < insert_recent(s, times, i).len() ==> #[trigger] insert_recent(s, times, i)[m] < n,
        insert_recent(s, times, i).len() == s.len() + 1,
    decreases s.len(),
{
    if s.len() > 0 && !(times[s.last() as int] > times[i as int]) {
        lemma_insert_recent_bounded(s.drop_last(), times, i, n);
    }
}

/// Whether index `a` comes before index `b` newest first: a later time, or
/// an equal time and a later place in the listing.
pub open spec fn recent_before(times: Seq<i64>, a: usize, b: usize) -> bool {
    times[a as int] > times[b as int] || (times[a as int] == times[b as int] && a > b)
}

proof fn lemma_insert_recent_before(s: Seq<usize>, times: Seq<i64>, i: usize, b: usize)
    requires
        forall|m: int| 0 <= m < s.len() ==> recent_before(times, #[trigger] s[m], b),
        recent_before(times, i, b),
    ensures
        forall|m: int|
            0 <= m < insert_recent(s, times, i).len() ==> recent_before(
                times,
                #[trigger] insert_recent(s, times, i)[m],
                b,
            ),
    decreases s.len(),
{
    let ins = insert_recent(s, times, i);
    if s.len() == 0 {
        assert(ins =~= seq![i]);
    } else if times[s.last() as int] > times[i as int] {
        assert(ins =~= s.push(i));
        assert forall|m: int| 0 <= m < ins.len() implies recent_before(times, #[trigger] ins[m], b) by {
            if m < s.len() {
                assert(ins[m] == s[m]);
            }
        }
    } else {
        let t = s.drop_last();
        assert forall|m: int| 0 <= m < t.len() implies recent_before(times, #[trigger] t[m], b) by {
            assert(t[m] == s[m]);
        }
        lemma_insert_recent_before(t, times, i, b);
        let inner = insert_recent(t, times, i);
        assert(ins =~= inner.push(s.last()));
        assert forall|m: int| 0 <= m < ins.len() implies recent_before(times, #[trigger] ins[m], b) by {
            if m < inner.len() {
                assert(ins[m] == inner[m]);
            } else {
                assert(ins[m] == s[s.len() - 1]);
            }
        }
    }
}

proof fn lemma_insert_recent_sorted(s: Seq<usize>, times: Seq<i64>, i: usize)
    requires
        forall|m: int| 0 <= m < s.len() ==> #[trigger] s[m] < i,
        forall|m: int, k: int| 0 <= m < k < s.len() ==> recent_before(times, s[m], s[k]),
    ensures
        forall|m: int, k: int|
            0 <= m < k < insert_recent(s, times, i).len() ==> recent_before(
                times,
                insert_recent(s, times, i)[m],
                insert_recent(s, times, i)[k],
            ),
    decreases s.len(),
{
    let ins = insert_recent(s, times, i);
    if s.len() == 0 {
        assert(ins =~= seq![i]);
    } else {
        let t = s.drop_last();
        let last = s.last();
        if times[last as int] > times[i as int] {
            assert(ins =~= s.push(i));
            assert forall|m: int, k: int| 0 <= m < k < ins.len() implies recent_before(times, ins[m], ins[k]) by {
                assert(ins[m] == s[m]);
                if k < s.len() {
                    assert(ins[k] == s[k]);
                } else {
                    assert(ins[k] == i);
                    if m < s.len() - 1 {
                        assert(recent_before(times, s[m], last));
                    }
                }
            }
        } else {
            assert forall|m: int| 0 <= m < t.len() implies #[trigger] t[m] < i by {
                assert(t[m] == s[m]);
            }
            assert forall|m: int, k: int| 0 <= m < k < t.len() implies recent_before(times, t[m], t[k]) by {
                assert(t[m] == s[m] && t[k] == s[k]);
            }
            lemma_insert_recent_sorted(t, times, i);
            assert forall|m: int| 0 <= m < t.len() implies recent_before(times, #[trigger] t[m], last) by {
                assert(t[m] == s[m]);
            }
            assert(last < i);
            lemma_insert_recent_before(t, times, i, last);
            let inner = insert_recent(t, times, i);
            assert(ins =~= inner.push(last));
            assert forall|m: int, k: int| 0 <= m < k < ins.len() implies recent_before(times, ins[m], ins[k]) by {
                assert(ins[m] == inner[m]);
                if k < inner.len() {
                    assert(ins[k] == inner[k]);
                } else {
                    assert(ins[k] == last);
                }
            }
        }
    }
}

/// The recency order is a permutation of the indices `0..n`, newest first,
/// with equal times in the reverse of their listing order; `by_recency`
/// lists the files in that order.
pub proof fn law_recency_order(times: Seq<i64>, n: nat)
    requires
        n <= times.len(),
        times.len() <= usize::MAX,
    ensures
        recency_order(times, n).len() == n,
        forall|m: int| 0 <= m < n ==> #[trigger] recency_order(times, n)[m] < n,
        forall|m: int, k: int|
            0 <= m < k < n ==> recent_before(times, recency_order(times, n)[m], recency_order(times, n)[k]),
        forall|m: int, k: int|
            0 <= m < k < n ==> recency_order(times, n)[m] != recency_order(times, n)[k],
    decreases n,
{
    if n > 0 {
        let prev = recency_order(times, (n - 1) as nat);
        law_recency_order(times, (n - 1) as nat);
        lemma_insert_recent_bounded(prev, times, (n - 1) as usize, n as int);
        lemma_insert_recent_sorted(prev, times, (n - 1) as usize);
    }
    let o = recency_order(times, n);
    assert forall|m: int, k: int| 0 <= m < k < n implies o[m] != o[k] by {
        assert(recent_before(times, o[m], o[k]));
    }
}

/// The PNG files of a gallery, as paths.
#[derive(Debug)]
pub struct PngFiles {
    pub files: Vec<String>,
}

impl PngFiles {
    /// Orders the files newest first by `times` (the time of each file, in
    /// listing order); equal times end up in the reverse of their listing
    /// order.
    pub fn sort_by_times(&mut self, times: &Vec<i64>)
        requires
            times@.len() == old(self).files@.len(),
        ensures
            final(self).files@ == by_recency(old(self).files@, times@),
    {
        let n = self.files.len();
        let mut order: Vec<usize> = Vec::new();
        let mut i: usize = 0;
        while i < n
            invariant
                n == self.files@.len(),
                times@.len() == n,
                0 <= i <= n,
                order@ == recency_order(times@, i as nat),
                order@.len() == i,
                forall|m: int| 0 <= m < order@.len() ==> #[trigger] order@[m] < i,
            decreases n - i,
        {
            let mut j: usize = order.len();
            while j > 0 && !(times[order[j - 1]] > times[i])
                invariant
                    0 <= j <= order@.len(),
                    order@.len() == i,
                    i < n,
                    times@.len() == n,
                    forall|m: int| 0 <= m < order@.len() ==> #[trigger] order@[m] < i,
                    forall|m: int| j <= m < order@.len() ==> times@[#[trigger] order@[m] as int] <= times@[i as int],
                decreases j,
            {
                j = j - 1;
            }
            proof {
                lemma_insert_recent_at(order@, times@, i, j as int);
                lemma_insert_recent_bounded(order@, times@, i, i + 1);
            }
            order.insert(j, i);
            i = i + 1;
        }
        let mut sorted: Vec<String> = Vec::new();
        let mut k: usize = 0;
        while k < n
            invariant
                n == self.files@.len(),
                order@.len() == n,
                forall|m: int| 0 <= m < order@.len() ==> #[trigger] order@[m] < n,
                0 <= k <= n,
                sorted@.len() == k,
                forall|m: int| 0 <= m < k ==> #[trigger] sorted@[m] == self.files@[order@[m] as int],
            decreases n - k,
        {
            sorted.push(self.files[order[k]].clone());
            k = k + 1;
        }
        assert(sorted@ =~= by_recency(self.files@, times@));
        self.files = sorted;
    }

    /// Orders the files newest first by their content age in the repository
    /// of `finder`; fails with the first error that a lookup gives, leaving
    /// the order unchanged.
    pub fn sort(&mut self, finder: &UpdateTimeFinder<'_>) -> (r: Result<(), AgeError>)
        requires
            old(self).files@.len() < usize::MAX,
        ensures
            old(self).files@.len() == 0 ==> r is Ok && final(self).files@ == old(self).files@,
            r is Err ==> final(self).files@ == old(self).files@,
            r is Ok ==> exists|times: Seq<i64>|
                times.len() == old(self).files@.len() && final(self).files@ == #[trigger] by_recency(
                    old(self).files@,
                    times,
                ),
    {
        let mut times: Vec<i64> = Vec::new();
        let mut i: usize = 0;
        while i < self.files.len()
            invariant
                0 <= i <= self.files@.len(),
                times@.len() == i,
            decreases self.files@.len() - i,
        {
            let t = match finder.find(self.files[i].as_str()) {
                Ok(t) => t,
                Err(e) => return Err(e),
            };
            times.push(t);
            i = i + 1;
        }
        self.sort_by_times(&times);
        Ok(())
    }
}

} // verus!
