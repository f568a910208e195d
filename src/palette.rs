use vstd::prelude::*;
use crate::color::{Rgba, key_rank, sort_key_of};

verus! {

/// `c` placed into `s` after every entry whose key is at most its own,
/// scanning from the end: the insertion step of a stable sort by key.
pub open spec fn insert_by_key(s: Seq<Rgba>, c: Rgba) -> Seq<Rgba>
    decreases s.len(),
{
    if s.len() == 0 {
        seq![c]
    } else if key_rank(s.last()) <= key_rank(c) {
        s.push(c)
    } else {
        insert_by_key(s.drop_last(), c).push(s.last())
    }
}

/// `s` stably sorted by display key: ascending keys, and entries of equal
/// key in the order in which they stand in `s`.
pub open spec fn display_order(s: Seq<Rgba>) -> Seq<Rgba>
    decreases s.len(),
{
    if s.len() == 0 {
        s
    } else {
        insert_by_key(display_order(s.drop_last()), s.last())
    }
}

/// The entries of `s` whose key is `k`, in their order in `s`.
pub open spec fn with_key(s: Seq<Rgba>, k: int) -> Seq<Rgba>
    decreases s.len(),
{
    if s.len() == 0 {
        s
    } else if key_rank(s.last()) == k {
        with_key(s.drop_last(), k).push(s.last())
    } else {
        with_key(s.drop_last(), k)
    }
}

/// Whether the keys of `s` never decrease.
pub open spec fn sorted_by_key(s: Seq<Rgba>) -> bool {
    forall|i: int, j: int| 0 <= i < j < s.len() ==> key_rank(s[i]) <= key_rank(s[j])
}

/// The colors that the palette shows: `colors`, followed by the background
/// where it is wanted, defined, and not already among them.
pub open spec fn palette_entries(colors: Seq<Rgba>, background: Option<Rgba>, include_background: bool) -> Seq<Rgba> {
    match background {
        Some(bg) => if include_background && !colors.contains(bg) {
            colors.push(bg)
        } else {
            colors
        },
        None => colors,
    }
}

proof fn lemma_insert_at(s: Seq<Rgba>, c: Rgba, j: int)
    requires
        0 <= j <= s.len(),
        forall|i: int| j <= i < s.len() ==> key_rank(#[trigger] s[i]) > key_rank(c),
        j == 0 || key_rank(s[j - 1]) <= key_rank(c),
    ensures
        insert_by_key(s, c) == s.insert(j, c),
    decreases s.len(),
{
    if s.len() == 0 {
        assert(s.insert(j, c) =~= seq![c]);
    } else if j == s.len() {
        assert(s.insert(j, c) =~= s.push(c));
    } else {
        let t = s.drop_last();
        assert(key_rank(s[s.len() - 1]) > key_rank(c));
        assert forall|i: int| j <= i < t.len() implies key_rank(#[trigger] t[i]) > key_rank(c) by {
            assert(t[i] == s[i]);
        }
        if j > 0 {
            assert(t[j - 1] == s[j - 1]);
        }
        lemma_insert_at(t, c, j);
        assert(t.insert(j, c).push(s.last()) =~= s.insert(j, c));
    }
}

proof fn lemma_insert_with_key(s: Seq<Rgba>, c: Rgba, k: int)
    ensures
        with_key(insert_by_key(s, c), k) == (if key_rank(c) == k {
            with_key(s, k).push(c)
        } else {
            with_key(s, k)
        }),
    decreases s.len(),
{
    if s.len() == 0 {
        let one = seq![c];
        assert(one.drop_last() =~= s);
    } else if key_rank(s.last()) <= key_rank(c) {
        assert(s.push(c).drop_last() =~= s);
    } else {
        let t = s.drop_last();
        lemma_insert_with_key(t, c, k);
        let ins = insert_by_key(t, c);
        assert(ins.push(s.last()).drop_last() =~= ins);
        assert(t.push(s.last()) =~= s);
    }
}

proof fn lemma_insert_bounded(s: Seq<Rgba>, c: Rgba, bound: int)
    requires
        forall|i: int| 0 <= i < s.len() ==> key_rank(#[trigger] s[i]) <= bound,
        key_rank(c) <= bound,
    ensures
        forall|i: int|
            0 <= i < insert_by_key(s, c).len() ==> key_rank(#[trigger] insert_by_key(s, c)[i])
                <= bound,
        insert_by_key(s, c).len() == s.len() + 1,
    decreases s.len(),
{
    if s.len() > 0 && key_rank(s.last()) > key_rank(c) {
        let t = s.drop_last();
        lemma_insert_bounded(t, c, bound);
    }
}

proof fn lemma_insert_sorted(s: Seq<Rgba>, c: Rgba)
    requires
        sorted_by_key(s),
    ensures
        sorted_by_key(insert_by_key(s, c)),
        insert_by_key(s, c).len() == s.len() + 1,
    decreases s.len(),
{
    if s.len() > 0 && key_rank(s.last()) > key_rank(c) {
        let t = s.drop_last();
        let last = s.last();
        lemma_insert_sorted(t, c);
        lemma_insert_bounded(t, c, key_rank(last));
        let ins = insert_by_key(t, c);
        assert(sorted_by_key(ins.push(last)));
    }
}

/// The display order is sorted by key.
pub proof fn law_display_order_sorted(s: Seq<Rgba>)
    ensures
        sorted_by_key(display_order(s)),
        display_order(s).len() == s.len(),
    decreases s.len(),
{
    if s.len() > 0 {
        law_display_order_sorted(s.drop_last());
        lemma_insert_sorted(display_order(s.drop_last()), s.last());
    }
}

/// The display order is stable: for every key, the entries that carry it
/// keep the relative order they had in the input.
pub proof fn law_display_order_stable(s: Seq<Rgba>, k: int)
    ensures
        with_key(display_order(s), k) == with_key(s, k),
    decreases s.len(),
{
    if s.len() > 0 {
        law_display_order_stable(s.drop_last(), k);
        lemma_insert_with_key(display_order(s.drop_last()), s.last(), k);
    }
}

/// A sequence already sorted by key is its own display order.
pub proof fn law_sorted_is_fixed(s: Seq<Rgba>)
    requires
        sorted_by_key(s),
    ensures
        display_order(s) == s,
    decreases s.len(),
{
    if s.len() > 0 {
        let t = s.drop_last();
        assert(sorted_by_key(t));
        law_sorted_is_fixed(t);
        if t.len() > 0 {
            assert(t.last() == s[s.len() - 2]);
        }
        assert(t.push(s.last()) =~= s);
    }
}

/// Ordering for display is idempotent.
pub proof fn law_display_order_idempotent(s: Seq<Rgba>)
    ensures
        display_order(display_order(s)) == display_order(s),
{
    law_display_order_sorted(s);
    law_sorted_is_fixed(display_order(s));
}

/// Inserts `c` into `v` after every entry whose key is at most its own.
fn insert_color(v: &mut Vec<Rgba>, c: Rgba)
    ensures
        final(v)@ == insert_by_key(old(v)@, c),
{
    let k = sort_key_of(c);
    let mut j: usize = v.len();
    while j > 0 && sort_key_of(v[j - 1]) > k
        invariant
            0 <= j <= v@.len(),
            k as int == key_rank(c),
            forall|i: int| j <= i < v@.len() ==> key_rank(#[trigger] v@[i]) > key_rank(c),
        decreases j,
    {
        j = j - 1;
    }
    proof {
        lemma_insert_at(v@, c, j as int);
    }
    v.insert(j, c);
}

fn contains_color(colors: &Vec<Rgba>, c: Rgba) -> (r: bool)
    ensures
        r == colors@.contains(c),
{
    let mut i: usize = 0;
    while i < colors.len()
        invariant
            0 <= i <= colors@.len(),
            forall|j: int| 0 <= j < i ==> colors@[j] != c,
        decreases colors@.len() - i,
    {
        if colors[i] == c {
            return true;
        }
        i = i + 1;
    }
    false
}

/// The palette in display order: `colors` (the background appended where
/// `include_background` asks for it, it is defined, and it is not among
/// them), stably sorted by hue bucket and then lightness bucket.
pub fn sort_for_display(colors: &Vec<Rgba>, background: Option<Rgba>, include_background: bool) -> (r: Vec<Rgba>)
    requires
        colors@.len() < usize::MAX,
    ensures
        r@ == display_order(palette_entries(colors@, background, include_background)),
{
    let mut entries: Vec<Rgba> = colors.clone();
    assert(entries@ =~= colors@);
    if let Some(bg) = background {
        if include_background && !contains_color(colors, bg) {
            entries.push(bg);
        }
    }
    let ghost input = entries@;
    assert(input == palette_entries(colors@, background, include_background));
    let mut sorted: Vec<Rgba> = Vec::new();
    let mut i: usize = 0;
    assert(input.subrange(0, 0) =~= Seq::<Rgba>::empty());
    while i < entries.len()
        invariant
            entries@ == input,
            0 <= i <= input.len(),
            sorted@ == display_order(input.subrange(0, i as int)),
        decreases input.len() - i,
    {
        let ghost prefix = input.subrange(0, i as int + 1);
        assert(prefix.drop_last() =~= input.subrange(0, i as int));
        insert_color(&mut sorted, entries[i]);
        i = i + 1;
    }
    assert(input.subrange(0, input.len() as int) =~= input);
    sorted
}

} // verus!
