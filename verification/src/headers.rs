//! Headers by height: the lowest one, and all of them in order.
use crate::types::BlockHeader;
use vstd::prelude::*;

verus! {

/// Position `i` holds the lowest header, the first of them if there are several.
pub open spec fn is_first_lowest(hs: Seq<BlockHeader>, i: int) -> bool {
    &&& 0 <= i < hs.len()
    &&& forall|j: int| 0 <= j < hs.len() ==> hs[i].height <= (#[trigger] hs[j]).height
    &&& forall|j: int| 0 <= j < i ==> hs[i].height < (#[trigger] hs[j]).height
}

/// The first of the lowest headers.
pub open spec fn lowest(hs: Seq<BlockHeader>) -> BlockHeader {
    hs[choose|i: int| is_first_lowest(hs, i)]
}

/// The first of the lowest headers, if there is any header.
pub fn lowest_header(hs: &Vec<BlockHeader>) -> (r: Option<BlockHeader>)
    ensures
        match r {
            Some(h) => hs@.len() > 0 && h == lowest(hs@) && exists|i: int|
                is_first_lowest(hs@, i) && h == hs@[i],
            None => hs@.len() == 0,
        },
        r matches Some(h) ==> hs@.contains(h) && forall|j: int|
            0 <= j < hs@.len() ==> h.height <= (#[trigger] hs@[j]).height,
{
    let n: usize = hs.len();
    if n == 0 {
        return None;
    }
    let mut best: usize = 0;
    let mut k: usize = 1;
    while k < n
        invariant
            n == hs.len(),
            0 < k <= n,
            best < k,
            forall|j: int| 0 <= j < k ==> hs[best as int].height <= (#[trigger] hs[j]).height,
            forall|j: int| 0 <= j < best ==> hs[best as int].height < (#[trigger] hs[j]).height,
        decreases n - k,
    {
        if hs[k].height < hs[best].height {
            best = k;
        }
        k = k + 1;
    }
    proof {
        assert(is_first_lowest(hs@, best as int));
        let c = choose|i: int| is_first_lowest(hs@, i);
        assert(is_first_lowest(hs@, c));
        if c < best {
            assert(hs@[best as int].height < hs@[c].height);
        }
        if best < c {
            assert(hs@[c].height < hs@[best as int].height);
        }
    }
    Some(hs[best])
}

/// The lowest of some headers is one of them, none of them is lower, and those
/// before its first occurrence are higher.
pub proof fn lowest_is_lowest(hs: Seq<BlockHeader>)
    requires
        hs.len() > 0,
    ensures
        exists|i: int|
            0 <= i < hs.len() && #[trigger] hs[i] == lowest(hs) && forall|j: int|
                0 <= j < i ==> lowest(hs).height < (#[trigger] hs[j]).height,
        forall|j: int| 0 <= j < hs.len() ==> lowest(hs).height <= (#[trigger] hs[j]).height,
    decreases hs.len(),
{
    let i = lemma_first_lowest(hs);
    assert(is_first_lowest(hs, i));
    let c = choose|c: int| is_first_lowest(hs, c);
    assert(is_first_lowest(hs, c));
    assert(hs[c] == lowest(hs));
}

proof fn lemma_first_lowest(hs: Seq<BlockHeader>) -> (i: int)
    requires
        hs.len() > 0,
    ensures
        is_first_lowest(hs, i),
    decreases hs.len(),
{
    if hs.len() == 1 {
        0
    } else {
        let rest = hs.drop_last();
        let i = lemma_first_lowest(rest);
        assert forall|j: int| 0 <= j < rest.len() implies #[trigger] hs[j] == rest[j] by {}
        if hs.last().height < hs[i].height {
            hs.len() - 1
        } else {
            i
        }
    }
}

/// Picks the headers of one height.
pub open spec fn at_height(h: u64) -> spec_fn(BlockHeader) -> bool {
    |x: BlockHeader| x.height == h
}

/// No header is lower than one before it.
pub open spec fn by_height(hs: Seq<BlockHeader>) -> bool {
    forall|i: int, j: int|
        0 <= i <= j < hs.len() ==> (#[trigger] hs[i]).height <= (#[trigger] hs[j]).height
}

/// `sorted` holds the headers of `hs` by height, those of one height in the
/// order in which `hs` has them.
pub open spec fn is_sorted_from(hs: Seq<BlockHeader>, sorted: Seq<BlockHeader>) -> bool {
    &&& by_height(sorted)
    &&& sorted.len() == hs.len()
    &&& forall|h: u64| #[trigger] sorted.filter(at_height(h)) == hs.filter(at_height(h))
}

/// Picking what holds of `x` leaves each occurrence of `x`.
proof fn lemma_filter_count(s: Seq<BlockHeader>, p: spec_fn(BlockHeader) -> bool, x: BlockHeader)
    requires
        p(x),
    ensures
        s.filter(p).to_multiset().count(x) == s.to_multiset().count(x),
    decreases s.len(),
{
    broadcast use vstd::seq_lib::group_to_multiset_ensures;

    reveal(Seq::filter);
    if s.len() > 0 {
        lemma_filter_count(s.drop_last(), p, x);
        assert(s =~= s.drop_last().push(s.last()));
        assert(s.to_multiset() == s.drop_last().to_multiset().insert(s.last()));
        if p(s.last()) {
            assert(s.filter(p) == s.drop_last().filter(p).push(s.last()));
        }
    }
}

/// Sorting loses nothing, and adds nothing.
pub proof fn lemma_sorted_is_reordered(hs: Seq<BlockHeader>, sorted: Seq<BlockHeader>)
    requires
        is_sorted_from(hs, sorted),
    ensures
        sorted.to_multiset() == hs.to_multiset(),
{
    assert forall|x: BlockHeader| #[trigger]
        sorted.to_multiset().count(x) == hs.to_multiset().count(x) by {
        let p = at_height(x.height);
        lemma_filter_count(sorted, p, x);
        lemma_filter_count(hs, p, x);
        assert(sorted.filter(at_height(x.height)) == hs.filter(at_height(x.height)));
    }
    assert(sorted.to_multiset() =~= hs.to_multiset());
}

/// Of headers of one height, sorting keeps the order in which they came.
pub proof fn sorting_keeps_the_order_within_a_height(
    hs: Seq<BlockHeader>,
    sorted: Seq<BlockHeader>,
    height: u64,
)
    requires
        is_sorted_from(hs, sorted),
    ensures
        sorted.filter(|x: BlockHeader| x.height == height) == hs.filter(
            |x: BlockHeader| x.height == height,
        ),
{
    let p = |x: BlockHeader| x.height == height;
    assert(p =~= at_height(height));
    assert(sorted.filter(at_height(height)) == hs.filter(at_height(height)));
}

/// Inserting after everything that is not higher keeps the order within each
/// height.
proof fn lemma_insert_filter(s: Seq<BlockHeader>, i: int, x: BlockHeader, h: u64)
    requires
        0 <= i <= s.len(),
        forall|j: int| i <= j < s.len() ==> x.height < (#[trigger] s[j]).height,
    ensures
        s.insert(i, x).filter(at_height(h)) == s.push(x).filter(at_height(h)),
    decreases s.len(),
{
    let p = at_height(h);
    if i == s.len() {
        assert(s.insert(i, x) =~= s.push(x));
    } else {
        let rest = s.drop_last();
        let l = s.last();
        lemma_insert_filter(rest, i, x, h);
        assert(s =~= rest.push(l));
        assert(s.insert(i, x) =~= rest.insert(i, x).push(l));
        rest.insert(i, x).lemma_filter_push(l, p);
        rest.lemma_filter_push(x, p);
        rest.lemma_filter_push(l, p);
        s.lemma_filter_push(x, p);
        assert(x.height < s[s.len() - 1].height);
    }
}

/// The headers by height; those of one height stay in their order.
pub fn sort_by_height(hs: Vec<BlockHeader>) -> (sorted: Vec<BlockHeader>)
    ensures
        is_sorted_from(hs@, sorted@),
        sorted@.to_multiset() == hs@.to_multiset(),
        forall|i: int, j: int|
            0 <= i <= j < sorted@.len() ==> (#[trigger] sorted@[i]).height <= (
            #[trigger] sorted@[j]).height,
{
    let mut sorted: Vec<BlockHeader> = Vec::new();
    let n: usize = hs.len();
    for k in 0..n
        invariant
            n == hs.len(),
            by_height(sorted@),
            sorted.len() == k,
            forall|h: u64| #[trigger]
                sorted@.filter(at_height(h)) == hs@.take(k as int).filter(at_height(h)),
    {
        let x: BlockHeader = hs[k];
        let mut i: usize = k;
        while i > 0 && x.height < sorted[i - 1].height
            invariant
                i <= k,
                sorted.len() == k,
                by_height(sorted@),
                forall|j: int| i <= j < k ==> x.height < (#[trigger] sorted[j]).height,
            decreases i,
        {
            i = i - 1;
        }
        let ghost before = sorted@;
        sorted.insert(i, x);
        proof {
            assert forall|h: u64| #[trigger] sorted@.filter(at_height(h)) == hs@.take(k + 1).filter(
                at_height(h),
            ) by {
                lemma_insert_filter(before, i as int, x, h);
                reveal(Seq::filter);
                assert(before.push(x).drop_last() =~= before);
                assert(hs@.take(k + 1).drop_last() =~= hs@.take(k as int));
                assert(before.filter(at_height(h)) == hs@.take(k as int).filter(at_height(h)));
            }
            assert forall|a: int, b: int| 0 <= a <= b < sorted@.len() implies (
            #[trigger] sorted@[a]).height <= (#[trigger] sorted@[b]).height by {
                let a0 = if a < i { a } else { a - 1 };
                let b0 = if b < i { b } else { b - 1 };
                if a < i {
                    assert(sorted@[a] == before[a]);
                    assert(before[a].height <= before[i - 1].height);
                } else if a > i {
                    assert(sorted@[a] == before[a0]);
                }
                if b < i {
                    assert(sorted@[b] == before[b]);
                } else if b > i {
                    assert(sorted@[b] == before[b0]);
                }
            }
        }
    }
    assert(hs@.take(n as int) =~= hs@);
    proof {
        lemma_sorted_is_reordered(hs@, sorted@);
    }
    sorted
}

} // verus!
