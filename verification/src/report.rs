//! Ordering of the accumulated entries for the rendered report: the sentinel
//! process is dropped, and the rest are sorted in descending order of
//! `vram_bytes + gtt_bytes`, stably — entries with equal totals keep their
//! accumulation order.

use vstd::prelude::*;

use crate::parser::MemoryUsage;
use crate::parser::SENTINEL_PID;

verus! {

/// Sort key of an entry: its combined VRAM and GTT footprint.
pub open spec fn total_of(e: MemoryUsage) -> int {
    e.vram_bytes + e.gtt_bytes
}

/// The entries that survive into the report: everything but the sentinel.
pub open spec fn non_sentinel(s: Seq<MemoryUsage>) -> Seq<MemoryUsage>
    decreases s.len(),
{
    if s.len() == 0 {
        Seq::empty()
    } else {
        let rest = non_sentinel(s.drop_last());
        if s.last().process_id == SENTINEL_PID {
            rest
        } else {
            rest.push(s.last())
        }
    }
}

/// Insertion of `e` into `s` before the first element whose total does not
/// exceed `e`'s: on a descending list this keeps the order descending, and
/// places `e` before every equal total — later arrivals go after.
pub open spec fn insert_desc(e: MemoryUsage, s: Seq<MemoryUsage>) -> Seq<MemoryUsage>
    decreases s.len(),
{
    if s.len() == 0 {
        seq![e]
    } else if total_of(e) >= total_of(s[0]) {
        seq![e] + s
    } else {
        seq![s[0]] + insert_desc(e, s.drop_first())
    }
}

/// Stable insertion sort by descending total.
pub open spec fn sort_desc(s: Seq<MemoryUsage>) -> Seq<MemoryUsage>
    decreases s.len(),
{
    if s.len() == 0 {
        Seq::empty()
    } else {
        insert_desc(s[0], sort_desc(s.drop_first()))
    }
}

/// Descending order of totals, not necessarily strict.
pub open spec fn sorted_desc(s: Seq<MemoryUsage>) -> bool {
    forall|i: int, j: int| 0 <= i <= j < s.len() ==> total_of(s[i]) >= total_of(s[j])
}

/// The subsequence of `s` whose entries have total `k`, in order.
pub open spec fn with_total(s: Seq<MemoryUsage>, k: int) -> Seq<MemoryUsage>
    decreases s.len(),
{
    if s.len() == 0 {
        Seq::empty()
    } else if total_of(s[0]) == k {
        seq![s[0]] + with_total(s.drop_first(), k)
    } else {
        with_total(s.drop_first(), k)
    }
}

proof fn lemma_insert_desc_len(e: MemoryUsage, s: Seq<MemoryUsage>)
    ensures
        insert_desc(e, s).len() == s.len() + 1,
    decreases s.len(),
{
    if s.len() > 0 && total_of(e) < total_of(s[0]) {
        lemma_insert_desc_len(e, s.drop_first());
    }
}

/// Inserting preserves descending order and adds no total above the larger
/// of `e`'s and the head's.
proof fn lemma_insert_desc_sorted(e: MemoryUsage, s: Seq<MemoryUsage>)
    requires
        sorted_desc(s),
    ensures
        sorted_desc(insert_desc(e, s)),
        forall|j: int|
            0 <= j < insert_desc(e, s).len() ==> total_of(#[trigger] insert_desc(e, s)[j])
                <= if s.len() == 0 {
                total_of(e)
            } else if total_of(e) >= total_of(s[0]) {
                total_of(e)
            } else {
                total_of(s[0])
            },
    decreases s.len(),
{
    if s.len() == 0 {
    } else if total_of(e) >= total_of(s[0]) {
        assert forall|i: int, j: int|
            0 <= i <= j < (seq![e] + s).len() implies total_of((seq![e] + s)[i]) >= total_of(
            (seq![e] + s)[j],
        ) by {
            if i > 0 {
                assert((seq![e] + s)[i] == s[i - 1]);
            }
            if j > 0 {
                assert((seq![e] + s)[j] == s[j - 1]);
            }
        }
    } else {
        assert(forall|i: int|
            0 <= i < s.len() - 1 ==> (#[trigger] s.drop_first()[i]) == s[i + 1]);
        lemma_insert_desc_sorted(e, s.drop_first());
        lemma_insert_desc_len(e, s.drop_first());
        let t = seq![s[0]] + insert_desc(e, s.drop_first());
        assert forall|i: int, j: int|
            0 <= i <= j < t.len() implies total_of(t[i]) >= total_of(t[j]) by {
            if i > 0 {
                assert(t[i] == insert_desc(e, s.drop_first())[i - 1]);
            }
            if j > 0 {
                assert(t[j] == insert_desc(e, s.drop_first())[j - 1]);
            }
        }
        assert forall|j: int| 0 <= j < t.len() implies total_of(t[j]) <= total_of(s[0]) by {
            if j > 0 {
                assert(t[j] == insert_desc(e, s.drop_first())[j - 1]);
            }
        }
    }
}

/// The sorted sequence is descending on totals.
pub proof fn lemma_sort_desc_sorted(s: Seq<MemoryUsage>)
    ensures
        sorted_desc(sort_desc(s)),
    decreases s.len(),
{
    if s.len() > 0 {
        lemma_sort_desc_sorted(s.drop_first());
        lemma_insert_desc_sorted(s[0], sort_desc(s.drop_first()));
    }
}

proof fn lemma_insert_desc_multiset(e: MemoryUsage, s: Seq<MemoryUsage>)
    ensures
        insert_desc(e, s).to_multiset() == s.to_multiset().insert(e),
    decreases s.len(),
{
    broadcast use vstd::seq_lib::group_to_multiset_ensures;

    if s.len() == 0 {
        assert(seq![e] =~= Seq::empty().push(e));
        assert(seq![e].to_multiset() == Seq::<MemoryUsage>::empty().to_multiset().insert(e));
    } else if total_of(e) >= total_of(s[0]) {
        assert(seq![e] + s =~= s.insert(0, e));
    } else {
        lemma_insert_desc_multiset(e, s.drop_first());
        assert(seq![s[0]] + insert_desc(e, s.drop_first()) =~= insert_desc(
            e,
            s.drop_first(),
        ).insert(0, s[0]));
        assert(s =~= s.drop_first().insert(0, s[0]));
    }
}

/// Sorting permutes: every entry appears exactly as often as before.
pub proof fn lemma_sort_desc_multiset(s: Seq<MemoryUsage>)
    ensures
        sort_desc(s).to_multiset() == s.to_multiset(),
    decreases s.len(),
{
    broadcast use vstd::seq_lib::group_to_multiset_ensures;

    if s.len() > 0 {
        lemma_sort_desc_multiset(s.drop_first());
        lemma_insert_desc_multiset(s[0], sort_desc(s.drop_first()));
        assert(s =~= s.drop_first().insert(0, s[0]));
    }
}

proof fn lemma_with_total_cons(x: MemoryUsage, s: Seq<MemoryUsage>, k: int)
    ensures
        with_total(seq![x] + s, k) == if total_of(x) == k {
            seq![x] + with_total(s, k)
        } else {
            with_total(s, k)
        },
{
    let t = seq![x] + s;
    assert(t[0] == x);
    assert(t.drop_first() =~= s);
}

/// Inserting `e` keeps the relative order of every total class: `e` joins
/// the front of its own class (everything already placed before it has a
/// strictly greater total) and no other class moves.
proof fn lemma_insert_desc_stable(e: MemoryUsage, s: Seq<MemoryUsage>, k: int)
    ensures
        with_total(insert_desc(e, s), k) == if total_of(e) == k {
            seq![e] + with_total(s, k)
        } else {
            with_total(s, k)
        },
    decreases s.len(),
{
    if s.len() == 0 {
        assert(seq![e] =~= seq![e] + Seq::<MemoryUsage>::empty());
        lemma_with_total_cons(e, Seq::empty(), k);
    } else if total_of(e) >= total_of(s[0]) {
        lemma_with_total_cons(e, s, k);
    } else {
        lemma_insert_desc_stable(e, s.drop_first(), k);
        lemma_with_total_cons(s[0], insert_desc(e, s.drop_first()), k);
        lemma_with_total_cons(s[0], s.drop_first(), k);
        assert(seq![s[0]] + s.drop_first() =~= s);
        if total_of(s[0]) == k {
            if total_of(e) == k {
                assert(total_of(e) < total_of(s[0]));
            }
        }
    }
}

/// Stability: for every total `k`, the entries with total `k` appear in the
/// sorted sequence exactly as they appear in the input.
pub proof fn lemma_sort_desc_stable(s: Seq<MemoryUsage>, k: int)
    ensures
        with_total(sort_desc(s), k) == with_total(s, k),
    decreases s.len(),
{
    if s.len() > 0 {
        lemma_sort_desc_stable(s.drop_first(), k);
        lemma_insert_desc_stable(s[0], sort_desc(s.drop_first()), k);
        lemma_with_total_cons(s[0], s.drop_first(), k);
        assert(seq![s[0]] + s.drop_first() =~= s);
    }
}

/// Position in `s` before which `e` is inserted: the first index whose total
/// does not exceed `e`'s, or the length.
spec fn insert_pos(e: MemoryUsage, s: Seq<MemoryUsage>) -> int
    decreases s.len(),
{
    if s.len() == 0 {
        0
    } else if total_of(e) >= total_of(s[0]) {
        0
    } else {
        1 + insert_pos(e, s.drop_first())
    }
}

proof fn lemma_insert_desc_as_splice(e: MemoryUsage, s: Seq<MemoryUsage>)
    ensures
        0 <= insert_pos(e, s) <= s.len(),
        insert_desc(e, s) == s.take(insert_pos(e, s)) + seq![e] + s.skip(insert_pos(e, s)),
    decreases s.len(),
{
    let p = insert_pos(e, s);
    if s.len() == 0 {
        assert(s.take(0) + seq![e] + s.skip(0) =~= seq![e]);
    } else if total_of(e) >= total_of(s[0]) {
        assert(s.take(0) + seq![e] + s.skip(0) =~= seq![e] + s);
    } else {
        lemma_insert_desc_as_splice(e, s.drop_first());
        let q = insert_pos(e, s.drop_first());
        assert(seq![s[0]] + (s.drop_first().take(q) + seq![e] + s.drop_first().skip(q))
            =~= s.take(q + 1) + seq![e] + s.skip(q + 1));
    }
}

fn total_key(e: &MemoryUsage) -> (k: u128)
    ensures
        k == total_of(*e),
{
    e.vram_bytes as u128 + e.gtt_bytes as u128
}

/// Inserts `e` into the descending-sorted vector at its stable position.
fn insert_entry(out: &mut Vec<MemoryUsage>, e: MemoryUsage)
    ensures
        final(out)@ == insert_desc(e, old(out)@),
{
    proof {
        lemma_insert_desc_as_splice(e, out@);
    }
    let ghost orig = out@;
    let ghost p = insert_pos(e, out@);
    let mut k: usize = 0;
    while k < out.len() && total_key(&e) < total_key(&out[k])
        invariant
            k <= orig.len(),
            out@ == orig,
            forall|i: int| 0 <= i < k ==> total_of(e) < total_of(#[trigger] orig[i]),
        decreases orig.len() - k,
    {
        k = k + 1;
    }
    proof {
        lemma_insert_pos_first(e, orig, k as int);
    }
    out.insert(k, e);
    proof {
        assert(out@ =~= orig.take(p) + seq![e] + orig.skip(p));
    }
}

proof fn lemma_insert_pos_first(e: MemoryUsage, s: Seq<MemoryUsage>, k: int)
    requires
        0 <= k <= s.len(),
        forall|i: int| 0 <= i < k ==> total_of(e) < total_of(#[trigger] s[i]),
        k < s.len() ==> total_of(e) >= total_of(s[k]),
    ensures
        insert_pos(e, s) == k,
    decreases s.len(),
{
    if k > 0 {
        assert(forall|i: int|
            0 <= i < s.len() - 1 ==> (#[trigger] s.drop_first()[i]) == s[i + 1]);
        lemma_insert_pos_first(e, s.drop_first(), k - 1);
    }
}

/// The entries of the rendered report: the sentinel process is dropped and
/// the rest are stably sorted in descending order of `vram_bytes +
/// gtt_bytes`. The result is exactly `sort_desc(non_sentinel(entries))`; in
/// particular it is descending and holds no sentinel entry.
pub fn report_order(entries: &Vec<MemoryUsage>) -> (out: Vec<MemoryUsage>)
    ensures
        out@ == sort_desc(non_sentinel(entries@)),
        sorted_desc(out@),
        forall|i: int| 0 <= i < out@.len() ==> (#[trigger] out@[i]).process_id != SENTINEL_PID,
{
    let mut kept: Vec<MemoryUsage> = Vec::new();
    let mut i: usize = 0;
    while i < entries.len()
        invariant
            i <= entries@.len(),
            kept@ == non_sentinel(entries@.take(i as int)),
        decreases entries@.len() - i,
    {
        proof {
            assert(entries@.take(i + 1).drop_last() =~= entries@.take(i as int));
        }
        let e = entries[i];
        if e.process_id != SENTINEL_PID {
            kept.push(e);
        }
        i = i + 1;
    }
    proof {
        assert(entries@.take(entries@.len() as int) =~= entries@);
    }
    let ghost keptg = kept@;
    let mut out: Vec<MemoryUsage> = Vec::new();
    let mut j: usize = kept.len();
    while j > 0
        invariant
            j <= keptg.len(),
            kept@ == keptg,
            out@ == sort_desc(keptg.skip(j as int)),
        decreases j,
    {
        j = j - 1;
        let e = kept[j];
        insert_entry(&mut out, e);
        proof {
            assert(keptg.skip(j as int).drop_first() =~= keptg.skip(j + 1));
            assert(keptg.skip(j as int)[0] == keptg[j as int]);
        }
    }
    proof {
        assert(keptg.skip(0) =~= keptg);
        lemma_sort_desc_sorted(non_sentinel(entries@));
        lemma_non_sentinel_no_sentinel(entries@);
        lemma_sort_desc_multiset(non_sentinel(entries@));
        assert forall|i: int|
            0 <= i < out@.len() implies (#[trigger] out@[i]).process_id != SENTINEL_PID by {
            broadcast use vstd::seq_lib::group_to_multiset_ensures;

            assert(out@.to_multiset().count(out@[i]) > 0);
            assert(non_sentinel(entries@).to_multiset().count(out@[i]) > 0);
            assert(non_sentinel(entries@).contains(out@[i]));
        }
    }
    out
}

/// No entry surviving the sentinel filter carries the sentinel id.
proof fn lemma_non_sentinel_no_sentinel(s: Seq<MemoryUsage>)
    ensures
        forall|i: int|
            0 <= i < non_sentinel(s).len() ==> (#[trigger] non_sentinel(s)[i]).process_id
                != SENTINEL_PID,
    decreases s.len(),
{
    if s.len() > 0 {
        lemma_non_sentinel_no_sentinel(s.drop_last());
        let rest = non_sentinel(s.drop_last());
        assert forall|i: int|
            0 <= i < non_sentinel(s).len() implies (#[trigger] non_sentinel(s)[i]).process_id
            != SENTINEL_PID by {
            if s.last().process_id == SENTINEL_PID {
                assert(non_sentinel(s)[i] == rest[i]);
            } else if i < rest.len() {
                assert(non_sentinel(s)[i] == rest[i]);
            } else {
                assert(non_sentinel(s)[i] == s.last());
            }
        }
    }
}

} // verus!
