//! Facts about heap chains: what a chain is made of, and how it changes
//! when one of its pages gains a record or the chain gains a page.
use vstd::prelude::*;
use crate::error::FluxError;
use crate::page::page_records;
use crate::pager::{chain_from, heap_page_ok, next_of, page_at, records_of_pages};

verus! {

/// More fuel walks the same chain.
pub proof fn lemma_chain_fuel(img: Seq<u8>, ps: int, pc: int, s: u32, f: nat, f2: nat)
    requires
        chain_from(img, ps, pc, s, f) is Ok,
        f <= f2,
    ensures
        chain_from(img, ps, pc, s, f2) == chain_from(img, ps, pc, s, f),
    decreases f,
{
    if s != 0 {
        let p = page_at(img, ps, s as int);
        lemma_chain_fuel(img, ps, pc, next_of(p), (f - 1) as nat, (f2 - 1) as nat);
    }
}

/// Every page id of a chain is non-zero, inside the file and a heap page,
/// and the chain from the id at position `m` is the rest of the chain.
pub proof fn lemma_chain_suffix(img: Seq<u8>, ps: int, pc: int, s: u32, f: nat, m: int)
    requires
        chain_from(img, ps, pc, s, f) is Ok,
        0 <= m < chain_from(img, ps, pc, s, f)->Ok_0.len(),
    ensures
        ({
            let ids = chain_from(img, ps, pc, s, f)->Ok_0;
            &&& m <= f
            &&& ids[m] != 0
            &&& ids[m] < pc
            &&& heap_page_ok(page_at(img, ps, ids[m] as int))
            &&& chain_from(img, ps, pc, ids[m], (f - m) as nat) == Ok::<Seq<u32>, FluxError>(
                ids.subrange(m, ids.len() as int),
            )
        }),
    decreases f,
{
    let ids = chain_from(img, ps, pc, s, f)->Ok_0;
    let p = page_at(img, ps, s as int);
    let rest = chain_from(img, ps, pc, next_of(p), (f - 1) as nat)->Ok_0;
    assert(ids == seq![s] + rest);
    if m == 0 {
        assert(ids.subrange(0, ids.len() as int) =~= ids);
    } else {
        lemma_chain_suffix(img, ps, pc, next_of(p), (f - 1) as nat, m - 1);
        assert(ids.subrange(m, ids.len() as int) =~= rest.subrange(m - 1, rest.len() as int));
    }
}

/// A chain visits no page twice.
pub proof fn lemma_chain_distinct(img: Seq<u8>, ps: int, pc: int, s: u32, f: nat)
    requires
        chain_from(img, ps, pc, s, f) is Ok,
    ensures
        chain_from(img, ps, pc, s, f)->Ok_0.no_duplicates(),
    decreases f,
{
    let ids = chain_from(img, ps, pc, s, f)->Ok_0;
    if s != 0 {
        let p = page_at(img, ps, s as int);
        let rest = chain_from(img, ps, pc, next_of(p), (f - 1) as nat)->Ok_0;
        lemma_chain_distinct(img, ps, pc, next_of(p), (f - 1) as nat);
        assert(ids == seq![s] + rest);
        assert forall|i: int, j: int| 0 <= i < j < ids.len() implies ids[i] != ids[j] by {
            if i == 0 && ids[j] == s {
                lemma_chain_suffix(img, ps, pc, s, f, j);
                let g = (f - j) as nat;
                lemma_chain_fuel(img, ps, pc, s, g, f);
                assert(ids.subrange(j, ids.len() as int).len() < ids.len());
            } else if i > 0 {
                assert(ids[i] == rest[i - 1] && ids[j] == rest[j - 1]);
            }
        }
    }
}

/// A chain stays as it is when every page on it keeps its forward link and
/// stays a heap page, whatever else changes.
pub proof fn lemma_chain_stable(
    img: Seq<u8>,
    img2: Seq<u8>,
    ps: int,
    pc: int,
    pc2: int,
    s: u32,
    f: nat,
    f2: nat,
)
    requires
        chain_from(img, ps, pc, s, f) is Ok,
        pc <= pc2,
        f <= f2,
        forall|m: int|
            0 <= m < chain_from(img, ps, pc, s, f)->Ok_0.len() ==> heap_page_ok(
                #[trigger] page_at(img2, ps, chain_from(img, ps, pc, s, f)->Ok_0[m] as int),
            ) && next_of(page_at(img2, ps, chain_from(img, ps, pc, s, f)->Ok_0[m] as int))
                == next_of(page_at(img, ps, chain_from(img, ps, pc, s, f)->Ok_0[m] as int)),
    ensures
        chain_from(img2, ps, pc2, s, f2) == chain_from(img, ps, pc, s, f),
    decreases f,
{
    let ids = chain_from(img, ps, pc, s, f)->Ok_0;
    if s != 0 {
        let p = page_at(img, ps, s as int);
        let rest = chain_from(img, ps, pc, next_of(p), (f - 1) as nat)->Ok_0;
        assert(ids == seq![s] + rest);
        assert(ids[0] == s);
        assert(page_at(img2, ps, ids[0] as int) == page_at(img2, ps, s as int));
        assert forall|m: int| 0 <= m < rest.len() implies heap_page_ok(
            #[trigger] page_at(img2, ps, rest[m] as int),
        ) && next_of(page_at(img2, ps, rest[m] as int)) == next_of(page_at(img, ps, rest[m] as int)) by {
            assert(rest[m] == ids[m + 1]);
            assert(page_at(img2, ps, ids[m + 1] as int) == page_at(img2, ps, rest[m] as int));
        }
        lemma_chain_stable(img, img2, ps, pc, pc2, next_of(p), (f - 1) as nat, (f2 - 1) as nat);
    }
}

/// A chain that ended at `last` and now links on to a new heap page `n`
/// that ends the chain walks one page further.
pub proof fn lemma_chain_extend(
    img: Seq<u8>,
    img2: Seq<u8>,
    ps: int,
    pc: int,
    pc2: int,
    s: u32,
    f: nat,
    f2: nat,
    n: u32,
)
    requires
        chain_from(img, ps, pc, s, f) is Ok,
        chain_from(img, ps, pc, s, f)->Ok_0.len() > 0,
        pc <= pc2,
        f + 1 <= f2,
        n != 0,
        n < pc2,
        !chain_from(img, ps, pc, s, f)->Ok_0.contains(n),
        ({
            let ids = chain_from(img, ps, pc, s, f)->Ok_0;
            forall|m: int|
                0 <= m < ids.len() - 1 ==> heap_page_ok(#[trigger] page_at(img2, ps, ids[m] as int))
                    && next_of(page_at(img2, ps, ids[m] as int)) == next_of(
                    page_at(img, ps, ids[m] as int),
                )
        }),
        heap_page_ok(page_at(img2, ps, chain_from(img, ps, pc, s, f)->Ok_0.last() as int)),
        next_of(page_at(img2, ps, chain_from(img, ps, pc, s, f)->Ok_0.last() as int)) == n,
        heap_page_ok(page_at(img2, ps, n as int)),
        next_of(page_at(img2, ps, n as int)) == 0,
    ensures
        chain_from(img2, ps, pc2, s, f2) == Ok::<Seq<u32>, FluxError>(
            chain_from(img, ps, pc, s, f)->Ok_0.push(n),
        ),
    decreases f,
{
    let ids = chain_from(img, ps, pc, s, f)->Ok_0;
    let p = page_at(img, ps, s as int);
    let rest = chain_from(img, ps, pc, next_of(p), (f - 1) as nat)->Ok_0;
    assert(ids == seq![s] + rest);
    if rest.len() == 0 {
        assert(ids.last() == s);
        assert(f >= 1);
        assert(chain_from(img2, ps, pc2, 0u32, (f2 - 2) as nat) == Ok::<Seq<u32>, FluxError>(
            Seq::empty(),
        ));
        assert(chain_from(img2, ps, pc2, n, (f2 - 1) as nat) == Ok::<Seq<u32>, FluxError>(seq![n]))
            by {
            assert(seq![n] + Seq::<u32>::empty() =~= seq![n]);
        }
        assert(seq![s] + seq![n] =~= ids.push(n));
    } else {
        lemma_chain_distinct(img, ps, pc, s, f);
        assert(ids[0] == s && ids.last() == rest.last());
        assert(ids[0] != ids[ids.len() - 1]);
        assert(next_of(page_at(img2, ps, ids[0] as int)) == next_of(page_at(img, ps, ids[0] as int)));
        assert forall|m: int| 0 <= m < rest.len() - 1 implies heap_page_ok(
            #[trigger] page_at(img2, ps, rest[m] as int),
        ) && next_of(page_at(img2, ps, rest[m] as int)) == next_of(page_at(img, ps, rest[m] as int)) by {
            assert(rest[m] == ids[m + 1]);
        }
        assert(!rest.contains(n)) by {
            if rest.contains(n) {
                let k = choose|k: int| 0 <= k < rest.len() && rest[k] == n;
                assert(ids[k + 1] == n);
            }
        }
        lemma_chain_extend(img, img2, ps, pc, pc2, next_of(p), (f - 1) as nat, (f2 - 1) as nat, n);
        assert(seq![s] + rest.push(n) =~= ids.push(n));
    }
}

/// The records of two runs of pages, one after the other.
pub proof fn lemma_records_concat(img: Seq<u8>, ps: int, a: Seq<u32>, b: Seq<u32>)
    ensures
        records_of_pages(img, ps, a + b) == records_of_pages(img, ps, a) + records_of_pages(img, ps, b),
    decreases b.len(),
{
    if b.len() == 0 {
        assert(a + b =~= a);
        assert(records_of_pages(img, ps, a) + Seq::<Seq<u8>>::empty() =~= records_of_pages(img, ps, a));
    } else {
        assert((a + b).drop_last() =~= a + b.drop_last());
        assert((a + b).last() == b.last());
        lemma_records_concat(img, ps, a, b.drop_last());
        assert(records_of_pages(img, ps, a + b) =~= records_of_pages(img, ps, a) + records_of_pages(
            img,
            ps,
            b,
        ));
    }
}

/// Pages that hold the same records give the same records.
pub proof fn lemma_records_same(img: Seq<u8>, img2: Seq<u8>, ps: int, ids: Seq<u32>)
    requires
        forall|m: int|
            0 <= m < ids.len() ==> page_records(#[trigger] page_at(img2, ps, ids[m] as int))
                == page_records(page_at(img, ps, ids[m] as int)),
    ensures
        records_of_pages(img2, ps, ids) == records_of_pages(img, ps, ids),
    decreases ids.len(),
{
    if ids.len() > 0 {
        let d = ids.drop_last();
        assert forall|m: int| 0 <= m < d.len() implies page_records(
            #[trigger] page_at(img2, ps, d[m] as int),
        ) == page_records(page_at(img, ps, d[m] as int)) by {
            assert(d[m] == ids[m]);
        }
        lemma_records_same(img, img2, ps, d);
        assert(page_at(img2, ps, ids[ids.len() - 1] as int) == page_at(img2, ps, ids.last() as int));
    }
}

/// A record inserted at position `k` of a sequence of records.
pub open spec fn inserted_at(old: Seq<Seq<u8>>, rec: Seq<u8>, k: int) -> Seq<Seq<u8>> {
    old.subrange(0, k) + seq![rec] + old.subrange(k, old.len() as int)
}

/// `new` is `old` with `rec` inserted somewhere.
pub open spec fn one_more(old: Seq<Seq<u8>>, new: Seq<Seq<u8>>, rec: Seq<u8>) -> bool {
    exists|k: int| 0 <= k <= old.len() && new == inserted_at(old, rec, k)
}

/// When page `ids[k]` gains `rec` at the end of its records and the other
/// pages keep theirs, the run of pages gains `rec` after the records of the
/// first `k + 1` pages.
pub proof fn lemma_records_one_more(img: Seq<u8>, img2: Seq<u8>, ps: int, ids: Seq<u32>, k: int, rec: Seq<u8>)
    requires
        ids.no_duplicates(),
        0 <= k < ids.len(),
        page_records(page_at(img2, ps, ids[k] as int)) == page_records(page_at(img, ps, ids[k] as int)).push(rec),
        forall|m: int|
            0 <= m < ids.len() && m != k ==> page_records(#[trigger] page_at(img2, ps, ids[m] as int))
                == page_records(page_at(img, ps, ids[m] as int)),
    ensures
        one_more(records_of_pages(img, ps, ids), records_of_pages(img2, ps, ids), rec),
{
    let a = ids.subrange(0, k);
    let c = ids.subrange(k + 1, ids.len() as int);
    let mid = seq![ids[k]];
    assert(ids =~= a + mid + c);
    assert forall|m: int| 0 <= m < a.len() implies page_records(#[trigger] page_at(img2, ps, a[m] as int))
        == page_records(page_at(img, ps, a[m] as int)) by {
        assert(a[m] == ids[m]);
    }
    assert forall|m: int| 0 <= m < c.len() implies page_records(#[trigger] page_at(img2, ps, c[m] as int))
        == page_records(page_at(img, ps, c[m] as int)) by {
        assert(c[m] == ids[k + 1 + m]);
    }
    lemma_records_same(img, img2, ps, a);
    lemma_records_same(img, img2, ps, c);
    lemma_records_concat(img, ps, a + mid, c);
    lemma_records_concat(img, ps, a, mid);
    lemma_records_concat(img2, ps, a + mid, c);
    lemma_records_concat(img2, ps, a, mid);
    assert(mid.drop_last() =~= Seq::<u32>::empty());
    assert(mid.last() == ids[k]);
    assert(records_of_pages(img, ps, Seq::<u32>::empty()) == Seq::<Seq<u8>>::empty());
    assert(records_of_pages(img2, ps, Seq::<u32>::empty()) == Seq::<Seq<u8>>::empty());
    assert(records_of_pages(img, ps, mid) == records_of_pages(img, ps, mid.drop_last()) + page_records(
        page_at(img, ps, mid.last() as int),
    ));
    assert(records_of_pages(img2, ps, mid) == records_of_pages(img2, ps, mid.drop_last())
        + page_records(page_at(img2, ps, mid.last() as int)));
    assert(records_of_pages(img, ps, mid) =~= page_records(page_at(img, ps, ids[k] as int)));
    assert(records_of_pages(img2, ps, mid) =~= page_records(page_at(img2, ps, ids[k] as int)));
    let ra = records_of_pages(img, ps, a);
    let rm = page_records(page_at(img, ps, ids[k] as int));
    let rc = records_of_pages(img, ps, c);
    let old = records_of_pages(img, ps, ids);
    let new = records_of_pages(img2, ps, ids);
    assert(old == ra + rm + rc);
    assert(new == ra + rm.push(rec) + rc);
    let pos = (ra.len() + rm.len()) as int;
    assert(new =~= inserted_at(old, rec, pos));
}

} // verus!
