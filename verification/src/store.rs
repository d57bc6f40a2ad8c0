//! Where commodity prices are kept, and how a new batch of prices joins the
//! stored ones: a price whose date is already stored is dropped, the rest are
//! added, and the whole series is kept in date order, earlier entries first
//! among equal dates.
use vstd::prelude::*;
use crate::text::{text_le, text_le_exec, chars_of, string_of, lemma_text_le_total, lemma_text_le_trans};

verus! {

/// One entry of a merged price series: the `k`-th stored price or the
/// `j`-th price of the new batch.
#[derive(PartialEq, Eq, Structural, Clone, Copy, Debug)]
pub enum PriceSlot {
    Stored(usize),
    Fresh(usize),
}

/// The date of the price that `slot` names.
pub open spec fn slot_date(stored: Seq<Seq<char>>, fresh: Seq<Seq<char>>, slot: PriceSlot) -> Seq<char> {
    match slot {
        PriceSlot::Stored(k) => stored[k as int],
        PriceSlot::Fresh(j) => fresh[j as int],
    }
}

/// The order in which the merge takes up entries: all stored prices in
/// their order, then the new ones in theirs.
pub open spec fn slot_precedes(a: PriceSlot, b: PriceSlot) -> bool {
    match (a, b) {
        (PriceSlot::Stored(x), PriceSlot::Stored(y)) => x < y,
        (PriceSlot::Stored(_), PriceSlot::Fresh(_)) => true,
        (PriceSlot::Fresh(_), PriceSlot::Stored(_)) => false,
        (PriceSlot::Fresh(x), PriceSlot::Fresh(y)) => x < y,
    }
}

/// Every stored price, in order.
pub open spec fn stored_slots(n: nat) -> Seq<PriceSlot> {
    Seq::new(n, |k: int| PriceSlot::Stored(k as usize))
}

/// The new prices, in order, whose dates are not among the stored dates.
pub open spec fn fresh_slots(stored: Seq<Seq<char>>, fresh: Seq<Seq<char>>) -> Seq<PriceSlot>
    decreases fresh.len(),
{
    if fresh.len() == 0 {
        Seq::empty()
    } else {
        let earlier = fresh_slots(stored, fresh.drop_last());
        if stored.contains(fresh.last()) {
            earlier
        } else {
            earlier.push(PriceSlot::Fresh((fresh.len() - 1) as usize))
        }
    }
}

/// What a merge keeps, before sorting.
pub open spec fn merge_candidates(stored: Seq<Seq<char>>, fresh: Seq<Seq<char>>) -> Seq<PriceSlot> {
    stored_slots(stored.len()) + fresh_slots(stored, fresh)
}

/// `plan` lists the entries in date order.
pub open spec fn date_sorted(stored: Seq<Seq<char>>, fresh: Seq<Seq<char>>, plan: Seq<PriceSlot>) -> bool {
    forall|i: int, j: int|
        0 <= i < j < plan.len() ==> text_le(
            slot_date(stored, fresh, #[trigger] plan[i]),
            slot_date(stored, fresh, #[trigger] plan[j]),
        )
}

/// Entries of equal date keep the order in which the merge took them up.
pub open spec fn date_stable(stored: Seq<Seq<char>>, fresh: Seq<Seq<char>>, plan: Seq<PriceSlot>) -> bool {
    forall|i: int, j: int|
        0 <= i < j < plan.len() && slot_date(stored, fresh, #[trigger] plan[i]) == slot_date(
            stored,
            fresh,
            #[trigger] plan[j],
        ) ==> slot_precedes(plan[i], plan[j])
}

/// `plan` holds exactly the entries of `cands`, each once.
pub open spec fn same_entries<A>(plan: Seq<A>, cands: Seq<A>) -> bool {
    &&& plan.len() == cands.len()
    &&& plan.no_duplicates()
    &&& forall|x: A| plan.contains(x) <==> cands.contains(x)
}

proof fn lemma_insert_same_entries<A>(before: Seq<A>, p: int, x: A, cs: Seq<A>)
    requires
        0 <= p <= before.len(),
        same_entries(before, cs),
        !cs.contains(x),
    ensures
        same_entries(before.insert(p, x), cs.push(x)),
{
    let new = before.insert(p, x);
    before.insert_ensures(p, x);
    assert forall|y: A| new.contains(y) implies cs.push(y).contains(y) && cs.push(x).contains(y) by {
        let a = choose|a: int| 0 <= a < new.len() && new[a] == y;
        assert(cs.push(y)[cs.len() as int] == y);
        if a < p {
            assert(before[a] == y);
            assert(before.contains(y));
            let b = choose|b: int| 0 <= b < cs.len() && cs[b] == y;
            assert(cs.push(x)[b] == y);
        } else if a > p {
            assert(before[a - 1] == y);
            assert(before.contains(y));
            let b = choose|b: int| 0 <= b < cs.len() && cs[b] == y;
            assert(cs.push(x)[b] == y);
        } else {
            assert(cs.push(x)[cs.len() as int] == y);
        }
    }
    assert forall|y: A| cs.push(x).contains(y) implies new.contains(y) by {
        let b = choose|b: int| 0 <= b < cs.len() + 1 && cs.push(x)[b] == y;
        if b == cs.len() {
            assert(new[p] == y);
        } else {
            assert(cs[b] == y);
            assert(cs.contains(y));
            let a = choose|a: int| 0 <= a < before.len() && before[a] == y;
            if a < p {
                assert(new[a] == y);
            } else {
                assert(new[a + 1] == y);
            }
        }
    }
    assert forall|a: int, b: int| 0 <= a < new.len() && 0 <= b < new.len() && a != b implies new[a] != new[b] by {
        if a != p && b != p {
            let a0 = if a < p { a } else { a - 1 };
            let b0 = if b < p { b } else { b - 1 };
            assert(new[a] == before[a0]);
            assert(new[b] == before[b0]);
        } else if a == p {
            let b0 = if b < p { b } else { b - 1 };
            assert(new[b] == before[b0]);
            assert(before.contains(before[b0]));
        } else {
            let a0 = if a < p { a } else { a - 1 };
            assert(new[a] == before[a0]);
            assert(before.contains(before[a0]));
        }
    }
}

/// `slot` names a new price within `fresh` whose date is not stored.
pub open spec fn fresh_ok(stored: Seq<Seq<char>>, fresh: Seq<Seq<char>>, slot: PriceSlot) -> bool {
    match slot {
        PriceSlot::Fresh(j) => j < fresh.len() && !stored.contains(fresh[j as int]),
        PriceSlot::Stored(_) => false,
    }
}

proof fn lemma_fresh_slots(stored: Seq<Seq<char>>, fresh: Seq<Seq<char>>)
    requires
        fresh.len() <= usize::MAX,
    ensures
        forall|i: int| 0 <= i < fresh_slots(stored, fresh).len() ==> fresh_ok(stored, fresh, #[trigger] fresh_slots(stored, fresh)[i]),
        forall|i: int, j: int| 0 <= i < j < fresh_slots(stored, fresh).len() ==> slot_precedes(
            #[trigger] fresh_slots(stored, fresh)[i],
            #[trigger] fresh_slots(stored, fresh)[j],
        ),
    decreases fresh.len(),
{
    if fresh.len() > 0 {
        let f0 = fresh.drop_last();
        let earlier = fresh_slots(stored, f0);
        lemma_fresh_slots(stored, f0);
        let fs = fresh_slots(stored, fresh);
        let last = PriceSlot::Fresh((fresh.len() - 1) as usize);
        if stored.contains(fresh.last()) {
            assert(fs == earlier);
        } else {
            assert(fs == earlier.push(last));
        }
        assert forall|i: int| 0 <= i < fs.len() implies fresh_ok(stored, fresh, #[trigger] fs[i]) by {
            if i < earlier.len() {
                assert(fs[i] == earlier[i]);
                assert(fresh_ok(stored, f0, earlier[i]));
                if let PriceSlot::Fresh(j) = earlier[i] {
                    assert(f0[j as int] == fresh[j as int]);
                }
            } else {
                assert(fs[i] == last);
                assert(fresh[fresh.len() - 1] == fresh.last());
            }
        }
        assert forall|i: int, j: int| 0 <= i < j < fs.len() implies slot_precedes(#[trigger] fs[i], #[trigger] fs[j]) by {
            assert(fs[i] == earlier[i]);
            assert(fresh_ok(stored, f0, earlier[i]));
            if j < earlier.len() {
                assert(fs[j] == earlier[j]);
            } else {
                assert(fs[j] == last);
            }
        }
    }
}

proof fn lemma_candidates_ascend(stored: Seq<Seq<char>>, fresh: Seq<Seq<char>>)
    requires
        stored.len() <= usize::MAX,
        fresh.len() <= usize::MAX,
    ensures
        forall|i: int, j: int| 0 <= i < j < merge_candidates(stored, fresh).len() ==> slot_precedes(
            #[trigger] merge_candidates(stored, fresh)[i],
            #[trigger] merge_candidates(stored, fresh)[j],
        ),
        forall|i: int| 0 <= i < merge_candidates(stored, fresh).len() ==> match #[trigger] merge_candidates(stored, fresh)[i] {
            PriceSlot::Stored(k) => k < stored.len(),
            PriceSlot::Fresh(j) => j < fresh.len(),
        },
{
    lemma_fresh_slots(stored, fresh);
    let n = stored.len() as int;
    let c = merge_candidates(stored, fresh);
    assert forall|i: int, j: int| 0 <= i < j < c.len() implies slot_precedes(#[trigger] c[i], #[trigger] c[j]) by {
        if j < n {
            assert(c[i] == stored_slots(stored.len())[i]);
            assert(c[j] == stored_slots(stored.len())[j]);
        } else if i < n {
            assert(c[i] == stored_slots(stored.len())[i]);
            assert(c[j] == fresh_slots(stored, fresh)[j - n]);
            assert(fresh_ok(stored, fresh, fresh_slots(stored, fresh)[j - n]));
        } else {
            assert(c[i] == fresh_slots(stored, fresh)[i - n]);
            assert(c[j] == fresh_slots(stored, fresh)[j - n]);
        }
    }
    assert forall|i: int| 0 <= i < c.len() implies match #[trigger] c[i] {
        PriceSlot::Stored(k) => k < stored.len(),
        PriceSlot::Fresh(j) => j < fresh.len(),
    } by {
        if i >= n {
            assert(c[i] == fresh_slots(stored, fresh)[i - n]);
            assert(fresh_ok(stored, fresh, fresh_slots(stored, fresh)[i - n]));
        } else {
            assert(c[i] == stored_slots(stored.len())[i]);
        }
    }
}

proof fn lemma_insert_keeps_sorted(
    sd: Seq<Seq<char>>,
    fd: Seq<Seq<char>>,
    before: Seq<PriceSlot>,
    p: int,
    slot: PriceSlot,
)
    requires
        0 <= p <= before.len(),
        date_sorted(sd, fd, before),
        forall|a: int| 0 <= a < p ==> text_le(slot_date(sd, fd, #[trigger] before[a]), slot_date(sd, fd, slot)),
        p < before.len() ==> !text_le(slot_date(sd, fd, before[p]), slot_date(sd, fd, slot)),
    ensures
        date_sorted(sd, fd, before.insert(p, slot)),
{
    let new = before.insert(p, slot);
    let kd = slot_date(sd, fd, slot);
    before.insert_ensures(p, slot);
    assert forall|a: int, b: int| 0 <= a < b < new.len() implies text_le(
        slot_date(sd, fd, #[trigger] new[a]),
        slot_date(sd, fd, #[trigger] new[b]),
    ) by {
        if a < p && b == p {
            assert(new[a] == before[a]);
        } else if a < p && b > p {
            assert(new[a] == before[a]);
            assert(new[b] == before[b - 1]);
        } else if a < p {
            assert(new[a] == before[a]);
            assert(new[b] == before[b]);
        } else if a == p {
            let db = slot_date(sd, fd, before[b - 1]);
            let dp = slot_date(sd, fd, before[p]);
            assert(new[b] == before[b - 1]);
            lemma_text_le_total(dp, kd);
            if b - 1 > p {
                assert(text_le(dp, db));
                lemma_text_le_trans(kd, dp, db);
            }
        } else {
            assert(new[a] == before[a - 1]);
            assert(new[b] == before[b - 1]);
        }
    }
}

proof fn lemma_insert_keeps_stable(
    sd: Seq<Seq<char>>,
    fd: Seq<Seq<char>>,
    before: Seq<PriceSlot>,
    p: int,
    slot: PriceSlot,
)
    requires
        0 <= p <= before.len(),
        date_sorted(sd, fd, before),
        date_stable(sd, fd, before),
        p < before.len() ==> !text_le(slot_date(sd, fd, before[p]), slot_date(sd, fd, slot)),
        forall|x: PriceSlot| before.contains(x) ==> slot_precedes(x, slot),
    ensures
        date_stable(sd, fd, before.insert(p, slot)),
{
    let new = before.insert(p, slot);
    let kd = slot_date(sd, fd, slot);
    before.insert_ensures(p, slot);
    assert forall|a: int, b: int|
        0 <= a < b < new.len() && slot_date(sd, fd, #[trigger] new[a]) == slot_date(sd, fd, #[trigger] new[b])
        implies slot_precedes(new[a], new[b]) by {
        if a < p && b == p {
            assert(new[a] == before[a]);
            assert(before.contains(before[a]));
        } else if a < p && b > p {
            assert(new[a] == before[a]);
            assert(new[b] == before[b - 1]);
        } else if a < p {
            assert(new[a] == before[a]);
            assert(new[b] == before[b]);
        } else if a == p {
            let db = slot_date(sd, fd, before[b - 1]);
            let dp = slot_date(sd, fd, before[p]);
            assert(new[b] == before[b - 1]);
            lemma_text_le_total(kd, kd);
            if b - 1 > p {
                assert(text_le(dp, db));
                lemma_text_le_trans(dp, db, kd);
            }
        } else {
            assert(new[a] == before[a - 1]);
            assert(new[b] == before[b - 1]);
        }
    }
}

proof fn lemma_insert_keeps_order(
    sd: Seq<Seq<char>>,
    fd: Seq<Seq<char>>,
    before: Seq<PriceSlot>,
    p: int,
    slot: PriceSlot,
)
    requires
        0 <= p <= before.len(),
        date_sorted(sd, fd, before),
        date_stable(sd, fd, before),
        forall|a: int| 0 <= a < p ==> text_le(slot_date(sd, fd, #[trigger] before[a]), slot_date(sd, fd, slot)),
        p < before.len() ==> !text_le(slot_date(sd, fd, before[p]), slot_date(sd, fd, slot)),
        forall|x: PriceSlot| before.contains(x) ==> slot_precedes(x, slot),
    ensures
        date_sorted(sd, fd, before.insert(p, slot)),
        date_stable(sd, fd, before.insert(p, slot)),
{
    lemma_insert_keeps_sorted(sd, fd, before, p, slot);
    lemma_insert_keeps_stable(sd, fd, before, p, slot);
}

/// The entries to keep when `fresh` prices join `stored` ones, in the order
/// they are kept: stored prices all stay; a new price stays unless its date
/// is one of the stored dates; the result is sorted by date, and entries of
/// equal date keep their order (stored before new, each in its own order).
pub fn merge_plan(stored: &Vec<String>, fresh: &Vec<String>) -> (plan: Vec<PriceSlot>)
    ensures
        same_entries(plan@, merge_candidates(stored.deep_view(), fresh.deep_view())),
        date_sorted(stored.deep_view(), fresh.deep_view(), plan@),
        date_stable(stored.deep_view(), fresh.deep_view(), plan@),
{
    let ghost sd = stored.deep_view();
    let ghost fd = fresh.deep_view();
    // Gather the candidates.
    let mut cands: Vec<PriceSlot> = Vec::new();
    let mut k: usize = 0;
    while k < stored.len()
        invariant
            k <= stored.len(),
            cands@ == stored_slots(k as nat),
        decreases stored.len() - k,
    {
        cands.push(PriceSlot::Stored(k));
        assert(cands@ =~= stored_slots((k + 1) as nat));
        k += 1;
    }
    let mut j: usize = 0;
    while j < fresh.len()
        invariant
            j <= fresh.len(),
            sd == stored.deep_view(),
            fd == fresh.deep_view(),
            cands@ == stored_slots(sd.len()) + fresh_slots(sd, fd.take(j as int)),
        decreases fresh.len() - j,
    {
        let mut found = false;
        let mut q: usize = 0;
        while q < stored.len()
            invariant
                q <= stored.len(),
                j < fresh.len(),
                sd == stored.deep_view(),
                fd == fresh.deep_view(),
                found <==> exists|a: int| 0 <= a < q && sd[a] == fd[j as int],
            decreases stored.len() - q,
        {
            assert(sd[q as int] == stored@[q as int]@);
            assert(fd[j as int] == fresh@[j as int]@);
            if stored[q] == fresh[j] {
                found = true;
            }
            q += 1;
        }
        assert(found <==> sd.contains(fd[j as int]));
        assert(fd.take(j + 1).drop_last() =~= fd.take(j as int));
        assert(fd.take(j + 1).last() == fd[j as int]);
        if !found {
            cands.push(PriceSlot::Fresh(j));
        }
        proof {
            assert(cands@ =~= stored_slots(sd.len()) + fresh_slots(sd, fd.take(j + 1)));
        }
        j += 1;
    }
    assert(fd.take(fresh.len() as int) =~= fd);
    let ghost c = cands@;
    proof {
        lemma_candidates_ascend(sd, fd);
    }
    // Keys of every stored and new price.
    let mut skeys: Vec<Vec<char>> = Vec::new();
    let mut k: usize = 0;
    while k < stored.len()
        invariant
            k <= stored.len(),
            sd == stored.deep_view(),
            skeys@.len() == k,
            forall|x: int| 0 <= x < k ==> #[trigger] skeys@[x]@ == sd[x],
        decreases stored.len() - k,
    {
        skeys.push(chars_of(stored[k].as_str()));
        k += 1;
    }
    let mut fkeys: Vec<Vec<char>> = Vec::new();
    let mut k: usize = 0;
    while k < fresh.len()
        invariant
            k <= fresh.len(),
            fd == fresh.deep_view(),
            fkeys@.len() == k,
            forall|x: int| 0 <= x < k ==> #[trigger] fkeys@[x]@ == fd[x],
        decreases fresh.len() - k,
    {
        fkeys.push(chars_of(fresh[k].as_str()));
        k += 1;
    }
    // Insertion sort, placing each entry after every entry of equal or earlier date.
    let mut plan: Vec<PriceSlot> = Vec::new();
    let mut i: usize = 0;
    while i < cands.len()
        invariant
            i <= cands.len(),
            c == cands@,
            c == merge_candidates(sd, fd),
            skeys@.len() == sd.len(),
            fkeys@.len() == fd.len(),
            forall|x: int| 0 <= x < sd.len() ==> #[trigger] skeys@[x]@ == sd[x],
            forall|x: int| 0 <= x < fd.len() ==> #[trigger] fkeys@[x]@ == fd[x],
            forall|a: int, b: int| 0 <= a < b < c.len() ==> slot_precedes(#[trigger] c[a], #[trigger] c[b]),
            forall|a: int| 0 <= a < c.len() ==> match #[trigger] c[a] {
                PriceSlot::Stored(k) => k < sd.len(),
                PriceSlot::Fresh(j) => j < fd.len(),
            },
            same_entries(plan@, c.take(i as int)),
            forall|a: int| 0 <= a < plan@.len() ==> match #[trigger] plan@[a] {
                PriceSlot::Stored(k) => k < sd.len(),
                PriceSlot::Fresh(j) => j < fd.len(),
            },
            date_sorted(sd, fd, plan@),
            date_stable(sd, fd, plan@),
        decreases cands.len() - i,
    {
        let slot = cands[i];
        let key: &Vec<char> = match slot {
            PriceSlot::Stored(k) => &skeys[k],
            PriceSlot::Fresh(j) => &fkeys[j],
        };
        let ghost kd = slot_date(sd, fd, slot);
        assert(key@ == kd);
        let mut p: usize = 0;
        while p < plan.len()
            invariant
                p <= plan.len(),
                key@ == kd,
                skeys@.len() == sd.len(),
                fkeys@.len() == fd.len(),
                forall|x: int| 0 <= x < sd.len() ==> #[trigger] skeys@[x]@ == sd[x],
                forall|x: int| 0 <= x < fd.len() ==> #[trigger] fkeys@[x]@ == fd[x],
                forall|a: int| 0 <= a < plan@.len() ==> match #[trigger] plan@[a] {
                    PriceSlot::Stored(k) => k < sd.len(),
                    PriceSlot::Fresh(j) => j < fd.len(),
                },
                forall|a: int| 0 <= a < p ==> text_le(slot_date(sd, fd, #[trigger] plan@[a]), kd),
            ensures
                p <= plan.len(),
                forall|a: int| 0 <= a < p ==> text_le(slot_date(sd, fd, #[trigger] plan@[a]), kd),
                p < plan.len() ==> !text_le(slot_date(sd, fd, plan@[p as int]), kd),
            decreases plan.len() - p,
        {
            let pkey: &Vec<char> = match plan[p] {
                PriceSlot::Stored(k) => &skeys[k],
                PriceSlot::Fresh(j) => &fkeys[j],
            };
            assert(pkey@ == slot_date(sd, fd, plan@[p as int]));
            if !text_le_exec(pkey.as_slice(), key.as_slice()) {
                break;
            }
            p += 1;
        }
        let ghost before = plan@;
        plan.insert(p, slot);
        proof {
            assert forall|x: PriceSlot| before.contains(x) implies slot_precedes(x, slot) by {
                assert(c.take(i as int).contains(x));
                let a = choose|a: int| 0 <= a < i && c.take(i as int)[a] == x;
                assert(c[a] == x);
            }
            lemma_insert_keeps_order(sd, fd, before, p as int, slot);
            before.insert_ensures(p as int, slot);
            assert(plan@ == before.insert(p as int, slot));
            assert(!c.take(i as int).contains(slot)) by {
                if c.take(i as int).contains(slot) {
                    let a = choose|a: int| 0 <= a < i && c.take(i as int)[a] == slot;
                    assert(slot_precedes(c[a], c[i as int]));
                }
            }
            assert(c.take(i + 1) =~= c.take(i as int).push(slot));
            lemma_insert_same_entries(before, p as int, slot, c.take(i as int));
            assert forall|a: int| 0 <= a < plan@.len() implies match #[trigger] plan@[a] {
                PriceSlot::Stored(k) => k < sd.len(),
                PriceSlot::Fresh(j) => j < fd.len(),
            } by {
                if a > p {
                    assert(plan@[a] == before[a - 1]);
                } else if a < p {
                    assert(plan@[a] == before[a]);
                }
            }
        }
        i += 1;
    }
    assert(c.take(c.len() as int) =~= c);
    plan
}


/// The slot of the `k`-th stored price.
pub open spec fn stored_slot(k: int) -> PriceSlot {
    PriceSlot::Stored(k as usize)
}

/// The slot of the `j`-th new price.
pub open spec fn fresh_slot(j: int) -> PriceSlot {
    PriceSlot::Fresh(j as usize)
}

/// A merge keeps every stored price, adds each new price whose date is not
/// stored, and adds no new price whose date is already stored.
pub proof fn law_merge_keeps_and_skips(stored: Seq<Seq<char>>, fresh: Seq<Seq<char>>)
    requires
        stored.len() <= usize::MAX,
        fresh.len() <= usize::MAX,
    ensures
        forall|k: int| 0 <= k < stored.len() ==> merge_candidates(stored, fresh).contains(
            #[trigger] stored_slot(k),
        ),
        forall|j: int|
            0 <= j < fresh.len() ==> (merge_candidates(stored, fresh).contains(
                #[trigger] fresh_slot(j),
            ) <==> !stored.contains(fresh[j])),
{
    lemma_fresh_slots(stored, fresh);
    let c = merge_candidates(stored, fresh);
    let n = stored.len() as int;
    assert forall|k: int| 0 <= k < stored.len() implies c.contains(#[trigger] stored_slot(k)) by {
        assert(c[k] == PriceSlot::Stored(k as usize));
    }
    assert forall|j: int| 0 <= j < fresh.len() implies (c.contains(#[trigger] fresh_slot(j))
        <==> !stored.contains(fresh[j])) by {
        if c.contains(PriceSlot::Fresh(j as usize)) {
            let i = choose|i: int| 0 <= i < c.len() && c[i] == PriceSlot::Fresh(j as usize);
            if i < n {
                assert(c[i] == stored_slots(stored.len())[i]);
            } else {
                assert(c[i] == fresh_slots(stored, fresh)[i - n]);
                assert(fresh_ok(stored, fresh, fresh_slots(stored, fresh)[i - n]));
            }
        }
        if !stored.contains(fresh[j]) {
            lemma_fresh_slot_present(stored, fresh, j);
            let i = choose|i: int| 0 <= i < fresh_slots(stored, fresh).len() && fresh_slots(stored, fresh)[i] == PriceSlot::Fresh(j as usize);
            assert(c[n + i] == PriceSlot::Fresh(j as usize));
        }
    }
}

proof fn lemma_fresh_slot_present(stored: Seq<Seq<char>>, fresh: Seq<Seq<char>>, j: int)
    requires
        0 <= j < fresh.len() <= usize::MAX,
        !stored.contains(fresh[j]),
    ensures
        fresh_slots(stored, fresh).contains(PriceSlot::Fresh(j as usize)),
    decreases fresh.len(),
{
    let f0 = fresh.drop_last();
    let earlier = fresh_slots(stored, f0);
    if j == fresh.len() - 1 {
        assert(fresh.last() == fresh[j]);
        let fs = fresh_slots(stored, fresh);
        assert(fs == earlier.push(PriceSlot::Fresh(j as usize)));
        assert(fs[earlier.len() as int] == PriceSlot::Fresh(j as usize));
    } else {
        assert(f0[j] == fresh[j]);
        lemma_fresh_slot_present(stored, f0, j);
        let i = choose|i: int| 0 <= i < earlier.len() && earlier[i] == PriceSlot::Fresh(j as usize);
        let fs = fresh_slots(stored, fresh);
        assert(fs[i] == earlier[i]);
    }
}

/// Saving again prices whose dates are all stored adds nothing.
pub proof fn law_resave_adds_nothing(stored: Seq<Seq<char>>, fresh: Seq<Seq<char>>)
    requires
        forall|j: int| 0 <= j < fresh.len() ==> stored.contains(#[trigger] fresh[j]),
    ensures
        merge_candidates(stored, fresh) == stored_slots(stored.len()),
    decreases fresh.len(),
{
    if fresh.len() > 0 {
        let f0 = fresh.drop_last();
        assert forall|j: int| 0 <= j < f0.len() implies stored.contains(#[trigger] f0[j]) by {
            assert(f0[j] == fresh[j]);
        }
        law_resave_adds_nothing(stored, f0);
        assert(stored.contains(fresh[fresh.len() - 1]));
    }
    assert(fresh_slots(stored, fresh).len() == 0 ==> merge_candidates(stored, fresh) =~= stored_slots(stored.len()));
}

/// Dates that come in date order, earlier first.
pub open spec fn dates_in_order(dates: Seq<Seq<char>>) -> bool {
    forall|i: int, j: int| 0 <= i < j < dates.len() ==> text_le(#[trigger] dates[i], #[trigger] dates[j])
}

/// The position that a slot names, in the stored or the new prices.
pub open spec fn slot_index(slot: PriceSlot) -> int {
    match slot {
        PriceSlot::Stored(k) => k as int,
        PriceSlot::Fresh(j) => j as int,
    }
}

/// Saving a batch again: where every new date is already stored and the
/// stored series is in date order, as every merge leaves it, the merge
/// keeps the stored series exactly as it is, each entry in its place and no
/// entry replaced by a new price. So saving the same batch twice leaves the
/// series as the first save left it.
pub proof fn law_resave_keeps_series(stored: Seq<Seq<char>>, fresh: Seq<Seq<char>>, plan: Seq<PriceSlot>)
    requires
        stored.len() <= usize::MAX,
        dates_in_order(stored),
        forall|j: int| 0 <= j < fresh.len() ==> stored.contains(#[trigger] fresh[j]),
        same_entries(plan, merge_candidates(stored, fresh)),
        date_sorted(stored, fresh, plan),
        date_stable(stored, fresh, plan),
    ensures
        plan == stored_slots(stored.len()),
{
    let n = stored.len() as int;
    let c = merge_candidates(stored, fresh);
    law_resave_adds_nothing(stored, fresh);
    assert(c == stored_slots(stored.len()));
    // Every entry of the plan is a stored price.
    assert forall|i: int| 0 <= i < plan.len() implies (#[trigger] plan[i] is Stored && 0 <= slot_index(plan[i]) < n
        && plan[i] == PriceSlot::Stored(slot_index(plan[i]) as usize)) by {
        assert(plan.contains(plan[i]));
        assert(c.contains(plan[i]));
        let a = choose|a: int| 0 <= a < c.len() && c[a] == plan[i];
        assert(c[a] == PriceSlot::Stored(a as usize));
    }
    let idx = Seq::new(n as nat, |i: int| slot_index(plan[i]));
    // The positions rise along the plan.
    assert forall|i: int, j: int| 0 <= i < j < n implies idx[i] < idx[j] by {
        let (pi, pj) = (plan[i], plan[j]);
        assert(pi is Stored && pj is Stored);
        assert(pi != pj);
        if idx[i] > idx[j] {
            assert(text_le(stored[idx[j]], stored[idx[i]]));
            assert(text_le(slot_date(stored, fresh, pi), slot_date(stored, fresh, pj)));
            lemma_text_le_total(stored[idx[j]], stored[idx[i]]);
            assert(slot_precedes(pi, pj));
        }
    }
    lemma_rising_positions(idx, n);
    assert forall|i: int| 0 <= i < n implies plan[i] == stored_slots(stored.len())[i] by {
        assert(idx[i] == i);
    }
    assert(plan =~= stored_slots(stored.len()));
}

/// The dates of a merged series, in the order of the merge.
pub open spec fn merged_dates(stored: Seq<Seq<char>>, fresh: Seq<Seq<char>>, plan: Seq<PriceSlot>) -> Seq<Seq<char>> {
    plan.map_values(|slot: PriceSlot| slot_date(stored, fresh, slot))
}

/// Saving the same batch twice: the series that the first merge leaves is
/// in date order and holds every date of the batch, so the second merge of
/// that batch keeps it exactly as it is, each entry in its place. Together
/// with `law_merge_keeps_and_skips`, no merge replaces a stored entry by a
/// new price.
pub proof fn law_save_twice(
    stored: Seq<Seq<char>>,
    fresh: Seq<Seq<char>>,
    first: Seq<PriceSlot>,
    second: Seq<PriceSlot>,
)
    requires
        stored.len() <= usize::MAX,
        fresh.len() <= usize::MAX,
        first.len() <= usize::MAX,
        same_entries(first, merge_candidates(stored, fresh)),
        date_sorted(stored, fresh, first),
        date_stable(stored, fresh, first),
        same_entries(second, merge_candidates(merged_dates(stored, fresh, first), fresh)),
        date_sorted(merged_dates(stored, fresh, first), fresh, second),
        date_stable(merged_dates(stored, fresh, first), fresh, second),
    ensures
        dates_in_order(merged_dates(stored, fresh, first)),
        forall|j: int| 0 <= j < fresh.len() ==> merged_dates(stored, fresh, first).contains(#[trigger] fresh[j]),
        second == stored_slots(first.len()),
{
    let d1 = merged_dates(stored, fresh, first);
    let c = merge_candidates(stored, fresh);
    assert forall|i: int, j: int| 0 <= i < j < d1.len() implies text_le(#[trigger] d1[i], #[trigger] d1[j]) by {
        assert(text_le(slot_date(stored, fresh, first[i]), slot_date(stored, fresh, first[j])));
    }
    law_merge_keeps_and_skips(stored, fresh);
    assert forall|j: int| 0 <= j < fresh.len() implies d1.contains(#[trigger] fresh[j]) by {
        let slot = if stored.contains(fresh[j]) {
            let k = choose|k: int| 0 <= k < stored.len() && stored[k] == fresh[j];
            assert(c.contains(stored_slot(k)));
            stored_slot(k)
        } else {
            assert(c.contains(fresh_slot(j)));
            fresh_slot(j)
        };
        assert(slot_date(stored, fresh, slot) == fresh[j]);
        assert(first.contains(slot));
        let i = choose|i: int| 0 <= i < first.len() && first[i] == slot;
        assert(d1[i] == fresh[j]);
    }
    law_resave_keeps_series(d1, fresh, second);
}

proof fn lemma_rising_positions(a: Seq<int>, n: int)
    requires
        a.len() == n,
        forall|i: int| 0 <= i < n ==> 0 <= #[trigger] a[i] < n,
        forall|i: int, j: int| 0 <= i < j < n ==> #[trigger] a[i] < #[trigger] a[j],
    ensures
        forall|i: int| 0 <= i < n ==> #[trigger] a[i] == i,
{
    assert forall|i: int| 0 <= i < n implies #[trigger] a[i] == i by {
        lemma_rising_low(a, n, i);
        lemma_rising_high(a, n, i);
    }
}

proof fn lemma_rising_low(a: Seq<int>, n: int, i: int)
    requires
        a.len() == n,
        0 <= i < n,
        forall|k: int| 0 <= k < n ==> 0 <= #[trigger] a[k] < n,
        forall|k: int, l: int| 0 <= k < l < n ==> #[trigger] a[k] < #[trigger] a[l],
    ensures
        a[i] >= i,
    decreases i,
{
    if i > 0 {
        lemma_rising_low(a, n, i - 1);
        assert(a[i - 1] < a[i]);
    }
}

proof fn lemma_rising_high(a: Seq<int>, n: int, i: int)
    requires
        a.len() == n,
        0 <= i < n,
        forall|k: int| 0 <= k < n ==> 0 <= #[trigger] a[k] < n,
        forall|k: int, l: int| 0 <= k < l < n ==> #[trigger] a[k] < #[trigger] a[l],
    ensures
        a[i] <= i,
    decreases n - i,
{
    if i < n - 1 {
        lemma_rising_high(a, n, i + 1);
        assert(a[i] < a[i + 1]);
    }
}

/// Once a batch holding a price dated `d` is merged in, where no stored or
/// new date comes after `d`, the last entry of the merged series is dated
/// `d`: the latest stored price is one of the day just saved.
pub proof fn law_latest_is_newest_saved(
    stored: Seq<Seq<char>>,
    fresh: Seq<Seq<char>>,
    plan: Seq<PriceSlot>,
    d: Seq<char>,
)
    requires
        stored.len() <= usize::MAX,
        fresh.len() <= usize::MAX,
        same_entries(plan, merge_candidates(stored, fresh)),
        date_sorted(stored, fresh, plan),
        fresh.contains(d),
        forall|k: int| 0 <= k < stored.len() ==> text_le(#[trigger] stored[k], d),
        forall|j: int| 0 <= j < fresh.len() ==> text_le(#[trigger] fresh[j], d),
    ensures
        plan.len() > 0,
        slot_date(stored, fresh, plan.last()) == d,
{
    let c = merge_candidates(stored, fresh);
    let n = stored.len() as int;
    law_merge_keeps_and_skips(stored, fresh);
    lemma_fresh_slots(stored, fresh);
    let j0 = choose|j: int| 0 <= j < fresh.len() && fresh[j] == d;
    // An entry dated `d` is kept: the stored one, or else the new one.
    let s = if stored.contains(d) {
        let k0 = choose|k: int| 0 <= k < stored.len() && stored[k] == d;
        assert(c.contains(stored_slot(k0)));
        stored_slot(k0)
    } else {
        assert(c.contains(fresh_slot(j0)));
        fresh_slot(j0)
    };
    assert(slot_date(stored, fresh, s) == d);
    assert(plan.contains(s));
    let i = choose|i: int| 0 <= i < plan.len() && plan[i] == s;
    let last = plan.last();
    assert(plan.contains(last));
    assert(c.contains(last));
    // The last entry is dated no later than `d`.
    let a = choose|a: int| 0 <= a < c.len() && c[a] == last;
    if a < n {
        assert(c[a] == stored_slots(stored.len())[a]);
    } else {
        assert(c[a] == fresh_slots(stored, fresh)[a - n]);
        assert(fresh_ok(stored, fresh, fresh_slots(stored, fresh)[a - n]));
    }
    assert(text_le(slot_date(stored, fresh, last), d));
    // ... and no earlier than `d`.
    if i < plan.len() - 1 {
        assert(text_le(slot_date(stored, fresh, plan[i]), slot_date(stored, fresh, plan[plan.len() - 1])));
    }
    lemma_text_le_total(slot_date(stored, fresh, last), d);
}

/// Where a commodity's prices come from.
#[derive(Clone, Debug)]
pub struct CommodityConfig {
    pub name: String,
    pub code: String,
    pub source: String,
    pub url: String,
    pub unit: String,
}

impl CommodityConfig {
    /// A copy with the same fields.
    pub fn duplicate(&self) -> (c: Self)
        ensures
            c == *self,
    {
        CommodityConfig {
            name: self.name.clone(),
            code: self.code.clone(),
            source: self.source.clone(),
            url: self.url.clone(),
            unit: self.unit.clone(),
        }
    }
}

/// What a price file says of its commodity.
#[derive(Clone, Debug)]
pub struct CommodityMeta {
    pub name: String,
    pub code: String,
    pub unit: String,
}

impl CommodityMeta {
    /// What is said of a commodity that has no price file yet: it goes by
    /// its code, with no unit.
    pub fn for_code(code: &str) -> (m: Self)
        ensures
            m.name@ == code@,
            m.code@ == code@,
            m.unit@ == Seq::<char>::empty(),
    {
        CommodityMeta { name: code.to_owned(), code: code.to_owned(), unit: String::new() }
    }

    /// Takes the name and unit of the latest stored price, keeping the code.
    pub fn refresh(&mut self, latest_name: &str, latest_unit: &str)
        ensures
            final(self).name@ == latest_name@,
            final(self).unit@ == latest_unit@,
            final(self).code == old(self).code,
    {
        self.name = latest_name.to_owned();
        self.unit = latest_unit.to_owned();
    }
}

/// `c` has the given name, code, source, page and unit.
pub open spec fn config_is(
    c: CommodityConfig,
    name: Seq<char>,
    code: Seq<char>,
    source: Seq<char>,
    url: Seq<char>,
    unit: Seq<char>,
) -> bool {
    &&& c.name@ == name
    &&& c.code@ == code
    &&& c.source@ == source
    &&& c.url@ == url
    &&& c.unit@ == unit
}

fn config(name: &str, code: &str, source: &str, url: &str, unit: &str) -> (c: CommodityConfig)
    ensures
        config_is(c, name@, code@, source@, url@, unit@),
{
    CommodityConfig {
        name: name.to_owned(),
        code: code.to_owned(),
        source: source.to_owned(),
        url: url.to_owned(),
        unit: unit.to_owned(),
    }
}

/// The tracked commodities, each as its name, code, source, page and unit.
pub open spec fn commodity_table() -> Seq<(Seq<char>, Seq<char>, Seq<char>, Seq<char>, Seq<char>)> {
    seq![
        ("生猪"@, "live_pig"@, "zhujia"@, "https://zhujia.zhuwang.com.cn/indexov.shtml"@, "元/公斤"@),
        ("玉米"@, "corn"@, "zhujia"@, "https://zhujia.zhuwang.com.cn/indexov.shtml"@, "元/吨"@),
        ("豆粕"@, "soybean_meal"@, "zhujia"@, "https://zhujia.zhuwang.com.cn/indexov.shtml"@, "元/吨"@),
        ("钛白粉"@, "titanium_dioxide"@, "ppi"@, "https://m1.100ppi.com/Rawmex/427.html"@, "元/吨"@),
        ("硫磺"@, "sulfur"@, "ppi"@, "https://m1.100ppi.com/Rawmex/645.html"@, "元/吨"@),
    ]
}

/// The commodities that are tracked: live pigs, corn and soybean meal from
/// the pig-price site, titanium dioxide and sulfur from the 100ppi site.
pub fn default_commodities() -> (v: Vec<CommodityConfig>)
    ensures
        v@.len() == 5,
        v@.len() == commodity_table().len(),
        forall|k: int| 0 <= k < v@.len() ==> config_is(
            #[trigger] v@[k],
            commodity_table()[k].0,
            commodity_table()[k].1,
            commodity_table()[k].2,
            commodity_table()[k].3,
            commodity_table()[k].4,
        ),
        config_is(v@[0], "生猪"@, "live_pig"@, "zhujia"@, "https://zhujia.zhuwang.com.cn/indexov.shtml"@, "元/公斤"@),
        config_is(v@[1], "玉米"@, "corn"@, "zhujia"@, "https://zhujia.zhuwang.com.cn/indexov.shtml"@, "元/吨"@),
        config_is(v@[2], "豆粕"@, "soybean_meal"@, "zhujia"@, "https://zhujia.zhuwang.com.cn/indexov.shtml"@, "元/吨"@),
        config_is(v@[3], "钛白粉"@, "titanium_dioxide"@, "ppi"@, "https://m1.100ppi.com/Rawmex/427.html"@, "元/吨"@),
        config_is(v@[4], "硫磺"@, "sulfur"@, "ppi"@, "https://m1.100ppi.com/Rawmex/645.html"@, "元/吨"@),
{
    let mut v: Vec<CommodityConfig> = Vec::new();
    v.push(config("生猪", "live_pig", "zhujia", "https://zhujia.zhuwang.com.cn/indexov.shtml", "元/公斤"));
    v.push(config("玉米", "corn", "zhujia", "https://zhujia.zhuwang.com.cn/indexov.shtml", "元/吨"));
    v.push(config("豆粕", "soybean_meal", "zhujia", "https://zhujia.zhuwang.com.cn/indexov.shtml", "元/吨"));
    v.push(config("钛白粉", "titanium_dioxide", "ppi", "https://m1.100ppi.com/Rawmex/427.html", "元/吨"));
    v.push(config("硫磺", "sulfur", "ppi", "https://m1.100ppi.com/Rawmex/645.html", "元/吨"));
    let ghost t = commodity_table();
    assert forall|k: int| 0 <= k < v@.len() implies config_is(
        #[trigger] v@[k],
        t[k].0,
        t[k].1,
        t[k].2,
        t[k].3,
        t[k].4,
    ) by {
        if k == 0 {
        } else if k == 1 {
        } else if k == 2 {
        } else if k == 3 {
        } else {
        }
    }
    v
}

/// `base` joined with `part` as a path on a Unix system: an absolute `part`
/// replaces `base`; otherwise `part` follows `base`, with a `/` between
/// them where `base` is not empty and does not already end with one.
pub open spec fn path_join(base: Seq<char>, part: Seq<char>) -> Seq<char> {
    if part.len() > 0 && part[0] == '/' {
        part
    } else if base.len() > 0 && base.last() != '/' {
        base + seq!['/'] + part
    } else {
        base + part
    }
}

/// `base` joined with `part`, as `Path::join` joins them on Unix.
pub fn join_path(base: &str, part: &str) -> (r: String)
    ensures
        r@ == path_join(base@, part@),
{
    let b = chars_of(base);
    let p = chars_of(part);
    if p.len() > 0 && p[0] == '/' {
        return string_of(p.as_slice());
    }
    let mut out = b.clone();
    if b.len() > 0 && b[b.len() - 1] != '/' {
        out.push('/');
    }
    let mut k: usize = 0;
    let ghost head = out@;
    while k < p.len()
        invariant
            k <= p.len(),
            out@ == head + p@.take(k as int),
        decreases p.len() - k,
    {
        out.push(p[k]);
        assert(out@ =~= head + p@.take(k + 1));
        k += 1;
    }
    assert(p@.take(p.len() as int) =~= p@);
    assert(b@.len() > 0 && b@.last() != '/' ==> head =~= b@ + seq!['/']);
    string_of(out.as_slice())
}

/// Prices kept as one JSON file per commodity under a data directory.
pub struct JsonStore {
    data_dir: String,
}

impl JsonStore {
    /// The data directory.
    pub closed spec fn dir(&self) -> Seq<char> {
        self.data_dir@
    }

    pub fn new(data_dir: String) -> (store: Self)
        ensures
            store.dir() == data_dir@,
    {
        JsonStore { data_dir }
    }

    /// The data directory, for the code that reads and writes the files.
    pub fn data_dir(&self) -> (d: &str)
        ensures
            d@ == self.dir(),
    {
        self.data_dir.as_str()
    }

    /// The price file of a commodity: `prices.json` in the directory named
    /// after its code, under the data directory.
    pub fn file_path(&self, commodity_code: &str) -> (p: String)
        ensures
            p@ == path_join(path_join(self.dir(), commodity_code@), "prices.json"@),
    {
        let d = join_path(self.data_dir.as_str(), commodity_code);
        join_path(d.as_str(), "prices.json")
    }
}

/// The last `days` entries of `items`, or all of them where there are fewer.
pub fn take_recent<T>(items: Vec<T>, days: u32) -> (r: Vec<T>)
    ensures
        r@ == items@.skip(if items@.len() > days { items@.len() - days } else { 0 }),
{
    let mut items = items;
    let total = items.len();
    let skip = total.saturating_sub(days as usize);
    let r = items.split_off(skip);
    r
}

/// What the newest stored price of a commodity was found to be.
pub enum LatestPrice {
    /// The price file could not be read.
    Unreadable,
    /// No price is stored.
    Missing,
    /// The newest price has this date.
    Dated(String),
}

/// A collection is owed when any commodity's newest price could not be read,
/// is missing, or is not from `today`.
pub open spec fn collection_due(latest: Seq<LatestPrice>, today: Seq<char>) -> bool {
    exists|i: int| 0 <= i < latest.len() && !(#[trigger] latest[i] matches LatestPrice::Dated(d) && d@ == today)
}

/// The first collection of the day is owed exactly when some commodity
/// lacks a price from today: one whose newest price is unreadable, missing
/// or of another day makes it owed, wherever it stands in the list, and
/// it is not owed only when every commodity's newest price is from today.
pub proof fn law_collection_owed(latest: Seq<LatestPrice>, today: Seq<char>)
    ensures
        forall|i: int|
            0 <= i < latest.len() && !(#[trigger] latest[i] matches LatestPrice::Dated(d) && d@ == today)
                ==> collection_due(latest, today),
        !collection_due(latest, today) ==> forall|i: int|
            0 <= i < latest.len() ==> (#[trigger] latest[i] matches LatestPrice::Dated(d) && d@ == today),
        (forall|i: int| 0 <= i < latest.len() ==> (#[trigger] latest[i] matches LatestPrice::Dated(d) && d@ == today))
            ==> !collection_due(latest, today),
{
}

/// Whether the day's first collection is still owed.
pub fn collection_needed(latest: &Vec<LatestPrice>, today: &String) -> (b: bool)
    ensures
        b == collection_due(latest@, today@),
{
    let mut i: usize = 0;
    while i < latest.len()
        invariant
            i <= latest.len(),
            forall|k: int| 0 <= k < i ==> (#[trigger] latest@[k] matches LatestPrice::Dated(d) && d@ == today@),
        decreases latest.len() - i,
    {
        match &latest[i] {
            LatestPrice::Dated(d) => {
                if !(*d == *today) {
                    return true;
                }
            },
            _ => {
                return true;
            },
        }
        i += 1;
    }
    false
}

/// The configured commodities whose source is `source`, in order.
pub fn configs_from(configs: &Vec<CommodityConfig>, source: &str) -> (r: Vec<CommodityConfig>)
    ensures
        r@ == configs@.filter(|c: CommodityConfig| c.source@ == source@),
{
    let ghost pred = |c: CommodityConfig| c.source@ == source@;
    let wanted = source.to_owned();
    let mut r: Vec<CommodityConfig> = Vec::new();
    let mut i: usize = 0;
    while i < configs.len()
        invariant
            i <= configs.len(),
            wanted@ == source@,
            pred == (|c: CommodityConfig| c.source@ == source@),
            r@ == configs@.take(i as int).filter(pred),
        decreases configs.len() - i,
    {
        assert(configs@.take(i + 1) =~= configs@.take(i as int).push(configs@[i as int]));
        proof { configs@.take(i as int).lemma_filter_push(configs@[i as int], pred); }
        if configs[i].source == wanted {
            r.push(configs[i].duplicate());
        }
        assert(r@ == configs@.take(i + 1).filter(pred));
        i += 1;
    }
    assert(configs@.take(configs.len() as int) =~= configs@);
    r
}

} // verus!
