//! Mathematical model of one reconciliation pass over one sequence.
//!
//! A sequence of state cells or render nodes is seen as a `Seq<Slot>`: the key
//! of each entry, its node identifier (0 for state cells) and its dead flag.
//! A pass declares a sequence of keys; each declaration scans ahead of the
//! cursor for its key, and the pass ends with a purge.
use vstd::prelude::*;
use crate::key::Caller;

verus! {

/// What the reconciler sees of one entry.
pub struct Slot {
    pub key: Caller,
    pub id: u64,
    pub dead: bool,
}

/// The first index at or after `from` whose key is `key`.
pub open spec fn find_from(s: Seq<Slot>, from: int, key: Caller) -> Option<int>
    decreases s.len() - from,
{
    if from < 0 || from >= s.len() {
        None
    } else if s[from].key == key {
        Some(from)
    } else {
        find_from(s, from + 1, key)
    }
}

/// The entries in `lo..hi` marked dead.
pub open spec fn mark_dead(s: Seq<Slot>, lo: int, hi: int) -> Seq<Slot> {
    Seq::new(
        s.len(),
        |i: int| if lo <= i < hi { Slot { dead: true, ..s[i] } } else { s[i] },
    )
}

/// One declaration of `key` at `cursor`: the new sequence and the new cursor.
/// `fresh` is the identifier a newly created entry receives.
pub open spec fn declare(s: Seq<Slot>, cursor: int, key: Caller, fresh: u64) -> (Seq<Slot>, int) {
    match find_from(s, cursor, key) {
        Some(i) => (mark_dead(s, cursor, i), i + 1),
        None => (s.insert(cursor, Slot { key, id: fresh, dead: false }), cursor + 1),
    }
}

/// The entries that are not dead, in order.
pub open spec fn live(s: Seq<Slot>) -> Seq<Slot>
    decreases s.len(),
{
    if s.len() == 0 {
        Seq::empty()
    } else if s.last().dead {
        live(s.drop_last())
    } else {
        live(s.drop_last()).push(s.last())
    }
}

/// What survives the end of a pass whose cursor stopped at `cursor`.
pub open spec fn purge(s: Seq<Slot>, cursor: int) -> Seq<Slot> {
    live(s.take(cursor))
}

/// A pass declaring `ds` in order, with `next` the identifier the next new
/// entry receives and `step` what each creation adds to it: the sequence,
/// the cursor and `next` afterwards. Render nodes take identifiers from the
/// allocator (`step` 1); state cells all carry 0 (`next` 0, `step` 0).
pub open spec fn run(s: Seq<Slot>, ds: Seq<Caller>, next: int, step: int) -> (Seq<Slot>, int, int)
    decreases ds.len(),
{
    if ds.len() == 0 {
        (s, 0, next)
    } else {
        let (s1, c1, n1) = run(s, ds.drop_last(), next, step);
        let (s2, c2) = declare(s1, c1, ds.last(), n1 as u64);
        (s2, c2, if find_from(s1, c1, ds.last()) is Some { n1 } else { n1 + step })
    }
}

pub open spec fn keys(s: Seq<Slot>) -> Seq<Caller> {
    s.map_values(|x: Slot| x.key)
}

pub open spec fn all_live(s: Seq<Slot>) -> bool {
    forall|i: int| 0 <= i < s.len() ==> !(#[trigger] s[i]).dead
}

pub open spec fn distinct_keys(s: Seq<Slot>) -> bool {
    forall|i: int, j: int| 0 <= i < s.len() && 0 <= j < s.len() && i != j ==> s[i].key != s[j].key
}

/// What `find_from` returns is the first match at or after `from`.
pub proof fn lemma_find_from(s: Seq<Slot>, from: int, key: Caller)
    requires
        0 <= from,
    ensures
        match find_from(s, from, key) {
            Some(i) => from <= i < s.len() && s[i].key == key && forall|j: int|
                from <= j < i ==> s[j].key != key,
            None => forall|j: int| from <= j < s.len() ==> s[j].key != key,
        },
    decreases s.len() - from,
{
    if from < s.len() && s[from].key != key {
        lemma_find_from(s, from + 1, key);
    }
}

pub proof fn lemma_find_at(s: Seq<Slot>, from: int, i: int, key: Caller)
    requires
        0 <= from <= i < s.len(),
        s[i].key == key,
        forall|j: int| from <= j < i ==> s[j].key != key,
    ensures
        find_from(s, from, key) == Some(i),
    decreases i - from,
{
    if from < i {
        lemma_find_at(s, from + 1, i, key);
    }
}

pub proof fn lemma_live_step(s: Seq<Slot>, j: int)
    requires
        0 <= j < s.len(),
    ensures
        live(s.take(j + 1)) == if s[j].dead {
            live(s.take(j))
        } else {
            live(s.take(j)).push(s[j])
        },
{
    assert(s.take(j + 1).drop_last() =~= s.take(j));
}

proof fn lemma_live_dead_range(s: Seq<Slot>, lo: int, hi: int)
    requires
        0 <= lo <= hi <= s.len(),
        forall|j: int| lo <= j < hi ==> s[j].dead,
    ensures
        live(s.take(hi)) == live(s.take(lo)),
    decreases hi - lo,
{
    if lo < hi {
        lemma_live_dead_range(s, lo, hi - 1);
        lemma_live_step(s, hi - 1);
    }
}

/// A sequence with no dead entry survives a purge whole.
pub proof fn lemma_live_all(s: Seq<Slot>)
    requires
        all_live(s),
    ensures
        live(s) == s,
    decreases s.len(),
{
    if s.len() > 0 {
        lemma_live_all(s.drop_last());
        assert(s.drop_last().push(s.last()) =~= s);
    }
}

/// Shape of a pass: the cursor stays within the sequence, and entries at or
/// after the cursor keep the dead flags they started with.
proof fn lemma_run_shape(s: Seq<Slot>, ds: Seq<Caller>, next: int, step: int)
    requires
        all_live(s),
    ensures
        0 <= run(s, ds, next, step).1 <= run(s, ds, next, step).0.len(),
        forall|i: int|
            run(s, ds, next, step).1 <= i < run(s, ds, next, step).0.len() ==> !(
            #[trigger] run(s, ds, next, step).0[i]).dead,
        keys(live(run(s, ds, next, step).0.take(run(s, ds, next, step).1))) == ds,
    decreases ds.len(),
{
    if ds.len() > 0 {
        let (s1, c1, n1) = run(s, ds.drop_last(), next, step);
        lemma_run_shape(s, ds.drop_last(), next, step);
        let k = ds.last();
        lemma_find_from(s1, c1, k);
        let (s2, c2) = declare(s1, c1, k, n1 as u64);
        match find_from(s1, c1, k) {
            Some(i) => {
                assert(s2.take(c1) =~= s1.take(c1));
                lemma_live_dead_range(s2, c1, i);
                lemma_live_step(s2, i);
                assert(s2[i] == s1[i]);
            },
            None => {
                assert(s2.take(c2) =~= s1.take(c1).push(s2[c1]));
                assert(s2.take(c2).drop_last() =~= s1.take(c1));
            },
        }
        let l1 = live(s1.take(c1));
        assert(keys(l1.push(s2[c2 - 1])) =~= keys(l1).push(k));
        assert(ds.drop_last().push(k) =~= ds);
    }
}

/// After a pass from a purged sequence, what survives holds exactly the
/// declared keys, in the order of declaration: every entry whose key was
/// not declared is gone.
pub proof fn lemma_purge_keeps_declared(s: Seq<Slot>, ds: Seq<Caller>, next: int, step: int)
    requires
        all_live(s),
    ensures
        keys(purge(run(s, ds, next, step).0, run(s, ds, next, step).1)) == ds,
{
    lemma_run_shape(s, ds, next, step);
}

proof fn lemma_run_same_prefix(s: Seq<Slot>, j: int, next: int, step: int)
    requires
        all_live(s),
        0 <= j <= s.len(),
    ensures
        run(s, keys(s).take(j), next, step) == (s, j, next),
    decreases j,
{
    if j > 0 {
        let ds = keys(s).take(j);
        assert(ds.drop_last() =~= keys(s).take(j - 1));
        lemma_run_same_prefix(s, j - 1, next, step);
        lemma_find_at(s, j - 1, j - 1, s[j - 1].key);
        assert(mark_dead(s, j - 1, j - 1) =~= s);
    }
}

/// Declaring, over a purged sequence, exactly the keys it holds, in order,
/// creates nothing, marks nothing dead, and the purge removes nothing.
pub proof fn lemma_redeclare_is_identity(s: Seq<Slot>, next: int, step: int)
    requires
        all_live(s),
    ensures
        run(s, keys(s), next, step) == (s, s.len() as int, next),
        purge(s, s.len() as int) == s,
{
    assert(keys(s).take(s.len() as int) =~= keys(s));
    lemma_run_same_prefix(s, s.len() as int, next, step);
    assert(s.take(s.len() as int) =~= s);
    lemma_live_all(s);
}

/// `ds` keeps some of the keys of `s`, in their order: `at(j)` is where
/// `ds[j]` stands in `s`.
pub open spec fn picks(s: Seq<Slot>, ds: Seq<Caller>, at: spec_fn(int) -> int) -> bool {
    &&& forall|j: int| 0 <= j < ds.len() ==> 0 <= #[trigger] at(j) < s.len() && s[at(j)].key == ds[j]
    &&& forall|j: int, k: int| 0 <= j < k < ds.len() ==> #[trigger] at(j) < #[trigger] at(k)
}

proof fn lemma_run_picks(s: Seq<Slot>, ds: Seq<Caller>, at: spec_fn(int) -> int, next: int, step: int)
    requires
        all_live(s),
        distinct_keys(s),
        picks(s, ds, at),
    ensures
        run(s, ds, next, step).2 == next,
        run(s, ds, next, step).0.len() == s.len(),
        run(s, ds, next, step).1 == if ds.len() == 0 { 0 } else { at(ds.len() - 1) + 1 },
        forall|i: int|
            run(s, ds, next, step).1 <= i < s.len() ==> #[trigger] run(s, ds, next, step).0[i] == s[i],
        live(run(s, ds, next, step).0.take(run(s, ds, next, step).1)) == Seq::new(
            ds.len(),
            |t: int| s[at(t)],
        ),
    decreases ds.len(),
{
    if ds.len() > 0 {
        let pre = ds.drop_last();
        assert(picks(s, pre, at));
        lemma_run_picks(s, pre, at, next, step);
        let (s1, c1, n1) = run(s, pre, next, step);
        let j = ds.len() - 1;
        let k = ds.last();
        let i = at(j);
        if j > 0 {
            assert(at(j - 1) < at(j));
        }
        assert forall|m: int| c1 <= m < i implies s1[m].key != k by {
            assert(s1[m] == s[m]);
        }
        assert(s1[i] == s[i]);
        lemma_find_at(s1, c1, i, k);
        let s2 = mark_dead(s1, c1, i);
        assert(s2.take(c1) =~= s1.take(c1));
        lemma_live_dead_range(s2, c1, i);
        lemma_live_step(s2, i);
        assert(Seq::new(pre.len(), |t: int| s[at(t)]).push(s[i]) =~= Seq::new(
            ds.len(),
            |t: int| s[at(t)],
        ));
    }
}

/// When a pass over a purged sequence with distinct keys declares some of
/// its keys in their order, every declared key keeps its entry: the
/// survivors are the old entries, identifiers included, and no identifier
/// is issued.
pub proof fn lemma_identity_stable(
    s: Seq<Slot>,
    ds: Seq<Caller>,
    at: spec_fn(int) -> int,
    next: int,
    step: int,
)
    requires
        all_live(s),
        distinct_keys(s),
        picks(s, ds, at),
    ensures
        run(s, ds, next, step).2 == next,
        purge(run(s, ds, next, step).0, run(s, ds, next, step).1).len() == ds.len(),
        forall|j: int|
            0 <= j < ds.len() ==> #[trigger] purge(run(s, ds, next, step).0, run(s, ds, next, step).1)[j]
                == s[at(j)],
{
    lemma_run_picks(s, ds, at, next, step);
}

/// A declaration whose key stands at or after the cursor creates nothing:
/// it lands on the first such entry, and the length is unchanged.
pub proof fn lemma_no_duplicate(s: Seq<Slot>, cursor: int, key: Caller, fresh: u64)
    requires
        0 <= cursor,
        exists|i: int| cursor <= i < s.len() && s[i].key == key,
    ensures
        find_from(s, cursor, key) is Some,
        declare(s, cursor, key, fresh).0.len() == s.len(),
        declare(s, cursor, key, fresh).1 == find_from(s, cursor, key).unwrap() + 1,
        declare(s, cursor, key, fresh).0[find_from(s, cursor, key).unwrap()] == s[find_from(
            s,
            cursor,
            key,
        ).unwrap()],
{
    lemma_find_from(s, cursor, key);
}

} // verus!
