//! The mathematical model of the pusher's cache: a finite map from start
//! offsets to the bytes that begin there, walked in increasing key order.
use vstd::prelude::*;

verus! {

/// `k` is the smallest key of `m`.
pub open spec fn is_first_key(m: Map<u64, Seq<u8>>, k: u64) -> bool {
    &&& m.contains_key(k)
    &&& forall|j: u64| #[trigger] m.contains_key(j) ==> k <= j
}

/// The smallest key of a non-empty map.
pub open spec fn first_key(m: Map<u64, Seq<u8>>) -> u64 {
    choose|k: u64| is_first_key(m, k)
}

/// Every finite non-empty map has a smallest key, and it is the only one.
pub proof fn lemma_first_key(m: Map<u64, Seq<u8>>)
    requires
        m.dom().finite(),
        m.dom().len() > 0,
    ensures
        is_first_key(m, first_key(m)),
        forall|k: u64| is_first_key(m, k) ==> k == first_key(m),
    decreases m.dom().len(),
{
    let k0 = m.dom().choose();
    let rest = m.remove(k0);
    assert(rest.dom() =~= m.dom().remove(k0));
    if rest.dom().len() == 0 {
        assert forall|j: u64| #[trigger] m.contains_key(j) implies k0 <= j by {
            if j != k0 {
                assert(rest.dom().contains(j));
            }
        }
        assert(is_first_key(m, k0));
    } else {
        lemma_first_key(rest);
        let f = first_key(rest);
        if k0 <= f {
            assert forall|j: u64| #[trigger] m.contains_key(j) implies k0 <= j by {
                if j != k0 {
                    assert(rest.contains_key(j));
                }
            }
            assert(is_first_key(m, k0));
        } else {
            assert forall|j: u64| #[trigger] m.contains_key(j) implies f <= j by {
                if j != k0 {
                    assert(rest.contains_key(j));
                }
            }
            assert(is_first_key(m, f));
        }
    }
}

/// The entries of `m` as `(start, bytes)` pairs, by increasing start.
pub open spec fn entries(m: Map<u64, Seq<u8>>) -> Seq<(u64, Seq<u8>)>
    decreases m.dom().len(),
{
    if !m.dom().finite() || m.dom().len() == 0 {
        Seq::empty()
    } else {
        let k = first_key(m);
        proof {
            lemma_first_key(m);
        }
        seq![(k, m[k])] + entries(m.remove(k))
    }
}

/// The total number of bytes held by `m`.
pub open spec fn total(m: Map<u64, Seq<u8>>) -> nat
    decreases m.dom().len(),
{
    if !m.dom().finite() || m.dom().len() == 0 {
        0
    } else {
        let k = first_key(m);
        proof {
            lemma_first_key(m);
        }
        m[k].len() + total(m.remove(k))
    }
}

/// The map that is left after removing the `n` smallest keys of `m`.
pub open spec fn drop_first(m: Map<u64, Seq<u8>>, n: nat) -> Map<u64, Seq<u8>>
    decreases n,
{
    if n == 0 {
        m
    } else {
        let d = drop_first(m, (n - 1) as nat);
        if d.dom().len() == 0 {
            d
        } else {
            d.remove(first_key(d))
        }
    }
}

/// The sum of the byte lengths of a sequence of entries.
pub open spec fn seq_total(s: Seq<(u64, Seq<u8>)>) -> nat
    decreases s.len(),
{
    if s.len() == 0 {
        0
    } else {
        s[0].1.len() + seq_total(s.drop_first())
    }
}

/// The bytes of a sequence of entries, one after the other.
#[verifier::opaque]
pub open spec fn concat_bytes(s: Seq<(u64, Seq<u8>)>) -> Seq<u8>
    decreases s.len(),
{
    if s.len() == 0 {
        Seq::empty()
    } else {
        concat_bytes(s.drop_last()) + s.last().1
    }
}

/// Every entry of `m` ends within the `u64` range.
pub open spec fn ends_fit(m: Map<u64, Seq<u8>>) -> bool {
    forall|k: u64| #[trigger] m.contains_key(k) ==> k + m[k].len() <= u64::MAX
}

/// Removing the smallest key drops the first entry.
pub proof fn lemma_entries_step(m: Map<u64, Seq<u8>>)
    requires
        m.dom().finite(),
        m.dom().len() > 0,
    ensures
        is_first_key(m, first_key(m)),
        m.remove(first_key(m)).dom().finite(),
        m.remove(first_key(m)).dom().len() == m.dom().len() - 1,
        entries(m) == seq![(first_key(m), m[first_key(m)])] + entries(m.remove(first_key(m))),
        entries(m.remove(first_key(m))) == entries(m).drop_first(),
        total(m) == m[first_key(m)].len() + total(m.remove(first_key(m))),
{
    lemma_first_key(m);
    let k = first_key(m);
    assert(entries(m) == seq![(k, m[k])] + entries(m.remove(k)));
    assert(entries(m).drop_first() =~= entries(m.remove(k)));
}

/// There is one entry per key, and the entries hold exactly what the map holds.
pub proof fn lemma_entries_facts(m: Map<u64, Seq<u8>>)
    requires
        m.dom().finite(),
    ensures
        entries(m).len() == m.dom().len(),
        total(m) == seq_total(entries(m)),
        forall|i: int|
            0 <= i < entries(m).len() ==> #[trigger] m.contains_key(entries(m)[i].0) && m[entries(
                m,
            )[i].0] == entries(m)[i].1,
        forall|i: int, j: int|
            0 <= i < j < entries(m).len() ==> #[trigger] entries(m)[i].0 < #[trigger] entries(
                m,
            )[j].0,
        forall|k: u64|
            #[trigger] m.contains_key(k) ==> exists|i: int|
                0 <= i < entries(m).len() && #[trigger] entries(m)[i].0 == k,
    decreases m.dom().len(),
{
    if m.dom().len() == 0 {
        assert(entries(m).len() == 0);
        assert forall|k: u64| #[trigger] m.contains_key(k) implies exists|i: int|
            0 <= i < entries(m).len() && #[trigger] entries(m)[i].0 == k by {
            assert(m.dom().contains(k));
        }
    } else {
        lemma_entries_step(m);
        let k = first_key(m);
        let r = m.remove(k);
        lemma_entries_facts(r);
        let e = entries(m);
        assert(e.drop_first() == entries(r));
        assert(seq_total(e) == e[0].1.len() + seq_total(e.drop_first()));
        assert forall|i: int| 0 <= i < e.len() implies #[trigger] m.contains_key(e[i].0) && m[e[i].0]
            == e[i].1 by {
            if i > 0 {
                assert(e[i] == entries(r)[i - 1]);
                assert(r.contains_key(e[i].0));
                assert(e[i].0 != k);
                assert(m[e[i].0] == r[e[i].0]);
            } else {
                assert(e[0] == (k, m[k]));
            }
        }
        assert forall|i: int, j: int| 0 <= i < j < e.len() implies #[trigger] e[i].0
            < #[trigger] e[j].0 by {
            assert(e[j] == entries(r)[j - 1]);
            assert(r.contains_key(e[j].0));
            if i > 0 {
                assert(e[i] == entries(r)[i - 1]);
            } else {
                assert(m.contains_key(e[j].0));
                assert(e[j].0 != k);
            }
        }
        assert forall|k2: u64| #[trigger] m.contains_key(k2) implies exists|i: int|
            0 <= i < e.len() && #[trigger] e[i].0 == k2 by {
            if k2 == k {
                assert(e[0].0 == k2);
            } else {
                assert(r.contains_key(k2));
                let i = choose|i: int| 0 <= i < entries(r).len() && #[trigger] entries(r)[i].0 == k2;
                assert(e[i + 1] == entries(r)[i]);
            }
        }
    }
}

/// Dropping the `n` smallest keys drops the first `n` entries.
pub proof fn lemma_drop_first(m: Map<u64, Seq<u8>>, n: nat)
    requires
        m.dom().finite(),
        n <= m.dom().len(),
    ensures
        drop_first(m, n).dom().finite(),
        drop_first(m, n).dom().len() == m.dom().len() - n,
        entries(drop_first(m, n)) == entries(m).skip(n as int),
        forall|k: u64| #[trigger] drop_first(m, n).contains_key(k) ==> m.contains_key(k) && drop_first(m, n)[k] == m[k],
    decreases n,
{
    if n == 0 {
        assert(entries(m).skip(0) =~= entries(m));
    } else {
        let p = (n - 1) as nat;
        lemma_drop_first(m, p);
        let d = drop_first(m, p);
        lemma_entries_step(d);
        lemma_entries_facts(m);
        assert(entries(m).skip(n as int) =~= entries(m).skip(p as int).drop_first());
    }
}

/// The entry at position `i` is the smallest entry once the first `i` are dropped.
pub proof fn lemma_entry_at(m: Map<u64, Seq<u8>>, i: nat)
    requires
        m.dom().finite(),
        i < m.dom().len(),
    ensures
        drop_first(m, i).dom().len() > 0,
        entries(m)[i as int] == (first_key(drop_first(m, i)), drop_first(m, i)[first_key(drop_first(m, i))]),
        drop_first(m, i + 1) == drop_first(m, i).remove(first_key(drop_first(m, i))),
{
    lemma_drop_first(m, i);
    let d = drop_first(m, i);
    lemma_entries_step(d);
    lemma_entries_facts(m);
    assert(entries(d)[0] == entries(m).skip(i as int)[0]);
}

/// Removing a key takes its bytes out of the total.
pub proof fn lemma_total_remove(m: Map<u64, Seq<u8>>, k: u64)
    requires
        m.dom().finite(),
        m.contains_key(k),
    ensures
        total(m) == total(m.remove(k)) + m[k].len(),
    decreases m.dom().len(),
{
    lemma_entries_step(m);
    let f = first_key(m);
    if f != k {
        let r = m.remove(f);
        assert(r.contains_key(k));
        lemma_total_remove(r, k);
        let mk = m.remove(k);
        assert(mk.dom() =~= m.dom().remove(k));
        assert(is_first_key(mk, f));
        lemma_first_key(mk);
        lemma_entries_step(mk);
        assert(mk.remove(f) =~= r.remove(k));
    }
}

/// Dropping keys never adds bytes.
pub proof fn lemma_total_drop(m: Map<u64, Seq<u8>>, n: nat)
    requires
        m.dom().finite(),
        n <= m.dom().len(),
    ensures
        total(drop_first(m, n)) <= total(m),
    decreases n,
{
    if n > 0 {
        let p = (n - 1) as nat;
        lemma_total_drop(m, p);
        lemma_drop_first(m, p);
        let d = drop_first(m, p);
        lemma_first_key(d);
        lemma_total_remove(d, first_key(d));
    }
}

/// A map without keys is the empty map.
pub proof fn lemma_no_keys(m: Map<u64, Seq<u8>>)
    requires
        m.dom().finite(),
        m.dom().len() == 0,
    ensures
        m == Map::<u64, Seq<u8>>::empty(),
{
    m.dom().lemma_len0_is_empty();
    assert(m =~= Map::<u64, Seq<u8>>::empty());
}

/// Inserting replaces the bytes of the key in the total.
pub proof fn lemma_total_insert(m: Map<u64, Seq<u8>>, k: u64, v: Seq<u8>)
    requires
        m.dom().finite(),
    ensures
        m.contains_key(k) ==> total(m.insert(k, v)) + m[k].len() == total(m) + v.len(),
        !m.contains_key(k) ==> total(m.insert(k, v)) == total(m) + v.len(),
{
    let mi = m.insert(k, v);
    lemma_total_remove(mi, k);
    if m.contains_key(k) {
        lemma_total_remove(m, k);
        assert(mi.remove(k) =~= m.remove(k));
    } else {
        assert(mi.remove(k) =~= m);
    }
}

/// Byte lengths add up over concatenation.
pub proof fn lemma_seq_total_add(a: Seq<(u64, Seq<u8>)>, b: Seq<(u64, Seq<u8>)>)
    ensures
        seq_total(a + b) == seq_total(a) + seq_total(b),
    decreases a.len(),
{
    if a.len() > 0 {
        lemma_seq_total_add(a.drop_first(), b);
        assert((a + b).drop_first() =~= a.drop_first() + b);
    } else {
        assert(a + b =~= b);
    }
}

/// The concatenated bytes are as long as the byte total.
pub proof fn lemma_concat_len(s: Seq<(u64, Seq<u8>)>)
    ensures
        concat_bytes(s).len() == seq_total(s),
    decreases s.len(),
{
    lemma_concat_step(s);
    if s.len() > 0 {
        lemma_concat_len(s.drop_last());
        lemma_seq_total_add(s.drop_last(), seq![s.last()]);
        assert(s.drop_last() + seq![s.last()] =~= s);
        assert(seq_total(seq![s.last()]) == s.last().1.len() + seq_total(seq![s.last()].drop_first()));
        assert(seq![s.last()].drop_first().len() == 0);
    }
}

/// A maximal group of consecutive entries whose bytes follow one another:
/// it starts at `start`, holds `data`, and ends before entry `end`.
pub struct Run {
    pub start: u64,
    pub data: Seq<u8>,
    pub end: nat,
}

/// Walks the entries in order and merges each one into the previous run
/// when it begins exactly where that run ends.
#[verifier::opaque]
pub open spec fn merge(e: Seq<(u64, Seq<u8>)>) -> Seq<Run>
    decreases e.len(),
{
    if e.len() == 0 {
        Seq::empty()
    } else {
        let r = merge(e.drop_last());
        let s = e.last().0;
        let c = e.last().1;
        if r.len() > 0 && r.last().start + r.last().data.len() == s {
            r.update(
                r.len() - 1,
                Run { start: r.last().start, data: r.last().data + c, end: e.len() },
            )
        } else {
            r.push(Run { start: s, data: c, end: e.len() })
        }
    }
}

/// The index of the first entry of run `j`.
pub open spec fn run_first(r: Seq<Run>, j: int) -> nat {
    if j == 0 {
        0
    } else {
        r[j - 1].end
    }
}

/// What a flush sends: every merged run, in order, except a last run that holds no byte.
pub open spec fn send_plan(e: Seq<(u64, Seq<u8>)>) -> Seq<Run> {
    let r = merge(e);
    if r.len() > 0 && r.last().data.len() == 0 {
        r.drop_last()
    } else {
        r
    }
}

/// What the cache holds after the send of planned run `k` failed: the runs
/// before it are gone, run `k` comes back merged, and the entries after it
/// stay as they were.
pub open spec fn after_failed_send(m: Map<u64, Seq<u8>>, k: int) -> Map<u64, Seq<u8>> {
    let r = merge(entries(m))[k];
    drop_first(m, r.end).insert(r.start, r.data)
}

/// One step of the walk: the last entry either extends the last run or starts a new one.
pub proof fn lemma_merge_step(e: Seq<(u64, Seq<u8>)>)
    ensures
        e.len() == 0 ==> merge(e) == Seq::<Run>::empty(),
        e.len() > 0 ==> {
            let r = merge(e.drop_last());
            let s = e.last().0;
            let c = e.last().1;
            if r.len() > 0 && r.last().start + r.last().data.len() == s {
                merge(e) == r.update(
                    r.len() - 1,
                    Run { start: r.last().start, data: r.last().data + c, end: e.len() },
                )
            } else {
                merge(e) == r.push(Run { start: s, data: c, end: e.len() })
            }
        },
{
    reveal(merge);
}

/// One step of the byte concatenation.
pub proof fn lemma_concat_step(s: Seq<(u64, Seq<u8>)>)
    ensures
        s.len() == 0 ==> concat_bytes(s) == Seq::<u8>::empty(),
        s.len() > 0 ==> concat_bytes(s) == concat_bytes(s.drop_last()) + s.last().1,
{
    reveal(concat_bytes);
}

/// Runs cut the entries into consecutive non-empty groups.
pub proof fn lemma_merge_shape(e: Seq<(u64, Seq<u8>)>)
    ensures
        merge(e).len() <= e.len(),
        merge(e).len() == 0 <==> e.len() == 0,
        merge(e).len() > 0 ==> merge(e).last().end == e.len(),
        forall|j: int|
            0 <= j < merge(e).len() ==> run_first(merge(e), j) < #[trigger] merge(e)[j].end
                <= e.len(),
    decreases e.len(),
{
    lemma_merge_step(e);
    if e.len() > 0 {
        let p = e.drop_last();
        lemma_merge_shape(p);
        let r = merge(p);
        let n = merge(e);
        assert forall|j: int| 0 <= j < n.len() implies run_first(n, j) < #[trigger] n[j].end
            <= e.len() by {
            if j < r.len() && j > 0 {
                assert(n[j - 1] == r[j - 1]);
            }
            if j > 0 && j == r.len() {
                assert(n[j - 1] == r[j - 1]);
            }
        }
    }
}

/// Run `j` starts at its first entry and ends where its last entry ends.
#[verifier::rlimit(40)]
pub proof fn lemma_merge_run_ends(e: Seq<(u64, Seq<u8>)>, j: int)
    requires
        0 <= j < merge(e).len(),
    ensures
        merge(e)[j].start == e[run_first(merge(e), j) as int].0,
        merge(e)[j].start + merge(e)[j].data.len() == e[merge(e)[j].end - 1].0 + e[merge(
            e,
        )[j].end - 1].1.len(),
    decreases e.len(),
{
    let p = e.drop_last();
    lemma_merge_shape(p);
    lemma_merge_shape(e);
    lemma_merge_step(e);
    let r = merge(p);
    let n = merge(e);
    let f = run_first(n, j);
    if j > 0 {
        assert(n[j - 1] == r[j - 1]);
    }
    if j < r.len() {
        assert(run_first(n, j) == run_first(r, j));
        lemma_merge_run_ends(p, j);
        assert(e[f as int] == p[f as int]);
        if n[j] == r[j] {
            assert(e[n[j].end - 1] == p[r[j].end - 1]);
        }
    }
}

/// Run `j` holds the bytes of its entries.
#[verifier::rlimit(40)]
pub proof fn lemma_merge_run_data(e: Seq<(u64, Seq<u8>)>, j: int)
    requires
        0 <= j < merge(e).len(),
    ensures
        merge(e)[j].data == concat_bytes(
            e.subrange(run_first(merge(e), j) as int, merge(e)[j].end as int),
        ),
    decreases e.len(),
{
    let p = e.drop_last();
    lemma_merge_shape(p);
    lemma_merge_shape(e);
    lemma_merge_step(e);
    let r = merge(p);
    let n = merge(e);
    let f = run_first(n, j);
    if j > 0 {
        assert(n[j - 1] == r[j - 1]);
    }
    if j < r.len() {
        assert(run_first(n, j) == run_first(r, j));
        lemma_merge_run_data(p, j);
        if n[j] == r[j] {
            assert(e.subrange(f as int, n[j].end as int) =~= p.subrange(f as int, r[j].end as int));
        } else {
            let sub = e.subrange(f as int, e.len() as int);
            assert(sub.drop_last() =~= p.subrange(f as int, p.len() as int));
            lemma_concat_step(sub);
        }
    } else {
        let sub = e.subrange(f as int, e.len() as int);
        assert(f == p.len());
        lemma_concat_step(sub);
        lemma_concat_step(sub.drop_last());
        assert(concat_bytes(sub) =~= e.last().1);
    }
}

/// A run never begins where the run before it ends.
pub proof fn lemma_merge_gaps(e: Seq<(u64, Seq<u8>)>)
    ensures
        forall|j: int|
            0 <= j < merge(e).len() - 1 ==> #[trigger] merge(e)[j].start + merge(e)[j].data.len()
                != merge(e)[j + 1].start,
    decreases e.len(),
{
    lemma_merge_step(e);
    if e.len() > 0 {
        let p = e.drop_last();
        lemma_merge_gaps(p);
        let r = merge(p);
        let n = merge(e);
        assert forall|j: int| 0 <= j < n.len() - 1 implies #[trigger] n[j].start + n[j].data.len()
            != n[j + 1].start by {
            assert(n[j] == r[j]);
            if j + 1 < r.len() {
                assert(r[j + 1].start == n[j + 1].start);
            }
        }
    }
}

/// The plan is the merged runs, possibly without the last one.
pub proof fn lemma_send_plan(e: Seq<(u64, Seq<u8>)>)
    ensures
        send_plan(e).len() <= merge(e).len(),
        merge(e).len() <= send_plan(e).len() + 1,
        forall|k: int| 0 <= k < send_plan(e).len() ==> #[trigger] send_plan(e)[k] == merge(e)[k],
{
}

/// Byte totals split over a cut of the entries into three parts.
pub proof fn lemma_seq_total_split(e: Seq<(u64, Seq<u8>)>, a: int, b: int)
    requires
        0 <= a <= b <= e.len(),
    ensures
        seq_total(e) == seq_total(e.take(a)) + seq_total(e.subrange(a, b)) + seq_total(e.skip(b)),
{
    lemma_seq_total_add(e.take(a), e.subrange(a, b));
    lemma_seq_total_add(e.take(a) + e.subrange(a, b), e.skip(b));
    assert(e.take(a) + e.subrange(a, b) + e.skip(b) =~= e);
}

/// What a failed send leaves: run `k` comes back as one new entry in front of
/// the entries that follow it, so no byte that was not handed over is lost.
pub proof fn lemma_after_failed_send(m: Map<u64, Seq<u8>>, k: int)
    requires
        m.dom().finite(),
        ends_fit(m),
        0 <= k < merge(entries(m)).len(),
    ensures
        ({
            let e = entries(m);
            let r = merge(e)[k];
            let d = drop_first(m, r.end);
            &&& r.end <= m.dom().len()
            &&& d.dom().finite()
            &&& !d.contains_key(r.start)
            &&& r.start + r.data.len() <= u64::MAX
            &&& r.data.len() == seq_total(e.subrange(run_first(merge(e), k) as int, r.end as int))
            &&& total(d) + r.data.len() <= total(m)
            &&& total(after_failed_send(m, k)) == total(d) + r.data.len()
            &&& ends_fit(after_failed_send(m, k))
        }),
{
    let e = entries(m);
    let rs = merge(e);
    let r = rs[k];
    let f = run_first(rs, k) as int;
    lemma_entries_facts(m);
    lemma_merge_shape(e);
    lemma_merge_run_ends(e, k);
    lemma_merge_run_data(e, k);
    lemma_concat_len(e.subrange(f, r.end as int));
    lemma_drop_first(m, r.end);
    let d = drop_first(m, r.end);
    lemma_entries_facts(d);
    assert(!d.contains_key(r.start)) by {
        if d.contains_key(r.start) {
            let i = choose|i: int| 0 <= i < entries(d).len() && #[trigger] entries(d)[i].0 == r.start;
            assert(entries(d)[i] == e[r.end + i]);
            assert(e[f].0 < e[r.end + i].0);
        }
    }
    let last = e[r.end - 1];
    assert(m.contains_key(last.0));
    lemma_seq_total_split(e, f, r.end as int);
    assert(total(d) == seq_total(e.skip(r.end as int)));
    lemma_total_insert(d, r.start, r.data);
    let a = after_failed_send(m, k);
    assert forall|x: u64| #[trigger] a.contains_key(x) implies x + a[x].len() <= u64::MAX by {
        if x != r.start {
            assert(d.contains_key(x));
            assert(m.contains_key(x));
        }
    }
}

/// The runs of a walk, as `(start, bytes)` pairs.
pub open spec fn run_pairs(r: Seq<Run>) -> Seq<(u64, Seq<u8>)> {
    r.map_values(|x: Run| (x.start, x.data))
}

/// Merging keeps every byte, in order.
proof fn lemma_merge_bytes(e: Seq<(u64, Seq<u8>)>)
    ensures
        concat_bytes(run_pairs(merge(e))) == concat_bytes(e),
    decreases e.len(),
{
    lemma_merge_step(e);
    lemma_concat_step(e);
    if e.len() == 0 {
        lemma_concat_step(run_pairs(merge(e)));
    } else {
        let p = e.drop_last();
        lemma_merge_bytes(p);
        let r = merge(p);
        let n = merge(e);
        let c = e.last().1;
        lemma_concat_step(run_pairs(n));
        if r.len() > 0 && r.last().start + r.last().data.len() == e.last().0 {
            lemma_concat_step(run_pairs(r));
            assert(run_pairs(n).drop_last() =~= run_pairs(r).drop_last());
            assert(concat_bytes(run_pairs(n)) =~= concat_bytes(run_pairs(r)) + c);
        } else {
            assert(run_pairs(n).drop_last() =~= run_pairs(r));
        }
    }
}

/// Law: a flush hands over every cached byte exactly once, in order of offset:
/// the bytes of the planned runs, one after the other, are the bytes of the
/// cached pieces, one after the other.
pub proof fn law_plan_keeps_every_byte(m: Map<u64, Seq<u8>>)
    requires
        m.dom().finite(),
    ensures
        concat_bytes(run_pairs(send_plan(entries(m)))) == concat_bytes(entries(m)),
{
    let e = entries(m);
    lemma_merge_bytes(e);
    let r = merge(e);
    if r.len() > 0 && r.last().data.len() == 0 {
        lemma_concat_step(run_pairs(r));
        assert(run_pairs(r).drop_last() =~= run_pairs(send_plan(e)));
        assert(concat_bytes(run_pairs(r)) =~= concat_bytes(run_pairs(send_plan(e))));
    }
}

/// Law: the planned runs come by strictly increasing offset, and no run
/// begins where the run before it ends (such runs would have been merged).
pub proof fn law_plan_runs_apart(m: Map<u64, Seq<u8>>)
    requires
        m.dom().finite(),
    ensures
        forall|j: int|
            0 <= j < send_plan(entries(m)).len() - 1 ==> {
                &&& #[trigger] send_plan(entries(m))[j].start < send_plan(entries(m))[j + 1].start
                &&& send_plan(entries(m))[j].start + send_plan(entries(m))[j].data.len()
                    != send_plan(entries(m))[j + 1].start
            },
{
    let e = entries(m);
    let r = merge(e);
    lemma_entries_facts(m);
    lemma_merge_shape(e);
    lemma_merge_gaps(e);
    lemma_send_plan(e);
    assert forall|j: int| 0 <= j < send_plan(e).len() - 1 implies {
        &&& #[trigger] send_plan(e)[j].start < send_plan(e)[j + 1].start
        &&& send_plan(e)[j].start + send_plan(e)[j].data.len() != send_plan(e)[j + 1].start
    } by {
        lemma_merge_run_ends(e, j);
        lemma_merge_run_ends(e, j + 1);
        assert(run_first(r, j + 1) == r[j].end);
        assert(run_first(r, j) < r[j].end);
    }
}

/// Law: when the send of planned run `k` fails, the runs before it are the
/// only bytes that leave the cache; run `k` comes back as one piece in front
/// of the untouched pieces that follow it.
pub proof fn law_failed_send_keeps_the_rest(m: Map<u64, Seq<u8>>, k: int)
    requires
        m.dom().finite(),
        ends_fit(m),
        0 <= k < send_plan(entries(m)).len(),
    ensures
        ({
            let e = entries(m);
            let r = merge(e)[k];
            &&& entries(after_failed_send(m, k)) == seq![(r.start, r.data)] + e.skip(r.end as int)
            &&& total(after_failed_send(m, k)) + seq_total(e.take(run_first(merge(e), k) as int))
                == total(m)
        }),
{
    let e = entries(m);
    lemma_send_plan(e);
    lemma_after_failed_send(m, k);
    let rs = merge(e);
    let r = rs[k];
    let f = run_first(rs, k) as int;
    lemma_merge_shape(e);
    lemma_entries_facts(m);
    lemma_drop_first(m, r.end);
    let d = drop_first(m, r.end);
    lemma_entries_facts(d);
    let a = after_failed_send(m, k);
    lemma_merge_run_ends(e, k);
    assert(is_first_key(a, r.start)) by {
        assert forall|x: u64| #[trigger] a.contains_key(x) implies r.start <= x by {
            if x != r.start {
                assert(d.contains_key(x));
                let i = choose|i: int| 0 <= i < entries(d).len() && #[trigger] entries(d)[i].0 == x;
                assert(entries(d)[i] == e[r.end + i]);
                assert(e[f].0 < e[r.end + i].0);
            }
        }
    }
    assert(a.dom().finite());
    assert(a.dom().len() > 0) by {
        assert(a.contains_key(r.start));
    }
    lemma_entries_step(a);
    lemma_first_key(a);
    assert(a.remove(r.start) =~= d);
    lemma_seq_total_split(e, f, r.end as int);
}

/// Concatenation of bytes distributes over concatenation of entries.
proof fn lemma_concat_add(a: Seq<(u64, Seq<u8>)>, b: Seq<(u64, Seq<u8>)>)
    ensures
        concat_bytes(a + b) == concat_bytes(a) + concat_bytes(b),
    decreases b.len(),
{
    lemma_concat_step(a + b);
    lemma_concat_step(b);
    if b.len() == 0 {
        assert(a + b =~= a);
        assert(concat_bytes(a) + concat_bytes(b) =~= concat_bytes(a));
    } else {
        lemma_concat_add(a, b.drop_last());
        assert((a + b).drop_last() =~= a + b.drop_last());
        assert(concat_bytes(a + b) =~= concat_bytes(a) + concat_bytes(b));
    }
}

/// The first `k` runs hold the bytes of the entries before run `k`.
proof fn lemma_runs_prefix_bytes(e: Seq<(u64, Seq<u8>)>, k: int)
    requires
        0 <= k <= merge(e).len(),
    ensures
        run_first(merge(e), k) <= e.len(),
        concat_bytes(run_pairs(merge(e)).take(k)) == concat_bytes(e.take(run_first(merge(e), k) as int)),
    decreases k,
{
    let r = merge(e);
    lemma_merge_shape(e);
    if k == 0 {
        lemma_concat_step(run_pairs(r).take(0));
        lemma_concat_step(e.take(0));
    } else {
        lemma_runs_prefix_bytes(e, k - 1);
        let f = run_first(r, k - 1) as int;
        let end = r[k - 1].end as int;
        lemma_merge_run_data(e, k - 1);
        let t = run_pairs(r).take(k);
        lemma_concat_step(t);
        assert(t.drop_last() =~= run_pairs(r).take(k - 1));
        lemma_concat_add(e.take(f), e.subrange(f, end));
        assert(e.take(f) + e.subrange(f, end) =~= e.take(end));
    }
}

/// Law: when the send of planned run `k` fails, the bytes of the runs that
/// were handed over, followed by the bytes that stay in the cache, are the
/// bytes that were cached, in order: nothing is lost and nothing is handed
/// over twice.
pub proof fn law_failed_send_loses_nothing(m: Map<u64, Seq<u8>>, k: int)
    requires
        m.dom().finite(),
        ends_fit(m),
        0 <= k < send_plan(entries(m)).len(),
    ensures
        concat_bytes(run_pairs(send_plan(entries(m))).take(k)) + concat_bytes(
            entries(after_failed_send(m, k)),
        ) == concat_bytes(entries(m)),
{
    let e = entries(m);
    let rs = merge(e);
    let r = rs[k];
    let f = run_first(rs, k) as int;
    let end = r.end as int;
    assert(k < rs.len() && 0 <= f < end <= e.len()) by {
        lemma_send_plan(e);
        lemma_merge_shape(e);
    }
    assert(concat_bytes(run_pairs(send_plan(e)).take(k)) == concat_bytes(e.take(f))) by {
        lemma_send_plan(e);
        lemma_runs_prefix_bytes(e, k);
        assert(run_pairs(send_plan(e)).take(k) =~= run_pairs(rs).take(k));
    }
    assert(concat_bytes(entries(after_failed_send(m, k))) == r.data + concat_bytes(e.skip(end))) by {
        law_failed_send_keeps_the_rest(m, k);
        let head = seq![(r.start, r.data)];
        lemma_concat_add(head, e.skip(end));
        lemma_concat_step(head);
        lemma_concat_step(head.drop_last());
        assert(concat_bytes(head) =~= r.data);
    }
    assert(r.data == concat_bytes(e.subrange(f, end))) by {
        lemma_merge_run_data(e, k);
    }
    assert(concat_bytes(e.take(f)) + concat_bytes(e.subrange(f, end)) + concat_bytes(e.skip(end))
        == concat_bytes(e)) by {
        lemma_concat_add(e.take(f), e.subrange(f, end));
        lemma_concat_add(e.take(end), e.skip(end));
        assert(e.take(f) + e.subrange(f, end) =~= e.take(end));
        assert(e.take(end) + e.skip(end) =~= e);
    }
    assert(concat_bytes(e.take(f)) + (r.data + concat_bytes(e.skip(end))) =~= concat_bytes(e.take(f))
        + r.data + concat_bytes(e.skip(end)));
}

} // verus!
