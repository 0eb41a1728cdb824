//! The write-back cache behind a user-supplied push callback.
//!
//! Pushed pieces are kept by start offset. Once the cached bytes reach the
//! buffer size, the cache is flushed: its pieces are walked by increasing
//! offset, pieces that follow one another without a gap are merged, and each
//! merged run is handed to the callback. Handing a run over is work that only
//! the caller can do, so a flush is driven from outside in three calls:
//! [`PyPusher::flush_plan`] names the runs to hand over, and after trying them
//! in order the caller reports the outcome with [`PyPusher::flush_done`] or
//! [`PyPusher::flush_failed`].
use crate::chunk_map::{
    after_failed_send, concat_bytes, law_failed_send_keeps_the_rest, law_failed_send_loses_nothing,
    law_plan_keeps_every_byte, drop_first, ends_fit, entries, first_key, is_first_key, lemma_after_failed_send,
    lemma_drop_first, lemma_entries_facts, lemma_entry_at, lemma_first_key, lemma_merge_run_ends,
    lemma_merge_step, lemma_no_keys, lemma_send_plan, lemma_total_drop, lemma_total_insert,
    lemma_total_remove, merge, run_pairs, send_plan, total, Run,
};
use crate::text::{join_topic, topic_message};
use std::collections::BTreeMap;
use vstd::prelude::*;

verus! {

broadcast use vstd::std_specs::btree::group_btree_axioms, vstd::laws_cmp::group_laws_cmp;

/// A merged run of the cache: `data` belongs at offset `start`.
pub struct Chunk {
    pub start: u64,
    pub data: Vec<u8>,
}

/// The cached bytes of a map of byte vectors.
pub open spec fn bytes_view(c: Map<u64, Vec<u8>>) -> Map<u64, Seq<u8>> {
    c.map_values(|v: Vec<u8>| v@)
}

/// The pieces of a vector of `(start, bytes)` pairs.
pub open spec fn pieces_view(v: Seq<(u64, Vec<u8>)>) -> Seq<(u64, Seq<u8>)> {
    v.map_values(|p: (u64, Vec<u8>)| (p.0, p.1@))
}

/// The runs of a vector of chunks, as `(start, bytes)` pairs.
pub open spec fn chunks_view(v: Seq<Chunk>) -> Seq<(u64, Seq<u8>)> {
    v.map_values(|c: Chunk| (c.start, c.data@))
}

/// Wraps std's `BTreeMap::pop_first`, which removes and returns the entry
/// with the smallest key, and returns `None` when the map is empty.
#[verifier::external_body]
fn pop_first_entry(cache: &mut BTreeMap<u64, Vec<u8>>) -> (res: Option<(u64, Vec<u8>)>)
    ensures
        match res {
            None => old(cache)@.dom().len() == 0 && final(cache)@ == old(cache)@,
            Some(kv) => {
                &&& old(cache)@.contains_key(kv.0)
                &&& old(cache)@[kv.0] == kv.1
                &&& forall|j: u64| #[trigger] old(cache)@.contains_key(j) ==> kv.0 <= j
                &&& final(cache)@ == old(cache)@.remove(kv.0)
            },
        },
{
    cache.pop_first()
}

/// Viewing a vector of chunks commutes with pushing one more.
proof fn lemma_chunks_view_push(v: Seq<Chunk>, c: Chunk)
    ensures
        chunks_view(v.push(c)) == chunks_view(v).push((c.start, c.data@)),
{
    assert(chunks_view(v.push(c)) =~= chunks_view(v).push((c.start, c.data@)));
}

/// Viewing runs commutes with taking off the last one.
proof fn lemma_runs_view_last(r: Seq<Run>)
    requires
        r.len() > 0,
    ensures
        run_pairs(r) == run_pairs(r.drop_last()).push((r.last().start, r.last().data)),
{
    assert(run_pairs(r) =~= run_pairs(r.drop_last()).push((r.last().start, r.last().data)));
}

/// A copy of a byte vector.
fn copy_bytes(v: &Vec<u8>) -> (r: Vec<u8>)
    ensures
        r@ == v@,
{
    let r = v.clone();
    assert(r@ =~= v@);
    r
}

/// Appends a copy of `more` to `v`.
fn extend_bytes(v: &mut Vec<u8>, more: &Vec<u8>)
    ensures
        final(v)@ == old(v)@ + more@,
{
    v.extend_from_slice(more.as_slice());
    assert(v@ =~= old(v)@ + more@);
}

/// Merges the pieces, taken in order, into runs: a piece that begins where
/// the current run ends is appended to it, any other piece starts a new run.
/// Returns the runs and, for each run, the position just after its last piece.
fn merge_pieces(pieces: &Vec<(u64, Vec<u8>)>) -> (out: (Vec<Chunk>, Vec<usize>))
    requires
        forall|i: int|
            0 <= i < pieces@.len() ==> #[trigger] pieces@[i].0 + pieces@[i].1@.len() <= u64::MAX,
    ensures
        chunks_view(out.0@) == run_pairs(merge(pieces_view(pieces@))),
        out.1@.len() == out.0@.len(),
        forall|j: int| 0 <= j < out.1@.len() ==> out.1@[j] == #[trigger] merge(pieces_view(pieces@))[j].end,
{
    let ghost e = pieces_view(pieces@);
    let mut runs: Vec<Chunk> = Vec::new();
    let mut ends: Vec<usize> = Vec::new();
    let mut merged_start: Option<u64> = None;
    let mut merged: Vec<u8> = Vec::new();
    let mut i: usize = 0;
    while i < pieces.len()
        invariant
            i <= pieces@.len(),
            e == pieces_view(pieces@),
            e.len() == pieces@.len(),
            forall|x: int|
                0 <= x < pieces@.len() ==> #[trigger] pieces@[x].0 + pieces@[x].1@.len() <= u64::MAX,
            merged_start is None <==> i == 0,
            i == 0 ==> runs@.len() == 0 && ends@.len() == 0,
            i > 0 ==> {
                let r = merge(e.take(i as int));
                &&& r.len() > 0
                &&& r.last().end == i
                &&& chunks_view(runs@) == run_pairs(r.drop_last())
                &&& ends@.len() == runs@.len()
                &&& forall|j: int| 0 <= j < ends@.len() ==> ends@[j] == #[trigger] r[j].end
                &&& merged_start == Some(r.last().start)
                &&& merged@ == r.last().data
            },
        decreases pieces@.len() - i,
    {
        let ghost t = e.take(i as int);
        let ghost t1 = e.take(i + 1);
        proof {
            assert(t1.drop_last() =~= t);
            assert(t1.last() == e[i as int]);
            lemma_merge_step(t1);
        }
        let start = pieces[i].0;
        let chunk = &pieces[i].1;
        proof {
            assert(e[i as int] == (start, chunk@));
        }
        match merged_start {
            Some(ms) => {
                proof {
                    let r = merge(t);
                    lemma_merge_run_ends(t, r.len() - 1);
                    assert(t[i - 1] == e[i - 1]);
                    assert(e[i - 1] == (pieces@[i - 1].0, pieces@[i - 1].1@));
                }
                if ms + (merged.len() as u64) == start {
                    extend_bytes(&mut merged, chunk);
                    proof {
                        let r = merge(t);
                        let n = merge(t1);
                        assert(n.drop_last() =~= r.drop_last());
                        assert forall|j: int| 0 <= j < ends@.len() implies ends@[j] == #[trigger] n[j].end by {
                            assert(n[j] == r[j]);
                        }
                    }
                } else {
                    let done = Chunk { start: ms, data: merged };
                    proof {
                        lemma_chunks_view_push(runs@, done);
                        lemma_runs_view_last(merge(t));
                    }
                    runs.push(done);
                    ends.push(i);
                    merged = copy_bytes(chunk);
                    merged_start = Some(start);
                    proof {
                        let r = merge(t);
                        let n = merge(t1);
                        assert(n.drop_last() =~= r);
                        assert(chunks_view(runs@) =~= run_pairs(n.drop_last()));
                        assert forall|j: int| 0 <= j < ends@.len() implies ends@[j] == #[trigger] n[j].end by {
                            assert(n[j] == r[j]);
                        }
                    }
                }
            },
            None => {
                merged_start = Some(start);
                merged = copy_bytes(chunk);
                proof {
                    lemma_merge_step(t);
                    let n = merge(t1);
                    assert(t.len() == 0);
                    assert(n.drop_last() =~= Seq::<Run>::empty());
                    assert(chunks_view(runs@) =~= run_pairs(n.drop_last()));
                }
            },
        }
        i = i + 1;
    }
    proof {
        assert(e.take(i as int) =~= e);
        assert(merge(e.take(i as int)) == merge(e));
        lemma_merge_step(e);
    }
    match merged_start {
        Some(ms) => {
            let ghost r = merge(e);
            let last = Chunk { start: ms, data: merged };
            proof {
                lemma_chunks_view_push(runs@, last);
                lemma_runs_view_last(r);
            }
            runs.push(last);
            ends.push(i);
            proof {
                assert(chunks_view(runs@) =~= run_pairs(r));
                assert forall|j: int| 0 <= j < ends@.len() implies ends@[j] == #[trigger] r[j].end by {
                }
            }
        },
        None => {
            proof {
                assert(e.len() == 0);
                assert(chunks_view(runs@) =~= run_pairs(merge(e)));
            }
        },
    }
    (runs, ends)
}

/// The message of a refusal by the user's flush callback:
/// `Python flush error: ` and the reason.
pub fn flush_callback_error(reason: &str) -> (msg: String)
    ensures
        msg@ == topic_message("Python flush error"@, reason@),
{
    join_topic("Python flush error", reason)
}

/// The cache between the download and the user's push callback.
pub struct PyPusher {
    cache: BTreeMap<u64, Vec<u8>>,
    cache_size: usize,
    buffer_size: usize,
}

impl PyPusher {
    /// The cached pieces: for each start offset, the bytes that begin there.
    pub closed spec fn chunks(&self) -> Map<u64, Seq<u8>> {
        bytes_view(self.cache@)
    }

    /// The number of cached bytes that triggers a flush.
    pub closed spec fn spec_buffer_size(&self) -> nat {
        self.buffer_size as nat
    }

    /// The recorded number of cached bytes.
    pub closed spec fn spec_cache_size(&self) -> nat {
        self.cache_size as nat
    }

    /// The recorded size is the number of cached bytes, and every piece ends
    /// within the `u64` offsets.
    pub closed spec fn wf(&self) -> bool {
        &&& self.cache@.dom().finite()
        &&& self.cache_size == total(self.chunks())
        &&& ends_fit(self.chunks())
    }

    /// What a valid pusher holds: finitely many pieces, each ending within
    /// the `u64` offsets, and a recorded size that is their byte total.
    pub proof fn lemma_wf(&self)
        requires
            self.wf(),
        ensures
            self.chunks().dom().finite(),
            ends_fit(self.chunks()),
            self.spec_cache_size() == total(self.chunks()),
    {
        assert(self.chunks().dom() =~= self.cache@.dom());
    }

    /// An empty cache that flushes once `buffer_size` bytes are cached.
    pub fn new(buffer_size: usize) -> (p: Self)
        ensures
            p.wf(),
            p.chunks() == Map::<u64, Seq<u8>>::empty(),
            p.spec_cache_size() == 0,
            p.spec_buffer_size() == buffer_size,
    {
        let p = PyPusher { cache: BTreeMap::new(), cache_size: 0, buffer_size };
        proof {
            assert(p.chunks() =~= Map::<u64, Seq<u8>>::empty());
            assert(p.chunks().dom().len() == 0);
        }
        p
    }

    /// The number of cached bytes.
    pub fn cache_size(&self) -> (n: usize)
        requires
            self.wf(),
        ensures
            n == self.spec_cache_size(),
            n == total(self.chunks()),
    {
        self.cache_size
    }

    /// The number of cached bytes that triggers a flush.
    pub fn buffer_size(&self) -> (n: usize)
        ensures
            n == self.spec_buffer_size(),
    {
        self.buffer_size
    }

    /// Takes every piece out of the cache, by increasing start offset.
    fn drain_sorted(&mut self) -> (pieces: Vec<(u64, Vec<u8>)>)
        requires
            old(self).wf(),
        ensures
            final(self).chunks() == Map::<u64, Seq<u8>>::empty(),
            final(self).cache@.dom().finite(),
            final(self).cache_size == 0,
            final(self).buffer_size == old(self).buffer_size,
            pieces_view(pieces@) == entries(old(self).chunks()),
    {
        let ghost m = self.chunks();
        let ghost e = entries(m);
        proof {
            assert(m.dom() =~= self.cache@.dom());
            lemma_entries_facts(m);
        }
        let mut pieces: Vec<(u64, Vec<u8>)> = Vec::new();
        loop
            invariant
                m.dom().finite(),
                e == entries(m),
                e.len() == m.dom().len(),
                pieces@.len() <= m.dom().len(),
                self.cache@.dom().finite(),
                self.chunks() == drop_first(m, pieces@.len() as nat),
                self.cache_size == total(self.chunks()),
                self.buffer_size == old(self).buffer_size,
                pieces_view(pieces@) == e.take(pieces@.len() as int),
            ensures
                self.chunks() == Map::<u64, Seq<u8>>::empty(),
                self.cache@.dom().finite(),
                self.cache_size == 0,
                self.buffer_size == old(self).buffer_size,
                pieces_view(pieces@) == e,
            decreases self.cache@.dom().len(),
        {
            let ghost i = pieces@.len() as nat;
            let ghost before = self.cache@;
            proof {
                lemma_drop_first(m, i);
                assert(before.dom() =~= self.chunks().dom());
            }
            match pop_first_entry(&mut self.cache) {
                Some(kv) => {
                    let (k, v) = kv;
                    proof {
                        let d = drop_first(m, i);
                        assert(d.dom().len() > 0) by {
                            assert(d.contains_key(k));
                        }
                        lemma_entry_at(m, i);
                        lemma_first_key(d);
                        assert(is_first_key(d, k));
                        assert(k == first_key(d));
                        assert(self.chunks() =~= d.remove(k));
                        lemma_total_remove(d, k);
                    }
                    self.cache_size = self.cache_size - v.len();
                    pieces.push((k, v));
                    proof {
                        assert(pieces_view(pieces@) =~= e.take(pieces@.len() as int));
                    }
                },
                None => {
                    proof {
                        assert(self.chunks().dom().len() == 0);
                        assert(i == m.dom().len());
                        assert(self.chunks() =~= Map::<u64, Seq<u8>>::empty());
                        assert(e.take(i as int) =~= e);
                    }
                    break ;
                },
            }
        }
        pieces
    }

    /// Puts the pieces from position `from` on back into the empty cache.
    fn restore_from(
        &mut self,
        pieces: Vec<(u64, Vec<u8>)>,
        from: usize,
        Ghost(m): Ghost<Map<u64, Seq<u8>>>,
    )
        requires
            m.dom().finite(),
            ends_fit(m),
            total(m) <= usize::MAX,
            pieces_view(pieces@) == entries(m),
            from <= pieces@.len(),
            old(self).chunks() == Map::<u64, Seq<u8>>::empty(),
            old(self).cache@.dom().finite(),
            old(self).cache_size == 0,
        ensures
            final(self).chunks() == drop_first(m, from as nat),
            final(self).wf(),
            final(self).buffer_size == old(self).buffer_size,
    {
        let ghost e = entries(m);
        let mut pieces = pieces;
        proof {
            lemma_entries_facts(m);
            lemma_drop_first(m, m.dom().len());
            lemma_no_keys(drop_first(m, m.dom().len()));
            assert(pieces_view(pieces@).len() == pieces@.len());
            assert(e.take(pieces@.len() as int) =~= e);
        }
        while pieces.len() > from
            invariant
                m.dom().finite(),
                ends_fit(m),
                total(m) <= usize::MAX,
                e == entries(m),
                e.len() == m.dom().len(),
                from <= pieces@.len() <= m.dom().len(),
                pieces_view(pieces@) == e.take(pieces@.len() as int),
                self.cache@.dom().finite(),
                self.chunks() == drop_first(m, pieces@.len() as nat),
                self.cache_size == total(self.chunks()),
                self.buffer_size == old(self).buffer_size,
            decreases pieces@.len(),
        {
            let ghost i = (pieces@.len() - 1) as nat;
            let ghost before = pieces@;
            match pieces.pop() {
                Some(kv) => {
                    let (k, v) = kv;
                    proof {
                        assert(pieces_view(pieces@) =~= e.take(i as int));
                        assert(before[i as int] == kv);
                        assert(pieces_view(before)[i as int] == e.take((i + 1) as int)[i as int]);
                        assert((k, v@) == e[i as int]);
                        lemma_entry_at(m, i);
                        lemma_drop_first(m, i);
                        let d = drop_first(m, i);
                        lemma_first_key(d);
                        assert(k == first_key(d));
                        lemma_total_remove(d, k);
                        lemma_total_drop(m, i);
                    }
                    let len = v.len();
                    self.cache.insert(k, v);
                    self.cache_size = self.cache_size + len;
                    proof {
                        let d = drop_first(m, i);
                        assert(d.contains_key(k));
                        assert(self.chunks() =~= d.remove(k).insert(k, v@));
                        assert(self.chunks() =~= d);
                    }
                },
                None => {},
            }
        }
        proof {
            lemma_drop_first(m, from as nat);
            assert forall|k: u64| #[trigger] self.chunks().contains_key(k) implies k + self.chunks()[k].len() <= u64::MAX by {
                assert(m.contains_key(k));
            }
        }
    }

    /// The runs a flush hands to the callback, in order: the cached pieces by
    /// increasing start offset, each piece that begins where the previous one
    /// ends merged into it, and a last run without bytes left out. The cache
    /// is left as it was.
    pub fn flush_plan(&mut self) -> (plan: Vec<Chunk>)
        requires
            old(self).wf(),
        ensures
            final(self).wf(),
            final(self).chunks() == old(self).chunks(),
            final(self).spec_buffer_size() == old(self).spec_buffer_size(),
            chunks_view(plan@) == run_pairs(send_plan(entries(old(self).chunks()))),
    {
        let ghost m = self.chunks();
        proof {
            assert(m.dom() =~= self.cache@.dom());
            lemma_entries_facts(m);
        }
        let pieces = self.drain_sorted();
        proof {
            assert forall|i: int| 0 <= i < pieces@.len() implies #[trigger] pieces@[i].0
                + pieces@[i].1@.len() <= u64::MAX by {
                assert(pieces_view(pieces@)[i] == entries(m)[i]);
                assert(m.contains_key(entries(m)[i].0));
            }
        }
        let (mut runs, _ends) = merge_pieces(&pieces);
        self.restore_from(pieces, 0, Ghost(m));
        let ghost r = merge(entries(m));
        let n = runs.len();
        if n > 0 && runs[n - 1].data.len() == 0 {
            let ghost before = runs@;
            proof {
                assert(chunks_view(runs@)[n - 1] == run_pairs(r)[n - 1]);
                assert(chunks_view(before).len() == before.len());
            }
            runs.pop();
            proof {
                assert forall|j: int| 0 <= j < runs@.len() implies chunks_view(runs@)[j] == run_pairs(r.drop_last())[j] by {
                    assert(chunks_view(runs@)[j] == chunks_view(before)[j]);
                }
                assert(chunks_view(runs@) =~= run_pairs(r.drop_last()));
            }
        } else {
            proof {
                if n > 0 {
                    assert(chunks_view(runs@)[n - 1] == run_pairs(r)[n - 1]);
                }
            }
        }
        runs
    }

    /// Reports that every planned run was handed over: the cache is emptied.
    pub fn flush_done(&mut self)
        requires
            old(self).wf(),
        ensures
            final(self).wf(),
            final(self).chunks() == Map::<u64, Seq<u8>>::empty(),
            final(self).spec_buffer_size() == old(self).spec_buffer_size(),
    {
        self.cache.clear();
        self.cache_size = 0;
        proof {
            assert(self.chunks() =~= Map::<u64, Seq<u8>>::empty());
            lemma_no_keys(self.chunks());
        }
    }

    /// Reports that the runs before planned run `k` were handed over and the
    /// callback refused run `k` for `reason`: those runs leave the cache, run
    /// `k` comes back as one piece, and the pieces after it stay as they were.
    /// Returns the failure's message, `Python push error: ` and the reason.
    pub fn flush_failed(&mut self, k: usize, reason: &str) -> (msg: String)
        requires
            old(self).wf(),
            k < send_plan(entries(old(self).chunks())).len(),
        ensures
            msg@ == topic_message("Python push error"@, reason@),
            final(self).wf(),
            final(self).chunks() == after_failed_send(old(self).chunks(), k as int),
            final(self).spec_buffer_size() == old(self).spec_buffer_size(),
    {
        let ghost m = self.chunks();
        proof {
            assert(m.dom() =~= self.cache@.dom());
            lemma_entries_facts(m);
            lemma_send_plan(entries(m));
            lemma_after_failed_send(m, k as int);
        }
        let pieces = self.drain_sorted();
        proof {
            assert forall|i: int| 0 <= i < pieces@.len() implies #[trigger] pieces@[i].0
                + pieces@[i].1@.len() <= u64::MAX by {
                assert(pieces_view(pieces@)[i] == entries(m)[i]);
                assert(m.contains_key(entries(m)[i].0));
            }
        }
        let (mut runs, ends) = merge_pieces(&pieces);
        let ghost r = merge(entries(m))[k as int];
        proof {
            assert(chunks_view(runs@).len() == runs@.len());
            assert(run_pairs(merge(entries(m))).len() == merge(entries(m)).len());
        }
        let end = ends[k];
        proof {
            assert(chunks_view(runs@)[k as int] == run_pairs(merge(entries(m)))[k as int]);
        }
        let run = runs.swap_remove(k);
        self.restore_from(pieces, end, Ghost(m));
        let len = run.data.len();
        self.cache.insert(run.start, run.data);
        self.cache_size = self.cache_size + len;
        proof {
            let d = drop_first(m, r.end);
            assert(self.chunks() =~= d.insert(r.start, r.data));
        }
        join_topic("Python push error", reason)
    }

    /// Stores `content` at offset `start`, unless a piece at least as long is
    /// already cached there. Returns whether the cache has now reached the
    /// buffer size and must be flushed.
    pub fn push(&mut self, start: u64, content: Vec<u8>) -> (needs_flush: bool)
        requires
            old(self).wf(),
            start + content@.len() <= u64::MAX,
            old(self).spec_cache_size() + content@.len() <= usize::MAX,
        ensures
            final(self).wf(),
            final(self).spec_buffer_size() == old(self).spec_buffer_size(),
            if old(self).chunks().contains_key(start) && content@.len() <= old(self).chunks()[start].len() {
                &&& final(self).chunks() == old(self).chunks()
                &&& !needs_flush
            } else {
                &&& final(self).chunks() == old(self).chunks().insert(start, content@)
                &&& needs_flush == (total(final(self).chunks()) >= old(self).spec_buffer_size())
            },
    {
        let ghost m = self.chunks();
        let new_len = content.len();
        let old_len: Option<usize> = match self.cache.get(&start) {
            Some(v) => Some(v.len()),
            None => None,
        };
        proof {
            assert(m.dom() =~= self.cache@.dom());
            lemma_total_insert(m, start, content@);
        }
        match old_len {
            Some(n) => {
                proof {
                    lemma_total_remove(m, start);
                }
                if new_len <= n {
                    return false;
                }
                self.cache_size = self.cache_size - n;
            },
            None => {},
        }
        self.cache.insert(start, content);
        self.cache_size = self.cache_size + new_len;
        proof {
            assert(self.chunks() =~= m.insert(start, content@));
        }
        self.cache_size >= self.buffer_size
    }

    /// Takes the piece cached at `start` out of the cache, or an empty vector
    /// when there is none.
    pub fn remove_chunk(&mut self, start: u64) -> (piece: Vec<u8>)
        requires
            old(self).wf(),
        ensures
            final(self).wf(),
            final(self).chunks() == old(self).chunks().remove(start),
            final(self).spec_buffer_size() == old(self).spec_buffer_size(),
            piece@ == if old(self).chunks().contains_key(start) {
                old(self).chunks()[start]
            } else {
                Seq::<u8>::empty()
            },
    {
        let ghost m = self.chunks();
        proof {
            assert(m.dom() =~= self.cache@.dom());
        }
        match self.cache.remove(&start) {
            Some(v) => {
                proof {
                    lemma_total_remove(m, start);
                    assert(self.chunks() =~= m.remove(start));
                    assert forall|k: u64| #[trigger] self.chunks().contains_key(k) implies k + self.chunks()[k].len() <= u64::MAX by {
                        assert(m.contains_key(k));
                    }
                }
                self.cache_size = self.cache_size - v.len();
                v
            },
            None => {
                proof {
                    assert(self.chunks() =~= m.remove(start));
                    assert(self.chunks() =~= m);
                }
                Vec::new()
            },
        }
    }
}

/// Law: a flush of a valid pusher loses nothing and hands nothing over twice.
/// The planned runs hold the cached bytes in order; and when the callback
/// refuses run `k`, the bytes of the runs handed over before it, followed by
/// the bytes left in the cache, are the cached bytes in order, with run `k`
/// back as one piece in front of the untouched pieces after it.
pub proof fn law_flush_loses_nothing(p: &PyPusher, k: int)
    requires
        p.wf(),
    ensures
        concat_bytes(run_pairs(send_plan(entries(p.chunks())))) == concat_bytes(entries(p.chunks())),
        0 <= k < send_plan(entries(p.chunks())).len() ==> {
            let e = entries(p.chunks());
            let r = merge(e)[k];
            &&& concat_bytes(run_pairs(send_plan(e)).take(k)) + concat_bytes(
                entries(after_failed_send(p.chunks(), k)),
            ) == concat_bytes(e)
            &&& entries(after_failed_send(p.chunks(), k)) == seq![(r.start, r.data)] + e.skip(
                r.end as int,
            )
        },
{
    p.lemma_wf();
    law_plan_keeps_every_byte(p.chunks());
    if 0 <= k < send_plan(entries(p.chunks())).len() {
        law_failed_send_loses_nothing(p.chunks(), k);
        law_failed_send_keeps_the_rest(p.chunks(), k);
    }
}

} // verus!
