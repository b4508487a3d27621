//! Depth-bucketed scheduling of directory removals.
//!
//! Directories collected during the walk are grouped into buckets by depth
//! and the buckets are issued deepest first, one at a time. A bucket may be
//! drained with internal parallelism, but no bucket is begun before the
//! previous one has been fully attempted, so no removal ever runs while a
//! removal of an ancestor or descendant is still pending.

use vstd::prelude::*;

use crate::entry::DirRec;

verus! {

/// All directories at one depth, attempted as one parallel batch.
pub struct Bucket {
    pub depth: usize,
    pub dirs: Vec<DirRec>,
}

/// The directories of `s` that lie at depth `d`, in discovery order.
pub open spec fn at_depth(s: Seq<DirRec>, d: usize) -> Seq<DirRec>
    decreases s.len(),
{
    if s.len() == 0 {
        Seq::empty()
    } else if s.last().depth == d {
        at_depth(s.drop_last(), d).push(s.last())
    } else {
        at_depth(s.drop_last(), d)
    }
}

/// Appending one directory extends exactly the group of its depth.
proof fn lemma_at_depth_push(s: Seq<DirRec>, r: DirRec, d: usize)
    ensures
        at_depth(s.push(r), d) == (if r.depth == d {
            at_depth(s, d).push(r)
        } else {
            at_depth(s, d)
        }),
{
    assert(s.push(r).drop_last() =~= s);
    assert(s.push(r).last() == r);
}

/// Every member of a depth group lies at that depth and comes from `s`.
proof fn lemma_at_depth_members(s: Seq<DirRec>, d: usize)
    ensures
        forall|m: int|
            0 <= m < at_depth(s, d).len() ==> (#[trigger] at_depth(s, d)[m]).depth == d,
        forall|m: int| 0 <= m < at_depth(s, d).len() ==> s.contains(#[trigger] at_depth(s, d)[m]),
    decreases s.len(),
{
    if s.len() > 0 {
        lemma_at_depth_members(s.drop_last(), d);
        let sub = at_depth(s.drop_last(), d);
        assert forall|m: int| 0 <= m < at_depth(s, d).len() implies (#[trigger] at_depth(s, d)[m]).depth
            == d && s.contains(at_depth(s, d)[m]) by {
            if s.last().depth == d && m == at_depth(s, d).len() - 1 {
                assert(at_depth(s, d)[m] == s.last());
                assert(s[s.len() - 1] == s.last());
            } else {
                assert(at_depth(s, d)[m] == sub[m]);
                assert(s.drop_last().contains(sub[m]));
                let i = choose|i: int| 0 <= i < s.drop_last().len() && s.drop_last()[i] == sub[m];
                assert(s[i] == sub[m]);
            }
        }
    }
}

/// A directory of `s` at depth `d` is found in the group of depth `d`.
proof fn lemma_at_depth_contains(s: Seq<DirRec>, d: usize, k: int)
    requires
        0 <= k < s.len(),
        s[k].depth == d,
    ensures
        at_depth(s, d).contains(s[k]),
    decreases s.len(),
{
    if k == s.len() - 1 {
        assert(s.last() == s[k]);
        let res = at_depth(s, d);
        assert(res[res.len() - 1] == s[k]);
    } else {
        assert(s.drop_last()[k] == s[k]);
        lemma_at_depth_contains(s.drop_last(), d, k);
        let sub = at_depth(s.drop_last(), d);
        let m = choose|m: int| 0 <= m < sub.len() && sub[m] == s[k];
        assert(at_depth(s, d)[m] == s[k]);
    }
}

/// If no directory of `s` lies at depth `d`, the group of depth `d` is empty.
proof fn lemma_at_depth_absent(s: Seq<DirRec>, d: usize)
    requires
        forall|k: int| 0 <= k < s.len() ==> (#[trigger] s[k]).depth != d,
    ensures
        at_depth(s, d) =~= Seq::<DirRec>::empty(),
    decreases s.len(),
{
    if s.len() > 0 {
        assert forall|k: int| 0 <= k < s.drop_last().len() implies (#[trigger] s.drop_last()[k]).depth
            != d by {
            assert(s.drop_last()[k] == s[k]);
        }
        lemma_at_depth_absent(s.drop_last(), d);
        assert(s[s.len() - 1].depth != d);
    }
}

/// Bucket depths strictly decrease: strictly deeper batches come first.
pub open spec fn depths_strictly_decreasing(bs: Seq<Bucket>) -> bool {
    forall|i: int, j: int|
        0 <= i < j < bs.len() ==> (#[trigger] bs[i]).depth > (#[trigger] bs[j]).depth
}

/// No batch of the schedule is empty.
pub open spec fn buckets_nonempty(bs: Seq<Bucket>) -> bool {
    forall|i: int| 0 <= i < bs.len() ==> (#[trigger] bs[i]).dirs@.len() > 0
}

/// Every directory of every batch lies at the depth of its batch.
pub open spec fn bucket_depths_match(bs: Seq<Bucket>) -> bool {
    forall|i: int, m: int|
        0 <= i < bs.len() && 0 <= m < bs[i].dirs@.len() ==> (#[trigger] bs[i].dirs@[m]).depth
            == bs[i].depth
}

/// There is a batch at depth `d`.
pub open spec fn has_bucket_at(bs: Seq<Bucket>, d: usize) -> bool {
    exists|i: int| 0 <= i < bs.len() && (#[trigger] bs[i]).depth == d
}

/// `bs` buckets exactly the directories of `dirs`: every batch holds
/// precisely the input directories of its own depth, in discovery order,
/// and every input directory has a batch at its depth.
pub open spec fn buckets_exact(dirs: Seq<DirRec>, bs: Seq<Bucket>) -> bool {
    &&& forall|i: int|
        0 <= i < bs.len() ==> (#[trigger] bs[i]).dirs@ == at_depth(dirs, bs[i].depth)
    &&& forall|k: int| 0 <= k < dirs.len() ==> has_bucket_at(bs, (#[trigger] dirs[k]).depth)
}

/// The removal schedule: depth batches, deepest first, together with the
/// count of contained (non-fatal) directory-removal failures seen so far.
pub struct RemovalPlan {
    pub buckets: Vec<Bucket>,
    pub warnings: usize,
}

impl RemovalPlan {
    /// A well-formed schedule: strictly deeper batches first, no empty
    /// batch, every directory in the batch of its own depth.
    pub open spec fn wf(self) -> bool {
        &&& depths_strictly_decreasing(self.buckets@)
        &&& buckets_nonempty(self.buckets@)
        &&& bucket_depths_match(self.buckets@)
    }

    /// Build the schedule for the directories collected during the walk:
    /// group them by depth and order the groups deepest first.
    #[verifier::loop_isolation(false)]
    pub fn new(collected: Vec<DirRec>) -> (plan: RemovalPlan)
        ensures
            plan.wf(),
            plan.warnings == 0,
            buckets_exact(collected@, plan.buckets@),
    {
        let ghost input = collected@;
        let mut rest = collected;
        let mut buckets: Vec<Bucket> = Vec::new();
        let ghost mut done: Seq<DirRec> = Seq::empty();
        while rest.len() > 0
            invariant
                input == done + rest@,
                depths_strictly_decreasing(buckets@),
                buckets_nonempty(buckets@),
                buckets_exact(done, buckets@),
            decreases rest.len(),
        {
            let ghost rest0 = rest@;
            let r = rest.remove(0);
            let ghost rsnap = r;
            let d = r.depth;
            proof {
                assert(input =~= done.push(rsnap) + rest@);
            }
            let ghost bs0 = buckets@;
            let mut j: usize = 0;
            while j < buckets.len() && buckets[j].depth > d
                invariant
                    j <= buckets@.len(),
                    buckets@ == bs0,
                    forall|i: int| 0 <= i < j ==> (#[trigger] bs0[i]).depth > d,
                decreases buckets@.len() - j,
            {
                j += 1;
            }
            if j < buckets.len() && buckets[j].depth == d {
                // A batch at this depth exists: append in discovery order.
                let mut b = buckets.remove(j);
                let ghost b0 = b;
                b.dirs.push(r);
                let ghost b1 = b;
                buckets.insert(j, b);
                proof {
                    assert(buckets@ =~= bs0.update(j as int, b1));
                    assert(b1.depth == d);
                    assert(b1.dirs@ == b0.dirs@.push(rsnap));
                    let done1 = done.push(rsnap);
                    assert forall|i: int| 0 <= i < buckets@.len() implies (#[trigger] buckets@[i]).dirs@
                        == at_depth(done1, buckets@[i].depth) by {
                        lemma_at_depth_push(done, rsnap, buckets@[i].depth);
                        if i != j {
                            assert(buckets@[i] == bs0[i]);
                            if i < j {
                                assert(bs0[i].depth > d);
                            } else {
                                assert(bs0[j as int].depth > bs0[i].depth);
                            }
                            assert(buckets@[i].depth != d);
                        }
                    }
                    assert forall|k: int| 0 <= k < done1.len() implies has_bucket_at(
                        buckets@,
                        (#[trigger] done1[k]).depth,
                    ) by {
                        if k < done.len() {
                            assert(done1[k] == done[k]);
                            let i0 = choose|i0: int|
                                0 <= i0 < bs0.len() && (#[trigger] bs0[i0]).depth == done[k].depth;
                            assert(buckets@[i0].depth == done[k].depth);
                        } else {
                            assert(done1[k] == rsnap);
                            assert(buckets@[j as int].depth == d);
                        }
                    }
                    done = done1;
                }
            } else {
                // No batch at this depth yet: open one between the strictly
                // deeper and the strictly shallower batches.
                let mut batch: Vec<DirRec> = Vec::new();
                batch.push(r);
                let nb = Bucket { depth: d, dirs: batch };
                let ghost nbs = nb;
                buckets.insert(j, nb);
                proof {
                    assert(buckets@ == bs0.insert(j as int, nbs));
                    assert forall|i: int| 0 <= i < j implies buckets@[i] == bs0[i] by {}
                    assert(buckets@[j as int] == nbs);
                    assert forall|i: int| j < i < buckets@.len() implies buckets@[i] == bs0[i - 1] by {}
                    // no earlier directory lies at depth d
                    assert forall|k: int| 0 <= k < done.len() implies (#[trigger] done[k]).depth != d by {
                        if done[k].depth == d {
                            let i0 = choose|i0: int|
                                0 <= i0 < bs0.len() && (#[trigger] bs0[i0]).depth == done[k].depth;
                            if i0 < j {
                                assert(bs0[i0].depth > d);
                            } else {
                                assert(bs0[j as int].depth < d || j == bs0.len());
                                if i0 > j {
                                    assert(bs0[j as int].depth > bs0[i0].depth);
                                }
                            }
                        }
                    }
                    lemma_at_depth_absent(done, d);
                    let done1 = done.push(rsnap);
                    lemma_at_depth_push(done, rsnap, d);
                    assert(nbs.dirs@ =~= at_depth(done1, d));
                    // order: deeper before, shallower after
                    assert forall|a: int, b: int| 0 <= a < b < buckets@.len() implies (
                    #[trigger] buckets@[a]).depth > (#[trigger] buckets@[b]).depth by {
                        if a < j && b == j {
                            assert(bs0[a].depth > d);
                        } else if a == j && b > j {
                            assert(bs0[j as int].depth < d);
                            assert(b - 1 >= j);
                            if b - 1 > j {
                                assert(bs0[j as int].depth > bs0[b - 1].depth);
                            }
                        }
                    }
                    assert forall|i: int| 0 <= i < buckets@.len() implies (#[trigger] buckets@[i]).dirs@
                        == at_depth(done1, buckets@[i].depth) by {
                        lemma_at_depth_push(done, rsnap, buckets@[i].depth);
                        if i < j {
                            assert(buckets@[i] == bs0[i]);
                            assert(bs0[i].depth > d);
                        } else if i > j {
                            assert(buckets@[i] == bs0[i - 1]);
                            if i - 1 >= j {
                                if i - 1 == j {
                                    assert(bs0[j as int].depth < d);
                                } else {
                                    assert(bs0[j as int].depth > bs0[i - 1].depth);
                                    assert(bs0[j as int].depth < d);
                                }
                            }
                            assert(buckets@[i].depth != d);
                        }
                    }
                    assert forall|k: int| 0 <= k < done1.len() implies has_bucket_at(
                        buckets@,
                        (#[trigger] done1[k]).depth,
                    ) by {
                        if k < done.len() {
                            assert(done1[k] == done[k]);
                            let i0 = choose|i0: int|
                                0 <= i0 < bs0.len() && (#[trigger] bs0[i0]).depth == done[k].depth;
                            if i0 < j {
                                assert(buckets@[i0].depth == done[k].depth);
                            } else {
                                assert(buckets@[i0 + 1].depth == done[k].depth);
                            }
                        } else {
                            assert(done1[k] == rsnap);
                            assert(buckets@[j as int].depth == d);
                        }
                    }
                    done = done.push(rsnap);
                }
            }
        }
        proof {
            assert(done =~= input);
            assert forall|i: int, m: int|
                0 <= i < buckets@.len() && 0 <= m < buckets@[i].dirs@.len() implies (
            #[trigger] buckets@[i].dirs@[m]).depth == buckets@[i].depth by {
                lemma_at_depth_members(input, buckets@[i].depth);
            }
        }
        RemovalPlan { buckets, warnings: 0 }
    }

    /// Hand out the next batch to attempt: the deepest one not yet issued,
    /// or nothing once the schedule is drained. The batch is removed from
    /// the schedule; the warning count is untouched.
    pub fn next_bucket(&mut self) -> (batch: Option<Bucket>)
        ensures
            old(self).buckets@.len() == 0 ==> batch is None,
            old(self).buckets@.len() == 0 ==> final(self).buckets@ == old(self).buckets@,
            old(self).buckets@.len() > 0 ==> batch == Some(old(self).buckets@[0]),
            old(self).buckets@.len() > 0 ==> final(self).buckets@ == old(self).buckets@.drop_first(),
            final(self).warnings == old(self).warnings,
            old(self).wf() ==> final(self).wf(),
    {
        if self.buckets.len() > 0 {
            let b = self.buckets.remove(0);
            proof {
                assert(self.buckets@ =~= old(self).buckets@.drop_first());
            }
            Some(b)
        } else {
            None
        }
    }

    /// Record one contained directory-removal failure. Nothing else moves:
    /// the batches still to be issued are exactly those of before, so the
    /// remaining directories are still attempted.
    pub fn record_dir_failure(&mut self)
        ensures
            final(self).buckets@ == old(self).buckets@,
            old(self).warnings < usize::MAX ==> final(self).warnings == old(self).warnings + 1,
            old(self).warnings == usize::MAX ==> final(self).warnings == old(self).warnings,
    {
        if self.warnings < usize::MAX {
            self.warnings = self.warnings + 1;
        }
    }
}

/// LAW: the schedule is complete. Every directory handed to the planner
/// appears in a batch of the schedule, so a run that drains the schedule
/// attempts every collected directory — together with the immediate
/// removal of files and symbolic links, nothing under the target is left
/// unattempted.
pub proof fn lemma_every_dir_bucketed(dirs: Seq<DirRec>, bs: Seq<Bucket>, k: int)
    requires
        buckets_exact(dirs, bs),
        0 <= k < dirs.len(),
    ensures
        exists|i: int, m: int|
            0 <= i < bs.len() && 0 <= m < bs[i].dirs@.len() && #[trigger] bs[i].dirs@[m] == dirs[k],
{
    let i = choose|i: int| 0 <= i < bs.len() && (#[trigger] bs[i]).depth == dirs[k].depth;
    lemma_at_depth_contains(dirs, bs[i].depth, k);
    let m = choose|m: int|
        0 <= m < at_depth(dirs, bs[i].depth).len() && at_depth(dirs, bs[i].depth)[m] == dirs[k];
    assert(bs[i].dirs@[m] == dirs[k]);
}

/// LAW: the schedule is sound. A batch holds only directories that were
/// handed to the planner, each at the depth of its batch: the engine never
/// invents a removal.
pub proof fn lemma_bucket_dirs_from_input(dirs: Seq<DirRec>, bs: Seq<Bucket>, i: int, m: int)
    requires
        buckets_exact(dirs, bs),
        0 <= i < bs.len(),
        0 <= m < bs[i].dirs@.len(),
    ensures
        dirs.contains(bs[i].dirs@[m]),
        bs[i].dirs@[m].depth == bs[i].depth,
{
    lemma_at_depth_members(dirs, bs[i].depth);
}

/// LAW: strictly deeper directories are issued strictly earlier. When the
/// batch with index `j` is issued, every collected directory lying deeper
/// than that batch sits in a batch with a smaller index, hence has already
/// been attempted — no directory is ever attempted while a descendant
/// directory is still pending.
pub proof fn lemma_deeper_issued_earlier(dirs: Seq<DirRec>, bs: Seq<Bucket>, k: int, j: int)
    requires
        buckets_exact(dirs, bs),
        depths_strictly_decreasing(bs),
        0 <= k < dirs.len(),
        0 <= j < bs.len(),
        dirs[k].depth > bs[j].depth,
    ensures
        exists|i: int, m: int|
            0 <= i < j && 0 <= m < bs[i].dirs@.len() && #[trigger] bs[i].dirs@[m] == dirs[k],
{
    let i = choose|i: int| 0 <= i < bs.len() && (#[trigger] bs[i]).depth == dirs[k].depth;
    if i > j {
        assert(bs[j].depth > bs[i].depth);
    }
    assert(i < j);
    lemma_at_depth_contains(dirs, bs[i].depth, k);
    let m = choose|m: int|
        0 <= m < at_depth(dirs, bs[i].depth).len() && at_depth(dirs, bs[i].depth)[m] == dirs[k];
    assert(bs[i].dirs@[m] == dirs[k]);
}

/// LAW: the shallowest directory comes last. A collected directory that is
/// strictly shallower than every other one — the deletion root — sits in
/// the final batch of the schedule, so it is the last thing attempted.
pub proof fn lemma_shallowest_last(dirs: Seq<DirRec>, bs: Seq<Bucket>, k: int)
    requires
        buckets_exact(dirs, bs),
        depths_strictly_decreasing(bs),
        buckets_nonempty(bs),
        0 <= k < dirs.len(),
        forall|k2: int|
            0 <= k2 < dirs.len() && k2 != k ==> (#[trigger] dirs[k2]).depth > dirs[k].depth,
    ensures
        bs.len() > 0,
        bs[bs.len() - 1].depth == dirs[k].depth,
        bs[bs.len() - 1].dirs@.contains(dirs[k]),
{
    let i = choose|i: int| 0 <= i < bs.len() && (#[trigger] bs[i]).depth == dirs[k].depth;
    if i < bs.len() - 1 {
        let j = bs.len() - 1;
        assert(bs[i].depth > bs[j].depth);
        assert(bs[j].dirs@.len() > 0);
        lemma_at_depth_members(dirs, bs[j].depth);
        let e = bs[j].dirs@[0];
        assert(e.depth == bs[j].depth);
        assert(dirs.contains(e));
        let k2 = choose|k2: int| 0 <= k2 < dirs.len() && dirs[k2] == e;
        if k2 == k {
            assert(e.depth == dirs[k].depth);
        } else {
            assert(dirs[k2].depth > dirs[k].depth);
        }
        assert(false);
    }
    lemma_at_depth_contains(dirs, bs[i].depth, k);
}

} // verus!

