//! Mark-and-sweep collection over the node and vector pools.
//!
//! Marking walks the reachable structure from the declared roots with
//! an explicit worklist, setting the transient mark bit in place; the
//! sweep then returns every unmarked, unpinned node to the free list,
//! drops vector runs whose owners died, closes ports whose atoms died,
//! and clears the transient bits for the next cycle.

use vstd::prelude::*;

use crate::cell::Cell;
use crate::pool::covers;
use crate::pool::runs_disjoint;
use crate::pool::Node;
use crate::pool::Pool;
use crate::pool::VecRun;
use crate::ports::PortTable;
use crate::tag::Tag;
use crate::tag::ATOM_FLAG;
use crate::tag::CONST_FLAG;
use crate::tag::GC_BITS;
use crate::tag::LOCK_FLAG;
use crate::tag::MARK_FLAG;
use crate::tag::PORT_FLAG;
use crate::tag::TRAV_FLAG;
use crate::tag::USED_FLAG;

verus! {

/// The two pools differ at most in mark bits: structure, payloads, the
/// free list and the vector pool are identical.
pub open spec fn same_but_marks(pre: Pool, post: Pool) -> bool {
    &&& post.nodes@.len() == pre.nodes@.len()
    &&& forall|i: int|
        0 <= i < pre.nodes@.len() ==> ((#[trigger] post.nodes@[i]).car == pre.nodes@[i].car
            && post.nodes@[i].cdr == pre.nodes@[i].cdr && (post.nodes@[i].tag.0
            == pre.nodes@[i].tag.0 || post.nodes@[i].tag.0 == pre.nodes@[i].tag.0 | MARK_FLAG))
    &&& post.free_list@ == pre.free_list@
    &&& post.vectors@ == pre.vectors@
    &&& post.vec_used@ == pre.vec_used@
    &&& post.runs@ == pre.runs@
}

/// Setting the mark bit changes no other flag.
pub proof fn lemma_mark_bits(t: u8)
    ensures
        (t | MARK_FLAG) & USED_FLAG == t & USED_FLAG,
        (t | MARK_FLAG) & LOCK_FLAG == t & LOCK_FLAG,
        (t | MARK_FLAG) & ATOM_FLAG == t & ATOM_FLAG,
        (t | MARK_FLAG) & PORT_FLAG == t & PORT_FLAG,
        (t | MARK_FLAG) & TRAV_FLAG == t & TRAV_FLAG,
        (t | MARK_FLAG) & MARK_FLAG != 0,
        t & MARK_FLAG == 0 && t & TRAV_FLAG == 0 ==> (t | MARK_FLAG) & GC_BITS == MARK_FLAG && (t
            | MARK_FLAG) & !GC_BITS == t,
        t & MARK_FLAG == 0 && t & TRAV_FLAG == 0 ==> t & !GC_BITS == t,
{
    assert((t | 0x02u8) & 0x20u8 == t & 0x20u8 && (t | 0x02u8) & 0x40u8 == t & 0x40u8 && (t
        | 0x02u8) & 0x01u8 == t & 0x01u8 && (t | 0x02u8) & 0x10u8 == t & 0x10u8 && (t | 0x02u8)
        & 0x04u8 == t & 0x04u8 && (t | 0x02u8) & 0x02u8 != 0 && (t & 0x02u8 == 0 && t & 0x04u8 == 0
        ==> (t | 0x02u8) & 0x06u8 == 0x02u8 && (t | 0x02u8) & !0x06u8 == t && t & !0x06u8
        == t)) by (bit_vector);
    assert(MARK_FLAG == 0x02u8 && TRAV_FLAG == 0x04u8 && USED_FLAG == 0x20u8 && LOCK_FLAG == 0x40u8
        && ATOM_FLAG == 0x01u8 && PORT_FLAG == 0x10u8 && GC_BITS == 0x06u8);
}

/// Clearing the transient bits changes no other flag.
pub proof fn lemma_clear_bits(t: u8)
    ensures
        (t & !GC_BITS) & USED_FLAG == t & USED_FLAG,
        (t & !GC_BITS) & LOCK_FLAG == t & LOCK_FLAG,
        (t & !GC_BITS) & ATOM_FLAG == t & ATOM_FLAG,
        (t & !GC_BITS) & CONST_FLAG == t & CONST_FLAG,
        (t & !GC_BITS) & MARK_FLAG == 0,
        (t & !GC_BITS) & TRAV_FLAG == 0,
{
    assert((t & !0x06u8) & 0x20u8 == t & 0x20u8 && (t & !0x06u8) & 0x40u8 == t & 0x40u8 && (t
        & !0x06u8) & 0x01u8 == t & 0x01u8 && (t & !0x06u8) & 0x80u8 == t & 0x80u8 && (t & !0x06u8)
        & 0x02u8 == 0 && (t & !0x06u8) & 0x04u8 == 0) by (bit_vector);
    assert(MARK_FLAG == 0x02u8 && TRAV_FLAG == 0x04u8 && USED_FLAG == 0x20u8 && LOCK_FLAG == 0x40u8
        && ATOM_FLAG == 0x01u8 && GC_BITS == 0x06u8 && CONST_FLAG == 0x80u8);
}

impl Pool {
    /// The set of currently marked node identifiers.
    pub open spec fn marked_set(self) -> Set<int> {
        Set::new(|i: int| 0 <= i < self.n() && self.marked(i))
    }

    /// The marked set is finite and no larger than the pool.
    pub proof fn lemma_marked_card(self)
        ensures
            self.marked_set().finite(),
            self.marked_set().len() <= self.nodes@.len(),
    {
        let rng = vstd::set_lib::set_int_range(0, self.nodes@.len() as int);
        vstd::set_lib::lemma_int_range(0, self.nodes@.len() as int);
        assert(self.marked_set().subset_of(rng));
        vstd::set_lib::lemma_len_subset(self.marked_set(), rng);
    }

    /// Mark bits do not change which edges exist.
    pub proof fn lemma_same_marks_edge(pre: Pool, post: Pool, j: int, k: int)
        requires
            same_but_marks(pre, post),
        ensures
            pre.edge(j, k) == post.edge(j, k),
    {
        if 0 <= j < pre.nodes@.len() {
            lemma_mark_bits(pre.nodes@[j].tag.0);
            assert(post.used(j) == pre.used(j));
            assert(post.is_atom(j) == pre.is_atom(j));
            if pre.edge(j, k) && pre.is_vector_atom(j) && !(!pre.is_atom(j) && (pre.nodes@[j].car.0
                as int == k || pre.nodes@[j].cdr.0 as int == k)) && !(pre.payload_is_node(j)
                && pre.nodes@[j].cdr.0 as int == k) {
                let r = choose|r: int|
                    0 <= r < pre.runs@.len() && (#[trigger] pre.runs@[r]).owner as int == j
                        && !pre.runs@[r].pinned && exists|s: int|
                        covers(pre.runs@[r], s) && pre.vectors@[s].0 as int == k;
                assert(0 <= r < post.runs@.len() && (#[trigger] post.runs@[r]).owner as int == j
                    && !post.runs@[r].pinned && exists|s: int|
                    covers(post.runs@[r], s) && post.vectors@[s].0 as int == k);
            }
            if post.edge(j, k) && post.is_vector_atom(j) && !(!post.is_atom(j) && (
            post.nodes@[j].car.0 as int == k || post.nodes@[j].cdr.0 as int == k)) && !(
            post.payload_is_node(j) && post.nodes@[j].cdr.0 as int == k) {
                let r = choose|r: int|
                    0 <= r < post.runs@.len() && (#[trigger] post.runs@[r]).owner as int == j
                        && !post.runs@[r].pinned && exists|s: int|
                        covers(post.runs@[r], s) && post.vectors@[s].0 as int == k;
                assert(0 <= r < pre.runs@.len() && (#[trigger] pre.runs@[r]).owner as int == j
                    && !pre.runs@[r].pinned && exists|s: int|
                    covers(pre.runs@[r], s) && pre.vectors@[s].0 as int == k);
            }
        }
    }

    /// One reachability step: an edge out of a reachable node reaches.
    pub proof fn lemma_reach_step(self, rs: Set<int>, j: int, k: int)
        requires
            self.reachable(rs, j),
            self.edge(j, k),
        ensures
            self.reachable(rs, k),
    {
        let n = choose|n: nat| self.reach_n(rs, j, n);
        assert(self.reach_n(rs, j, n) && self.edge(j, k));
        assert(self.reach_n(rs, k, n + 1));
    }

    /// Every node reachable in `n` steps is marked, given that the
    /// roots are marked and the marked set is closed under edges.
    pub proof fn lemma_marked_complete(pre: Pool, cur: Pool, rs: Set<int>, k: int, n: nat)
        requires
            same_but_marks(pre, cur),
            forall|i: int| rs.contains(i) ==> 0 <= i < pre.nodes@.len() && cur.marked(i),
            forall|j: int, k2: int|
                cur.marked(j) && #[trigger] pre.edge(j, k2) ==> cur.marked(k2),
            pre.reach_n(rs, k, n),
        ensures
            cur.marked(k),
        decreases n,
    {
        if rs.contains(k) {
        } else {
            let j = choose|j: int| pre.reach_n(rs, j, (n - 1) as nat) && pre.edge(j, k);
            Pool::lemma_marked_complete(pre, cur, rs, j, (n - 1) as nat);
        }
    }

    /// Invariant of the marking phase, with one node (the one whose
    /// successors are being traced right now) exempt from the closure
    /// requirement. `exempt` is `-1` when no node is being traced.
    pub open spec fn mark_inv_x(pre: Pool, cur: Pool, rs: Set<int>, wl: Seq<usize>, exempt: int) -> bool {
        &&& same_but_marks(pre, cur)
        &&& forall|p: int|
            0 <= p < wl.len() ==> (#[trigger] wl[p] as int) < pre.nodes@.len() && cur.marked(
                wl[p] as int,
            )
        &&& forall|i: int|
            0 <= i < pre.nodes@.len() && #[trigger] cur.marked(i) ==> pre.reachable(rs, i)
        &&& forall|j: int, k: int|
            cur.marked(j) && #[trigger] pre.edge(j, k) ==> cur.marked(k) || wl.contains(j as usize)
                || j == exempt
    }

    /// Invariant of the marking phase.
    pub open spec fn mark_inv(pre: Pool, cur: Pool, rs: Set<int>, wl: Seq<usize>) -> bool {
        Pool::mark_inv_x(pre, cur, rs, wl, -1)
    }

    /// Mark the node a cell names, if it names one and it is unmarked,
    /// and queue it for tracing.
    fn mark_cell(&mut self, wl: &mut Vec<usize>, c: Cell) -> (fresh: bool)
        requires
            old(self).nodes@.len() <= 0x7fff_ffff,
        ensures
            final(self).nodes@.len() == old(self).nodes@.len(),
            final(self).free_list@ == old(self).free_list@,
            final(self).vectors@ == old(self).vectors@,
            final(self).vec_used@ == old(self).vec_used@,
            final(self).runs@ == old(self).runs@,
            ({
                let c0 = c.0 as int;
                if fresh {
                    &&& 0 <= c0 < old(self).nodes@.len()
                    &&& !old(self).marked(c0)
                    &&& final(self).nodes@ == old(self).nodes@.update(
                        c0,
                        Node {
                            tag: Tag(old(self).nodes@[c0].tag.0 | MARK_FLAG),
                            ..old(self).nodes@[c0]
                        },
                    )
                    &&& final(self).marked(c0)
                    &&& final(wl)@ == old(wl)@.push(c.0 as usize)
                    &&& final(self).marked_set() == old(self).marked_set().insert(c0)
                    &&& !old(self).marked_set().contains(c0)
                } else {
                    &&& *final(self) == *old(self)
                    &&& final(wl)@ == old(wl)@
                    &&& (0 <= c0 < old(self).nodes@.len() ==> old(self).marked(c0))
                }
            }),
    {
        if c.0 < 0 {
            return false;
        }
        let i = c.0 as usize;
        if i >= self.nodes.len() {
            return false;
        }
        let nd = self.nodes[i];
        if nd.tag.has_flag(MARK_FLAG) {
            return false;
        }
        let nd2 = Node { tag: Tag(nd.tag.0 | MARK_FLAG), ..nd };
        self.nodes.set(i, nd2);
        wl.push(i);
        proof {
            lemma_mark_bits(nd.tag.0);
            assert(self.marked(i as int));
            assert forall|x: int| #[trigger]
                self.marked_set().contains(x) == old(self).marked_set().insert(i as int).contains(
                x,
            ) by {
                if x != i as int && 0 <= x < self.nodes@.len() {
                    assert(self.nodes@[x] == old(self).nodes@[x]);
                }
            }
            assert(self.marked_set() =~= old(self).marked_set().insert(i as int));
        }
        true
    }

    /// Mark every node reachable from the given roots or from a locked
    /// node, and nothing else. Only mark bits change.
    #[verifier::rlimit(60)]
    pub fn mark(&mut self, roots: &Vec<Cell>)
        requires
            old(self).wf(),
        ensures
            same_but_marks(*old(self), *final(self)),
            forall|i: int|
                0 <= i < old(self).nodes@.len() ==> (final(self).marked(i) <==> old(
                    self,
                ).reachable(old(self).root_ids(roots@), i)),
    {
        let ghost pre = *old(self);
        let ghost rs = pre.root_ids(roots@);
        let mut wl: Vec<usize> = Vec::new();
        let mut q: usize = 0;
        while q < roots.len()
            invariant
                pre == *old(self),
                pre.wf(),
                rs == pre.root_ids(roots@),
                q <= roots@.len(),
                Pool::mark_inv(pre, *self, rs, wl@),
                forall|p: int|
                    0 <= p < q && 0 <= (#[trigger] roots@[p]).0 < pre.nodes@.len() && pre.used(
                        roots@[p].0 as int,
                    ) ==> self.marked(roots@[p].0 as int),
            decreases roots@.len() - q,
        {
            let c = roots[q];
            if c.0 >= 0 && (c.0 as usize) < self.nodes.len() {
                proof {
                    lemma_mark_bits(pre.nodes@[c.0 as int].tag.0);
                    assert(self.nodes@[c.0 as int].tag.0 == pre.nodes@[c.0 as int].tag.0
                        || self.nodes@[c.0 as int].tag.0 == pre.nodes@[c.0 as int].tag.0
                        | MARK_FLAG);
                }
                let nd = self.nodes[c.0 as usize];
                if nd.tag.has_flag(USED_FLAG) {
                    let ghost cur0 = *self;
                    let ghost wl0 = wl@;
                    let fresh = self.mark_cell(&mut wl, c);
                    proof {
                        lemma_mark_bits(pre.nodes@[c.0 as int].tag.0);
                        assert(pre.used(c.0 as int));
                        assert(rs.contains(c.0 as int));
                        assert(pre.reach_n(rs, c.0 as int, 0));
                        assert(pre.reachable(rs, c.0 as int));
                        Pool::lemma_mark_preserves_inv(pre, cur0, *self, rs, wl0, wl@, c, fresh, -1);
                    }
                }
            }
            q = q + 1;
        }
        let mut li: usize = 0;
        while li < self.nodes.len()
            invariant
                pre == *old(self),
                pre.wf(),
                rs == pre.root_ids(roots@),
                li <= pre.nodes@.len(),
                Pool::mark_inv(pre, *self, rs, wl@),
                forall|p: int|
                    0 <= (#[trigger] roots@[p]).0 < pre.nodes@.len() && 0 <= p < roots@.len()
                        && pre.used(roots@[p].0 as int) ==> self.marked(roots@[p].0 as int),
                forall|i2: int|
                    0 <= i2 < li && pre.used(i2) && pre.locked(i2) ==> self.marked(i2),
            decreases pre.nodes@.len() - li,
        {
            proof {
                lemma_mark_bits(pre.nodes@[li as int].tag.0);
                assert(self.nodes@[li as int].tag.0 == pre.nodes@[li as int].tag.0
                    || self.nodes@[li as int].tag.0 == pre.nodes@[li as int].tag.0 | MARK_FLAG);
            }
            let nd = self.nodes[li];
            if nd.tag.has_flag(USED_FLAG) && nd.tag.has_flag(LOCK_FLAG) {
                let ghost cur0 = *self;
                let ghost wl0 = wl@;
                let fresh = self.mark_cell(&mut wl, Cell(li as i32));
                proof {
                    lemma_mark_bits(pre.nodes@[li as int].tag.0);
                    assert(pre.used(li as int) && pre.locked(li as int));
                    assert(rs.contains(li as int));
                    assert(pre.reach_n(rs, li as int, 0));
                    assert(pre.reachable(rs, li as int));
                    Pool::lemma_mark_preserves_inv(pre, cur0, *self, rs, wl0, wl@, Cell(li as i32), fresh, -1);
                }
            }
            li = li + 1;
        }
        proof {
            assert forall|i: int| rs.contains(i) implies self.marked(i) by {
                if !pre.locked(i) {
                    let k = choose|k: int| 0 <= k < roots@.len() && (#[trigger] roots@[k]).0 as int == i;
                    assert(0 <= (roots@[k]).0 < pre.nodes@.len());
                }
            }
            self.lemma_marked_card();
            assert(pre.nodes@.len() == self.nodes@.len());
        }
        while wl.len() > 0
            invariant
                pre == *old(self),
                pre.wf(),
                rs == pre.root_ids(roots@),
                Pool::mark_inv(pre, *self, rs, wl@),
                forall|i: int| rs.contains(i) ==> self.marked(i),
                self.marked_set().finite(),
                self.marked_set().len() <= pre.nodes@.len(),
                self.nodes@.len() == pre.nodes@.len(),
            decreases wl@.len() + pre.nodes@.len() - self.marked_set().len(),
        {
            let ghost wl_in = wl@;
            let ghost cur_in = *self;
            let j = wl[wl.len() - 1];
            wl.pop();
            let ghost wl0 = wl@;
            proof {
                assert(wl0 == wl_in.drop_last());
                assert forall|j2: int, k: int|
                    self.marked(j2) && #[trigger] pre.edge(j2, k) implies self.marked(k)
                        || wl0.contains(j2 as usize) || j2 == j as int by {
                    if !self.marked(k) && j2 != j as int {
                        assert(wl_in.contains(j2 as usize));
                        let p = choose|p: int| 0 <= p < wl_in.len() && wl_in[p] == j2 as usize;
                        assert(p < wl_in.len() - 1);
                        assert(wl0[p] == j2 as usize);
                    }
                }
            }
            proof {
                lemma_mark_bits(pre.nodes@[j as int].tag.0);
                assert(self.nodes@[j as int].tag.0 == pre.nodes@[j as int].tag.0
                    || self.nodes@[j as int].tag.0 == pre.nodes@[j as int].tag.0 | MARK_FLAG);
                assert(self.nodes@[j as int].car == pre.nodes@[j as int].car);
                assert(self.nodes@[j as int].cdr == pre.nodes@[j as int].cdr);
            }
            let nd = self.nodes[j];
            if nd.tag.has_flag(USED_FLAG) {
                proof {
                    assert(pre.used(j as int));
                }
                if !nd.tag.has_flag(ATOM_FLAG) {
                    proof {
                        assert(!pre.is_atom(j as int));
                        assert(0 <= nd.car.0 < pre.nodes@.len() ==> pre.edge(
                            j as int,
                            nd.car.0 as int,
                        ));
                        assert(0 <= nd.cdr.0 < pre.nodes@.len() ==> pre.edge(
                            j as int,
                            nd.cdr.0 as int,
                        ));
                    }
                    self.trace_cell_from(&mut wl, nd.car, j, Ghost(pre), Ghost(rs));
                    self.trace_cell_from(&mut wl, nd.cdr, j, Ghost(pre), Ghost(rs));
                } else if nd.car.0 == -13 || nd.car.0 == -10 {
                    proof {
                        assert(pre.is_atom(j as int));
                        assert(pre.payload_is_node(j as int));
                        assert(0 <= nd.cdr.0 < pre.nodes@.len() ==> pre.edge(
                            j as int,
                            nd.cdr.0 as int,
                        ));
                    }
                    self.trace_cell_from(&mut wl, nd.cdr, j, Ghost(pre), Ghost(rs));
                } else if nd.car.0 == -19 {
                    let mut r: usize = 0;
                    while r < self.runs.len()
                        invariant
                            pre == *old(self),
                            pre.wf(),
                            rs == pre.root_ids(roots@),
                            (j as int) < pre.nodes@.len(),
                            pre.used(j as int),
                            pre.is_vector_atom(j as int),
                            r <= self.runs@.len(),
                            Pool::mark_inv_x(pre, *self, rs, wl@, j as int),
                            forall|i: int| rs.contains(i) ==> self.marked(i),
                            self.marked(j as int),
                            self.marked_set().finite(),
                            self.marked_set().len() <= pre.nodes@.len(),
                            self.nodes@.len() == pre.nodes@.len(),
                            wl@.len() + pre.nodes@.len() - self.marked_set().len() <= wl_in.len()
                                - 1 + pre.nodes@.len() - cur_in.marked_set().len(),
                            forall|r2: int|
                                0 <= r2 < r && (#[trigger] self.runs@[r2]).owner as int == j as int
                                    && !self.runs@[r2].pinned ==> (forall|sl: int|
                                    covers(self.runs@[r2], sl) && 0 <= (
                                    #[trigger] self.vectors@[sl]).0 < pre.nodes@.len()
                                        ==> self.marked(self.vectors@[sl].0 as int)),
                        decreases self.runs@.len() - r,
                    {
                        let run = self.runs[r];
                        if run.owner == j && !run.pinned {
                            proof {
                                assert(self.runs@ == pre.runs@);
                                assert(pre.run_ok(r as int));
                                assert(pre.used(j as int));
                                assert(pre.is_vector_atom(j as int));
                            }
                            let mut sl: usize = run.start;
                            while sl < run.start + run.len
                                invariant
                                    pre == *old(self),
                                    pre.wf(),
                                    rs == pre.root_ids(roots@),
                                    (j as int) < pre.nodes@.len(),
                                    pre.used(j as int),
                                    pre.is_vector_atom(j as int),
                                    r < self.runs@.len(),
                                    run == self.runs@[r as int],
                                    run.owner == j,
                                    !run.pinned,
                                    run.start + run.len <= self.vectors@.len(),
                                    run.start <= sl <= run.start + run.len,
                                    Pool::mark_inv_x(pre, *self, rs, wl@, j as int),
                                    forall|i: int| rs.contains(i) ==> self.marked(i),
                                    self.marked(j as int),
                                    self.marked_set().finite(),
                                    self.marked_set().len() <= pre.nodes@.len(),
                                    self.nodes@.len() == pre.nodes@.len(),
                                    wl@.len() + pre.nodes@.len() - self.marked_set().len()
                                        <= wl_in.len() - 1 + pre.nodes@.len()
                                        - cur_in.marked_set().len(),
                                    forall|r2: int|
                                        0 <= r2 < r && (#[trigger] self.runs@[r2]).owner as int
                                            == j as int && !self.runs@[r2].pinned ==> (forall|
                                            sl2: int,
                                        |
                                            covers(self.runs@[r2], sl2) && 0 <= (
                                            #[trigger] self.vectors@[sl2]).0 < pre.nodes@.len()
                                                ==> self.marked(self.vectors@[sl2].0 as int)),
                                    forall|sl2: int|
                                        run.start <= sl2 < sl && 0 <= (
                                        #[trigger] self.vectors@[sl2]).0 < pre.nodes@.len()
                                            ==> self.marked(self.vectors@[sl2].0 as int),
                                decreases run.start + run.len - sl,
                            {
                                let v = self.vectors[sl];
                                proof {
                                    assert(self.vectors@ == pre.vectors@);
                                    assert(covers(pre.runs@[r as int], sl as int));
                                }
                                self.trace_slot_from(&mut wl, v, j, r, sl, Ghost(pre), Ghost(rs));
                                sl = sl + 1;
                            }
                        }
                        r = r + 1;
                    }
                }
            }
            proof {
                // the traced node's successors are all marked now, so
                // the closure invariant holds without the exemption
                self.lemma_marked_card();
                assert forall|j2: int, k: int|
                    self.marked(j2) && #[trigger] pre.edge(j2, k) implies self.marked(k)
                        || wl@.contains(j2 as usize) by {
                    if j2 == j as int && !self.marked(k) {
                        Pool::lemma_same_marks_edge(pre, cur_in, j2, k);
                        assert(cur_in.used(j2) == pre.used(j2));
                        lemma_mark_bits(pre.nodes@[j2].tag.0);
                        if pre.is_vector_atom(j2) && !(!pre.is_atom(j2) && (pre.nodes@[j2].car.0
                            as int == k || pre.nodes@[j2].cdr.0 as int == k)) && !(
                        pre.payload_is_node(j2) && pre.nodes@[j2].cdr.0 as int == k) {
                            let r2 = choose|r2: int|
                                0 <= r2 < pre.runs@.len() && (#[trigger] pre.runs@[r2]).owner
                                    as int == j2 && !pre.runs@[r2].pinned && exists|s2: int|
                                    covers(pre.runs@[r2], s2) && pre.vectors@[s2].0 as int == k;
                            let s2 = choose|s2: int|
                                covers(#[trigger] pre.runs@[r2], s2) && pre.vectors@[s2].0 as int
                                    == k;
                            assert(self.runs@[r2] == pre.runs@[r2]);
                            assert(self.vectors@[s2] == pre.vectors@[s2]);
                            assert(self.marked(self.vectors@[s2].0 as int));
                        }
                    }
                }
            }
        }
        proof {
            assert forall|i: int| 0 <= i < pre.nodes@.len() implies (self.marked(i) <==> pre
                .reachable(rs, i)) by {
                if self.marked(i) {
                } else {
                    if pre.reachable(rs, i) {
                        let n = choose|n: nat| pre.reach_n(rs, i, n);
                        assert forall|j2: int, k: int|
                            self.marked(j2) && #[trigger] pre.edge(j2, k) implies self.marked(
                            k,
                        ) by {
                            assert(!wl@.contains(j2 as usize));
                        }
                        Pool::lemma_marked_complete(pre, *self, rs, i, n);
                    }
                }
            }
        }
    }

    /// After `mark_cell`, the marking invariant still holds, provided
    /// the marked cell was reachable.
    pub proof fn lemma_mark_preserves_inv(
        pre: Pool,
        cur0: Pool,
        cur: Pool,
        rs: Set<int>,
        wl0: Seq<usize>,
        wl: Seq<usize>,
        c: Cell,
        fresh: bool,
        exempt: int,
    )
        requires
            pre.wf(),
            Pool::mark_inv_x(pre, cur0, rs, wl0, exempt),
            0 <= c.0 < pre.nodes@.len() ==> pre.reachable(rs, c.0 as int),
            if fresh {
                &&& 0 <= c.0 < pre.nodes@.len()
                &&& !cur0.marked(c.0 as int)
                &&& cur.nodes@ == cur0.nodes@.update(
                    c.0 as int,
                    Node {
                        tag: Tag(cur0.nodes@[c.0 as int].tag.0 | MARK_FLAG),
                        ..cur0.nodes@[c.0 as int]
                    },
                )
                &&& cur.free_list@ == cur0.free_list@
                &&& cur.vectors@ == cur0.vectors@
                &&& cur.vec_used@ == cur0.vec_used@
                &&& cur.runs@ == cur0.runs@
                &&& wl == wl0.push(c.0 as usize)
            } else {
                cur == cur0 && wl == wl0
            },
        ensures
            Pool::mark_inv_x(pre, cur, rs, wl, exempt),
            forall|i: int| 0 <= i < pre.nodes@.len() && cur0.marked(i) ==> cur.marked(i),
            forall|x: usize| wl0.contains(x) ==> wl.contains(x),
    {
        if fresh {
            let c0 = c.0 as int;
            lemma_mark_bits(cur0.nodes@[c0].tag.0);
            assert(cur0.nodes@[c0].tag.0 == pre.nodes@[c0].tag.0 || cur0.nodes@[c0].tag.0
                == pre.nodes@[c0].tag.0 | MARK_FLAG);
            lemma_mark_bits(pre.nodes@[c0].tag.0);
            assert(cur.nodes@[c0].tag.0 == pre.nodes@[c0].tag.0 | MARK_FLAG);
            assert forall|i: int| 0 <= i < pre.nodes@.len() implies ((
            #[trigger] cur.nodes@[i]).car == pre.nodes@[i].car && cur.nodes@[i].cdr
                == pre.nodes@[i].cdr && (cur.nodes@[i].tag.0 == pre.nodes@[i].tag.0
                || cur.nodes@[i].tag.0 == pre.nodes@[i].tag.0 | MARK_FLAG)) by {
                if i != c0 {
                    assert(cur.nodes@[i] == cur0.nodes@[i]);
                }
            }
            assert forall|i: int|
                0 <= i < pre.nodes@.len() && #[trigger] cur.marked(i) implies pre.reachable(
                rs,
                i,
            ) by {
                if i != c0 {
                    assert(cur.nodes@[i] == cur0.nodes@[i]);
                    assert(cur0.marked(i));
                }
            }
            assert forall|x: usize| wl0.contains(x) implies wl.contains(x) by {
                let p = choose|p: int| 0 <= p < wl0.len() && wl0[p] == x;
                assert(wl[p] == x);
            }
            assert forall|j: int, k: int|
                cur.marked(j) && #[trigger] pre.edge(j, k) implies cur.marked(k) || wl.contains(
                j as usize,
            ) || j == exempt by {
                if j == c0 {
                    assert(wl[wl.len() - 1] == c.0 as usize);
                    assert(wl.contains(j as usize));
                } else {
                    assert(cur.nodes@[j] == cur0.nodes@[j]);
                    assert(cur0.marked(j));
                    if cur0.marked(k) {
                        if k != c0 {
                            assert(cur.nodes@[k] == cur0.nodes@[k]);
                        } else {
                            assert(cur.marked(k));
                        }
                    }
                }
            }
            assert forall|i: int|
                0 <= i < pre.nodes@.len() && cur0.marked(i) implies cur.marked(i) by {
                if i != c0 {
                    assert(cur.nodes@[i] == cur0.nodes@[i]);
                }
            }
            assert forall|p: int| 0 <= p < wl.len() implies (#[trigger] wl[p] as int)
                < pre.nodes@.len() && cur.marked(wl[p] as int) by {
                if p < wl0.len() {
                    assert(wl[p] == wl0[p]);
                    assert(cur0.marked(wl0[p] as int));
                } else {
                    assert(wl[p] == c.0 as usize);
                }
            }
        }
    }

    /// Trace one successor cell of the node being processed: the pair
    /// or payload case.
    fn trace_cell_from(
        &mut self,
        wl: &mut Vec<usize>,
        c: Cell,
        j: usize,
        Ghost(pre): Ghost<Pool>,
        Ghost(rs): Ghost<Set<int>>,
    )
        requires
            pre.wf(),
            (j as int) < pre.nodes@.len(),
            Pool::mark_inv_x(pre, *old(self), rs, old(wl)@, j as int),
            old(self).marked(j as int),
            0 <= c.0 < pre.nodes@.len() ==> pre.edge(j as int, c.0 as int),
            old(self).marked_set().finite(),
            old(self).marked_set().len() <= pre.nodes@.len(),
            old(self).nodes@.len() == pre.nodes@.len(),
            forall|i: int| rs.contains(i) ==> old(self).marked(i),
            forall|i: int| rs.contains(i) ==> 0 <= i < pre.nodes@.len(),
        ensures
            Pool::mark_inv_x(pre, *final(self), rs, final(wl)@, j as int),
            final(self).marked(j as int),
            final(self).marked_set().finite(),
            final(self).marked_set().len() <= pre.nodes@.len(),
            final(self).nodes@.len() == pre.nodes@.len(),
            forall|i: int| rs.contains(i) ==> final(self).marked(i),
            forall|i: int|
                0 <= i < pre.nodes@.len() && old(self).marked(i) ==> final(self).marked(i),
            forall|x: usize| old(wl)@.contains(x) ==> final(wl)@.contains(x),
            final(wl)@.len() + pre.nodes@.len() - final(self).marked_set().len() == old(wl)@.len()
                + pre.nodes@.len() - old(self).marked_set().len(),
            0 <= c.0 < pre.nodes@.len() ==> final(self).marked(c.0 as int),
    {
        let ghost cur0 = *old(self);
        let ghost wl0 = old(wl)@;
        let fresh = self.mark_cell(wl, c);
        proof {
            if 0 <= c.0 && (c.0 as int) < pre.nodes@.len() {
                cur0.lemma_reach_step_marked(pre, rs, j as int, c.0 as int);
            }
            Pool::lemma_mark_preserves_inv(pre, cur0, *self, rs, wl0, wl@, c, fresh, j as int);
            if fresh {
                vstd::set::axiom_set_insert_len(cur0.marked_set(), c.0 as int);
            }
            self.lemma_marked_card();
        }
    }

    /// Reachability of a marked node carries over one edge.
    pub proof fn lemma_reach_step_marked(self, pre: Pool, rs: Set<int>, j: int, k: int)
        requires
            same_but_marks(pre, self),
            forall|i: int|
                0 <= i < pre.nodes@.len() && #[trigger] self.marked(i) ==> pre.reachable(rs, i),
            self.marked(j),
            pre.edge(j, k),
        ensures
            pre.reachable(rs, k),
    {
        pre.lemma_reach_step(rs, j, k);
    }

    /// Trace one slot of a vector run owned by the node being processed.
    fn trace_slot_from(
        &mut self,
        wl: &mut Vec<usize>,
        c: Cell,
        j: usize,
        r: usize,
        sl: usize,
        Ghost(pre): Ghost<Pool>,
        Ghost(rs): Ghost<Set<int>>,
    )
        requires
            pre.wf(),
            (j as int) < pre.nodes@.len(),
            Pool::mark_inv_x(pre, *old(self), rs, old(wl)@, j as int),
            old(self).marked(j as int),
            (r as int) < pre.runs@.len(),
            pre.runs@[r as int].owner == j,
            !pre.runs@[r as int].pinned,
            covers(pre.runs@[r as int], sl as int),
            pre.vectors@[sl as int] == c,
            pre.used(j as int),
            pre.is_vector_atom(j as int),
            old(self).marked_set().finite(),
            old(self).marked_set().len() <= pre.nodes@.len(),
            old(self).nodes@.len() == pre.nodes@.len(),
            forall|i: int| rs.contains(i) ==> old(self).marked(i),
            forall|i: int| rs.contains(i) ==> 0 <= i < pre.nodes@.len(),
        ensures
            Pool::mark_inv_x(pre, *final(self), rs, final(wl)@, j as int),
            final(self).marked(j as int),
            final(self).marked_set().finite(),
            final(self).marked_set().len() <= pre.nodes@.len(),
            final(self).nodes@.len() == pre.nodes@.len(),
            forall|i: int| rs.contains(i) ==> final(self).marked(i),
            forall|i: int|
                0 <= i < pre.nodes@.len() && old(self).marked(i) ==> final(self).marked(i),
            forall|x: usize| old(wl)@.contains(x) ==> final(wl)@.contains(x),
            final(wl)@.len() + pre.nodes@.len() - final(self).marked_set().len() == old(wl)@.len()
                + pre.nodes@.len() - old(self).marked_set().len(),
            0 <= c.0 < pre.nodes@.len() ==> final(self).marked(c.0 as int),
    {
        proof {
            if 0 <= c.0 && (c.0 as int) < pre.nodes@.len() {
                assert(covers(#[trigger] pre.runs@[r as int], sl as int) && pre.vectors@[sl
                    as int].0 as int == c.0 as int);
                assert(pre.edge(j as int, c.0 as int));
            }
        }
        let ghost cur0 = *old(self);
        let ghost wl0 = old(wl)@;
        let fresh = self.mark_cell(wl, c);
        proof {
            if 0 <= c.0 && (c.0 as int) < pre.nodes@.len() {
                cur0.lemma_reach_step_marked(pre, rs, j as int, c.0 as int);
            }
            Pool::lemma_mark_preserves_inv(pre, cur0, *self, rs, wl0, wl@, c, fresh, j as int);
            if fresh {
                vstd::set::axiom_set_insert_len(cur0.marked_set(), c.0 as int);
            }
            self.lemma_marked_card();
        }
    }
}

/// A run survives a sweep when it is pinned or its owner is marked.
pub open spec fn run_kept(p: Pool, run: VecRun) -> bool {
    run.pinned || ((run.owner as int) < p.nodes@.len() && p.marked(run.owner as int))
}

/// What one node looks like after the sweep: marked or free nodes keep
/// their contents with the transient bits cleared; used unmarked nodes
/// are reset to an empty free node.
pub open spec fn swept_node(p: Pool, i: int) -> Node {
    let nd = p.nodes@[i];
    if nd.tag.0 & MARK_FLAG != 0 || nd.tag.0 & USED_FLAG == 0 {
        Node { tag: Tag(nd.tag.0 & !GC_BITS), ..nd }
    } else {
        Node { car: Cell(-1i32), cdr: Cell(-1i32), tag: Tag(0) }
    }
}

impl Pool {
    /// Sweep both pools: drop runs of dead owners, reset every dead
    /// node onto the free list, close ports of dead port atoms, and
    /// clear the transient bits everywhere.
    #[verifier::rlimit(60)]
    pub fn sweep(&mut self, ports: &mut PortTable)
        requires
            old(self).wf_free(),
            old(self).wf_vec(),
            old(self).nodes@.len() <= 0x7fff_ffff,
            old(self).vectors@.len() <= 0x7fff_ffff,
            forall|i: int|
                0 <= i < old(self).nodes@.len() ==> (#[trigger] old(self).nodes@[i]).tag.0
                    & TRAV_FLAG == 0,
        ensures
            final(self).wf(),
            final(self).nodes@.len() == old(self).nodes@.len(),
            final(self).vectors@ == old(self).vectors@,
            forall|i: int|
                0 <= i < old(self).nodes@.len() ==> final(self).nodes@[i] == swept_node(
                    *old(self),
                    i,
                ),
            forall|r: int|
                0 <= r < old(self).runs@.len() ==> (final(self).runs@.contains(
                    #[trigger] old(self).runs@[r],
                ) <==> run_kept(*old(self), old(self).runs@[r])),
            forall|r2: int|
                0 <= r2 < final(self).runs@.len() ==> old(self).runs@.contains(
                    #[trigger] final(self).runs@[r2],
                ),
            final(ports).slots@.len() == old(ports).slots@.len(),
            forall|p: int|
                final(ports).spec_is_open(p) ==> old(ports).spec_is_open(p),
            final(ports).outport == old(ports).outport,
            forall|i: int|
                0 <= i < old(self).nodes@.len() && old(self).used(i) && !old(self).marked(i) && (
                #[trigger] old(self).nodes@[i]).tag.0 & PORT_FLAG != 0 && old(
                    self,
                ).nodes@[i].cdr.0 >= 0 ==> !final(ports).spec_is_open(
                    old(self).nodes@[i].cdr.0 as int,
                ),
    {
        let ghost pre = *old(self);
        // phase one: retain the runs whose owners survive
        let mut newruns: Vec<VecRun> = Vec::new();
        let mut r: usize = 0;
        while r < self.runs.len()
            invariant
                pre.wf_free(),
                pre.wf_vec(),
                pre.vectors@.len() <= 0x7fff_ffff,
                self.nodes@ == pre.nodes@,
                self.free_list@ == pre.free_list@,
                self.vectors@ == pre.vectors@,
                self.runs@ == pre.runs@,
                self.vec_used@.len() == pre.vec_used@.len(),
                r <= pre.runs@.len(),
                forall|k: int|
                    0 <= k < newruns@.len() ==> exists|q2: int|
                        0 <= q2 < r && pre.runs@[q2] == newruns@[k] && run_kept(pre, #[trigger] newruns@[k]),
                forall|q: int|
                    0 <= q < r && run_kept(pre, #[trigger] pre.runs@[q]) ==> newruns@.contains(
                        pre.runs@[q],
                    ),
                forall|k1: int, k2: int|
                    0 <= k1 < newruns@.len() && 0 <= k2 < newruns@.len() && k1 != k2
                        ==> runs_disjoint(newruns@[k1], newruns@[k2]),
                forall|sl: int|
                    0 <= sl < pre.vec_used@.len() ==> ((#[trigger] self.vec_used@[sl])
                        <==> exists|q: int|
                        0 <= q < pre.runs@.len() && covers(#[trigger] pre.runs@[q], sl) && (q
                            >= r || run_kept(pre, pre.runs@[q]))),
            decreases pre.runs@.len() - r,
        {
            let run = self.runs[r];
            let keep = if run.pinned {
                true
            } else if run.owner < self.nodes.len() {
                self.nodes[run.owner].tag.has_flag(MARK_FLAG)
            } else {
                false
            };
            if keep {
                let ghost nr0 = newruns@;
                newruns.push(run);
                proof {
                    assert(run_kept(pre, run));
                    assert forall|k: int| 0 <= k < newruns@.len() implies exists|q2: int|
                        0 <= q2 < r + 1 && pre.runs@[q2] == newruns@[k] && run_kept(
                            pre,
                            #[trigger] newruns@[k],
                        ) by {
                        if k < newruns@.len() - 1 {
                            let q2 = choose|q2: int|
                                0 <= q2 < r && pre.runs@[q2] == newruns@[k] && run_kept(
                                    pre,
                                    #[trigger] newruns@[k],
                                );
                            assert(0 <= q2 < r + 1 && pre.runs@[q2] == newruns@[k]);
                        } else {
                            assert(pre.runs@[r as int] == newruns@[k]);
                        }
                    }
                    assert forall|k1: int, k2: int|
                        0 <= k1 < newruns@.len() && 0 <= k2 < newruns@.len() && k1
                            != k2 implies runs_disjoint(newruns@[k1], newruns@[k2]) by {
                        let last = newruns@.len() - 1;
                        if k1 == last || k2 == last {
                            let kk = if k1 == last { k2 } else { k1 };
                            let q2 = choose|q2: int|
                                0 <= q2 < r && pre.runs@[q2] == newruns@[kk] && run_kept(
                                    pre,
                                    #[trigger] newruns@[kk],
                                );
                            assert(runs_disjoint(pre.runs@[q2], pre.runs@[r as int]));
                        }
                    }
                    assert forall|q: int|
                        0 <= q < r + 1 && run_kept(pre, #[trigger] pre.runs@[q]) implies newruns@
                        .contains(pre.runs@[q]) by {
                        if q < r {
                            assert(nr0.contains(pre.runs@[q]));
                            let k2 = choose|k2: int|
                                0 <= k2 < nr0.len() && nr0[k2] == pre.runs@[q];
                            assert(newruns@[k2] == pre.runs@[q]);
                        } else {
                            assert(newruns@[newruns@.len() - 1] == pre.runs@[q]);
                        }
                    }
                }
            } else {
                // clear the bitmap under the dropped run
                proof {
                    assert(pre.run_ok(r as int));
                }
                let mut sl: usize = run.start;
                while sl < run.start + run.len
                    invariant
                        pre.wf_vec(),
                        self.nodes@ == pre.nodes@,
                        self.free_list@ == pre.free_list@,
                        self.vectors@ == pre.vectors@,
                        self.runs@ == pre.runs@,
                        self.vec_used@.len() == pre.vec_used@.len(),
                        r < pre.runs@.len(),
                        run == pre.runs@[r as int],
                        !run_kept(pre, run),
                        pre.vectors@.len() <= 0x7fff_ffff,
                        run.start + run.len <= pre.vectors@.len(),
                        run.start <= sl <= run.start + run.len,
                        forall|s2: int|
                            0 <= s2 < pre.vec_used@.len() ==> ((#[trigger] self.vec_used@[s2])
                                <==> exists|q: int|
                                0 <= q < pre.runs@.len() && covers(#[trigger] pre.runs@[q], s2)
                                    && (q > r || run_kept(pre, pre.runs@[q]) || (q == r && sl
                                    <= s2))),
                    decreases run.start + run.len - sl,
                {
                    self.vec_used.set(sl, false);
                    proof {
                        let sli = sl as int;
                        assert forall|s2: int| 0 <= s2 < pre.vec_used@.len() implies ((
                        #[trigger] self.vec_used@[s2]) <==> exists|q: int|
                            0 <= q < pre.runs@.len() && covers(#[trigger] pre.runs@[q], s2) && (q
                                > r || run_kept(pre, pre.runs@[q]) || (q == r && sli + 1
                                <= s2))) by {
                            if s2 == sli {
                                assert(!self.vec_used@[s2]);
                                if exists|q: int|
                                    0 <= q < pre.runs@.len() && covers(#[trigger] pre.runs@[q], s2)
                                        && (q > r || run_kept(pre, pre.runs@[q]) || (q == r && sli
                                        + 1 <= s2)) {
                                    let q = choose|q: int|
                                        0 <= q < pre.runs@.len() && covers(
                                            #[trigger] pre.runs@[q],
                                            s2,
                                        ) && (q > r || run_kept(pre, pre.runs@[q]) || (q == r && sli
                                            + 1 <= s2));
                                    assert(q != r);
                                    assert(covers(pre.runs@[r as int], s2));
                                    assert(runs_disjoint(pre.runs@[q], pre.runs@[r as int]));
                                }
                            } else {
                                if self.vec_used@[s2] {
                                    let q = choose|q: int|
                                        0 <= q < pre.runs@.len() && covers(
                                            #[trigger] pre.runs@[q],
                                            s2,
                                        ) && (q > r || run_kept(pre, pre.runs@[q]) || (q == r && sli
                                            <= s2));
                                    assert(covers(pre.runs@[q], s2) && (q > r || run_kept(
                                        pre,
                                        pre.runs@[q],
                                    ) || (q == r && sli + 1 <= s2)));
                                }
                            }
                        }
                    }
                    sl = sl + 1;
                }
            }
            r = r + 1;
        }
        self.runs = newruns;
        proof {
            // the retained table satisfies the vector-pool invariant
            assert forall|rr: int| 0 <= rr < self.runs@.len() implies self.run_ok(rr) by {
                let q2 = choose|q2: int|
                    0 <= q2 < pre.runs@.len() && pre.runs@[q2] == self.runs@[rr] && run_kept(
                        pre,
                        #[trigger] self.runs@[rr],
                    );
                assert(pre.run_ok(q2));
            }
            assert forall|s2: int| 0 <= s2 < self.vectors@.len() implies ((
            #[trigger] self.vec_used@[s2]) <==> exists|k: int|
                0 <= k < self.runs@.len() && covers(#[trigger] self.runs@[k], s2)) by {
                if self.vec_used@[s2] {
                    let q = choose|q: int|
                        0 <= q < pre.runs@.len() && covers(#[trigger] pre.runs@[q], s2) && (q
                            >= pre.runs@.len() || run_kept(pre, pre.runs@[q]));
                    assert(self.runs@.contains(pre.runs@[q]));
                    let k = choose|k: int| 0 <= k < self.runs@.len() && self.runs@[k] == pre.runs@[q];
                    assert(covers(self.runs@[k], s2));
                } else {
                    if exists|k: int| 0 <= k < self.runs@.len() && covers(
                        #[trigger] self.runs@[k],
                        s2,
                    ) {
                        let k = choose|k: int|
                            0 <= k < self.runs@.len() && covers(#[trigger] self.runs@[k], s2);
                        let q2 = choose|q2: int|
                            0 <= q2 < pre.runs@.len() && pre.runs@[q2] == self.runs@[k] && run_kept(
                                pre,
                                #[trigger] self.runs@[k],
                            );
                        assert(covers(pre.runs@[q2], s2) && (q2 >= pre.runs@.len() || run_kept(
                            pre,
                            pre.runs@[q2],
                        )));
                    }
                }
            }
            assert(self.wf_vec());
        }
        let ghost mid = *self;
        // phase two: reset dead nodes, close their ports, clear bits
        let mut i: usize = 0;
        while i < self.nodes.len()
            invariant
                pre.wf_free(),
                pre.wf_vec(),
                forall|i4: int|
                    0 <= i4 < pre.nodes@.len() ==> (#[trigger] pre.nodes@[i4]).tag.0 & TRAV_FLAG
                        == 0,
                mid.wf_vec(),
                mid.nodes@ == pre.nodes@,
                mid.free_list@ == pre.free_list@,
                self.runs@ == mid.runs@,
                self.vec_used@ == mid.vec_used@,
                self.vectors@ == pre.vectors@,
                self.nodes@.len() == pre.nodes@.len(),
                i <= pre.nodes@.len(),
                forall|i2: int| i <= i2 < pre.nodes@.len() ==> self.nodes@[i2] == pre.nodes@[i2],
                forall|i2: int| 0 <= i2 < i ==> self.nodes@[i2] == swept_node(pre, i2),
                self.free_list@.len() >= pre.free_list@.len(),
                forall|k: int|
                    0 <= k < pre.free_list@.len() ==> self.free_list@[k] == pre.free_list@[k],
                forall|k: int|
                    pre.free_list@.len() <= k < self.free_list@.len() ==> ((
                    #[trigger] self.free_list@[k] as int) < i && pre.used(self.free_list@[k] as int)
                        && !pre.marked(self.free_list@[k] as int)),
                forall|k1: int, k2: int|
                    pre.free_list@.len() <= k1 < k2 < self.free_list@.len()
                        ==> self.free_list@[k1] < self.free_list@[k2],
                forall|i2: int|
                    0 <= i2 < i && pre.used(i2) && !pre.marked(i2) ==> self.free_list@.contains(
                        i2 as usize,
                    ),
                ports.slots@.len() == old(ports).slots@.len(),
                ports.outport == old(ports).outport,
                forall|p: int| ports.spec_is_open(p) ==> old(ports).spec_is_open(p),
                forall|i2: int|
                    0 <= i2 < i && pre.used(i2) && !pre.marked(i2) && (
                    #[trigger] pre.nodes@[i2]).tag.0 & PORT_FLAG != 0 && pre.nodes@[i2].cdr.0 >= 0
                        ==> !ports.spec_is_open(pre.nodes@[i2].cdr.0 as int),
            decreases pre.nodes@.len() - i,
        {
            let ghost fl_before = self.free_list@;
            let nd = self.nodes[i];
            if nd.tag.has_flag(MARK_FLAG) || !nd.tag.has_flag(USED_FLAG) {
                let nd2 = Node { tag: Tag(nd.tag.0 & !GC_BITS), ..nd };
                self.nodes.set(i, nd2);
                proof {
                    lemma_clear_bits(nd.tag.0);
                    assert(self.nodes@[i as int] == swept_node(pre, i as int));
                }
            } else {
                if nd.tag.has_flag(PORT_FLAG) && nd.cdr.0 >= 0 {
                    ports.close_port(nd.cdr.0 as usize);
                }
                self.nodes.set(i, Node::reset());
                self.free_list.push(i);
                proof {
                    assert(self.nodes@[i as int] == swept_node(pre, i as int));
                    assert forall|i2: int|
                        0 <= i2 < i + 1 && pre.used(i2) && !pre.marked(i2) implies self
                        .free_list@.contains(i2 as usize) by {
                        if i2 < i as int {
                            let k = choose|k: int|
                                0 <= k < fl_before.len() && fl_before[k] == i2 as usize;
                            assert(self.free_list@[k] == i2 as usize);
                        } else {
                            assert(self.free_list@[self.free_list@.len() - 1] == i as usize);
                        }
                    }
                }
            }
            i = i + 1;
        }
        proof {
            // the swept pool satisfies the full invariant
            Pool::lemma_wf_vec_same(mid, *self);
            assert forall|k: int| 0 <= k < self.free_list@.len() implies (
            #[trigger] self.free_list@[k]) < self.nodes@.len() && !self.used(
                self.free_list@[k] as int,
            ) by {
                let e = self.free_list@[k] as int;
                if k < pre.free_list@.len() {
                    assert(pre.free_list@[k] == self.free_list@[k]);
                    assert(!pre.used(e));
                    lemma_clear_bits(pre.nodes@[e].tag.0);
                    assert(self.nodes@[e] == swept_node(pre, e));
                } else {
                    assert(pre.used(e) && !pre.marked(e));
                    assert(self.nodes@[e] == swept_node(pre, e));
                    assert(0u8 & 0x20u8 == 0) by (bit_vector);
                    assert(USED_FLAG == 0x20u8);
                }
            }
            assert forall|k1: int, k2: int|
                0 <= k1 < self.free_list@.len() && 0 <= k2 < self.free_list@.len() && k1
                    != k2 implies self.free_list@[k1] != self.free_list@[k2] by {
                let l0 = pre.free_list@.len() as int;
                if k1 < l0 && k2 < l0 {
                    assert(pre.free_list@[k1] != pre.free_list@[k2]);
                } else if k1 >= l0 && k2 >= l0 {
                } else {
                    let ka = if k1 < l0 { k1 } else { k2 };
                    let kb = if k1 < l0 { k2 } else { k1 };
                    assert(!pre.used(pre.free_list@[ka] as int));
                    assert(pre.used(self.free_list@[kb] as int));
                }
            }
            assert forall|i2: int| 0 <= i2 < self.n() && !(#[trigger] self.used(i2)) implies self
                .free_list@.contains(i2 as usize) by {
                assert(self.nodes@[i2] == swept_node(pre, i2));
                lemma_clear_bits(pre.nodes@[i2].tag.0);
                if pre.nodes@[i2].tag.0 & MARK_FLAG != 0 || pre.nodes@[i2].tag.0 & USED_FLAG == 0 {
                    // kept: it was free before, so it was listed before
                    if pre.used(i2) {
                        assert(self.used(i2));
                    }
                    assert(pre.free_list@.contains(i2 as usize));
                    let k = choose|k: int|
                        0 <= k < pre.free_list@.len() && pre.free_list@[k] == i2 as usize;
                    assert(self.free_list@[k] == i2 as usize);
                } else {
                    assert(pre.used(i2) && !pre.marked(i2));
                }
            }
            assert forall|i2: int| 0 <= i2 < self.n() implies ((#[trigger] self.nodes@[i2]).tag.0
                & MARK_FLAG == 0 && self.nodes@[i2].tag.0 & TRAV_FLAG == 0) by {
                assert(self.nodes@[i2] == swept_node(pre, i2));
                lemma_clear_bits(pre.nodes@[i2].tag.0);
                assert(0u8 & 0x02u8 == 0 && 0u8 & 0x04u8 == 0) by (bit_vector);
                assert(MARK_FLAG == 0x02u8 && TRAV_FLAG == 0x04u8);
            }
            // every run of the old table is kept exactly when its owner
            // survives
            assert forall|rr: int| 0 <= rr < pre.runs@.len() implies (self.runs@.contains(
                #[trigger] pre.runs@[rr],
            ) <==> run_kept(pre, pre.runs@[rr])) by {
                if self.runs@.contains(pre.runs@[rr]) {
                    let k = choose|k: int|
                        0 <= k < self.runs@.len() && self.runs@[k] == pre.runs@[rr];
                    let q2 = choose|q2: int|
                        0 <= q2 < pre.runs@.len() && pre.runs@[q2] == self.runs@[k] && run_kept(
                            pre,
                            #[trigger] self.runs@[k],
                        );
                }
            }
        }
    }

    /// Collect garbage: mark everything reachable from the roots and
    /// from locked nodes, then reclaim the rest.
    ///
    /// Every allocated node reachable from the declared root set keeps
    /// its exact contents; every allocated node that is neither
    /// reachable nor locked is returned to the free list (exactly once:
    /// the free list never holds an entry twice); runs of the vector
    /// pool survive exactly when pinned or reachably owned; ports only
    /// close, never open.
    pub fn collect(&mut self, roots: &Vec<Cell>, ports: &mut PortTable)
        requires
            old(self).wf(),
        ensures
            final(self).wf(),
            final(self).nodes@.len() == old(self).nodes@.len(),
            final(self).vectors@ == old(self).vectors@,
            forall|i: int|
                0 <= i < old(self).nodes@.len() && old(self).used(i) && old(self).reachable(
                    old(self).root_ids(roots@),
                    i,
                ) ==> final(self).nodes@[i] == old(self).nodes@[i],
            forall|i: int|
                0 <= i < old(self).nodes@.len() && old(self).used(i) && !old(self).reachable(
                    old(self).root_ids(roots@),
                    i,
                ) ==> !final(self).used(i),
            forall|i: int| 0 <= i < old(self).nodes@.len() && !old(self).used(i) ==> !final(self).used(i),
            forall|i: int|
                0 <= i < old(self).nodes@.len() && #[trigger] final(self).used(i) ==> old(
                    self,
                ).used(i) && old(self).reachable(old(self).root_ids(roots@), i),
            forall|r: int|
                0 <= r < old(self).runs@.len() ==> (final(self).runs@.contains(
                    #[trigger] old(self).runs@[r],
                ) <==> (old(self).runs@[r].pinned || ((old(self).runs@[r].owner as int) < old(
                    self,
                ).nodes@.len() && old(self).reachable(
                    old(self).root_ids(roots@),
                    old(self).runs@[r].owner as int,
                )))),
            forall|r2: int|
                0 <= r2 < final(self).runs@.len() ==> old(self).runs@.contains(
                    #[trigger] final(self).runs@[r2],
                ),
            final(ports).slots@.len() == old(ports).slots@.len(),
            forall|p: int| final(ports).spec_is_open(p) ==> old(ports).spec_is_open(p),
            final(ports).outport == old(ports).outport,
            forall|i: int|
                0 <= i < old(self).nodes@.len() && old(self).used(i) && !old(self).reachable(
                    old(self).root_ids(roots@),
                    i,
                ) && (#[trigger] old(self).nodes@[i]).tag.0 & PORT_FLAG != 0 && old(
                    self,
                ).nodes@[i].cdr.0 >= 0 ==> !final(ports).spec_is_open(
                    old(self).nodes@[i].cdr.0 as int,
                ),
    {
        let ghost pre = *old(self);
        let ghost rs = pre.root_ids(roots@);
        self.mark(roots);
        let ghost mid = *self;
        proof {
            // marking kept the structural invariants
            Pool::lemma_wf_vec_same(pre, mid);
            assert forall|k: int| 0 <= k < mid.free_list@.len() implies (
            #[trigger] mid.free_list@[k]) < mid.nodes@.len() && !mid.used(
                mid.free_list@[k] as int,
            ) by {
                let e = pre.free_list@[k] as int;
                lemma_mark_bits(pre.nodes@[e].tag.0);
                assert(!pre.used(e));
            }
            assert forall|i: int| 0 <= i < mid.n() && !(#[trigger] mid.used(i)) implies mid
                .free_list@.contains(i as usize) by {
                lemma_mark_bits(pre.nodes@[i].tag.0);
                assert(!pre.used(i));
            }
            assert forall|i: int| 0 <= i < mid.nodes@.len() implies (
            #[trigger] mid.nodes@[i]).tag.0 & TRAV_FLAG == 0 by {
                lemma_mark_bits(pre.nodes@[i].tag.0);
            }
        }
        self.sweep(ports);
        proof {
            assert forall|i: int|
                0 <= i < pre.nodes@.len() && pre.used(i) && pre.reachable(rs, i) implies self
                .nodes@[i] == pre.nodes@[i] by {
                assert(mid.marked(i));
                lemma_mark_bits(pre.nodes@[i].tag.0);
                assert(mid.nodes@[i].tag.0 == pre.nodes@[i].tag.0 | MARK_FLAG);
                assert(self.nodes@[i] == swept_node(mid, i));
            }
            assert forall|i: int|
                0 <= i < pre.nodes@.len() && pre.used(i) && !pre.reachable(rs, i) implies !self
                .used(i) by {
                assert(!mid.marked(i));
                lemma_mark_bits(pre.nodes@[i].tag.0);
                assert(mid.used(i));
                assert(self.nodes@[i] == swept_node(mid, i));
                assert(0u8 & 0x20u8 == 0) by (bit_vector);
                assert(USED_FLAG == 0x20u8);
            }
            assert forall|i: int|
                0 <= i < pre.nodes@.len() && !pre.used(i) implies !self.used(i) by {
                lemma_mark_bits(pre.nodes@[i].tag.0);
                assert(self.nodes@[i] == swept_node(mid, i));
                lemma_clear_bits(mid.nodes@[i].tag.0);
            }
            assert forall|i: int|
                0 <= i < pre.nodes@.len() && #[trigger] self.used(i) implies pre.used(i)
                    && pre.reachable(rs, i) by {
                if !pre.used(i) {
                    assert(!self.used(i));
                }
                if pre.used(i) && !pre.reachable(rs, i) {
                    assert(!self.used(i));
                }
            }
            assert forall|r: int| 0 <= r < pre.runs@.len() implies (self.runs@.contains(
                #[trigger] pre.runs@[r],
            ) <==> (pre.runs@[r].pinned || ((pre.runs@[r].owner as int) < pre.nodes@.len()
                && pre.reachable(rs, pre.runs@[r].owner as int)))) by {
                assert(mid.runs@[r] == pre.runs@[r]);
                assert(self.runs@.contains(mid.runs@[r]) <==> run_kept(mid, mid.runs@[r]));
            }
            // a dead port atom had its slot closed during the sweep
            assert forall|i: int|
                0 <= i < pre.nodes@.len() && pre.used(i) && !pre.reachable(rs, i) && (
                #[trigger] pre.nodes@[i]).tag.0 & PORT_FLAG != 0 && pre.nodes@[i].cdr.0
                    >= 0 implies !ports.spec_is_open(pre.nodes@[i].cdr.0 as int) by {
                assert(!mid.marked(i));
                lemma_mark_bits(pre.nodes@[i].tag.0);
                assert(mid.used(i));
                assert(mid.nodes@[i].tag.0 & PORT_FLAG != 0);
                assert(mid.nodes@[i].cdr == pre.nodes@[i].cdr);
            }
        }
    }
}

} // verus!
