//! The tagged-cell heap: a fixed-capacity node pool and a fixed-capacity
//! vector pool, both served from free lists.
//!
//! Nodes are addressed by pool index, never by machine address, so the
//! whole heap is relocatable and serializable as-is. Variable-length
//! payloads (vector contents, packed string bytes) live in the vector
//! pool as contiguous runs, each owned by the atom node whose payload
//! points at it.

use vstd::prelude::*;

use crate::cell::Cell;
use crate::error::Error;
use crate::ports::PortTable;
use crate::tag::Tag;
use crate::tag::ATOM_FLAG;
use crate::tag::CONST_FLAG;
use crate::tag::LOCK_FLAG;
use crate::tag::MARK_FLAG;
use crate::tag::PORT_FLAG;
use crate::tag::TRAV_FLAG;
use crate::tag::USED_FLAG;
use crate::tag::VECTOR_FLAG;

verus! {

/// A node record: the unit of pair and atom storage.
#[derive(Debug, Clone, Copy, PartialEq, Eq, Structural)]
pub struct Node {
    pub car: Cell,
    pub cdr: Cell,
    pub tag: Tag,
}

impl Node {
    /// Build a node from its parts.
    pub fn new(car: Cell, cdr: Cell, tag: Tag) -> (r: Self)
        ensures
            r.car == car,
            r.cdr == cdr,
            r.tag == tag,
    {
        Node { car, cdr, tag }
    }

    /// An empty, reset node: both cells nil, no flags.
    pub fn reset() -> (r: Self)
        ensures
            r.car.0 == -1,
            r.cdr.0 == -1,
            r.tag.0 == 0,
    {
        Node { car: Cell(-1), cdr: Cell(-1), tag: Tag(0) }
    }
}

/// A contiguous allocated run in the vector pool.
///
/// While a run is being built, before its owning atom exists, it is
/// `pinned`: the collector keeps it even though no owner references it.
#[derive(Debug, Clone, Copy, PartialEq, Eq, Structural)]
pub struct VecRun {
    pub start: usize,
    pub len: usize,
    pub owner: usize,
    pub pinned: bool,
}

/// Whether slot `s` lies inside the run.
pub open spec fn covers(run: VecRun, s: int) -> bool {
    run.start <= s < run.start + run.len
}

/// Whether two runs occupy disjoint slot ranges.
pub open spec fn runs_disjoint(a: VecRun, b: VecRun) -> bool {
    a.start + a.len <= b.start || b.start + b.len <= a.start
}

/// The heap: node pool, node free list, vector pool and its run table.
pub struct Pool {
    pub nodes: Vec<Node>,
    pub free_list: Vec<usize>,
    pub vectors: Vec<Cell>,
    pub vec_used: Vec<bool>,
    pub runs: Vec<VecRun>,
}

impl Pool {
    /// Number of nodes in the pool.
    pub open spec fn n(self) -> int {
        self.nodes@.len() as int
    }

    /// Node `i` is allocated.
    pub open spec fn used(self, i: int) -> bool {
        self.nodes@[i].tag.0 & USED_FLAG != 0
    }

    /// Node `i` carries the transient collector mark.
    pub open spec fn marked(self, i: int) -> bool {
        self.nodes@[i].tag.0 & MARK_FLAG != 0
    }

    /// Node `i` is pinned against collection.
    pub open spec fn locked(self, i: int) -> bool {
        self.nodes@[i].tag.0 & LOCK_FLAG != 0
    }

    /// Node `i` is a typed atom rather than a pair.
    pub open spec fn is_atom(self, i: int) -> bool {
        self.nodes@[i].tag.0 & ATOM_FLAG != 0
    }

    /// Node `i` is flagged immutable.
    pub open spec fn is_const(self, i: int) -> bool {
        self.nodes@[i].tag.0 & CONST_FLAG != 0
    }

    /// Node `i` is an atom whose payload is a node-pool index
    /// (a closure environment or a compiled-code entry).
    pub open spec fn payload_is_node(self, i: int) -> bool {
        self.is_atom(i) && (self.nodes@[i].car.0 == -13i32 || self.nodes@[i].car.0 == -10i32)
    }

    /// Node `i` is a vector atom: its payload names a run of cells.
    pub open spec fn is_vector_atom(self, i: int) -> bool {
        self.is_atom(i) && self.nodes@[i].car.0 == -19i32
    }

    /// There is an edge from node `j` to node `k` when `j` is allocated
    /// and one of its fields, or one slot of its vector run, holds `k`.
    pub open spec fn edge(self, j: int, k: int) -> bool {
        &&& 0 <= j < self.n()
        &&& 0 <= k < self.n()
        &&& self.used(j)
        &&& ({
            ||| (!self.is_atom(j) && (self.nodes@[j].car.0 as int == k || self.nodes@[j].cdr.0
                as int == k))
            ||| (self.payload_is_node(j) && self.nodes@[j].cdr.0 as int == k)
            ||| (self.is_vector_atom(j) && exists|r: int|
                0 <= r < self.runs@.len() && (#[trigger] self.runs@[r]).owner as int == j
                    && !self.runs@[r].pinned && exists|s: int|
                    covers(self.runs@[r], s) && self.vectors@[s].0 as int == k)
        })
    }

    /// The declared root identifiers for a collection: every allocated
    /// node named by a root cell, plus every allocated locked node.
    pub open spec fn root_ids(self, roots: Seq<Cell>) -> Set<int> {
        Set::new(
            |i: int|
                0 <= i < self.n() && self.used(i) && ((exists|k: int|
                    0 <= k < roots.len() && (#[trigger] roots[k]).0 as int == i) || self.locked(
                    i,
                )),
        )
    }

    /// Node `k` is reachable from `roots` by a path of at most `n` edges.
    pub open spec fn reach_n(self, roots: Set<int>, k: int, n: nat) -> bool
        decreases n,
    {
        if roots.contains(k) {
            true
        } else if n == 0 {
            false
        } else {
            exists|j: int| self.reach_n(roots, j, (n - 1) as nat) && self.edge(j, k)
        }
    }

    /// Node `k` is reachable from `roots`.
    pub open spec fn reachable(self, roots: Set<int>, k: int) -> bool {
        exists|n: nat| self.reach_n(roots, k, n)
    }

    /// Free-list discipline: every entry is a valid, unallocated node,
    /// no entry appears twice, and every unallocated node is an entry.
    pub open spec fn wf_free(self) -> bool {
        &&& forall|k: int|
            0 <= k < self.free_list@.len() ==> (#[trigger] self.free_list@[k]) < self.nodes@.len()
        &&& forall|k: int|
            0 <= k < self.free_list@.len() ==> !self.used(#[trigger] self.free_list@[k] as int)
        &&& forall|k1: int, k2: int|
            0 <= k1 < self.free_list@.len() && 0 <= k2 < self.free_list@.len() && k1 != k2
                ==> self.free_list@[k1] != self.free_list@[k2]
        &&& forall|i: int|
            0 <= i < self.n() && !(#[trigger] self.used(i)) ==> self.free_list@.contains(
                i as usize,
            )
    }

    /// Run `r` of the table is sane on its own.
    pub open spec fn run_ok(self, r: int) -> bool {
        &&& self.runs@[r].start + self.runs@[r].len <= self.vectors@.len()
        &&& self.runs@[r].len >= 1
        &&& (self.runs@[r].pinned || (self.runs@[r].owner as int) < self.n())
        &&& self.runs@[r].owner <= 0x7fff_ffff
    }

    /// Vector-pool discipline: runs are in range and pairwise disjoint,
    /// and the side bitmap records exactly the covered slots.
    pub open spec fn wf_vec(self) -> bool {
        &&& self.vec_used@.len() == self.vectors@.len()
        &&& forall|r: int| 0 <= r < self.runs@.len() ==> self.run_ok(r)
        &&& forall|r1: int, r2: int|
            0 <= r1 < self.runs@.len() && 0 <= r2 < self.runs@.len() && r1 != r2 ==> runs_disjoint(
                self.runs@[r1],
                self.runs@[r2],
            )
        &&& forall|s: int|
            0 <= s < self.vectors@.len() ==> ((#[trigger] self.vec_used@[s]) <==> exists|r: int|
                0 <= r < self.runs@.len() && covers(#[trigger] self.runs@[r], s))
    }

    /// Outside a collection pass, no node carries the transient bits.
    pub open spec fn gc_clean(self) -> bool {
        forall|i: int|
            0 <= i < self.n() ==> ((#[trigger] self.nodes@[i]).tag.0 & MARK_FLAG == 0
                && self.nodes@[i].tag.0 & TRAV_FLAG == 0)
    }

    /// Full heap invariant.
    pub open spec fn wf(self) -> bool {
        &&& self.wf_free()
        &&& self.wf_vec()
        &&& self.gc_clean()
        &&& self.nodes@.len() <= 0x7fff_ffff
        &&& self.vectors@.len() <= 0x7fff_ffff
    }

    /// A heap transformation that keeps every node's flag byte, the
    /// free list and the run table keeps the invariant.
    pub proof fn lemma_wf_same_tags(pre: Pool, post: Pool)
        requires
            pre.wf(),
            post.nodes@.len() == pre.nodes@.len(),
            forall|i: int|
                0 <= i < pre.n() ==> (#[trigger] post.nodes@[i]).tag == pre.nodes@[i].tag,
            post.free_list@ == pre.free_list@,
            post.vec_used@ == pre.vec_used@,
            post.runs@ == pre.runs@,
            post.vectors@.len() == pre.vectors@.len(),
        ensures
            post.wf(),
    {
        assert forall|i: int| 0 <= i < post.n() implies (#[trigger] post.used(i)) == pre.used(
            i,
        ) by {
            assert(post.nodes@[i].tag == pre.nodes@[i].tag);
        }
        assert forall|k: int| 0 <= k < post.free_list@.len() implies !post.used(
            #[trigger] post.free_list@[k] as int,
        ) by {
            assert(!pre.used(pre.free_list@[k] as int));
        }
        assert forall|i: int| 0 <= i < post.n() && !(#[trigger] post.used(i)) implies post
            .free_list@.contains(i as usize) by {
            assert(!pre.used(i));
        }
        assert forall|r: int| 0 <= r < post.runs@.len() implies post.run_ok(r) by {
            assert(pre.run_ok(r));
        }
        Pool::lemma_wf_vec_same(pre, post);
        assert forall|i: int| 0 <= i < post.n() implies ((#[trigger] post.nodes@[i]).tag.0
            & MARK_FLAG == 0 && post.nodes@[i].tag.0 & TRAV_FLAG == 0) by {
            assert(post.nodes@[i].tag == pre.nodes@[i].tag);
        }
    }

    /// The vector-pool invariant only watches the run table, the bitmap
    /// and the pool sizes; a change elsewhere keeps it.
    pub proof fn lemma_wf_vec_same(pre: Pool, post: Pool)
        requires
            pre.wf_vec(),
            post.runs@ == pre.runs@,
            post.vec_used@ == pre.vec_used@,
            post.vectors@.len() == pre.vectors@.len(),
            post.nodes@.len() == pre.nodes@.len(),
        ensures
            post.wf_vec(),
    {
        assert forall|r: int| 0 <= r < post.runs@.len() implies post.run_ok(r) by {
            assert(pre.run_ok(r));
        }
        assert forall|r1: int, r2: int|
            0 <= r1 < post.runs@.len() && 0 <= r2 < post.runs@.len() && r1
                != r2 implies runs_disjoint(post.runs@[r1], post.runs@[r2]) by {
            assert(runs_disjoint(pre.runs@[r1], pre.runs@[r2]));
        }
        assert forall|s: int| 0 <= s < post.vectors@.len() implies ((
        #[trigger] post.vec_used@[s]) <==> exists|r: int|
            0 <= r < post.runs@.len() && covers(#[trigger] post.runs@[r], s)) by {
            if post.vec_used@[s] {
                assert(pre.vec_used@[s]);
                let r = choose|r: int|
                    0 <= r < pre.runs@.len() && covers(#[trigger] pre.runs@[r], s);
                assert(covers(post.runs@[r], s));
            } else {
                if exists|r: int| 0 <= r < post.runs@.len() && covers(
                    #[trigger] post.runs@[r],
                    s,
                ) {
                    let r = choose|r: int|
                        0 <= r < post.runs@.len() && covers(#[trigger] post.runs@[r], s);
                    assert(covers(pre.runs@[r], s));
                    assert(pre.vec_used@[s]);
                }
            }
        }
    }

    /// The node-side invariants only watch the nodes and the free
    /// list; a change elsewhere keeps them.
    pub proof fn lemma_wf_nodes_same(pre: Pool, post: Pool)
        requires
            pre.wf_free(),
            pre.gc_clean(),
            post.nodes@ == pre.nodes@,
            post.free_list@ == pre.free_list@,
        ensures
            post.wf_free(),
            post.gc_clean(),
    {
        assert forall|k: int| 0 <= k < post.free_list@.len() implies !post.used(
            #[trigger] post.free_list@[k] as int,
        ) by {
            assert(!pre.used(pre.free_list@[k] as int));
        }
        assert forall|i: int| 0 <= i < post.n() && !(#[trigger] post.used(i)) implies post
            .free_list@.contains(i as usize) by {
            assert(!pre.used(i));
        }
        assert forall|i: int| 0 <= i < post.n() implies ((#[trigger] post.nodes@[i]).tag.0
            & MARK_FLAG == 0 && post.nodes@[i].tag.0 & TRAV_FLAG == 0) by {
            assert(pre.nodes@[i].tag.0 & MARK_FLAG == 0 && pre.nodes@[i].tag.0 & TRAV_FLAG == 0);
        }
    }

    /// A fresh heap: every node free and reset, every vector slot free.
    pub fn new(nnodes: usize, nvcells: usize) -> (r: Self)
        requires
            nnodes <= 0x7fff_ffff,
            nvcells <= 0x7fff_ffff,
        ensures
            r.wf(),
            r.nodes@.len() == nnodes,
            r.vectors@.len() == nvcells,
            r.free_list@.len() == nnodes,
            r.runs@.len() == 0,
            forall|i: int| 0 <= i < nnodes ==> !r.used(i),
    {
        let mut nodes: Vec<Node> = Vec::new();
        let mut free_list: Vec<usize> = Vec::new();
        let mut vectors: Vec<Cell> = Vec::new();
        let mut vec_used: Vec<bool> = Vec::new();
        let mut k: usize = 0;
        while k < nnodes
            invariant
                k <= nnodes,
                nodes@.len() == k,
                free_list@.len() == k,
                forall|i: int| 0 <= i < k ==> (#[trigger] nodes@[i]).tag.0 == 0,
                forall|i: int| 0 <= i < k ==> (#[trigger] free_list@[i]) == i,
            decreases nnodes - k,
        {
            nodes.push(Node::reset());
            free_list.push(k);
            k = k + 1;
        }
        let mut s: usize = 0;
        while s < nvcells
            invariant
                s <= nvcells,
                vectors@.len() == s,
                vec_used@.len() == s,
                forall|i: int| 0 <= i < s ==> !(#[trigger] vec_used@[i]),
            decreases nvcells - s,
        {
            vectors.push(Cell(-1));
            vec_used.push(false);
            s = s + 1;
        }
        let r = Pool { nodes, free_list, vectors, vec_used, runs: Vec::new() };
        proof {
            assert(0u8 & 0x20u8 == 0 && 0u8 & 0x02u8 == 0 && 0u8 & 0x04u8 == 0) by (bit_vector);
            assert(MARK_FLAG == 0x02u8 && TRAV_FLAG == 0x04u8 && USED_FLAG == 0x20u8);
            assert forall|i: int| 0 <= i < r.n() implies !(#[trigger] r.used(i)) by {
                assert(r.nodes@[i].tag.0 == 0);
            }
            assert forall|i: int| 0 <= i < r.n() && !(#[trigger] r.used(i)) implies r
                .free_list@.contains(i as usize) by {
                assert(r.free_list@[i] == i as usize);
            }
            assert forall|i: int| 0 <= i < r.n() implies ((#[trigger] r.nodes@[i]).tag.0
                & MARK_FLAG == 0 && r.nodes@[i].tag.0 & TRAV_FLAG == 0) by {
                assert(r.nodes@[i].tag.0 == 0);
            }
        }
        r
    }

    /// The flag byte of node `n`.
    pub fn tag(&self, n: usize) -> (r: Tag)
        requires
            n < self.nodes@.len(),
        ensures
            r == self.nodes@[n as int].tag,
    {
        self.nodes[n].tag
    }

    /// The head field of node `x`.
    pub fn car(&self, x: usize) -> (r: Cell)
        requires
            x < self.nodes@.len(),
        ensures
            r == self.nodes@[x as int].car,
    {
        self.nodes[x].car
    }

    /// The tail field of node `x`.
    pub fn cdr(&self, x: usize) -> (r: Cell)
        requires
            x < self.nodes@.len(),
        ensures
            r == self.nodes@[x as int].cdr,
    {
        self.nodes[x].cdr
    }

    /// The head of the head of node `x`.
    pub fn caar(&self, x: usize) -> (r: Cell)
        requires
            x < self.nodes@.len(),
            0 <= self.nodes@[x as int].car.0 < self.nodes@.len(),
        ensures
            r == self.nodes@[self.nodes@[x as int].car.0 as int].car,
    {
        let c = self.car(x);
        self.car(c.0 as usize)
    }

    /// The head of the tail of node `x`.
    pub fn cadr(&self, x: usize) -> (r: Cell)
        requires
            x < self.nodes@.len(),
            0 <= self.nodes@[x as int].cdr.0 < self.nodes@.len(),
        ensures
            r == self.nodes@[self.nodes@[x as int].cdr.0 as int].car,
    {
        let c = self.cdr(x);
        self.car(c.0 as usize)
    }

    /// The tail of the tail of node `x`.
    pub fn cddr(&self, x: usize) -> (r: Cell)
        requires
            x < self.nodes@.len(),
            0 <= self.nodes@[x as int].cdr.0 < self.nodes@.len(),
        ensures
            r == self.nodes@[self.nodes@[x as int].cdr.0 as int].cdr,
    {
        let c = self.cdr(x);
        self.cdr(c.0 as usize)
    }

    /// The port-table slot wrapped by a port atom: its payload value.
    pub fn portno(&self, n: usize) -> (r: Cell)
        requires
            n < self.nodes@.len(),
        ensures
            r == self.nodes@[n as int].cdr,
    {
        self.cdr(n)
    }

    /// Take one node off the free list and initialize it.
    ///
    /// Returns `None`, changing nothing, exactly when the free list is
    /// empty. The caller is expected to collect and retry then.
    pub fn try_alloc(&mut self, pcar: Cell, pcdr: Cell, ptag: u8) -> (r: Option<Cell>)
        requires
            old(self).wf(),
            ptag & MARK_FLAG == 0,
            ptag & TRAV_FLAG == 0,
            ptag & USED_FLAG == 0,
        ensures
            final(self).wf(),
            final(self).nodes@.len() == old(self).nodes@.len(),
            final(self).vectors@ == old(self).vectors@,
            final(self).vec_used@ == old(self).vec_used@,
            final(self).runs@ == old(self).runs@,
            match r {
                None => *final(self) == *old(self) && old(self).free_list@.len() == 0,
                Some(c) => {
                    &&& old(self).free_list@.len() > 0
                    &&& 0 <= c.0 < old(self).nodes@.len()
                    &&& !old(self).used(c.0 as int)
                    &&& final(self).used(c.0 as int)
                    &&& final(self).nodes@ == old(self).nodes@.update(
                        c.0 as int,
                        Node { car: pcar, cdr: pcdr, tag: Tag(ptag | USED_FLAG) },
                    )
                    &&& final(self).free_list@ == old(self).free_list@.drop_last()
                },
            },
    {
        if self.free_list.len() == 0 {
            return None;
        }
        let i = self.free_list[self.free_list.len() - 1];
        self.free_list.pop();
        let nd = Node { car: pcar, cdr: pcdr, tag: Tag(ptag | USED_FLAG) };
        self.nodes.set(i, nd);
        proof {
            let t = ptag;
            assert((t | 0x20u8) & 0x20u8 != 0 && (t & 0x02u8 == 0 ==> (t | 0x20u8) & 0x02u8 == 0)
                && (t & 0x04u8 == 0 ==> (t | 0x20u8) & 0x04u8 == 0)) by (bit_vector);
            assert(MARK_FLAG == 0x02u8 && TRAV_FLAG == 0x04u8 && USED_FLAG == 0x20u8);
            assert forall|i2: int| 0 <= i2 < self.n() implies ((#[trigger] self.nodes@[i2]).tag.0
                & MARK_FLAG == 0 && self.nodes@[i2].tag.0 & TRAV_FLAG == 0) by {
                if i2 != i {
                    assert(self.nodes@[i2] == old(self).nodes@[i2]);
                }
            }
            assert forall|k: int| 0 <= k < self.free_list@.len() implies !self.used(
                #[trigger] self.free_list@[k] as int,
            ) by {
                assert(old(self).free_list@[k] == self.free_list@[k]);
                assert(!old(self).used(old(self).free_list@[k] as int));
                assert(self.free_list@[k] != i);
            }
            Pool::lemma_wf_vec_same(*old(self), *self);
            assert forall|i2: int| 0 <= i2 < self.n() && !(#[trigger] self.used(i2)) implies self
                .free_list@.contains(i2 as usize) by {
                assert(!old(self).used(i2));
                let k = choose|k: int|
                    0 <= k < old(self).free_list@.len() && old(self).free_list@[k] == i2 as usize;
                assert(k < old(self).free_list@.len() - 1);
                assert(self.free_list@[k] == i2 as usize);
            }
        }
        Some(Cell(i as i32))
    }

    /// Replace the head of a pair, rejecting atoms and immutable cells.
    ///
    /// A `CONST` target is never mutated: the call fails and the heap
    /// is unchanged.
    pub fn set_car(&mut self, x: usize, v: Cell) -> (r: Result<(), Error>)
        requires
            old(self).wf(),
            x < old(self).nodes@.len(),
            old(self).used(x as int),
        ensures
            final(self).wf(),
            final(self).nodes@.len() == old(self).nodes@.len(),
            ({
                let pre = *old(self);
                let post = *final(self);
                if pre.is_const(x as int) {
                    r == Err::<(), Error>(Error::ConstMutation) && post == pre
                } else if pre.is_atom(x as int) {
                    r == Err::<(), Error>(Error::TypeError) && post == pre
                } else {
                    r == Ok::<(), Error>(()) && post.nodes@ == pre.nodes@.update(
                        x as int,
                        Node { car: v, ..pre.nodes@[x as int] },
                    ) && post.vectors@ == pre.vectors@ && post.vec_used@ == pre.vec_used@
                        && post.runs@ == pre.runs@ && post.free_list@ == pre.free_list@
                }
            }),
    {
        let t = self.nodes[x].tag;
        if t.has_flag(CONST_FLAG) {
            return Err(Error::ConstMutation);
        }
        if t.has_flag(ATOM_FLAG) {
            return Err(Error::TypeError);
        }
        let nd = Node { car: v, ..self.nodes[x] };
        self.nodes.set(x, nd);
        proof {
            Pool::lemma_wf_same_tags(*old(self), *self);
        }
        Ok(())
    }

    /// Replace the tail of a pair, rejecting atoms and immutable cells.
    pub fn set_cdr(&mut self, x: usize, v: Cell) -> (r: Result<(), Error>)
        requires
            old(self).wf(),
            x < old(self).nodes@.len(),
            old(self).used(x as int),
        ensures
            final(self).wf(),
            final(self).nodes@.len() == old(self).nodes@.len(),
            ({
                let pre = *old(self);
                let post = *final(self);
                if pre.is_const(x as int) {
                    r == Err::<(), Error>(Error::ConstMutation) && post == pre
                } else if pre.is_atom(x as int) {
                    r == Err::<(), Error>(Error::TypeError) && post == pre
                } else {
                    r == Ok::<(), Error>(()) && post.nodes@ == pre.nodes@.update(
                        x as int,
                        Node { cdr: v, ..pre.nodes@[x as int] },
                    ) && post.vectors@ == pre.vectors@ && post.vec_used@ == pre.vec_used@
                        && post.runs@ == pre.runs@ && post.free_list@ == pre.free_list@
                }
            }),
    {
        let t = self.nodes[x].tag;
        if t.has_flag(CONST_FLAG) {
            return Err(Error::ConstMutation);
        }
        if t.has_flag(ATOM_FLAG) {
            return Err(Error::TypeError);
        }
        let nd = Node { cdr: v, ..self.nodes[x] };
        self.nodes.set(x, nd);
        proof {
            Pool::lemma_wf_same_tags(*old(self), *self);
        }
        Ok(())
    }

    /// Find the run whose slots begin at `start`, if any.
    pub fn find_run(&self, start: usize) -> (r: Option<usize>)
        ensures
            match r {
                Some(ri) => ri < self.runs@.len() && self.runs@[ri as int].start == start,
                None => forall|q: int|
                    0 <= q < self.runs@.len() ==> (#[trigger] self.runs@[q]).start != start,
            },
    {
        let mut ri: usize = 0;
        while ri < self.runs.len()
            invariant
                ri <= self.runs@.len(),
                forall|q: int| 0 <= q < ri ==> (#[trigger] self.runs@[q]).start != start,
            decreases self.runs@.len() - ri,
        {
            if self.runs[ri].start == start {
                return Some(ri);
            }
            ri = ri + 1;
        }
        None
    }

    /// Read one slot of a vector atom's run, checking every bound.
    pub fn vref(&self, vatom: usize, idx: usize) -> (r: Result<Cell, Error>)
        requires
            self.wf(),
            vatom < self.nodes@.len(),
        ensures
            match r {
                Ok(c) => {
                    &&& self.is_vector_atom(vatom as int)
                    &&& exists|ri: int|
                        0 <= ri < self.runs@.len() && (#[trigger] self.runs@[ri]).start as i32
                            == self.nodes@[vatom as int].cdr.0 && idx < self.runs@[ri].len && c
                            == self.vectors@[self.runs@[ri].start + idx]
                },
                Err(e) => e == Error::TypeError || e == Error::RangeError,
            },
            (self.is_vector_atom(vatom as int) && self.nodes@[vatom as int].cdr.0 >= 0
                && self.run_covers_index(
                self.nodes@[vatom as int].cdr.0 as int,
                idx as int,
            )) ==> r is Ok,
    {
        let t = self.nodes[vatom].tag;
        let tycell = self.nodes[vatom].car;
        if !t.has_flag(ATOM_FLAG) || tycell.0 != -19 {
            return Err(Error::TypeError);
        }
        let payload = self.nodes[vatom].cdr;
        if payload.0 < 0 {
            return Err(Error::RangeError);
        }
        match self.find_run(payload.0 as usize) {
            None => {
                proof {
                    if self.run_covers_index(payload.0 as int, idx as int) {
                        let ri2 = choose|ri2: int|
                            0 <= ri2 < self.runs@.len() && (#[trigger] self.runs@[ri2]).start
                                as int == payload.0 as int && idx < self.runs@[ri2].len;
                        assert(false);
                    }
                }
                Err(Error::RangeError)
            },
            Some(ri) => {
                let run = self.runs[ri];
                if idx >= run.len {
                    proof {
                        if self.run_covers_index(payload.0 as int, idx as int) {
                            let ri2 = choose|ri2: int|
                                0 <= ri2 < self.runs@.len() && (#[trigger] self.runs@[ri2]).start
                                    as int == payload.0 as int && idx < self.runs@[ri2].len;
                            if ri2 != ri as int {
                                assert(runs_disjoint(self.runs@[ri2], self.runs@[ri as int]));
                                assert(self.run_ok(ri2));
                                assert(self.run_ok(ri as int));
                            }
                            assert(false);
                        }
                    }
                    return Err(Error::RangeError);
                }
                proof {
                    assert(self.run_ok(ri as int));
                }
                Ok(self.vectors[run.start + idx])
            },
        }
    }

    /// Write one slot of a vector atom's run, rejecting immutable
    /// targets: a `CONST` vector is never mutated.
    pub fn vset(&mut self, vatom: usize, idx: usize, val: Cell) -> (r: Result<(), Error>)
        requires
            old(self).wf(),
            vatom < old(self).nodes@.len(),
        ensures
            final(self).wf(),
            final(self).nodes@ == old(self).nodes@,
            final(self).free_list@ == old(self).free_list@,
            final(self).runs@ == old(self).runs@,
            final(self).vec_used@ == old(self).vec_used@,
            old(self).is_const(vatom as int) ==> r == Err::<(), Error>(Error::ConstMutation),
            match r {
                Ok(_) => {
                    &&& !old(self).is_const(vatom as int)
                    &&& old(self).is_vector_atom(vatom as int)
                    &&& exists|ri: int|
                        0 <= ri < old(self).runs@.len() && (#[trigger] old(
                            self,
                        ).runs@[ri]).start as i32 == old(self).nodes@[vatom as int].cdr.0 && idx
                            < old(self).runs@[ri].len && final(self).vectors@ == old(
                            self,
                        ).vectors@.update(old(self).runs@[ri].start + idx, val)
                },
                Err(e) => (e == Error::TypeError || e == Error::RangeError || e
                    == Error::ConstMutation) && *final(self) == *old(self),
            },
            (!old(self).is_const(vatom as int) && old(self).is_vector_atom(vatom as int) && old(
                self,
            ).nodes@[vatom as int].cdr.0 >= 0 && old(self).run_covers_index(
                old(self).nodes@[vatom as int].cdr.0 as int,
                idx as int,
            )) ==> r is Ok,
    {
        let t = self.nodes[vatom].tag;
        if t.has_flag(CONST_FLAG) {
            return Err(Error::ConstMutation);
        }
        let tycell = self.nodes[vatom].car;
        if !t.has_flag(ATOM_FLAG) || tycell.0 != -19 {
            return Err(Error::TypeError);
        }
        let payload = self.nodes[vatom].cdr;
        if payload.0 < 0 {
            return Err(Error::RangeError);
        }
        match self.find_run(payload.0 as usize) {
            None => {
                proof {
                    if self.run_covers_index(payload.0 as int, idx as int) {
                        let ri2 = choose|ri2: int|
                            0 <= ri2 < self.runs@.len() && (#[trigger] self.runs@[ri2]).start
                                as int == payload.0 as int && idx < self.runs@[ri2].len;
                        assert(false);
                    }
                }
                Err(Error::RangeError)
            },
            Some(ri) => {
                let run = self.runs[ri];
                if idx >= run.len {
                    proof {
                        if self.run_covers_index(payload.0 as int, idx as int) {
                            let ri2 = choose|ri2: int|
                                0 <= ri2 < self.runs@.len() && (#[trigger] self.runs@[ri2]).start
                                    as int == payload.0 as int && idx < self.runs@[ri2].len;
                            if ri2 != ri as int {
                                assert(runs_disjoint(self.runs@[ri2], self.runs@[ri as int]));
                                assert(self.run_ok(ri2));
                                assert(self.run_ok(ri as int));
                            }
                            assert(false);
                        }
                    }
                    return Err(Error::RangeError);
                }
                proof {
                    assert(self.run_ok(ri as int));
                }
                self.vectors.set(run.start + idx, val);
                proof {
                    Pool::lemma_wf_same_tags(*old(self), *self);
                }
                Ok(())
            },
        }
    }

    /// Some slot in the window `[st, st + len)` is already in use.
    pub open spec fn window_blocked(self, st: int, len: int) -> bool {
        exists|s: int| st <= s < st + len && self.vec_used@[s]
    }

    /// Some run of the table begins at `start`. Runs are disjoint and
    /// non-empty, so at most one does.
    pub open spec fn has_run_at(self, start: int) -> bool {
        exists|ri: int|
            0 <= ri < self.runs@.len() && (#[trigger] self.runs@[ri]).start as int == start
    }

    /// Some run of the table begins at `start` and holds index `idx`.
    pub open spec fn run_covers_index(self, start: int, idx: int) -> bool {
        exists|ri: int|
            0 <= ri < self.runs@.len() && (#[trigger] self.runs@[ri]).start as int == start && idx
                < self.runs@[ri].len
    }

    /// Reserve a contiguous free run of `len` slots, first fit.
    ///
    /// The new run is pinned: it survives collection until an owning
    /// atom adopts it. Returns `None` exactly when no window of `len`
    /// consecutive free slots exists.
    pub fn try_alloc_run(&mut self, len: usize, fill: Cell) -> (r: Option<usize>)
        requires
            old(self).wf(),
            1 <= len,
        ensures
            final(self).wf(),
            final(self).nodes@ == old(self).nodes@,
            final(self).free_list@ == old(self).free_list@,
            final(self).vectors@.len() == old(self).vectors@.len(),
            match r {
                None => *final(self) == *old(self) && forall|st: int|
                    0 <= st <= old(self).vectors@.len() - len ==> #[trigger] old(
                        self,
                    ).window_blocked(st, len as int),
                Some(start) => {
                    &&& start + len <= old(self).vectors@.len()
                    &&& forall|s: int| start <= s < start + len ==> !old(self).vec_used@[s]
                    &&& final(self).runs@ == old(self).runs@.push(
                        VecRun { start, len, owner: 0, pinned: true },
                    )
                    &&& forall|s: int|
                        0 <= s < old(self).vectors@.len() ==> final(self).vectors@[s] == (if start
                            <= s < start + len {
                            fill
                        } else {
                            old(self).vectors@[s]
                        })
                },
            },
    {
        if len > self.vectors.len() {
            return None;
        }
        let mut st: usize = 0;
        while st <= self.vectors.len() - len
            invariant
                *self == *old(self),
                old(self).wf(),
                len <= self.vectors@.len(),
                1 <= len,
                st <= self.vectors@.len(),
                forall|st2: int| 0 <= st2 < st ==> #[trigger] self.window_blocked(st2, len as int),
            decreases self.vectors@.len() - st,
        {
            match self.scan_window(st, len) {
                Some(q) => {
                    proof {
                        // every window starting at or before the hit
                        // contains the used slot
                        assert forall|st2: int| 0 <= st2 < q + 1 implies #[trigger] self
                            .window_blocked(st2, len as int) by {
                            if st2 >= st {
                                assert(st2 <= q < st2 + len && self.vec_used@[q as int]);
                            }
                        }
                    }
                    st = q + 1;
                },
                None => {
                    // the window is free: claim it
                    let ghost pre = *self;
                    let mut s2: usize = st;
                    while s2 < st + len
                        invariant
                            pre.wf(),
                            1 <= len,
                            st + len <= pre.vectors@.len(),
                            st <= s2 <= st + len,
                            self.nodes@ == pre.nodes@,
                            self.free_list@ == pre.free_list@,
                            self.runs@ == pre.runs@,
                            self.vectors@.len() == pre.vectors@.len(),
                            self.vec_used@.len() == pre.vec_used@.len(),
                            forall|s: int|
                                0 <= s < pre.vectors@.len() ==> self.vectors@[s] == (if st <= s
                                    < s2 {
                                    fill
                                } else {
                                    pre.vectors@[s]
                                }),
                            forall|s: int|
                                0 <= s < pre.vec_used@.len() ==> self.vec_used@[s] == (if st <= s
                                    < s2 {
                                    true
                                } else {
                                    pre.vec_used@[s]
                                }),
                        decreases st + len - s2,
                    {
                        self.vectors.set(s2, fill);
                        self.vec_used.set(s2, true);
                        s2 = s2 + 1;
                    }
                    let newrun = VecRun { start: st, len, owner: 0, pinned: true };
                    self.runs.push(newrun);
                    proof {
                        let fin = *self;
                        let old_len = pre.runs@.len() as int;
                        assert(pre == *old(self));
                        Pool::lemma_wf_nodes_same(pre, fin);
                        // the new run is disjoint from every old one: its
                        // slots were free, while covered slots are not
                        assert forall|r1: int, r2: int|
                            0 <= r1 < fin.runs@.len() && 0 <= r2 < fin.runs@.len() && r1
                                != r2 implies runs_disjoint(fin.runs@[r1], fin.runs@[r2]) by {
                            if r1 < old_len && r2 < old_len {
                                assert(runs_disjoint(pre.runs@[r1], pre.runs@[r2]));
                            } else if r1 == old_len && r2 < old_len {
                                let other = pre.runs@[r2];
                                assert(pre.run_ok(r2));
                                if !runs_disjoint(newrun, other) {
                                    let s = if other.start >= st {
                                        other.start as int
                                    } else {
                                        st as int
                                    };
                                    assert(covers(other, s));
                                    assert(pre.vec_used@[s]);
                                }
                            } else if r2 == old_len && r1 < old_len {
                                let other = pre.runs@[r1];
                                assert(pre.run_ok(r1));
                                if !runs_disjoint(newrun, other) {
                                    let s = if other.start >= st {
                                        other.start as int
                                    } else {
                                        st as int
                                    };
                                    assert(covers(other, s));
                                    assert(pre.vec_used@[s]);
                                }
                            }
                        }
                        assert forall|r: int| 0 <= r < fin.runs@.len() implies fin.run_ok(r) by {
                            if r < old_len {
                                assert(pre.run_ok(r));
                            }
                        }
                        assert forall|s: int| 0 <= s < fin.vectors@.len() implies ((
                        #[trigger] fin.vec_used@[s]) <==> exists|r: int|
                            0 <= r < fin.runs@.len() && covers(#[trigger] fin.runs@[r], s)) by {
                            if st <= s < st + len {
                                assert(fin.runs@[old_len] == newrun);
                                assert(covers(fin.runs@[old_len], s));
                                assert(fin.vec_used@[s]);
                            } else {
                                if fin.vec_used@[s] {
                                    assert(pre.vec_used@[s]);
                                    let r = choose|r: int|
                                        0 <= r < pre.runs@.len() && covers(
                                            #[trigger] pre.runs@[r],
                                            s,
                                        );
                                    assert(covers(fin.runs@[r], s));
                                } else {
                                    assert(!pre.vec_used@[s]);
                                    if exists|r: int|
                                        0 <= r < fin.runs@.len() && covers(
                                            #[trigger] fin.runs@[r],
                                            s,
                                        ) {
                                        let r = choose|r: int|
                                            0 <= r < fin.runs@.len() && covers(
                                                #[trigger] fin.runs@[r],
                                                s,
                                            );
                                        assert(r < old_len);
                                        assert(covers(pre.runs@[r], s));
                                    }
                                }
                            }
                        }
                    }
                    return Some(st);
                },
            }
        }
        proof {
            assert forall|st2: int| 0 <= st2 <= self.vectors@.len() - len implies #[trigger] self
                .window_blocked(st2, len as int) by {
                assert(st2 < st);
            }
        }
        None
    }

    /// Scan one window for an allocated slot; `None` means it is free.
    fn scan_window(&self, st: usize, len: usize) -> (r: Option<usize>)
        requires
            self.wf(),
            1 <= len,
            st + len <= self.vectors@.len(),
        ensures
            match r {
                None => forall|s: int| st <= s < st + len ==> !self.vec_used@[s],
                Some(q) => st <= q < st + len && self.vec_used@[q as int],
            },
    {
        let mut q: usize = st;
        while q < st + len
            invariant
                self.wf(),
                st + len <= self.vectors@.len(),
                st <= q <= st + len,
                forall|s: int| st <= s < q ==> !self.vec_used@[s],
            decreases st + len - q,
        {
            if self.vec_used[q] {
                return Some(q);
            }
            q = q + 1;
        }
        None
    }

    /// Hand a pinned run to its owning atom.
    pub fn adopt_run(&mut self, ri: usize, owner: usize)
        requires
            old(self).wf(),
            ri < old(self).runs@.len(),
            old(self).runs@[ri as int].pinned,
            owner < old(self).nodes@.len(),
        ensures
            final(self).wf(),
            final(self).nodes@ == old(self).nodes@,
            final(self).free_list@ == old(self).free_list@,
            final(self).vectors@ == old(self).vectors@,
            final(self).vec_used@ == old(self).vec_used@,
            final(self).runs@ == old(self).runs@.update(
                ri as int,
                VecRun { owner, pinned: false, ..old(self).runs@[ri as int] },
            ),
    {
        let run = self.runs[ri];
        let newrun = VecRun { start: run.start, len: run.len, owner, pinned: false };
        self.runs.set(ri, newrun);
        proof {
            Pool::lemma_wf_nodes_same(*old(self), *self);
            assert forall|r: int| 0 <= r < self.runs@.len() implies self.run_ok(r) by {
                assert(old(self).run_ok(r));
            }
            assert forall|r1: int, r2: int|
                0 <= r1 < self.runs@.len() && 0 <= r2 < self.runs@.len() && r1
                    != r2 implies runs_disjoint(self.runs@[r1], self.runs@[r2]) by {
                assert(runs_disjoint(old(self).runs@[r1], old(self).runs@[r2]));
            }
            assert forall|s: int| 0 <= s < self.vectors@.len() implies ((
            #[trigger] self.vec_used@[s]) <==> exists|r: int|
                0 <= r < self.runs@.len() && covers(#[trigger] self.runs@[r], s)) by {
                if self.vec_used@[s] {
                    let r = choose|r: int|
                        0 <= r < old(self).runs@.len() && covers(#[trigger] old(self).runs@[r], s);
                    assert(covers(self.runs@[r], s));
                } else {
                    if exists|r: int| 0 <= r < self.runs@.len() && covers(
                        #[trigger] self.runs@[r],
                        s,
                    ) {
                        let r = choose|r: int|
                            0 <= r < self.runs@.len() && covers(#[trigger] self.runs@[r], s);
                        assert(covers(old(self).runs@[r], s));
                    }
                }
            }
        }
    }
}

} // verus!
