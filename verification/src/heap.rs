//! Free-list allocation with collection on exhaustion.
//!
//! `cons3` is the general entry point: it takes a node off the free
//! list, and when the list is empty it runs one collection over the
//! given roots (plus the two cells being stored, which may be the only
//! reference to live structure) and retries. If the heap is still full
//! the allocation fails fatally for the caller to report.

use vstd::prelude::*;

use crate::cell::Cell;
use crate::cell::TypeTag;
use crate::error::Error;
use crate::pool::covers;
use crate::pool::runs_disjoint;
use crate::pool::Node;
use crate::pool::Pool;
use crate::pool::VecRun;
use crate::ports::PortTable;
use crate::tag::lemma_flag_values;
use crate::tag::Tag;
use crate::tag::ATOM_FLAG;
use crate::tag::MARK_FLAG;
use crate::tag::PORT_FLAG;
use crate::tag::TRAV_FLAG;
use crate::tag::USED_FLAG;
use crate::tag::VECTOR_FLAG;

verus! {

impl Pool {
    /// The root set of an allocation: the caller's roots extended with
    /// the two cells being stored.
    pub open spec fn alloc_roots(self, roots: Seq<Cell>, pcar: Cell, pcdr: Cell) -> Set<int> {
        self.root_ids(roots.push(pcar).push(pcdr))
    }

    /// The heap is exhausted: every node is allocated and reachable.
    pub open spec fn exhausted(self, rs: Set<int>) -> bool {
        forall|i: int|
            0 <= i < self.nodes@.len() ==> (#[trigger] self.used(i)) && self.reachable(rs, i)
    }

    /// What `cons3` promises about the heap afterwards, relative to the
    /// root set extended with the two stored cells.
    pub open spec fn alloc_post(pre: Pool, post: Pool, rs: Set<int>) -> bool {
        &&& post.nodes@.len() == pre.nodes@.len()
        &&& post.vectors@ == pre.vectors@
        &&& forall|r2: int|
            0 <= r2 < pre.runs@.len() && ((#[trigger] pre.runs@[r2]).pinned || ((pre.runs@[r2].owner
                as int) < pre.nodes@.len() && pre.used(pre.runs@[r2].owner as int) && pre.reachable(
                rs,
                pre.runs@[r2].owner as int,
            ))) ==> post.runs@.contains(pre.runs@[r2])
    }

    /// Allocate a node holding the given fields and flags, collecting
    /// once if the free list is empty.
    ///
    /// On success the returned cell names a fresh node with exactly the
    /// requested contents, and every allocated node reachable from the
    /// roots (or from `pcar`/`pcdr`, or locked) keeps its contents. The
    /// call fails with `HeapExhausted` exactly when, even after
    /// collection, every node is allocated and reachable.
    #[verifier::rlimit(100)]
    pub fn cons3(
        &mut self,
        pcar: Cell,
        pcdr: Cell,
        ptag: u8,
        roots: &Vec<Cell>,
        ports: &mut PortTable,
    ) -> (r: Result<Cell, Error>)
        requires
            old(self).wf(),
            ptag & MARK_FLAG == 0,
            ptag & TRAV_FLAG == 0,
            ptag & USED_FLAG == 0,
        ensures
            final(self).wf(),
            final(ports).slots@.len() == old(ports).slots@.len(),
            forall|p: int| final(ports).spec_is_open(p) ==> old(ports).spec_is_open(p),
            final(ports).outport == old(ports).outport,
            r is Ok ==> 0 <= r->Ok_0.0 < old(self).nodes@.len(),
            r is Ok ==> !(old(self).used(r->Ok_0.0 as int) && old(self).reachable(
                old(self).alloc_roots(roots@, pcar, pcdr),
                r->Ok_0.0 as int,
            )),
            r is Ok ==> final(self).used(r->Ok_0.0 as int),
            r is Ok ==> final(self).nodes@[r->Ok_0.0 as int] == (Node {
                car: pcar,
                cdr: pcdr,
                tag: Tag(ptag | USED_FLAG),
            }),
            r is Ok ==> forall|i: int|
                0 <= i < old(self).nodes@.len() && i != r->Ok_0.0 as int && (#[trigger] old(
                    self,
                ).used(i)) && old(self).reachable(old(self).alloc_roots(roots@, pcar, pcdr), i)
                    ==> final(self).nodes@[i] == old(self).nodes@[i],
            r is Ok ==> Pool::alloc_post(
                *old(self),
                *final(self),
                old(self).alloc_roots(roots@, pcar, pcdr),
            ),
            r is Err ==> r == Err::<Cell, Error>(Error::HeapExhausted),
            r is Err ==> old(self).exhausted(old(self).alloc_roots(roots@, pcar, pcdr)),
            r is Err ==> final(self).nodes@ == old(self).nodes@ && final(self).vectors@ == old(
                self,
            ).vectors@ && final(self).free_list@.len() == 0,
    {
        let ghost pre = *old(self);
        let ghost rs = pre.alloc_roots(roots@, pcar, pcdr);
        match self.try_alloc(pcar, pcdr, ptag) {
            Some(c) => {
                proof {
                    assert forall|i: int|
                        0 <= i < pre.nodes@.len() && i != c.0 as int && pre.used(i) && pre.reachable(
                            rs,
                            i,
                        ) implies self.nodes@[i] == pre.nodes@[i] by {}
                    assert forall|r2: int|
                        0 <= r2 < pre.runs@.len() && ((#[trigger] pre.runs@[r2]).pinned || ((
                        pre.runs@[r2].owner as int) < pre.nodes@.len() && pre.used(
                            pre.runs@[r2].owner as int,
                        ) && pre.reachable(rs, pre.runs@[r2].owner as int))) implies self
                        .runs@.contains(pre.runs@[r2]) by {
                        assert(self.runs@[r2] == pre.runs@[r2]);
                    }
                }
                Ok(c)
            },
            None => {
                // assemble the extended root vector and collect once
                let mut rts: Vec<Cell> = Vec::new();
                let mut k: usize = 0;
                while k < roots.len()
                    invariant
                        k <= roots@.len(),
                        rts@ == roots@.take(k as int),
                    decreases roots@.len() - k,
                {
                    rts.push(roots[k]);
                    k = k + 1;
                    proof {
                        assert(rts@ =~= roots@.take(k as int));
                    }
                }
                rts.push(pcar);
                rts.push(pcdr);
                proof {
                    assert(roots@.take(roots@.len() as int) =~= roots@);
                    assert(rts@ =~= roots@.push(pcar).push(pcdr));
                }
                self.collect(&rts, ports);
                let ghost mid = *self;
                match self.try_alloc(pcar, pcdr, ptag) {
                    Some(c) => {
                        proof {
                            assert forall|i: int|
                                0 <= i < pre.nodes@.len() && i != c.0 as int && pre.used(i)
                                    && pre.reachable(rs, i) implies self.nodes@[i]
                                == pre.nodes@[i] by {
                                assert(mid.nodes@[i] == pre.nodes@[i]);
                            }
                            assert forall|r2: int|
                                0 <= r2 < pre.runs@.len() && ((#[trigger] pre.runs@[r2]).pinned || ((
                                pre.runs@[r2].owner as int) < pre.nodes@.len() && pre.used(
                                    pre.runs@[r2].owner as int,
                                ) && pre.reachable(rs, pre.runs@[r2].owner as int))) implies self
                                .runs@.contains(pre.runs@[r2]) by {
                                assert(mid.runs@.contains(pre.runs@[r2]));
                            }
                            if pre.used(c.0 as int) && pre.reachable(rs, c.0 as int) {
                                assert(mid.nodes@[c.0 as int] == pre.nodes@[c.0 as int]);
                                assert(mid.used(c.0 as int));
                                assert(false);
                            }
                        }
                        Ok(c)
                    },
                    None => {
                        proof {
                            assert(pre.exhausted(rs)) by {
                                assert forall|i: int|
                                    0 <= i < pre.nodes@.len() implies (#[trigger] pre.used(i))
                                        && pre.reachable(rs, i) by {
                                    assert(self.free_list@.len() == 0);
                                    if !self.used(i) {
                                        assert(self.free_list@.contains(i as usize));
                                    }
                                    assert(self.used(i));
                                    assert(mid.used(i));
                                }
                            }
                            // nothing was reclaimable, so the pools are
                            // exactly as they were
                            assert forall|i: int|
                                0 <= i < pre.nodes@.len() implies #[trigger] self.nodes@[i]
                                == pre.nodes@[i] by {
                                assert(pre.used(i) && pre.reachable(rs, i));
                                assert(mid.nodes@[i] == pre.nodes@[i]);
                            }
                            assert(self.nodes@ =~= pre.nodes@);
                        }
                        Err(Error::HeapExhausted)
                    },
                }
            },
        }
    }

    /// Allocate an ordinary pair.
    pub fn cons(&mut self, pcar: Cell, pcdr: Cell, roots: &Vec<Cell>, ports: &mut PortTable) -> (r:
        Result<Cell, Error>)
        requires
            old(self).wf(),
        ensures
            final(self).wf(),
            final(ports).slots@.len() == old(ports).slots@.len(),
            forall|p: int| final(ports).spec_is_open(p) ==> old(ports).spec_is_open(p),
            final(ports).outport == old(ports).outport,
            ({
                let rs = old(self).root_ids(roots@.push(pcar).push(pcdr));
                match r {
                    Ok(c) => {
                        &&& 0 <= c.0 < old(self).nodes@.len()
                        &&& final(self).used(c.0 as int)
                        &&& !final(self).is_atom(c.0 as int)
                        &&& !final(self).is_const(c.0 as int)
                        &&& final(self).nodes@[c.0 as int].car == pcar
                        &&& final(self).nodes@[c.0 as int].cdr == pcdr
                        &&& forall|i: int|
                            0 <= i < old(self).nodes@.len() && i != c.0 as int && old(self).used(i)
                                && old(self).reachable(rs, i) ==> final(self).nodes@[i] == old(
                                self,
                            ).nodes@[i]
                        &&& Pool::alloc_post(*old(self), *final(self), rs)
                    },
                    Err(e) => {
                        &&& e == Error::HeapExhausted
                        &&& old(self).exhausted(old(self).alloc_roots(roots@, pcar, pcdr))
                        &&& final(self).nodes@ == old(self).nodes@
                        &&& final(self).vectors@ == old(self).vectors@
                    },
                }
            }),
    {
        proof {
            lemma_flag_values();
        }
        let r = self.cons3(pcar, pcdr, 0, roots, ports);
        proof {
            lemma_flag_values();
        }
        r
    }

    /// Allocate a typed atom with an immediate or node payload.
    pub fn mkatom(
        &mut self,
        t: TypeTag,
        payload: Cell,
        roots: &Vec<Cell>,
        ports: &mut PortTable,
    ) -> (r: Result<Cell, Error>)
        requires
            old(self).wf(),
        ensures
            final(self).wf(),
            final(ports).slots@.len() == old(ports).slots@.len(),
            forall|p: int| final(ports).spec_is_open(p) ==> old(ports).spec_is_open(p),
            final(ports).outport == old(ports).outport,
            ({
                let rs = old(self).root_ids(
                    roots@.push(Cell(t.spec_code())).push(payload),
                );
                match r {
                    Ok(c) => {
                        &&& 0 <= c.0 < old(self).nodes@.len()
                        &&& final(self).used(c.0 as int)
                        &&& final(self).is_atom(c.0 as int)
                        &&& !final(self).is_const(c.0 as int)
                        &&& final(self).nodes@[c.0 as int].car.0 == t.spec_code()
                        &&& final(self).nodes@[c.0 as int].cdr == payload
                        &&& forall|i: int|
                            0 <= i < old(self).nodes@.len() && i != c.0 as int && old(self).used(i)
                                && old(self).reachable(rs, i) ==> final(self).nodes@[i] == old(
                                self,
                            ).nodes@[i]
                        &&& Pool::alloc_post(*old(self), *final(self), rs)
                    },
                    Err(e) => {
                        &&& e == Error::HeapExhausted
                        &&& old(self).exhausted(
                            old(self).alloc_roots(roots@, Cell(t.spec_code()), payload),
                        )
                        &&& final(self).nodes@ == old(self).nodes@
                        &&& final(self).vectors@ == old(self).vectors@
                    },
                }
            }),
    {
        proof {
            lemma_flag_values();
        }
        let tc = Cell::type_tag(t);
        let r = self.cons3(tc, payload, ATOM_FLAG, roots, ports);
        proof {
            lemma_flag_values();
        }
        r
    }

    /// The run width backing a payload of `len` cells: at least one slot.
    pub open spec fn run_width(len: usize) -> int {
        if len == 0 {
            1
        } else {
            len as int
        }
    }

    /// Allocate a vector atom of `len` cells, every slot `fill`. A
    /// zero-length vector is padded to a one-slot run, since a run must
    /// occupy at least one slot for the table to describe it.
    ///
    /// The run is reserved first, pinned so that the collection a later
    /// node allocation may trigger cannot reclaim it, and adopted by
    /// the atom once that exists. It fails with `VectorExhausted` only
    /// when, even after a collection, no window of the needed width is
    /// free, and with `HeapExhausted` only when the node pool is empty.
    pub fn make_vector(
        &mut self,
        len: usize,
        fill: Cell,
        roots: &Vec<Cell>,
        ports: &mut PortTable,
    ) -> (r: Result<Cell, Error>)
        requires
            old(self).wf(),
        ensures
            final(self).wf(),
            final(ports).slots@.len() == old(ports).slots@.len(),
            forall|p: int| final(ports).spec_is_open(p) ==> old(ports).spec_is_open(p),
            final(ports).outport == old(ports).outport,
            match r {
                Ok(c) => {
                    &&& 0 <= c.0 < final(self).nodes@.len()
                    &&& final(self).used(c.0 as int)
                    &&& final(self).is_vector_atom(c.0 as int)
                    &&& !final(self).is_const(c.0 as int)
                    &&& exists|ri: int|
                        0 <= ri < final(self).runs@.len() && (#[trigger] final(self).runs@[ri])
                            == (VecRun {
                            start: final(self).nodes@[c.0 as int].cdr.0 as usize,
                            len: (Pool::run_width(len) as usize),
                            owner: c.0 as usize,
                            pinned: false,
                        }) && (forall|sl: int|
                            covers(final(self).runs@[ri], sl) ==> final(self).vectors@[sl] == fill)
                },
                Err(e) => e == Error::HeapExhausted || e == Error::VectorExhausted,
            },
            r == Err::<Cell, Error>(Error::VectorExhausted) ==> forall|st: int|
                0 <= st <= final(self).vectors@.len() - Pool::run_width(len)
                    ==> #[trigger] final(self).window_blocked(st, Pool::run_width(len)),
            r == Err::<Cell, Error>(Error::HeapExhausted) ==> final(self).free_list@.len() == 0,
    {
        let width = if len == 0 {
            1
        } else {
            len
        };
        let start = match self.try_alloc_run(width, fill) {
            Some(st) => st,
            None => {
                self.collect(roots, ports);
                match self.try_alloc_run(width, fill) {
                    Some(st) => st,
                    None => {
                        return Err(Error::VectorExhausted);
                    },
                }
            },
        };
        let ghost with_run = *self;
        let ghost pinned_run = VecRun { start, len: width, owner: 0, pinned: true };
        proof {
            assert(with_run.runs@[with_run.runs@.len() - 1] == pinned_run);
            assert forall|sl: int| covers(pinned_run, sl) implies with_run.vectors@[sl]
                == fill by {}
            // the run fits the pool, so its start fits a cell
            assert(start + width <= self.vectors@.len());
            assert(start <= 0x7fff_fffe);
            lemma_flag_values();
        }
        let c = match self.cons3(
            Cell::type_tag(TypeTag::Vector),
            Cell(start as i32),
            ATOM_FLAG | VECTOR_FLAG,
            roots,
            ports,
        ) {
            Ok(c) => c,
            Err(e) => {
                return Err(e);
            },
        };
        proof {
            lemma_flag_values();
            // the pinned run survived the allocation
            let rs = with_run.root_ids(
                roots@.push(Cell(TypeTag::Vector.spec_code())).push(Cell(start as i32)),
            );
            assert(with_run.runs@.contains(pinned_run));
            let r0 = choose|r0: int|
                0 <= r0 < with_run.runs@.len() && with_run.runs@[r0] == pinned_run;
            assert(self.runs@.contains(pinned_run));
            assert(self.vectors@ == with_run.vectors@);
        }
        let ri = match self.find_run(start) {
            Some(ri) => ri,
            None => {
                proof {
                    let k2 = choose|k2: int|
                        0 <= k2 < self.runs@.len() && self.runs@[k2] == pinned_run;
                    assert(self.runs@[k2].start == start);
                    assert(false);
                }
                return Err(Error::VectorExhausted);
            },
        };
        proof {
            // any run starting where ours does is ours: runs are disjoint
            let k2 = choose|k2: int| 0 <= k2 < self.runs@.len() && self.runs@[k2] == pinned_run;
            if ri as int != k2 {
                assert(runs_disjoint(self.runs@[ri as int], self.runs@[k2]));
                assert(self.run_ok(ri as int));
                assert(self.run_ok(k2));
                assert(false);
            }
        }
        self.adopt_run(ri, c.0 as usize);
        proof {
            lemma_flag_values();
            let newrun = VecRun { start, len: width, owner: c.0 as usize, pinned: false };
            assert(self.runs@[ri as int] == newrun);
            assert forall|sl: int| covers(self.runs@[ri as int], sl) implies self.vectors@[sl]
                == fill by {}
        }
        Ok(c)
    }

    /// Allocate a string atom whose run packs the given bytes, one
    /// byte per slot (a free implementation choice; round trips are
    /// byte-exact). At least one byte is required: a run must occupy a
    /// slot for the table to describe it, so the empty payload has no
    /// run to pack. Failure means genuine exhaustion: `VectorExhausted`
    /// only when no window of the needed width is free even after a
    /// collection, `HeapExhausted` only when the node pool is empty.
    pub fn make_string(&mut self, bytes: &Vec<u8>, roots: &Vec<Cell>, ports: &mut PortTable) -> (r:
        Result<Cell, Error>)
        requires
            old(self).wf(),
            1 <= bytes@.len(),
        ensures
            final(self).wf(),
            match r {
                Ok(c) => {
                    &&& 0 <= c.0 < final(self).nodes@.len()
                    &&& final(self).used(c.0 as int)
                    &&& final(self).is_atom(c.0 as int)
                    &&& final(self).nodes@[c.0 as int].car.0 == -17
                    &&& exists|ri: int|
                        0 <= ri < final(self).runs@.len() && (#[trigger] final(self).runs@[ri])
                            == (VecRun {
                            start: final(self).nodes@[c.0 as int].cdr.0 as usize,
                            len: bytes@.len() as usize,
                            owner: c.0 as usize,
                            pinned: false,
                        }) && (forall|k: int|
                            0 <= k < bytes@.len() ==> (#[trigger] final(self).vectors@[final(self).runs@[ri].start + k]).0 == bytes@[k] as i32)
                },
                Err(e) => e == Error::HeapExhausted || e == Error::VectorExhausted,
            },
            r == Err::<Cell, Error>(Error::VectorExhausted) ==> forall|st: int|
                0 <= st <= final(self).vectors@.len() - bytes@.len()
                    ==> #[trigger] final(self).window_blocked(st, bytes@.len() as int),
            r == Err::<Cell, Error>(Error::HeapExhausted) ==> final(self).free_list@.len() == 0,
    {
        let start = match self.try_alloc_run(bytes.len(), Cell(0)) {
            Some(st) => st,
            None => {
                self.collect(roots, ports);
                match self.try_alloc_run(bytes.len(), Cell(0)) {
                    Some(st) => st,
                    None => {
                        return Err(Error::VectorExhausted);
                    },
                }
            },
        };
        let ghost pre_write = *self;
        let mut k: usize = 0;
        while k < bytes.len()
            invariant
                pre_write.wf(),
                start + bytes@.len() <= pre_write.vectors@.len(),
                k <= bytes@.len(),
                self.nodes@ == pre_write.nodes@,
                self.free_list@ == pre_write.free_list@,
                self.runs@ == pre_write.runs@,
                self.vec_used@ == pre_write.vec_used@,
                self.vectors@.len() == pre_write.vectors@.len(),
                forall|k2: int|
                    0 <= k2 < k ==> (#[trigger] self.vectors@[start + k2]).0 == bytes@[k2] as i32,
            decreases bytes@.len() - k,
        {
            self.vectors.set(start + k, Cell(bytes[k] as i32));
            k = k + 1;
        }
        proof {
            Pool::lemma_wf_nodes_same(pre_write, *self);
            Pool::lemma_wf_vec_same(pre_write, *self);
        }
        let ghost with_run = *self;
        let ghost pinned_run = VecRun { start, len: bytes@.len() as usize, owner: 0, pinned: true };
        proof {
            assert(with_run.runs@[with_run.runs@.len() - 1] == pinned_run);
            // the run fits the pool, so its start fits a cell
            assert(start + bytes@.len() <= self.vectors@.len());
            assert(start <= 0x7fff_fffe);
            lemma_flag_values();
        }
        let c = match self.cons3(
            Cell::type_tag(TypeTag::String),
            Cell(start as i32),
            ATOM_FLAG | VECTOR_FLAG,
            roots,
            ports,
        ) {
            Ok(c) => c,
            Err(e) => {
                return Err(e);
            },
        };
        proof {
            lemma_flag_values();
            assert(with_run.runs@.contains(pinned_run));
            assert(self.runs@.contains(pinned_run));
            assert(self.vectors@ == with_run.vectors@);
        }
        let ri = match self.find_run(start) {
            Some(ri) => ri,
            None => {
                proof {
                    let k2 = choose|k2: int|
                        0 <= k2 < self.runs@.len() && self.runs@[k2] == pinned_run;
                    assert(self.runs@[k2].start == start);
                    assert(false);
                }
                return Err(Error::VectorExhausted);
            },
        };
        proof {
            let k2 = choose|k2: int| 0 <= k2 < self.runs@.len() && self.runs@[k2] == pinned_run;
            if ri as int != k2 {
                assert(runs_disjoint(self.runs@[ri as int], self.runs@[k2]));
                assert(self.run_ok(ri as int));
                assert(self.run_ok(k2));
                assert(false);
            }
        }
        self.adopt_run(ri, c.0 as usize);
        proof {
            let newrun = VecRun {
                start,
                len: bytes@.len() as usize,
                owner: c.0 as usize,
                pinned: false,
            };
            assert(self.runs@[ri as int] == newrun);
            assert forall|k2: int| 0 <= k2 < bytes@.len() implies (#[trigger] self.vectors@[start
                + k2]).0 == bytes@[k2] as i32 by {}
        }
        Ok(c)
    }

    /// The byte payload of a string or symbol atom, copied out.
    pub fn string(&self, n: usize) -> (r: Result<Vec<u8>, Error>)
        requires
            self.wf(),
            n < self.nodes@.len(),
        ensures
            match r {
                Ok(bytes) => {
                    &&& self.is_atom(n as int)
                    &&& (self.nodes@[n as int].car.0 == -17 || self.nodes@[n as int].car.0 == -18)
                    &&& exists|ri: int|
                        0 <= ri < self.runs@.len() && (#[trigger] self.runs@[ri]).start as i32
                            == self.nodes@[n as int].cdr.0 && bytes@.len() == self.runs@[ri].len
                            && (forall|k: int|
                            0 <= k < bytes@.len() ==> bytes@[k] == self.vectors@[self.runs@[ri].start
                                + k].0 as u8)
                },
                Err(e) => e == Error::TypeError || e == Error::RangeError,
            },
            (self.is_atom(n as int) && (self.nodes@[n as int].car.0 == -17
                || self.nodes@[n as int].car.0 == -18) && self.nodes@[n as int].cdr.0 >= 0
                && self.has_run_at(self.nodes@[n as int].cdr.0 as int)) ==> r is Ok,
    {
        let nd = self.nodes[n];
        if !nd.tag.has_flag(ATOM_FLAG) || (nd.car.0 != -17 && nd.car.0 != -18) {
            return Err(Error::TypeError);
        }
        if nd.cdr.0 < 0 {
            return Err(Error::RangeError);
        }
        let start = nd.cdr.0 as usize;
        let ri = match self.find_run(start) {
            Some(ri) => ri,
            None => {
                proof {
                    if self.has_run_at(nd.cdr.0 as int) {
                        let ri2 = choose|ri2: int|
                            0 <= ri2 < self.runs@.len() && (#[trigger] self.runs@[ri2]).start
                                as int == nd.cdr.0 as int;
                        assert(false);
                    }
                }
                return Err(Error::RangeError);
            },
        };
        let run = self.runs[ri];
        proof {
            assert(self.run_ok(ri as int));
        }
        let mut bytes: Vec<u8> = Vec::new();
        let mut k: usize = 0;
        while k < run.len
            invariant
                self.wf(),
                ri < self.runs@.len(),
                run == self.runs@[ri as int],
                run.start + run.len <= self.vectors@.len(),
                k <= run.len,
                bytes@.len() == k,
                forall|k2: int|
                    0 <= k2 < k ==> (#[trigger] bytes@[k2]) == self.vectors@[run.start + k2].0
                        as u8,
            decreases run.len - k,
        {
            bytes.push(self.vectors[run.start + k].0 as u8);
            k = k + 1;
        }
        Ok(bytes)
    }
}

} // verus!
