//! Heap image: a self-describing snapshot of the whole heap state.
//!
//! The image holds a magic word, a format version, the pool sizes, the
//! nodes, the vector slots and the run table. The free list and the
//! slot bitmap are derived state and are rebuilt on load. A mismatched
//! magic, version or size, an overlapping run table, or a node carrying
//! transient collector bits is rejected as a format error before any of
//! it reaches a live heap.

use vstd::prelude::*;

use crate::cell::Cell;
use crate::error::Error;
use crate::pool::covers;
use crate::pool::runs_disjoint;
use crate::pool::Node;
use crate::pool::Pool;
use crate::pool::VecRun;
use crate::tag::Tag;
use crate::tag::MARK_FLAG;
use crate::tag::TRAV_FLAG;
use crate::tag::USED_FLAG;

verus! {

/// Magic word identifying a heap image.
pub const IMAGE_MAGIC: i32 = 0x4c533943;

/// Format version of the image layout.
pub const IMAGE_VERSION: i32 = 1;

/// Number of header words.
pub const HEADER_LEN: usize = 5;

/// The words of `data` describe exactly the pool `p` (the free list and
/// bitmap are derived and not part of the image).
pub open spec fn image_of(p: Pool, data: Seq<i32>) -> bool {
    &&& data.len() == HEADER_LEN + 3 * p.nodes@.len() + p.vectors@.len() + 4 * p.runs@.len()
    &&& data[0] == IMAGE_MAGIC
    &&& data[1] == IMAGE_VERSION
    &&& data[2] == p.nodes@.len()
    &&& data[3] == p.vectors@.len()
    &&& data[4] == p.runs@.len()
    &&& forall|i: int|
        0 <= i < p.nodes@.len() ==> ((#[trigger] p.nodes@[i]).car.0 == data[HEADER_LEN + 3 * i]
            && p.nodes@[i].cdr.0 == data[HEADER_LEN + 3 * i + 1] && p.nodes@[i].tag.0 == data[
            HEADER_LEN + 3 * i + 2])
    &&& forall|s: int|
        0 <= s < p.vectors@.len() ==> (#[trigger] p.vectors@[s]).0 == data[HEADER_LEN + 3
            * p.nodes@.len() + s]
    &&& forall|r: int|
        0 <= r < p.runs@.len() ==> {
            let base = HEADER_LEN + 3 * p.nodes@.len() + p.vectors@.len() + 4 * r;
            &&& (#[trigger] p.runs@[r]).start == data[base]
            &&& p.runs@[r].len == data[base + 1]
            &&& p.runs@[r].owner == data[base + 2]
            &&& p.runs@[r].pinned == (data[base + 3] == 1)
        }
}

/// Two pools described by the same image hold the same nodes, vector
/// slots and runs, and so evaluate identically.
pub proof fn lemma_image_round_trip(p: Pool, q: Pool, data: Seq<i32>)
    requires
        image_of(p, data),
        image_of(q, data),
    ensures
        p.nodes@ == q.nodes@,
        p.vectors@ == q.vectors@,
        p.runs@ == q.runs@,
{
    assert forall|i: int| 0 <= i < p.nodes@.len() implies #[trigger] p.nodes@[i] == q.nodes@[i] by {
        assert(q.nodes@[i].car.0 == data[HEADER_LEN + 3 * i]);
    }
    assert(p.nodes@ =~= q.nodes@);
    assert forall|s: int|
        0 <= s < p.vectors@.len() implies #[trigger] p.vectors@[s] == q.vectors@[s] by {
        assert(q.vectors@[s].0 == data[HEADER_LEN + 3 * p.nodes@.len() + s]);
    }
    assert(p.vectors@ =~= q.vectors@);
    assert forall|r: int| 0 <= r < p.runs@.len() implies #[trigger] p.runs@[r] == q.runs@[r] by {
        let base = HEADER_LEN + 3 * p.nodes@.len() + p.vectors@.len() + 4 * r;
        assert(q.runs@[r].start == data[base]);
    }
    assert(p.runs@ =~= q.runs@);
}

impl Pool {
    /// Serialize the whole heap into one word stream.
    pub fn dump_image(&self) -> (r: Result<Vec<i32>, Error>)
        requires
            self.wf(),
        ensures
            match r {
                Ok(data) => image_of(*self, data@),
                Err(e) => e == Error::BadImage && (self.nodes@.len() > 0x0fff_ffff
                    || self.vectors@.len() > 0x0fff_ffff || self.runs@.len() > 0x0fff_ffff),
            },
            (self.nodes@.len() <= 0x0fff_ffff && self.vectors@.len() <= 0x0fff_ffff
                && self.runs@.len() <= 0x0fff_ffff) ==> r is Ok,
    {
        if self.nodes.len() > 0x0fff_ffff || self.vectors.len() > 0x0fff_ffff || self.runs.len()
            > 0x0fff_ffff {
            return Err(Error::BadImage);
        }
        let mut data: Vec<i32> = Vec::new();
        data.push(IMAGE_MAGIC);
        data.push(IMAGE_VERSION);
        data.push(self.nodes.len() as i32);
        data.push(self.vectors.len() as i32);
        data.push(self.runs.len() as i32);
        let mut i: usize = 0;
        while i < self.nodes.len()
            invariant
                self.wf(),
                i <= self.nodes@.len(),
                data@.len() == HEADER_LEN + 3 * i,
                data@[0] == IMAGE_MAGIC,
                data@[1] == IMAGE_VERSION,
                data@[2] == self.nodes@.len(),
                data@[3] == self.vectors@.len(),
                data@[4] == self.runs@.len(),
                forall|i2: int|
                    0 <= i2 < i ==> ((#[trigger] self.nodes@[i2]).car.0 == data@[HEADER_LEN + 3
                        * i2] && self.nodes@[i2].cdr.0 == data@[HEADER_LEN + 3 * i2 + 1]
                        && self.nodes@[i2].tag.0 == data@[HEADER_LEN + 3 * i2 + 2]),
            decreases self.nodes@.len() - i,
        {
            let nd = self.nodes[i];
            data.push(nd.car.0);
            data.push(nd.cdr.0);
            data.push(nd.tag.0 as i32);
            i = i + 1;
        }
        let ghost nodes_part = data@;
        let mut s: usize = 0;
        while s < self.vectors.len()
            invariant
                self.wf(),
                s <= self.vectors@.len(),
                data@.len() == HEADER_LEN + 3 * self.nodes@.len() + s,
                data@.take((HEADER_LEN + 3 * self.nodes@.len()) as int) == nodes_part,
                nodes_part.len() == HEADER_LEN + 3 * self.nodes@.len(),
                forall|s2: int|
                    0 <= s2 < s ==> (#[trigger] self.vectors@[s2]).0 == data@[HEADER_LEN + 3
                        * self.nodes@.len() + s2],
            decreases self.vectors@.len() - s,
        {
            data.push(self.vectors[s].0);
            proof {
                assert(data@.take((HEADER_LEN + 3 * self.nodes@.len()) as int) =~= nodes_part);
            }
            s = s + 1;
        }
        let ghost vec_part = data@;
        let mut r: usize = 0;
        while r < self.runs.len()
            invariant
                self.wf(),
                r <= self.runs@.len(),
                forall|q: int| 0 <= q < self.runs@.len() ==> self.run_ok(q),
                data@.len() == HEADER_LEN + 3 * self.nodes@.len() + self.vectors@.len() + 4 * r,
                data@.take(
                    (HEADER_LEN + 3 * self.nodes@.len() + self.vectors@.len()) as int,
                ) == vec_part,
                vec_part.len() == HEADER_LEN + 3 * self.nodes@.len() + self.vectors@.len(),
                forall|r2: int|
                    0 <= r2 < r ==> {
                        let base = HEADER_LEN + 3 * self.nodes@.len() + self.vectors@.len() + 4
                            * r2;
                        &&& (#[trigger] self.runs@[r2]).start == data@[base]
                        &&& self.runs@[r2].len == data@[base + 1]
                        &&& self.runs@[r2].owner == data@[base + 2]
                        &&& self.runs@[r2].pinned == (data@[base + 3] == 1i32)
                    },
            decreases self.runs@.len() - r,
        {
            let run = self.runs[r];
            proof {
                assert(self.run_ok(r as int));
            }
            data.push(run.start as i32);
            data.push(run.len as i32);
            data.push(run.owner as i32);
            data.push(
                if run.pinned {
                    1
                } else {
                    0
                },
            );
            proof {
                assert(data@.take(
                    (HEADER_LEN + 3 * self.nodes@.len() + self.vectors@.len()) as int,
                ) =~= vec_part);
            }
            r = r + 1;
        }
        proof {
            assert forall|i2: int|
                0 <= i2 < self.nodes@.len() implies ((#[trigger] self.nodes@[i2]).car.0 == data@[
                HEADER_LEN + 3 * i2] && self.nodes@[i2].cdr.0 == data@[HEADER_LEN + 3 * i2 + 1]
                && self.nodes@[i2].tag.0 == data@[HEADER_LEN + 3 * i2 + 2]) by {
                assert(nodes_part[HEADER_LEN + 3 * i2] == data@[HEADER_LEN + 3 * i2]);
                assert(nodes_part[HEADER_LEN + 3 * i2 + 1] == data@[HEADER_LEN + 3 * i2 + 1]);
                assert(nodes_part[HEADER_LEN + 3 * i2 + 2] == data@[HEADER_LEN + 3 * i2 + 2]);
            }
            assert forall|s2: int|
                0 <= s2 < self.vectors@.len() implies (#[trigger] self.vectors@[s2]).0 == data@[
                HEADER_LEN + 3 * self.nodes@.len() + s2] by {
                assert(vec_part[HEADER_LEN + 3 * self.nodes@.len() + s2] == data@[HEADER_LEN + 3
                    * self.nodes@.len() + s2]);
            }
        }
        Ok(data)
    }
}

/// Rebuild a heap from an image, validating everything: magic, version,
/// sizes, clean transient bits, and a sane, non-overlapping run table.
/// The free list and the slot bitmap are derived from the loaded data.
/// A malformed image is rejected whole: there is no partial load.
#[verifier::rlimit(100)]
pub fn load_image(data: &Vec<i32>) -> (r: Result<Pool, Error>)
    ensures
        match r {
            Ok(q) => q.wf() && image_of(q, data@),
            Err(e) => e == Error::BadImage,
        },
{
    if data.len() < HEADER_LEN {
        return Err(Error::BadImage);
    }
    if data[0] != IMAGE_MAGIC || data[1] != IMAGE_VERSION {
        return Err(Error::BadImage);
    }
    if data[2] < 0 || data[2] > 0x0fff_ffff || data[3] < 0 || data[3] > 0x0fff_ffff || data[4] < 0
        || data[4] > 0x0fff_ffff {
        return Err(Error::BadImage);
    }
    let n = data[2] as usize;
    let v = data[3] as usize;
    let nr = data[4] as usize;
    if data.len() != HEADER_LEN + 3 * n + v + 4 * nr {
        return Err(Error::BadImage);
    }
    let mut nodes: Vec<Node> = Vec::new();
    let mut free_list: Vec<usize> = Vec::new();
    let mut i: usize = 0;
    while i < n
        invariant
            data@.len() == HEADER_LEN + 3 * n + v + 4 * nr,
            i <= n,
            n <= 0x0fff_ffff,
            nodes@.len() == i,
            forall|i2: int|
                0 <= i2 < i ==> ((#[trigger] nodes@[i2]).car.0 == data@[HEADER_LEN + 3 * i2]
                    && nodes@[i2].cdr.0 == data@[HEADER_LEN + 3 * i2 + 1] && nodes@[i2].tag.0
                    == data@[HEADER_LEN + 3 * i2 + 2]),
            forall|i2: int|
                0 <= i2 < i ==> ((#[trigger] nodes@[i2]).tag.0 & MARK_FLAG == 0 && nodes@[i2].tag.0
                    & TRAV_FLAG == 0),
            forall|k: int|
                0 <= k < free_list@.len() ==> ((#[trigger] free_list@[k]) < i && nodes@[free_list@[k] as int].tag.0
                    & USED_FLAG == 0),
            forall|k1: int, k2: int|
                0 <= k1 < k2 < free_list@.len() ==> free_list@[k1] < free_list@[k2],
            forall|i2: int|
                0 <= i2 < i && (#[trigger] nodes@[i2]).tag.0 & USED_FLAG == 0
                    ==> free_list@.contains(i2 as usize),
        decreases n - i,
    {
        let car = data[HEADER_LEN + 3 * i];
        let cdr = data[HEADER_LEN + 3 * i + 1];
        let tagw = data[HEADER_LEN + 3 * i + 2];
        if tagw < 0 || tagw > 255 {
            return Err(Error::BadImage);
        }
        let t = tagw as u8;
        if t & MARK_FLAG != 0 || t & TRAV_FLAG != 0 {
            return Err(Error::BadImage);
        }
        let ghost fl0 = free_list@;
        if t & USED_FLAG == 0 {
            free_list.push(i);
        }
        nodes.push(Node { car: Cell(car), cdr: Cell(cdr), tag: Tag(t) });
        proof {
            assert forall|i2: int|
                0 <= i2 < i + 1 && (#[trigger] nodes@[i2]).tag.0 & USED_FLAG == 0
                    implies free_list@.contains(i2 as usize) by {
                if i2 < i as int {
                    let k = choose|k: int| 0 <= k < fl0.len() && fl0[k] == i2 as usize;
                    assert(free_list@[k] == i2 as usize);
                } else {
                    assert(free_list@[free_list@.len() - 1] == i as usize);
                }
            }
        }
        i = i + 1;
    }
    let mut vectors: Vec<Cell> = Vec::new();
    let mut vec_used: Vec<bool> = Vec::new();
    let mut sl: usize = 0;
    while sl < v
        invariant
            data@.len() == HEADER_LEN + 3 * n + v + 4 * nr,
            sl <= v,
            n <= 0x0fff_ffff,
            v <= 0x0fff_ffff,
            nr <= 0x0fff_ffff,
            nodes@.len() == n,
            vectors@.len() == sl,
            vec_used@.len() == sl,
            forall|s2: int|
                0 <= s2 < sl ==> (#[trigger] vectors@[s2]).0 == data@[HEADER_LEN + 3 * n + s2],
            forall|s2: int| 0 <= s2 < sl ==> !(#[trigger] vec_used@[s2]),
        decreases v - sl,
    {
        vectors.push(Cell(data[HEADER_LEN + 3 * n + sl]));
        vec_used.push(false);
        sl = sl + 1;
    }
    let mut runs: Vec<VecRun> = Vec::new();
    let mut r2: usize = 0;
    while r2 < nr
        invariant
            data@.len() == HEADER_LEN + 3 * n + v + 4 * nr,
            r2 <= nr,
            n <= 0x0fff_ffff,
            v <= 0x0fff_ffff,
            nr <= 0x0fff_ffff,
            nodes@.len() == n,
            vectors@.len() == v,
            vec_used@.len() == v,
            runs@.len() == r2,
            forall|q: int|
                0 <= q < r2 ==> {
                    let base = HEADER_LEN + 3 * n + v + 4 * q;
                    &&& (#[trigger] runs@[q]).start == data@[base]
                    &&& runs@[q].len == data@[base + 1]
                    &&& runs@[q].owner == data@[base + 2]
                    &&& runs@[q].pinned == (data@[base + 3] == 1i32)
                },
            forall|q: int|
                0 <= q < r2 ==> ((#[trigger] runs@[q]).start + runs@[q].len <= v && runs@[q].len
                    >= 1 && (runs@[q].pinned || (runs@[q].owner as int) < n)),
            forall|q1: int, q2: int|
                0 <= q1 < r2 && 0 <= q2 < r2 && q1 != q2 ==> runs_disjoint(runs@[q1], runs@[q2]),
            forall|s2: int|
                0 <= s2 < v ==> ((#[trigger] vec_used@[s2]) <==> exists|q: int|
                    0 <= q < r2 && covers(#[trigger] runs@[q], s2)),
        decreases nr - r2,
    {
        let base = HEADER_LEN + 3 * n + v + 4 * r2;
        let st = data[base];
        let ln = data[base + 1];
        let ow = data[base + 2];
        let pn = data[base + 3];
        if st < 0 || ln < 1 || ow < 0 {
            return Err(Error::BadImage);
        }
        let stu = st as usize;
        let lnu = ln as usize;
        if stu > v || lnu > v - stu {
            return Err(Error::BadImage);
        }
        let pinned = pn == 1;
        if !pinned && (ow as usize) >= n {
            return Err(Error::BadImage);
        }
        let newrun = VecRun { start: stu, len: lnu, owner: ow as usize, pinned };
        let mut q: usize = 0;
        while q < runs.len()
            invariant
                q <= runs@.len(),
                v <= 0x0fff_ffff,
                stu + lnu <= v,
                newrun.start == stu,
                newrun.len == lnu,
                forall|q3: int|
                    0 <= q3 < runs@.len() ==> (#[trigger] runs@[q3]).start + runs@[q3].len <= v,
                forall|q2: int| 0 <= q2 < q ==> runs_disjoint(#[trigger] runs@[q2], newrun),
            decreases runs@.len() - q,
        {
            let other = runs[q];
            if !(stu + lnu <= other.start || other.start + other.len <= stu) {
                return Err(Error::BadImage);
            }
            proof {
                assert(runs_disjoint(runs@[q as int], newrun));
            }
            q = q + 1;
        }
        let ghost vu0 = vec_used@;
        let mut s3: usize = stu;
        while s3 < stu + lnu
            invariant
                vec_used@.len() == v,
                stu + lnu <= v,
                stu <= s3 <= stu + lnu,
                vu0.len() == v,
                forall|s2: int|
                    0 <= s2 < v ==> (#[trigger] vec_used@[s2]) == (vu0[s2] || (stu <= s2 < s3)),
            decreases stu + lnu - s3,
        {
            vec_used.set(s3, true);
            s3 = s3 + 1;
        }
        let ghost runs0 = runs@;
        runs.push(newrun);
        proof {
            assert forall|s2: int| 0 <= s2 < v implies ((#[trigger] vec_used@[s2]) <==> exists|
                q2: int,
            | 0 <= q2 < r2 + 1 && covers(#[trigger] runs@[q2], s2)) by {
                if vec_used@[s2] {
                    if vu0[s2] {
                        let q2 = choose|q2: int|
                            0 <= q2 < r2 && covers(#[trigger] runs0[q2], s2);
                        assert(covers(runs@[q2], s2));
                    } else {
                        assert(covers(newrun, s2));
                        assert(runs@[r2 as int] == newrun);
                    }
                } else {
                    assert(!(stu <= s2 < stu + lnu));
                    if exists|q2: int| 0 <= q2 < r2 + 1 && covers(#[trigger] runs@[q2], s2) {
                        let q2 = choose|q2: int|
                            0 <= q2 < r2 + 1 && covers(#[trigger] runs@[q2], s2);
                        if q2 < r2 as int {
                            assert(covers(runs0[q2], s2));
                            assert(vu0[s2]);
                        } else {
                            assert(covers(newrun, s2));
                        }
                    }
                }
            }
        }
        r2 = r2 + 1;
    }
    let ghost lruns = runs@;
    let ghost lvu = vec_used@;
    let q = Pool { nodes, free_list, vectors, vec_used, runs };
    proof {
        assert forall|s2: int| 0 <= s2 < q.vectors@.len() implies ((#[trigger] q.vec_used@[s2])
            <==> exists|r3: int|
            0 <= r3 < q.runs@.len() && covers(#[trigger] q.runs@[r3], s2)) by {
            if q.vec_used@[s2] {
                assert(lvu[s2]);
                let r3 = choose|r3: int| 0 <= r3 < nr && covers(#[trigger] lruns[r3], s2);
                assert(covers(q.runs@[r3], s2));
            } else {
                if exists|r3: int| 0 <= r3 < q.runs@.len() && covers(#[trigger] q.runs@[r3], s2) {
                    let r3 = choose|r3: int|
                        0 <= r3 < q.runs@.len() && covers(#[trigger] q.runs@[r3], s2);
                    assert(covers(lruns[r3], s2));
                    assert(lvu[s2]);
                }
            }
        }
        assert forall|k: int| 0 <= k < q.free_list@.len() implies !q.used(
            #[trigger] q.free_list@[k] as int,
        ) by {
            assert(q.nodes@[q.free_list@[k] as int].tag.0 & USED_FLAG == 0);
        }
        assert forall|i2: int| 0 <= i2 < q.n() && !(#[trigger] q.used(i2)) implies q
            .free_list@.contains(i2 as usize) by {
            assert(q.nodes@[i2].tag.0 & USED_FLAG == 0);
        }
        assert forall|r3: int| 0 <= r3 < q.runs@.len() implies q.run_ok(r3) by {
            assert(q.runs@[r3].start + q.runs@[r3].len <= v);
        }
    }
    Ok(q)
}

} // verus!
