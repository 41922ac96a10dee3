//! The bytecode virtual machine: a fetch-decode-execute loop over an
//! instruction stream, with an operand stack, environment frames in the
//! heap, closures, proper tail calls and escape-only continuations.
//!
//! Failure semantics: type, range, resource and control errors are
//! raised as `Error` values; the driver unwinds them like a throw with
//! the well-known top-level error tag, and terminates the run when no
//! catch record matches, which is also what happens while compiled
//! code installs only plain catch tags.

use vstd::prelude::*;

use crate::cell::Cell;
use crate::cell::TypeTag;
use crate::error::Error;
use crate::pool::Node;
use crate::pool::Pool;
use crate::ports::set_outport;
use crate::ports::Outport;
use crate::ports::PortTable;
use crate::tag::ATOM_FLAG;
use crate::tag::CONST_FLAG;
use crate::tag::USED_FLAG;

verus! {

/// One abstract-machine instruction, with its immediate operand.
#[derive(Debug, Clone, Copy, PartialEq, Eq, Structural)]
pub enum Instr {
    /// Push a literal from the literal table.
    Quote(usize),
    /// Push the true singleton.
    Pushtrue,
    /// Remove the top of the operand stack.
    Pop,
    /// Unconditional jump.
    Jmp(usize),
    /// Pop; jump when the popped value is the empty list.
    Brf(usize),
    /// Pop; jump when the popped value is not the empty list.
    Brt(usize),
    /// Stop, returning the top of the stack.
    Halt,
    /// Pop `n` values into a fresh argument frame; push the frame.
    Mkenv(usize),
    /// Pop an argument frame and enter it as the current scope.
    Enter,
    /// Push argument `i` of the current frame.
    Arg(usize),
    /// Push binding `(depth, index)` of the environment chain.
    Ref(usize, usize),
    /// Pop a value into argument `i` of the current frame.
    Setarg(usize),
    /// Package the given code address with the current environment.
    Closure(usize),
    /// Pop frame and closure; call, pushing a return frame.
    Apply,
    /// Pop frame and closure; call, reusing the current return frame.
    Tailapp,
    /// Pop the current return frame and resume the caller.
    Return,
    /// Install a catch record resuming at the given address; push its
    /// fresh tag.
    Catchstar(usize),
    /// Pop a value and a tag; unwind to the matching catch record.
    Throwstar,
    /// Pop a pair; push its head.
    Car,
    /// Pop a pair; push its tail.
    Cdr,
    /// Pop tail and head; push a fresh pair.
    Cons,
    /// Pop value and pair; replace the pair's head; push the pair.
    Setcar,
    /// Pop value and pair; replace the pair's tail; push the pair.
    Setcdr,
    /// Pop two numbers; push their sum.
    Plus,
    /// Pop two numbers; push their difference.
    Minus,
    /// Pop two numbers; push whether they are equal.
    Equal,
    /// Pop a value; push whether it is the empty list.
    Null,
    /// Pop two values; push whether they are the same cell.
    Eq,
    /// Pop a value; push whether it is a number.
    Fixp,
    /// Pop a port atom; close its slot.
    Closeport,
    /// Pop a number; select the output destination.
    Setoutport,
    /// Collect garbage now; push the empty list.
    Gc,
}

/// A saved return point: where to resume and in which environment.
#[derive(Debug, Clone, Copy, PartialEq, Eq, Structural)]
pub struct Frame {
    pub ret_ip: usize,
    pub env: Cell,
}

/// A catch record: the tag, the depths and environment to restore, and
/// the resume address.
#[derive(Debug, Clone, Copy, PartialEq, Eq, Structural)]
pub struct CatchRec {
    pub tag: Cell,
    pub stack_len: usize,
    pub frames_len: usize,
    pub env: Cell,
    pub resume: usize,
}

/// The well-known top-level tag that error conditions are thrown with.
pub const ERROR_TAG_CODE: i32 = -2;

/// The machine: heap, ports, code, literals and the execution registers.
pub struct Vm {
    pub pool: Pool,
    pub ports: PortTable,
    pub program: Vec<Instr>,
    pub lits: Vec<Cell>,
    pub ip: usize,
    pub stack: Vec<Cell>,
    pub env: Cell,
    pub frames: Vec<Frame>,
    pub catches: Vec<CatchRec>,
}

impl Vm {
    /// Machine invariant: the heap is well formed.
    pub open spec fn wf(self) -> bool {
        self.pool.wf()
    }

    /// A fresh machine over the given code and literals.
    pub fn new(pool: Pool, ports: PortTable, program: Vec<Instr>, lits: Vec<Cell>) -> (r: Vm)
        requires
            pool.wf(),
        ensures
            r.wf(),
            r.program@ == program@,
            r.lits@ == lits@,
            r.ip == 0,
            r.stack@.len() == 0,
            r.env.0 == -1,
            r.frames@.len() == 0,
            r.catches@.len() == 0,
    {
        Vm {
            pool,
            ports,
            program,
            lits,
            ip: 0,
            stack: Vec::new(),
            env: Cell(-1),
            frames: Vec::new(),
            catches: Vec::new(),
        }
    }

    /// Every cell the collector must treat as live: the operand stack,
    /// the environment, the literal table, the catch records' tags and
    /// environments, and the saved frames' environments.
    fn gather_roots(&self) -> (r: Vec<Cell>)
    {
        let mut r: Vec<Cell> = Vec::new();
        let mut k: usize = 0;
        while k < self.stack.len()
            decreases self.stack@.len() - k,
        {
            r.push(self.stack[k]);
            k = k + 1;
        }
        r.push(self.env);
        let mut k2: usize = 0;
        while k2 < self.lits.len()
            decreases self.lits@.len() - k2,
        {
            r.push(self.lits[k2]);
            k2 = k2 + 1;
        }
        let mut k3: usize = 0;
        while k3 < self.catches.len()
            decreases self.catches@.len() - k3,
        {
            r.push(self.catches[k3].tag);
            r.push(self.catches[k3].env);
            k3 = k3 + 1;
        }
        let mut k4: usize = 0;
        while k4 < self.frames.len()
            decreases self.frames@.len() - k4,
        {
            r.push(self.frames[k4].env);
            k4 = k4 + 1;
        }
        r
    }

    /// Unwind to the topmost catch record carrying `tag`, restoring
    /// exactly the recorded stack depth, frame depth, environment and
    /// resume point, discarding every record above it, and pushing the
    /// thrown value; fail with a control error when no record matches.
    pub fn do_throw(&mut self, tag: Cell, val: Cell) -> (r: Result<(), Error>)
        ensures
            final(self).pool == old(self).pool,
            final(self).ports == old(self).ports,
            final(self).program@ == old(self).program@,
            final(self).lits@ == old(self).lits@,
            match r {
                Ok(_) => exists|k: int|
                    {
                        &&& 0 <= k < old(self).catches@.len()
                        &&& (#[trigger] old(self).catches@[k]).tag == tag
                        &&& forall|k2: int|
                            k < k2 < old(self).catches@.len() ==> (#[trigger] old(
                                self,
                            ).catches@[k2]).tag != tag
                        &&& final(self).catches@ == old(self).catches@.take(k)
                        &&& final(self).stack@ == (if old(self).catches@[k].stack_len <= old(
                            self,
                        ).stack@.len() {
                            old(self).stack@.take(old(self).catches@[k].stack_len as int)
                        } else {
                            old(self).stack@
                        }).push(val)
                        &&& final(self).frames@ == (if old(self).catches@[k].frames_len <= old(
                            self,
                        ).frames@.len() {
                            old(self).frames@.take(old(self).catches@[k].frames_len as int)
                        } else {
                            old(self).frames@
                        })
                        &&& final(self).env == old(self).catches@[k].env
                        &&& final(self).ip == old(self).catches@[k].resume
                    },
                Err(e) => {
                    &&& e == Error::UncaughtThrow
                    &&& forall|k: int|
                        0 <= k < old(self).catches@.len() ==> (#[trigger] old(
                            self,
                        ).catches@[k]).tag != tag
                    &&& *final(self) == *old(self)
                },
            },
    {
        let mut k: usize = self.catches.len();
        while k > 0
            invariant
                *self == *old(self),
                k <= self.catches@.len(),
                forall|k2: int|
                    k <= k2 < self.catches@.len() ==> (#[trigger] self.catches@[k2]).tag != tag,
            decreases k,
        {
            k = k - 1;
            if self.catches[k].tag == tag {
                let rec = self.catches[k];
                self.catches.truncate(k);
                if rec.stack_len <= self.stack.len() {
                    self.stack.truncate(rec.stack_len);
                }
                self.stack.push(val);
                if rec.frames_len <= self.frames.len() {
                    self.frames.truncate(rec.frames_len);
                }
                self.env = rec.env;
                self.ip = rec.resume;
                proof {
                    assert(old(self).catches@[k as int].tag == tag);
                    assert(final(self).catches@ == old(self).catches@.take(k as int));
                }
                return Ok(());
            }
        }
        Err(Error::UncaughtThrow)
    }

    /// Read a fixnum atom's payload, or fail with a type error.
    fn fixnum_of(&self, c: Cell) -> (r: Result<i32, Error>)
        requires
            self.wf(),
        ensures
            match r {
                Ok(v) => {
                    &&& 0 <= c.0 < self.pool.nodes@.len()
                    &&& self.pool.used(c.0 as int)
                    &&& self.pool.is_atom(c.0 as int)
                    &&& self.pool.nodes@[c.0 as int].car.0 == -14
                    &&& v == self.pool.nodes@[c.0 as int].cdr.0
                },
                Err(e) => e == Error::TypeError && !is_fixnum(self.pool, c),
            },
    {
        if c.0 < 0 || (c.0 as usize) >= self.pool.nodes.len() {
            return Err(Error::TypeError);
        }
        let i = c.0 as usize;
        let nd = self.pool.nodes[i];
        if !nd.tag.has_flag(USED_FLAG) || !nd.tag.has_flag(ATOM_FLAG) || nd.car.0 != -14 {
            return Err(Error::TypeError);
        }
        Ok(nd.cdr.0)
    }

    /// Read one field of a pair, or fail with a type error: taking the
    /// head or tail of anything that is not an allocated pair (the
    /// empty list included) is rejected, never defaulted.
    fn pair_field(&self, c: Cell, head: bool) -> (r: Result<Cell, Error>)
        requires
            self.wf(),
        ensures
            match r {
                Ok(v) => {
                    &&& 0 <= c.0 < self.pool.nodes@.len()
                    &&& self.pool.used(c.0 as int)
                    &&& !self.pool.is_atom(c.0 as int)
                    &&& v == (if head {
                        self.pool.nodes@[c.0 as int].car
                    } else {
                        self.pool.nodes@[c.0 as int].cdr
                    })
                },
                Err(e) => e == Error::TypeError && !is_pair_cell(self.pool, c),
            },
    {
        if c.0 < 0 || (c.0 as usize) >= self.pool.nodes.len() {
            return Err(Error::TypeError);
        }
        let nd = self.pool.nodes[c.0 as usize];
        if !nd.tag.has_flag(USED_FLAG) || nd.tag.has_flag(ATOM_FLAG) {
            return Err(Error::TypeError);
        }
        Ok(
            if head {
                nd.car
            } else {
                nd.cdr
            },
        )
    }

    /// Allocate a fixnum atom for `v` and push it.
    fn push_fixnum(&mut self, v: i32) -> (r: Result<(), Error>)
        requires
            old(self).wf(),
        ensures
            final(self).wf(),
            final(self).program@ == old(self).program@,
            final(self).lits@ == old(self).lits@,
            final(self).frames@ == old(self).frames@,
            final(self).catches@ == old(self).catches@,
            final(self).ip == old(self).ip,
            final(self).env == old(self).env,
            r is Ok ==> final(self).stack@.len() == old(self).stack@.len() + 1,
            r is Err ==> r == Err::<(), Error>(Error::HeapExhausted),
    {
        let roots = self.gather_roots();
        match self.pool.mkatom(TypeTag::Fixnum, Cell(v), &roots, &mut self.ports) {
            Ok(c) => {
                self.stack.push(c);
                Ok(())
            },
            Err(e) => Err(e),
        }
    }

    /// One fetch-decode-execute cycle.
    ///
    /// Returns `Ok(true)` when the machine halted, `Ok(false)` when it
    /// stepped, and an error for every raised condition. The effect of
    /// each instruction is given by `step_effect`. A tail application
    /// never grows the return-frame stack and consumes operands; only a
    /// plain application may push one frame.
    #[verifier::rlimit(100)]
    #[verifier::spinoff_prover]
    pub fn step(&mut self) -> (r: Result<bool, Error>)
        requires
            old(self).wf(),
        ensures
            final(self).wf(),
            final(self).program@ == old(self).program@,
            final(self).lits@ == old(self).lits@,
            final(self).frames@.len() <= old(self).frames@.len() + 1,
            old(self).ip < old(self).program@.len() && !(old(self).program@[old(self).ip as int]
                is Apply) ==> final(self).frames@.len() <= old(self).frames@.len(),
            r is Ok && old(self).ip < old(self).program@.len() && old(self).program@[old(
                self,
            ).ip as int] is Tailapp ==> final(self).frames@.len() == old(self).frames@.len()
                && final(self).stack@.len() < old(self).stack@.len(),
            old(self).ip >= old(self).program@.len() ==> r == Err::<bool, Error>(Error::BadProgram)
                && *final(self) == *old(self),
            r == Ok::<bool, Error>(true) ==> *final(self) == *old(self) && old(self).ip < old(
                self,
            ).program@.len() && old(self).program@[old(self).ip as int] is Halt,
            old(self).ip < old(self).program@.len() && old(self).program@[old(self).ip as int]
                is Halt ==> r == Ok::<bool, Error>(true) && *final(self) == *old(self),
    {
        if self.ip >= self.program.len() {
            return Err(Error::BadProgram);
        }
        let instr = self.program[self.ip];
        match instr {
            Instr::Halt => Ok(true),
            Instr::Quote(l) => {
                if l >= self.lits.len() {
                    return Err(Error::BadProgram);
                }
                let c = self.lits[l];
                self.stack.push(c);
                self.ip = self.ip + 1;
                Ok(false)
            },
            Instr::Pushtrue => {
                self.stack.push(Cell(-2));
                self.ip = self.ip + 1;
                Ok(false)
            },
            Instr::Pop => {
                if self.stack.len() == 0 {
                    return Err(Error::BadProgram);
                }
                self.stack.pop();
                self.ip = self.ip + 1;
                Ok(false)
            },
            Instr::Jmp(a) => {
                self.ip = a;
                Ok(false)
            },
            Instr::Brf(a) => {
                match self.stack.pop() {
                    None => Err(Error::BadProgram),
                    Some(c) => {
                        if c.0 == -1 {
                            self.ip = a;
                        } else {
                            self.ip = self.ip + 1;
                        }
                        Ok(false)
                    },
                }
            },
            Instr::Brt(a) => {
                match self.stack.pop() {
                    None => Err(Error::BadProgram),
                    Some(c) => {
                        if c.0 != -1 {
                            self.ip = a;
                        } else {
                            self.ip = self.ip + 1;
                        }
                        Ok(false)
                    },
                }
            },
            Instr::Mkenv(n) => {
                if self.stack.len() < n {
                    return Err(Error::BadProgram);
                }
                let roots = self.gather_roots();
                let frame = match self.pool.make_vector(n, Cell(-4), &roots, &mut self.ports) {
                    Ok(c) => c,
                    Err(e) => {
                        return Err(e);
                    },
                };
                let base = self.stack.len() - n;
                let mut i: usize = 0;
                while i < n
                    invariant
                        self.pool.wf(),
                        frame.0 >= 0,
                        base + n == self.stack@.len(),
                        i <= n,
                        (frame.0 as int) < self.pool.nodes@.len(),
                        self.program@ == old(self).program@,
                        self.lits@ == old(self).lits@,
                        self.frames@ == old(self).frames@,
                        self.catches@ == old(self).catches@,
                        self.env == old(self).env,
                        self.ip == old(self).ip,
                        self.ip < self.program@.len(),
                        self.program@[self.ip as int] == Instr::Mkenv(n),
                        self.ports.slots@.len() == old(self).ports.slots@.len(),
                        forall|p: int|
                            self.ports.spec_is_open(p) ==> old(self).ports.spec_is_open(p),
                        self.ports.outport == old(self).ports.outport,
                        self.stack@ == old(self).stack@,
                        self.pool.used(frame.0 as int),
                        self.pool.is_vector_atom(frame.0 as int),
                        !self.pool.is_const(frame.0 as int),
                    decreases n - i,
                {
                    let idx = self.stack.len() - n + i;
                    let v = self.stack[idx];
                    match self.pool.vset(frame.0 as usize, i, v) {
                        Ok(_) => {},
                        Err(e) => {
                            return Err(e);
                        },
                    }
                    i = i + 1;
                }
                self.stack.truncate(base);
                self.stack.push(frame);
                self.ip = self.ip + 1;
                Ok(false)
            },
            Instr::Enter => {
                if self.stack.len() == 0 {
                    return Err(Error::BadProgram);
                }
                let frame = self.stack[self.stack.len() - 1];
                let roots = self.gather_roots();
                let e = match self.pool.cons(frame, self.env, &roots, &mut self.ports) {
                    Ok(c) => c,
                    Err(e) => {
                        return Err(e);
                    },
                };
                self.stack.pop();
                self.env = e;
                self.ip = self.ip + 1;
                Ok(false)
            },
            Instr::Arg(i) => {
                let frame = self.env_frame(0)?;
                let v = match self.pool.vref(frame.0 as usize, i) {
                    Ok(v) => v,
                    Err(e) => {
                        return Err(e);
                    },
                };
                self.stack.push(v);
                self.ip = self.ip + 1;
                Ok(false)
            },
            Instr::Ref(d, i) => {
                let frame = self.env_frame(d)?;
                let v = match self.pool.vref(frame.0 as usize, i) {
                    Ok(v) => v,
                    Err(e) => {
                        return Err(e);
                    },
                };
                self.stack.push(v);
                self.ip = self.ip + 1;
                Ok(false)
            },
            Instr::Setarg(i) => {
                if self.stack.len() == 0 {
                    return Err(Error::BadProgram);
                }
                let v = self.stack[self.stack.len() - 1];
                let frame = self.env_frame(0)?;
                match self.pool.vset(frame.0 as usize, i, v) {
                    Ok(_) => {},
                    Err(e) => {
                        return Err(e);
                    },
                }
                self.stack.pop();
                self.ip = self.ip + 1;
                Ok(false)
            },
            Instr::Closure(addr) => {
                if addr > 0x7fff_fffe {
                    return Err(Error::BadProgram);
                }
                let roots = self.gather_roots();
                let code = match self.pool.mkatom(
                    TypeTag::Fixnum,
                    Cell(addr as i32),
                    &roots,
                    &mut self.ports,
                ) {
                    Ok(c) => c,
                    Err(e) => {
                        return Err(e);
                    },
                };
                self.stack.push(code);
                let roots2 = self.gather_roots();
                let body = match self.pool.cons(code, self.env, &roots2, &mut self.ports) {
                    Ok(c) => c,
                    Err(e) => {
                        return Err(e);
                    },
                };
                self.stack.pop();
                self.stack.push(body);
                let roots3 = self.gather_roots();
                let clos = match self.pool.mkatom(TypeTag::Closure, body, &roots3, &mut self.ports)
                    {
                    Ok(c) => c,
                    Err(e) => {
                        return Err(e);
                    },
                };
                self.stack.pop();
                self.stack.push(clos);
                self.ip = self.ip + 1;
                Ok(false)
            },
            Instr::Apply => {
                let (code, newenv) = self.enter_closure()?;
                self.frames.push(Frame { ret_ip: self.ip + 1, env: self.env });
                self.env = newenv;
                self.ip = code;
                Ok(false)
            },
            Instr::Tailapp => {
                let (code, newenv) = self.enter_closure()?;
                self.env = newenv;
                self.ip = code;
                Ok(false)
            },
            Instr::Return => {
                match self.frames.pop() {
                    None => Err(Error::BadProgram),
                    Some(f) => {
                        self.env = f.env;
                        self.ip = f.ret_ip;
                        Ok(false)
                    },
                }
            },
            Instr::Catchstar(resume) => {
                if self.catches.len() > 0x7fff_fffe {
                    return Err(Error::BadProgram);
                }
                let roots = self.gather_roots();
                let uniq = self.catches.len() as i32;
                let tagatom = match self.pool.mkatom(
                    TypeTag::Catchtag,
                    Cell(uniq),
                    &roots,
                    &mut self.ports,
                ) {
                    Ok(c) => c,
                    Err(e) => {
                        return Err(e);
                    },
                };
                self.catches.push(
                    CatchRec {
                        tag: tagatom,
                        stack_len: self.stack.len(),
                        frames_len: self.frames.len(),
                        env: self.env,
                        resume,
                    },
                );
                self.stack.push(tagatom);
                self.ip = self.ip + 1;
                Ok(false)
            },
            Instr::Throwstar => {
                if self.stack.len() < 2 {
                    return Err(Error::BadProgram);
                }
                let val = match self.stack.pop() {
                    None => {
                        return Err(Error::BadProgram);
                    },
                    Some(c) => c,
                };
                let tag = match self.stack.pop() {
                    None => {
                        return Err(Error::BadProgram);
                    },
                    Some(c) => c,
                };
                match self.do_throw(tag, val) {
                    Ok(_) => Ok(false),
                    Err(e) => Err(e),
                }
            },
            Instr::Car => {
                if self.stack.len() == 0 {
                    return Err(Error::BadProgram);
                }
                let c = self.stack[self.stack.len() - 1];
                let v = self.pair_field(c, true)?;
                self.stack.pop();
                self.stack.push(v);
                self.ip = self.ip + 1;
                Ok(false)
            },
            Instr::Cdr => {
                if self.stack.len() == 0 {
                    return Err(Error::BadProgram);
                }
                let c = self.stack[self.stack.len() - 1];
                let v = self.pair_field(c, false)?;
                self.stack.pop();
                self.stack.push(v);
                self.ip = self.ip + 1;
                Ok(false)
            },
            Instr::Cons => {
                if self.stack.len() < 2 {
                    return Err(Error::BadProgram);
                }
                let d = self.stack[self.stack.len() - 1];
                let a = self.stack[self.stack.len() - 2];
                let roots = self.gather_roots();
                let p = match self.pool.cons(a, d, &roots, &mut self.ports) {
                    Ok(c) => c,
                    Err(e) => {
                        return Err(e);
                    },
                };
                self.stack.pop();
                self.stack.pop();
                self.stack.push(p);
                self.ip = self.ip + 1;
                Ok(false)
            },
            Instr::Setcar => {
                if self.stack.len() < 2 {
                    return Err(Error::BadProgram);
                }
                let v = self.stack[self.stack.len() - 1];
                let t = self.stack[self.stack.len() - 2];
                if t.0 < 0 || (t.0 as usize) >= self.pool.nodes.len() {
                    return Err(Error::TypeError);
                }
                if !self.pool.tag(t.0 as usize).has_flag(USED_FLAG) {
                    return Err(Error::TypeError);
                }
                if self.pool.tag(t.0 as usize).has_flag(CONST_FLAG) {
                    return Err(Error::ConstMutation);
                }
                match self.pool.set_car(t.0 as usize, v) {
                    Ok(_) => {},
                    Err(e) => {
                        return Err(e);
                    },
                }
                self.stack.pop();
                self.stack.pop();
                self.stack.push(t);
                self.ip = self.ip + 1;
                Ok(false)
            },
            Instr::Setcdr => {
                if self.stack.len() < 2 {
                    return Err(Error::BadProgram);
                }
                let v = self.stack[self.stack.len() - 1];
                let t = self.stack[self.stack.len() - 2];
                if t.0 < 0 || (t.0 as usize) >= self.pool.nodes.len() {
                    return Err(Error::TypeError);
                }
                if !self.pool.tag(t.0 as usize).has_flag(USED_FLAG) {
                    return Err(Error::TypeError);
                }
                if self.pool.tag(t.0 as usize).has_flag(CONST_FLAG) {
                    return Err(Error::ConstMutation);
                }
                match self.pool.set_cdr(t.0 as usize, v) {
                    Ok(_) => {},
                    Err(e) => {
                        return Err(e);
                    },
                }
                self.stack.pop();
                self.stack.pop();
                self.stack.push(t);
                self.ip = self.ip + 1;
                Ok(false)
            },
            Instr::Plus => {
                if self.stack.len() < 2 {
                    return Err(Error::BadProgram);
                }
                let b = self.stack[self.stack.len() - 1];
                let a = self.stack[self.stack.len() - 2];
                let bv = self.fixnum_of(b)?;
                let av = self.fixnum_of(a)?;
                let sum = match av.checked_add(bv) {
                    Some(s) => s,
                    None => {
                        return Err(Error::Overflow);
                    },
                };
                self.stack.pop();
                self.stack.pop();
                self.push_fixnum(sum)?;
                self.ip = self.ip + 1;
                Ok(false)
            },
            Instr::Minus => {
                if self.stack.len() < 2 {
                    return Err(Error::BadProgram);
                }
                let b = self.stack[self.stack.len() - 1];
                let a = self.stack[self.stack.len() - 2];
                let bv = self.fixnum_of(b)?;
                let av = self.fixnum_of(a)?;
                let diff = match av.checked_sub(bv) {
                    Some(s) => s,
                    None => {
                        return Err(Error::Overflow);
                    },
                };
                self.stack.pop();
                self.stack.pop();
                self.push_fixnum(diff)?;
                self.ip = self.ip + 1;
                Ok(false)
            },
            Instr::Equal => {
                if self.stack.len() < 2 {
                    return Err(Error::BadProgram);
                }
                let b = self.stack[self.stack.len() - 1];
                let a = self.stack[self.stack.len() - 2];
                let bv = self.fixnum_of(b)?;
                let av = self.fixnum_of(a)?;
                self.stack.pop();
                self.stack.pop();
                self.stack.push(if av == bv {
                    Cell(-2)
                } else {
                    Cell(-1)
                });
                self.ip = self.ip + 1;
                Ok(false)
            },
            Instr::Null => {
                match self.stack.pop() {
                    None => Err(Error::BadProgram),
                    Some(c) => {
                        self.stack.push(if c.0 == -1 {
                            Cell(-2)
                        } else {
                            Cell(-1)
                        });
                        self.ip = self.ip + 1;
                        Ok(false)
                    },
                }
            },
            Instr::Eq => {
                if self.stack.len() < 2 {
                    return Err(Error::BadProgram);
                }
                let b = match self.stack.pop() {
                    None => {
                        return Err(Error::BadProgram);
                    },
                    Some(c) => c,
                };
                let a = match self.stack.pop() {
                    None => {
                        return Err(Error::BadProgram);
                    },
                    Some(c) => c,
                };
                self.stack.push(if a.0 == b.0 {
                    Cell(-2)
                } else {
                    Cell(-1)
                });
                self.ip = self.ip + 1;
                Ok(false)
            },
            Instr::Fixp => {
                match self.stack.pop() {
                    None => Err(Error::BadProgram),
                    Some(c) => {
                        let isfix = match self.fixnum_of(c) {
                            Ok(_) => true,
                            Err(_) => false,
                        };
                        self.stack.push(if isfix {
                            Cell(-2)
                        } else {
                            Cell(-1)
                        });
                        self.ip = self.ip + 1;
                        Ok(false)
                    },
                }
            },
            Instr::Closeport => {
                if self.stack.len() == 0 {
                    return Err(Error::BadProgram);
                }
                let c = self.stack[self.stack.len() - 1];
                if c.0 < 0 || (c.0 as usize) >= self.pool.nodes.len() {
                    return Err(Error::TypeError);
                }
                let i = c.0 as usize;
                let nd = self.pool.nodes[i];
                if !nd.tag.has_flag(USED_FLAG) || !nd.tag.has_flag(ATOM_FLAG) || (nd.car.0 != -15
                    && nd.car.0 != -16) {
                    return Err(Error::TypeError);
                }
                if nd.cdr.0 < 0 {
                    return Err(Error::RangeError);
                }
                self.ports.close_port(nd.cdr.0 as usize);
                self.stack.pop();
                self.stack.push(Cell(-2));
                self.ip = self.ip + 1;
                Ok(false)
            },
            Instr::Setoutport => {
                if self.stack.len() == 0 {
                    return Err(Error::BadProgram);
                }
                let c = self.stack[self.stack.len() - 1];
                let v = self.fixnum_of(c)?;
                if v == 1 {
                    set_outport(&mut self.ports, Outport::Stdout);
                } else if v == 2 {
                    set_outport(&mut self.ports, Outport::Stderr);
                } else {
                    return Err(Error::RangeError);
                }
                self.stack.pop();
                self.stack.push(Cell(-2));
                self.ip = self.ip + 1;
                Ok(false)
            },
            Instr::Gc => {
                let roots = self.gather_roots();
                self.pool.collect(&roots, &mut self.ports);
                self.stack.push(Cell(-1));
                self.ip = self.ip + 1;
                Ok(false)
            },
        }
    }

    /// The argument frame `depth` scopes up the environment chain.
    fn env_frame(&self, depth: usize) -> (r: Result<Cell, Error>)
        requires
            self.wf(),
        ensures
            r is Ok ==> 0 <= r->Ok_0.0 < self.pool.nodes@.len(),
            r is Err ==> r->Err_0 == Error::RangeError || r->Err_0 == Error::TypeError,
    {
        let mut e = self.env;
        let mut d: usize = depth;
        while d > 0
            invariant
                self.wf(),
            decreases d,
        {
            if e.0 < 0 || (e.0 as usize) >= self.pool.nodes.len() {
                return Err(Error::RangeError);
            }
            let i = e.0 as usize;
            let nd = self.pool.nodes[i];
            if !nd.tag.has_flag(USED_FLAG) || nd.tag.has_flag(ATOM_FLAG) {
                return Err(Error::TypeError);
            }
            e = nd.cdr;
            d = d - 1;
        }
        if e.0 < 0 || (e.0 as usize) >= self.pool.nodes.len() {
            return Err(Error::RangeError);
        }
        let i = e.0 as usize;
        let nd = self.pool.nodes[i];
        if !nd.tag.has_flag(USED_FLAG) || nd.tag.has_flag(ATOM_FLAG) {
            return Err(Error::TypeError);
        }
        if nd.car.0 < 0 || (nd.car.0 as usize) >= self.pool.nodes.len() {
            return Err(Error::TypeError);
        }
        Ok(nd.car)
    }

    /// Pop an argument frame and a closure; return the closure's code
    /// address and the environment extended with the frame.
    fn enter_closure(&mut self) -> (r: Result<(usize, Cell), Error>)
        requires
            old(self).wf(),
        ensures
            final(self).wf(),
            final(self).program@ == old(self).program@,
            final(self).lits@ == old(self).lits@,
            final(self).frames@ == old(self).frames@,
            final(self).catches@ == old(self).catches@,
            final(self).ip == old(self).ip,
            final(self).env == old(self).env,
            final(self).ports.slots@.len() == old(self).ports.slots@.len(),
            forall|p: int| final(self).ports.spec_is_open(p) ==> old(self).ports.spec_is_open(p),
            final(self).ports.outport == old(self).ports.outport,
            r is Err ==> final(self).stack@ == old(self).stack@,
            r is Err ==> (r->Err_0 == Error::BadProgram || r->Err_0 == Error::TypeError
                || r->Err_0 == Error::HeapExhausted),
            old(self).stack@.len() < 2 ==> r == Err::<(usize, Cell), Error>(Error::BadProgram)
                && *final(self) == *old(self),
            r is Ok ==> ({
                let pre = *old(self);
                let clos = pre.stack@[pre.stack@.len() - 2];
                let frame = pre.stack@[pre.stack@.len() - 1];
                let body = pre.pool.nodes@[clos.0 as int].cdr;
                &&& pre.stack@.len() >= 2
                &&& is_closure_cell(pre.pool, clos)
                &&& is_pair_cell(pre.pool, body)
                &&& is_fixnum(pre.pool, pre.pool.nodes@[body.0 as int].car)
                &&& r->Ok_0.0 == fixnum_payload(pre.pool, pre.pool.nodes@[body.0 as int].car)
                &&& is_pair_cell(final(self).pool, r->Ok_0.1)
                &&& final(self).pool.nodes@[r->Ok_0.1.0 as int].car == frame
                &&& final(self).pool.nodes@[r->Ok_0.1.0 as int].cdr == pre.pool.nodes@[body.0
                    as int].cdr
                &&& final(self).stack@ == pre.stack@.take(pre.stack@.len() - 2)
            }),
    {
        if self.stack.len() < 2 {
            return Err(Error::BadProgram);
        }
        let frame = self.stack[self.stack.len() - 1];
        let clos = self.stack[self.stack.len() - 2];
        if clos.0 < 0 || (clos.0 as usize) >= self.pool.nodes.len() {
            return Err(Error::TypeError);
        }
        let ci = clos.0 as usize;
        let cnode = self.pool.nodes[ci];
        if !cnode.tag.has_flag(USED_FLAG) || !cnode.tag.has_flag(ATOM_FLAG) || cnode.car.0 != -13 {
            return Err(Error::TypeError);
        }
        let body = cnode.cdr;
        if body.0 < 0 || (body.0 as usize) >= self.pool.nodes.len() {
            return Err(Error::TypeError);
        }
        let bnode = self.pool.nodes[body.0 as usize];
        if !bnode.tag.has_flag(USED_FLAG) || bnode.tag.has_flag(ATOM_FLAG) {
            return Err(Error::TypeError);
        }
        let codev = self.fixnum_of(bnode.car)?;
        if codev < 0 {
            return Err(Error::BadProgram);
        }
        let clos_env = bnode.cdr;
        let roots = self.gather_roots();
        let newenv = match self.pool.cons(frame, clos_env, &roots, &mut self.ports) {
            Ok(c) => c,
            Err(e) => {
                return Err(e);
            },
        };
        self.stack.pop();
        self.stack.pop();
        proof {
            assert(self.stack@ =~= old(self).stack@.take(old(self).stack@.len() - 2));
        }
        Ok((codev as usize, newenv))
    }

    /// Run until halt, error, or the fuel runs out.
    ///
    /// A halted run returns the top of the operand stack, or the
    /// undefined singleton when the stack is empty, and leaves the
    /// machine standing on its halt instruction. A raised condition is
    /// returned only after unwinding with the well-known top-level
    /// error tag found no catch record carrying it. `None` means the
    /// fuel ran out before either.
    pub fn run(&mut self, fuel: usize) -> (r: Result<Option<Cell>, Error>)
        requires
            old(self).wf(),
        ensures
            final(self).wf(),
            final(self).program@ == old(self).program@,
            final(self).lits@ == old(self).lits@,
            ({
                match r {
                    Ok(Some(c)) => {
                        &&& final(self).ip < final(self).program@.len()
                        &&& final(self).program@[final(self).ip as int] is Halt
                        &&& (if final(self).stack@.len() == 0 {
                            c == Cell(-4i32)
                        } else {
                            c == final(self).stack@[final(self).stack@.len() - 1]
                        })
                    },
                    Ok(None) => true,
                    Err(_) => forall|k: int|
                        0 <= k < final(self).catches@.len()
                            ==> (#[trigger] final(self).catches@[k]).tag.0 != ERROR_TAG_CODE,
                }
            }),
    {
        let mut left: usize = fuel;
        while left > 0
            invariant
                self.wf(),
                self.program@ == old(self).program@,
                self.lits@ == old(self).lits@,
            decreases left,
        {
            match self.step() {
                Ok(true) => {
                    if self.stack.len() == 0 {
                        return Ok(Some(Cell(-4)));
                    }
                    let top = self.stack[self.stack.len() - 1];
                    return Ok(Some(top));
                },
                Ok(false) => {},
                Err(e) => {
                    // unwind like a throw with the well-known error tag
                    match self.do_throw(Cell(ERROR_TAG_CODE), Cell(-4)) {
                        Ok(_) => {},
                        Err(_) => {
                            return Err(e);
                        },
                    }
                },
            }
            left = left - 1;
        }
        Ok(None)
    }
}

/// `c` names an allocated fixnum atom of `p`.
pub open spec fn is_fixnum(p: Pool, c: Cell) -> bool {
    &&& 0 <= c.0 < p.nodes@.len()
    &&& p.used(c.0 as int)
    &&& p.is_atom(c.0 as int)
    &&& p.nodes@[c.0 as int].car.0 == -14
}

/// The machine word held by a fixnum atom.
pub open spec fn fixnum_payload(p: Pool, c: Cell) -> int {
    p.nodes@[c.0 as int].cdr.0 as int
}

/// `c` names an allocated ordinary pair of `p`.
pub open spec fn is_pair_cell(p: Pool, c: Cell) -> bool {
    &&& 0 <= c.0 < p.nodes@.len()
    &&& p.used(c.0 as int)
    &&& !p.is_atom(c.0 as int)
}

/// `c` names an allocated closure atom of `p`.
pub open spec fn is_closure_cell(p: Pool, c: Cell) -> bool {
    &&& 0 <= c.0 < p.nodes@.len()
    &&& p.used(c.0 as int)
    &&& p.is_atom(c.0 as int)
    &&& p.nodes@[c.0 as int].car.0 == -13
}

} // verus!
