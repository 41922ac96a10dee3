//! Bounded table of open I/O handles and the process-wide output
//! selector.
//!
//! Each open handle occupies a slot identified by a small integer; an
//! input-port or output-port atom wraps that integer. The underlying
//! operating-system handles live outside this library; the table tracks
//! which slots are open and of which kind, so that stale references are
//! rejected instead of reaching a closed handle.

use vstd::prelude::*;

verus! {

/// Direction of an open port slot.
#[derive(Debug, Clone, Copy, PartialEq, Eq, Structural)]
pub enum PortKind {
    Input,
    Output,
}

/// Destination selected for output primitives that take no explicit
/// port argument. The selector is process-wide state with a defined
/// initial value; callers that need signal-safe access keep the live
/// copy behind an atomic in the surrounding program.
#[derive(Debug, Clone, Copy, PartialEq, Eq, Structural)]
pub enum Outport {
    Stdout,
    Stderr,
}

/// Bounded table of open port slots plus the current output selector.
pub struct PortTable {
    pub slots: Vec<Option<PortKind>>,
    pub outport: Outport,
}

impl PortTable {
    /// A slot is open when it holds a port kind.
    pub open spec fn spec_is_open(self, p: int) -> bool {
        0 <= p < self.slots@.len() && self.slots@[p] is Some
    }

    /// A fresh table: every slot closed, output selected to stdout.
    pub fn new(nports: usize) -> (r: Self)
        ensures
            r.slots@.len() == nports,
            forall|p: int| 0 <= p < nports ==> !r.spec_is_open(p),
            r.outport == Outport::Stdout,
    {
        let mut slots: Vec<Option<PortKind>> = Vec::new();
        let mut k: usize = 0;
        while k < nports
            invariant
                k <= nports,
                slots@.len() == k,
                forall|p: int| 0 <= p < k ==> slots@[p] is None,
            decreases nports - k,
        {
            slots.push(None);
            k = k + 1;
        }
        PortTable { slots, outport: Outport::Stdout }
    }

    /// Whether the slot index is in range and currently open.
    pub fn is_open(&self, p: usize) -> (r: bool)
        ensures
            r == self.spec_is_open(p as int),
    {
        p < self.slots.len() && self.slots[p].is_some()
    }

    /// Open a port of the given kind in the lowest free slot.
    ///
    /// Succeeds exactly when some slot is free, and then returns the
    /// lowest free slot; fails with a resource error when the table is
    /// full, leaving it unchanged.
    pub fn open_port(&mut self, kind: PortKind) -> (r: Result<usize, crate::error::Error>)
        ensures
            match r {
                Ok(p) => {
                    &&& p < old(self).slots@.len()
                    &&& !old(self).spec_is_open(p as int)
                    &&& forall|q: int| 0 <= q < p ==> old(self).spec_is_open(q)
                    &&& final(self).slots@ == old(self).slots@.update(
                        p as int,
                        Some(kind),
                    )
                    &&& final(self).outport == old(self).outport
                },
                Err(e) => {
                    &&& e == crate::error::Error::PortTableFull
                    &&& forall|q: int|
                        0 <= q < old(self).slots@.len() ==> old(self).spec_is_open(q)
                    &&& *final(self) == *old(self)
                },
            },
    {
        let mut p: usize = 0;
        while p < self.slots.len()
            invariant
                *self == *old(self),
                p <= self.slots@.len(),
                forall|q: int| 0 <= q < p ==> self.spec_is_open(q),
            decreases self.slots@.len() - p,
        {
            if self.slots[p].is_none() {
                self.slots.set(p, Some(kind));
                return Ok(p);
            }
            p = p + 1;
        }
        Err(crate::error::Error::PortTableFull)
    }

    /// Close a slot. Closing is idempotent and total: a slot out of
    /// range or already closed leaves the table unchanged.
    pub fn close_port(&mut self, p: usize)
        ensures
            final(self).slots@.len() == old(self).slots@.len(),
            final(self).outport == old(self).outport,
            !final(self).spec_is_open(p as int),
            forall|q: int|
                0 <= q < old(self).slots@.len() && q != p ==> final(self).slots@[q]
                    == old(self).slots@[q],
    {
        if p < self.slots.len() {
            self.slots.set(p, None);
        }
    }

    /// Number of slots in the table.
    pub fn capacity(&self) -> (r: usize)
        ensures
            r == self.slots@.len(),
    {
        self.slots.len()
    }
}

/// Select the destination for output primitives.
pub fn set_outport(table: &mut PortTable, outport: Outport)
    ensures
        final(table).outport == outport,
        final(table).slots@ == old(table).slots@,
{
    table.outport = outport;
}

/// Read the currently selected output destination.
pub fn get_outport(table: &PortTable) -> (r: Outport)
    ensures
        r == table.outport,
{
    table.outport
}

} // verus!
