//! The saved register context of a suspended thread.

use vstd::prelude::*;

verus! {

/// `sstatus` bit: the privilege level to return to is supervisor.
pub const SSTATUS_SPP: u64 = 0x100;

/// `sstatus` bit: interrupts come back on after `sret`.
pub const SSTATUS_SPIE: u64 = 0x20;

/// Thirty-two general-purpose registers plus `sstatus` and `sepc`.
pub struct Context {
    /// x0 through x31; x1 is `ra`, x2 is `sp`, x10 through x17 are a0..a7.
    pub registers: Vec<u64>,
    /// The saved `sstatus`.
    pub sstatus: u64,
    /// The address execution resumes at.
    pub sepc: u64,
}

impl Context {
    /// A context always carries exactly 32 registers.
    pub open spec fn wf(&self) -> bool {
        self.registers@.len() == 32
    }

    /// Build the context a fresh thread starts from: stack pointer, entry
    /// point, up to eight argument registers, and the privilege to return
    /// to.
    pub fn new(
        stack_top: u64,
        entry_point: u64,
        arguments: Option<&Vec<u64>>,
        is_user: bool,
    ) -> (r: Context)
        requires
            arguments matches Some(a) ==> a@.len() <= 8,
        ensures
            r.wf(),
            r.sepc == entry_point,
            r.registers@[2] == stack_top,
            r.sstatus == SSTATUS_SPIE + if is_user { 0u64 } else { SSTATUS_SPP },
            arguments matches Some(a)
                ==> forall|k: int| 0 <= k < a@.len() ==> r.registers@[10 + k] == a@[k],
    {
        let mut registers: Vec<u64> = Vec::new();
        while registers.len() < 32
            invariant
                registers@.len() <= 32,
                forall|k: int| 0 <= k < registers@.len() ==> registers@[k] == 0u64,
            decreases 32 - registers@.len(),
        {
            registers.push(0u64);
        }
        registers.set(2, stack_top);
        match arguments {
            Some(args) => {
                let mut k: usize = 0;
                while k < args.len()
                    invariant
                        args@.len() <= 8,
                        k <= args@.len(),
                        registers@.len() == 32,
                        registers@[2] == stack_top,
                        forall|j: int| 0 <= j < k ==> registers@[10 + j] == args@[j],
                    decreases args@.len() - k,
                {
                    registers.set(10 + k, args[k]);
                    k = k + 1;
                }
            }
            None => {}
        }
        let sstatus = if is_user { SSTATUS_SPIE } else { SSTATUS_SPIE + SSTATUS_SPP };
        Context { registers, sstatus, sepc: entry_point }
    }

    /// Set the return address register (x1).
    pub fn set_ra(&mut self, ra: u64)
        requires
            old(self).wf(),
        ensures
            final(self).wf(),
            final(self).registers@ == old(self).registers@.update(1, ra),
            final(self).sstatus == old(self).sstatus,
            final(self).sepc == old(self).sepc,
    {
        self.registers.set(1, ra);
    }

    /// Read the first argument register a0 (x10).
    pub fn a0(&self) -> (r: u64)
        requires
            self.wf(),
        ensures
            r == self.registers@[10],
    {
        self.registers[10]
    }

    /// Write the first argument register a0 (x10), where a syscall's return
    /// value goes.
    pub fn set_a0(&mut self, value: u64)
        requires
            old(self).wf(),
        ensures
            final(self).wf(),
            final(self).registers@ == old(self).registers@.update(10, value),
            final(self).sstatus == old(self).sstatus,
            final(self).sepc == old(self).sepc,
    {
        self.registers.set(10, value);
    }

    /// Read the syscall-number register a7 (x17).
    pub fn a7(&self) -> (r: u64)
        requires
            self.wf(),
        ensures
            r == self.registers@[17],
    {
        self.registers[17]
    }
}

} // verus!
