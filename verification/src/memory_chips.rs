//! Very simply modelled DRAM and SRAM cells: one bit of charge each.

use vstd::prelude::*;

verus! {

#[derive(Copy, Clone)]
pub struct DRAM {
    pub charge: bool,
    pub refresh_timer: u128,
}

impl DRAM {
    /// Milliseconds since the Unix epoch, for the cell refresh timer.
    ///
    /// Relies on std::time::SystemTime::now and Duration::as_millis; the
    /// result depends on the wall clock, so nothing is promised of it.
    #[verifier::external_body]
    pub fn current_time() -> u128 {
        std::time::SystemTime::now().duration_since(std::time::UNIX_EPOCH).map(
            |d| d.as_millis(),
        ).unwrap_or(0)
    }

    /// Charges the cell and pushes its refresh deadline out.
    pub fn charge(&mut self)
        ensures
            final(self).charge,
    {
        let t = Self::current_time();
        self.refresh_timer = if t <= u128::MAX - 64 {
            t + 64
        } else {
            u128::MAX
        };
        self.charge = true;
    }

    /// Drains the cell.
    pub fn dis_charge(&mut self)
        ensures
            !final(self).charge,
            final(self).refresh_timer == old(self).refresh_timer,
    {
        self.charge = false;
    }

    /// Destructive-read-plus-rewrite: reports the charge and restores it.
    pub fn read(&mut self) -> (r: bool)
        ensures
            r == old(self).charge,
            final(self).charge == old(self).charge,
    {
        if self.charge {
            self.dis_charge();
            self.charge();
            return true;
        }
        false
    }
}

impl Default for DRAM {
    fn default() -> (r: Self)
        ensures
            !r.charge,
            r.refresh_timer == 0,
    {
        DRAM { charge: false, refresh_timer: 0 }
    }
}

#[derive(Copy, Clone)]
pub struct SRAM {
    pub charge: bool,
}

impl SRAM {
    pub fn charge(&mut self)
        ensures
            final(self).charge,
    {
        self.charge = true;
    }

    pub fn discharge(&mut self)
        ensures
            !final(self).charge,
    {
        self.charge = false;
    }
}

impl Default for SRAM {
    fn default() -> (r: Self)
        ensures
            !r.charge,
    {
        SRAM { charge: false }
    }
}

} // verus!
