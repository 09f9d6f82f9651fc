//! The clock: a sequential tick driver that advances the control unit and
//! then the memory controller once per cycle, counts cycles, and stops when
//! the control unit raises its halt flag.
//!
//! A whole cycle is the relation `clock_step`; a run of the machine is
//! `run_steps`, which chains cycles and collects the emitted output lines in
//! order.  `start`'s contract states that the final state was reached from
//! the initial one by exactly one `clock_step` per counted cycle, with the
//! returned lines as the run's output.

use vstd::prelude::*;
use crate::control_unit::ControlUnit;
use crate::control_unit::cpu_step;
use crate::caches::DataAccessManager;
use crate::main_memory::MainMemory;
use crate::main_memory::mem_tick_post;
use crate::output::cycle_count_line;
use crate::output::cycle_line_str;

verus! {

/// A control-unit state with the memory controller's state swapped in.
pub open spec fn with_memory(cu: ControlUnit, m: MainMemory) -> ControlUnit {
    ControlUnit {
        data_access_manager: DataAccessManager { main_memory: m, ..cu.data_access_manager },
        ..cu
    }
}

/// One whole clock cycle: the control unit steps once, emitting at most one
/// output line, and the memory controller then serves the bus once.
pub open spec fn clock_step(pre: ControlUnit, post: ControlUnit, out: Option<String>) -> bool {
    exists|mid: ControlUnit|
        {
            &&& #[trigger] cpu_step(pre, mid, out)
            &&& mem_tick_post(
                mid.data_access_manager.main_memory,
                post.data_access_manager.main_memory,
            )
            &&& post == with_memory(mid, post.data_access_manager.main_memory)
        }
}

/// The views of a batch of output lines.
pub open spec fn line_views(lines: Seq<String>) -> Seq<Seq<char>> {
    Seq::new(lines.len(), |i: int| lines[i]@)
}

/// `steps` clock cycles lead from `pre` to `post` and emit exactly the
/// lines of `outs`, in order.
pub open spec fn run_steps(
    pre: ControlUnit,
    post: ControlUnit,
    outs: Seq<Seq<char>>,
    steps: nat,
) -> bool
    decreases steps,
{
    if steps == 0 {
        post == pre && outs.len() == 0
    } else {
        exists|mid: ControlUnit, out: Option<String>|
            {
                &&& #[trigger] clock_step(pre, mid, out)
                &&& match out {
                    Option::None => run_steps(mid, post, outs, (steps - 1) as nat),
                    Option::Some(l) => outs.len() >= 1 && outs[0] == l@ && run_steps(
                        mid,
                        post,
                        outs.subrange(1, outs.len() as int),
                        (steps - 1) as nat,
                    ),
                }
            }
    }
}

/// A run extends by one more cycle at its end.
proof fn lemma_run_steps_snoc(
    a: ControlUnit,
    b: ControlUnit,
    c: ControlUnit,
    outs: Seq<Seq<char>>,
    steps: nat,
    out: Option<String>,
)
    requires
        run_steps(a, b, outs, steps),
        clock_step(b, c, out),
    ensures
        run_steps(
            a,
            c,
            outs + (match out {
                Option::None => Seq::<Seq<char>>::empty(),
                Option::Some(l) => seq![l@],
            }),
            steps + 1,
        ),
    decreases steps,
{
    let suffix = match out {
        Option::None => Seq::<Seq<char>>::empty(),
        Option::Some(l) => seq![l@],
    };
    let outs2 = outs + suffix;
    if steps == 0 {
        assert(outs2 =~= suffix);
        match out {
            Option::None => {
                assert(run_steps(c, c, outs2, 0));
            },
            Option::Some(l) => {
                assert(outs2[0] == l@);
                assert(outs2.subrange(1, outs2.len() as int).len() == 0);
                assert(run_steps(c, c, outs2.subrange(1, outs2.len() as int), 0));
            },
        }
        assert(run_steps(a, c, outs2, 1));
    } else {
        let (mid, out0) = choose|mid: ControlUnit, out0: Option<String>|
            {
                &&& #[trigger] clock_step(a, mid, out0)
                &&& match out0 {
                    Option::None => run_steps(mid, b, outs, (steps - 1) as nat),
                    Option::Some(l) => outs.len() >= 1 && outs[0] == l@ && run_steps(
                        mid,
                        b,
                        outs.subrange(1, outs.len() as int),
                        (steps - 1) as nat,
                    ),
                }
            };
        match out0 {
            Option::None => {
                lemma_run_steps_snoc(mid, b, c, outs, (steps - 1) as nat, out);
                assert(run_steps(a, c, outs2, steps + 1));
            },
            Option::Some(l) => {
                let rest = outs.subrange(1, outs.len() as int);
                lemma_run_steps_snoc(mid, b, c, rest, (steps - 1) as nat, out);
                assert(outs2.subrange(1, outs2.len() as int) =~= rest + suffix);
                assert(outs2[0] == l@);
                assert(run_steps(a, c, outs2, steps + 1));
            },
        }
    }
}

pub struct Clock {
    /// Frequency in Hz.
    pub clock_speed: i64,
    pub running: bool,
    pub ctrl: ControlUnit,
    pub cycle_count: u64,
}

impl Clock {
    /// Runs the machine until the control unit halts (or the cycle counter
    /// is exhausted), collecting every output line; on a halt the last line
    /// reports the cycle count, and the lines before it are exactly what the
    /// counted run of clock cycles emitted.
    pub fn start(&mut self) -> (lines: Vec<String>)
        requires
            old(self).ctrl.wf(),
        ensures
            final(self).ctrl.wf(),
            !final(self).running,
            final(self).ctrl.halt || final(self).cycle_count == u64::MAX,
            old(self).cycle_count <= final(self).cycle_count,
            final(self).ctrl.halt && final(self).cycle_count < u64::MAX ==> {
                &&& lines@.len() >= 1
                &&& lines@.last()@ == cycle_line_str(final(self).cycle_count as nat)
                &&& run_steps(
                    old(self).ctrl,
                    final(self).ctrl,
                    line_views(lines@.take(lines@.len() - 1)),
                    (final(self).cycle_count - old(self).cycle_count) as nat,
                )
            },
            !(final(self).ctrl.halt && final(self).cycle_count < u64::MAX) ==> run_steps(
                old(self).ctrl,
                final(self).ctrl,
                line_views(lines@),
                (final(self).cycle_count - old(self).cycle_count) as nat,
            ),
    {
        self.running = true;
        let mut lines: Vec<String> = Vec::new();
        proof {
            assert(line_views(lines@).len() == 0);
        }
        while !self.ctrl.halt && self.cycle_count < u64::MAX
            invariant
                self.ctrl.wf(),
                old(self).cycle_count <= self.cycle_count,
                run_steps(
                    old(self).ctrl,
                    self.ctrl,
                    line_views(lines@),
                    (self.cycle_count - old(self).cycle_count) as nat,
                ),
            decreases u64::MAX - self.cycle_count,
        {
            let ghost pre_ctrl = self.ctrl;
            let ghost pre_lines = lines@;
            let ghost pre_count = self.cycle_count;
            let mut step = self.refresh();
            let ghost gstep = step@;
            lines.append(&mut step);
            proof {
                let out: Option<String> = if gstep.len() == 1 {
                    Option::Some(gstep[0])
                } else {
                    Option::None
                };
                let suffix = match out {
                    Option::None => Seq::<Seq<char>>::empty(),
                    Option::Some(l) => seq![l@],
                };
                lemma_run_steps_snoc(
                    old(self).ctrl,
                    pre_ctrl,
                    self.ctrl,
                    line_views(pre_lines),
                    (pre_count - old(self).cycle_count) as nat,
                    out,
                );
                assert(line_views(lines@) =~= line_views(pre_lines) + suffix);
            }
        }
        if self.ctrl.halt && self.cycle_count < u64::MAX {
            // One more refresh observes the halt and reports the cycle count.
            let ghost pre_lines = lines@;
            let mut step = self.refresh();
            lines.append(&mut step);
            proof {
                assert(lines@.take(lines@.len() - 1) =~= pre_lines);
                assert(line_views(lines@.take(lines@.len() - 1)) =~= line_views(pre_lines));
            }
        } else {
            // The cycle counter has no room left: stop the machine.
            self.running = false;
        }
        lines
    }

    /// Stops the clock.
    pub fn stop(&mut self)
        ensures
            !final(self).running,
            final(self).ctrl == old(self).ctrl,
            final(self).cycle_count == old(self).cycle_count,
    {
        self.running = false;
    }

    /// One clock cycle: while the control unit has not halted, tick it and
    /// then the memory controller — one `clock_step`, whose output line (if
    /// any) is returned; on halt, report the total cycle count instead.
    pub fn refresh(&mut self) -> (lines: Vec<String>)
        requires
            old(self).ctrl.wf(),
            old(self).cycle_count < u64::MAX,
        ensures
            final(self).ctrl.wf(),
            final(self).running == !old(self).ctrl.halt,
            old(self).ctrl.halt ==> {
                &&& final(self).ctrl == old(self).ctrl
                &&& final(self).cycle_count == old(self).cycle_count
                &&& lines@.len() == 1
                &&& lines@[0]@ == cycle_line_str(old(self).cycle_count as nat)
            },
            !old(self).ctrl.halt ==> {
                &&& final(self).cycle_count == old(self).cycle_count + 1
                &&& lines@.len() <= 1
                &&& clock_step(
                    old(self).ctrl,
                    final(self).ctrl,
                    if lines@.len() == 1 {
                        Option::Some(lines@[0])
                    } else {
                        Option::None
                    },
                )
            },
    {
        let mut lines: Vec<String> = Vec::new();
        self.running = !self.ctrl.halt;
        if self.running {
            self.cycle_count = self.cycle_count + 1;
            // At present both the CPU and RAM are driven by the same clock;
            // they could be separated for greater realism.
            let out = self.ctrl.tick();
            let ghost gout = out;
            let ghost mid = self.ctrl;
            match out {
                Some(line) => {
                    lines.push(line);
                },
                None => {},
            }
            self.ctrl.data_access_manager.main_memory.tick();
            proof {
                assert(cpu_step(old(self).ctrl, mid, gout));
                assert(self.ctrl == with_memory(mid, self.ctrl.data_access_manager.main_memory));
                assert(clock_step(old(self).ctrl, self.ctrl, gout));
                assert(gout == (if lines@.len() == 1 {
                    Option::Some(lines@[0])
                } else {
                    Option::<String>::None
                }));
            }
        } else {
            lines.push(cycle_count_line(self.cycle_count));
        }
        lines
    }
}

} // verus!
