//! The loop that carries bytes between a terminal and a command that runs in a
//! terminal of its own.

use vstd::prelude::*;

verus! {

/// What can be read, or has happened.
#[derive(Debug, Clone, Copy, PartialEq, Eq, Structural)]
pub struct Ready {
    /// The terminal's size may have changed.
    pub resized: bool,
    /// There is input to read.
    pub input: bool,
    /// There is output of the command to read.
    pub output: bool,
    /// The command has closed its end.
    pub hangup: bool,
    /// The command itself has ended, though what it started may still hold the other
    /// end.
    pub exited: bool,
}

/// What waiting came to.
#[derive(Debug, Clone, Copy, PartialEq, Eq, Structural)]
pub enum Polled {
    Ready(Ready),
    /// A signal came.
    Interrupted,
    Failed,
}

/// One thing to do.
#[derive(Debug, Clone, Copy, PartialEq, Eq, Structural)]
pub enum Task {
    /// Take over the terminal's size.
    Resize,
    /// Read input.
    ReadInput,
    /// Read output.
    ReadOutput,
    /// Leave the loop.
    Leave,
    /// The round is over: see to what is due from time to time.
    Tick,
    /// Leave the loop with an error.
    Fail,
}

/// What to do with input that was read.
#[derive(Debug, Clone, Copy, PartialEq, Eq, Structural)]
pub enum InputStep {
    /// Hand it on.
    Forward,
    /// There is no more.
    Ended,
    /// Try again in the next round.
    Retry,
}

/// The state of the loop: whether input is still asked for.
#[derive(Debug, Clone, Copy, PartialEq, Eq, Structural)]
pub struct Wire {
    pub asking: bool,
}

/// A task, if there is reason for it.
pub open spec fn task_if(due: bool, t: Task) -> Seq<Task> {
    if due {
        seq![t]
    } else {
        Seq::empty()
    }
}

/// Whether the loop is left: the command is gone, and nothing that it wrote is left to
/// read.
pub open spec fn leaves(r: Ready) -> bool {
    (r.hangup || r.exited) && !r.output
}

/// What a round does, in order.
pub open spec fn tasks_of(p: Polled) -> Seq<Task> {
    match p {
        Polled::Ready(r) => task_if(r.resized, Task::Resize) + task_if(r.input, Task::ReadInput) + task_if(
            r.output,
            Task::ReadOutput,
        ) + task_if(leaves(r), Task::Leave) + task_if(!leaves(r), Task::Tick),
        Polled::Interrupted => Seq::empty(),
        Polled::Failed => seq![Task::Fail],
    }
}

impl Wire {
    /// At first input is asked for.
    pub fn new() -> (r: Wire)
        ensures
            r.asking,
    {
        Wire { asking: true }
    }

    /// What a round does, in order. After a signal it does nothing.
    pub fn round(&self, polled: Polled) -> (r: Vec<Task>)
        ensures
            r@ == tasks_of(polled),
    {
        let mut out: Vec<Task> = Vec::new();
        match polled {
            Polled::Ready(ready) => {
                if ready.resized {
                    out.push(Task::Resize);
                }
                if ready.input {
                    out.push(Task::ReadInput);
                }
                if ready.output {
                    out.push(Task::ReadOutput);
                }
                if (ready.hangup || ready.exited) && !ready.output {
                    out.push(Task::Leave);
                } else {
                    out.push(Task::Tick);
                }
            },
            Polled::Interrupted => (),
            Polled::Failed => out.push(Task::Fail),
        }
        proof {
            assert(out@ =~= tasks_of(polled));
        }
        out
    }

    /// Input was read: `n` bytes, none at its end, less than none after an error. At
    /// its end no more is asked for, while the output is still carried.
    pub fn on_input(&mut self, n: i64) -> (r: InputStep)
        ensures
            r == (if n > 0 {
                InputStep::Forward
            } else if n == 0 {
                InputStep::Ended
            } else {
                InputStep::Retry
            }),
            final(self).asking == (old(self).asking && n != 0),
    {
        if n > 0 {
            InputStep::Forward
        } else if n == 0 {
            self.asking = false;
            InputStep::Ended
        } else {
            InputStep::Retry
        }
    }

    /// Output was read: `n` bytes, none at its end, less than none after an error.
    /// Whether the loop goes on.
    pub fn on_output(&self, n: i64) -> (r: bool)
        ensures
            r == (n > 0),
    {
        n > 0
    }
}

/// The loop is not left while output can be read, so that nothing that a command has
/// written by then is lost; it is read in that round.
pub proof fn law_output_is_read_before_leaving(r: Ready)
    ensures
        r.output ==> !tasks_of(Polled::Ready(r)).contains(Task::Leave),
        r.output ==> tasks_of(Polled::Ready(r)).contains(Task::ReadOutput),
{
    let t = tasks_of(Polled::Ready(r));
    if r.output {
        let i = task_if(r.resized, Task::Resize).len() + task_if(r.input, Task::ReadInput).len();
        assert(t[i as int] == Task::ReadOutput);
    }
}

/// Once the command is gone, whoever else holds its end, and nothing is left to read,
/// the loop is left, and that is the last that is done.
pub proof fn law_loop_ends_with_the_command(r: Ready)
    requires
        r.hangup || r.exited,
        !r.output,
    ensures
        tasks_of(Polled::Ready(r)).len() > 0,
        tasks_of(Polled::Ready(r)).last() == Task::Leave,
{
}

/// What a signal interrupts does nothing, and waiting is taken up again.
pub proof fn law_signals_change_nothing()
    ensures
        tasks_of(Polled::Interrupted).len() == 0,
{
}

/// Each thing that is ready has its task, in this order: the new size, the input, the
/// output, and last whether to leave or to look at the clock.
pub proof fn law_ready_things_have_their_task(r: Ready)
    ensures
        ({
            let ts = tasks_of(Polled::Ready(r));
            &&& ts.contains(Task::Resize) <==> r.resized
            &&& ts.contains(Task::ReadInput) <==> r.input
            &&& ts.contains(Task::ReadOutput) <==> r.output
            &&& ts.contains(Task::Leave) <==> (r.hangup || r.exited) && !r.output
            &&& ts.contains(Task::Tick) <==> !((r.hangup || r.exited) && !r.output)
            &&& !ts.contains(Task::Fail)
            &&& r.resized ==> ts[0] == Task::Resize
            &&& ts.last() == Task::Leave || ts.last() == Task::Tick
        }),
{
    let ts = tasks_of(Polled::Ready(r));
    let a = task_if(r.resized, Task::Resize);
    let b = task_if(r.input, Task::ReadInput);
    let c = task_if(r.output, Task::ReadOutput);
    let i = a.len() as int;
    let j = i + b.len();
    let k = j + c.len();
    assert(r.resized ==> ts[0] == Task::Resize);
    assert(r.input ==> ts[i] == Task::ReadInput);
    assert(r.output ==> ts[j] == Task::ReadOutput);
    assert(leaves(r) ==> ts[k] == Task::Leave);
    assert(!leaves(r) ==> ts[k] == Task::Tick);
    assert(ts.len() == k + 1);
}

} // verus!
