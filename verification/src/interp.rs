//! The interpreter: one thread of control over an explicit stack of frames.
//!
//! The stack is a vector, not the stack of the host, so that how deep a
//! program calls is bounded by memory alone.  Of the instruction set only
//! the return without a value is executed; any other opcode ends the run
//! with an error that names it.

use vstd::prelude::*;
use crate::linker::RuntimeMethod;
use crate::model::views;

verus! {

/// The opcode of the return without a value.
pub const RETURN: u8 = 0xB1;

/// Why a run was given up.
#[derive(Debug, Clone, Copy, PartialEq, Eq, Structural)]
pub enum RunError {
    /// The byte at the program counter is no opcode that this interpreter
    /// executes.
    UnknownInstruction { opcode: u8 },
}

/// The state of one method invocation in progress.
#[derive(Debug)]
pub struct Frame {
    /// The offset in `code` of the next instruction.
    pub pc: usize,
    pub code: Vec<u8>,
}

/// The mathematical value of a [`Frame`].
pub struct FrameView {
    pub pc: int,
    pub code: Seq<u8>,
}

impl View for Frame {
    type V = FrameView;

    open spec fn view(&self) -> FrameView {
        FrameView { pc: self.pc as int, code: self.code@ }
    }
}

/// A thread of control: its call stack, the running frame last.  A thread
/// without frames has ended.
#[derive(Debug)]
pub struct Thread {
    pub frames: Vec<Frame>,
}

impl View for Thread {
    type V = Seq<FrameView>;

    open spec fn view(&self) -> Seq<FrameView> {
        views(self.frames@)
    }
}

/// How a run ends and which frames it leaves, or `None` where it does not
/// end.
///
/// A run works on the last frame.  Without frames it has succeeded.  A
/// return drops the frame and the run goes on below it; any other opcode
/// ends the run with an error and leaves the stack as it is.  Where the
/// program counter of the last frame is outside its code there is nothing to
/// fetch and nothing that drops the frame: the run goes on for ever.
pub open spec fn spec_run(frames: Seq<FrameView>) -> Option<(Result<(), RunError>, Seq<FrameView>)>
    decreases frames.len(),
{
    if frames.len() == 0 {
        Some((Ok(()), frames))
    } else {
        let top = frames.last();
        if !(0 <= top.pc < top.code.len()) {
            None
        } else if top.code[top.pc] == RETURN {
            spec_run(frames.drop_last())
        } else {
            Some((Err(RunError::UnknownInstruction { opcode: top.code[top.pc] }), frames))
        }
    }
}

/// The call stack of a thread that is about to run a method with the body
/// `code`: one frame, at the first instruction.
pub open spec fn spec_initial_stack(code: Seq<u8>) -> Seq<FrameView> {
    seq![FrameView { pc: 0, code }]
}

/// A thread that is about to run `method`: one frame, at its first
/// instruction.
pub fn create_thread(method: &RuntimeMethod) -> (thread: Thread)
    ensures
        thread@ == spec_initial_stack(method@.code.code),
{
    let frame = Frame { pc: 0, code: method.code.code.clone() };
    let mut frames: Vec<Frame> = Vec::new();
    frames.push(frame);
    let thread = Thread { frames };
    assert(thread@ =~= spec_initial_stack(method@.code.code));
    thread
}

impl Thread {
    /// Whether a run of this thread ends.
    pub fn halts(&self) -> (res: bool)
        ensures
            res == (spec_run(self@) is Some),
    {
        let mut n: usize = self.frames.len();
        assert(self@.take(n as int) =~= self@);
        while n > 0
            invariant
                n <= self.frames@.len(),
                (spec_run(self@) is Some) == (spec_run(self@.take(n as int)) is Some),
            decreases n,
        {
            let frame = &self.frames[n - 1];
            assert(self@.take(n as int).last() == frame@);
            assert(self@.take(n as int).drop_last() =~= self@.take(n - 1));
            if frame.pc >= frame.code.len() {
                return false;
            }
            if frame.code[frame.pc] != RETURN {
                return true;
            }
            n = n - 1;
        }
        true
    }
}

/// Runs `thread` until its call stack is empty or an instruction fails.
///
/// A thread whose run does not end is left out: the interpreter has no way
/// to give such a run up.
pub fn run_thread(thread: &mut Thread) -> (res: Result<(), RunError>)
    requires
        spec_run(old(thread)@) is Some,
    ensures
        spec_run(old(thread)@) == Some((res, final(thread)@)),
        res is Ok ==> final(thread)@.len() == 0,
{
    while thread.frames.len() > 0
        invariant
            spec_run(thread@) is Some,
            spec_run(thread@) == spec_run(old(thread)@),
        decreases thread.frames@.len(),
    {
        let top: usize = thread.frames.len() - 1;
        let frame = &thread.frames[top];
        assert(frame@ == thread@.last());
        let opcode: u8 = frame.code[frame.pc];
        if opcode == RETURN {
            proof {
                assert(views(thread.frames@.drop_last()) =~= thread@.drop_last());
            }
            thread.frames.pop();
        } else {
            return Err(RunError::UnknownInstruction { opcode });
        }
    }
    Ok(())
}

/// Runs `method` on a thread of its own, from its first instruction.
///
/// The method must have a body: without one there is no instruction to
/// fetch, and the run would not end.
pub fn run(method: &RuntimeMethod) -> (res: Result<(), RunError>)
    requires
        method@.code.code.len() > 0,
    ensures
        res == if method@.code.code[0] == RETURN {
            Ok::<(), RunError>(())
        } else {
            Err::<(), RunError>(RunError::UnknownInstruction { opcode: method@.code.code[0] })
        },
{
    let mut thread = create_thread(method);
    proof {
        lemma_run_initial_stack(method@.code.code);
    }
    run_thread(&mut thread)
}

/// A run pushes no frame and changes none: a run that succeeds leaves no
/// frame at all, and a run that fails leaves the frame in which it failed
/// and every frame below it as they were.
pub proof fn lemma_run_unwinds(frames: Seq<FrameView>)
    requires
        spec_run(frames) is Some,
    ensures
        ({
            let (res, left) = spec_run(frames)->Some_0;
            &&& left.len() <= frames.len()
            &&& left == frames.take(left.len() as int)
            &&& res is Ok <==> left.len() == 0
            &&& res matches Err(RunError::UnknownInstruction { opcode }) ==> 0 <= left.last().pc
                < left.last().code.len() && left.last().code[left.last().pc] == opcode && opcode
                != RETURN
        }),
    decreases frames.len(),
{
    if frames.len() > 0 {
        let top = frames.last();
        if top.code[top.pc] == RETURN {
            lemma_run_unwinds(frames.drop_last());
            let (res, left) = spec_run(frames)->Some_0;
            assert(left =~= frames.take(left.len() as int));
        } else {
            assert(frames =~= frames.take(frames.len() as int));
        }
    } else {
        assert(frames =~= frames.take(0));
    }
}

/// A run from the first instruction of a body ends: in success, with no
/// frame left, where that instruction is a return, and else in an error that
/// names the opcode and leaves the frame.
pub proof fn lemma_run_initial_stack(code: Seq<u8>)
    requires
        code.len() > 0,
    ensures
        code[0] == RETURN ==> spec_run(spec_initial_stack(code)) == Some(
            (Ok::<(), RunError>(()), Seq::<FrameView>::empty()),
        ),
        code[0] != RETURN ==> spec_run(spec_initial_stack(code)) == Some(
            (
                Err::<(), RunError>(RunError::UnknownInstruction { opcode: code[0] }),
                spec_initial_stack(code),
            ),
        ),
{
    let frames = spec_initial_stack(code);
    assert(frames.last() == FrameView { pc: 0, code });
    assert(frames.drop_last() =~= Seq::<FrameView>::empty());
    assert(spec_run(Seq::<FrameView>::empty()) == Some(
        (Ok::<(), RunError>(()), Seq::<FrameView>::empty()),
    ));
}

} // verus!
