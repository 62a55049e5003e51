//! State and decisions of the interactive loop: prompt strings, the hook
//! registry with its per-kind id spaces, the multi-line input buffer, and
//! the dispatch policy for a completed statement. The line editor, the
//! embedded interpreter and the hook callbacks live outside the library;
//! they consult these functions for every decision.

use vstd::prelude::*;
use crate::inttext::{int_text, i64_to_string};
use crate::strutil::to_owned_string;

verus! {

/// The REPL's tunable state: prompt strings, and whether a statement
/// checker and a code executor have been registered.
pub struct REPLState {
    pub primary_prompt: String,
    pub continuation_prompt: String,
    pub right_prompt: String,
    pub checker_registered: bool,
    pub executor_registered: bool,
}

/// The initial REPL state: the default prompts and no registered hooks
/// into the interpreter.
pub fn get_repl_state() -> (r: REPLState)
    ensures
        r.primary_prompt@ == "ship> "@,
        r.continuation_prompt@ == "..... "@,
        r.right_prompt@ == ""@,
        !r.checker_registered,
        !r.executor_registered,
{
    REPLState {
        primary_prompt: to_owned_string("ship> "),
        continuation_prompt: to_owned_string("..... "),
        right_prompt: to_owned_string(""),
        checker_registered: false,
        executor_registered: false,
    }
}

pub fn set_primary_prompt(state: &mut REPLState, value: String)
    ensures
        final(state).primary_prompt@ == value@,
        final(state).continuation_prompt == old(state).continuation_prompt,
        final(state).right_prompt == old(state).right_prompt,
        final(state).checker_registered == old(state).checker_registered,
        final(state).executor_registered == old(state).executor_registered,
{
    state.primary_prompt = value;
}

pub fn get_primary_prompt(state: &REPLState) -> (r: String)
    ensures
        r@ == state.primary_prompt@,
{
    to_owned_string(state.primary_prompt.as_str())
}

pub fn set_continuation_prompt(state: &mut REPLState, value: String)
    ensures
        final(state).continuation_prompt@ == value@,
        final(state).primary_prompt == old(state).primary_prompt,
        final(state).right_prompt == old(state).right_prompt,
        final(state).checker_registered == old(state).checker_registered,
        final(state).executor_registered == old(state).executor_registered,
{
    state.continuation_prompt = value;
}

pub fn get_continuation_prompt(state: &REPLState) -> (r: String)
    ensures
        r@ == state.continuation_prompt@,
{
    to_owned_string(state.continuation_prompt.as_str())
}

pub fn set_right_prompt(state: &mut REPLState, value: String)
    ensures
        final(state).right_prompt@ == value@,
        final(state).primary_prompt == old(state).primary_prompt,
        final(state).continuation_prompt == old(state).continuation_prompt,
        final(state).checker_registered == old(state).checker_registered,
        final(state).executor_registered == old(state).executor_registered,
{
    state.right_prompt = value;
}

pub fn get_right_prompt(state: &REPLState) -> (r: String)
    ensures
        r@ == state.right_prompt@,
{
    to_owned_string(state.right_prompt.as_str())
}

/// Marks a statement checker as registered; the host keeps the callable.
pub fn set_statement_checker(state: &mut REPLState)
    ensures
        final(state).checker_registered,
        final(state).primary_prompt == old(state).primary_prompt,
        final(state).continuation_prompt == old(state).continuation_prompt,
        final(state).right_prompt == old(state).right_prompt,
        final(state).executor_registered == old(state).executor_registered,
{
    state.checker_registered = true;
}

/// Marks a code executor as registered; the host keeps the callable.
pub fn set_code_executor(state: &mut REPLState)
    ensures
        final(state).executor_registered,
        final(state).primary_prompt == old(state).primary_prompt,
        final(state).continuation_prompt == old(state).continuation_prompt,
        final(state).right_prompt == old(state).right_prompt,
        final(state).checker_registered == old(state).checker_registered,
{
    state.executor_registered = true;
}

/// Whether a buffered statement is complete: the registered checker's
/// verdict where one was consulted; with no checker, every statement is
/// taken as complete rather than blocking the prompt.
pub fn is_complete_statement(state: &REPLState, checker_verdict: Option<bool>) -> (r: bool)
    ensures
        r == (match checker_verdict {
            Some(b) => b,
            None => true,
        }),
        !state.checker_registered ==> r == (checker_verdict is None || checker_verdict
            == Some(true)),
{
    match checker_verdict {
        Some(b) => b,
        None => true,
    }
}

/// The prompt the line editor renders: continuation or primary, always
/// behind a color reset so stale styling never bleeds in.
pub struct ShipPrompt {
    pub is_continuation: bool,
}

impl ShipPrompt {
    pub fn new() -> (r: ShipPrompt)
        ensures
            !r.is_continuation,
    {
        ShipPrompt { is_continuation: false }
    }

    /// The left prompt text: the ANSI reset, then the prompt the mode
    /// selects.
    pub fn render_prompt_left(&self, state: &REPLState) -> (r: String)
        ensures
            self.is_continuation ==> r@ == "\u{1b}[0m"@ + state.continuation_prompt@,
            !self.is_continuation ==> r@ == "\u{1b}[0m"@ + state.primary_prompt@,
    {
        let mut out = to_owned_string("\u{1b}[0m");
        if self.is_continuation {
            out.append(state.continuation_prompt.as_str());
        } else {
            out.append(state.primary_prompt.as_str());
        }
        out
    }

    /// The right prompt text, behind the same reset.
    pub fn render_prompt_right(&self, state: &REPLState) -> (r: String)
        ensures
            r@ == "\u{1b}[0m"@ + state.right_prompt@,
    {
        let mut out = to_owned_string("\u{1b}[0m");
        out.append(state.right_prompt.as_str());
        out
    }
}

/// The hook registry: per-kind id lists in registration order, with a
/// monotonically increasing id counter per kind.
pub struct HookRegistry {
    pub before_prompt: Vec<u64>,
    pub before_continuation: Vec<u64>,
    pub before_execute: Vec<u64>,
    pub after_execute: Vec<u64>,
    pub next_before_prompt: u64,
    pub next_before_continuation: u64,
    pub next_before_execute: u64,
    pub next_after_execute: u64,
}

/// Ids of one kind are strictly increasing (hence unique) and below the
/// kind's next counter.
pub open spec fn ids_wf(ids: Seq<u64>, next: u64) -> bool {
    (forall|i: int, j: int| 0 <= i < j < ids.len() ==> ids[i] < ids[j]) && (forall|i: int|
        0 <= i < ids.len() ==> #[trigger] ids[i] < next)
}

impl HookRegistry {
    pub open spec fn wf(&self) -> bool {
        ids_wf(self.before_prompt@, self.next_before_prompt) && ids_wf(
            self.before_continuation@,
            self.next_before_continuation,
        ) && ids_wf(self.before_execute@, self.next_before_execute) && ids_wf(
            self.after_execute@,
            self.next_after_execute,
        )
    }
}

/// An empty registry; each kind's ids start at 1.
pub fn get_hooks() -> (r: HookRegistry)
    ensures
        r.wf(),
        r.before_prompt@ =~= Seq::<u64>::empty(),
        r.before_continuation@ =~= Seq::<u64>::empty(),
        r.before_execute@ =~= Seq::<u64>::empty(),
        r.after_execute@ =~= Seq::<u64>::empty(),
        r.next_before_prompt == 1,
        r.next_before_continuation == 1,
        r.next_before_execute == 1,
        r.next_after_execute == 1,
{
    HookRegistry {
        before_prompt: Vec::new(),
        before_continuation: Vec::new(),
        before_execute: Vec::new(),
        after_execute: Vec::new(),
        next_before_prompt: 1,
        next_before_continuation: 1,
        next_before_execute: 1,
        next_after_execute: 1,
    }
}

/// Removes the hook with the given id from one id list.
fn remove_id(ids: &mut Vec<u64>, id: u64) -> (r: bool)
    ensures
        r == old(ids)@.contains(id),
        !r ==> final(ids)@ == old(ids)@,
        r ==> exists|i: int|
            0 <= i < old(ids)@.len() && old(ids)@[i] == id && final(ids)@ == old(ids)@.remove(i),
{
    let mut i: usize = 0;
    while i < ids.len()
        invariant
            i <= ids@.len(),
            ids@ == old(ids)@,
            forall|j: int| 0 <= j < i ==> ids@[j] != id,
        decreases ids@.len() - i,
    {
        if ids[i] == id {
            let _ = ids.remove(i);
            proof {
                assert(old(ids)@[i as int] == id);
            }
            return true;
        }
        i = i + 1;
    }
    proof {
        if old(ids)@.contains(id) {
            let w = choose|w: int| 0 <= w < old(ids)@.len() && old(ids)@[w] == id;
        }
    }
    false
}

proof fn lemma_ids_wf_push(ids: Seq<u64>, next: u64)
    requires
        ids_wf(ids, next),
        next < u64::MAX,
    ensures
        ids_wf(ids.push(next), (next + 1) as u64),
{
    let p = ids.push(next);
    assert forall|i: int, j: int| 0 <= i < j < p.len() implies p[i] < p[j] by {
        if j == p.len() - 1 {
            assert(p[i] == ids[i]);
        }
    }
    assert forall|i: int| 0 <= i < p.len() implies #[trigger] p[i] < next + 1 by {
        if i < p.len() - 1 {
            assert(p[i] == ids[i]);
        }
    }
}

proof fn lemma_ids_wf_remove(ids: Seq<u64>, next: u64, i: int)
    requires
        ids_wf(ids, next),
        0 <= i < ids.len(),
    ensures
        ids_wf(ids.remove(i), next),
{
    let r = ids.remove(i);
    assert forall|a: int, b: int| 0 <= a < b < r.len() implies r[a] < r[b] by {
        let a0 = if a < i {
            a
        } else {
            a + 1
        };
        let b0 = if b < i {
            b
        } else {
            b + 1
        };
        assert(r[a] == ids[a0]);
        assert(r[b] == ids[b0]);
    }
    assert forall|a: int| 0 <= a < r.len() implies #[trigger] r[a] < next by {
        let a0 = if a < i {
            a
        } else {
            a + 1
        };
        assert(r[a] == ids[a0]);
    }
}

/// Registers a hook of one kind: a fresh id, appended in order.
pub fn register_before_prompt_hook(reg: &mut HookRegistry) -> (r: u64)
    requires
        old(reg).wf(),
        old(reg).next_before_prompt < u64::MAX,
    ensures
        final(reg).wf(),
        r == old(reg).next_before_prompt,
        final(reg).next_before_prompt == old(reg).next_before_prompt + 1,
        final(reg).before_prompt@ == old(reg).before_prompt@.push(r),
        final(reg).next_before_continuation == old(reg).next_before_continuation,
        final(reg).next_before_execute == old(reg).next_before_execute,
        final(reg).next_after_execute == old(reg).next_after_execute,
        final(reg).before_continuation@ == old(reg).before_continuation@,
        final(reg).before_execute@ == old(reg).before_execute@,
        final(reg).after_execute@ == old(reg).after_execute@,
{
    let id = reg.next_before_prompt;
    reg.next_before_prompt = id + 1;
    reg.before_prompt.push(id);
    proof {
        lemma_ids_wf_push(old(reg).before_prompt@, id);
    }
    id
}

pub fn register_before_continuation_hook(reg: &mut HookRegistry) -> (r: u64)
    requires
        old(reg).wf(),
        old(reg).next_before_continuation < u64::MAX,
    ensures
        final(reg).wf(),
        r == old(reg).next_before_continuation,
        final(reg).next_before_continuation == old(reg).next_before_continuation + 1,
        final(reg).before_continuation@ == old(reg).before_continuation@.push(r),
        final(reg).next_before_prompt == old(reg).next_before_prompt,
        final(reg).next_before_execute == old(reg).next_before_execute,
        final(reg).next_after_execute == old(reg).next_after_execute,
        final(reg).before_prompt@ == old(reg).before_prompt@,
        final(reg).before_execute@ == old(reg).before_execute@,
        final(reg).after_execute@ == old(reg).after_execute@,
{
    let id = reg.next_before_continuation;
    reg.next_before_continuation = id + 1;
    reg.before_continuation.push(id);
    proof {
        lemma_ids_wf_push(old(reg).before_continuation@, id);
    }
    id
}

pub fn register_before_execute_hook(reg: &mut HookRegistry) -> (r: u64)
    requires
        old(reg).wf(),
        old(reg).next_before_execute < u64::MAX,
    ensures
        final(reg).wf(),
        r == old(reg).next_before_execute,
        final(reg).next_before_execute == old(reg).next_before_execute + 1,
        final(reg).before_execute@ == old(reg).before_execute@.push(r),
        final(reg).next_before_prompt == old(reg).next_before_prompt,
        final(reg).next_before_continuation == old(reg).next_before_continuation,
        final(reg).next_after_execute == old(reg).next_after_execute,
        final(reg).before_prompt@ == old(reg).before_prompt@,
        final(reg).before_continuation@ == old(reg).before_continuation@,
        final(reg).after_execute@ == old(reg).after_execute@,
{
    let id = reg.next_before_execute;
    reg.next_before_execute = id + 1;
    reg.before_execute.push(id);
    proof {
        lemma_ids_wf_push(old(reg).before_execute@, id);
    }
    id
}

pub fn register_after_execute_hook(reg: &mut HookRegistry) -> (r: u64)
    requires
        old(reg).wf(),
        old(reg).next_after_execute < u64::MAX,
    ensures
        final(reg).wf(),
        r == old(reg).next_after_execute,
        final(reg).next_after_execute == old(reg).next_after_execute + 1,
        final(reg).after_execute@ == old(reg).after_execute@.push(r),
        final(reg).next_before_prompt == old(reg).next_before_prompt,
        final(reg).next_before_continuation == old(reg).next_before_continuation,
        final(reg).next_before_execute == old(reg).next_before_execute,
        final(reg).before_prompt@ == old(reg).before_prompt@,
        final(reg).before_continuation@ == old(reg).before_continuation@,
        final(reg).before_execute@ == old(reg).before_execute@,
{
    let id = reg.next_after_execute;
    reg.next_after_execute = id + 1;
    reg.after_execute.push(id);
    proof {
        lemma_ids_wf_push(old(reg).after_execute@, id);
    }
    id
}

/// Unregisters a hook by id; reports whether it was found.
pub fn unregister_before_prompt_hook(reg: &mut HookRegistry, id: u64) -> (r: bool)
    requires
        old(reg).wf(),
    ensures
        final(reg).wf(),
        r == old(reg).before_prompt@.contains(id),
        !r ==> final(reg).before_prompt@ == old(reg).before_prompt@,
        r ==> exists|i: int|
            0 <= i < old(reg).before_prompt@.len() && old(reg).before_prompt@[i] == id
                && final(reg).before_prompt@ == old(reg).before_prompt@.remove(i),
        final(reg).before_continuation@ == old(reg).before_continuation@,
        final(reg).before_execute@ == old(reg).before_execute@,
        final(reg).after_execute@ == old(reg).after_execute@,
{
    let r = remove_id(&mut reg.before_prompt, id);
    proof {
        if r {
            let i = choose|i: int|
                0 <= i < old(reg).before_prompt@.len() && old(reg).before_prompt@[i] == id
                    && reg.before_prompt@ == old(reg).before_prompt@.remove(i);
            lemma_ids_wf_remove(old(reg).before_prompt@, old(reg).next_before_prompt, i);
        }
    }
    r
}

pub fn unregister_before_continuation_hook(reg: &mut HookRegistry, id: u64) -> (r: bool)
    requires
        old(reg).wf(),
    ensures
        final(reg).wf(),
        r == old(reg).before_continuation@.contains(id),
        !r ==> final(reg).before_continuation@ == old(reg).before_continuation@,
        r ==> exists|i: int|
            0 <= i < old(reg).before_continuation@.len() && old(reg).before_continuation@[i] == id
                && final(reg).before_continuation@ == old(reg).before_continuation@.remove(i),
        final(reg).before_prompt@ == old(reg).before_prompt@,
        final(reg).before_execute@ == old(reg).before_execute@,
        final(reg).after_execute@ == old(reg).after_execute@,
{
    let r = remove_id(&mut reg.before_continuation, id);
    proof {
        if r {
            let i = choose|i: int|
                0 <= i < old(reg).before_continuation@.len() && old(reg).before_continuation@[i]
                    == id && reg.before_continuation@ == old(reg).before_continuation@.remove(i);
            lemma_ids_wf_remove(
                old(reg).before_continuation@,
                old(reg).next_before_continuation,
                i,
            );
        }
    }
    r
}

pub fn unregister_before_execute_hook(reg: &mut HookRegistry, id: u64) -> (r: bool)
    requires
        old(reg).wf(),
    ensures
        final(reg).wf(),
        r == old(reg).before_execute@.contains(id),
        !r ==> final(reg).before_execute@ == old(reg).before_execute@,
        r ==> exists|i: int|
            0 <= i < old(reg).before_execute@.len() && old(reg).before_execute@[i] == id
                && final(reg).before_execute@ == old(reg).before_execute@.remove(i),
        final(reg).before_prompt@ == old(reg).before_prompt@,
        final(reg).before_continuation@ == old(reg).before_continuation@,
        final(reg).after_execute@ == old(reg).after_execute@,
{
    let r = remove_id(&mut reg.before_execute, id);
    proof {
        if r {
            let i = choose|i: int|
                0 <= i < old(reg).before_execute@.len() && old(reg).before_execute@[i] == id
                    && reg.before_execute@ == old(reg).before_execute@.remove(i);
            lemma_ids_wf_remove(old(reg).before_execute@, old(reg).next_before_execute, i);
        }
    }
    r
}

pub fn unregister_after_execute_hook(reg: &mut HookRegistry, id: u64) -> (r: bool)
    requires
        old(reg).wf(),
    ensures
        final(reg).wf(),
        r == old(reg).after_execute@.contains(id),
        !r ==> final(reg).after_execute@ == old(reg).after_execute@,
        r ==> exists|i: int|
            0 <= i < old(reg).after_execute@.len() && old(reg).after_execute@[i] == id
                && final(reg).after_execute@ == old(reg).after_execute@.remove(i),
        final(reg).before_prompt@ == old(reg).before_prompt@,
        final(reg).before_continuation@ == old(reg).before_continuation@,
        final(reg).before_execute@ == old(reg).before_execute@,
{
    let r = remove_id(&mut reg.after_execute, id);
    proof {
        if r {
            let i = choose|i: int|
                0 <= i < old(reg).after_execute@.len() && old(reg).after_execute@[i] == id
                    && reg.after_execute@ == old(reg).after_execute@.remove(i);
            lemma_ids_wf_remove(old(reg).after_execute@, old(reg).next_after_execute, i);
        }
    }
    r
}

fn copy_ids(ids: &Vec<u64>) -> (r: Vec<u64>)
    ensures
        r@ == ids@,
{
    let mut out: Vec<u64> = Vec::new();
    let mut i: usize = 0;
    while i < ids.len()
        invariant
            i <= ids@.len(),
            out@ == ids@.take(i as int),
        decreases ids@.len() - i,
    {
        out.push(ids[i]);
        proof {
            assert(ids@.take(i as int).push(ids@[i as int]) =~= ids@.take(i + 1));
        }
        i = i + 1;
    }
    proof {
        assert(ids@.take(ids@.len() as int) =~= ids@);
    }
    out
}

/// Ids of one kind, in registration order.
pub fn list_before_prompt_hook_ids(reg: &HookRegistry) -> (r: Vec<u64>)
    ensures
        r@ == reg.before_prompt@,
{
    copy_ids(&reg.before_prompt)
}

pub fn list_before_continuation_hook_ids(reg: &HookRegistry) -> (r: Vec<u64>)
    ensures
        r@ == reg.before_continuation@,
{
    copy_ids(&reg.before_continuation)
}

pub fn list_before_execute_hook_ids(reg: &HookRegistry) -> (r: Vec<u64>)
    ensures
        r@ == reg.before_execute@,
{
    copy_ids(&reg.before_execute)
}

pub fn list_after_execute_hook_ids(reg: &HookRegistry) -> (r: Vec<u64>)
    ensures
        r@ == reg.after_execute@,
{
    copy_ids(&reg.after_execute)
}

/// The ids whose callbacks fire before a fresh prompt, in registration
/// order; the host invokes each in turn.
pub fn fire_before_prompt_hooks(reg: &HookRegistry) -> (r: Vec<u64>)
    ensures
        r@ == reg.before_prompt@,
{
    copy_ids(&reg.before_prompt)
}

/// The ids whose callbacks fire before a continuation prompt.
pub fn fire_before_continuation_hooks(reg: &HookRegistry) -> (r: Vec<u64>)
    ensures
        r@ == reg.before_continuation@,
{
    copy_ids(&reg.before_continuation)
}

/// The ids whose callbacks fire before executing a statement.
pub fn fire_before_execute_hooks(reg: &HookRegistry) -> (r: Vec<u64>)
    ensures
        r@ == reg.before_execute@,
{
    copy_ids(&reg.before_execute)
}

/// The ids whose callbacks fire after executing a statement.
pub fn fire_after_execute_hooks(reg: &HookRegistry) -> (r: Vec<u64>)
    ensures
        r@ == reg.after_execute@,
{
    copy_ids(&reg.after_execute)
}

/// Whitespace as the blank-statement test sees it.
pub open spec fn is_blank_char(c: char) -> bool {
    c == ' ' || c == '\t' || c == '\n' || c == '\r'
}

pub open spec fn all_blank(s: Seq<char>) -> bool {
    forall|i: int| 0 <= i < s.len() ==> is_blank_char(#[trigger] s[i])
}

/// The multi-line input buffer of the prompt loop.
pub struct ReplBuffer {
    buffer: String,
}

/// What the loop does with the buffer after a line arrived and the
/// completeness check ran.
pub enum ReplStep {
    NotComplete,
    Blank,
    Execute(String),
}

impl ReplBuffer {
    pub closed spec fn text(&self) -> Seq<char> {
        self.buffer@
    }

    pub fn new() -> (r: ReplBuffer)
        ensures
            r.text() =~= Seq::<char>::empty(),
    {
        ReplBuffer { buffer: String::new() }
    }

    /// Appends an input line: a newline joins it to earlier lines.
    pub fn absorb_line(&mut self, line: &str)
        ensures
            old(self).text().len() == 0 ==> final(self).text() == line@,
            old(self).text().len() > 0 ==> final(self).text() == old(self).text() + "\n"@
                + line@,
    {
        if self.buffer.as_str().unicode_len() > 0 {
            self.buffer.append("\n");
        }
        self.buffer.append(line);
        proof {
            if old(self).text().len() == 0 {
                assert(old(self).text() + line@ =~= line@);
            }
        }
    }

    /// Consumes the buffer once the statement is complete: an incomplete
    /// statement stays buffered, a blank one is dropped, and anything
    /// else is handed out for execution. The buffer is empty afterwards
    /// unless the statement was incomplete.
    pub fn take_if_complete(&mut self, complete: bool) -> (r: ReplStep)
        ensures
            !complete ==> r is NotComplete && final(self).text() == old(self).text(),
            complete && all_blank(old(self).text()) ==> r is Blank && final(self).text()
                == Seq::<char>::empty(),
            complete && !all_blank(old(self).text()) ==> (match r {
                ReplStep::Execute(s) => s@ == old(self).text() && final(self).text()
                    == Seq::<char>::empty(),
                _ => false,
            }),
    {
        if !complete {
            return ReplStep::NotComplete;
        }
        let len = self.buffer.as_str().unicode_len();
        let mut i: usize = 0;
        let mut blank = true;
        while i < len
            invariant
                i <= len,
                len == self.buffer@.len(),
                self.buffer@ == old(self).text(),
                blank == (forall|j: int| 0 <= j < i ==> is_blank_char(#[trigger] self.buffer@[j])),
            decreases len - i,
        {
            let c = self.buffer.as_str().get_char(i);
            if !(c == ' ' || c == '\t' || c == '\n' || c == '\r') {
                assert(!is_blank_char(self.buffer@[i as int]));
                blank = false;
            }
            proof {
                if blank {
                    assert forall|j: int| 0 <= j < i + 1 implies is_blank_char(
                        #[trigger] self.buffer@[j],
                    ) by {}
                }
            }
            i = i + 1;
        }
        if blank {
            self.buffer = String::new();
            return ReplStep::Blank;
        }
        assert(!all_blank(old(self).text()));
        let out = to_owned_string(self.buffer.as_str());
        self.buffer = String::new();
        ReplStep::Execute(out)
    }

    /// The buffered text so far.
    pub fn current_text(&self) -> (r: String)
        ensures
            r@ == self.text(),
    {
        to_owned_string(self.buffer.as_str())
    }

    /// An interrupt clears the buffer and reprompts.
    pub fn interrupt(&mut self)
        ensures
            final(self).text() == Seq::<char>::empty(),
    {
        self.buffer = String::new();
    }
}

/// What evaluating a complete statement as an expression produced, as far
/// as the dispatch policy needs to know.
pub enum EvalOutcome {
    RunnableValue,
    OtherValue { is_null: bool },
    EvalError,
}

/// What the REPL does with that outcome.
#[derive(PartialEq, Eq, Structural, Debug)]
pub enum DispatchAction {
    AutoRun,
    PrintRepr,
    Nothing,
    RunAsStatement,
}

/// The auto-run policy: a runnable value is invoked, a non-null value is
/// printed, a null value is silent, and a failed evaluation is retried as
/// a statement.
pub fn line_dispatch(outcome: &EvalOutcome) -> (r: DispatchAction)
    ensures
        r == (match outcome {
            EvalOutcome::RunnableValue => DispatchAction::AutoRun,
            EvalOutcome::OtherValue { is_null } => if *is_null {
                DispatchAction::Nothing
            } else {
                DispatchAction::PrintRepr
            },
            EvalOutcome::EvalError => DispatchAction::RunAsStatement,
        }),
{
    match outcome {
        EvalOutcome::RunnableValue => DispatchAction::AutoRun,
        EvalOutcome::OtherValue { is_null } => {
            if *is_null {
                DispatchAction::Nothing
            } else {
                DispatchAction::PrintRepr
            }
        },
        EvalOutcome::EvalError => DispatchAction::RunAsStatement,
    }
}

/// After an auto-run, a non-zero exit code is reported.
pub fn report_exit_code(code: u8) -> (r: bool)
    ensures
        r == (code != 0),
{
    code != 0
}

/// The report line for a non-zero exit code.
pub fn exit_code_line(code: u8) -> (r: String)
    ensures
        r@ == "Exit code: "@ + int_text(code as int),
{
    let mut out = to_owned_string("Exit code: ");
    let tail = i64_to_string(code as i64);
    out.append(tail.as_str());
    out
}

} // verus!
