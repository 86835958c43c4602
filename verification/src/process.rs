//! Process supervision bookkeeping: the registry of running process ids, the
//! structured output events a supervised command produces, resolution of the
//! working directory, and the platform shell and kill invocations.

use vstd::prelude::*;
use vstd::string::*;
use crate::text::{spec_decimal, spec_replace, replace_all, u32_to_decimal};

verus! {

/// Configuration for one execution request.  `args` is informational: the
/// shell string in `command` is executed as-is.  `cwd` may contain the
/// `${workspaceFolder}` placeholder; `env` optionally overrides environment
/// variables.
pub struct CommandConfig {
    pub name: String,
    pub command: String,
    pub args: Vec<String>,
    pub cwd: String,
    pub env: Option<Vec<(String, String)>>,
}

/// One event in the output stream of a supervised command: a line of output,
/// whether it came from stderr, and whether it is the terminating summary
/// event after which nothing more follows.
pub struct CommandOutput {
    pub output: String,
    pub is_error: bool,
    pub is_final: bool,
}

/// A stdout line event.
pub fn stdout_event(line: String) -> (r: CommandOutput)
    ensures
        r.output == line,
        !r.is_error,
        !r.is_final,
{
    CommandOutput { output: line, is_error: false, is_final: false }
}

/// A stderr line event.
pub fn stderr_event(line: String) -> (r: CommandOutput)
    ensures
        r.output == line,
        r.is_error,
        !r.is_final,
{
    CommandOutput { output: line, is_error: true, is_final: false }
}

/// The terminating event once the child process has exited, carrying the
/// exit status description.
pub fn exit_event(status: &str) -> (r: CommandOutput)
    ensures
        r.output@ == "Process exited with: "@ + status@,
        !r.is_error,
        r.is_final,
{
    let mut s = String::from_str("Process exited with: ");
    s.append(status);
    CommandOutput { output: s, is_error: false, is_final: true }
}

/// The single terminating error event emitted when the command could not be
/// spawned at all; no process id is ever registered in that case.
pub fn spawn_failure_event(err: &str) -> (r: CommandOutput)
    ensures
        r.output@ == "Failed to start command: "@ + err@,
        r.is_error,
        r.is_final,
{
    let mut s = String::from_str("Failed to start command: ");
    s.append(err);
    CommandOutput { output: s, is_error: true, is_final: true }
}

/// The non-fatal warning emitted when the resolved working directory does
/// not exist; the spawn is still attempted afterwards.
pub fn missing_cwd_warning() -> (r: CommandOutput)
    ensures
        r.output@ == "Warning: Working directory does not exist."@,
        r.is_error,
        !r.is_final,
{
    CommandOutput {
        output: String::from_str("Warning: Working directory does not exist."),
        is_error: true,
        is_final: false,
    }
}

/// Resolves the configured working directory by substituting every
/// occurrence of the `${workspaceFolder}` placeholder with the project path.
pub fn resolve_cwd(cwd: &str, project_path: &str) -> (r: String)
    ensures
        r@ == spec_replace(cwd@, "${workspaceFolder}"@, project_path@),
{
    replace_all(cwd, "${workspaceFolder}", project_path)
}

/// Whether to emit the missing-directory warning, and whether the spawn may
/// set the resolved directory as the child's working directory: a directory
/// that exists is used silently; one that does not exist is only warned
/// about, and the child falls back to the default working directory.
pub fn cwd_directive(cwd_exists: bool) -> (r: (bool, Option<CommandOutput>))
    ensures
        r.0 == cwd_exists,
        cwd_exists ==> r.1 is None,
        !cwd_exists ==> (r.1 matches Some(w) && w.output@
            == "Warning: Working directory does not exist."@ && w.is_error && !w.is_final),
{
    if cwd_exists {
        (true, None)
    } else {
        (false, Some(missing_cwd_warning()))
    }
}

/// The platform shell invocation that runs `command` as a single shell
/// string: `cmd /C` on Windows, `sh -c` elsewhere.
pub fn shell_invocation(command: &str, windows: bool) -> (r: (String, Vec<String>))
    ensures
        windows ==> r.0@ == "cmd"@ && r.1.deep_view() =~= seq!["/C"@, command@],
        !windows ==> r.0@ == "sh"@ && r.1.deep_view() =~= seq!["-c"@, command@],
{
    if windows {
        let mut args: Vec<String> = Vec::new();
        args.push(String::from_str("/C"));
        args.push(String::from_str(command));
        (String::from_str("cmd"), args)
    } else {
        let mut args: Vec<String> = Vec::new();
        args.push(String::from_str("-c"));
        args.push(String::from_str(command));
        (String::from_str("sh"), args)
    }
}

/// The platform kill invocation for a forceful, non-graceful termination:
/// `taskkill /F /PID <pid>` on Windows, `kill -9 <pid>` elsewhere.
pub fn kill_invocation(pid: u32, windows: bool) -> (r: (String, Vec<String>))
    ensures
        windows ==> r.0@ == "taskkill"@ && r.1.deep_view() =~= seq![
            "/F"@,
            "/PID"@,
            spec_decimal(pid as nat),
        ],
        !windows ==> r.0@ == "kill"@ && r.1.deep_view() =~= seq![
            "-9"@,
            spec_decimal(pid as nat),
        ],
{
    let rendered = u32_to_decimal(pid);
    if windows {
        let mut args: Vec<String> = Vec::new();
        args.push(String::from_str("/F"));
        args.push(String::from_str("/PID"));
        args.push(rendered);
        (String::from_str("taskkill"), args)
    } else {
        let mut args: Vec<String> = Vec::new();
        args.push(String::from_str("-9"));
        args.push(rendered);
        (String::from_str("kill"), args)
    }
}

/// The sequence with the first occurrence of `x` removed (unchanged when `x`
/// does not occur).
pub open spec fn spec_remove_first(s: Seq<u32>, x: u32) -> Seq<u32>
    decreases s.len(),
{
    if s.len() == 0 {
        s
    } else if s[0] == x {
        s.skip(1)
    } else {
        seq![s[0]] + spec_remove_first(s.skip(1), x)
    }
}

proof fn lemma_remove_first_by_index(s: Seq<u32>, x: u32, i: int)
    requires
        0 <= i < s.len(),
        s[i] == x,
        forall|k: int| 0 <= k < i ==> s[k] != x,
    ensures
        spec_remove_first(s, x) == s.subrange(0, i) + s.skip(i + 1),
    decreases i,
{
    if i == 0 {
        assert(s.subrange(0, 0) + s.skip(1) =~= s.skip(1));
    } else {
        assert(s[0] != x);
        lemma_remove_first_by_index(s.skip(1), x, i - 1);
        assert(s.skip(1).subrange(0, i - 1) =~= s.subrange(1, i));
        assert(s.skip(1).skip(i) =~= s.skip(i + 1));
        assert(seq![s[0]] + (s.subrange(1, i) + s.skip(i + 1)) =~= s.subrange(0, i) + s.skip(
            i + 1,
        ));
    }
}

/// After a pid is removed from a duplicate-free sequence, it no longer
/// occurs: a second removal of the same pid must therefore fail.
pub proof fn lemma_second_removal_fails(s: Seq<u32>, x: u32, i: int)
    requires
        s.no_duplicates(),
        0 <= i < s.len(),
        s[i] == x,
        forall|k: int| 0 <= k < i ==> s[k] != x,
    ensures
        !(s.subrange(0, i) + s.skip(i + 1)).contains(x),
        !spec_remove_first(s, x).contains(x),
        (s.subrange(0, i) + s.skip(i + 1)).no_duplicates(),
{
    let r = s.subrange(0, i) + s.skip(i + 1);
    assert forall|p: int, q: int| 0 <= p < q < r.len() implies r[p] != r[q] by {
        let sp: int = if p < i { p } else { p + 1 };
        let sq: int = if q < i { q } else { q + 1 };
        assert(r[p] == s[sp]);
        assert(r[q] == s[sq]);
    }
    assert forall|q: int| 0 <= q < r.len() implies r[q] != x by {
        if q < i {
            assert(r[q] == s[q]);
        } else {
            assert(r[q] == s[q + 1]);
        }
    }
    if r.contains(x) {
        let q = choose|q: int| 0 <= q < r.len() && r[q] == x;
        assert(r[q] != x);
    }
    lemma_remove_first_by_index(s, x, i);
}

/// The registry of running process ids, mutated by spawn (insert) and
/// terminate (remove).  It never holds the same pid twice.
pub struct ProcessRegistry {
    pids: Vec<u32>,
}

impl View for ProcessRegistry {
    type V = Seq<u32>;

    closed spec fn view(&self) -> Seq<u32> {
        self.pids@
    }
}

impl ProcessRegistry {
    /// The registry never tracks a pid twice.
    pub open spec fn wf(&self) -> bool {
        self@.no_duplicates()
    }

    /// An empty registry.
    pub fn new() -> (r: ProcessRegistry)
        ensures
            r@ == Seq::<u32>::empty(),
            r.wf(),
    {
        ProcessRegistry { pids: Vec::new() }
    }

    /// How many processes are tracked.
    pub fn len(&self) -> (r: usize)
        ensures
            r == self@.len(),
    {
        self.pids.len()
    }

    /// Whether `pid` is currently tracked.
    pub fn tracks(&self, pid: u32) -> (r: bool)
        ensures
            r == self@.contains(pid),
    {
        let mut j: usize = 0;
        while j < self.pids.len()
            invariant
                j <= self@.len(),
                self@ == self.pids@,
                forall|k: int| 0 <= k < j ==> self@[k] != pid,
            decreases self@.len() - j,
        {
            if self.pids[j] == pid {
                return true;
            }
            j += 1;
        }
        false
    }

    /// Registers a freshly spawned process.  A pid already present is left
    /// alone, so the registry stays duplicate-free.
    pub fn register(&mut self, pid: u32)
        requires
            old(self).wf(),
        ensures
            final(self).wf(),
            old(self)@.contains(pid) ==> final(self)@ == old(self)@,
            !old(self)@.contains(pid) ==> final(self)@ == old(self)@.push(pid),
            final(self)@.contains(pid),
    {
        if !self.tracks(pid) {
            let ghost orig = self.pids@;
            self.pids.push(pid);
            proof {
                assert forall|p: int, q: int|
                    0 <= p < q < self.pids@.len() implies self.pids@[p] != self.pids@[q] by {
                    if q == self.pids@.len() - 1 {
                        assert(!orig.contains(pid));
                        assert(orig[p] != pid);
                    }
                }
                assert(self.pids@[orig.len() as int] == pid);
            }
        }
    }

    /// Looks `pid` up and removes it.  An untracked pid fails with the
    /// "process not found" error and leaves the registry unchanged; a
    /// tracked pid is removed, after which it is no longer tracked, so a
    /// second removal of the same pid fails.
    pub fn begin_termination(&mut self, pid: u32) -> (r: Result<(), String>)
        requires
            old(self).wf(),
        ensures
            final(self).wf(),
            r is Ok <==> old(self)@.contains(pid),
            r is Err ==> final(self)@ == old(self)@,
            r matches Err(m) ==> m@ == "process not found"@,
            r is Ok ==> final(self)@ == spec_remove_first(old(self)@, pid) && !final(self)@.contains(pid),
    {
        let ghost orig = self.pids@;
        let mut j: usize = 0;
        while j < self.pids.len()
            invariant
                j <= orig.len(),
                self.pids@ == orig,
                old(self)@ == orig,
                orig.no_duplicates(),
                forall|k: int| 0 <= k < j ==> orig[k] != pid,
            decreases orig.len() - j,
        {
            if self.pids[j] == pid {
                self.pids.remove(j);
                proof {
                    assert(orig.contains(pid));
                    lemma_remove_first_by_index(orig, pid, j as int);
                    lemma_second_removal_fails(orig, pid, j as int);
                    assert(self.pids@ =~= orig.subrange(0, j as int) + orig.skip(j + 1));
                    assert(self.pids@.no_duplicates());
                }
                return Ok(());
            }
            j += 1;
        }
        proof {
            if orig.contains(pid) {
                let q = choose|q: int| 0 <= q < orig.len() && orig[q] == pid;
                assert(orig[q] != pid);
            }
        }
        Err(String::from_str("process not found"))
    }
}

} // verus!
