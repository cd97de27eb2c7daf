//! What one debug session of the target records, and the decisions of the
//! debug-event loop: what each event adds, how the debuggee is continued,
//! how long to wait, and how the run ended.
use vstd::prelude::*;
use crate::text::{chars_of, string_of};

verus! {

/// A DLL that the loader mapped into the target.
pub struct LoadedModule {
    pub dll_name: String,
    pub path: Option<String>,
    pub base: usize,
}

/// Text the target (or its loader) sent to the debugger.
pub struct DebugStringEvent {
    pub pid: u32,
    pub tid: u32,
    pub text: String,
}

/// One loader-visible fact, in debugger delivery order.
pub enum RuntimeEvent {
    RuntimeLoaded(LoadedModule),
    DebugString(DebugStringEvent),
}

/// How the run ended.
#[derive(Clone, Copy, Debug, PartialEq, Eq, Structural)]
pub enum RunEndKind {
    ExitProcess,
    Exception,
    Timeout,
}

/// The record of one debug session.
pub struct RunOutcome {
    pub pid: u32,
    pub runtime_events: Vec<RuntimeEvent>,
    pub loaded_modules: Vec<LoadedModule>,
    pub end_kind: RunEndKind,
    pub exit_code: Option<u32>,
    pub exception_code: Option<u32>,
    pub elapsed_ms: u128,
}

/// Why a run could not be carried out.
pub enum RunError {
    Message(String),
    PebLoaderSnapsEnableFailed(u32),
}

} // verus!

verus! {

/// The breakpoint the loader raises on attach.
pub const STATUS_BREAKPOINT: u32 = 0x8000_0003;

/// A single-step trap.
pub const STATUS_SINGLE_STEP: u32 = 0x8000_0004;

/// Continue the debuggee, the event handled.
pub const DBG_CONTINUE: u32 = 0x0001_0002;

/// Continue the debuggee, passing the exception on.
pub const DBG_EXCEPTION_NOT_HANDLED: u32 = 0x8001_0001;

/// The longest single wait for a debug event, in milliseconds.
pub const WAIT_QUANTUM_MS: u32 = 250;

/// What a debug session has recorded so far.
pub struct RunState {
    pub runtime_events: Vec<RuntimeEvent>,
    pub loaded_modules: Vec<LoadedModule>,
    pub exit_code: Option<u32>,
    pub exception_code: Option<u32>,
    pub saw_terminal_exception: bool,
    pub saw_exit: bool,
    pub timeout_hit: bool,
}

/// The last segment of a path, trailing separators ignored; none where that
/// segment is empty, `.` or `..`.
pub open spec fn file_name_of(s: Seq<char>) -> Option<Seq<char>> {
    let end = crate::snaps::trim_end_seps(s, s.len() as int);
    let t = s.subrange(0, end);
    let name = t.subrange(crate::snaps::after_last_sep(t, t.len() as int), t.len() as int);
    if name.len() == 0 || name == seq!['.'] || name == seq!['.', '.'] {
        None
    } else {
        Some(name)
    }
}

/// The name recorded for a module loaded from `path` at `base`.
pub open spec fn module_name_of(path: Option<Seq<char>>, base: usize) -> Seq<char> {
    match path {
        Some(p) => match file_name_of(p) {
            Some(n) => n,
            None => "UNKNOWN_"@ + crate::emit::hex_fixed(base as nat, 16),
        },
        None => "UNKNOWN_"@ + crate::emit::hex_fixed(base as nat, 16),
    }
}

/// How the run ended, from what was seen.
pub open spec fn end_kind_of(saw_exit: bool, terminal: bool, timeout_hit: bool) -> RunEndKind {
    if saw_exit {
        if terminal {
            RunEndKind::Exception
        } else {
            RunEndKind::ExitProcess
        }
    } else if timeout_hit {
        RunEndKind::Timeout
    } else if terminal {
        RunEndKind::Exception
    } else {
        RunEndKind::Timeout
    }
}

/// The last segment of a path, trailing separators ignored; none where it
/// is empty, `.` or `..`.
pub fn file_name_chars(p: &str) -> (r: Option<Vec<char>>)
    ensures
        match file_name_of(p@) {
            Some(n) => r matches Some(x) && x@ == n,
            None => r is None,
        },
{
    let s = chars_of(p);
    let mut end = s.len();
    while end > 0 && (s[end - 1] == '\\' || s[end - 1] == '/')
        invariant
            end <= s.len(),
            crate::snaps::trim_end_seps(s@, s@.len() as int) == crate::snaps::trim_end_seps(
                s@,
                end as int,
            ),
        decreases end,
    {
        end -= 1;
    }
    let ghost t = s@.subrange(0, end as int);
    let mut k = end;
    while k > 0 && !(s[k - 1] == '\\' || s[k - 1] == '/')
        invariant
            k <= end <= s.len(),
            t == s@.subrange(0, end as int),
            crate::snaps::after_last_sep(t, t.len() as int) == crate::snaps::after_last_sep(t, k as int),
        decreases k,
    {
        assert(t[k - 1] == s@[k - 1]);
        k -= 1;
    }
    proof {
        if k > 0 {
            assert(t[k - 1] == s@[k - 1]);
        }
    }
    let mut name: Vec<char> = Vec::new();
    let mut i = k;
    while i < end
        invariant
            k <= i <= end,
            end <= s.len(),
            name@ == s@.subrange(k as int, i as int),
        decreases end - i,
    {
        name.push(s[i]);
        proof {
            assert(s@.subrange(k as int, i + 1) == s@.subrange(k as int, i as int).push(s@[i as int]));
        }
        i += 1;
    }
    proof {
        assert(name@ =~= t.subrange(k as int, t.len() as int));
    }
    let n = name.len();
    if n == 0 || (n == 1 && name[0] == '.') || (n == 2 && name[0] == '.' && name[1] == '.') {
        proof {
            if n == 1 {
                assert(name@ =~= seq!['.']);
            }
            if n == 2 {
                assert(name@ =~= seq!['.', '.']);
            }
        }
        None
    } else {
        proof {
            if name@ == seq!['.'] {
                assert(name@[0] == '.');
            }
            if name@ == seq!['.', '.'] {
                assert(name@[0] == '.' && name@[1] == '.');
            }
        }
        Some(name)
    }
}

/// The name recorded for a module loaded from `path` at `base`: the path's
/// file name, else `UNKNOWN_` and the base in sixteen hexadecimal digits.
pub fn module_name(path: &Option<String>, base: usize) -> (r: String)
    ensures
        r@ == module_name_of(opt_str_view(path), base),
{
    let named = match path {
        Some(p) => file_name_chars(p.as_str()),
        None => None,
    };
    match named {
        Some(n) => string_of(&n),
        None => {
            let mut out = chars_of("UNKNOWN_");
            crate::emit::push_hex(&mut out, base as u64, 16);
            string_of(&out)
        },
    }
}

/// The view of an optional string.
pub open spec fn opt_str_view(o: &Option<String>) -> Option<Seq<char>> {
    match o {
        Some(s) => Some(s@),
        None => None,
    }
}

impl RunState {
    /// A session before its first event.
    pub fn new() -> (r: RunState)
        ensures
            r.runtime_events@.len() == 0,
            r.loaded_modules@.len() == 0,
            r.exit_code is None,
            r.exception_code is None,
            !r.saw_terminal_exception,
            !r.saw_exit,
            !r.timeout_hit,
    {
        RunState {
            runtime_events: Vec::new(),
            loaded_modules: Vec::new(),
            exit_code: None,
            exception_code: None,
            saw_terminal_exception: false,
            saw_exit: false,
            timeout_hit: false,
        }
    }

    /// How long to wait for the next event, `elapsed_ms` into a run with budget
    /// `timeout_ms` (0: none); `None` once the budget is spent.
    pub fn wait_ms(timeout_ms: u32, elapsed_ms: u128) -> (r: Option<u32>)
        ensures
            timeout_ms == 0 ==> r == Some(WAIT_QUANTUM_MS),
            timeout_ms != 0 && elapsed_ms >= timeout_ms ==> r is None,
            timeout_ms != 0 && elapsed_ms < timeout_ms ==> r == Some(
                if timeout_ms - elapsed_ms < WAIT_QUANTUM_MS {
                    (timeout_ms - elapsed_ms) as u32
                } else {
                    WAIT_QUANTUM_MS
                },
            ),
    {
        if timeout_ms == 0 {
            return Some(WAIT_QUANTUM_MS);
        }
        if elapsed_ms >= timeout_ms as u128 {
            return None;
        }
        let remaining = timeout_ms - elapsed_ms as u32;
        Some(if remaining < WAIT_QUANTUM_MS { remaining } else { WAIT_QUANTUM_MS })
    }

    /// The time budget ran out before the target exited.
    pub fn on_timeout(&mut self)
        ensures
            final(self).timeout_hit,
            final(self).runtime_events == old(self).runtime_events,
            final(self).loaded_modules == old(self).loaded_modules,
            final(self).exit_code == old(self).exit_code,
            final(self).exception_code == old(self).exception_code,
            final(self).saw_terminal_exception == old(self).saw_terminal_exception,
            final(self).saw_exit == old(self).saw_exit,
    {
        self.timeout_hit = true;
    }

    /// A DLL was mapped at `base`; `path` is its on-disk path where known.
    /// The module is recorded in both the event log and the module list.
    pub fn on_load_dll(&mut self, path: Option<String>, base: usize)
        ensures
            final(self).loaded_modules@ == old(self).loaded_modules@.push(
                final(self).loaded_modules@.last(),
            ),
            final(self).loaded_modules@.last().dll_name@ == module_name_of(opt_str_view(&path), base),
            opt_str_view(&final(self).loaded_modules@.last().path) == opt_str_view(&path),
            final(self).loaded_modules@.last().base == base,
            final(self).runtime_events@.len() == old(self).runtime_events@.len() + 1,
            final(self).runtime_events@.subrange(0, old(self).runtime_events@.len() as int)
                == old(self).runtime_events@,
            final(self).runtime_events@.last() matches RuntimeEvent::RuntimeLoaded(m) && m.dll_name@
                == module_name_of(opt_str_view(&path), base) && opt_str_view(&m.path) == opt_str_view(&path)
                && m.base == base,
            final(self).exit_code == old(self).exit_code,
            final(self).exception_code == old(self).exception_code,
            final(self).saw_terminal_exception == old(self).saw_terminal_exception,
            final(self).saw_exit == old(self).saw_exit,
            final(self).timeout_hit == old(self).timeout_hit,
    {
        let dll_name = module_name(&path, base);
        let path2 = match &path {
            Some(p) => Some(p.clone()),
            None => None,
        };
        let dll_name2 = dll_name.clone();
        self.loaded_modules.push(LoadedModule { dll_name, path, base });
        self.runtime_events.push(
            RuntimeEvent::RuntimeLoaded(LoadedModule { dll_name: dll_name2, path: path2, base }),
        );
        proof {
            assert(self.runtime_events@.subrange(0, old(self).runtime_events@.len() as int)
                =~= old(self).runtime_events@);
        }
    }

    /// The target printed debug text; `text` is `None` where it could not be
    /// read, and is then recorded as `UNREADABLE`.
    pub fn on_debug_string(&mut self, pid: u32, tid: u32, text: Option<String>)
        ensures
            final(self).runtime_events@.len() == old(self).runtime_events@.len() + 1,
            final(self).runtime_events@.subrange(0, old(self).runtime_events@.len() as int)
                == old(self).runtime_events@,
            final(self).runtime_events@.last() matches RuntimeEvent::DebugString(d) && d.pid == pid
                && d.tid == tid && d.text@ == match text {
                Some(t) => t@,
                None => "UNREADABLE"@,
            },
            final(self).loaded_modules == old(self).loaded_modules,
            final(self).exit_code == old(self).exit_code,
            final(self).exception_code == old(self).exception_code,
            final(self).saw_terminal_exception == old(self).saw_terminal_exception,
            final(self).saw_exit == old(self).saw_exit,
            final(self).timeout_hit == old(self).timeout_hit,
    {
        let text = match text {
            Some(t) => t,
            None => "UNREADABLE".to_owned(),
        };
        self.runtime_events.push(RuntimeEvent::DebugString(DebugStringEvent { pid, tid, text }));
        proof {
            assert(self.runtime_events@.subrange(0, old(self).runtime_events@.len() as int)
                =~= old(self).runtime_events@);
        }
    }

    /// An exception event; returns how to continue the debuggee. Loader
    /// breakpoints and single steps are continued; any other exception is passed
    /// on, and a last-chance one is recorded as terminal.
    pub fn on_exception(&mut self, code: u32, first_chance: bool) -> (r: u32)
        ensures
            (code == STATUS_BREAKPOINT || code == STATUS_SINGLE_STEP) ==> r == DBG_CONTINUE
                && final(self).exception_code == old(self).exception_code
                && final(self).saw_terminal_exception == old(self).saw_terminal_exception,
            !(code == STATUS_BREAKPOINT || code == STATUS_SINGLE_STEP) ==> r
                == DBG_EXCEPTION_NOT_HANDLED && (if first_chance {
                final(self).exception_code == old(self).exception_code
                    && final(self).saw_terminal_exception == old(self).saw_terminal_exception
            } else {
                final(self).exception_code == Some(code) && final(self).saw_terminal_exception
            }),
            final(self).runtime_events == old(self).runtime_events,
            final(self).loaded_modules == old(self).loaded_modules,
            final(self).exit_code == old(self).exit_code,
            final(self).saw_exit == old(self).saw_exit,
            final(self).timeout_hit == old(self).timeout_hit,
    {
        if code == STATUS_BREAKPOINT || code == STATUS_SINGLE_STEP {
            return DBG_CONTINUE;
        }
        if !first_chance {
            self.exception_code = Some(code);
            self.saw_terminal_exception = true;
        }
        DBG_EXCEPTION_NOT_HANDLED
    }

    /// The target exited with `exit_code`. With no exception recorded, an exit
    /// code with its high bit set is taken as the exception code.
    pub fn on_exit_process(&mut self, exit_code: u32)
        ensures
            final(self).exit_code == Some(exit_code),
            final(self).exception_code == if old(self).exception_code is None && exit_code
                >= 0x8000_0000 {
                Some(exit_code)
            } else {
                old(self).exception_code
            },
            final(self).saw_exit,
            final(self).runtime_events == old(self).runtime_events,
            final(self).loaded_modules == old(self).loaded_modules,
            final(self).saw_terminal_exception == old(self).saw_terminal_exception,
            final(self).timeout_hit == old(self).timeout_hit,
    {
        self.exit_code = Some(exit_code);
        if self.exception_code.is_none() && exit_code >= 0x8000_0000 {
            self.exception_code = Some(exit_code);
        }
        self.saw_exit = true;
    }

    /// How the run ended: an exit (as an exception where a terminal exception
    /// was recorded), else a timeout where the budget ran out, else an
    /// exception where one was recorded, else a timeout.
    pub fn end_kind(&self) -> (r: RunEndKind)
        ensures
            r == end_kind_of(self.saw_exit, self.saw_terminal_exception, self.timeout_hit),
    {
        if self.saw_exit {
            if self.saw_terminal_exception {
                RunEndKind::Exception
            } else {
                RunEndKind::ExitProcess
            }
        } else if self.timeout_hit {
            RunEndKind::Timeout
        } else if self.saw_terminal_exception {
            RunEndKind::Exception
        } else {
            RunEndKind::Timeout
        }
    }

    /// The record of the finished session.
    pub fn finish(self, pid: u32, elapsed_ms: u128) -> (r: RunOutcome)
        ensures
            r.pid == pid,
            r.runtime_events == self.runtime_events,
            r.loaded_modules == self.loaded_modules,
            r.end_kind == end_kind_of(self.saw_exit, self.saw_terminal_exception, self.timeout_hit),
            r.exit_code == self.exit_code,
            r.exception_code == self.exception_code,
            r.elapsed_ms == elapsed_ms,
    {
        let end_kind = self.end_kind();
        RunOutcome {
            pid,
            runtime_events: self.runtime_events,
            loaded_modules: self.loaded_modules,
            end_kind,
            exit_code: self.exit_code,
            exception_code: self.exception_code,
            elapsed_ms,
        }
    }
}

} // verus!

verus! {

/// `n` backslashes.
pub open spec fn bs(n: nat) -> Seq<char> {
    Seq::new(n, |i: int| '\\')
}

/// Quoting `s` character by character: the text emitted so far and the
/// backslashes still pending (their count depends on what follows them).
pub open spec fn quote_state(s: Seq<char>) -> (Seq<char>, nat)
    decreases s.len(),
{
    if s.len() == 0 {
        (Seq::empty(), 0)
    } else {
        let prev = quote_state(s.drop_last());
        let c = s.last();
        if c == '\\' {
            (prev.0, prev.1 + 1)
        } else if c == '"' {
            (prev.0 + bs(2 * prev.1 + 1) + seq!['"'], 0)
        } else {
            (prev.0 + bs(prev.1) + seq![c], 0)
        }
    }
}

/// `s` needs quotes: it holds a space, a tab or a double quote.
pub open spec fn needs_quotes(s: Seq<char>) -> bool {
    exists|i: int| 0 <= i < s.len() && (s[i] == ' ' || s[i] == '\t' || s[i] == '"')
}

/// One command-line argument as the Windows argument parser reads it back:
/// unchanged where it needs no quotes; else in double quotes, with each
/// double quote escaped and the backslashes before it (or before the closing
/// quote) doubled.
pub open spec fn quoted_arg(s: Seq<char>) -> Seq<char> {
    if !needs_quotes(s) {
        s
    } else {
        let st = quote_state(s);
        seq!['"'] + st.0 + bs(2 * st.1) + seq!['"']
    }
}

/// The parts joined with single spaces.
pub open spec fn join_spaces(parts: Seq<Seq<char>>) -> Seq<char>
    decreases parts.len(),
{
    if parts.len() == 0 {
        Seq::empty()
    } else if parts.len() == 1 {
        parts[0]
    } else {
        join_spaces(parts.drop_last()) + seq![' '] + parts.last()
    }
}

fn push_backslashes(out: &mut Vec<char>, n: usize)
    ensures
        final(out)@ == old(out)@ + bs(n as nat),
{
    let mut i: usize = 0;
    while i < n
        invariant
            i <= n,
            out@ == old(out)@ + bs(i as nat),
        decreases n - i,
    {
        out.push('\\');
        proof {
            assert(bs((i + 1) as nat) =~= bs(i as nat).push('\\'));
        }
        i += 1;
    }
}

/// Quotes one argument for a Windows command line.
pub fn quote_cmd_arg(arg: &str) -> (r: String)
    ensures
        r@ == quoted_arg(arg@),
{
    let s = chars_of(arg);
    let mut needs = false;
    let mut j: usize = 0;
    while j < s.len()
        invariant
            j <= s.len(),
            s@ == arg@,
            needs <==> exists|i: int| 0 <= i < j && (s@[i] == ' ' || s@[i] == '\t' || s@[i] == '"'),
        decreases s.len() - j,
    {
        if s[j] == ' ' || s[j] == '\t' || s[j] == '"' {
            needs = true;
        }
        j += 1;
    }
    if !needs {
        return arg.to_owned();
    }
    let mut out: Vec<char> = Vec::new();
    out.push('"');
    let mut slashes: usize = 0;
    let mut i: usize = 0;
    while i < s.len()
        invariant
            i <= s.len(),
            slashes <= i,
            out@ == seq!['"'] + quote_state(s@.subrange(0, i as int)).0,
            slashes == quote_state(s@.subrange(0, i as int)).1,
        decreases s.len() - i,
    {
        let c = s[i];
        let ghost pre = s@.subrange(0, i + 1);
        proof {
            assert(pre.drop_last() == s@.subrange(0, i as int));
        }
        if c == '\\' {
            slashes += 1;
        } else if c == '"' {
            let ghost before = out@;
            push_backslashes(&mut out, slashes);
            push_backslashes(&mut out, slashes);
            out.push('\\');
            out.push('"');
            proof {
                assert(bs((2 * slashes + 1) as nat) =~= bs(slashes as nat) + bs(slashes as nat)
                    + seq!['\\']);
                assert(out@ =~= before + bs((2 * slashes + 1) as nat) + seq!['"']);
            }
            slashes = 0;
        } else {
            let ghost before = out@;
            push_backslashes(&mut out, slashes);
            out.push(c);
            proof {
                assert(out@ =~= before + bs(slashes as nat) + seq![c]);
            }
            slashes = 0;
        }
        i += 1;
    }
    let ghost before = out@;
    push_backslashes(&mut out, slashes);
    push_backslashes(&mut out, slashes);
    out.push('"');
    proof {
        assert(s@.subrange(0, s@.len() as int) == s@);
        assert(bs((2 * slashes) as nat) =~= bs(slashes as nat) + bs(slashes as nat));
        assert(out@ =~= seq!['"'] + quote_state(s@).0 + bs(2 * quote_state(s@).1) + seq!['"']);
    }
    string_of(&out)
}

/// The command line of a run: the executable and each argument, quoted,
/// separated by spaces.
pub fn build_command_line(exe_path: &str, exe_args: &[String]) -> (r: String)
    ensures
        r@ == join_spaces(
            seq![quoted_arg(exe_path@)] + exe_args@.map_values(|a: String| quoted_arg(a@)),
        ),
{
    let ghost parts = seq![quoted_arg(exe_path@)] + exe_args@.map_values(|a: String| quoted_arg(a@));
    let first = quote_cmd_arg(exe_path);
    let mut out = chars_of(first.as_str());
    let mut i: usize = 0;
    proof {
        assert(parts.subrange(0, 1) =~= seq![quoted_arg(exe_path@)]);
    }
    while i < exe_args.len()
        invariant
            i <= exe_args.len(),
            parts == seq![quoted_arg(exe_path@)] + exe_args@.map_values(|a: String| quoted_arg(a@)),
            out@ == join_spaces(parts.subrange(0, i + 1)),
        decreases exe_args.len() - i,
    {
        let q = quote_cmd_arg(exe_args[i].as_str());
        let qc = chars_of(q.as_str());
        let ghost before = out@;
        out.push(' ');
        let mut k: usize = 0;
        while k < qc.len()
            invariant
                k <= qc.len(),
                out@ == before + seq![' '] + qc@.subrange(0, k as int),
            decreases qc.len() - k,
        {
            out.push(qc[k]);
            proof {
                assert(qc@.subrange(0, k + 1) == qc@.subrange(0, k as int).push(qc@[k as int]));
            }
            k += 1;
        }
        proof {
            assert(qc@.subrange(0, qc@.len() as int) == qc@);
            let p2 = parts.subrange(0, i + 2);
            assert(p2.drop_last() =~= parts.subrange(0, i + 1));
            assert(p2.last() == quoted_arg(exe_args@[i as int]@));
        }
        i += 1;
    }
    proof {
        assert(parts.subrange(0, exe_args@.len() + 1 as int) =~= parts);
    }
    string_of(&out)
}

} // verus!

verus! {

/// The most characters of one debug string that are read.
pub const MAX_DEBUG_STRING_CHARS: usize = 16 * 1024;

/// How many characters of debug text to read for a declared length: the
/// length, capped at 16 Ki; `None` for a zero length, where the text is read
/// up to its terminator instead.
pub fn debug_string_read_len(length_chars: u16) -> (r: Option<usize>)
    ensures
        length_chars == 0 ==> r is None,
        length_chars != 0 ==> r == Some(
            if length_chars as usize <= MAX_DEBUG_STRING_CHARS {
                length_chars as usize
            } else {
                MAX_DEBUG_STRING_CHARS
            },
        ),
{
    if length_chars == 0 {
        return None;
    }
    let n = length_chars as usize;
    Some(if n <= MAX_DEBUG_STRING_CHARS { n } else { MAX_DEBUG_STRING_CHARS })
}

/// The number of UTF-16 units before the first NUL (all of them where there is none).
pub fn units_before_nul(units: &[u16]) -> (r: usize)
    ensures
        r <= units@.len(),
        forall|i: int| 0 <= i < r ==> units@[i] != 0,
        r < units@.len() ==> units@[r as int] == 0,
{
    let mut i: usize = 0;
    while i < units.len() && units[i] != 0
        invariant
            i <= units@.len(),
            forall|k: int| 0 <= k < i ==> units@[k] != 0,
        decreases units.len() - i,
    {
        i += 1;
    }
    i
}

/// The number of bytes before the first NUL (all of them where there is none).
pub fn bytes_before_nul(bytes: &[u8]) -> (r: usize)
    ensures
        r <= bytes@.len(),
        forall|i: int| 0 <= i < r ==> bytes@[i] != 0,
        r < bytes@.len() ==> bytes@[r as int] == 0,
{
    let mut i: usize = 0;
    while i < bytes.len() && bytes[i] != 0
        invariant
            i <= bytes@.len(),
            forall|k: int| 0 <= k < i ==> bytes@[k] != 0,
        decreases bytes.len() - i,
    {
        i += 1;
    }
    i
}

} // verus!
