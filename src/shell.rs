//! The decisions of pipeline execution: alias expansion, dispatch, exit-status bookkeeping.
use vstd::prelude::*;
use crate::expand::{expand_template, str_lookup, StrLookup};
use crate::guard::{begin_call, end_call, Captures};
use crate::text::{push_all, push_char, push_decimal, signed_decimal, signed_decimal_of, decimal};
use crate::value::{views, Function, Value, ValueModel};
use crate::variables::{assign, lookup, FrameModel, Variables};

verus! {

/// The status of a command that succeeded.
pub const SUCCESS: i32 = 0;

/// The status of a command that failed.
pub const FAILURE: i32 = 1;

/// The status when no command of the name exists, or a function is called with the wrong
/// number of arguments.
pub const NO_SUCH_COMMAND: i32 = 127;

/// The status of a command stopped by an interrupt from the terminal.
pub const INTERRUPTED: i32 = 130;

/// One command of a pipeline: its name, and its arguments with the name itself first.
pub struct Job {
    pub command: String,
    pub args: Vec<String>,
}

/// Where a job goes.
pub enum Dispatch {
    /// The command is an alias: run the statements of this text, with aliases off.
    Alias(String),
    /// The command is a built-in.
    Builtin,
    /// The command is a function, called with as many arguments as it has parameters.
    Function(Function),
    /// The command is a function, called with `got` arguments where it has `expected`
    /// parameters; nothing is bound.
    ArityMismatch { expected: usize, got: usize },
    /// Anything else goes to an external process.
    External,
}

/// Where a job goes, as a model.
pub enum DispatchModel {
    Alias(Seq<char>),
    Builtin,
    Function(Seq<Seq<char>>, Seq<Seq<char>>),
    ArityMismatch(nat, nat),
    External,
}

pub open spec fn dispatch_view(d: Dispatch) -> DispatchModel {
    match d {
        Dispatch::Alias(t) => DispatchModel::Alias(t@),
        Dispatch::Builtin => DispatchModel::Builtin,
        Dispatch::Function(f) => DispatchModel::Function(views(f.params@), views(f.body@)),
        Dispatch::ArityMismatch { expected, got } => DispatchModel::ArityMismatch(expected as nat, got as nat),
        Dispatch::External => DispatchModel::External,
    }
}

/// The arguments from `from` on, each after a space.
pub open spec fn spaced(args: Seq<Seq<char>>, from: int) -> Seq<char>
    decreases args.len() - from,
{
    if from >= args.len() || from < 0 {
        Seq::empty()
    } else {
        seq![' '] + args[from] + spaced(args, from + 1)
    }
}

/// The text an alias expands to: its replacement, then the job's arguments after the
/// command name, joined by spaces.
pub open spec fn alias_text(replacement: Seq<char>, args: Seq<Seq<char>>) -> Seq<char> {
    replacement + spaced(args, 1)
}

/// The number of arguments a job passes, the command name excluded.
pub open spec fn arg_count(args: Seq<Seq<char>>) -> nat {
    if args.len() > 0 {
        (args.len() - 1) as nat
    } else {
        0
    }
}

/// Where a job goes: an alias first, unless aliases are off; then a built-in; then a
/// function, whose argument count must match its parameters; else an external process.
pub open spec fn dispatch(
    st: Seq<FrameModel>,
    command: Seq<char>,
    args: Seq<Seq<char>>,
    no_alias: bool,
    builtin: bool,
) -> DispatchModel {
    match lookup(st, command) {
        Some(ValueModel::Alias(r)) if !no_alias => DispatchModel::Alias(alias_text(r, args)),
        found => if builtin {
            DispatchModel::Builtin
        } else {
            match found {
                Some(ValueModel::Function(params, body)) => if arg_count(args) == params.len() {
                    DispatchModel::Function(params, body)
                } else {
                    DispatchModel::ArityMismatch(params.len(), arg_count(args))
                },
                _ => DispatchModel::External,
            }
        },
    }
}

/// The status that a dispatch yields before anything runs: only a call with the wrong
/// number of arguments has one.
pub open spec fn early_status(d: DispatchModel) -> Option<int> {
    match d {
        DispatchModel::ArityMismatch(_, _) => Some(NO_SUCH_COMMAND as int),
        _ => None,
    }
}

/// How an external process ended.
#[derive(Clone, Copy, Debug, PartialEq, Eq, Structural)]
pub enum ExternalOutcome {
    /// It ran and exited with this code.
    Exited(i32),
    /// No command of that name could be found.
    NotFound,
    /// An interrupt from the terminal stopped it.
    Interrupted,
}

/// The status of an external process: its exit code unchanged, or the fixed status for a
/// missing command or an interrupt.
pub fn external_status(o: ExternalOutcome) -> (r: i32)
    ensures
        r == match o {
            ExternalOutcome::Exited(c) => c,
            ExternalOutcome::NotFound => NO_SUCH_COMMAND,
            ExternalOutcome::Interrupted => INTERRUPTED,
        },
{
    match o {
        ExternalOutcome::Exited(c) => c,
        ExternalOutcome::NotFound => NO_SUCH_COMMAND,
        ExternalOutcome::Interrupted => INTERRUPTED,
    }
}

/// Why a pipeline step failed before anything ran.
#[derive(Clone, Copy, Debug, PartialEq, Eq, Structural)]
pub enum ExecError {
    /// An alias expanded to a statement that is not a pipeline.
    AliasExpansionNotAPipeline,
    /// A function was called with `got` arguments where it has `expected` parameters.
    FunctionArityMismatch { expected: usize, got: usize },
}

/// The status an error yields.
pub fn error_status(e: ExecError) -> (r: i32)
    ensures
        r == match e {
            ExecError::AliasExpansionNotAPipeline => FAILURE,
            ExecError::FunctionArityMismatch { .. } => NO_SUCH_COMMAND,
        },
        r != 0,
{
    match e {
        ExecError::AliasExpansionNotAPipeline => FAILURE,
        ExecError::FunctionArityMismatch { .. } => NO_SUCH_COMMAND,
    }
}

/// The state of the shell that pipeline execution reads and keeps.
pub struct Shell {
    pub variables: Variables,
    /// The status of the last step that set one.
    pub previous_status: i32,
    /// How deep the statement being read is nested in blocks.
    pub flow_level: u32,
    /// Whether this is a login shell.
    pub is_login: bool,
    /// Whether this shell runs in the background.
    pub is_background: bool,
}

/// The summary line recorded for a step that took `secs` seconds and `nanos` nanoseconds.
pub open spec fn summary_text(secs: nat, nanos: nat) -> Seq<char> {
    "#summary# elapsed real time: "@ + decimal(secs) + seq!['.']
        + Seq::new((9 - decimal(nanos).len()) as nat, |i: int| '0') + decimal(nanos) + " seconds"@
}

/// The summary line recorded in history for a step that took `secs` seconds and `nanos`
/// nanoseconds, with the nanoseconds written in nine digits.
pub fn summary_line(secs: u64, nanos: u32) -> (r: String)
    requires
        nanos < 1_000_000_000,
    ensures
        r@ == summary_text(secs as nat, nanos as nat),
{
    let mut r = "#summary# elapsed real time: ".to_string();
    push_decimal(&mut r, secs);
    push_char(&mut r, '.');
    let mut digits = String::new();
    push_decimal(&mut digits, nanos as u64);
    let d = crate::text::chars_of(digits.as_str());
    proof { lemma_decimal_len(nanos as nat); }
    let pad: usize = 9 - d.len();
    let ghost before = r@;
    let mut i: usize = 0;
    while i < pad
        invariant
            i <= pad,
            r@ == before + Seq::new(i as nat, |j: int| '0'),
        decreases pad - i,
    {
        push_char(&mut r, '0');
        assert(r@ =~= before + Seq::new((i + 1) as nat, |j: int| '0'));
        i += 1;
    }
    push_all(&mut r, &d);
    r.append(" seconds");
    r
}

/// A number under a billion has at most nine digits.
pub proof fn lemma_decimal_len(n: nat)
    requires
        n < 1_000_000_000,
    ensures
        decimal(n).len() <= 9,
{
    assert(pow10(0) == 1);
    assert(pow10(1) == 10);
    assert(pow10(2) == 100);
    assert(pow10(3) == 1000);
    assert(pow10(4) == 10000);
    assert(pow10(5) == 100000);
    assert(pow10(6) == 1000000);
    assert(pow10(7) == 10000000);
    assert(pow10(8) == 100000000);
    assert(pow10(9) == 1000000000);
    lemma_decimal_len_bound(n, 9);
}

proof fn lemma_decimal_len_bound(n: nat, k: nat)
    requires
        n < pow10(k),
        k >= 1,
    ensures
        decimal(n).len() <= k,
    decreases k,
{
    if n >= 10 {
        assert(n / 10 < pow10((k - 1) as nat)) by (nonlinear_arith)
            requires n < pow10(k), k >= 1, pow10(k) == 10 * pow10((k - 1) as nat);
        if k == 1 {
            assert(false) by (nonlinear_arith) requires n >= 10, n < pow10(1), pow10(1) == 10 * pow10(0), pow10(0) == 1;
        }
        lemma_decimal_len_bound(n / 10, (k - 1) as nat);
    }
}

/// Ten to the power `k`.
pub open spec fn pow10(k: nat) -> nat
    decreases k,
{
    if k == 0 {
        1
    } else {
        10 * pow10((k - 1) as nat)
    }
}

/// The prompt template: the string value of `PROMPT`, or nothing where it has none.
pub open spec fn prompt_template(m: crate::variables::VarsModel) -> Seq<char> {
    match str_lookup(m, "PROMPT"@) {
        StrLookup::Found(t) => t,
        _ => Seq::empty(),
    }
}

impl Shell {
    /// A shell around a store, with status 0 at the top level.
    pub fn new(variables: Variables, is_login: bool, is_background: bool) -> (r: Shell)
        ensures
            r.variables@ == variables@,
            r.previous_status == 0,
            r.flow_level == 0,
            r.is_login == is_login,
            r.is_background == is_background,
    {
        Shell { variables, previous_status: 0, flow_level: 0, is_login, is_background }
    }

    /// Where a job goes. `no_alias` is set for the statements an alias expanded to, so
    /// that an alias is expanded once and never again inside its own expansion;
    /// `builtin` says whether the built-in table holds the command.
    pub fn plan(&self, job: &Job, no_alias: bool, builtin: bool) -> (r: Dispatch)
        requires
            self.variables.wf(),
        ensures
            dispatch_view(r) == dispatch(self.variables@.frames, job.command@, views(job.args@), no_alias, builtin),
    {
        let found = self.variables.get_ref(job.command.as_str());
        if !no_alias {
            if let Some(Value::Alias(r)) = found {
                let mut text = r.clone();
                let ghost av = views(job.args@);
                let mut i: usize = 1;
                assert(r@ + spaced(av, 1) == alias_text(r@, av));
                while i < job.args.len()
                    invariant
                        1 <= i,
                        i <= job.args.len() || job.args.len() == 0,
                        av == views(job.args@),
                        text@ + spaced(av, i as int) == alias_text(r@, av),
                    decreases job.args.len() - i,
                {
                    let ghost t0 = text@;
                    push_char(&mut text, ' ');
                    text.append(job.args[i].as_str());
                    assert(av[i as int] == job.args@[i as int]@);
                    assert(text@ + spaced(av, i + 1) =~= t0 + spaced(av, i as int));
                    i += 1;
                }
                assert(spaced(av, i as int) == Seq::<char>::empty());
                assert(text@ =~= text@ + spaced(av, i as int));
                return Dispatch::Alias(text);
            }
        }
        if builtin {
            return Dispatch::Builtin;
        }
        match found {
            Some(Value::Function(f)) => {
                let got: usize = if job.args.len() > 0 { job.args.len() - 1 } else { 0 };
                if got == f.params.len() {
                    Dispatch::Function(f.copy())
                } else {
                    Dispatch::ArityMismatch { expected: f.params.len(), got }
                }
            },
            _ => Dispatch::External,
        }
    }

    /// Enters a function called by `job`: saves what its parameters shadow, opens the
    /// call's frame and binds each parameter to its argument.
    pub fn enter_function(&mut self, f: &Function, job: &Job) -> (caps: Captures)
        requires
            old(self).variables.wf(),
            job.args.len() == f.params.len() + 1,
        ensures
            final(self).variables.wf(),
            caps.wf(),
            caps@ == crate::guard::capture(old(self).variables@.frames, views(f.params@)),
            final(self).variables@.frames == crate::guard::bind(
                old(self).variables@.frames.push(FrameModel { namespace: true, vars: Seq::empty() }),
                views(f.params@),
                views(job.args@).drop_first(),
            ),
            final(self).variables@.env == old(self).variables@.env,
            final(self).previous_status == old(self).previous_status,
    {
        let mut args: Vec<String> = Vec::new();
        let mut i: usize = 1;
        while i < job.args.len()
            invariant
                1 <= i <= job.args.len(),
                views(args@) == views(job.args@).subrange(1, i as int),
            decreases job.args.len() - i,
        {
            let a = job.args[i].clone();
            let ghost a0 = args@;
            args.push(a);
            assert(args@ == a0.push(a));
            assert(views(args@) =~= views(a0).push(a@));
            assert(views(args@) =~= views(job.args@).subrange(1, i + 1));
            i += 1;
        }
        assert(views(job.args@).subrange(1, job.args@.len() as int) =~= views(job.args@).drop_first());
        begin_call(&mut self.variables, &f.params, &args)
    }

    /// Leaves a function: drops the call's frame and puts back what its parameters
    /// shadowed, whatever the body did and however it ended.
    pub fn leave_function(&mut self, caps: Captures)
        requires
            old(self).variables.wf(),
            caps.wf(),
        ensures
            final(self).variables.wf(),
            final(self).variables@.frames == crate::guard::replay(
                crate::guard::leave_frame(old(self).variables@.frames), caps@),
            final(self).variables@.env == old(self).variables@.env,
            final(self).previous_status == old(self).previous_status,
    {
        end_call(&mut self.variables, caps);
    }

    /// Records the status of a step: `?` is set to its decimal text and the previous status
    /// kept; a step without a status leaves both as they were.
    pub fn record_status(&mut self, status: Option<i32>)
        requires
            old(self).variables.wf(),
        ensures
            final(self).variables.wf(),
            final(self).variables@.env == old(self).variables@.env,
            status matches Some(c) ==> final(self).previous_status == c
                && final(self).variables@.frames == assign(old(self).variables@.frames, seq!['?'],
                    ValueModel::Str(signed_decimal(c as int))),
            status is None ==> final(self).previous_status == old(self).previous_status
                && final(self).variables@ == old(self).variables@,
    {
        if let Some(c) = status {
            let q: Vec<char> = vec!['?'];
            assert(q@ =~= seq!['?']);
            let name = crate::text::string_of(&q);
            self.variables.set(name.as_str(), Value::Str(signed_decimal_of(c)));
            self.previous_status = c;
        }
    }

    /// Whether a summary of each step is to be recorded in history: `RECORD_SUMMARY` is
    /// exactly `1`.
    pub fn wants_summary(&self) -> (r: bool)
        requires
            self.variables.wf(),
        ensures
            r == (str_lookup(self.variables@, "RECORD_SUMMARY"@) == StrLookup::Found(seq!['1'])),
    {
        let one: Vec<char> = vec!['1'];
        assert(one@ =~= seq!['1']);
        match self.variables.get_str("RECORD_SUMMARY") {
            Ok(v) => crate::text::same_chars(&crate::text::chars_of(v.as_str()), &one),
            Err(_) => false,
        }
    }

    /// The prompt: four spaces for each level of nesting inside a block; at the top level,
    /// the `PROMPT` template with each `${name}` expanded, or `ERROR: ` where a `${` is not
    /// closed.
    pub fn prompt(&self) -> (r: String)
        requires
            self.variables.wf(),
        ensures
            self.flow_level > 0 ==> r@ == Seq::new(4 * self.flow_level as nat, |i: int| ' '),
            self.flow_level == 0 ==> r@ == match expand_template(self.variables@, prompt_template(self.variables@)) {
                Some(t) => t,
                None => "ERROR: "@,
            },
    {
        if self.flow_level == 0 {
            let template = match self.variables.get_str("PROMPT") {
                Ok(t) => t,
                Err(_) => String::new(),
            };
            match self.variables.expand_braces(template.as_str()) {
                Some(t) => t,
                None => "ERROR: ".to_string(),
            }
        } else {
            let n: u64 = 4 * self.flow_level as u64;
            let mut r = String::new();
            let mut i: u64 = 0;
            while i < n
                invariant
                    i <= n,
                    n == 4 * self.flow_level as nat,
                    r@ == Seq::new(i as nat, |j: int| ' '),
                decreases n - i,
            {
                push_char(&mut r, ' ');
                assert(r@ =~= Seq::new((i + 1) as nat, |j: int| ' '));
                i += 1;
            }
            r
        }
    }
}

/// An alias is expanded once: the statements it expands to are planned with aliases off,
/// so a job there never goes to an alias again, even one whose replacement starts with the
/// alias's own name; it goes to a built-in, a function or an external process.
pub proof fn law_alias_expands_once(
    st: Seq<FrameModel>,
    command: Seq<char>,
    args: Seq<Seq<char>>,
    builtin: bool,
)
    ensures
        !(dispatch(st, command, args, true, builtin) is Alias),
{
}

/// A function declared with k parameters and called with a number of arguments other than
/// k is not entered: the job yields a non-zero status and binds nothing.
pub proof fn law_arity_checked(
    st: Seq<FrameModel>,
    command: Seq<char>,
    args: Seq<Seq<char>>,
    no_alias: bool,
    params: Seq<Seq<char>>,
    body: Seq<Seq<char>>,
)
    requires
        lookup(st, command) == Some(ValueModel::Function(params, body)),
        arg_count(args) != params.len(),
    ensures
        dispatch(st, command, args, no_alias, false) == DispatchModel::ArityMismatch(params.len(), arg_count(args)),
        (early_status(dispatch(st, command, args, no_alias, false)) matches Some(s) && s != 0),
{
}

} // verus!
