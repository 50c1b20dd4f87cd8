//! Decisions of the launch controller: the placeholder reference, the
//! in-root command path, the isolation outcome, and the propagated exit
//! status. The surrounding program performs the root change, the namespace
//! request and the spawn, and hands the observed values back.

use vstd::prelude::*;
use vstd::string::StrSliceExecFns;
use vstd::string::StringExecFns;

verus! {

/// The exit code propagated when the child has no numeric exit status
/// (it was terminated by a signal): a distinguished non-zero code rather
/// than a silent success.
pub const SIGNAL_EXIT_CODE: i32 = 128;

/// The characters after the last `/`; the whole value when it has none.
pub open spec fn after_last_slash(s: Seq<char>) -> Seq<char>
    decreases s.len(),
{
    if s.len() == 0 {
        s
    } else if s[s.len() - 1] == '/' {
        Seq::empty()
    } else {
        after_last_slash(s.drop_last()).push(s[s.len() - 1])
    }
}

/// Decides whether two strings hold the same characters.
pub fn str_eq(a: &str, b: &str) -> (r: bool)
    ensures
        r == (a@ == b@),
{
    let an = a.unicode_len();
    let bn = b.unicode_len();
    if an != bn {
        return false;
    }
    let mut i: usize = 0;
    while i < an
        invariant
            i <= an,
            an == a@.len(),
            an == b@.len(),
            forall|j: int| 0 <= j < i ==> a@[j] == b@[j],
        decreases an - i,
    {
        if a.get_char(i) != b.get_char(i) {
            return false;
        }
        i = i + 1;
    }
    proof {
        assert(a@ =~= b@);
    }
    true
}

/// Whether the image argument is the placeholder meaning "no image:
/// sandbox a local binary directly".
pub fn is_placeholder(image: &str) -> (r: bool)
    ensures
        r == (image@ == "<some_image>"@),
{
    str_eq(image, "<some_image>")
}

/// The base filename of a path: what follows its last `/`.
pub fn basename(path: &str) -> (r: String)
    ensures
        r@ == after_last_slash(path@),
{
    let n = path.unicode_len();
    let mut i: usize = n;
    while i > 0
        invariant
            i <= n,
            n == path@.len(),
            forall|j: int| i <= j < n ==> path@[j] != '/',
        decreases i,
    {
        if path.get_char(i - 1) == '/' {
            let suffix = path.substring_char(i, n);
            proof {
                lemma_after_last_slash_at(path@, i - 1);
            }
            return suffix.to_owned();
        }
        i = i - 1;
    }
    proof {
        lemma_after_last_slash_none(path@);
        assert(path@.subrange(0, n as int) =~= path@);
    }
    let whole = path.substring_char(0, n);
    whole.to_owned()
}

proof fn lemma_after_last_slash_none(s: Seq<char>)
    requires
        forall|j: int| 0 <= j < s.len() ==> s[j] != '/',
    ensures
        after_last_slash(s) == s,
    decreases s.len(),
{
    if s.len() > 0 {
        lemma_after_last_slash_none(s.drop_last());
        assert(after_last_slash(s.drop_last()).push(s[s.len() - 1]) =~= s);
    }
}

proof fn lemma_after_last_slash_at(s: Seq<char>, k: int)
    requires
        0 <= k < s.len(),
        s[k] == '/',
        forall|j: int| k < j < s.len() ==> s[j] != '/',
    ensures
        after_last_slash(s) == s.subrange(k + 1, s.len() as int),
    decreases s.len(),
{
    if k == s.len() - 1 {
        assert(s.subrange(k + 1, s.len() as int) =~= Seq::<char>::empty());
    } else {
        lemma_after_last_slash_at(s.drop_last(), k);
        assert(s.drop_last()[k] == s[k]);
        assert(s.drop_last().subrange(k + 1, s.drop_last().len() as int).push(s[s.len() - 1])
            =~= s.subrange(k + 1, s.len() as int));
    }
}

/// The path the command is executed at inside the sealed root: unchanged
/// when an image populated the root, `/<basename>` when a single local
/// binary was copied in. `None` when no base filename can be taken from
/// the command path.
pub fn command_in_root(valid_image: bool, command: &str) -> (r: Option<String>)
    ensures
        valid_image ==> r is Some && r->Some_0@ == command@,
        !valid_image ==> (match r {
            Option::Some(p) => after_last_slash(command@).len() > 0 && p@ == "/"@
                + after_last_slash(command@),
            Option::None => after_last_slash(command@).len() == 0,
        }),
{
    if valid_image {
        return Some(command.to_owned());
    }
    let base = basename(command);
    if base.as_str().unicode_len() == 0 {
        return None;
    }
    let mut p = String::from_str("/");
    p.append(base.as_str());
    Some(p)
}

/// How the process-ID isolation request ended: isolated, not supported on
/// this platform, or failed. Isolation is best-effort; a missing isolation
/// is surfaced, not hidden.
#[derive(Clone, Copy, Debug, PartialEq, Eq, Structural)]
pub enum IsolationStatus {
    Isolated,
    Unsupported,
    Failed,
}

/// Classifies the return code of the namespace request: zero is success,
/// otherwise `unsupported` tells a missing platform facility from a failure.
pub fn isolation_outcome(ret: i32, unsupported: bool) -> (r: IsolationStatus)
    ensures
        ret == 0 ==> r == IsolationStatus::Isolated,
        ret != 0 && unsupported ==> r == IsolationStatus::Unsupported,
        ret != 0 && !unsupported ==> r == IsolationStatus::Failed,
{
    if ret == 0 {
        IsolationStatus::Isolated
    } else if unsupported {
        IsolationStatus::Unsupported
    } else {
        IsolationStatus::Failed
    }
}

/// What the supervised child produced: captured output bytes and the exit
/// status, absent when the child was terminated abnormally.
pub struct ExecutionResult {
    stdout: Vec<u8>,
    stderr: Vec<u8>,
    status: Option<i32>,
}

/// The mathematical value of an [`ExecutionResult`].
pub struct ExecutionResultView {
    pub stdout: Seq<u8>,
    pub stderr: Seq<u8>,
    pub status: Option<i32>,
}

impl View for ExecutionResult {
    type V = ExecutionResultView;

    closed spec fn view(&self) -> ExecutionResultView {
        ExecutionResultView { stdout: self.stdout@, stderr: self.stderr@, status: self.status }
    }
}

impl ExecutionResult {
    /// Captures what the child produced.
    pub fn new(stdout: Vec<u8>, stderr: Vec<u8>, status: Option<i32>) -> (r: ExecutionResult)
        ensures
            r@.stdout == stdout@,
            r@.stderr == stderr@,
            r@.status == status,
    {
        ExecutionResult { stdout, stderr, status }
    }

    /// The captured standard output bytes.
    pub fn stdout(&self) -> (r: &Vec<u8>)
        ensures
            r@ == self@.stdout,
    {
        &self.stdout
    }

    /// The captured standard error bytes.
    pub fn stderr(&self) -> (r: &Vec<u8>)
        ensures
            r@ == self@.stderr,
    {
        &self.stderr
    }

    /// The child's numeric exit status, when it has one.
    pub fn status(&self) -> (r: Option<i32>)
        ensures
            r == self@.status,
    {
        self.status
    }

    /// The exit code the invocation propagates as its own: the child's
    /// numeric status when there is one, the distinguished signal code
    /// otherwise. Never silently a success for an abnormal termination.
    pub fn exit_code(&self) -> (r: i32)
        ensures
            match self@.status {
                Option::Some(c) => r == c,
                Option::None => r == SIGNAL_EXIT_CODE && r != 0,
            },
    {
        match self.status {
            Option::Some(c) => c,
            Option::None => SIGNAL_EXIT_CODE,
        }
    }
}

} // verus!
