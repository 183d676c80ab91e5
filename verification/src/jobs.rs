//! Builds and forward searches: what is run, with which arguments, and in
//! which order. Running it is left to the caller.

use crate::bytes::{bytes_of, copy_range, extend_range, str_same};
use crate::document::{extension_start, last_index_of, lemma_find_last, DOT, SLASH};
use crate::project::root_index;
use crate::server::{RequestFailure, Server, INTERNAL_ERROR};
use crate::syntax::PERCENT;
use crate::text::{position_at, Position};
use crate::uri::{normalize, normalized};
use crate::workspace::{paths_of, WorkspaceView};
use vstd::prelude::*;
use vstd::string::*;

verus! {

/// How a build ended.
#[derive(Debug, PartialEq, Eq, Clone, Copy, Structural)]
pub enum BuildStatus {
    Success,
    Error,
    Failure,
    Cancelled,
}

/// How a forward search ended.
#[derive(Debug, PartialEq, Eq, Clone, Copy, Structural)]
pub enum ForwardSearchStatus {
    Success,
    Error,
    Failure,
    Unconfigured,
}

impl BuildStatus {
    /// The number under which the status is reported.
    pub fn code(self) -> (code: u8)
        ensures
            code == match self {
                BuildStatus::Success => 0u8,
                BuildStatus::Error => 1u8,
                BuildStatus::Failure => 2u8,
                BuildStatus::Cancelled => 3u8,
            },
    {
        match self {
            BuildStatus::Success => 0,
            BuildStatus::Error => 1,
            BuildStatus::Failure => 2,
            BuildStatus::Cancelled => 3,
        }
    }
}

impl ForwardSearchStatus {
    /// The number under which the status is reported.
    pub fn code(self) -> (code: u8)
        ensures
            code == match self {
                ForwardSearchStatus::Success => 0u8,
                ForwardSearchStatus::Error => 1u8,
                ForwardSearchStatus::Failure => 2u8,
                ForwardSearchStatus::Unconfigured => 3u8,
            },
    {
        match self {
            ForwardSearchStatus::Success => 0,
            ForwardSearchStatus::Error => 1,
            ForwardSearchStatus::Failure => 2,
            ForwardSearchStatus::Unconfigured => 3,
        }
    }
}

/// How a build ended whose compiler was run: in success where the compiler
/// said so, in an error where it said otherwise, and in failure where it
/// could not be run at all, which is `None`.
pub open spec fn build_status_of(outcome: Option<bool>) -> BuildStatus {
    match outcome {
        Some(true) => BuildStatus::Success,
        Some(false) => BuildStatus::Error,
        None => BuildStatus::Failure,
    }
}

/// How a forward search ended whose viewer was run: as a build does.
pub open spec fn search_status_of(outcome: Option<bool>) -> ForwardSearchStatus {
    match outcome {
        Some(true) => ForwardSearchStatus::Success,
        Some(false) => ForwardSearchStatus::Error,
        None => ForwardSearchStatus::Failure,
    }
}

impl BuildStatus {
    /// How a build ended whose compiler was run, `None` standing for a
    /// compiler that could not be run.
    pub fn of_run(outcome: Option<bool>) -> (status: BuildStatus)
        ensures
            status == build_status_of(outcome),
    {
        match outcome {
            Some(true) => BuildStatus::Success,
            Some(false) => BuildStatus::Error,
            None => BuildStatus::Failure,
        }
    }
}

impl ForwardSearchStatus {
    /// How a forward search ended whose viewer was run, `None` standing for
    /// a viewer that could not be run.
    pub fn of_run(outcome: Option<bool>) -> (status: ForwardSearchStatus)
        ensures
            status == search_status_of(outcome),
    {
        match outcome {
            Some(true) => ForwardSearchStatus::Success,
            Some(false) => ForwardSearchStatus::Error,
            None => ForwardSearchStatus::Failure,
        }
    }
}

/// A program to run, and its arguments.
pub struct Invocation {
    pub executable: Vec<u8>,
    pub args: Vec<Vec<u8>>,
}

/// A command that editors may ask the server to execute.
#[derive(Debug, PartialEq, Eq, Clone, Copy, Structural)]
pub enum WorkspaceCommand {
    CleanAuxiliary,
    CleanArtifacts,
}

/// A number in decimal digits.
pub open spec fn decimal(n: nat) -> Seq<u8>
    decreases n,
{
    if n < 10 {
        seq![(48 + n) as u8]
    } else {
        decimal(n / 10).push((48 + n % 10) as u8)
    }
}

/// A number in decimal digits.
pub fn to_decimal(n: u64) -> (digits: Vec<u8>)
    ensures
        digits@ == decimal(n as nat),
    decreases n,
{
    if n < 10 {
        let mut digits: Vec<u8> = Vec::new();
        digits.push((48 + n) as u8);
        digits
    } else {
        let mut digits = to_decimal(n / 10);
        digits.push((48 + n % 10) as u8);
        digits
    }
}

/// `arg` from index `i` on with its placeholders filled in: `%f` stands for
/// the TeX file, `%p` for the PDF file, and, where a line is given, `%l` for
/// the line. Every other byte stands for itself.
pub open spec fn substituted(
    arg: Seq<u8>,
    i: int,
    tex: Seq<u8>,
    pdf: Seq<u8>,
    line: Option<Seq<u8>>,
) -> Seq<u8>
    decreases arg.len() - i,
{
    if i < 0 || i >= arg.len() {
        Seq::empty()
    } else if arg[i] == PERCENT && i + 1 < arg.len() && arg[i + 1] == 102 {
        tex + substituted(arg, i + 2, tex, pdf, line)
    } else if arg[i] == PERCENT && i + 1 < arg.len() && arg[i + 1] == 112 {
        pdf + substituted(arg, i + 2, tex, pdf, line)
    } else if arg[i] == PERCENT && i + 1 < arg.len() && arg[i + 1] == 108 && line is Some {
        line->0 + substituted(arg, i + 2, tex, pdf, line)
    } else {
        seq![arg[i]] + substituted(arg, i + 1, tex, pdf, line)
    }
}

/// Each of `args` with its placeholders filled in.
pub open spec fn substituted_all(
    args: Seq<Vec<u8>>,
    tex: Seq<u8>,
    pdf: Seq<u8>,
    line: Option<Seq<u8>>,
) -> Seq<Seq<u8>> {
    Seq::new(args.len(), |k: int| substituted(args[k]@, 0, tex, pdf, line))
}

/// The PDF file of a TeX file: the same path with the extension `pdf`.
pub open spec fn pdf_of(uri: Seq<u8>) -> Seq<u8> {
    match extension_start(uri) {
        Some(start) => uri.subrange(0, start) + bytes_of("pdf"),
        None => uri + bytes_of(".pdf"),
    }
}

/// The bytes that an optional byte string holds.
pub open spec fn bytes_in(bytes: Option<Vec<u8>>) -> Option<Seq<u8>> {
    match bytes {
        Some(b) => Some(b@),
        None => None,
    }
}

/// `arg` with its placeholders filled in.
pub fn substitute(arg: &[u8], tex: &[u8], pdf: &[u8], line: &Option<Vec<u8>>) -> (out: Vec<u8>)
    ensures
        out@ == substituted(arg@, 0, tex@, pdf@, bytes_in(*line)),
{
    let ghost filled = bytes_in(*line);
    let mut out: Vec<u8> = Vec::new();
    let mut i: usize = 0;
    while i < arg.len()
        invariant
            0 <= i <= arg.len(),
            filled == bytes_in(*line),
            out@ + substituted(arg@, i as int, tex@, pdf@, filled) == substituted(
                arg@,
                0,
                tex@,
                pdf@,
                filled,
            ),
        decreases arg.len() - i,
    {
        let ghost before = out@;
        if arg[i] == PERCENT && i + 1 < arg.len() && arg[i + 1] == 102 {
            extend_range(&mut out, tex, 0, tex.len());
            assert(tex@.subrange(0, tex@.len() as int) =~= tex@);
            assert(before + tex@ + substituted(arg@, i + 2, tex@, pdf@, filled) =~= before + (tex@
                + substituted(arg@, i + 2, tex@, pdf@, filled)));
            i += 2;
        } else if arg[i] == PERCENT && i + 1 < arg.len() && arg[i + 1] == 112 {
            extend_range(&mut out, pdf, 0, pdf.len());
            assert(pdf@.subrange(0, pdf@.len() as int) =~= pdf@);
            assert(before + pdf@ + substituted(arg@, i + 2, tex@, pdf@, filled) =~= before + (pdf@
                + substituted(arg@, i + 2, tex@, pdf@, filled)));
            i += 2;
        } else if arg[i] == PERCENT && i + 1 < arg.len() && arg[i + 1] == 108 && line.is_some() {
            match line {
                Some(digits) => {
                    extend_range(&mut out, digits.as_slice(), 0, digits.len());
                    assert(digits@.subrange(0, digits@.len() as int) =~= digits@);
                    assert(before + digits@ + substituted(arg@, i + 2, tex@, pdf@, filled)
                        =~= before + (digits@ + substituted(arg@, i + 2, tex@, pdf@, filled)));
                },
                None => {},
            }
            i += 2;
        } else {
            out.push(arg[i]);
            assert(before.push(arg@[i as int]) + substituted(arg@, i + 1, tex@, pdf@, filled)
                =~= before + (seq![arg@[i as int]] + substituted(arg@, i + 1, tex@, pdf@, filled)));
            i += 1;
        }
    }
    assert(out@ + Seq::<u8>::empty() =~= out@);
    out
}

/// Each of `args` with its placeholders filled in.
pub fn substitute_all(args: &Vec<Vec<u8>>, tex: &[u8], pdf: &[u8], line: &Option<Vec<u8>>) -> (out:
    Vec<Vec<u8>>)
    ensures
        paths_of(out@) == substituted_all(args@, tex@, pdf@, bytes_in(*line)),
{
    let mut out: Vec<Vec<u8>> = Vec::new();
    let mut k: usize = 0;
    while k < args.len()
        invariant
            0 <= k <= args@.len(),
            out@.len() == k,
            forall|j: int|
                0 <= j < k ==> (#[trigger] out@[j])@ == substituted(
                    args@[j]@,
                    0,
                    tex@,
                    pdf@,
                    bytes_in(*line),
                ),
        decreases args@.len() - k,
    {
        out.push(substitute(args[k].as_slice(), tex, pdf, line));
        k += 1;
    }
    assert(paths_of(out@) =~= substituted_all(args@, tex@, pdf@, bytes_in(*line)));
    out
}

/// The PDF file of a TeX file.
pub fn pdf_path(uri: &[u8]) -> (path: Vec<u8>)
    ensures
        path@ == pdf_of(uri@),
{
    let size = uri.len();
    proof {
        lemma_find_last(uri@, size as int, DOT);
        lemma_find_last(uri@, size as int, SLASH);
    }
    let dot = match last_index_of(uri, DOT) {
        Some(dot) => match last_index_of(uri, SLASH) {
            Some(slash) => if dot > slash {
                Some(dot)
            } else {
                None
            },
            None => Some(dot),
        },
        None => None,
    };
    match dot {
        Some(dot) => {
            let mut path = copy_range(uri, 0, dot + 1);
            let tail = "pdf".as_bytes();
            extend_range(&mut path, tail, 0, tail.len());
            assert(tail@.subrange(0, tail@.len() as int) =~= tail@);
            path
        },
        None => {
            let mut path = copy_range(uri, 0, uri.len());
            assert(uri@.subrange(0, uri@.len() as int) =~= uri@);
            let tail = ".pdf".as_bytes();
            extend_range(&mut path, tail, 0, tail.len());
            assert(tail@.subrange(0, tail@.len() as int) =~= tail@);
            path
        },
    }
}

/// The line number that a viewer is given for a line counted from zero.
pub open spec fn shown_line(line: usize) -> nat {
    if line < u64::MAX {
        (line + 1) as nat
    } else {
        line as nat
    }
}

/// The command that an editor asks for by this name.
pub open spec fn command_of(name: Seq<char>) -> Option<WorkspaceCommand> {
    if name == "texlab.cleanAuxiliary"@ {
        Some(WorkspaceCommand::CleanAuxiliary)
    } else if name == "texlab.cleanArtifacts"@ {
        Some(WorkspaceCommand::CleanArtifacts)
    } else {
        None
    }
}

/// The arguments of a build for document `i`: the configured arguments, with
/// `%f` standing for the root of the document's project and `%p` for the PDF
/// file of the root.
pub open spec fn build_args(workspace: WorkspaceView, args: Seq<Vec<u8>>, i: int) -> Seq<Seq<u8>> {
    let root = workspace.documents[root_index(workspace, i)].uri;
    substituted_all(args, root, pdf_of(root), None)
}

/// The position that a forward search shows: the one given, or, without one,
/// that of the cursor.
pub open spec fn search_position(
    workspace: WorkspaceView,
    i: int,
    position: Option<Position>,
) -> Position {
    match position {
        Some(given) => given,
        None => position_at(workspace.documents[i].text, workspace.documents[i].cursor),
    }
}

/// The arguments of a forward search for document `i`: the configured
/// arguments, with `%f` standing for the document, `%p` for the PDF file of
/// the root of its project, and `%l` for the line, counted from one.
pub open spec fn search_args(
    workspace: WorkspaceView,
    args: Seq<Vec<u8>>,
    i: int,
    position: Option<Position>,
) -> Seq<Seq<u8>> {
    substituted_all(
        args,
        workspace.documents[i].uri,
        pdf_of(workspace.documents[root_index(workspace, i)].uri),
        Some(decimal(shown_line(search_position(workspace, i, position).line))),
    )
}

impl Server {
    /// What a build of the document with this URI runs: the configured
    /// compiler on the root of the document's project, with `%f` standing for
    /// the root and `%p` for its PDF file. Where the document is unknown or
    /// no compiler is configured, nothing is run and the build has failed.
    pub fn build_internal(&self, uri: &[u8]) -> (plan: Result<Invocation, BuildStatus>)
        requires
            self.wf(),
        ensures
            plan is Ok <==> self.workspace@.has(normalized(uri@)) && self.options.build.executable
                is Some,
            plan matches Ok(run) ==> run.executable@ == self.options.build.executable->0@,
            plan matches Ok(run) ==> paths_of(run.args@) == build_args(
                self.workspace@,
                self.options.build.args@,
                self.workspace@.index_of(normalized(uri@))->0,
            ),
            plan matches Err(status) ==> status == BuildStatus::Failure,
    {
        let normal = normalize(uri);
        let i = match self.workspace.lookup(normal.as_slice()) {
            Some(i) => i,
            None => {
                return Err(BuildStatus::Failure);
            },
        };
        let executable = match &self.options.build.executable {
            Some(executable) => {
                assert(executable@.subrange(0, executable@.len() as int) =~= executable@);
                copy_range(executable.as_slice(), 0, executable.len())
            },
            None => {
                return Err(BuildStatus::Failure);
            },
        };
        let node = self.workspace.root(i);
        let tex = self.workspace.document(node).uri();
        let pdf = pdf_path(tex.as_slice());
        let line: Option<Vec<u8>> = None;
        let args = substitute_all(&self.options.build.args, tex.as_slice(), pdf.as_slice(), &line);
        assert(bytes_in(line) == None::<Seq<u8>>);
        Ok(Invocation { executable, args })
    }

    /// Whether a forward search follows a build: where the options ask for
    /// it and the build succeeded.
    pub fn forward_search_follows(&self, status: BuildStatus) -> (follows: bool)
        ensures
            follows == (self.options.build.forward_search_after && status == BuildStatus::Success),
    {
        self.options.build.forward_search_after && status == BuildStatus::Success
    }

    /// What a forward search for the document with this URI runs: the
    /// configured viewer, with `%f` standing for the document, `%p` for the
    /// PDF file of the root of its project, and `%l` for the line, counted
    /// from one. The line is that of the position, or, without one, that of
    /// the cursor. Where no viewer is configured, the search is unconfigured,
    /// whatever the document; where a viewer is configured and the document
    /// is unknown, the search has failed. Nothing is run in either case.
    pub fn forward_search_internal(&self, uri: &[u8], position: Option<Position>) -> (plan: Result<
        Invocation,
        ForwardSearchStatus,
    >)
        requires
            self.wf(),
        ensures
            plan is Ok <==> self.workspace@.has(normalized(uri@))
                && self.options.forward_search.executable is Some
                && self.options.forward_search.args is Some,
            plan matches Ok(run) ==> run.executable@ == self.options.forward_search.executable->0@,
            plan matches Ok(run) ==> paths_of(run.args@) == search_args(
                self.workspace@,
                self.options.forward_search.args->0@,
                self.workspace@.index_of(normalized(uri@))->0,
                position,
            ),
            plan matches Err(status) ==> status == if self.options.forward_search.executable is None
                || self.options.forward_search.args is None {
                ForwardSearchStatus::Unconfigured
            } else {
                ForwardSearchStatus::Failure
            },
    {
        let executable = match &self.options.forward_search.executable {
            Some(executable) => {
                assert(executable@.subrange(0, executable@.len() as int) =~= executable@);
                copy_range(executable.as_slice(), 0, executable.len())
            },
            None => {
                return Err(ForwardSearchStatus::Unconfigured);
            },
        };
        let args = match &self.options.forward_search.args {
            Some(args) => args,
            None => {
                return Err(ForwardSearchStatus::Unconfigured);
            },
        };
        let normal = normalize(uri);
        let uri = normal.as_slice();
        let i = match self.workspace.lookup(uri) {
            Some(i) => i,
            None => {
                return Err(ForwardSearchStatus::Failure);
            },
        };
        let document = self.workspace.document(i);
        let at = match position {
            Some(given) => given,
            None => document.position_at(document.cursor()),
        };
        let node = self.workspace.root(i);
        let pdf = pdf_path(self.workspace.document(node).uri().as_slice());
        let shown: u64 = if (at.line as u64) < u64::MAX {
            at.line as u64 + 1
        } else {
            at.line as u64
        };
        let line = Some(to_decimal(shown));
        let filled = substitute_all(args, uri, pdf.as_slice(), &line);
        assert(shown as nat == shown_line(at.line));
        assert(bytes_in(line) == Some(decimal(shown_line(at.line))));
        Ok(Invocation { executable, args: filled })
    }

    /// What a build request runs: as `build_internal` says where the request
    /// names a document; a request that names none has failed.
    pub fn build_request(&self, uri: Option<&[u8]>) -> (plan: Result<Invocation, BuildStatus>)
        requires
            self.wf(),
        ensures
            plan is Ok <==> uri is Some && self.workspace@.has(normalized(uri->0@))
                && self.options.build.executable is Some,
            plan matches Ok(run) ==> run.executable@ == self.options.build.executable->0@,
            plan matches Ok(run) ==> paths_of(run.args@) == build_args(
                self.workspace@,
                self.options.build.args@,
                self.workspace@.index_of(normalized(uri->0@))->0,
            ),
            plan matches Err(status) ==> status == BuildStatus::Failure,
    {
        match uri {
            Some(uri) => self.build_internal(uri),
            None => Err(BuildStatus::Failure),
        }
    }

    /// What a forward search request runs: as `forward_search_internal` says
    /// where the request names a document. A request that names none is
    /// unconfigured where no viewer is configured, and has failed otherwise.
    pub fn forward_search_request(&self, uri: Option<&[u8]>, position: Option<Position>) -> (plan:
        Result<Invocation, ForwardSearchStatus>)
        requires
            self.wf(),
        ensures
            plan is Ok <==> uri is Some && self.workspace@.has(normalized(uri->0@))
                && self.options.forward_search.executable is Some
                && self.options.forward_search.args is Some,
            plan matches Ok(run) ==> run.executable@ == self.options.forward_search.executable->0@,
            plan matches Ok(run) ==> paths_of(run.args@) == search_args(
                self.workspace@,
                self.options.forward_search.args->0@,
                self.workspace@.index_of(normalized(uri->0@))->0,
                position,
            ),
            plan matches Err(status) ==> status == if self.options.forward_search.executable is None
                || self.options.forward_search.args is None {
                ForwardSearchStatus::Unconfigured
            } else {
                ForwardSearchStatus::Failure
            },
    {
        match uri {
            Some(uri) => self.forward_search_internal(uri, position),
            None => if self.options.forward_search.executable.is_none()
                || self.options.forward_search.args.is_none() {
                Err(ForwardSearchStatus::Unconfigured)
            } else {
                Err(ForwardSearchStatus::Failure)
            },
        }
    }

    /// The command that an editor asks for by this name, or the error with
    /// which the request is answered where there is no such command.
    pub fn execute_command(name: &str) -> (found: Result<WorkspaceCommand, RequestFailure>)
        ensures
            match found {
                Ok(command) => command_of(name@) == Some(command),
                Err(failure) => command_of(name@) is None && failure.code == INTERNAL_ERROR
                    && failure.message@ == "unknown command"@,
            },
    {
        if str_same(name, "texlab.cleanAuxiliary") {
            Ok(WorkspaceCommand::CleanAuxiliary)
        } else if str_same(name, "texlab.cleanArtifacts") {
            Ok(WorkspaceCommand::CleanArtifacts)
        } else {
            Err(RequestFailure { code: INTERNAL_ERROR, message: "unknown command".to_owned() })
        }
    }
}

/// The flag with which a command is handed to `latexmk`.
pub open spec fn clean_flag(command: WorkspaceCommand) -> Seq<u8> {
    match command {
        WorkspaceCommand::CleanAuxiliary => bytes_of("-c"),
        WorkspaceCommand::CleanArtifacts => bytes_of("-C"),
    }
}

impl WorkspaceCommand {
    /// What the command runs on the file at `path`: `latexmk` with `-c`,
    /// which removes the auxiliary files, or with `-C`, which removes the
    /// artifacts as well.
    pub fn invocation(self, path: &[u8]) -> (run: Invocation)
        ensures
            run.executable@ == bytes_of("latexmk"),
            run.args@.len() == 2,
            run.args@[0]@ == clean_flag(self),
            run.args@[1]@ == path@,
    {
        let flag = match self {
            WorkspaceCommand::CleanAuxiliary => "-c".as_bytes(),
            WorkspaceCommand::CleanArtifacts => "-C".as_bytes(),
        };
        let name = "latexmk".as_bytes();
        let mut args: Vec<Vec<u8>> = Vec::new();
        assert(flag@.subrange(0, flag@.len() as int) =~= flag@);
        assert(path@.subrange(0, path@.len() as int) =~= path@);
        assert(name@.subrange(0, name@.len() as int) =~= name@);
        args.push(copy_range(flag, 0, flag.len()));
        args.push(copy_range(path, 0, path.len()));
        Invocation { executable: copy_range(name, 0, name.len()), args }
    }
}

/// What a build queue is, as plain values.
pub ghost struct BuildQueueView {
    pub running: bool,
    pub waiting: Seq<u64>,
}

/// The order of builds: one runs at a time, and the others wait their turn in
/// the order in which they were asked for.
pub struct BuildQueue {
    running: bool,
    waiting: Vec<u64>,
}

impl View for BuildQueue {
    type V = BuildQueueView;

    closed spec fn view(&self) -> BuildQueueView {
        BuildQueueView { running: self.running, waiting: self.waiting@ }
    }
}

impl BuildQueue {
    /// A build waits only while another runs.
    pub closed spec fn wf(&self) -> bool {
        self.waiting@.len() > 0 ==> self.running
    }

    /// What `wf` says of the view.
    pub proof fn lemma_wf(&self)
        requires
            self.wf(),
        ensures
            self@.waiting.len() > 0 ==> self@.running,
    {
    }

    /// A queue in which nothing runs and nothing waits.
    pub fn new() -> (queue: BuildQueue)
        ensures
            queue.wf(),
            !queue@.running,
            queue@.waiting.len() == 0,
    {
        BuildQueue { running: false, waiting: Vec::new() }
    }

    /// Asks for a build. Returns whether it starts now; if not, it waits
    /// behind those that wait already.
    pub fn request(&mut self, id: u64) -> (starts: bool)
        requires
            old(self).wf(),
        ensures
            final(self).wf(),
            starts == !old(self)@.running,
            final(self)@.running,
            final(self)@.waiting == if old(self)@.running {
                old(self)@.waiting.push(id)
            } else {
                old(self)@.waiting
            },
    {
        if self.running {
            self.waiting.push(id);
            false
        } else {
            self.running = true;
            true
        }
    }

    /// The running build ended, however it ended. Returns the build that
    /// starts now: the one that waited longest. Where none waits, nothing
    /// runs any more.
    pub fn finish(&mut self) -> (next: Option<u64>)
        requires
            old(self).wf(),
        ensures
            final(self).wf(),
            if old(self)@.waiting.len() > 0 {
                &&& next == Some(old(self)@.waiting[0])
                &&& final(self)@.running
                &&& final(self)@.waiting == old(self)@.waiting.drop_first()
            } else {
                &&& next is None
                &&& !final(self)@.running
                &&& final(self)@.waiting.len() == 0
            },
    {
        if self.waiting.len() > 0 {
            let next = self.waiting.remove(0);
            assert(self.waiting@ =~= old(self).waiting@.drop_first());
            Some(next)
        } else {
            self.running = false;
            None
        }
    }
}

} // verus!
