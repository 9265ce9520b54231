//! The flattening engine, as a machine that asks about the file system.
//!
//! The engine reads no file itself. It asks one question at a time, is handed the
//! answer, and goes on until the flattened text is complete or the run has failed.
//! Its state is the chain of files that are being expanded, each one suspended at
//! the declaration whose unit the next one holds.

use vstd::prelude::*;
use crate::error::{FlattenError, FlattenErrorView};
use crate::bytes::NEWLINE;
use crate::model::{block, closing, placeholder};
use crate::path::{DirPath, DirPathView, FilePath, FilePathView, Layout};
use crate::scan::{next_declaration, scan, Scan};
use crate::syntax::Syntax;
use crate::text::{append_all, append_span, copy_span};

verus! {

/// A question about the file system.
#[derive(Debug, PartialEq, Eq)]
pub enum Request {
    /// Is the file that a declared unit is looked for in first a regular file?
    Probe(FilePath),
    /// Is the file that is to be expanded a regular file?
    Locate(FilePath),
    /// Is the path of the file that is to be expanded, with its extension taken
    /// off, a directory?
    BaseDir(DirPath),
    /// What is the text of the file?
    Read(FilePath),
}

/// The answer to a question.
#[derive(Debug, PartialEq, Eq)]
pub enum Answer {
    /// Yes or no, to `Probe`, `Locate` and `BaseDir`.
    Flag(bool),
    /// The text of the file, to `Read`.
    Text(Vec<u8>),
    /// The file could not be read, to `Read`.
    Unreadable,
}

/// A question as specifications see it.
pub enum RequestView {
    Probe(FilePathView),
    Locate(FilePathView),
    BaseDir(DirPathView),
    Read(FilePathView),
}

/// An answer as specifications see it.
pub enum AnswerView {
    Flag(bool),
    Text(Seq<u8>),
    Unreadable,
}

impl View for Request {
    type V = RequestView;

    open spec fn view(&self) -> RequestView {
        match self {
            Request::Probe(path) => RequestView::Probe(path@),
            Request::Locate(path) => RequestView::Locate(path@),
            Request::BaseDir(dir) => RequestView::BaseDir(dir@),
            Request::Read(path) => RequestView::Read(path@),
        }
    }
}

impl View for Answer {
    type V = AnswerView;

    open spec fn view(&self) -> AnswerView {
        match self {
            Answer::Flag(flag) => AnswerView::Flag(*flag),
            Answer::Text(text) => AnswerView::Text(text@),
            Answer::Unreadable => AnswerView::Unreadable,
        }
    }
}

/// A file whose flattening waits for the expansion of a unit that it declares.
#[derive(Debug)]
struct Frame {
    source: FilePath,
    base: DirPath,
    text: Vec<u8>,
    output: Vec<u8>,
    name_start: usize,
    name_end: usize,
    resume: usize,
}

/// A suspended file as specifications see it.
pub struct FrameView {
    /// The file.
    pub source: FilePathView,
    /// The directory in which the units that the file declares are looked for.
    pub base: DirPathView,
    /// The text of the file.
    pub text: Seq<u8>,
    /// What has been flattened so far: all that stands before the declaration.
    pub output: Seq<u8>,
    /// The name of the declared unit.
    pub name: Seq<u8>,
    /// The offset behind the declaration, where the flattening goes on.
    pub resume: int,
}

impl Frame {
    #[verifier::type_invariant]
    spec fn in_bounds(self) -> bool {
        self.name_start <= self.name_end <= self.resume <= self.text@.len()
    }
}

impl View for Frame {
    type V = FrameView;

    closed spec fn view(&self) -> FrameView {
        FrameView {
            source: self.source@,
            base: self.base@,
            text: self.text@,
            output: self.output@,
            name: self.text@.subrange(self.name_start as int, self.name_end as int),
            resume: self.resume as int,
        }
    }
}

/// What the engine is waiting to be told.
#[derive(Debug)]
enum Pending {
    Resolve { dir: DirPath, name: Vec<u8> },
    Locate { path: FilePath },
    BaseDir { path: FilePath },
    Read { path: FilePath, base: DirPath },
}

/// What the engine is waiting to be told, as specifications see it.
pub enum PendingView {
    /// Whether the unit `name` declared in `dir` has a file of its own.
    Resolve { dir: DirPathView, name: Seq<u8> },
    /// Whether `path`, which is to be expanded, is a regular file.
    Locate { path: FilePathView },
    /// Whether the units that `path` declares lie in a directory of their own.
    BaseDir { path: FilePathView },
    /// The text of `path`, whose units are looked for in `base`.
    Read { path: FilePathView, base: DirPathView },
}

impl View for Pending {
    type V = PendingView;

    closed spec fn view(&self) -> PendingView {
        match self {
            Pending::Resolve { dir, name } => PendingView::Resolve { dir: dir@, name: name@ },
            Pending::Locate { path } => PendingView::Locate { path: path@ },
            Pending::BaseDir { path } => PendingView::BaseDir { path: path@ },
            Pending::Read { path, base } => PendingView::Read { path: path@, base: base@ },
        }
    }
}

/// The engine between two questions.
#[derive(Debug)]
pub struct Flattener {
    keyword: Vec<u8>,
    tolerant: bool,
    stack: Vec<Frame>,
    pending: Pending,
}

/// The engine as specifications see it.
pub struct FlattenerView {
    /// The keyword that opens a declaration.
    pub keyword: Seq<u8>,
    /// Whether a unit whose file is missing is replaced by the placeholder.
    pub tolerant: bool,
    /// The suspended files, the entry file first.
    pub stack: Seq<FrameView>,
    /// What the engine is waiting to be told.
    pub pending: PendingView,
}

/// The views of a chain of suspended files.
spec fn frames_view(frames: Seq<Frame>) -> Seq<FrameView> {
    Seq::new(frames.len(), |i: int| frames[i]@)
}

impl View for Flattener {
    type V = FlattenerView;

    closed spec fn view(&self) -> FlattenerView {
        FlattenerView {
            keyword: self.keyword@,
            tolerant: self.tolerant,
            stack: frames_view(self.stack@),
            pending: self.pending@,
        }
    }
}

/// How the engine goes on after an answer.
#[derive(Debug)]
pub enum Step {
    /// The engine asks `request` and waits for the answer.
    Ask { machine: Flattener, request: Request },
    /// The flattened text of the entry file.
    Done(Vec<u8>),
    /// The run has failed.
    Failed(FlattenError),
}

/// A step as specifications see it.
pub enum StepView {
    Ask { machine: FlattenerView, request: RequestView },
    Done(Seq<u8>),
    Failed(FlattenErrorView),
}

impl View for Step {
    type V = StepView;

    open spec fn view(&self) -> StepView {
        match self {
            Step::Ask { machine, request } => StepView::Ask {
                machine: machine@,
                request: request@,
            },
            Step::Done(text) => StepView::Done(text@),
            Step::Failed(error) => StepView::Failed(error@),
        }
    }
}

/// The question that the engine asks while it waits for `pending`.
pub open spec fn request_of(pending: PendingView) -> RequestView {
    match pending {
        PendingView::Resolve { dir, name } => RequestView::Probe(
            FilePathView::Unit { dir, name, layout: Layout::File },
        ),
        PendingView::Locate { path } => RequestView::Locate(path),
        PendingView::BaseDir { path } => RequestView::BaseDir(path.stem()),
        PendingView::Read { path, base } => RequestView::Read(path),
    }
}

/// The step in which the engine `machine` asks its question.
pub open spec fn ask_view(machine: FlattenerView) -> StepView {
    StepView::Ask { machine, request: request_of(machine.pending) }
}

/// The engine `machine`, waiting for `pending` instead.
pub open spec fn waiting_for(machine: FlattenerView, pending: PendingView) -> FlattenerView {
    FlattenerView {
        keyword: machine.keyword,
        tolerant: machine.tolerant,
        stack: machine.stack,
        pending,
    }
}

/// The engine at the start of the expansion of `path`: nothing is suspended, and
/// the engine waits to be told whether `path` is a regular file.
pub open spec fn expanding(keyword: Seq<u8>, tolerant: bool, path: FilePathView) -> FlattenerView {
    FlattenerView { keyword, tolerant, stack: Seq::empty(), pending: PendingView::Locate { path } }
}

/// The engine before its first question, at the start of the expansion of the
/// entry file.
pub open spec fn initial(keyword: Seq<u8>, tolerant: bool) -> FlattenerView {
    expanding(keyword, tolerant, FilePathView::Entry)
}

/// The file `path` with the text `text`, before any of it is flattened.
pub open spec fn fresh_frame(path: FilePathView, base: DirPathView, text: Seq<u8>) -> FrameView {
    FrameView { source: path, base, text, output: Seq::empty(), name: Seq::empty(), resume: 0 }
}

/// The frame `frame` after the block of its declared unit, expanded to `child`,
/// is added to what it has flattened, with the newline that follows the block
/// where one is needed.
pub open spec fn spliced(keyword: Seq<u8>, frame: FrameView, child: Seq<u8>) -> FrameView {
    FrameView {
        source: frame.source,
        base: frame.base,
        text: frame.text,
        output: frame.output + block(keyword, frame.name, child) + closing(
            frame.text,
            frame.resume,
        ),
        name: frame.name,
        resume: frame.resume,
    }
}

/// The frame `frame` suspended at the declaration `d`, which its flattening has
/// reached: the text up to the declaration is added to what it has flattened.
pub open spec fn suspended(frame: FrameView, d: crate::scan::DeclSpan) -> FrameView {
    FrameView {
        source: frame.source,
        base: frame.base,
        text: frame.text,
        output: frame.output + frame.text.subrange(frame.resume, d.start),
        name: frame.text.subrange(d.name_start, d.name_end),
        resume: d.end,
    }
}

/// How the engine goes on with the file `frame` from the offset `frame.resume`,
/// above the suspended files `stack`.
///
/// At the next declaration the file is suspended, and the engine asks where the
/// declared unit lies. Without another declaration the file is complete, and its
/// flattened text is handed to the file below it.
pub open spec fn resume_spec(
    keyword: Seq<u8>,
    tolerant: bool,
    stack: Seq<FrameView>,
    frame: FrameView,
) -> StepView
    decreases stack.len(), 1nat,
{
    match scan(frame.text, keyword, frame.resume) {
        Scan::Malformed(at) => StepView::Failed(
            FlattenErrorView::MalformedComment { source: frame.source, at },
        ),
        Scan::Exhausted => deliver_spec(
            keyword,
            tolerant,
            stack,
            frame.output + frame.text.subrange(frame.resume, frame.text.len() as int),
        ),
        Scan::Found(d) => ask_view(
            FlattenerView {
                keyword,
                tolerant,
                stack: stack.push(suspended(frame, d)),
                pending: PendingView::Resolve {
                    dir: frame.base,
                    name: frame.text.subrange(d.name_start, d.name_end),
                },
            },
        ),
    }
}

/// How the engine goes on when the unit that the top of `stack` waits for has
/// expanded to `child`: with nothing suspended the run is done.
pub open spec fn deliver_spec(
    keyword: Seq<u8>,
    tolerant: bool,
    stack: Seq<FrameView>,
    child: Seq<u8>,
) -> StepView
    decreases stack.len(), 0nat,
{
    if stack.len() == 0 {
        StepView::Done(child)
    } else {
        resume_spec(keyword, tolerant, stack.drop_last(), spliced(keyword, stack.last(), child))
    }
}

/// How the engine `machine` goes on after `answer`.
///
/// An answer of the wrong kind changes nothing: the engine asks again.
pub open spec fn step_spec(machine: FlattenerView, answer: AnswerView) -> StepView {
    match machine.pending {
        PendingView::Resolve { dir, name } => match answer {
            AnswerView::Flag(found) => ask_view(
                waiting_for(
                    machine,
                    PendingView::Locate {
                        path: FilePathView::Unit {
                            dir,
                            name,
                            layout: if found {
                                Layout::File
                            } else {
                                Layout::Index
                            },
                        },
                    },
                ),
            ),
            _ => ask_view(machine),
        },
        PendingView::Locate { path } => match answer {
            AnswerView::Flag(found) => {
                if found {
                    ask_view(waiting_for(machine, PendingView::BaseDir { path }))
                } else if machine.tolerant {
                    deliver_spec(machine.keyword, machine.tolerant, machine.stack, placeholder())
                } else {
                    StepView::Failed(FlattenErrorView::FileNotFound(path))
                }
            },
            _ => ask_view(machine),
        },
        PendingView::BaseDir { path } => match answer {
            AnswerView::Flag(is_dir) => ask_view(
                waiting_for(
                    machine,
                    PendingView::Read {
                        path,
                        base: if is_dir {
                            path.stem()
                        } else {
                            path.parent()
                        },
                    },
                ),
            ),
            _ => ask_view(machine),
        },
        PendingView::Read { path, base } => match answer {
            AnswerView::Text(text) => resume_spec(
                machine.keyword,
                machine.tolerant,
                machine.stack,
                fresh_frame(path, base, text),
            ),
            AnswerView::Unreadable => StepView::Failed(FlattenErrorView::ReadFailure(path)),
            AnswerView::Flag(_) => ask_view(machine),
        },
    }
}

/// The placeholder for a missing unit.
pub fn placeholder_text() -> (r: Vec<u8>)
    ensures
        r@ == placeholder(),
{
    let r: Vec<u8> = vec![
        0x2fu8, 0x2fu8, 0x20u8, 0x4du8, 0x69u8, 0x73u8, 0x73u8, 0x69u8, 0x6eu8, 0x67u8, 0x20u8,
        0x6du8, 0x6fu8, 0x64u8, 0x75u8, 0x6cu8, 0x65u8, 0x20u8, 0x66u8, 0x69u8, 0x6cu8, 0x65u8,
    ];
    assert(r@ =~= placeholder());
    r
}

/// Appends to `out` the block of the unit `name`, whose text is `child`.
fn append_block(out: &mut Vec<u8>, keyword: &[u8], name: &[u8], child: &[u8])
    ensures
        final(out)@ == old(out)@ + block(keyword@, name@, child@),
{
    append_all(out, keyword);
    out.push(0x20u8);
    append_all(out, name);
    out.push(0x7bu8);
    out.push(0x0au8);
    append_all(out, child);
    out.push(0x0au8);
    out.push(0x7du8);
    assert(out@ =~= old(out)@ + block(keyword@, name@, child@));
}

/// What the flattening of a file comes to when it goes on.
enum Advance {
    Suspended { frame: Frame, dir: DirPath, name: Vec<u8> },
    Finished(Vec<u8>),
    Malformed(FlattenError),
}

/// Goes on with the flattening of `text`, the text of `source`, from `resume`, where
/// `output` holds what has been flattened so far.
///
/// Up to the next declaration the text is copied as it is, and the file is
/// suspended there; without another declaration the rest of the text is copied, and
/// the file is complete.
fn advance(
    keyword: &Vec<u8>,
    source: FilePath,
    base: DirPath,
    text: Vec<u8>,
    output: Vec<u8>,
    resume: usize,
) -> (r: Advance)
    requires
        resume <= text@.len(),
    ensures
        match scan(text@, keyword@, resume as int) {
            Scan::Malformed(at) => r matches Advance::Malformed(e) && e@
                == (FlattenErrorView::MalformedComment { source: source@, at }),
            Scan::Exhausted => r matches Advance::Finished(out) && out@ == output@
                + text@.subrange(resume as int, text@.len() as int),
            Scan::Found(d) => r matches Advance::Suspended { frame, dir, name } && frame@
                == suspended(
                (FrameView {
                    source: source@,
                    base: base@,
                    text: text@,
                    output: output@,
                    name: Seq::empty(),
                    resume: resume as int,
                }),
                d,
            ) && dir@ == base@ && name@ == text@.subrange(d.name_start, d.name_end),
        },
{
    let mut output = output;
    match next_declaration(text.as_slice(), keyword.as_slice(), resume) {
        Err(e) => Advance::Malformed(FlattenError::MalformedComment { source, at: e.start }),
        Ok(None) => {
            append_span(&mut output, text.as_slice(), resume, text.len());
            Advance::Finished(output)
        },
        Ok(Some(d)) => {
            append_span(&mut output, text.as_slice(), resume, d.start);
            let name = copy_span(text.as_slice(), d.name_start, d.name_end);
            let dir = base.clone();
            let frame = Frame {
                source,
                base,
                text,
                output,
                name_start: d.name_start,
                name_end: d.name_end,
                resume: d.end,
            };
            Advance::Suspended { frame, dir, name }
        },
    }
}

/// The step in which `machine` asks its question.
fn ask(machine: Flattener) -> (r: Step)
    ensures
        r@ == ask_view(machine@),
{
    let request = match &machine.pending {
        Pending::Resolve { dir, name } => {
            let copy = copy_span(name.as_slice(), 0, name.len());
            assert(copy@ =~= name@);
            Request::Probe(FilePath::Unit { dir: dir.clone(), name: copy, layout: Layout::File })
        },
        Pending::Locate { path } => Request::Locate(path.clone()),
        Pending::BaseDir { path } => Request::BaseDir(path.stem()),
        Pending::Read { path, .. } => Request::Read(path.clone()),
    };
    Step::Ask { machine, request }
}

/// Begins to expand `path` above the suspended files `stack`: the engine asks
/// whether `path` is a regular file.
fn locate(keyword: Vec<u8>, tolerant: bool, stack: Vec<Frame>, path: FilePath) -> (r: Step)
    ensures
        r@ == ask_view(
            FlattenerView {
                keyword: keyword@,
                tolerant,
                stack: frames_view(stack@),
                pending: PendingView::Locate { path: path@ },
            },
        ),
{
    ask(Flattener { keyword, tolerant, stack, pending: Pending::Locate { path } })
}

/// Begins to flatten `text`, the text of `source`, above the suspended files
/// `stack`, and goes on until the engine has a question, is done, or has failed.
fn resume(
    keyword: Vec<u8>,
    tolerant: bool,
    stack: Vec<Frame>,
    source: FilePath,
    base: DirPath,
    text: Vec<u8>,
) -> (r: Step)
    ensures
        r@ == resume_spec(
            keyword@,
            tolerant,
            frames_view(stack@),
            fresh_frame(source@, base@, text@),
        ),
{
    let mut stack = stack;
    let ghost below = stack@;
    match advance(&keyword, source, base, text, Vec::new(), 0) {
        Advance::Malformed(e) => Step::Failed(e),
        Advance::Finished(out) => deliver(keyword, tolerant, stack, out),
        Advance::Suspended { frame, dir, name } => {
            stack.push(frame);
            assert(frames_view(stack@) =~= frames_view(below).push(frame@));
            ask(Flattener { keyword, tolerant, stack, pending: Pending::Resolve { dir, name } })
        },
    }
}

/// Hands the expansion `child` to the file on top of `stack`, and goes on from
/// there until the engine has a question, is done, or has failed.
fn deliver(keyword: Vec<u8>, tolerant: bool, stack: Vec<Frame>, child: Vec<u8>) -> (r: Step)
    ensures
        r@ == deliver_spec(keyword@, tolerant, frames_view(stack@), child@),
{
    let mut frames = stack;
    let mut text = child;
    loop
        invariant
            deliver_spec(keyword@, tolerant, frames_view(frames@), text@) == deliver_spec(
                keyword@,
                tolerant,
                frames_view(stack@),
                child@,
            ),
        decreases frames@.len(),
    {
        let ghost before = frames@;
        match frames.pop() {
            None => {
                return Step::Done(text);
            },
            Some(frame) => {
                proof {
                    use_type_invariant(&frame);
                    assert(frames_view(frames@) =~= frames_view(before).drop_last());
                    assert(frames_view(before).last() == frame@);
                }
                let ghost below = frames@;
                let ghost top = frame@;
                let Frame { source, base, text: source_text, output, name_start, name_end, resume } =
                    frame;
                let mut output = output;
                let name = vstd::slice::slice_subrange(source_text.as_slice(), name_start, name_end);
                append_block(&mut output, keyword.as_slice(), name, text.as_slice());
                if !(resume < source_text.len() && source_text[resume] == NEWLINE) {
                    output.push(NEWLINE);
                }
                assert(output@ =~= top.output + block(keyword@, top.name, text@) + closing(
                    top.text,
                    top.resume,
                ));
                assert(spliced(keyword@, top, text@) == (FrameView {
                    source: source@,
                    base: base@,
                    text: source_text@,
                    output: output@,
                    name: top.name,
                    resume: resume as int,
                }));
                match advance(&keyword, source, base, source_text, output, resume) {
                    Advance::Malformed(e) => {
                        return Step::Failed(e);
                    },
                    Advance::Finished(out) => {
                        text = out;
                    },
                    Advance::Suspended { frame, dir, name } => {
                        frames.push(frame);
                        assert(frames_view(frames@) =~= frames_view(below).push(frame@));
                        return ask(
                            Flattener {
                                keyword,
                                tolerant,
                                stack: frames,
                                pending: Pending::Resolve { dir, name },
                            },
                        );
                    },
                }
            },
        }
    }
}

/// Starts the expansion of the file `path`: the engine asks whether `path` is a
/// regular file. A run that starts here ends with the text that `path` expands
/// to, or with the failure that ends the run.
pub fn expand(syntax: &Syntax, tolerant: bool, path: FilePath) -> (r: Step)
    ensures
        r@ == ask_view(expanding(syntax.keyword@, tolerant, path@)),
{
    let keyword = copy_span(syntax.keyword.as_slice(), 0, syntax.keyword.len());
    assert(keyword@ =~= syntax.keyword@);
    let stack: Vec<Frame> = Vec::new();
    assert(frames_view(stack@) =~= Seq::empty());
    locate(keyword, tolerant, stack, path)
}

/// Starts the flattening of `text`, the text of the file `source`, whose units
/// are looked for in `base`. The engine asks where the first declared unit lies; a
/// text without a declaration is done at once, unchanged.
pub fn flatten(
    syntax: &Syntax,
    tolerant: bool,
    base: DirPath,
    source: FilePath,
    text: Vec<u8>,
) -> (r: Step)
    ensures
        r@ == resume_spec(
            syntax.keyword@,
            tolerant,
            Seq::empty(),
            fresh_frame(source@, base@, text@),
        ),
{
    let keyword = copy_span(syntax.keyword.as_slice(), 0, syntax.keyword.len());
    assert(keyword@ =~= syntax.keyword@);
    let stack: Vec<Frame> = Vec::new();
    assert(frames_view(stack@) =~= Seq::empty());
    resume(keyword, tolerant, stack, source, base, text)
}

impl Flattener {
    /// Starts a flattening of the entry file: the engine asks whether the entry
    /// file is a regular file.
    pub fn start(syntax: &Syntax, tolerant: bool) -> (r: Step)
        ensures
            r@ == ask_view(initial(syntax.keyword@, tolerant)),
    {
        expand(syntax, tolerant, FilePath::Entry)
    }

    /// The file whose declaration the engine is working on, if any file is
    /// suspended.
    pub fn declaring_file(&self) -> (r: Option<FilePath>)
        ensures
            match r {
                Some(path) => self@.stack.len() > 0 && path@ == self@.stack.last().source,
                None => self@.stack.len() == 0,
            },
    {
        if self.stack.len() == 0 {
            None
        } else {
            Some(self.stack[self.stack.len() - 1].source.clone())
        }
    }

    /// Goes on after `answer`, the answer to the question that the engine asked
    /// last.
    pub fn step(self, answer: Answer) -> (r: Step)
        ensures
            r@ == step_spec(self@, answer@),
    {
        let Flattener { keyword, tolerant, stack, pending } = self;
        match pending {
            Pending::Resolve { dir, name } => match answer {
                Answer::Flag(found) => {
                    let layout = if found {
                        Layout::File
                    } else {
                        Layout::Index
                    };
                    locate(keyword, tolerant, stack, FilePath::Unit { dir, name, layout })
                },
                _ => ask(
                    Flattener { keyword, tolerant, stack, pending: Pending::Resolve { dir, name } },
                ),
            },
            Pending::Locate { path } => match answer {
                Answer::Flag(found) => {
                    if found {
                        ask(
                            Flattener { keyword, tolerant, stack, pending: Pending::BaseDir { path } },
                        )
                    } else if tolerant {
                        deliver(keyword, tolerant, stack, placeholder_text())
                    } else {
                        Step::Failed(FlattenError::FileNotFound(path))
                    }
                },
                _ => ask(Flattener { keyword, tolerant, stack, pending: Pending::Locate { path } }),
            },
            Pending::BaseDir { path } => match answer {
                Answer::Flag(is_dir) => {
                    let base = if is_dir {
                        path.stem()
                    } else {
                        path.parent()
                    };
                    ask(
                        Flattener { keyword, tolerant, stack, pending: Pending::Read { path, base } },
                    )
                },
                _ => ask(Flattener { keyword, tolerant, stack, pending: Pending::BaseDir { path } }),
            },
            Pending::Read { path, base } => match answer {
                Answer::Text(text) => resume(keyword, tolerant, stack, path, base, text),
                Answer::Unreadable => Step::Failed(FlattenError::ReadFailure(path)),
                Answer::Flag(_) => ask(
                    Flattener { keyword, tolerant, stack, pending: Pending::Read { path, base } },
                ),
            },
        }
    }
}

} // verus!
