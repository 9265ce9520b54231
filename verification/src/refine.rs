//! The engine against the model: whatever a run of the engine ends with is what the
//! model says the entry file expands to.

use vstd::prelude::*;
use crate::engine::{
    ask_view, deliver_spec, expanding, fresh_frame, initial, request_of, resume_spec, spliced,
    step_spec, suspended, AnswerView, FlattenerView, FrameView, PendingView, RequestView, StepView,
};
use crate::error::FlattenErrorView;
use crate::model::{
    block, closing, expand_spec, flatten_spec, lemma_prepend_nothing, lemma_prepend_twice,
    placeholder, prepend, FileSystem, Outcome,
};
use crate::path::{DirPathView, FilePathView};
use crate::scan::{lemma_scan_bounds, scan, Scan};

verus! {

/// The answer that the file system `fs` gives to `request`.
pub open spec fn answer_of(fs: FileSystem, request: RequestView) -> AnswerView {
    match request {
        RequestView::Probe(path) => AnswerView::Flag(fs.is_file(path)),
        RequestView::Locate(path) => AnswerView::Flag(fs.is_file(path)),
        RequestView::BaseDir(dir) => AnswerView::Flag(fs.is_dir(dir)),
        RequestView::Read(path) => match fs.read(path) {
            Some(text) => AnswerView::Text(text),
            None => AnswerView::Unreadable,
        },
    }
}

/// Where a run of the engine against `fs` stands after at most `steps` answers,
/// when it starts with `step`.
pub open spec fn run(fs: FileSystem, step: StepView, steps: nat) -> StepView
    decreases steps,
{
    if steps == 0 {
        step
    } else {
        match step {
            StepView::Ask { machine, request } => run(
                fs,
                step_spec(machine, answer_of(fs, request)),
                (steps - 1) as nat,
            ),
            other => other,
        }
    }
}

/// What a file that is known to be a regular file expands to, with its units
/// looked for in `base`.
pub open spec fn read_outcome(
    fs: FileSystem,
    keyword: Seq<u8>,
    tolerant: bool,
    path: FilePathView,
    base: DirPathView,
    depth: nat,
) -> Outcome {
    match fs.read(path) {
        None => Outcome::Failure(FlattenErrorView::ReadFailure(path)),
        Some(text) => flatten_spec(fs, keyword, tolerant, base, path, text, 0, depth),
    }
}

/// What the expansion that the engine is waiting for comes to.
pub open spec fn pending_outcome(
    fs: FileSystem,
    keyword: Seq<u8>,
    tolerant: bool,
    pending: PendingView,
    depth: nat,
) -> Outcome {
    match pending {
        PendingView::Resolve { dir, name } => expand_spec(
            fs,
            keyword,
            tolerant,
            fs.resolve(dir, name),
            depth,
        ),
        PendingView::Locate { path } => expand_spec(fs, keyword, tolerant, path, depth),
        PendingView::BaseDir { path } => read_outcome(
            fs,
            keyword,
            tolerant,
            path,
            fs.base_of(path),
            depth,
        ),
        PendingView::Read { path, base } => read_outcome(fs, keyword, tolerant, path, base, depth),
    }
}

/// What a file comes to that has flattened `frame.output` and goes on from
/// `frame.resume`.
pub open spec fn running_outcome(
    fs: FileSystem,
    keyword: Seq<u8>,
    tolerant: bool,
    frame: FrameView,
    depth: nat,
) -> Outcome {
    prepend(
        frame.output,
        flatten_spec(
            fs,
            keyword,
            tolerant,
            frame.base,
            frame.source,
            frame.text,
            frame.resume,
            depth,
        ),
    )
}

/// What the entry file comes to when the unit that the top of `stack` waits for
/// comes to `outcome`, where that unit may have units nested `depth` deep below it.
pub open spec fn unwind(
    fs: FileSystem,
    keyword: Seq<u8>,
    tolerant: bool,
    stack: Seq<FrameView>,
    outcome: Outcome,
    depth: nat,
) -> Outcome
    decreases stack.len(),
{
    if stack.len() == 0 {
        outcome
    } else {
        match outcome {
            Outcome::Text(child) => unwind(
                fs,
                keyword,
                tolerant,
                stack.drop_last(),
                running_outcome(fs, keyword, tolerant, spliced(keyword, stack.last(), child), depth + 1),
                depth + 1,
            ),
            other => other,
        }
    }
}

/// What the model says a run of `machine` against `fs` ends with, where the entry
/// file may have units nested `depth` deep.
pub open spec fn outcome_of(fs: FileSystem, machine: FlattenerView, depth: nat) -> Outcome {
    if depth < machine.stack.len() {
        Outcome::TooDeep
    } else {
        let level = (depth - machine.stack.len()) as nat;
        unwind(
            fs,
            machine.keyword,
            machine.tolerant,
            machine.stack,
            pending_outcome(fs, machine.keyword, machine.tolerant, machine.pending, level),
            level,
        )
    }
}

/// Whether `step` keeps to `outcome`: an engine that goes on still comes to it, and
/// one that has ended has ended with it.
pub open spec fn agrees(fs: FileSystem, step: StepView, outcome: Outcome, depth: nat) -> bool {
    match step {
        StepView::Ask { machine, request } => request == request_of(machine.pending) && outcome_of(
            fs,
            machine,
            depth,
        ) == outcome,
        StepView::Done(text) => outcome == Outcome::Text(text),
        StepView::Failed(error) => outcome == Outcome::Failure(error),
    }
}

/// A failure, or units nested too deeply, in one unit is what the entry file comes
/// to.
proof fn lemma_unwind_no_text(
    fs: FileSystem,
    keyword: Seq<u8>,
    tolerant: bool,
    stack: Seq<FrameView>,
    outcome: Outcome,
    depth: nat,
)
    requires
        !(outcome is Text),
    ensures
        unwind(fs, keyword, tolerant, stack, outcome, depth) == outcome,
{
}

/// A file that is suspended at a declaration and then handed the text of the
/// declared unit comes to what it was coming to before.
proof fn lemma_spliced_outcome(
    fs: FileSystem,
    keyword: Seq<u8>,
    tolerant: bool,
    frame: FrameView,
    depth: nat,
)
    requires
        scan(frame.text, keyword, frame.resume) is Found,
        depth > 0,
        expand_spec(
            fs,
            keyword,
            tolerant,
            fs.resolve(
                frame.base,
                frame.text.subrange(
                    scan(frame.text, keyword, frame.resume)->Found_0.name_start,
                    scan(frame.text, keyword, frame.resume)->Found_0.name_end,
                ),
            ),
            (depth - 1) as nat,
        ) is Text,
    ensures
        ({
            let d = scan(frame.text, keyword, frame.resume)->Found_0;
            let name = frame.text.subrange(d.name_start, d.name_end);
            let child = expand_spec(
                fs,
                keyword,
                tolerant,
                fs.resolve(frame.base, name),
                (depth - 1) as nat,
            )->Text_0;
            running_outcome(
                fs,
                keyword,
                tolerant,
                spliced(keyword, suspended(frame, d), child),
                depth,
            ) == running_outcome(fs, keyword, tolerant, frame, depth)
        }),
{
    let d = scan(frame.text, keyword, frame.resume)->Found_0;
    let name = frame.text.subrange(d.name_start, d.name_end);
    let child = expand_spec(fs, keyword, tolerant, fs.resolve(frame.base, name), (depth - 1) as nat)->Text_0;
    let tail = flatten_spec(
        fs,
        keyword,
        tolerant,
        frame.base,
        frame.source,
        frame.text,
        d.end,
        depth,
    );
    let piece = frame.text.subrange(frame.resume, d.start);
    let put = block(keyword, name, child) + closing(frame.text, d.end);
    assert(piece + block(keyword, name, child) + closing(frame.text, d.end) =~= piece + put);
    assert(flatten_spec(
        fs,
        keyword,
        tolerant,
        frame.base,
        frame.source,
        frame.text,
        frame.resume,
        depth,
    ) == prepend(piece + put, tail));
    lemma_prepend_twice(frame.output, piece + put, tail);
    assert((frame.output + piece) + block(keyword, name, child) + closing(frame.text, d.end)
        =~= frame.output + (piece + put));
}

/// Going on with a file keeps to what the model says the file and the files
/// suspended below it come to.
proof fn lemma_resume_agrees(
    fs: FileSystem,
    keyword: Seq<u8>,
    tolerant: bool,
    stack: Seq<FrameView>,
    frame: FrameView,
    depth: nat,
)
    requires
        depth >= stack.len(),
        !(unwind(
            fs,
            keyword,
            tolerant,
            stack,
            running_outcome(fs, keyword, tolerant, frame, (depth - stack.len()) as nat),
            (depth - stack.len()) as nat,
        ) is TooDeep),
    ensures
        agrees(
            fs,
            resume_spec(keyword, tolerant, stack, frame),
            unwind(
                fs,
                keyword,
                tolerant,
                stack,
                running_outcome(fs, keyword, tolerant, frame, (depth - stack.len()) as nat),
                (depth - stack.len()) as nat,
            ),
            depth,
        ),
    decreases stack.len(), 1nat,
{
    let level = (depth - stack.len()) as nat;
    let rest = flatten_spec(
        fs,
        keyword,
        tolerant,
        frame.base,
        frame.source,
        frame.text,
        frame.resume,
        level,
    );
    let total = running_outcome(fs, keyword, tolerant, frame, level);
    let goal = unwind(fs, keyword, tolerant, stack, total, level);
    match scan(frame.text, keyword, frame.resume) {
        Scan::Malformed(at) => {
            lemma_unwind_no_text(fs, keyword, tolerant, stack, total, level);
        },
        Scan::Exhausted => {
            lemma_deliver_agrees(
                fs,
                keyword,
                tolerant,
                stack,
                frame.output + frame.text.subrange(frame.resume, frame.text.len() as int),
                depth,
            );
        },
        Scan::Found(d) => {
            if level == 0 {
                lemma_unwind_no_text(fs, keyword, tolerant, stack, total, level);
                assert(false);
            }
            let name = frame.text.subrange(d.name_start, d.name_end);
            let below = (level - 1) as nat;
            let child = expand_spec(fs, keyword, tolerant, fs.resolve(frame.base, name), below);
            let next = suspended(frame, d);
            let machine = FlattenerView {
                keyword,
                tolerant,
                stack: stack.push(next),
                pending: PendingView::Resolve { dir: frame.base, name },
            };
            assert(resume_spec(keyword, tolerant, stack, frame) == ask_view(machine));
            assert(machine.stack.drop_last() =~= stack);
            assert(machine.stack.last() == next);
            assert(depth - machine.stack.len() == below);
            match child {
                Outcome::Text(text) => {
                    let tail = flatten_spec(
                        fs,
                        keyword,
                        tolerant,
                        frame.base,
                        frame.source,
                        frame.text,
                        d.end,
                        level,
                    );
                    lemma_spliced_outcome(fs, keyword, tolerant, frame, level);
                    assert(running_outcome(
                        fs,
                        keyword,
                        tolerant,
                        spliced(keyword, next, text),
                        level,
                    ) == total);
                    assert(outcome_of(fs, machine, depth) == goal);
                },
                _ => {
                    assert(rest == child);
                    lemma_unwind_no_text(fs, keyword, tolerant, stack, total, level);
                    assert(outcome_of(fs, machine, depth) == child);
                },
            }
        },
    }
}

/// Handing a unit's expansion to the file that waits for it keeps to what the
/// model says the suspended files come to.
proof fn lemma_deliver_agrees(
    fs: FileSystem,
    keyword: Seq<u8>,
    tolerant: bool,
    stack: Seq<FrameView>,
    child: Seq<u8>,
    depth: nat,
)
    requires
        depth >= stack.len(),
        !(unwind(
            fs,
            keyword,
            tolerant,
            stack,
            Outcome::Text(child),
            (depth - stack.len()) as nat,
        ) is TooDeep),
    ensures
        agrees(
            fs,
            deliver_spec(keyword, tolerant, stack, child),
            unwind(fs, keyword, tolerant, stack, Outcome::Text(child), (depth - stack.len()) as nat),
            depth,
        ),
    decreases stack.len(), 0nat,
{
    if stack.len() > 0 {
        assert(depth - stack.drop_last().len() == depth - stack.len() + 1);
        lemma_resume_agrees(
            fs,
            keyword,
            tolerant,
            stack.drop_last(),
            spliced(keyword, stack.last(), child),
            depth,
        );
    }
}

/// One answer from the file system keeps the engine to what the model says its
/// run ends with.
pub proof fn lemma_step_agrees(fs: FileSystem, machine: FlattenerView, depth: nat)
    requires
        !(outcome_of(fs, machine, depth) is TooDeep),
    ensures
        agrees(
            fs,
            step_spec(machine, answer_of(fs, request_of(machine.pending))),
            outcome_of(fs, machine, depth),
            depth,
        ),
{
    let keyword = machine.keyword;
    let tolerant = machine.tolerant;
    let stack = machine.stack;
    let level = (depth - stack.len()) as nat;
    let waited = pending_outcome(fs, keyword, tolerant, machine.pending, level);
    match machine.pending {
        PendingView::Resolve { dir, name } => {},
        PendingView::Locate { path } => {
            if !fs.is_file(path) {
                if tolerant {
                    lemma_deliver_agrees(fs, keyword, tolerant, stack, placeholder(), depth);
                } else {
                    lemma_unwind_no_text(fs, keyword, tolerant, stack, waited, level);
                }
            }
        },
        PendingView::BaseDir { path } => {},
        PendingView::Read { path, base } => {
            match fs.read(path) {
                Some(text) => {
                    let frame = fresh_frame(path, base, text);
                    lemma_prepend_nothing(
                        flatten_spec(fs, keyword, tolerant, base, path, text, 0, level),
                    );
                    assert(running_outcome(fs, keyword, tolerant, frame, level) == waited);
                    lemma_resume_agrees(fs, keyword, tolerant, stack, frame, depth);
                },
                None => {
                    lemma_unwind_no_text(fs, keyword, tolerant, stack, waited, level);
                },
            }
        },
    }
}

/// A run that keeps to an outcome keeps to it for as long as it goes on.
pub proof fn lemma_run_agrees(
    fs: FileSystem,
    step: StepView,
    outcome: Outcome,
    depth: nat,
    steps: nat,
)
    requires
        agrees(fs, step, outcome, depth),
        !(outcome is TooDeep),
    ensures
        agrees(fs, run(fs, step, steps), outcome, depth),
    decreases steps,
{
    if steps > 0 {
        if let StepView::Ask { machine, request } = step {
            lemma_step_agrees(fs, machine, depth);
            lemma_run_agrees(
                fs,
                step_spec(machine, answer_of(fs, request)),
                outcome,
                depth,
                (steps - 1) as nat,
            );
        }
    }
}

/// A run of the engine that starts with the expansion of `path` ends with what
/// `path` expands to in the file system that answers: if the model gives `path` a
/// text or a failure at some depth, then a run that is done has that text, and a
/// run that has failed has that failure.
pub proof fn theorem_expand_ends_with_expansion(
    fs: FileSystem,
    keyword: Seq<u8>,
    tolerant: bool,
    path: FilePathView,
    depth: nat,
    steps: nat,
)
    requires
        !(expand_spec(fs, keyword, tolerant, path, depth) is TooDeep),
    ensures
        match run(fs, ask_view(expanding(keyword, tolerant, path)), steps) {
            StepView::Done(text) => expand_spec(fs, keyword, tolerant, path, depth)
                == Outcome::Text(text),
            StepView::Failed(error) => expand_spec(fs, keyword, tolerant, path, depth)
                == Outcome::Failure(error),
            StepView::Ask { machine, request } => true,
        },
{
    let outcome = expand_spec(fs, keyword, tolerant, path, depth);
    assert(outcome_of(fs, expanding(keyword, tolerant, path), depth) == outcome);
    lemma_run_agrees(fs, ask_view(expanding(keyword, tolerant, path)), outcome, depth, steps);
}

/// A run of the engine against a file system ends with what the entry file
/// expands to in that file system.
pub proof fn theorem_run_ends_with_expansion(
    fs: FileSystem,
    keyword: Seq<u8>,
    tolerant: bool,
    depth: nat,
    steps: nat,
)
    requires
        !(expand_spec(fs, keyword, tolerant, FilePathView::Entry, depth) is TooDeep),
    ensures
        match run(fs, ask_view(initial(keyword, tolerant)), steps) {
            StepView::Done(text) => expand_spec(fs, keyword, tolerant, FilePathView::Entry, depth)
                == Outcome::Text(text),
            StepView::Failed(error) => expand_spec(
                fs,
                keyword,
                tolerant,
                FilePathView::Entry,
                depth,
            ) == Outcome::Failure(error),
            StepView::Ask { machine, request } => true,
        },
{
    theorem_expand_ends_with_expansion(fs, keyword, tolerant, FilePathView::Entry, depth, steps);
}

/// A run of the engine that starts with the flattening of `text` ends with what
/// the model says `text` flattens to.
pub proof fn theorem_flatten_ends_with_flattening(
    fs: FileSystem,
    keyword: Seq<u8>,
    tolerant: bool,
    base: DirPathView,
    source: FilePathView,
    text: Seq<u8>,
    depth: nat,
    steps: nat,
)
    requires
        !(flatten_spec(fs, keyword, tolerant, base, source, text, 0, depth) is TooDeep),
    ensures
        match run(
            fs,
            resume_spec(keyword, tolerant, Seq::empty(), fresh_frame(source, base, text)),
            steps,
        ) {
            StepView::Done(flat) => flatten_spec(fs, keyword, tolerant, base, source, text, 0, depth)
                == Outcome::Text(flat),
            StepView::Failed(error) => flatten_spec(
                fs,
                keyword,
                tolerant,
                base,
                source,
                text,
                0,
                depth,
            ) == Outcome::Failure(error),
            StepView::Ask { machine, request } => true,
        },
{
    let outcome = flatten_spec(fs, keyword, tolerant, base, source, text, 0, depth);
    let frame = fresh_frame(source, base, text);
    lemma_prepend_nothing(outcome);
    assert(running_outcome(fs, keyword, tolerant, frame, depth) == outcome);
    lemma_resume_agrees(fs, keyword, tolerant, Seq::empty(), frame, depth);
    lemma_run_agrees(
        fs,
        resume_spec(keyword, tolerant, Seq::empty(), frame),
        outcome,
        depth,
        steps,
    );
}

/// The number of answers that the engine needs to expand `path`, where the model
/// gives the expansion a text or a failure at `depth`.
pub open spec fn expand_steps(
    fs: FileSystem,
    keyword: Seq<u8>,
    tolerant: bool,
    path: FilePathView,
    depth: nat,
) -> nat
    decreases depth, 1nat, 0nat,
{
    if !fs.is_file(path) {
        1
    } else {
        match fs.read(path) {
            None => 3,
            Some(text) => 3 + flatten_steps(fs, keyword, tolerant, fs.base_of(path), text, 0, depth),
        }
    }
}

/// The number of answers that the engine needs to flatten the rest of `text` from
/// `from`.
pub open spec fn flatten_steps(
    fs: FileSystem,
    keyword: Seq<u8>,
    tolerant: bool,
    base: DirPathView,
    text: Seq<u8>,
    from: int,
    depth: nat,
) -> nat
    decreases depth, 0nat, text.len() - from,
{
    match scan(text, keyword, from) {
        Scan::Found(d) => {
            if depth == 0 {
                0
            } else {
                proof {
                    if 0 <= from {
                        lemma_scan_bounds(text, keyword, from);
                    }
                }
                let path = fs.resolve(base, text.subrange(d.name_start, d.name_end));
                let below = (depth - 1) as nat;
                1 + expand_steps(fs, keyword, tolerant, path, below) + if expand_spec(
                    fs,
                    keyword,
                    tolerant,
                    path,
                    below,
                ) is Text {
                    flatten_steps(fs, keyword, tolerant, base, text, d.end, depth)
                } else {
                    0
                }
            }
        },
        _ => 0,
    }
}

/// How the engine goes on above `stack` when the expansion that it was waiting for
/// has come to `outcome`.
pub open spec fn settle(
    keyword: Seq<u8>,
    tolerant: bool,
    stack: Seq<FrameView>,
    outcome: Outcome,
) -> StepView {
    match outcome {
        Outcome::Text(child) => deliver_spec(keyword, tolerant, stack, child),
        Outcome::Failure(error) => StepView::Failed(error),
        Outcome::TooDeep => arbitrary(),
    }
}

/// One answer takes a run one step on.
proof fn lemma_run_one(fs: FileSystem, machine: FlattenerView, steps: nat)
    ensures
        run(fs, ask_view(machine), steps + 1) == run(
            fs,
            step_spec(machine, answer_of(fs, request_of(machine.pending))),
            steps,
        ),
{
}

/// A run that has ended stays where it is.
proof fn lemma_run_ended(fs: FileSystem, step: StepView, steps: nat)
    requires
        !(step is Ask),
    ensures
        run(fs, step, steps) == step,
{
}

/// The engine, waiting to be told whether `path` is a regular file, needs
/// `expand_steps` answers to get the expansion of `path` and go on with it.
proof fn lemma_expand_reached(
    fs: FileSystem,
    machine: FlattenerView,
    path: FilePathView,
    depth: nat,
    extra: nat,
)
    requires
        machine.pending == (PendingView::Locate { path }),
        !(expand_spec(fs, machine.keyword, machine.tolerant, path, depth) is TooDeep),
    ensures
        run(
            fs,
            ask_view(machine),
            expand_steps(fs, machine.keyword, machine.tolerant, path, depth) + extra,
        ) == run(
            fs,
            settle(
                machine.keyword,
                machine.tolerant,
                machine.stack,
                expand_spec(fs, machine.keyword, machine.tolerant, path, depth),
            ),
            extra,
        ),
    decreases depth, 1nat, 0nat,
{
    let keyword = machine.keyword;
    let tolerant = machine.tolerant;
    let stack = machine.stack;
    if !fs.is_file(path) {
        lemma_run_one(fs, machine, extra);
    } else {
        let second = FlattenerView { keyword, tolerant, stack, pending: PendingView::BaseDir { path } };
        let base = fs.base_of(path);
        let third = FlattenerView {
            keyword,
            tolerant,
            stack,
            pending: PendingView::Read { path, base },
        };
        match fs.read(path) {
            None => {
                lemma_run_one(fs, machine, 2 + extra);
                lemma_run_one(fs, second, 1 + extra);
                lemma_run_one(fs, third, extra);
            },
            Some(text) => {
                let rest = flatten_steps(fs, keyword, tolerant, base, text, 0, depth);
                let frame = fresh_frame(path, base, text);
                lemma_run_one(fs, machine, 2 + rest + extra);
                lemma_run_one(fs, second, 1 + rest + extra);
                lemma_run_one(fs, third, rest + extra);
                lemma_flatten_reached(fs, keyword, tolerant, stack, frame, depth, extra);
                lemma_prepend_nothing(
                    flatten_spec(fs, keyword, tolerant, base, path, text, 0, depth),
                );
            },
        }
    }
}

/// The engine, going on with a file, needs `flatten_steps` answers to complete the
/// file and hand its text to the file below.
proof fn lemma_flatten_reached(
    fs: FileSystem,
    keyword: Seq<u8>,
    tolerant: bool,
    stack: Seq<FrameView>,
    frame: FrameView,
    depth: nat,
    extra: nat,
)
    requires
        !(flatten_spec(
            fs,
            keyword,
            tolerant,
            frame.base,
            frame.source,
            frame.text,
            frame.resume,
            depth,
        ) is TooDeep),
    ensures
        run(
            fs,
            resume_spec(keyword, tolerant, stack, frame),
            flatten_steps(fs, keyword, tolerant, frame.base, frame.text, frame.resume, depth) + extra,
        ) == run(
            fs,
            settle(keyword, tolerant, stack, running_outcome(fs, keyword, tolerant, frame, depth)),
            extra,
        ),
    decreases depth, 0nat, frame.text.len() - frame.resume,
{
    match scan(frame.text, keyword, frame.resume) {
        Scan::Found(d) => {
            if 0 <= frame.resume {
                lemma_scan_bounds(frame.text, keyword, frame.resume);
            }
            let name = frame.text.subrange(d.name_start, d.name_end);
            let path = fs.resolve(frame.base, name);
            let below = (depth - 1) as nat;
            let child = expand_spec(fs, keyword, tolerant, path, below);
            let next = suspended(frame, d);
            let above = stack.push(next);
            let probing = FlattenerView {
                keyword,
                tolerant,
                stack: above,
                pending: PendingView::Resolve { dir: frame.base, name },
            };
            let locating = FlattenerView {
                keyword,
                tolerant,
                stack: above,
                pending: PendingView::Locate { path },
            };
            let first = expand_steps(fs, keyword, tolerant, path, below);
            assert(above.drop_last() =~= stack);
            assert(above.last() == next);
            match child {
                Outcome::Text(text) => {
                    let after = spliced(keyword, next, text);
                    let second = flatten_steps(
                        fs,
                        keyword,
                        tolerant,
                        frame.base,
                        frame.text,
                        d.end,
                        depth,
                    );
                    let tail = flatten_spec(
                        fs,
                        keyword,
                        tolerant,
                        frame.base,
                        frame.source,
                        frame.text,
                        d.end,
                        depth,
                    );
                    let total = flatten_steps(
                        fs,
                        keyword,
                        tolerant,
                        frame.base,
                        frame.text,
                        frame.resume,
                        depth,
                    );
                    assert(total == 1 + first + second);
                    assert(resume_spec(keyword, tolerant, stack, frame) == ask_view(probing));
                    assert(run(fs, ask_view(probing), total + extra) == run(
                        fs,
                        ask_view(locating),
                        first + second + extra,
                    )) by {
                        lemma_run_one(fs, probing, first + second + extra);
                    }
                    assert(run(fs, ask_view(locating), first + second + extra) == run(
                        fs,
                        resume_spec(keyword, tolerant, stack, after),
                        second + extra,
                    )) by {
                        lemma_expand_reached(fs, locating, path, below, second + extra);
                    }
                    assert(running_outcome(fs, keyword, tolerant, after, depth) == running_outcome(
                        fs,
                        keyword,
                        tolerant,
                        frame,
                        depth,
                    )) by {
                        lemma_spliced_outcome(fs, keyword, tolerant, frame, depth);
                    }
                    lemma_flatten_reached(fs, keyword, tolerant, stack, after, depth, extra);
                },
                _ => {
                    lemma_run_one(fs, probing, first + extra);
                    lemma_expand_reached(fs, locating, path, below, extra);
                },
            }
        },
        _ => {},
    }
}

/// What a run ends with that the model gives the outcome `outcome`.
pub open spec fn ended(outcome: Outcome) -> StepView {
    match outcome {
        Outcome::Text(text) => StepView::Done(text),
        Outcome::Failure(error) => StepView::Failed(error),
        Outcome::TooDeep => arbitrary(),
    }
}

/// A run of the engine that starts with the expansion of `path` comes to an end:
/// where the model gives `path` a text or a failure at some depth, the run is done
/// with that text, or has failed with that failure, after `expand_steps` answers,
/// and stays so.
pub proof fn theorem_expand_reaches_expansion(
    fs: FileSystem,
    keyword: Seq<u8>,
    tolerant: bool,
    path: FilePathView,
    depth: nat,
    extra: nat,
)
    requires
        !(expand_spec(fs, keyword, tolerant, path, depth) is TooDeep),
    ensures
        run(
            fs,
            ask_view(expanding(keyword, tolerant, path)),
            expand_steps(fs, keyword, tolerant, path, depth) + extra,
        ) == ended(expand_spec(fs, keyword, tolerant, path, depth)),
{
    let outcome = expand_spec(fs, keyword, tolerant, path, depth);
    lemma_expand_reached(fs, expanding(keyword, tolerant, path), path, depth, extra);
    lemma_run_ended(fs, settle(keyword, tolerant, Seq::empty(), outcome), extra);
}

/// A run of the engine against a file system comes to an end with what the entry
/// file expands to.
pub proof fn theorem_run_reaches_expansion(
    fs: FileSystem,
    keyword: Seq<u8>,
    tolerant: bool,
    depth: nat,
    extra: nat,
)
    requires
        !(expand_spec(fs, keyword, tolerant, FilePathView::Entry, depth) is TooDeep),
    ensures
        run(
            fs,
            ask_view(initial(keyword, tolerant)),
            expand_steps(fs, keyword, tolerant, FilePathView::Entry, depth) + extra,
        ) == ended(expand_spec(fs, keyword, tolerant, FilePathView::Entry, depth)),
{
    theorem_expand_reaches_expansion(fs, keyword, tolerant, FilePathView::Entry, depth, extra);
}

/// A run of the engine that starts with the flattening of `text` comes to an end
/// with what the model says `text` flattens to, after `flatten_steps` answers.
pub proof fn theorem_flatten_reaches_flattening(
    fs: FileSystem,
    keyword: Seq<u8>,
    tolerant: bool,
    base: DirPathView,
    source: FilePathView,
    text: Seq<u8>,
    depth: nat,
    extra: nat,
)
    requires
        !(flatten_spec(fs, keyword, tolerant, base, source, text, 0, depth) is TooDeep),
    ensures
        run(
            fs,
            resume_spec(keyword, tolerant, Seq::empty(), fresh_frame(source, base, text)),
            flatten_steps(fs, keyword, tolerant, base, text, 0, depth) + extra,
        ) == ended(flatten_spec(fs, keyword, tolerant, base, source, text, 0, depth)),
{
    let outcome = flatten_spec(fs, keyword, tolerant, base, source, text, 0, depth);
    let frame = fresh_frame(source, base, text);
    lemma_prepend_nothing(outcome);
    lemma_flatten_reached(fs, keyword, tolerant, Seq::empty(), frame, depth, extra);
    lemma_run_ended(fs, settle(keyword, tolerant, Seq::empty(), outcome), extra);
}

} // verus!
