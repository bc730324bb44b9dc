use vstd::prelude::*;
use crate::split::{pieces, flushed_pieces, newly_closed, views, Splitter};
use crate::order::{sorted, sort_names};
use crate::text::{append_bytes, opt_bytes};
use crate::archive::SLASH;
use crate::protocol::{NEWLINE, LineModel, Line, classify, classify_all, classify_line, progress_events, last_temp_dir};

verus! {

/// The progress events of two runs of lines, one after the other.
pub proof fn lemma_progress_concat(a: Seq<LineModel>, b: Seq<LineModel>)
    ensures
        progress_events(a + b) == progress_events(a) + progress_events(b),
    decreases b.len(),
{
    if b.len() == 0 {
        assert(a + b =~= a);
        assert(progress_events(a) + progress_events(b) =~= progress_events(a));
    } else {
        assert((a + b).drop_last() =~= a + b.drop_last());
        lemma_progress_concat(a, b.drop_last());
        match b.last() {
            LineModel::Progress(p) => {
                assert(progress_events(a) + progress_events(b.drop_last()).push(p) =~= (
                progress_events(a) + progress_events(b.drop_last())).push(p));
            },
            _ => {},
        }
    }
}

/// Adds one line to what a run has seen: its progress event, or its
/// announced directory.
fn absorb(
    line: &[u8],
    temp_dir: &mut Option<Vec<u8>>,
    events: &mut Vec<u32>,
    Ghost(ms): Ghost<Seq<LineModel>>,
    Ghost(base): Ghost<Seq<u32>>,
)
    requires
        opt_bytes(*old(temp_dir)) == last_temp_dir(ms),
        progress_events(ms) == base + old(events)@,
    ensures
        opt_bytes(*final(temp_dir)) == last_temp_dir(ms.push(classify(line@))),
        progress_events(ms.push(classify(line@))) == base + final(events)@,
{
    let c = classify_line(line);
    let ghost next = ms.push(classify(line@));
    assert(next.drop_last() =~= ms);
    match c {
        Line::Progress(p) => {
            events.push(p);
            assert(base + events@ =~= (base + old(events)@).push(p));
        },
        Line::TempDir(d) => {
            *temp_dir = Some(d);
        },
        _ => {},
    }
}

/// The standard-output side of a run: splits the stream into lines, hands
/// out progress events as they come, and keeps the last announced directory.
pub struct StdoutProtocol {
    lines: Splitter,
    temp_dir: Option<Vec<u8>>,
}

impl StdoutProtocol {
    /// The bytes of standard output seen so far.
    pub closed spec fn consumed(&self) -> Seq<u8> {
        self.lines.consumed()
    }

    pub closed spec fn wf(&self) -> bool {
        &&& self.lines.wf()
        &&& self.lines.separator() == NEWLINE
        &&& opt_bytes(self.temp_dir) == last_temp_dir(
            classify_all(pieces(self.lines.consumed(), NEWLINE)),
        )
    }

    pub fn new() -> (r: StdoutProtocol)
        ensures
            r.wf(),
            r.consumed() == Seq::<u8>::empty(),
    {
        let r = StdoutProtocol { lines: Splitter::new(NEWLINE), temp_dir: None };
        assert(classify_all(pieces(Seq::<u8>::empty(), NEWLINE)) =~= Seq::<LineModel>::empty());
        r
    }

    /// Takes the next chunk of standard output and returns the progress
    /// percentages of the lines that it completes, in order.
    pub fn push(&mut self, chunk: &[u8]) -> (events: Vec<u32>)
        requires
            old(self).wf(),
        ensures
            final(self).wf(),
            final(self).consumed() == old(self).consumed() + chunk@,
            events@ == progress_events(
                classify_all(newly_closed(old(self).consumed(), chunk@, NEWLINE)),
            ),
            progress_events(classify_all(pieces(final(self).consumed(), NEWLINE)))
                == progress_events(classify_all(pieces(old(self).consumed(), NEWLINE))) + events@,
    {
        let ghost old_ms = classify_all(pieces(self.lines.consumed(), NEWLINE));
        let closed = self.lines.push(chunk);
        let ghost after = self.lines.consumed();
        assert(after == old(self).lines.consumed() + chunk@);
        let mut events: Vec<u32> = Vec::new();
        let mut k: usize = 0;
        let ghost new_ms = classify_all(views(closed@));
        assert(classify_all(views(closed@).subrange(0, 0)) =~= Seq::<LineModel>::empty());
        assert(old_ms + Seq::<LineModel>::empty() =~= old_ms);
        while k < closed.len()
            invariant
                self.lines.wf(),
                self.lines.separator() == NEWLINE,
                self.lines.consumed() == after,
                k <= closed@.len(),
                new_ms == classify_all(views(closed@)),
                opt_bytes(self.temp_dir) == last_temp_dir(
                    old_ms + classify_all(views(closed@).subrange(0, k as int)),
                ),
                progress_events(old_ms + classify_all(views(closed@).subrange(0, k as int)))
                    == progress_events(old_ms) + events@,
            decreases closed@.len() - k,
        {
            let ghost prefix = classify_all(views(closed@).subrange(0, k as int));
            let ghost line_v = closed@[k as int]@;
            assert(classify_all(views(closed@).subrange(0, k as int + 1)) =~= prefix.push(
                classify(line_v),
            ));
            assert(old_ms + prefix.push(classify(line_v)) =~= (old_ms + prefix).push(
                classify(line_v),
            ));
            absorb(
                closed[k].as_slice(),
                &mut self.temp_dir,
                &mut events,
                Ghost(old_ms + prefix),
                Ghost(progress_events(old_ms)),
            );
            k = k + 1;
        }
        proof {
            assert(views(closed@).subrange(0, closed@.len() as int) =~= views(closed@));
            let now = pieces(self.lines.consumed(), NEWLINE);
            assert(classify_all(now) =~= old_ms + new_ms);
            lemma_progress_concat(old_ms, new_ms);
            assert(events@ =~= (progress_events(old_ms) + events@).skip(
                progress_events(old_ms).len() as int,
            ));
            assert(progress_events(old_ms) + progress_events(new_ms) == progress_events(old_ms)
                + events@);
            assert(progress_events(new_ms) =~= (progress_events(old_ms) + progress_events(
                new_ms,
            )).skip(progress_events(old_ms).len() as int));
        }
        events
    }

    /// Ends standard output: flushes the unfinished last line and returns its
    /// progress event, if it has one, and the directory announced last.
    pub fn finish(self) -> (r: (Vec<u32>, Option<Vec<u8>>))
        requires
            self.wf(),
        ensures
            progress_events(classify_all(flushed_pieces(self.consumed(), NEWLINE)))
                == progress_events(classify_all(pieces(self.consumed(), NEWLINE))) + r.0@,
            opt_bytes(r.1) == last_temp_dir(
                classify_all(flushed_pieces(self.consumed(), NEWLINE)),
            ),
    {
        let ghost c = self.lines.consumed();
        let ghost ms = classify_all(pieces(c, NEWLINE));
        let StdoutProtocol { lines, temp_dir } = self;
        let mut temp_dir = temp_dir;
        let mut events: Vec<u32> = Vec::new();
        match lines.finish() {
            Some(last) => {
                assert(progress_events(ms) =~= progress_events(ms) + events@);
                absorb(
                    last.as_slice(),
                    &mut temp_dir,
                    &mut events,
                    Ghost(ms),
                    Ghost(progress_events(ms)),
                );
                assert(classify_all(flushed_pieces(c, NEWLINE)) =~= ms.push(classify(last@)));
            },
            None => {
                assert(classify_all(flushed_pieces(c, NEWLINE)) =~= ms);
                assert(progress_events(ms) =~= progress_events(ms) + events@);
            },
        }
        (events, temp_dir)
    }
}

/// Why a run failed.
#[derive(Debug, PartialEq, Eq)]
pub enum RunError {
    /// The worker exited unsuccessfully; what it wrote to standard error.
    WorkerFailed(Vec<u8>),
    /// The worker exited successfully but never announced its directory.
    NoResult,
    /// The announced directory could not be listed; the cause.
    ListingFailed(Vec<u8>),
}

/// The single result of a run.
#[derive(Debug, PartialEq, Eq)]
pub struct ConversionOutcome {
    pub success: bool,
    pub temp_dir: Option<Vec<u8>>,
    pub frame_paths: Option<Vec<Vec<u8>>>,
    pub error: Option<RunError>,
}

impl ConversionOutcome {
    /// A success carries the directory and the frames and no error; a
    /// failure carries an error and nothing else.
    pub open spec fn wf(&self) -> bool {
        if self.success {
            self.temp_dir is Some && self.frame_paths is Some && self.error is None
        } else {
            self.temp_dir is None && self.frame_paths is None && self.error is Some
        }
    }
}

/// A failed run carries its error and no result.
pub open spec fn is_failure(o: ConversionOutcome, e: RunError) -> bool {
    &&& !o.success
    &&& o.temp_dir is None
    &&& o.frame_paths is None
    &&& o.error == Some(e)
}

pub fn failure(e: RunError) -> (o: ConversionOutcome)
    ensures
        is_failure(o, e),
        o.wf(),
{
    ConversionOutcome { success: false, temp_dir: None, frame_paths: None, error: Some(e) }
}

/// What a run does once the worker has exited and both streams are drained.
#[derive(Debug, PartialEq, Eq)]
pub enum AfterExit {
    /// The run is over with this outcome.
    Finished(ConversionOutcome),
    /// The run lists this directory to collect the frames.
    ListFrames(Vec<u8>),
}

/// Decides a run from the worker's exit status, the directory it announced
/// last and what it wrote to standard error. An unsuccessful exit is a failure
/// whatever was announced.
pub fn after_exit(exited_ok: bool, temp_dir: Option<Vec<u8>>, diagnostics: Vec<u8>) -> (r:
    AfterExit)
    ensures
        !exited_ok ==> (r matches AfterExit::Finished(o) && is_failure(
            o,
            RunError::WorkerFailed(diagnostics),
        )),
        exited_ok && temp_dir is None ==> (r matches AfterExit::Finished(o) && is_failure(
            o,
            RunError::NoResult,
        )),
        exited_ok && temp_dir is Some ==> r == AfterExit::ListFrames(temp_dir->Some_0),
        r matches AfterExit::Finished(o) ==> o.wf() && !o.success,
{
    if !exited_ok {
        AfterExit::Finished(failure(RunError::WorkerFailed(diagnostics)))
    } else {
        match temp_dir {
            None => AfterExit::Finished(failure(RunError::NoResult)),
            Some(d) => AfterExit::ListFrames(d),
        }
    }
}

/// One entry of a listed directory.
#[derive(Debug, PartialEq, Eq)]
pub struct ListedEntry {
    pub name: Vec<u8>,
    pub is_file: bool,
}

/// The names of the entries that are files, in listing order.
pub open spec fn file_names(es: Seq<ListedEntry>) -> Seq<Seq<u8>>
    decreases es.len(),
{
    if es.len() == 0 {
        seq![]
    } else if es.last().is_file {
        file_names(es.drop_last()).push(es.last().name@)
    } else {
        file_names(es.drop_last())
    }
}

/// The path of the entry `name` of directory `dir`.
pub open spec fn join_path(dir: Seq<u8>, name: Seq<u8>) -> Seq<u8> {
    if dir.len() == 0 {
        name
    } else if dir.last() == SLASH {
        dir + name
    } else {
        dir.push(SLASH) + name
    }
}

/// The paths of `names` in directory `dir`.
pub open spec fn paths_in(dir: Seq<u8>, names: Seq<Seq<u8>>) -> Seq<Seq<u8>> {
    names.map_values(|n: Seq<u8>| join_path(dir, n))
}

fn join(dir: &[u8], name: &[u8]) -> (r: Vec<u8>)
    ensures
        r@ == join_path(dir@, name@),
{
    let mut r: Vec<u8> = Vec::new();
    append_bytes(&mut r, dir);
    if dir.len() > 0 && dir[dir.len() - 1] != SLASH {
        r.push(SLASH);
    }
    append_bytes(&mut r, name);
    assert(Seq::<u8>::empty() + dir@ =~= dir@);
    r
}

/// The successful outcome of a run whose directory `dir` lists `entries`:
/// the files among them, sorted by name byte-wise ascending, as paths in `dir`.
pub fn frames_found(dir: Vec<u8>, entries: Vec<ListedEntry>) -> (o: ConversionOutcome)
    ensures
        o.wf(),
        o.success,
        o.error is None,
        o.temp_dir == Some(dir),
        o.frame_paths is Some,
        exists|names: Seq<Seq<u8>>|
            {
                &&& sorted(names)
                &&& names.to_multiset() == file_names(entries@).to_multiset()
                &&& views(o.frame_paths->Some_0@) == paths_in(dir@, names)
            },
{
    let mut files: Vec<Vec<u8>> = Vec::new();
    let ghost all = entries@;
    let mut k: usize = 0;
    while k < entries.len()
        invariant
            k <= entries@.len(),
            entries@ == all,
            views(files@) == file_names(all.subrange(0, k as int)),
        decreases entries@.len() - k,
    {
        assert(all.subrange(0, k as int + 1).drop_last() =~= all.subrange(0, k as int));
        if entries[k].is_file {
            let mut name: Vec<u8> = Vec::new();
            append_bytes(&mut name, entries[k].name.as_slice());
            let ghost before = views(files@);
            files.push(name);
            assert(views(files@) =~= before.push(all[k as int].name@));
        }
        k = k + 1;
    }
    assert(all.subrange(0, all.len() as int) =~= all);
    let names = sort_names(files);
    let mut paths: Vec<Vec<u8>> = Vec::new();
    let mut i: usize = 0;
    while i < names.len()
        invariant
            i <= names@.len(),
            views(paths@) == paths_in(dir@, views(names@).subrange(0, i as int)),
        decreases names@.len() - i,
    {
        let p = join(dir.as_slice(), names[i].as_slice());
        let ghost before = views(paths@);
        let ghost pv = p@;
        paths.push(p);
        let ghost sub = views(names@).subrange(0, i as int);
        assert(views(names@).subrange(0, i as int + 1) =~= sub.push(names@[i as int]@));
        assert(paths_in(dir@, sub.push(names@[i as int]@)) =~= paths_in(dir@, sub).push(pv));
        assert(views(paths@) =~= before.push(pv));
        i = i + 1;
    }
    assert(views(names@).subrange(0, names@.len() as int) =~= views(names@));
    ConversionOutcome { success: true, temp_dir: Some(dir), frame_paths: Some(paths), error: None }
}

/// `-f`
pub open spec fn fps_flag() -> Seq<u8> {
    seq![45u8, 102]
}

/// `-o`
pub open spec fn name_flag() -> Seq<u8> {
    seq![45u8, 111]
}

/// `--no-zip`
pub open spec fn no_zip_flag() -> Seq<u8> {
    seq![45u8, 45, 110, 111, 45, 122, 105, 112]
}

/// `--output-dir`
pub open spec fn output_dir_flag() -> Seq<u8> {
    seq![45u8, 45, 111, 117, 116, 112, 117, 116, 45, 100, 105, 114]
}

/// The worker's arguments for a conversion:
/// `<input> -f <fps> -o <name> --no-zip --output-dir <dir>`.
pub open spec fn conversion_args(input: Seq<u8>, fps: Seq<u8>, name: Seq<u8>, dir: Seq<u8>) -> Seq<
    Seq<u8>,
> {
    seq![input, fps_flag(), fps, name_flag(), name, no_zip_flag(), output_dir_flag(), dir]
}

/// The worker's arguments for a conversion request, with the frame rate as
/// text: the request's fields, the worker's own archiving turned off, and its
/// output sent to `dir`.
pub fn worker_arguments(input: Vec<u8>, fps: Vec<u8>, name: Vec<u8>, dir: Vec<u8>) -> (r: Vec<
    Vec<u8>,
>)
    ensures
        views(r@) == conversion_args(input@, fps@, name@, dir@),
{
    let ghost iv = input@;
    let ghost fv = fps@;
    let ghost nv = name@;
    let ghost dv = dir@;
    let f: Vec<u8> = vec![45u8, 102];
    let o: Vec<u8> = vec![45u8, 111];
    let z: Vec<u8> = vec![45u8, 45, 110, 111, 45, 122, 105, 112];
    let d: Vec<u8> = vec![45u8, 45, 111, 117, 116, 112, 117, 116, 45, 100, 105, 114];
    assert(f@ =~= fps_flag());
    assert(o@ =~= name_flag());
    assert(z@ =~= no_zip_flag());
    assert(d@ =~= output_dir_flag());
    let r: Vec<Vec<u8>> = vec![input, f, fps, o, name, z, d, dir];
    assert(views(r@) =~= conversion_args(iv, fv, nv, dv));
    r
}

} // verus!
