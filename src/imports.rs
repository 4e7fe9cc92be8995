use vstd::prelude::*;
use vstd::string::StringExecFns;

use crate::ast::{Program, Stmt};
use crate::text::{ends_with, TextList};

verus! {

broadcast use vstd::string::group_string_axioms;

/// The file name that an import path names: the path itself when it ends
/// in `.wheel`, else the path with `.wheel` added.
pub open spec fn import_file(path: Seq<char>) -> Seq<char> {
    if ".wheel"@.len() <= path.len() && path.subrange(path.len() - ".wheel"@.len(), path.len() as int)
        == ".wheel"@ {
        path
    } else {
        path + ".wheel"@
    }
}

/// The file name that an import path names.
pub fn import_file_name(path: &String) -> (r: String)
    ensures
        r@ == import_file(path@),
{
    if ends_with(path, ".wheel") {
        path.clone()
    } else {
        path.clone().concat(".wheel")
    }
}

/// The deepest nesting of imported files that is followed; an import met
/// deeper than this is dropped.
pub const MAX_IMPORT_DEPTH: usize = 64;

/// What the resolver needs next.
pub enum ImportAction {
    /// Read the file `file` in the directory `base`; hand the resolver its
    /// parsed program and its directory, or nothing when it does not exist.
    Load { base: String, file: String },
    /// Every import is resolved; take the program with `finish`.
    Done,
}

/// One program whose imports are being resolved.
pub struct ImportFrame {
    /// The directory of its file.
    pub base: String,
    /// The statements not looked at yet, the next one last.
    pub pending: Vec<Stmt>,
    /// The statements of the files it imports, in order.
    pub imported: Vec<Stmt>,
    /// Its own statements other than imports, in order.
    pub own: Vec<Stmt>,
}

/// The mathematical value of a frame.
pub struct FrameV {
    pub base: Seq<char>,
    pub pending: Seq<Stmt>,
    pub imported: Seq<Stmt>,
    pub own: Seq<Stmt>,
}

impl View for ImportFrame {
    type V = FrameV;

    open spec fn view(&self) -> FrameV {
        FrameV {
            base: self.base@,
            pending: self.pending@,
            imported: self.imported@,
            own: self.own@,
        }
    }
}

/// The mathematical value of a resolver: the stack of frames, innermost
/// last; the import paths processed so far; the flattened statements once
/// the outermost frame is finished.
pub struct ResolverV {
    pub frames: Seq<FrameV>,
    pub processed: Seq<Seq<char>>,
    pub result: Seq<Stmt>,
}

/// The outcome of looking at the resolver's state once.
pub enum Event {
    /// More statements can be looked at without reading a file.
    Continue(ResolverV),
    /// The file `file` in the directory `base` must be read.
    Load(ResolverV, Seq<char>, Seq<char>),
    /// Every import is resolved.
    Done(ResolverV),
}

/// The number of statements left to look at in `frames`, plus one for
/// each frame.
pub open spec fn work(frames: Seq<FrameV>) -> nat
    decreases frames.len(),
{
    if frames.len() == 0 {
        0
    } else {
        work(frames.drop_last()) + frames.last().pending.len() + 1
    }
}

/// One step of resolution. When the innermost frame has statements left,
/// its next one is looked at: a statement that is no import joins the
/// frame's own statements; an import already processed, or met at the
/// depth bound, is dropped; any other import is marked processed and its
/// file must be loaded. When the innermost frame has none left, its
/// imported statements followed by its own go onto its parent's imported
/// statements, or, for the outermost frame, become the result.
pub open spec fn step_once(r: ResolverV) -> Event {
    if r.frames.len() == 0 {
        Event::Done(r)
    } else {
        let top = r.frames.last();
        let rest = r.frames.drop_last();
        if top.pending.len() == 0 {
            let done = top.imported + top.own;
            if rest.len() == 0 {
                Event::Done(ResolverV { frames: Seq::empty(), processed: r.processed, result: done })
            } else {
                let parent = rest.last();
                Event::Continue(
                    ResolverV {
                        frames: rest.drop_last().push(
                            FrameV { imported: parent.imported + done, ..parent },
                        ),
                        ..r
                    },
                )
            }
        } else {
            let st = top.pending.last();
            let top1 = FrameV { pending: top.pending.drop_last(), ..top };
            match st {
                Stmt::Import { path } => if r.processed.contains(path@) || r.frames.len()
                    >= MAX_IMPORT_DEPTH {
                    Event::Continue(ResolverV { frames: rest.push(top1), ..r })
                } else {
                    Event::Load(
                        ResolverV {
                            frames: rest.push(top1),
                            processed: r.processed.push(path@),
                            result: r.result,
                        },
                        top.base,
                        import_file(path@),
                    )
                },
                _ => Event::Continue(
                    ResolverV { frames: rest.push(FrameV { own: top1.own.push(st), ..top1 }), ..r },
                ),
            }
        }
    }
}

/// Steps of resolution until a file must be loaded or every import is
/// resolved.
pub open spec fn run(r: ResolverV) -> Event
    decreases work(r.frames),
{
    match step_once(r) {
        Event::Continue(r2) => if work(r2.frames) < work(r.frames) {
            run(r2)
        } else {
            Event::Continue(r2)
        },
        e => e,
    }
}

/// A path that is already processed is never loaded again: its import
/// statement is dropped and the processed paths stay as they were.
pub proof fn lemma_processed_path_not_loaded(r: ResolverV)
    requires
        r.frames.len() > 0,
        r.frames.last().pending.len() > 0,
        r.frames.last().pending.last() matches Stmt::Import { path } && r.processed.contains(path@),
    ensures
        step_once(r) matches Event::Continue(r2) && r2.processed == r.processed
            && r2.frames.last().own == r.frames.last().own,
{
}

/// When an imported file's frame is finished, its imported statements and
/// then its own go after what its importer had imported before, and ahead
/// of everything the importer reads later.
pub proof fn lemma_finished_frame_joins_parent(r: ResolverV)
    requires
        r.frames.len() > 1,
        r.frames.last().pending.len() == 0,
    ensures
        step_once(r) matches Event::Continue(r2) && r2.frames.len() == r.frames.len() - 1
            && r2.frames.last().imported == r.frames[r.frames.len() - 2].imported
            + r.frames.last().imported + r.frames.last().own
            && r2.frames.last().own == r.frames[r.frames.len() - 2].own,
{
}

/// Flattens imports: each imported program's statements, its own imports
/// resolved first, go ahead of the importer's own statements, and import
/// statements are dropped. A path already processed is not loaded again.
pub struct ImportResolver {
    frames: Vec<ImportFrame>,
    processed: TextList,
    result: Vec<Stmt>,
}

impl View for ImportResolver {
    type V = ResolverV;

    closed spec fn view(&self) -> ResolverV {
        ResolverV {
            frames: self.frames@.map_values(|f: ImportFrame| f@),
            processed: self.processed@,
            result: self.result@,
        }
    }
}

fn reversed(items: Vec<Stmt>) -> (r: Vec<Stmt>)
    ensures
        r@ == items@.reverse(),
{
    let mut items = items;
    let mut r: Vec<Stmt> = Vec::new();
    let ghost orig = items@;
    while items.len() > 0
        invariant
            orig.reverse() == r@ + items@.reverse(),
        decreases items@.len(),
    {
        let ghost before = items@;
        let st = items.pop().unwrap();
        proof {
            assert(before.reverse() =~= seq![st] + items@.reverse());
        }
        r.push(st);
        proof {
            assert(orig.reverse() =~= r@ + items@.reverse());
        }
    }
    proof {
        assert(items@.reverse() =~= Seq::<Stmt>::empty());
        assert(r@ + items@.reverse() =~= r@);
    }
    r
}

impl ImportResolver {
    /// A resolver for `prog`, whose file lies in `base_dir`; `processed`
    /// holds the import paths to treat as done already.
    pub fn new(prog: Program, base_dir: String, processed: TextList) -> (r: ImportResolver)
        ensures
            r@ == (ResolverV {
                frames: seq![
                    FrameV {
                        base: base_dir@,
                        pending: prog.items@.reverse(),
                        imported: Seq::empty(),
                        own: Seq::empty(),
                    },
                ],
                processed: processed@,
                result: Seq::empty(),
            }),
    {
        let frame = ImportFrame {
            base: base_dir,
            pending: reversed(prog.items),
            imported: Vec::new(),
            own: Vec::new(),
        };
        let r = ImportResolver { frames: vec![frame], processed, result: Vec::new() };
        proof {
            assert(r@.frames =~= seq![frame@]);
        }
        r
    }

    /// Whether every import is resolved.
    pub open spec fn finished(&self) -> bool {
        self@.frames.len() == 0
    }

    /// Looks at statements, as `run` says, until a file must be read or
    /// every import is resolved.
    pub fn step(&mut self) -> (a: ImportAction)
        ensures
            match run(old(self)@) {
                Event::Load(r2, base, file) => a matches ImportAction::Load { base: b, file: f }
                    && b@ == base && f@ == file && final(self)@ == r2,
                Event::Done(r2) => a is Done && final(self)@ == r2,
                Event::Continue(_) => false,
            },
    {
        loop
            invariant
                run(self@) == run(old(self)@),
            decreases work(self@.frames),
        {
            let ghost cur = self@;
            if self.frames.len() == 0 {
                return ImportAction::Done;
            }
            let mut top = self.frames.pop().unwrap();
            proof {
                assert(self.frames@.map_values(|f: ImportFrame| f@) =~= cur.frames.drop_last());
                assert(top@ == cur.frames.last());
            }
            match top.pending.pop() {
                None => {
                    let mut done = top.imported;
                    let mut own = top.own;
                    done.append(&mut own);
                    match self.frames.pop() {
                        None => {
                            self.result = done;
                            proof {
                                assert(self@.frames =~= Seq::<FrameV>::empty());
                            }
                            return ImportAction::Done;
                        },
                        Some(mut parent) => {
                            let ghost mid = self.frames@;
                            parent.imported.append(&mut done);
                            self.frames.push(parent);
                            proof {
                                assert(mid.map_values(|f: ImportFrame| f@) =~= cur.frames.drop_last().drop_last());
                                assert(self@.frames =~= mid.map_values(|f: ImportFrame| f@).push(parent@));
                                lemma_run_continue(cur, self@);
                            }
                        },
                    }
                },
                Some(st) => {
                    let ghost f0 = self.frames@;
                    if let Stmt::Import { path } = &st {
                        if self.processed.contains(path) || self.frames.len() + 1 >= MAX_IMPORT_DEPTH {
                            self.frames.push(top);
                            proof {
                                assert(self@.frames =~= f0.map_values(|f: ImportFrame| f@).push(top@));
                                lemma_run_continue(cur, self@);
                            }
                        } else {
                            self.processed.push(path);
                            let base = top.base.clone();
                            let file = import_file_name(path);
                            self.frames.push(top);
                            proof {
                                assert(self@.frames =~= f0.map_values(|f: ImportFrame| f@).push(top@));
                            }
                            return ImportAction::Load { base, file };
                        }
                    } else {
                        top.own.push(st);
                        self.frames.push(top);
                        proof {
                            assert(self@.frames =~= f0.map_values(|f: ImportFrame| f@).push(top@));
                            lemma_run_continue(cur, self@);
                        }
                    }
                },
            }
        }
    }

    /// Hands over the file that the last `Load` asked for: its parsed
    /// program and its directory, or `None` when it does not exist. A
    /// program becomes the innermost frame, so that its statements, its own
    /// imports resolved first, go ahead of the statements that follow the
    /// import.
    pub fn supply(&mut self, file: Option<(Program, String)>)
        ensures
            match file {
                Some((prog, dir)) => final(self)@ == (ResolverV {
                    frames: old(self)@.frames.push(
                        FrameV {
                            base: dir@,
                            pending: prog.items@.reverse(),
                            imported: Seq::empty(),
                            own: Seq::empty(),
                        },
                    ),
                    ..old(self)@
                }),
                None => final(self)@ == old(self)@,
            },
    {
        if let Some((prog, dir)) = file {
            let frame = ImportFrame {
                base: dir,
                pending: reversed(prog.items),
                imported: Vec::new(),
                own: Vec::new(),
            };
            let ghost f0 = self.frames@;
            self.frames.push(frame);
            proof {
                assert(self@.frames =~= f0.map_values(|f: ImportFrame| f@).push(frame@));
            }
        }
    }

    /// The import paths processed so far, in order.
    pub fn processed_paths(&self) -> (r: &TextList)
        ensures
            r@ == self@.processed,
    {
        &self.processed
    }

    /// The flattened program, once every import is resolved.
    pub fn finish(self) -> (r: Program)
        requires
            self.finished(),
        ensures
            r.items@ == self@.result,
    {
        Program { items: self.result }
    }
}

/// A step that continues leaves what `run` reaches unchanged.
proof fn lemma_run_continue(r: ResolverV, r2: ResolverV)
    requires
        step_once(r) == Event::Continue(r2),
    ensures
        work(r2.frames) < work(r.frames),
        run(r) == run(r2),
{
    lemma_work_step(r, r2);
}

proof fn lemma_work_step(r: ResolverV, r2: ResolverV)
    requires
        step_once(r) == Event::Continue(r2),
    ensures
        work(r2.frames) < work(r.frames),
{
    let top = r.frames.last();
    let rest = r.frames.drop_last();
    if top.pending.len() == 0 {
        assert(r2.frames.drop_last() =~= rest.drop_last());
        assert(r2.frames.last().pending == rest.last().pending);
        assert(work(rest) == work(rest.drop_last()) + rest.last().pending.len() + 1);
    } else {
        assert(r2.frames.drop_last() =~= rest);
        assert(r2.frames.last().pending.len() == top.pending.len() - 1);
    }
}

} // verus!
