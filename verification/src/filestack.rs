//! The inclusion stack: nested source files as an explicit stack of frames,
//! each a resolved path plus its remaining numbered lines, consumed
//! back-to-front. Lines of an included file are fully drained before the
//! including file's remaining lines resume.

use vstd::prelude::*;

use crate::text::str_eq;

verus! {

/// One frame: the file's name and its remaining lines, last line first to
/// pop, i.e. the next line to read is the sequence's last element.
#[verifier::ext_equal]
pub ghost struct FrameV {
    pub name: Seq<char>,
    pub lines: Seq<(usize, Seq<char>)>,
}

/// The stack of source frames; the entry file at the bottom.
pub struct FileStack {
    filenames: Vec<String>,
    lines: Vec<Vec<(usize, String)>>,
}

/// The abstract form of one frame's remaining lines.
pub open spec fn lines_view(ls: Seq<(usize, String)>) -> Seq<(usize, Seq<char>)> {
    ls.map_values(|p: (usize, String)| (p.0, p.1@))
}

/// What popping yields on an abstract stack: the top frame's last remaining
/// line together with the stack after it, exhausted frames above discarded;
/// nothing once every frame is drained.
pub open spec fn pop_spec(fs: Seq<FrameV>) -> Option<((Seq<char>, (usize, Seq<char>)), Seq<FrameV>)>
    decreases fs.len(),
{
    if fs.len() == 0 {
        None
    } else {
        let top = fs.last();
        if top.lines.len() > 0 {
            Some(
                (
                    (top.name, top.lines.last()),
                    fs.drop_last().push(FrameV { name: top.name, lines: top.lines.drop_last() }),
                ),
            )
        } else {
            pop_spec(fs.drop_last())
        }
    }
}

/// How many lines remain on the whole stack.
pub open spec fn total_lines(fs: Seq<FrameV>) -> int
    decreases fs.len(),
{
    if fs.len() == 0 {
        0
    } else {
        total_lines(fs.drop_last()) + fs.last().lines.len()
    }
}

/// Popping a line leaves one line fewer on the stack.
pub proof fn lemma_pop_spec_total(fs: Seq<FrameV>)
    ensures
        pop_spec(fs) matches Some(p) ==> total_lines(p.1) == total_lines(fs) - 1,
        pop_spec(fs) is None ==> total_lines(fs) == 0,
        total_lines(fs) >= 0,
    decreases fs.len(),
{
    if fs.len() == 0 {
    } else {
        lemma_pop_spec_total(fs.drop_last());
        let top = fs.last();
        if top.lines.len() > 0 {
            let rest = fs.drop_last().push(
                FrameV { name: top.name, lines: top.lines.drop_last() },
            );
            assert(rest.drop_last() =~= fs.drop_last());
        }
    }
}

impl FileStack {
    /// One name per frame.
    pub closed spec fn wf(&self) -> bool {
        self.filenames@.len() == self.lines@.len()
    }

    /// The abstract stack of frames, bottom first.
    pub closed spec fn frames(&self) -> Seq<FrameV> {
        Seq::new(
            self.filenames@.len(),
            |i: int| FrameV { name: self.filenames@[i]@, lines: lines_view(self.lines@[i]@) },
        )
    }

    /// An empty stack.
    pub fn new() -> (r: FileStack)
        ensures
            r.wf(),
            r.frames() == Seq::<FrameV>::empty(),
    {
        let r = FileStack { filenames: Vec::new(), lines: Vec::new() };
        proof {
            assert(r.frames() =~= Seq::<FrameV>::empty());
        }
        r
    }

    /// Seeds the stack with the entry source's lines.
    pub fn init(&mut self, file: &str, ls: Vec<(usize, String)>)
        requires
            old(self).wf(),
        ensures
            final(self).wf(),
            final(self).frames() == old(self).frames().push(
                FrameV { name: file@, lines: lines_view(ls@) },
            ),
    {
        self.filenames.push(file.to_owned());
        self.lines.push(ls);
        proof {
            assert(final(self).frames() =~= old(self).frames().push(
                FrameV { name: file@, lines: lines_view(self.lines@.last()@) },
            ));
        }
    }

    /// Pushes an included file's frame.
    pub fn push_frame(&mut self, path: String, ls: Vec<(usize, String)>)
        requires
            old(self).wf(),
        ensures
            final(self).wf(),
            final(self).frames() == old(self).frames().push(
                FrameV { name: path@, lines: lines_view(ls@) },
            ),
    {
        let ghost p = path@;
        self.filenames.push(path);
        self.lines.push(ls);
        proof {
            assert(final(self).frames() =~= old(self).frames().push(
                FrameV { name: p, lines: lines_view(self.lines@.last()@) },
            ));
        }
    }

    /// Whether a resolved path is anywhere on the active stack.
    pub fn contains_path(&self, p: &str) -> (r: bool)
        requires
            self.wf(),
        ensures
            r == exists|i: int| 0 <= i < self.frames().len() && (#[trigger] self.frames()[i]).name
                == p@,
    {
        let mut i: usize = 0;
        #[verifier::loop_isolation(false)]
        while i < self.filenames.len()
            invariant
                i <= self.filenames@.len(),
                forall|j: int| 0 <= j < i ==> (#[trigger] self.frames()[j]).name != p@,
            decreases self.filenames@.len() - i,
        {
            if str_eq(self.filenames[i].as_str(), p) {
                proof {
                    assert(self.frames()[i as int].name == p@);
                }
                return true;
            }
            i = i + 1;
        }
        false
    }

    /// Pops the next line: the top frame's next remaining line; an
    /// exhausted frame is discarded and the frame below resumes. Yields
    /// nothing exactly when every frame is drained, leaving the stack
    /// empty.
    pub fn pop(&mut self) -> (r: Option<(String, (usize, String))>)
        requires
            old(self).wf(),
        ensures
            final(self).wf(),
            match pop_spec(old(self).frames()) {
                None => r is None && final(self).frames() == Seq::<FrameV>::empty(),
                Some(p) => {
                    &&& (r matches Some(line) && line.0@ == p.0.0 && line.1.0 == p.0.1.0
                        && line.1.1@ == p.0.1.1)
                    &&& final(self).frames() == p.1
                },
            },
    {
        #[verifier::loop_isolation(false)]
        while self.filenames.len() > 0
            invariant
                self.wf(),
                pop_spec(old(self).frames()) == pop_spec(self.frames()),
            decreases self.filenames@.len(),
        {
            let ghost fs = self.frames();
            let top = self.lines.len() - 1;
            let mut top_lines = match self.lines.pop() {
                Some(v) => v,
                None => vstd::pervasive::unreached(),
            };
            match top_lines.pop() {
                Some(line) => {
                    let fname = self.filenames[self.filenames.len() - 1].clone();
                    self.lines.push(top_lines);
                    proof {
                        let p = pop_spec(fs).unwrap();
                        assert(lines_view(self.lines@.last()@) =~= fs.last().lines.drop_last());
                        assert(self.frames() =~= p.1);
                    }
                    return Some((fname, line));
                },
                None => {
                    let _ = self.filenames.pop();
                    proof {
                        assert(fs.last().lines.len() == 0);
                        assert(self.frames() =~= fs.drop_last());
                    }
                },
            }
        }
        proof {
            assert(self.frames() =~= Seq::<FrameV>::empty());
        }
        None
    }
}

} // verus!
