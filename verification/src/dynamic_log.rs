//! The log: an ordered sequence of chunks, the character stream the
//! terminal receives, and the render/clear bookkeeping that lets the
//! log erase exactly what it previously printed.
//!
//! The stream the terminal would receive is the `out` buffer: every
//! operation that would write to the terminal appends there instead,
//! so each contract states the exact characters emitted.  A caller
//! drains the buffer with `take_output` and forwards it to the real
//! device.

use vstd::prelude::*;

use crate::chunk::ChunkModel;
use crate::chunk::LogChunk;
use crate::chunk::opt_str_view;
use crate::errors::LogError;
use crate::text::clear_emission;
use crate::text::dec_of;
use crate::text::frame_text;
use crate::text::with_newlines;

verus! {

/// The mathematical value of a log: its chunks, whether a frame is on
/// screen, how many lines that frame held, and everything written to
/// the stream so far.
#[verifier::ext_equal]
pub struct LogModel {
    pub chunks: Seq<ChunkModel>,
    pub rendered: bool,
    pub line_count: nat,
    pub out: Seq<char>,
}

/// The flattened frame: every chunk's lines, in chunk order.
pub open spec fn flat_lines(chunks: Seq<ChunkModel>) -> Seq<Seq<char>>
    decreases chunks.len(),
{
    if chunks.len() == 0 {
        Seq::empty()
    } else {
        flat_lines(chunks.drop_last()) + chunks.last().lines
    }
}

/// Whether `c` carries the label `id`.
pub open spec fn chunk_matches(c: ChunkModel, id: Seq<char>) -> bool {
    c.id is Some && c.id.unwrap() == id
}

/// Whether some chunk carries the label `id`.
pub open spec fn has_chunk(chunks: Seq<ChunkModel>, id: Seq<char>) -> bool {
    exists|i: int| 0 <= i < chunks.len() && chunk_matches(chunks[i], id)
}

/// The position of the first chunk carrying `id`.
pub open spec fn first_match(chunks: Seq<ChunkModel>, id: Seq<char>) -> int
    decreases chunks.len(),
{
    if chunks.len() == 0 {
        0
    } else if chunk_matches(chunks[0], id) {
        0
    } else {
        1 + first_match(chunks.drop_first(), id)
    }
}

/// Where a (possibly negative) chunk index points: a negative index
/// counts back from the end, `-1` being the last chunk.
pub open spec fn resolved_index(len: int, index: int) -> int {
    if index < 0 {
        len + index
    } else {
        index
    }
}

impl LogModel {
    /// What a render emits: a clear of the prior frame if one is on
    /// screen, then the current frame.
    pub open spec fn render_emission(self) -> Seq<char> {
        (if self.rendered {
            clear_emission(self.line_count)
        } else {
            Seq::empty()
        }) + frame_text(flat_lines(self.chunks))
    }

    /// The log after a render.
    pub open spec fn rendered_state(self) -> LogModel {
        LogModel {
            chunks: self.chunks,
            rendered: true,
            line_count: flat_lines(self.chunks).len(),
            out: self.out + self.render_emission(),
        }
    }

    /// The log after a clear.
    pub open spec fn cleared_state(self) -> LogModel {
        LogModel {
            chunks: self.chunks,
            rendered: false,
            line_count: 0,
            out: self.out + clear_emission(self.line_count),
        }
    }

    /// The conditional redraw every mutating operation ends with: a
    /// render happens only when the flag is set and a frame is on
    /// screen.
    pub open spec fn step_render(self, flag: bool) -> LogModel {
        if flag && self.rendered {
            self.rendered_state()
        } else {
            self
        }
    }

    /// The same log with other chunks.
    pub open spec fn with_chunks(self, chunks: Seq<ChunkModel>) -> LogModel {
        LogModel { chunks, rendered: self.rendered, line_count: self.line_count, out: self.out }
    }

    /// The same log with `more` lines appended to the last chunk.
    pub open spec fn with_last_chunk_lines(self, more: Seq<Seq<char>>) -> LogModel
        recommends
            self.chunks.len() > 0,
    {
        let i = self.chunks.len() - 1;
        let c = self.chunks.last();
        self.with_chunks(self.chunks.update(i as int, ChunkModel { id: c.id, lines: c.lines + more }))
    }
}

/// The first match really is first: it exists, it matches, and no
/// earlier chunk does.
pub proof fn lemma_first_match(chunks: Seq<ChunkModel>, id: Seq<char>)
    requires
        has_chunk(chunks, id),
    ensures
        0 <= first_match(chunks, id) < chunks.len(),
        chunk_matches(chunks[first_match(chunks, id)], id),
        forall|j: int| 0 <= j < first_match(chunks, id) ==> !chunk_matches(chunks[j], id),
    decreases chunks.len(),
{
    if chunks.len() == 0 {
    } else if chunk_matches(chunks[0], id) {
    } else {
        let rest = chunks.drop_first();
        assert(has_chunk(rest, id)) by {
            let i = choose|i: int| 0 <= i < chunks.len() && chunk_matches(chunks[i], id);
            assert(i >= 1);
            assert(chunk_matches(rest[i - 1], id));
        }
        lemma_first_match(rest, id);
        assert forall|j: int| 0 <= j < first_match(chunks, id) implies !chunk_matches(
            chunks[j],
            id,
        ) by {
            if j >= 1 {
                assert(chunks[j] == rest[j - 1]);
            }
        }
    }
}

/// An in-place terminal display: an ordered sequence of chunks that is
/// flattened and redrawn over the block written before.
pub struct DynamicLog {
    pub chunks: Vec<LogChunk>,
    pub rendered: bool,
    pub last_rendered_line_count: usize,
    pub out: String,
}

impl View for DynamicLog {
    type V = LogModel;

    open spec fn view(&self) -> LogModel {
        LogModel {
            chunks: self.chunks.deep_view(),
            rendered: self.rendered,
            line_count: self.last_rendered_line_count as nat,
            out: self.out@,
        }
    }
}

impl DynamicLog {
    /// A new log: no chunks, nothing on screen, nothing written.
    pub fn new() -> (log: DynamicLog)
        ensures
            log@.chunks =~~= Seq::<ChunkModel>::empty(),
            log@.rendered == false,
            log@.line_count == 0,
            log@.out =~= Seq::<char>::empty(),
    {
        DynamicLog { chunks: Vec::new(), rendered: false, last_rendered_line_count: 0, out: String::new() }
    }

    /// Removes and returns everything written to the stream since the
    /// last drain, for forwarding to the terminal.
    pub fn take_output(&mut self) -> (s: String)
        ensures
            s@ == old(self)@.out,
            final(self)@ =~~= (LogModel {
                chunks: old(self)@.chunks,
                rendered: old(self)@.rendered,
                line_count: old(self)@.line_count,
                out: Seq::empty(),
            }),
    {
        let mut s = String::new();
        core::mem::swap(&mut self.out, &mut s);
        s
    }

    /// Erases the frame on screen: the cursor moves up to the first
    /// line of the block written by the last render, then everything
    /// below is erased.  A zero-line frame left nothing on screen, so
    /// nothing is emitted.
    pub fn clear(&mut self)
        ensures
            final(self)@ =~~= old(self)@.cleared_state(),
    {
        if self.last_rendered_line_count > 0 {
            self.out.append("\x1B[");
            let num = dec_of(self.last_rendered_line_count - 1);
            self.out.append(num.as_str());
            self.out.append("A\x1B[J");
            proof {
                reveal_strlit("\x1B[");
                reveal_strlit("A\x1B[J");
                assert(self@.out =~= old(self)@.out + clear_emission(old(self)@.line_count));
            }
        }
        self.rendered = false;
        self.last_rendered_line_count = 0;
    }

    /// Draws the current frame: erases the prior one if it is on
    /// screen, then writes every flattened line newline-terminated
    /// except the last, which keeps the cursor at the end of the block.
    pub fn render(&mut self)
        ensures
            final(self)@ =~~= old(self)@.rendered_state(),
    {
        if self.rendered {
            self.clear();
        }
        let lines = self.get_lines();
        let len = lines.len();
        let ghost flat = lines.deep_view();
        proof {
            assert(flat =~~= flat_lines(old(self)@.chunks));
        }
        let ghost base = self@.out;
        let ghost chunks0 = self.chunks;
        let ghost rendered0 = self.rendered;
        let ghost count0 = self.last_rendered_line_count;
        if len > 0 {
            let mut i: usize = 0;
            while i < len - 1
                invariant
                    i <= len - 1,
                    len == lines.len(),
                    len >= 1,
                    flat == lines.deep_view(),
                    flat.len() == len,
                    self.chunks == chunks0,
                    self.rendered == rendered0,
                    self.last_rendered_line_count == count0,
                    self@.out =~= base + with_newlines(flat.take(i as int)),
                decreases len - i,
            {
                self.out.append(lines[i].as_str());
                self.out.append("\n");
                proof {
                    reveal_strlit("\n");
                    assert(lines.deep_view()[i as int] == lines@[i as int]@);
                    assert(flat.take(i as int + 1).drop_last() =~~= flat.take(i as int));
                    assert(self@.out =~= base + with_newlines(flat.take(i as int + 1)));
                }
                i = i + 1;
            }
            self.out.append(lines[len - 1].as_str());
            proof {
                assert(lines.deep_view()[len - 1] == lines@[len - 1]@);
                assert(flat.take(len - 1) =~~= flat.drop_last());
                assert(self@.out =~= base + with_newlines(flat.drop_last()) + flat.last());
                assert(self@.out =~= base + frame_text(flat));
            }
        } else {
            proof {
                assert(frame_text(flat) =~= Seq::<char>::empty());
                assert(self@.out =~= base + frame_text(flat));
            }
        }
        self.rendered = true;
        self.last_rendered_line_count = len;
    }

    /// Appends a new empty chunk with the given label and hands back a
    /// mutable handle to it.
    pub fn push_chunk(&mut self, id: Option<String>) -> (r: &mut LogChunk)
        ensures
            (*r)@.id == opt_str_view(id),
            (*r)@.lines =~~= Seq::<Seq<char>>::empty(),
            final(self)@.chunks =~~= old(self)@.chunks.push((*final(r))@),
            final(self)@.rendered == old(self)@.rendered,
            final(self)@.line_count == old(self)@.line_count,
            final(self)@.out == old(self)@.out,
    {
        let chunk = LogChunk::new(id);
        self.chunks.push(chunk);
        let n = self.chunks.len();
        &mut self.chunks[n - 1]
    }

    /// Appends `line` to the last chunk, then redraws if asked and a
    /// frame is on screen.  With no chunk to push to, reports the
    /// broken precondition and changes nothing.
    pub fn push_line(&mut self, line: String, render: bool) -> (r: Result<(), LogError>)
        ensures
            old(self)@.chunks.len() == 0 ==> r == Err::<(), LogError>(LogError::NoChunk) && final(self)@ =~~= old(self)@,
            old(self)@.chunks.len() > 0 ==> r == Ok::<(), LogError>(()) && final(self)@ =~~= old(self)@.with_last_chunk_lines(seq![line@]).step_render(render),
    {
        let n = self.chunks.len();
        if n == 0 {
            return Err(LogError::NoChunk);
        }
        let last = &mut self.chunks[n - 1];
        last.push_line(line);
        proof {
            assert(self@ =~~= old(self)@.with_last_chunk_lines(seq![line@]));
        }
        let ghost mid = self@;
        if render && self.rendered {
            self.render();
        }
        proof {
            assert(self@ =~~= mid.step_render(render));
        }
        Ok(())
    }

    /// Appends every line of `lines`, in order and without
    /// intermediate redraws, then redraws once if asked and a frame is
    /// on screen.  With lines to push but no chunk, reports the broken
    /// precondition and changes nothing.
    pub fn push_lines(&mut self, lines: Vec<String>, render: bool) -> (r: Result<(), LogError>)
        ensures
            old(self)@.chunks.len() == 0 && lines.deep_view().len() > 0 ==> r == Err::<
                (),
                LogError,
            >(LogError::NoChunk) && final(self)@ =~~= old(self)@,
            old(self)@.chunks.len() == 0 && lines.deep_view().len() == 0 ==> r == Ok::<
                (),
                LogError,
            >(()) && final(self)@ =~~= old(self)@.step_render(render),
            old(self)@.chunks.len() > 0 ==> r == Ok::<(), LogError>(()) && final(self)@ =~~= old(self)@.with_last_chunk_lines(lines.deep_view()).step_render(render),
    {
        let n = self.chunks.len();
        if n == 0 {
            if lines.len() == 0 {
                let ghost mid = self@;
                if render && self.rendered {
                    self.render();
                }
                proof {
                    assert(self@ =~~= mid.step_render(render));
                }
                return Ok(());
            }
            return Err(LogError::NoChunk);
        }
        let last = &mut self.chunks[n - 1];
        last.push_lines(lines);
        proof {
            assert(self@ =~~= old(self)@.with_last_chunk_lines(lines.deep_view()));
        }
        let ghost mid = self@;
        if render && self.rendered {
            self.render();
        }
        proof {
            assert(self@ =~~= mid.step_render(render));
        }
        Ok(())
    }

    /// Removes and returns the last chunk, or `None` if there is none,
    /// then redraws if asked and a frame is on screen.
    pub fn pop_chunk(&mut self, render: bool) -> (r: Option<LogChunk>)
        ensures
            old(self)@.chunks.len() == 0 ==> r is None && final(self)@ =~~= old(self)@.step_render(
                render,
            ),
            old(self)@.chunks.len() > 0 ==> r is Some && r.unwrap()@ =~~= old(self)@.chunks.last()
                && final(self)@ =~~= old(self)@.with_chunks(
                old(self)@.chunks.drop_last(),
            ).step_render(render),
    {
        let popped = self.chunks.pop();
        proof {
            if old(self)@.chunks.len() == 0 {
                assert(self@ =~~= old(self)@);
            } else {
                assert(self@ =~~= old(self)@.with_chunks(old(self)@.chunks.drop_last()));
            }
        }
        let ghost mid = self@;
        if render && self.rendered {
            self.render();
        }
        proof {
            assert(self@ =~~= mid.step_render(render));
        }
        popped
    }

    /// Removes and returns the last line of the last chunk.  With no
    /// chunk at all nothing happens, not even a redraw; with an empty
    /// last chunk there is nothing to return, but the conditional
    /// redraw still runs.
    pub fn pop_line(&mut self, render: bool) -> (r: Option<String>)
        ensures
            old(self)@.chunks.len() == 0 ==> r is None && final(self)@ =~~= old(self)@,
            old(self)@.chunks.len() > 0 ==> ({
                let lc = old(self)@.chunks.last();
                let mid = if lc.lines.len() == 0 {
                    old(self)@
                } else {
                    old(self)@.with_chunks(
                        old(self)@.chunks.update(
                            old(self)@.chunks.len() - 1,
                            ChunkModel { id: lc.id, lines: lc.lines.drop_last() },
                        ),
                    )
                };
                &&& (lc.lines.len() == 0 ==> r is None)
                &&& (lc.lines.len() > 0 ==> r is Some && r.unwrap()@ == lc.lines.last())
                &&& final(self)@ =~~= mid.step_render(render)
            }),
    {
        let n = self.chunks.len();
        if n == 0 {
            return None;
        }
        let last = &mut self.chunks[n - 1];
        let popped = last.pop_line();
        proof {
            let lc = old(self)@.chunks.last();
            if lc.lines.len() == 0 {
                assert(self@ =~~= old(self)@);
            } else {
                assert(self@ =~~= old(self)@.with_chunks(
                    old(self)@.chunks.update(
                        old(self)@.chunks.len() - 1,
                        ChunkModel { id: lc.id, lines: lc.lines.drop_last() },
                    ),
                ));
            }
        }
        let ghost mid = self@;
        if render && self.rendered {
            self.render();
        }
        proof {
            assert(self@ =~~= mid.step_render(render));
        }
        popped
    }

    /// Hands back the first chunk carrying the label `id`.  With no
    /// such chunk, reports the broken precondition and changes
    /// nothing.
    pub fn get_chunk(&mut self, id: &str) -> (r: Result<&mut LogChunk, LogError>)
        ensures
            !has_chunk(old(self)@.chunks, id@) ==> r == Err::<&mut LogChunk, LogError>(
                LogError::ChunkNotFound,
            ) && final(self)@ =~~= old(self)@,
            has_chunk(old(self)@.chunks, id@) ==> ({
                let i = first_match(old(self)@.chunks, id@);
                &&& r is Ok
                &&& (*r->Ok_0)@ =~~= old(self)@.chunks[i]
                &&& final(self)@.chunks =~~= old(self)@.chunks.update(i, (*final(r->Ok_0))@)
                &&& final(self)@.rendered == old(self)@.rendered
                &&& final(self)@.line_count == old(self)@.line_count
                &&& final(self)@.out == old(self)@.out
            }),
    {
        let id_owned: String = id.to_owned();
        let n = self.chunks.len();
        let mut i: usize = 0;
        while i < n
            invariant
                i <= n,
                n == self.chunks.len(),
                self == old(self),
                id_owned@ == id@,
                forall|j: int| 0 <= j < i ==> !chunk_matches(self@.chunks[j], id@),
            decreases n - i,
        {
            let found = match &self.chunks[i].id {
                Some(s) => *s == id_owned,
                None => false,
            };
            if found {
                proof {
                    assert(chunk_matches(self@.chunks[i as int], id@));
                    lemma_first_match(self@.chunks, id@);
                    assert(first_match(self@.chunks, id@) == i as int);
                }
                return Ok(&mut self.chunks[i]);
            }
            proof {
                assert(!chunk_matches(self@.chunks[i as int], id@));
            }
            i = i + 1;
        }
        proof {
            assert(!has_chunk(self@.chunks, id@));
        }
        Err(LogError::ChunkNotFound)
    }

    /// Hands back the chunk at `index`; a negative index counts back
    /// from the end, `-1` being the last chunk.  An index out of range
    /// in either direction is a broken precondition: it is reported
    /// and nothing changes.
    pub fn get_chunk_by_index(&mut self, index: i32) -> (r: Result<&mut LogChunk, LogError>)
        ensures
            !(0 <= resolved_index(old(self)@.chunks.len() as int, index as int) < old(self)@.chunks.len()) ==> r == Err::<&mut LogChunk, LogError>(LogError::IndexOutOfRange)
                && final(self)@ =~~= old(self)@,
            0 <= resolved_index(old(self)@.chunks.len() as int, index as int) < old(self)@.chunks.len() ==> ({
                let i = resolved_index(old(self)@.chunks.len() as int, index as int);
                &&& r is Ok
                &&& (*r->Ok_0)@ =~~= old(self)@.chunks[i]
                &&& final(self)@.chunks =~~= old(self)@.chunks.update(i, (*final(r->Ok_0))@)
                &&& final(self)@.rendered == old(self)@.rendered
                &&& final(self)@.line_count == old(self)@.line_count
                &&& final(self)@.out == old(self)@.out
            }),
    {
        let n = self.chunks.len();
        if index < 0 {
            let k_wide: i64 = -(index as i64);
            proof {
                assert(0 < k_wide <= 0x8000_0000);
            }
            let k = k_wide as usize;
            if k <= n {
                return Ok(&mut self.chunks[n - k]);
            }
            return Err(LogError::IndexOutOfRange);
        }
        let i = index as usize;
        if i < n {
            return Ok(&mut self.chunks[i]);
        }
        Err(LogError::IndexOutOfRange)
    }

    /// The full frame as it stands now: every chunk's lines
    /// concatenated in chunk order.  Pure; the log is unchanged.
    pub fn get_lines(&self) -> (r: Vec<String>)
        ensures
            r.deep_view() =~~= flat_lines(self@.chunks),
    {
        let mut r: Vec<String> = Vec::new();
        let nc = self.chunks.len();
        let mut ci: usize = 0;
        while ci < nc
            invariant
                ci <= nc,
                nc == self.chunks.len(),
                r.deep_view() =~~= flat_lines(self@.chunks.take(ci as int)),
            decreases nc - ci,
        {
            let chunk = &self.chunks[ci];
            let nl = chunk.lines.len();
            let mut li: usize = 0;
            while li < nl
                invariant
                    li <= nl,
                    nl == chunk.lines.len(),
                    ci < nc,
                    nc == self.chunks.len(),
                    chunk == &self.chunks[ci as int],
                    r.deep_view() =~~= flat_lines(self@.chunks.take(ci as int)) + chunk@.lines.take(
                        li as int,
                    ),
                decreases nl - li,
            {
                let line = chunk.lines[li].clone();
                proof {
                    assert(line@ == chunk@.lines[li as int]);
                }
                let ghost rprev = r;
                r.push(line);
                proof {
                    assert(r.deep_view() =~~= rprev.deep_view().push(line@));
                    assert(chunk@.lines.take(li as int + 1) =~~= chunk@.lines.take(
                        li as int,
                    ).push(chunk@.lines[li as int]));
                    assert(r.deep_view() =~~= flat_lines(self@.chunks.take(ci as int))
                        + chunk@.lines.take(li as int + 1));
                }
                li = li + 1;
            }
            proof {
                assert(chunk@.lines.take(nl as int) =~~= chunk@.lines);
                assert(self@.chunks.take(ci as int + 1).drop_last() =~~= self@.chunks.take(
                    ci as int,
                ));
                assert(self@.chunks.take(ci as int + 1).last() == chunk@);
                assert(r.deep_view() =~~= flat_lines(self@.chunks.take(ci as int + 1)));
            }
            ci = ci + 1;
        }
        proof {
            assert(self@.chunks.take(nc as int) =~~= self@.chunks);
        }
        r
    }
}

} // verus!
