//! General properties of the library, stated and proved over the
//! models that the operations' contracts speak of.

use vstd::prelude::*;

use crate::chunk::ChunkModel;
use crate::dynamic_log::LogModel;
use crate::dynamic_log::flat_lines;
use crate::dynamic_log::resolved_index;
use crate::text::clear_emission;
use crate::text::frame_text;

verus! {

/// Law (stack semantics): pushing a line onto a chunk and then popping
/// restores the prior lines, and the popped line is the pushed one.
pub proof fn lemma_chunk_push_pop(m: ChunkModel, line: Seq<char>)
    ensures
        ({
            let pushed = ChunkModel { id: m.id, lines: m.lines.push(line) };
            &&& pushed.lines.len() == m.lines.len() + 1
            &&& pushed.lines.last() == line
            &&& pushed.lines.drop_last() =~~= m.lines
        }),
{
}

/// The number of lines of every chunk together.
pub open spec fn total_lines(chunks: Seq<ChunkModel>) -> nat
    decreases chunks.len(),
{
    if chunks.len() == 0 {
        0
    } else {
        total_lines(chunks.drop_last()) + chunks.last().lines.len()
    }
}

/// Where chunk `j`'s lines begin in the flattened frame.
pub open spec fn chunk_offset(chunks: Seq<ChunkModel>, j: int) -> nat {
    total_lines(chunks.take(j))
}

/// A prefix never holds more lines than the whole.
proof fn lemma_total_prefix(chunks: Seq<ChunkModel>, m: int)
    requires
        0 <= m <= chunks.len(),
    ensures
        total_lines(chunks.take(m)) <= total_lines(chunks),
    decreases chunks.len(),
{
    if m == chunks.len() {
        assert(chunks.take(m) =~~= chunks);
    } else {
        let pre = chunks.drop_last();
        assert(chunks.take(m) =~~= pre.take(m));
        lemma_total_prefix(pre, m);
    }
}

/// One chunk further moves the offset by exactly that chunk's lines.
proof fn lemma_offset_step(chunks: Seq<ChunkModel>, j: int)
    requires
        0 <= j < chunks.len(),
    ensures
        chunk_offset(chunks, j) + chunks[j].lines.len() == chunk_offset(chunks, j + 1),
        chunk_offset(chunks, j + 1) <= total_lines(chunks),
{
    assert(chunks.take(j + 1).drop_last() =~~= chunks.take(j));
    assert(chunks.take(j + 1).last() == chunks[j]);
    lemma_total_prefix(chunks, j + 1);
}

/// Law (flattening): the frame holds as many lines as all chunks
/// together, and chunk `j`'s line `k` stands at its chunk's offset
/// plus `k` — each chunk's lines contiguous, in chunk order, in their
/// own order.
pub proof fn lemma_flatten(chunks: Seq<ChunkModel>)
    ensures
        flat_lines(chunks).len() == total_lines(chunks),
        forall|j: int, k: int|
            0 <= j < chunks.len() && 0 <= k < chunks[j].lines.len()
                ==> flat_lines(chunks)[chunk_offset(chunks, j) + k] == chunks[j].lines[k],
    decreases chunks.len(),
{
    if chunks.len() == 0 {
    } else {
        let pre = chunks.drop_last();
        lemma_flatten(pre);
        assert forall|j: int, k: int|
            0 <= j < chunks.len() && 0 <= k
                < chunks[j].lines.len() implies flat_lines(chunks)[chunk_offset(chunks, j) + k]
            == chunks[j].lines[k] by {
            if j < chunks.len() - 1 {
                assert(chunks.take(j) =~~= pre.take(j));
                assert(chunks.take(j + 1) =~~= pre.take(j + 1));
                assert(chunks[j] == pre[j]);
                lemma_offset_step(pre, j);
                lemma_total_prefix(pre, j + 1);
                assert(chunk_offset(chunks, j) + k < flat_lines(pre).len());
                assert(flat_lines(chunks)[chunk_offset(chunks, j) + k] == flat_lines(
                    pre,
                )[chunk_offset(pre, j) + k]);
            } else {
                assert(chunks.take(j) =~~= pre);
                assert(chunk_offset(chunks, j) == total_lines(pre));
                assert(flat_lines(chunks)[chunk_offset(chunks, j) + k]
                    == chunks.last().lines[k]);
            }
        }
    }
}

/// Law (negative indexing): for `len` chunks and `1 <= k <= len`,
/// index `-k` resolves to the same chunk as index `len - k`.
pub proof fn lemma_negative_index(len: int, k: int)
    requires
        1 <= k <= len,
    ensures
        resolved_index(len, -k) == resolved_index(len, len - k),
{
}

/// Law (clear before redraw): when a frame is on screen, a render
/// emits exactly one clear sequence, then the new frame, and nothing
/// else.
pub proof fn lemma_render_clears_first(m: LogModel)
    requires
        m.rendered,
    ensures
        m.rendered_state().out =~= m.out + clear_emission(m.line_count) + frame_text(
            flat_lines(m.chunks),
        ),
{
}

/// Law (render records the frame): a render leaves the log marked as
/// on screen, with the line count of the frame it drew.
pub proof fn lemma_render_records_count(m: LogModel)
    ensures
        m.rendered_state().rendered,
        m.rendered_state().line_count == flat_lines(m.chunks).len(),
        m.rendered_state().chunks =~~= m.chunks,
{
}

/// Law (no retroactive mismatch): changing the chunks after a render
/// changes neither the on-screen mark nor the recorded line count —
/// the count stays that of the frame actually drawn.
pub proof fn lemma_mutation_keeps_record(m: LogModel, chunks: Seq<ChunkModel>)
    ensures
        m.with_chunks(chunks).rendered == m.rendered,
        m.with_chunks(chunks).line_count == m.line_count,
        m.with_chunks(chunks).out =~= m.out,
{
}

/// Law (zero-line frame): clearing a zero-line frame emits nothing —
/// no cursor movement at all, so no movement count exists to
/// underflow — and a render over it emits only the new frame.
pub proof fn lemma_render_zero_lines(m: LogModel)
    requires
        m.rendered,
        m.line_count == 0,
    ensures
        clear_emission(m.line_count) =~= Seq::<char>::empty(),
        m.rendered_state().out =~= m.out + frame_text(flat_lines(m.chunks)),
{
}

} // verus!
