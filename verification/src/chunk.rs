//! A chunk: an ordered, mutable sequence of text lines with an optional
//! identifying label.  A pure data container with no knowledge of
//! rendering or terminal state.

use vstd::prelude::*;

use crate::errors::LogError;

verus! {

/// The mathematical value of a chunk: its label and its lines, each
/// line a sequence of characters.
#[verifier::ext_equal]
pub struct ChunkModel {
    pub id: Option<Seq<char>>,
    pub lines: Seq<Seq<char>>,
}

/// The view of an optional label.
pub open spec fn opt_str_view(id: Option<String>) -> Option<Seq<char>> {
    match id {
        Some(s) => Some(s@),
        None => None,
    }
}

/// An ordered group of text lines, addressable as one unit of the
/// display.
pub struct LogChunk {
    pub lines: Vec<String>,
    pub id: Option<String>,
}

impl View for LogChunk {
    type V = ChunkModel;

    open spec fn view(&self) -> ChunkModel {
        ChunkModel { id: opt_str_view(self.id), lines: self.lines.deep_view() }
    }
}

impl DeepView for LogChunk {
    type V = ChunkModel;

    open spec fn deep_view(&self) -> ChunkModel {
        self.view()
    }
}

impl LogChunk {
    /// A new chunk with the given label and no lines.
    pub fn new(id: Option<String>) -> (c: LogChunk)
        ensures
            c@.id == opt_str_view(id),
            c@.lines =~= Seq::<Seq<char>>::empty(),
    {
        LogChunk { lines: Vec::new(), id }
    }

    /// Appends one line at the end.
    pub fn push_line(&mut self, line: String)
        ensures
            final(self)@.id == old(self)@.id,
            final(self)@.lines =~= old(self)@.lines.push(line@),
    {
        self.lines.push(line);
    }

    /// Appends every line of `lines`, in order.
    pub fn push_lines(&mut self, lines: Vec<String>)
        ensures
            final(self)@.id == old(self)@.id,
            final(self)@.lines =~= old(self)@.lines + lines.deep_view(),
    {
        let n = lines.len();
        let rest = lines;
        let mut i: usize = 0;
        while i < n
            invariant
                i <= n,
                n == rest.len(),
                self@.id == old(self)@.id,
                self@.lines =~= old(self)@.lines + rest.deep_view().take(i as int),
            decreases n - i,
        {
            let line = rest[i].clone();
            proof {
                assert(line@ == rest.deep_view()[i as int]);
            }
            self.push_line(line);
            proof {
                assert(rest.deep_view().take(i as int + 1).drop_last() =~= rest.deep_view().take(
                    i as int,
                ));
                assert(self@.lines =~= old(self)@.lines + rest.deep_view().take(i as int + 1));
            }
            i = i + 1;
        }
        proof {
            assert(rest.deep_view().take(n as int) =~= rest.deep_view());
        }
    }

    /// Removes and returns the last line, or `None` if there is none.
    pub fn pop_line(&mut self) -> (r: Option<String>)
        ensures
            final(self)@.id == old(self)@.id,
            old(self)@.lines.len() == 0 ==> r is None && final(self)@.lines =~= old(self)@.lines,
            old(self)@.lines.len() > 0 ==> r is Some && r.unwrap()@ == old(self)@.lines.last()
                && final(self)@.lines =~= old(self)@.lines.drop_last(),
    {
        self.lines.pop()
    }

    /// Removes every line; the label is unchanged.
    pub fn clear_lines(&mut self)
        ensures
            final(self)@.id == old(self)@.id,
            final(self)@.lines =~= Seq::<Seq<char>>::empty(),
    {
        self.lines.clear();
    }

    /// Replaces the line at `index`.  An out-of-range index is a
    /// precondition violation; the call reports it and changes nothing.
    pub fn set_line(&mut self, index: usize, line: String) -> (r: Result<(), LogError>)
        ensures
            final(self)@.id == old(self)@.id,
            index >= old(self)@.lines.len() ==> r == Err::<(), LogError>(
                LogError::IndexOutOfRange,
            ) && final(self)@.lines =~= old(self)@.lines,
            index < old(self)@.lines.len() ==> r == Ok::<(), LogError>(()) && final(self)@.lines
                =~= old(self)@.lines.update(index as int, line@),
    {
        if index >= self.lines.len() {
            return Err(LogError::IndexOutOfRange);
        }
        self.lines[index] = line;
        Ok(())
    }
}

} // verus!
