//! The output of a stack frame.

use vstd::prelude::*;
use crate::value::{RantValue, ValueView};

verus! {

/// A piece of output.
#[derive(Debug)]
pub enum OutputBuffer {
    Fragment(String),
    Whitespace(String),
    Value(RantValue),
}

/// The view of an [`OutputBuffer`].
pub enum PieceView {
    Fragment(Seq<char>),
    Whitespace(Seq<char>),
    Value(ValueView),
}

impl View for OutputBuffer {
    type V = PieceView;

    open spec fn view(&self) -> PieceView {
        match self {
            OutputBuffer::Fragment(s) => PieceView::Fragment(s@),
            OutputBuffer::Whitespace(s) => PieceView::Whitespace(s@),
            OutputBuffer::Value(v) => PieceView::Value(v@),
        }
    }
}

impl PieceView {
    /// The piece as text.
    pub open spec fn text(self) -> Seq<char> {
        match self {
            PieceView::Fragment(s) => s,
            PieceView::Whitespace(s) => s,
            PieceView::Value(v) => v.text(),
        }
    }
}

/// The pieces as one text.
pub open spec fn joined(pieces: Seq<PieceView>) -> Seq<char>
    decreases pieces.len(),
{
    if pieces.len() == 0 {
        Seq::empty()
    } else {
        joined(pieces.drop_last()) + pieces.last().text()
    }
}

/// The value that pieces of output make up: the value itself if there is nothing else.
pub open spec fn rendered(pieces: Seq<PieceView>) -> ValueView {
    if pieces.len() == 0 {
        ValueView::Empty
    } else if pieces.len() == 1 && pieces[0] is Value {
        pieces[0]->Value_0
    } else {
        ValueView::Text(joined(pieces))
    }
}

/// Collects output.
#[derive(Debug)]
pub struct OutputWriter {
    buffers: Vec<OutputBuffer>,
}

impl View for OutputWriter {
    type V = Seq<PieceView>;

    closed spec fn view(&self) -> Seq<PieceView> {
        self.buffers@.map_values(|buffer: OutputBuffer| buffer@)
    }
}

impl OutputWriter {
    /// A writer that has collected nothing. It takes over nothing from the writer before it.
    pub fn new(prev_output: Option<&OutputWriter>) -> (writer: Self)
        ensures
            writer@ == Seq::<PieceView>::empty(),
    {
        let writer = OutputWriter { buffers: Vec::new() };
        assert(writer@ =~= Seq::empty());
        writer
    }

    pub fn write_buffer(&mut self, buffer: OutputBuffer)
        ensures
            final(self)@ == old(self)@.push(buffer@),
    {
        self.buffers.push(buffer);
        assert(self@ =~= old(self)@.push(buffer@));
    }

    pub fn write_frag(&mut self, frag: &str)
        ensures
            final(self)@ == old(self)@.push(PieceView::Fragment(frag@)),
    {
        self.write_buffer(OutputBuffer::Fragment(frag.to_owned()));
    }

    pub fn write_ws(&mut self, ws: &str)
        ensures
            final(self)@ == old(self)@.push(PieceView::Whitespace(ws@)),
    {
        self.write_buffer(OutputBuffer::Whitespace(ws.to_owned()));
    }

    /// The value that the output makes up.
    pub fn render_value(self) -> (value: RantValue)
        ensures
            value@ == rendered(self@),
    {
        if self.buffers.len() == 0 {
            return RantValue::Empty;
        }
        if self.buffers.len() == 1 {
            if let OutputBuffer::Value(value) = &self.buffers[0] {
                return value.clone();
            }
        }
        let mut text = String::new();
        let mut i: usize = 0;
        assert(self@.take(0) =~= Seq::empty());
        while i < self.buffers.len()
            invariant
                i <= self.buffers@.len(),
                text@ == joined(self@.take(i as int)),
            decreases self.buffers@.len() - i,
        {
            proof {
                assert(self@.take(i + 1).drop_last() =~= self@.take(i as int));
            }
            match &self.buffers[i] {
                OutputBuffer::Fragment(s) => text.append(s.as_str()),
                OutputBuffer::Whitespace(s) => text.append(s.as_str()),
                OutputBuffer::Value(v) => text.append(v.to_text().as_str()),
            }
            i = i + 1;
        }
        assert(self@.take(i as int) =~= self@);
        RantValue::Text(text)
    }
}

} // verus!
