//! Reading what a command writes. Its two streams are read side by side, each line is shown when
//! it comes, and the run has ended when both streams have.

use vstd::prelude::*;

use super::run::Launch;
use super::App;
use crate::model::AppView;

verus! {

/// A stream that a command writes to.
#[derive(Clone, Copy, Debug, PartialEq, Eq, Structural)]
pub enum Stream {
    Stdout,
    Stderr,
}

/// How far the reading of a command has come.
#[derive(Clone, Copy)]
pub struct Reader {
    /// The number of the tab that the lines go to.
    pub id: usize,
    /// The flag to set in the end.
    pub done_flag: usize,
    /// Whether more may come from the standard output.
    pub stdout_open: bool,
    /// Whether more may come from the standard error.
    pub stderr_open: bool,
}

impl Reader {
    /// Whether more may come from a stream.
    pub open spec fn is_open(self, stream: Stream) -> bool {
        match stream {
            Stream::Stdout => self.stdout_open,
            Stream::Stderr => self.stderr_open,
        }
    }

    /// The reader after a stream has ended.
    pub open spec fn closed(self, stream: Stream) -> Reader {
        match stream {
            Stream::Stdout => Reader { stdout_open: false, ..self },
            Stream::Stderr => Reader { stderr_open: false, ..self },
        }
    }

    /// Whether both streams have ended.
    pub open spec fn ended(self) -> bool {
        !self.stdout_open && !self.stderr_open
    }
}

/// What a read from a stream gave.
pub enum ReadEvent {
    Line(String),
    /// A line that could not be read.
    BadLine,
    /// There is no more to read.
    End,
}

/// The values of a `ReadEvent`.
pub enum ReadEventView {
    Line(Seq<char>),
    BadLine,
    End,
}

impl View for ReadEvent {
    type V = ReadEventView;

    open spec fn view(&self) -> ReadEventView {
        match self {
            ReadEvent::Line(text) => ReadEventView::Line(text@),
            ReadEvent::BadLine => ReadEventView::BadLine,
            ReadEvent::End => ReadEventView::End,
        }
    }
}

/// The state and the reader after a read from a stream. A line goes to the tab at once, whatever
/// the other stream does; one that could not be read is passed over. The end closes its own
/// stream, and the end of the run is noted when the second of the two closes. From a stream that
/// has ended nothing more comes.
pub open spec fn after_read<C>(
    app: AppView<C>,
    reader: Reader,
    stream: Stream,
    event: ReadEventView,
) -> (AppView<C>, Reader) {
    if !reader.is_open(stream) {
        (app, reader)
    } else {
        match event {
            ReadEventView::Line(line) => (
                match stream {
                    Stream::Stdout => app.stdout_line(reader.id as nat, line),
                    Stream::Stderr => app.stderr_line(reader.id as nat, line),
                },
                reader,
            ),
            ReadEventView::BadLine => (app, reader),
            ReadEventView::End => (
                if reader.closed(stream).ended() {
                    app.finished(reader.done_flag as int)
                } else {
                    app
                },
                reader.closed(stream),
            ),
        }
    }
}

/// The state and the reader after reads, in the order in which they came.
pub open spec fn after_reads<C>(
    app: AppView<C>,
    reader: Reader,
    events: Seq<(Stream, ReadEventView)>,
) -> (AppView<C>, Reader)
    decreases events.len(),
{
    if events.len() == 0 {
        (app, reader)
    } else {
        let (middle, r) = after_reads(app, reader, events.drop_last());
        let (stream, event) = events.last();
        after_read(middle, r, stream, event)
    }
}

impl<C> Launch<C> {
    /// The reader of the command that is started.
    pub fn reader(&self) -> (reader: Reader)
        ensures
            reader == (Reader {
                id: self.id,
                done_flag: self.done_flag,
                stdout_open: true,
                stderr_open: true,
            }),
    {
        Reader { id: self.id, done_flag: self.done_flag, stdout_open: true, stderr_open: true }
    }
}

impl<C> App<C> {
    /// Whether what was read can be written to the tab.
    pub open spec fn takes(&self, reader: Reader, stream: Stream, event: ReadEventView) -> bool {
        match (stream, event) {
            (Stream::Stdout, ReadEventView::Line(line)) => reader.stdout_open ==> self.takes_line(
                reader.id as nat,
                line,
            ),
            _ => true,
        }
    }

    /// Decides `takes`.
    pub fn can_take(&self, reader: &Reader, stream: Stream, event: &ReadEvent) -> (can: bool)
        requires
            self.wf(),
        ensures
            can == self.takes(*reader, stream, event@),
    {
        match event {
            ReadEvent::Line(line) => match stream {
                Stream::Stdout => !reader.stdout_open || self.can_take_line(
                    reader.id,
                    line.as_str(),
                ),
                Stream::Stderr => true,
            },
            _ => true,
        }
    }

    /// Takes what was read from a stream of a command.
    pub fn take_read(&mut self, reader: &mut Reader, stream: Stream, event: ReadEvent)
        requires
            old(self).wf(),
            old(self).takes(*old(reader), stream, event@),
        ensures
            final(self).wf(),
            (final(self)@, *final(reader)) == after_read(old(self)@, *old(reader), stream, event@),
    {
        let open = match stream {
            Stream::Stdout => reader.stdout_open,
            Stream::Stderr => reader.stderr_open,
        };
        if !open {
            return;
        }
        match event {
            ReadEvent::Line(line) => match stream {
                Stream::Stdout => self.stdout_line(reader.id, line.as_str()),
                Stream::Stderr => self.stderr_line(reader.id, line.as_str()),
            },
            ReadEvent::BadLine => {},
            ReadEvent::End => {
                match stream {
                    Stream::Stdout => {
                        reader.stdout_open = false;
                    },
                    Stream::Stderr => {
                        reader.stderr_open = false;
                    },
                }
                if !reader.stdout_open && !reader.stderr_open {
                    self.finished(reader.done_flag);
                }
            },
        }
    }
}

} // verus!
