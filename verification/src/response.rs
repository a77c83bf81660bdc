//! Assembling classified lines into one response and driving the whole
//! byte-to-result pipeline for a single command.

use vstd::prelude::*;
use vstd::string::*;
use vstd::utf8::{valid_utf8, decode_utf8};
use crate::command::IMAPCommand;
use crate::error::IMAPError;
use crate::framer::{Framer, step_frame, step_pending};
use crate::line::{spec_tagged, IMAPLine};
use crate::parser::{parse_lines, parse_ok, result_matches, IMAPResult};

verus! {

/// The texts of the lines, joined in order.
pub open spec fn lines_text(lines: Seq<IMAPLine>) -> Seq<char>
    decreases lines.len(),
{
    if lines.len() == 0 {
        Seq::empty()
    } else {
        lines_text(lines.drop_last()) + lines.last().raw@
    }
}

/// One response under assembly: the classified lines received so far, their
/// concatenated text, and — once the completion rule has fired and the lines
/// were parsed — the typed result.
pub struct IMAPResponse {
    pub buffer: String,
    pub lines: Vec<IMAPLine>,
    pub completed: bool,
    pub result: Option<IMAPResult>,
}

impl IMAPResponse {
    /// The buffer mirrors the lines, and a result exists only once the
    /// response is complete — a response is parsed at most once, at the
    /// moment it completes.
    pub open spec fn wf(&self) -> bool {
        &&& self.buffer@ == lines_text(self.lines@)
        &&& (self.result is Some ==> self.completed)
    }

    /// A fresh, empty, incomplete response.
    pub fn new() -> (r: IMAPResponse)
        ensures
            r.wf(),
            r.lines@ == Seq::<IMAPLine>::empty(),
            r.buffer@ == Seq::<char>::empty(),
            !r.completed,
            r.result is None,
    {
        proof {
            assert(lines_text(Seq::<IMAPLine>::empty()) =~= Seq::<char>::empty());
        }
        IMAPResponse { buffer: String::new(), lines: Vec::new(), completed: false, result: None }
    }

    /// Append one classified line.  When the line completes the response —
    /// always for a greeting, on a tagged line otherwise — the accumulated
    /// lines are parsed exactly once and the result stored; afterwards no
    /// further line may be supplied.  Returns whether the response completed,
    /// or the protocol error the parse ended in.
    pub fn add_line(&mut self, line: IMAPLine) -> (r: Result<bool, IMAPError>)
        requires
            old(self).wf(),
            !old(self).completed,
        ensures
            final(self).wf(),
            final(self).lines@ == old(self).lines@.push(line),
            final(self).buffer@ == old(self).buffer@ + line.raw@,
            final(self).completed == line.spec_complete(),
            match r {
                Ok(done) => {
                    &&& done == line.spec_complete()
                    &&& done ==> parse_ok(
                        old(self).lines@.push(line)[0].command,
                        old(self).lines@.push(line),
                    )
                    &&& done ==> (final(self).result matches Some(res) && result_matches(
                        old(self).lines@.push(line)[0].command,
                        old(self).lines@.push(line),
                        res,
                    ))
                    &&& !done ==> final(self).result is None
                },
                Err(e) => {
                    &&& line.spec_complete()
                    &&& !parse_ok(old(self).lines@.push(line)[0].command, old(self).lines@.push(line))
                    &&& e matches IMAPError::ProtocolError
                    &&& final(self).result is None
                },
            },
    {
        self.completed = line.is_complete();
        self.buffer.append(line.raw.as_str());
        self.lines.push(line);
        proof {
            assert(self.lines@.drop_last() =~= old(self).lines@);
            assert(self.lines@.last() == line);
        }
        if self.completed {
            match parse_lines(&self.lines) {
                Ok(res) => {
                    self.result = Some(res);
                    Ok(true)
                },
                Err(e) => Err(e),
            }
        } else {
            Ok(false)
        }
    }
}

/// Drives one command's response from raw stream bytes to a parsed result:
/// framer, text decoding, classification and assembly in one step function.
pub struct ResponseReader {
    framer: Framer,
    response: IMAPResponse,
    command: IMAPCommand,
}

/// The response grew by exactly one line of the given text, classified under
/// the given command kind.
pub open spec fn line_added(
    pre: IMAPResponse,
    post: IMAPResponse,
    cmd: IMAPCommand,
    text: Seq<char>,
) -> bool {
    &&& post.lines@.len() == pre.lines@.len() + 1
    &&& post.lines@.drop_last() == pre.lines@
    &&& post.lines@.last().command == cmd
    &&& post.lines@.last().raw@ == text
    &&& post.lines@.last().tagged == spec_tagged(text)
    &&& post.buffer@ == pre.buffer@ + text
    &&& post.completed == (cmd matches IMAPCommand::Greeting || spec_tagged(text))
}

impl ResponseReader {
    /// The parts agree and the response is still open.
    pub closed spec fn wf(&self) -> bool {
        &&& self.framer.wf()
        &&& self.response.wf()
    }

    pub closed spec fn spec_command(&self) -> IMAPCommand {
        self.command
    }

    pub closed spec fn pending(&self) -> Seq<u8> {
        self.framer@
    }

    pub closed spec fn response(&self) -> IMAPResponse {
        self.response
    }

    /// A fresh reader for one outstanding command.
    pub fn new(cmd: IMAPCommand) -> (r: ResponseReader)
        ensures
            r.wf(),
            r.spec_command() == cmd,
            r.pending() == Seq::<u8>::empty(),
            r.response().lines@ == Seq::<IMAPLine>::empty(),
            !r.response().completed,
    {
        ResponseReader { framer: Framer::new(), response: IMAPResponse::new(), command: cmd }
    }

    /// Consume one byte of the stream.  Until a CRLF pair arrives the byte is
    /// only buffered.  A completed frame is decoded — invalid text surfaces a
    /// decode error carrying the bytes — then classified and appended to the
    /// response; the reader reports whether the response completed, or the
    /// error the parse ended in.
    pub fn feed(&mut self, b: u8) -> (r: Result<bool, IMAPError>)
        requires
            old(self).wf(),
            !old(self).response().completed,
        ensures
            final(self).wf(),
            final(self).spec_command() == old(self).spec_command(),
            match step_frame(old(self).pending(), b) {
                None => {
                    &&& final(self).pending() == step_pending(old(self).pending(), b)
                    &&& final(self).response() == old(self).response()
                    &&& r == Ok::<bool, IMAPError>(false)
                },
                Some(f) => {
                    if !valid_utf8(f) {
                        &&& final(self).pending() == Seq::<u8>::empty()
                        &&& final(self).response() == old(self).response()
                        &&& (r matches Err(e) && e matches IMAPError::DecodeError(bytes)
                            && bytes@ == f)
                    } else {
                        let text = decode_utf8(f);
                        let lines = final(self).response().lines@;
                        &&& final(self).pending() == Seq::<u8>::empty()
                        &&& line_added(
                            old(self).response(),
                            final(self).response(),
                            old(self).spec_command(),
                            text,
                        )
                        &&& match r {
                            Ok(done) => {
                                &&& done == final(self).response().completed
                                &&& done ==> parse_ok(lines[0].command, lines)
                                &&& done ==> (final(self).response().result matches Some(res)
                                    && result_matches(lines[0].command, lines, res))
                                &&& !done ==> final(self).response().result is None
                            },
                            Err(e) => {
                                &&& final(self).response().completed
                                &&& !parse_ok(lines[0].command, lines)
                                &&& e matches IMAPError::ProtocolError
                            },
                        }
                    }
                },
            },
    {
        match self.framer.push_byte(b) {
            None => Ok(false),
            Some(frame) => {
                match IMAPLine::from_frame(frame, self.command) {
                    Ok(line) => {
                        let r = self.response.add_line(line);
                        proof {
                            assert(self.response.lines@.drop_last() =~= old(
                                self,
                            ).response().lines@);
                        }
                        r
                    },
                    Err(e) => Err(e),
                }
            },
        }
    }

    /// Whether the response has completed.
    pub fn done(&self) -> (r: bool)
        ensures
            r == self.response().completed,
    {
        self.response.completed
    }

    /// Hand the assembled response over.
    pub fn into_response(self) -> (r: IMAPResponse)
        ensures
            r == self.response(),
    {
        self.response
    }
}

} // verus!
