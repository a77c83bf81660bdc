//! Classifying decoded frames as tagged or untagged lines.

use vstd::prelude::*;
use vstd::string::*;
use vstd::utf8::{valid_utf8, decode_utf8};
use crate::command::IMAPCommand;
use crate::error::IMAPError;

verus! {

/// A frame is tagged exactly when it is non-empty and its first character is
/// not the untagged marker `*`.
pub open spec fn spec_tagged(s: Seq<char>) -> bool {
    s.len() > 0 && s[0] != '*'
}

/// One classified line: a decoded frame, its verdict, and the kind of the
/// command it answers.
pub struct IMAPLine {
    pub command: IMAPCommand,
    pub tagged: bool,
    pub raw: String,
}

impl IMAPLine {
    /// The stored verdict is the one the classification rule gives.
    pub open spec fn wf(&self) -> bool {
        self.tagged == spec_tagged(self.raw@)
    }

    /// A line of this kind completes its response: a greeting always does,
    /// every other kind completes on a tagged line.
    pub open spec fn spec_complete(&self) -> bool {
        match self.command {
            IMAPCommand::Greeting => true,
            _ => self.tagged,
        }
    }

    /// Classify one decoded frame under the in-flight command kind.
    pub fn new(bufs: String, cmd: IMAPCommand) -> (line: IMAPLine)
        ensures
            line.wf(),
            line.command == cmd,
            line.raw@ == bufs@,
            line.tagged == spec_tagged(bufs@),
    {
        let n = bufs.as_str().unicode_len();
        let tagged = if n == 0 {
            false
        } else {
            bufs.as_str().get_char(0) != '*'
        };
        IMAPLine { command: cmd, tagged, raw: bufs }
    }

    /// Decode one raw frame and classify it; on a decode failure the bytes are
    /// surfaced so the caller can abort the connection.
    pub fn from_frame(frame: Vec<u8>, cmd: IMAPCommand) -> (r: Result<IMAPLine, IMAPError>)
        ensures
            match r {
                Ok(line) => {
                    &&& valid_utf8(frame@)
                    &&& line.wf()
                    &&& line.command == cmd
                    &&& line.raw@ == decode_utf8(frame@)
                },
                Err(e) => {
                    &&& !valid_utf8(frame@)
                    &&& (e matches IMAPError::DecodeError(b) && b@ == frame@)
                },
            },
    {
        match utf8_to_string(frame) {
            Ok(text) => Ok(IMAPLine::new(text, cmd)),
            Err(bytes) => Err(IMAPError::DecodeError(bytes)),
        }
    }

    /// Whether this line completes its response.
    pub fn is_complete(&self) -> (r: bool)
        ensures
            r == self.spec_complete(),
    {
        match self.command {
            IMAPCommand::Greeting => true,
            _ => self.tagged,
        }
    }
}

/// Relies on `String::from_utf8`: it succeeds with the decoded text exactly
/// when the bytes are valid UTF-8, and `FromUtf8Error::into_bytes` hands the
/// original bytes back otherwise.
#[verifier::external_body]
fn utf8_to_string(bytes: Vec<u8>) -> (r: Result<String, Vec<u8>>)
    ensures
        match r {
            Ok(s) => valid_utf8(bytes@) && s@ == decode_utf8(bytes@),
            Err(b) => !valid_utf8(bytes@) && b@ == bytes@,
        },
{
    match String::from_utf8(bytes) {
        Ok(s) => Ok(s),
        Err(e) => Err(e.into_bytes()),
    }
}

/// A greeting response is complete on its very first line, whatever its
/// tagging.
pub proof fn lemma_greeting_completes_first_line(line: IMAPLine)
    requires
        line.command == IMAPCommand::Greeting,
    ensures
        line.spec_complete(),
{
}

/// Classification is a pure function of the frame text: the same frame always
/// gets the same verdict, however often it is classified.
pub proof fn lemma_classification_deterministic(a: IMAPLine, b: IMAPLine)
    requires
        a.wf(),
        b.wf(),
        a.raw@ == b.raw@,
    ensures
        a.tagged == b.tagged,
{
}

/// The verdict depends on the first character alone.
pub proof fn lemma_classification_first_char(s1: Seq<char>, s2: Seq<char>)
    requires
        s1.len() > 0,
        s2.len() > 0,
        s1[0] == s2[0],
    ensures
        spec_tagged(s1) == spec_tagged(s2),
{
}

} // verus!
