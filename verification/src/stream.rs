//! Per-connection protocol state: the monotonically increasing command tag
//! and the connected / authenticated / selected flags.
//!
//! The transport itself is a collaborator outside this crate: whoever owns the
//! socket issues a command here to obtain its tag, sends the command line,
//! assembles the response, and feeds the typed result back to update the
//! flags.

use vstd::prelude::*;
use crate::command::IMAPCommand;
use crate::parser::IMAPResult;

verus! {

/// One connection's protocol state.
pub struct IMAPStream {
    pub host: &'static str,
    pub port: u16,
    pub connected: bool,
    pub authenticated: bool,
    pub selected: bool,
    pub tag: u64,
    pub last_command: IMAPCommand,
}

/// The states in which a command kind may be issued: login and authenticate
/// need a connection, select and examine an authenticated one, fetch also a
/// selected folder, logout an authenticated one.
pub open spec fn may_issue(s: IMAPStream, cmd: IMAPCommand) -> bool {
    match cmd {
        IMAPCommand::Greeting => true,
        IMAPCommand::Login | IMAPCommand::Authenticate => s.connected,
        IMAPCommand::Select | IMAPCommand::Examine => s.authenticated,
        IMAPCommand::Fetch => s.authenticated && s.selected,
        IMAPCommand::Logout => s.authenticated,
    }
}

/// The result shape each command kind expects back; anything else is a
/// driving error the caller must rule out.
pub open spec fn result_shape_ok(cmd: IMAPCommand, r: IMAPResult) -> bool {
    match cmd {
        IMAPCommand::Greeting => r matches IMAPResult::IMAPOk,
        IMAPCommand::Login | IMAPCommand::Authenticate => r matches IMAPResult::IMAPOk || r
            matches IMAPResult::IMAPNo || r matches IMAPResult::IMAPBad,
        IMAPCommand::Select | IMAPCommand::Examine => r matches IMAPResult::IMAPFolder { .. },
        IMAPCommand::Fetch => r matches IMAPResult::IMAPMessage { .. },
        IMAPCommand::Logout => true,
    }
}

/// One issue step: the command got the tag `t` and the counter moved past it.
pub open spec fn issued(pre: IMAPStream, post: IMAPStream, t: u64) -> bool {
    t == pre.tag && post.tag == pre.tag + 1
}

impl IMAPStream {
    /// A fresh, unconnected stream for one server; the first command will get
    /// tag 1.
    pub fn new(host: &'static str, port: u16) -> (s: IMAPStream)
        ensures
            s.host@ == host@,
            s.port == port,
            !s.connected,
            !s.authenticated,
            !s.selected,
            s.tag == 1,
            s.last_command matches IMAPCommand::Greeting,
    {
        IMAPStream {
            host,
            port,
            connected: false,
            authenticated: false,
            selected: false,
            tag: 1,
            last_command: IMAPCommand::Greeting,
        }
    }

    /// Issue one command: hand out the current tag and move the counter past
    /// it, so every issued command gets a strictly greater tag than the one
    /// before.  The caller sends the command line and reads the response
    /// under the returned tag.
    pub fn issue(&mut self, cmd: IMAPCommand) -> (t: u64)
        requires
            may_issue(*old(self), cmd),
            old(self).tag < u64::MAX,
        ensures
            issued(*old(self), *final(self), t),
            final(self).last_command == cmd,
            final(self).host@ == old(self).host@,
            final(self).port == old(self).port,
            final(self).connected == old(self).connected,
            final(self).authenticated == old(self).authenticated,
            final(self).selected == old(self).selected,
    {
        let t = self.tag;
        self.tag = self.tag + 1;
        self.last_command = cmd;
        t
    }

    /// Feed one command's typed result back into the flags: login and
    /// authenticate set the authenticated flag exactly on an OK status,
    /// select and examine mark a folder selected, everything else leaves the
    /// flags alone.
    pub fn apply_result(&mut self, cmd: IMAPCommand, res: &IMAPResult)
        requires
            result_shape_ok(cmd, *res),
        ensures
            final(self).authenticated == (match cmd {
                IMAPCommand::Login | IMAPCommand::Authenticate => *res matches IMAPResult::IMAPOk,
                _ => old(self).authenticated,
            }),
            final(self).selected == (match cmd {
                IMAPCommand::Select | IMAPCommand::Examine => true,
                _ => old(self).selected,
            }),
            final(self).connected == old(self).connected,
            final(self).host@ == old(self).host@,
            final(self).port == old(self).port,
            final(self).tag == old(self).tag,
            final(self).last_command == old(self).last_command,
    {
        match cmd {
            IMAPCommand::Login | IMAPCommand::Authenticate => {
                self.authenticated = match res {
                    IMAPResult::IMAPOk => true,
                    _ => false,
                };
            },
            IMAPCommand::Select | IMAPCommand::Examine => {
                self.selected = true;
            },
            _ => {},
        }
    }

    /// End the session: the caller sends the logout line under the returned
    /// tag.  The stream state returns toward the merely-connected state — the
    /// authenticated and selected flags are cleared — and the tag counter is
    /// reset so the next session starts again at 1.
    pub fn logout(&mut self) -> (t: u64)
        requires
            old(self).authenticated,
        ensures
            t == old(self).tag,
            final(self).tag == 1,
            final(self).last_command matches IMAPCommand::Logout,
            final(self).host@ == old(self).host@,
            final(self).port == old(self).port,
            final(self).connected == old(self).connected,
            !final(self).authenticated,
            !final(self).selected,
    {
        let t = self.tag;
        self.tag = 1;
        self.last_command = IMAPCommand::Logout;
        self.authenticated = false;
        self.selected = false;
        t
    }

    /// Force the disconnected state: after a transport loss or a decode
    /// failure the line framing cannot be resynchronised, so the connection
    /// is abandoned, every flag is cleared and any outstanding response must
    /// be discarded by the caller.
    pub fn disconnect(&mut self)
        ensures
            !final(self).connected,
            !final(self).authenticated,
            !final(self).selected,
            final(self).tag == old(self).tag,
            final(self).last_command == old(self).last_command,
            final(self).host@ == old(self).host@,
            final(self).port == old(self).port,
    {
        self.connected = false;
        self.authenticated = false;
        self.selected = false;
    }
}

/// Tag monotonicity: three commands issued in sequence on one connection get
/// strictly increasing tags.  (That a logout resets the next tag to 1 is the
/// ensures of `IMAPStream::logout` itself.)
pub proof fn lemma_tag_monotonic(
    s0: IMAPStream,
    s1: IMAPStream,
    s2: IMAPStream,
    s3: IMAPStream,
    t1: u64,
    t2: u64,
    t3: u64,
)
    requires
        issued(s0, s1, t1),
        issued(s1, s2, t2),
        issued(s2, s3, t3),
    ensures
        t1 < t2 < t3,
{
}

} // verus!
