//! Commands that arrive over the network, and powering the machine off.

use crate::invocation::Invocation;
use crate::number;
use crate::text;
use crate::utf8;
use vstd::prelude::*;

verus! {

/// What a received command asks for.
#[derive(Clone, Copy, PartialEq, Eq, Structural, Debug)]
pub enum Action {
    /// Nothing.
    Ignore,
    /// Power the machine off.
    Shutdown,
    /// Hand the command to the shell.
    Execute,
}

/// A received command.
pub struct Command {
    /// The command without the white space around it.
    pub text: String,
    /// What it asks for.
    pub action: Action,
}

/// What a command asks for: nothing where it is empty, to power off where it is `SHUTDOWN` in any
/// case, and otherwise to be run.
pub open spec fn action_of(command: Seq<char>) -> Action {
    if command.len() == 0 {
        Action::Ignore
    } else if text::lowered(command) == "shutdown"@ {
        Action::Shutdown
    } else {
        Action::Execute
    }
}

/// The command in a received text.
pub fn command_from_text(received: &str) -> (command: Command)
    ensures
        command.text@ == text::trimmed(received@),
        command.action == action_of(command.text@),
        command.action == Action::Ignore <==> command.text@.len() == 0,
        command.action == Action::Shutdown <==> number::is_spelled(
            command.text@,
            "shutdown"@,
            "SHUTDOWN"@,
        ),
{
    let inner = text::trim(received);
    proof {
        lemma_actions(inner@);
        reveal_strlit("SHUTDOWN");
        reveal_strlit("shutdown");
        assert(text::lowered("SHUTDOWN"@) =~= "shutdown"@);
    }
    let action = if inner.is_empty() {
        Action::Ignore
    } else if text::same_but_for_case(inner, "SHUTDOWN") {
        Action::Shutdown
    } else {
        Action::Execute
    };
    Command { text: inner.to_owned(), action }
}

/// The command in the bytes that a peer sent until it closed the connection. Bytes that are not
/// UTF-8 are read with replacement characters, and are then never an order to power off.
pub fn command_from_bytes(received: &[u8]) -> (command: Command)
    ensures
        command.text@ == text::trimmed(utf8::lossy_text(received@)),
        command.action == action_of(command.text@),
        vstd::utf8::valid_utf8(received@) ==> command.text@ == text::trimmed(
            vstd::utf8::decode_utf8(received@),
        ),
        !vstd::utf8::valid_utf8(received@) ==> command.action == Action::Execute,
        command.action == Action::Ignore <==> command.text@.len() == 0,
        command.action == Action::Shutdown <==> number::is_spelled(
            command.text@,
            "shutdown"@,
            "SHUTDOWN"@,
        ),
{
    let decoded = utf8::decode_lossy(received);
    proof {
        if !vstd::utf8::valid_utf8(received@) {
            lemma_replacement_is_executed(decoded@);
        }
    }
    command_from_text(decoded.as_str())
}

/// An order to power off is recognised in any case and with any white space around it.
pub proof fn lemma_shutdown_recognised(lead: Seq<char>, word: Seq<char>, trail: Seq<char>)
    requires
        forall|i: int| 0 <= i < lead.len() ==> text::is_white(#[trigger] lead[i]),
        text::lowered(word) == "shutdown"@,
        forall|i: int| 0 <= i < trail.len() ==> text::is_white(#[trigger] trail[i]),
    ensures
        action_of(text::trimmed(lead + word + trail)) == Action::Shutdown,
{
    reveal_strlit("shutdown");
    assert(text::lowered(word).len() == word.len());
    assert(text::lowered(word)[0] == text::ascii_lower(word[0]));
    assert(text::lowered(word)[7] == text::ascii_lower(word[7]));
    text::lemma_trimmed(lead, word, trail);
}

/// A text with a replacement character in it is neither empty nor an order to power off.
proof fn lemma_replacement_is_executed(received: Seq<char>)
    requires
        received.contains('\u{fffd}'),
    ensures
        action_of(text::trimmed(received)) == Action::Execute,
{
    let inner = text::trimmed(received);
    let at = received.index_of('\u{fffd}');
    text::lemma_trimmed_keeps(received, at);
    let i = inner.index_of('\u{fffd}');
    reveal_strlit("shutdown");
    assert("shutdown"@ =~= seq!['s', 'h', 'u', 't', 'd', 'o', 'w', 'n']);
    assert(text::lowered(inner)[i] == '\u{fffd}');
}

/// The shell running a command.
pub fn shell(command: &str) -> (invocation: Invocation)
    ensures
        invocation@ == ("sh"@, seq!["-c"@, command@]),
{
    let invocation = Invocation::new("sh").arg("-c").arg(command);
    assert(invocation@.1 =~= seq!["-c"@, command@]);
    invocation
}

/// The ways to power the machine off, in the order in which they are tried: the service manager,
/// the `shutdown` program, the same through sudo without a password, and last the user's session.
pub open spec fn shutdown_attempts() -> Seq<(Seq<char>, Seq<Seq<char>>)> {
    seq![
        ("systemctl"@, seq!["poweroff"@]),
        ("shutdown"@, seq!["-h"@, "now"@]),
        ("sudo"@, seq!["-n"@, "shutdown"@, "-h"@, "now"@]),
        ("loginctl"@, seq!["poweroff"@]),
    ]
}

/// The number of ways to power the machine off.
pub const SHUTDOWN_ATTEMPTS: usize = 4;

/// The way to power the machine off that has the given number, counted from zero.
pub fn shutdown_attempt(attempt: usize) -> (invocation: Option<Invocation>)
    ensures
        match invocation {
            Some(invocation) => attempt < shutdown_attempts().len() && invocation@
                == shutdown_attempts()[attempt as int],
            None => attempt >= shutdown_attempts().len(),
        },
        invocation is Some <==> attempt < 4,
        attempt == 0 ==> invocation->0@ == ("systemctl"@, seq!["poweroff"@]),
        attempt == 1 ==> invocation->0@ == ("shutdown"@, seq!["-h"@, "now"@]),
        attempt == 2 ==> invocation->0@ == ("sudo"@, seq!["-n"@, "shutdown"@, "-h"@, "now"@]),
        attempt == 3 ==> invocation->0@ == ("loginctl"@, seq!["poweroff"@]),
{
    let invocation = match attempt {
        0 => Invocation::new("systemctl").arg("poweroff"),
        1 => Invocation::new("shutdown").arg("-h").arg("now"),
        2 => Invocation::new("sudo").arg("-n").arg("shutdown").arg("-h").arg("now"),
        3 => Invocation::new("loginctl").arg("poweroff"),
        _ => {
            return None;
        },
    };
    assert(invocation@.1 =~= shutdown_attempts()[attempt as int].1);
    Some(invocation)
}

/// How far powering the machine off has come.
#[derive(Clone, Copy, PartialEq, Eq, Structural, Debug)]
pub enum Shutdown {
    /// The attempt with this number is the one to make.
    Trying(usize),
    /// The attempt with this number has succeeded, and no other is made.
    Accepted(usize),
    /// Every attempt has failed.
    Refused,
}

impl Shutdown {
    /// Whether the attempt that the state names exists.
    pub open spec fn wf(self) -> bool {
        match self {
            Shutdown::Trying(i) => i < SHUTDOWN_ATTEMPTS,
            Shutdown::Accepted(i) => i < SHUTDOWN_ATTEMPTS,
            Shutdown::Refused => true,
        }
    }

    /// The state after the attempt to make has or has not succeeded.
    pub open spec fn after(self, success: bool) -> Shutdown {
        match self {
            Shutdown::Trying(i) => if success {
                Shutdown::Accepted(i)
            } else if i + 1 < SHUTDOWN_ATTEMPTS {
                Shutdown::Trying((i + 1) as usize)
            } else {
                Shutdown::Refused
            },
            _ => self,
        }
    }

    /// The state after a series of attempts.
    pub open spec fn after_all(self, successes: Seq<bool>) -> Shutdown
        decreases successes.len(),
    {
        if successes.len() == 0 {
            self
        } else {
            self.after(successes[0]).after_all(successes.drop_first())
        }
    }

    /// The state before any attempt.
    pub fn start() -> (state: Shutdown)
        ensures
            state == Shutdown::Trying(0),
            state.wf(),
    {
        Shutdown::Trying(0)
    }

    /// The state after the attempt to make has or has not succeeded: a success ends the search, a
    /// failure leads to the next attempt.
    pub fn next(self, success: bool) -> (state: Shutdown)
        ensures
            state == self.after(success),
            self.wf() ==> state.wf(),
            self !is Trying ==> state == self,
            self matches Shutdown::Trying(i) ==> (success ==> state == Shutdown::Accepted(i)),
            self matches Shutdown::Trying(i) ==> (!success && i < 3 ==> state == Shutdown::Trying(
                (i + 1) as usize,
            )),
            self matches Shutdown::Trying(i) ==> (!success && i >= 3 ==> state == Shutdown::Refused),
    {
        match self {
            Shutdown::Trying(i) => if success {
                Shutdown::Accepted(i)
            } else if i < SHUTDOWN_ATTEMPTS - 1 {
                Shutdown::Trying(i + 1)
            } else {
                Shutdown::Refused
            },
            _ => self,
        }
    }
}

/// The attempts are made in order until one succeeds: the accepted attempt is the first that
/// succeeds, and the shutdown is refused exactly where each of them fails.
pub proof fn lemma_shutdown_order(successes: Seq<bool>)
    requires
        successes.len() == shutdown_attempts().len(),
    ensures
        match Shutdown::Trying(0).after_all(successes) {
            Shutdown::Trying(_) => false,
            Shutdown::Accepted(i) => i < successes.len() && successes[i as int] && forall|j: int|
                0 <= j < i ==> !successes[j],
            Shutdown::Refused => forall|j: int| 0 <= j < successes.len() ==> !successes[j],
        },
{
    lemma_shutdown_order_from(0, successes);
}

proof fn lemma_shutdown_order_from(i: usize, successes: Seq<bool>)
    requires
        i < SHUTDOWN_ATTEMPTS,
        successes.len() == SHUTDOWN_ATTEMPTS - i,
    ensures
        match Shutdown::Trying(i).after_all(successes) {
            Shutdown::Trying(_) => false,
            Shutdown::Accepted(k) => i <= k < SHUTDOWN_ATTEMPTS && successes[k - i] && forall|j: int|
                0 <= j < k - i ==> !successes[j],
            Shutdown::Refused => forall|j: int| 0 <= j < successes.len() ==> !successes[j],
        },
    decreases successes.len(),
{
    let rest = successes.drop_first();
    let state = Shutdown::Trying(i).after(successes[0]);
    if let Shutdown::Trying(next) = state {
        lemma_shutdown_order_from(next, rest);
        assert(forall|j: int| 0 < j < successes.len() ==> #[trigger] successes[j] == rest[j - 1]);
    } else {
        lemma_shutdown_settled(state, rest);
    }
}

/// Once an attempt has succeeded, or all have failed, nothing changes any more.
pub proof fn lemma_shutdown_settled(state: Shutdown, successes: Seq<bool>)
    requires
        state !is Trying,
    ensures
        state.after_all(successes) == state,
    decreases successes.len(),
{
    if successes.len() > 0 {
        lemma_shutdown_settled(state, successes.drop_first());
    }
}

/// What is left of a received text without the white space around it decides: nothing is ignored,
/// the eight letters of `SHUTDOWN`, each in either case, power the machine off, and anything else
/// is run as it is.
pub proof fn lemma_received(lead: Seq<char>, core: Seq<char>, trail: Seq<char>)
    requires
        forall|i: int| 0 <= i < lead.len() ==> text::is_white(#[trigger] lead[i]),
        core.len() > 0 ==> !text::is_white(core[0]) && !text::is_white(core.last()),
        forall|i: int| 0 <= i < trail.len() ==> text::is_white(#[trigger] trail[i]),
    ensures
        text::trimmed(lead + core + trail) == core,
        action_of(core) == Action::Ignore <==> core.len() == 0,
        action_of(core) == Action::Shutdown <==> number::is_spelled(
            core,
            "shutdown"@,
            "SHUTDOWN"@,
        ),
{
    lemma_actions(core);
    if core.len() > 0 {
        text::lemma_trimmed(lead, core, trail);
    } else {
        let s = lead + core + trail;
        assert forall|i: int| 0 <= i < s.len() implies text::is_white(#[trigger] s[i]) by {
            if i < lead.len() {
                assert(s[i] == lead[i]);
            } else {
                assert(s[i] == trail[i - lead.len()]);
            }
        }
        text::lemma_trimmed_blank(s);
        assert(core =~= Seq::<char>::empty());
    }
}

proof fn lemma_actions(command: Seq<char>)
    ensures
        action_of(command) == Action::Ignore <==> command.len() == 0,
        action_of(command) == Action::Shutdown <==> number::is_spelled(
            command,
            "shutdown"@,
            "SHUTDOWN"@,
        ),
{
    reveal_strlit("shutdown");
    reveal_strlit("SHUTDOWN");
    number::lemma_spelled_lowered(command, "shutdown"@, "SHUTDOWN"@);
}

/// The attempts to power the machine off, one by one.
pub proof fn lemma_attempts()
    ensures
        shutdown_attempts().len() == 4,
        shutdown_attempts()[0] == ("systemctl"@, seq!["poweroff"@]),
        shutdown_attempts()[1] == ("shutdown"@, seq!["-h"@, "now"@]),
        shutdown_attempts()[2] == ("sudo"@, seq!["-n"@, "shutdown"@, "-h"@, "now"@]),
        shutdown_attempts()[3] == ("loginctl"@, seq!["poweroff"@]),
{
}

} // verus!
