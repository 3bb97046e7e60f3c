//! The child-process supervisor's decision core: command parsing, the
//! respawn counter with its cap, signal dispatch, and the zombie-reaping
//! step. The blocking spawn-wait loop and the signal plumbing live in the
//! unverified shell and drive these functions with plain values.

use vstd::prelude::*;
use vstd::string::StrSliceExecFns;

verus! {

/// How many times an exited child is respawned before the supervisor
/// gives up and aborts the whole gasket.
pub const MAX_SPAWNS: u32 = 5;

/// How long the supervisor sleeps between a child's exit and its respawn.
pub const CLEANUP_DELAY_MS: u64 = 1000;

/// Whether `c` separates command-line words.
pub open spec fn spec_is_ws(c: char) -> bool {
    c == ' ' || c == '\t' || c == '\n' || c == '\r'
}

/// Splitting `s` into whitespace-separated words, `cur` being the word
/// read so far.
pub open spec fn spec_split_acc(s: Seq<char>, cur: Seq<char>) -> Seq<Seq<char>>
    decreases s.len(),
{
    if s.len() == 0 {
        if cur.len() == 0 {
            Seq::empty()
        } else {
            seq![cur]
        }
    } else if spec_is_ws(s[0]) {
        (if cur.len() == 0 {
            Seq::<Seq<char>>::empty()
        } else {
            seq![cur]
        }) + spec_split_acc(s.drop_first(), Seq::empty())
    } else {
        spec_split_acc(s.drop_first(), cur.push(s[0]))
    }
}

/// The whitespace-separated words of `s`, in order, without empties.
pub open spec fn spec_split_ws(s: Seq<char>) -> Seq<Seq<char>> {
    spec_split_acc(s, Seq::empty())
}

/// Split `cmd` into whitespace-separated words.
pub fn split_whitespace(cmd: &str) -> (tokens: Vec<String>)
    ensures
        tokens.deep_view() == spec_split_ws(cmd@),
{
    let n = cmd.unicode_len();
    let mut out: Vec<String> = Vec::new();
    let mut start: usize = 0;
    let mut i: usize = 0;
    proof {
        assert(cmd@.subrange(0, n as int) =~= cmd@);
        assert(cmd@.subrange(0, 0) =~= Seq::<char>::empty());
    }
    while i < n
        invariant
            start <= i <= n,
            n == cmd@.len(),
            forall|j: int| start <= j < i ==> !spec_is_ws(#[trigger] cmd@[j]),
            out.deep_view() + spec_split_acc(
                cmd@.subrange(i as int, n as int),
                cmd@.subrange(start as int, i as int),
            ) == spec_split_ws(cmd@),
        decreases n - i,
    {
        let ghost rem = cmd@.subrange(i as int, n as int);
        let ghost cur = cmd@.subrange(start as int, i as int);
        proof {
            assert(rem[0] == cmd@[i as int]);
            assert(rem.drop_first() =~= cmd@.subrange(i + 1, n as int));
        }
        let c = cmd.get_char(i);
        let ws = c == ' ' || c == '\t' || c == '\n' || c == '\r';
        if ws {
            if start < i {
                let tok = cmd.substring_char(start, i).to_owned();
                proof {
                    assert((out@.push(tok)).map(|k: int, v: String| v@) =~= out@.map(
                        |k: int, v: String| v@,
                    ).push(tok@));
                    assert(out.deep_view().push(cur) + spec_split_acc(
                        rem.drop_first(),
                        Seq::empty(),
                    ) =~= out.deep_view() + (seq![cur] + spec_split_acc(
                        rem.drop_first(),
                        Seq::empty(),
                    )));
                }
                out.push(tok);
            } else {
                proof {
                    assert(cur.len() == 0);
                    assert(out.deep_view() + (Seq::<Seq<char>>::empty() + spec_split_acc(
                        rem.drop_first(),
                        Seq::empty(),
                    )) =~= out.deep_view() + spec_split_acc(rem.drop_first(), Seq::empty()));
                }
            }
            start = i + 1;
            proof {
                assert(cmd@.subrange(start as int, start as int) =~= Seq::<char>::empty());
            }
        } else {
            proof {
                assert(cur.push(cmd@[i as int]) =~= cmd@.subrange(start as int, i + 1));
            }
        }
        i = i + 1;
    }
    let ghost cur = cmd@.subrange(start as int, n as int);
    proof {
        assert(cmd@.subrange(n as int, n as int) =~= Seq::<char>::empty());
        assert(spec_split_acc(Seq::<char>::empty(), cur) == (if cur.len() == 0 {
            Seq::<Seq<char>>::empty()
        } else {
            seq![cur]
        }));
    }
    if start < n {
        let tok = cmd.substring_char(start, n).to_owned();
        proof {
            assert((out@.push(tok)).map(|k: int, v: String| v@) =~= out@.map(
                |k: int, v: String| v@,
            ).push(tok@));
            assert(out.deep_view().push(cur) =~= out.deep_view() + seq![cur]);
        }
        out.push(tok);
    } else {
        proof {
            assert(out.deep_view() + Seq::<Seq<char>>::empty() =~= out.deep_view());
        }
    }
    out
}

/// Parse the configured command line: the first whitespace-separated word
/// is the program, the rest are its arguments. A command with no words
/// (empty or all whitespace) leaves the supervisor inert.
pub fn parse_command(cmd: &str) -> (r: Option<(String, Vec<String>)>)
    ensures
        (match r {
            Some(pair) => {
                &&& spec_split_ws(cmd@).len() >= 1
                &&& pair.0@ == spec_split_ws(cmd@)[0]
                &&& pair.1.deep_view() == spec_split_ws(cmd@).drop_first()
            },
            None => spec_split_ws(cmd@).len() == 0,
        }),
{
    let mut tokens = split_whitespace(cmd);
    proof {
        assert(tokens.deep_view().len() == tokens@.len());
    }
    if tokens.len() == 0 {
        None
    } else {
        let ghost before = tokens@;
        let program = tokens.remove(0);
        proof {
            assert(tokens@ =~= before.drop_first());
            assert(tokens.deep_view() =~= before.map(|k: int, v: String| v@).drop_first());
        }
        Some((program, tokens))
    }
}

/// What the supervisor does after a child exit: respawn after the cleanup
/// delay, or abort the whole gasket.
#[derive(PartialEq, Eq, Structural, Clone, Copy, Debug)]
pub enum SupervisorAction {
    Respawn { delay_ms: u64 },
    Abort { exit_code: i32 },
}

/// The supervisor's own state: the backend port handed to the child, the
/// respawn cap, and how often the child has exited so far.
pub struct StaticProcessManager {
    /// The port the child is told to listen on (the inbound port plus one).
    pub port: u32,
    /// The respawn cap.
    pub max_spawns: u32,
    /// The gasket process's own PID.
    pub self_pid: u32,
    /// The configured command line; empty means no child.
    pub cmd: String,
    /// How often the child has exited (and been respawned) so far.
    pub respawn_counter: u32,
}

impl StaticProcessManager {
    /// A fresh supervisor: the child's port is the inbound port plus one,
    /// the cap is fixed, and no exit has been seen.
    pub fn new(cmd: String, env_port: u32, self_pid: u32) -> (s: Self)
        requires
            env_port < u32::MAX,
        ensures
            s.port == env_port + 1,
            s.max_spawns == MAX_SPAWNS,
            s.self_pid == self_pid,
            s.cmd == cmd,
            s.respawn_counter == 0,
    {
        StaticProcessManager {
            port: env_port + 1,
            max_spawns: MAX_SPAWNS,
            self_pid,
            cmd,
            respawn_counter: 0,
        }
    }

    /// Law: the respawn counter strictly increases on every child exit,
    /// and once it exceeds the cap the supervisor aborts the whole gasket
    /// with exit code -1. With the cap at 5, the sixth exit aborts.
    pub fn on_child_exit(&mut self) -> (action: SupervisorAction)
        requires
            old(self).respawn_counter < u32::MAX,
        ensures
            final(self).respawn_counter == old(self).respawn_counter + 1,
            final(self).port == old(self).port,
            final(self).max_spawns == old(self).max_spawns,
            final(self).self_pid == old(self).self_pid,
            final(self).cmd == old(self).cmd,
            action == (if final(self).respawn_counter > final(self).max_spawns {
                (SupervisorAction::Abort { exit_code: -1i32 })
            } else {
                (SupervisorAction::Respawn { delay_ms: CLEANUP_DELAY_MS })
            }),
    {
        self.respawn_counter = self.respawn_counter + 1;
        if self.respawn_counter > self.max_spawns {
            SupervisorAction::Abort { exit_code: -1 }
        } else {
            SupervisorAction::Respawn { delay_ms: CLEANUP_DELAY_MS }
        }
    }
}

/// The signals the supervisor subscribes to.
#[derive(PartialEq, Eq, Structural, Clone, Copy, Debug)]
pub enum Signal {
    Hup,
    Int,
    Term,
    Quit,
    Child,
}

/// What the signal handler does, after reaping: log, or forward a signal
/// to the child.
#[derive(PartialEq, Eq, Structural, Clone, Copy, Debug)]
pub enum SignalAction {
    LogOnly,
    ForwardInt,
    ForwardTerm,
}

/// How each subscribed signal is dispatched: a child-exit notification and
/// a hangup are only logged; an interrupt is forwarded as an interrupt;
/// terminate and quit are both forwarded as terminate.
pub fn signal_action(s: Signal) -> (a: SignalAction)
    ensures
        a == (match s {
            Signal::Hup => SignalAction::LogOnly,
            Signal::Child => SignalAction::LogOnly,
            Signal::Int => SignalAction::ForwardInt,
            Signal::Term => SignalAction::ForwardTerm,
            Signal::Quit => SignalAction::ForwardTerm,
        }),
{
    match s {
        Signal::Hup => SignalAction::LogOnly,
        Signal::Child => SignalAction::LogOnly,
        Signal::Int => SignalAction::ForwardInt,
        Signal::Term => SignalAction::ForwardTerm,
        Signal::Quit => SignalAction::ForwardTerm,
    }
}

/// Whether the zombie-reaping loop goes on.
#[derive(PartialEq, Eq, Structural, Clone, Copy, Debug)]
pub enum ReapDecision {
    /// The awaited child was reaped: done.
    TargetReaped,
    /// No more exited children to reap: stop.
    NoMoreChildren,
    /// Some other child was reaped: keep going.
    KeepReaping,
}

/// One step of the reaping loop, given what the non-blocking wait
/// returned: the target PID ends the loop; zero or an error means no more
/// children; any other PID was a different zombie.
pub fn reaper_step(reaped: i32, target: i32) -> (d: ReapDecision)
    ensures
        d == (if reaped == target {
            ReapDecision::TargetReaped
        } else if reaped <= 0 {
            ReapDecision::NoMoreChildren
        } else {
            ReapDecision::KeepReaping
        }),
{
    if reaped == target {
        ReapDecision::TargetReaped
    } else if reaped <= 0 {
        ReapDecision::NoMoreChildren
    } else {
        ReapDecision::KeepReaping
    }
}

} // verus!
