//! Bringing up the background tunnel of a host that another host
//! requires: its `LocalForward` ports are checked, its SSH command is
//! started in the background when none of them is up, and the ports are
//! polled until they answer, the command dies or the time runs out.
//!
//! Probing ports, starting the process and sleeping are the caller's
//! work; each decision is made here from what the caller saw.

use vstd::prelude::*;

use crate::config::TunnelConfig;
use crate::error::{ErrorView, SshxError};
use crate::model::{ForwardModel, HostModel, SSHHost};
use crate::ssh_command::{argv, command_of, texts_view, CommandModel, SSHCommand};

verus! {

/// The local ports the tunnel of `h` opens: those of its forwards, in
/// order.
pub open spec fn tunnel_ports_of(h: HostModel) -> Seq<u16> {
    h.local_forwards.map_values(|f: ForwardModel| f.local_port)
}

/// The command that runs the tunnel of `h`: its SSH command, sent to the
/// background with no remote command (`-f -N`).
pub open spec fn tunnel_command_of(h: HostModel) -> CommandModel {
    CommandModel { background: true, ..command_of(h) }
}

/// Every port is up.
pub open spec fn all_up(up: Seq<bool>) -> bool {
    forall|i: int| 0 <= i < up.len() ==> #[trigger] up[i]
}

/// The first port, from position `i` on, that is up.
pub open spec fn first_up(up: Seq<bool>, i: int) -> Option<int>
    decreases up.len() - i,
{
    if i < 0 || i >= up.len() {
        None
    } else if up[i] {
        Some(i)
    } else {
        first_up(up, i + 1)
    }
}

/// A tunnel's command that has ended other than with success.
pub open spec fn died(exited: Option<Option<i32>>) -> bool {
    match exited {
        Some(c) => c != Some(0i32),
        None => false,
    }
}

/// What to do first about a tunnel.
#[derive(Debug)]
pub enum TunnelStart {
    /// The host forwards no port: there is no tunnel to bring up.
    NothingToDo,
    /// Every port of the tunnel already answers.
    AlreadyUp,
    /// Start this command in the background, then poll.
    Spawn(Vec<String>),
}

/// What to do while a started tunnel comes up.
#[derive(Debug)]
pub enum TunnelPoll {
    /// Every port answers: the tunnel is up.
    Ready,
    /// Wait this many milliseconds, then look again.
    Wait(u64),
}

/// The local ports of the forwards of `jump`, in order.
pub fn tunnel_ports(jump: &SSHHost) -> (r: Vec<u16>)
    ensures
        r@ == tunnel_ports_of(jump@),
{
    let mut r: Vec<u16> = Vec::new();
    let n = jump.local_forwards.len();
    for i in 0..n
        invariant
            n == jump.local_forwards@.len(),
            r@ == tunnel_ports_of(jump@).take(i as int),
    {
        assert(jump@.local_forwards[i as int] == jump.local_forwards@[i as int]@);
        r.push(jump.local_forwards[i].local_port);
        assert(tunnel_ports_of(jump@).take(i + 1) =~= tunnel_ports_of(jump@).take(i as int).push(
            jump.local_forwards@[i as int].local_port,
        ));
    }
    assert(tunnel_ports_of(jump@).take(n as int) =~= tunnel_ports_of(jump@));
    r
}

proof fn lemma_first_up(up: Seq<bool>, i: int)
    requires
        0 <= i,
    ensures
        match first_up(up, i) {
            Some(p) => i <= p < up.len() && up[p] && forall|q: int| i <= q < p ==> !up[q],
            None => forall|q: int| i <= q < up.len() ==> !up[q],
        },
    decreases up.len() - i,
{
    if i < up.len() && !up[i] {
        lemma_first_up(up, i + 1);
    }
}

/// The first step of bringing up the tunnel of `jump`, given which of its
/// ports (`tunnel_ports`) already answer: nothing to do without forwards;
/// nothing either when every port answers; a port that answers while
/// others do not is taken by something else; when none answers, the
/// tunnel's command is to be started.
pub fn tunnel_start(jump: &SSHHost, up: &Vec<bool>) -> (r: Result<TunnelStart, SshxError>)
    requires
        up@.len() == jump.local_forwards@.len(),
    ensures
        jump.local_forwards@.len() == 0 ==> r matches Ok(TunnelStart::NothingToDo),
        jump.local_forwards@.len() > 0 && all_up(up@) ==> r matches Ok(TunnelStart::AlreadyUp),
        jump.local_forwards@.len() > 0 && !all_up(up@) ==> match first_up(up@, 0) {
            Some(i) => r matches Err(e) && e@ == (ErrorView::TunnelPortBusy {
                port: tunnel_ports_of(jump@)[i],
            }),
            None => r matches Ok(TunnelStart::Spawn(parts)) && texts_view(parts@) == argv(
                tunnel_command_of(jump@),
            ),
        },
{
    let n = up.len();
    if n == 0 {
        return Ok(TunnelStart::NothingToDo);
    }
    let mut all = true;
    let mut first: Option<usize> = None;
    proof {
        lemma_first_up(up@, 0);
    }
    for i in 0..n
        invariant
            n == up@.len(),
            all <==> forall|q: int| 0 <= q < i ==> up@[q],
            match first {
                Some(p) => p < i && first_up(up@, 0) == Some(p as int),
                None => forall|q: int| 0 <= q < i ==> !up@[q],
            },
            match first_up(up@, 0) {
                Some(p) => 0 <= p < up@.len() && up@[p] && forall|q: int| 0 <= q < p ==> !up@[q],
                None => forall|q: int| 0 <= q < up@.len() ==> !up@[q],
            },
    {
        if up[i] {
            if first.is_none() {
                first = Some(i);
            }
        } else {
            all = false;
        }
    }
    if all {
        return Ok(TunnelStart::AlreadyUp);
    }
    match first {
        Some(p) => {
            assert(jump@.local_forwards[p as int] == jump.local_forwards@[p as int]@);
            Err(SshxError::TunnelPortBusy { port: jump.local_forwards[p].local_port })
        },
        None => {
            let mut cmd = SSHCommand::from_host(jump);
            cmd.background = true;
            assert(cmd@ == tunnel_command_of(jump@));
            Ok(TunnelStart::Spawn(cmd.build_parts()))
        },
    }
}

/// The error when the tunnel's command of `jump` could not be started.
pub fn tunnel_spawn_failed(jump: &SSHHost, reason: String) -> (e: SshxError)
    ensures
        e@ == (ErrorView::TunnelSpawnFailed { jump_host: jump.name@, reason: reason@ }),
{
    SshxError::TunnelSpawnFailed { jump_host: jump.name.clone(), reason }
}

/// A look at a tunnel being brought up, `elapsed_ms` after its command
/// was started: `exited` tells whether the command has ended (with its
/// exit code if it has one) and `up` which ports answer. The tunnel is up
/// when every port answers. Else a command that ended other than with
/// success (sent to the background, it ends with 0) died early; else the
/// time allowed (`connect_timeout_s`) may be over; else wait the check
/// interval and look again.
pub fn tunnel_poll(
    jump: &SSHHost,
    cfg: &TunnelConfig,
    elapsed_ms: u64,
    exited: Option<Option<i32>>,
    up: &Vec<bool>,
) -> (r: Result<TunnelPoll, SshxError>)
    ensures
        all_up(up@) ==> r matches Ok(TunnelPoll::Ready),
        !all_up(up@) && died(exited) ==> (r matches Err(e) && e@ == (ErrorView::TunnelDiedEarly {
            jump_host: jump.name@,
            exit_code: exited->Some_0,
        })),
        !all_up(up@) && !died(exited) && elapsed_ms >= cfg.connect_timeout_s * 1000 ==> (r matches Err(e)
            && e@ == (ErrorView::TunnelTimeout { jump_host: jump.name@, timeout_s: cfg.connect_timeout_s })),
        !all_up(up@) && !died(exited) && elapsed_ms < cfg.connect_timeout_s * 1000 ==> (r matches Ok(
            TunnelPoll::Wait(ms),
        ) && ms == cfg.check_interval_ms),
{
    let mut all = true;
    for i in 0..up.len()
        invariant
            all <==> forall|q: int| 0 <= q < i ==> up@[q],
    {
        if !up[i] {
            all = false;
        }
    }
    if all {
        return Ok(TunnelPoll::Ready);
    }
    match exited {
        Some(c) => {
            let ok = match c {
                Some(code) => code == 0,
                None => false,
            };
            if !ok {
                return Err(SshxError::TunnelDiedEarly { jump_host: jump.name.clone(), exit_code: c });
            }
        },
        None => {},
    }
    let t = cfg.connect_timeout_s;
    let over = if t > u64::MAX / 1000 {
        assert(t * 1000 > u64::MAX) by (nonlinear_arith)
            requires
                t > u64::MAX / 1000,
        ;
        false
    } else {
        assert(t * 1000 <= u64::MAX) by (nonlinear_arith)
            requires
                t <= u64::MAX / 1000,
        ;
        elapsed_ms >= t * 1000
    };
    if over {
        Err(SshxError::TunnelTimeout { jump_host: jump.name.clone(), timeout_s: t })
    } else {
        Ok(TunnelPoll::Wait(cfg.check_interval_ms))
    }
}

} // verus!
