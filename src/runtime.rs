//! The process's graph runtime: one manager, a ticker and a command
//! endpoint. The runtime decides; its host spawns and joins the threads.
use crate::node_manager::{dispatch_outcome, dispatch_steps, NodeManager};
use crate::protocol::{Command, CommandResult, ControllerMessage, ServerMessage, Timestamp};
use vstd::prelude::*;

verus! {

/// Milliseconds between two ticks of the refresh thread.
pub const GRAPH_REFRESH_INTERVAL_MS: u64 = 100;

/// Milliseconds the command endpoint waits when no connection is pending.
pub const GRAPH_COMMAND_POLL_INTERVAL_MS: u64 = 50;

/// A character of Unicode's White_Space property, as `char::is_whitespace`
/// (and so `str::trim`) reads it.
pub open spec fn is_white(c: char) -> bool {
    let u = c as u32;
    (9 <= u <= 13) || u == 32 || u == 0x85 || u == 0xA0 || u == 0x1680 || (0x2000 <= u <= 0x200A) || u == 0x2028
        || u == 0x2029 || u == 0x202F || u == 0x205F || u == 0x3000
}

fn white(c: char) -> (r: bool)
    ensures
        r == is_white(c),
{
    let u = c as u32;
    (9 <= u && u <= 13) || u == 32 || u == 0x85 || u == 0xA0 || u == 0x1680 || (0x2000 <= u && u <= 0x200A) || u == 0x2028
        || u == 0x2029 || u == 0x202F || u == 0x205F || u == 0x3000
}

/// The first position from `i` that is not white space, or the end.
pub open spec fn first_non_white(s: Seq<char>, i: int) -> int
    decreases s.len() - i,
{
    if i < 0 || i >= s.len() {
        i
    } else if is_white(s[i]) {
        first_non_white(s, i + 1)
    } else {
        i
    }
}

/// One past the last character before `e` and from `a` on that is not white
/// space, or `a`.
pub open spec fn end_non_white(s: Seq<char>, a: int, e: int) -> int
    decreases e - a,
{
    if e <= a || e > s.len() || a < 0 {
        a
    } else if is_white(s[e - 1]) {
        end_non_white(s, a, e - 1)
    } else {
        e
    }
}

/// The text with white space removed at both ends.
pub open spec fn trimmed(s: Seq<char>) -> Seq<char> {
    let a = first_non_white(s, 0);
    s.subrange(a, end_non_white(s, a, s.len() as int))
}

/// The text without leading and trailing white space, as `str::trim` gives
/// it.
pub fn trim_text(s: &str) -> (r: String)
    ensures
        r@ == trimmed(s@),
{
    let n = s.unicode_len();
    let mut a: usize = 0;
    while a < n && white(s.get_char(a))
        invariant
            a <= n,
            n == s@.len(),
            first_non_white(s@, 0) == first_non_white(s@, a as int),
        decreases n - a,
    {
        a = a + 1;
    }
    let mut z: usize = n;
    while z > a && white(s.get_char(z - 1))
        invariant
            a <= z <= n,
            n == s@.len(),
            end_non_white(s@, a as int, n as int) == end_non_white(s@, a as int, z as int),
        decreases z - a,
    {
        z = z - 1;
    }
    String::from_str(s.substring_char(a, z))
}

/// `out` is the address that `value` names: trimmed, and none when empty.
pub open spec fn bind_matches(value: Option<String>, out: Option<String>) -> bool {
    match value {
        Some(v) => if trimmed(v@).len() == 0 {
            out is None
        } else {
            out matches Some(a) && a@ == trimmed(v@)
        },
        None => out is None,
    }
}

/// The endpoint address named by the environment variable's value: trimmed,
/// and none when empty.
pub fn command_endpoint_bind(value: Option<String>) -> (r: Option<String>)
    ensures
        bind_matches(value, r),
{
    match value {
        Some(v) => {
            let t = trim_text(v.as_str());
            if t.as_str().unicode_len() == 0 {
                None
            } else {
                Some(t)
            }
        },
        None => None,
    }
}

/// The address to probe the endpoint on: a wildcard bind address is
/// replaced by the loopback address of the same family, keeping the port.
pub open spec fn probe_addr_spec(bind: Seq<char>) -> Seq<char> {
    if bind.len() >= 8 && bind.take(8) == "0.0.0.0:"@ {
        "127.0.0.1:"@ + bind.skip(8)
    } else if bind.len() >= 5 && bind.take(5) == "[::]:"@ {
        "[::1]:"@ + bind.skip(5)
    } else {
        bind
    }
}

pub fn command_probe_addr(bind_addr: &str) -> (r: String)
    ensures
        r@ == probe_addr_spec(bind_addr@),
{
    let n = bind_addr.unicode_len();
    proof {
        reveal_strlit("0.0.0.0:");
        reveal_strlit("[::]:");
    }
    if n >= 8 {
        let head = String::from_str(bind_addr.substring_char(0, 8));
        if crate::text::same_text(&head, "0.0.0.0:") {
            let port = bind_addr.substring_char(8, n);
            return crate::text::join2("127.0.0.1:", port);
        }
    }
    if n >= 5 {
        let head = String::from_str(bind_addr.substring_char(0, 5));
        if crate::text::same_text(&head, "[::]:") {
            let port = bind_addr.substring_char(5, n);
            let r = crate::text::join2("[::1]:", port);
            proof {
                if n >= 8 {
                    assert(bind_addr@.take(8) != "0.0.0.0:"@) by {
                        assert(bind_addr@.take(8)[0] == bind_addr@.take(5)[0]);
                    }
                }
            }
            return r;
        }
    }
    String::from_str(bind_addr)
}

/// What the host must do after `start_graph_runtime`.
#[derive(Debug, Clone)]
pub struct StartPlan {
    /// Spawn the refresh thread.
    pub spawn_ticker: bool,
    /// Open the command endpoint on this address.
    pub serve_on: Option<String>,
}

/// What the host must do after `shutdown_graph_runtime`.
#[derive(Debug, Clone, Copy)]
pub struct StopPlan {
    pub join_ticker: bool,
    pub join_server: bool,
}

/// The graph runtime: the manager and whether its threads run.
#[derive(Debug)]
pub struct GraphRuntime {
    pub manager: NodeManager,
    pub refresh_running: bool,
    pub command_server_running: bool,
}

impl GraphRuntime {
    pub open spec fn wf(&self) -> bool {
        self.manager.wf()
    }

    pub fn new() -> (r: Self)
        ensures
            r.wf(),
            !r.manager.started,
            r.manager.nodes@.len() == 0,
            !r.refresh_running,
            !r.command_server_running,
    {
        GraphRuntime { manager: NodeManager::new(), refresh_running: false, command_server_running: false }
    }
}

/// Starts the manager (idempotent) and says which threads to spawn: the
/// ticker unless it runs, the endpoint when an address is configured and it
/// does not run yet.
pub fn start_graph_runtime(rt: &mut GraphRuntime, now: Timestamp, bind_value: Option<String>) -> (r: StartPlan)
    requires
        old(rt).wf(),
    ensures
        final(rt).wf(),
        final(rt).manager.started,
        final(rt).refresh_running,
        r.spawn_ticker == !old(rt).refresh_running,
        old(rt).command_server_running ==> r.serve_on is None && final(rt).command_server_running,
        !old(rt).command_server_running ==> bind_matches(bind_value, r.serve_on)
            && final(rt).command_server_running == (r.serve_on is Some),
{
    rt.manager.start(now);
    let spawn_ticker = !rt.refresh_running;
    rt.refresh_running = true;
    let serve_on = if rt.command_server_running {
        None
    } else {
        command_endpoint_bind(bind_value)
    };
    if serve_on.is_some() {
        rt.command_server_running = true;
    }
    StartPlan { spawn_ticker, serve_on }
}

/// Stops both threads, then stops every node and clears the graph.
pub fn shutdown_graph_runtime(rt: &mut GraphRuntime) -> (r: StopPlan)
    requires
        old(rt).wf(),
    ensures
        final(rt).wf(),
        !final(rt).refresh_running,
        !final(rt).command_server_running,
        !final(rt).manager.started,
        final(rt).manager.nodes@.len() == 0,
        final(rt).manager.links@.len() == 0,
        final(rt).manager.media_bridges@.len() == 0,
        r.join_ticker == old(rt).refresh_running,
        r.join_server == old(rt).command_server_running,
{
    let plan = StopPlan { join_ticker: rt.refresh_running, join_server: rt.command_server_running };
    rt.command_server_running = false;
    rt.refresh_running = false;
    rt.manager.shutdown();
    plan
}

/// Runs one command against the runtime's graph.
pub fn handle_command(rt: &mut GraphRuntime, command: Command, now: Timestamp) -> (r: CommandResult)
    requires
        old(rt).wf(),
    ensures
        final(rt).wf(),
        dispatch_outcome(old(rt).manager, command, r, final(rt).manager),
        exists|mid: NodeManager, g: NodeManager| #[trigger] dispatch_steps(old(rt).manager, mid, g, final(rt).manager, command, r, now as int),
{
    rt.manager.dispatch(command, now)
}

/// Runs a framed command and answers with the frame's id.
pub fn handle_controller_message(rt: &mut GraphRuntime, message: ControllerMessage, now: Timestamp) -> (r: ServerMessage)
    requires
        old(rt).wf(),
    ensures
        final(rt).wf(),
        r.id == Some(message.id),
        dispatch_outcome(old(rt).manager, message.command, r.result, final(rt).manager),
        exists|mid: NodeManager, g: NodeManager| #[trigger] dispatch_steps(old(rt).manager, mid, g, final(rt).manager, message.command, r.result, now as int),
{
    let ControllerMessage { id, command } = message;
    let result = rt.manager.dispatch(command, now);
    ServerMessage { id: Some(id), result }
}

/// Answers an unframed command.
pub fn handle_unframed_command(rt: &mut GraphRuntime, command: Command, now: Timestamp) -> (r: ServerMessage)
    requires
        old(rt).wf(),
    ensures
        final(rt).wf(),
        r.id is None,
        dispatch_outcome(old(rt).manager, command, r.result, final(rt).manager),
        exists|mid: NodeManager, g: NodeManager| #[trigger] dispatch_steps(old(rt).manager, mid, g, final(rt).manager, command, r.result, now as int),
{
    let result = rt.manager.dispatch(command, now);
    ServerMessage { id: None, result }
}

} // verus!
