//! Cloudflare Tunnel provider.
//!
//! Uses the `cloudflared` CLI to create either a quick tunnel (free, random
//! trycloudflare.com URL) or a named tunnel (with a token). The host starts the program, reads
//! its lines and kills it; this module decides what it is started with, when a start is over
//! and with what result, and keeps the state of the tunnel.
use vstd::prelude::*;
use vstd::string::*;

use crate::launch::{Launch, Stream};
#[allow(unused_imports)]
use crate::launch::{assigned, law_contents_are_whole, pairs, texts};
use crate::text::decimal_text;
#[allow(unused_imports)]
use crate::text::{decimal, decimal_value, law_decimal_reads_back};
use crate::url::extract_cloudflare_url;
#[allow(unused_imports)]
use crate::url::tunnel_url;

verus! {

/// How many seconds a start waits for the URL.
pub const URL_TIMEOUT_SECS: u64 = 30;

/// `tokio::process::Child`, the handle of a running `cloudflared`. Nothing is stated of it.
#[verifier::external_type_specification]
#[verifier::external_body]
pub struct ExChild(tokio::process::Child);

/// The settings of the Cloudflare tunnel.
#[derive(Debug)]
pub struct CloudflareTunnelConfig {
    /// The token of a named tunnel.
    pub token: Option<String>,
}

/// Why a tunnel could not be started.
#[derive(Debug)]
pub enum ZeptoError {
    /// What is wrong with the setup.
    Config(String),
}

/// Cloudflare Tunnel provider backed by the `cloudflared` binary.
pub struct CloudflareTunnel {
    /// The settings, where there are any.
    pub config: Option<CloudflareTunnelConfig>,
    /// The running program.
    pub child: Option<tokio::process::Child>,
    /// The public URL of the running tunnel.
    pub url: Option<String>,
}

/// What a start learns while it waits for the URL.
#[derive(Debug)]
pub enum StartEvent {
    /// The program could not be started, for this reason.
    SpawnFailed(String),
    /// The program runs, but its standard error was not captured.
    NoStderr,
    /// The program wrote this line to its standard error.
    Line(String),
    /// There are no more lines, or they can no longer be read.
    OutputEnded,
    /// The time for the URL is up.
    TimedOut,
}

/// What a start does next.
#[derive(Debug)]
pub enum StartStep {
    /// Wait for the next event.
    KeepReading,
    /// The tunnel is up, at this URL.
    Announced(String),
    /// The start failed.
    Failed(ZeptoError),
}

/// The token that `config` holds.
pub open spec fn token_of(config: Option<CloudflareTunnelConfig>) -> Option<Seq<char>> {
    match config {
        Some(settings) => match settings.token {
            Some(token) => Some(token@),
            None => None,
        },
        None => None,
    }
}

/// The arguments of `cloudflared`: a named tunnel is run, a quick one is pointed at the port.
pub open spec fn tunnel_args(token: Option<Seq<char>>, port: u16) -> Seq<Seq<char>> {
    match token {
        Some(_) => seq!["tunnel"@, "run"@],
        None => seq!["tunnel"@, "--url"@, "http://localhost:"@ + decimal(port as nat)],
    }
}

/// The variables that are set for `cloudflared`: the token of a named tunnel.
pub open spec fn tunnel_env(token: Option<Seq<char>>) -> Seq<(Seq<char>, Seq<char>)> {
    match token {
        Some(token) => seq![("TUNNEL_TOKEN"@, token)],
        None => seq![],
    }
}

/// `text` is the address of `port` on this machine: `http://localhost:` and the number of the
/// port in decimal.
pub open spec fn names_port(text: Seq<char>, port: u16) -> bool {
    exists|digits: Seq<char>|
        #![trigger decimal_value(digits)]
        {
            &&& text == "http://localhost:"@ + digits
            &&& digits.len() > 0
            &&& forall|i: int| 0 <= i < digits.len() ==> '0' <= (#[trigger] digits[i]) <= '9'
            &&& digits.len() > 1 ==> digits[0] != '0'
            &&& decimal_value(digits) == port
        }
}

/// How a start ends at `event`, or `None` where it goes on: with the URL, or with the text of
/// the error.
pub open spec fn start_result(event: StartEvent) -> Option<Result<Seq<char>, Seq<char>>> {
    match event {
        StartEvent::SpawnFailed(reason) => Some(
            Err("Failed to start cloudflared (is it installed?): "@ + reason@),
        ),
        StartEvent::NoStderr => Some(Err("Failed to capture cloudflared stderr"@)),
        StartEvent::Line(line) => match tunnel_url(line@) {
            Some(url) => Some(Ok(url)),
            None => None,
        },
        StartEvent::OutputEnded => Some(
            Err("cloudflared exited without providing a tunnel URL"@),
        ),
        StartEvent::TimedOut => Some(
            Err("Timed out waiting for cloudflared tunnel URL (30s)"@),
        ),
    }
}

/// How a start ends that sees `events` in order.
pub open spec fn start_outcome(events: Seq<StartEvent>) -> Option<Result<Seq<char>, Seq<char>>>
    decreases events.len(),
{
    if events.len() == 0 {
        None
    } else {
        match start_result(events[0]) {
            Some(result) => Some(result),
            None => start_outcome(events.drop_first()),
        }
    }
}

/// What a start does next once it has seen `event`.
pub fn start_step(event: &StartEvent) -> (res: StartStep)
    ensures
        match res {
            StartStep::KeepReading => start_result(*event) is None,
            StartStep::Announced(url) => start_result(*event) == Some(
                Ok::<Seq<char>, Seq<char>>(url@),
            ),
            StartStep::Failed(ZeptoError::Config(text)) => start_result(*event) == Some(
                Err::<Seq<char>, Seq<char>>(text@),
            ),
        },
        match *event {
            StartEvent::SpawnFailed(reason) => {
                &&& res matches StartStep::Failed(ZeptoError::Config(text))
                &&& text@ == "Failed to start cloudflared (is it installed?): "@ + reason@
            },
            StartEvent::NoStderr => {
                &&& res matches StartStep::Failed(ZeptoError::Config(text))
                &&& text@ == "Failed to capture cloudflared stderr"@
            },
            StartEvent::Line(line) => match tunnel_url(line@) {
                Some(found) => res matches StartStep::Announced(url) && url@ == found,
                None => res is KeepReading,
            },
            StartEvent::OutputEnded => {
                &&& res matches StartStep::Failed(ZeptoError::Config(text))
                &&& text@ == "cloudflared exited without providing a tunnel URL"@
            },
            StartEvent::TimedOut => {
                &&& res matches StartStep::Failed(ZeptoError::Config(text))
                &&& text@ == "Timed out waiting for cloudflared tunnel URL (30s)"@
            },
        },
{
    match event {
        StartEvent::SpawnFailed(reason) => {
            let text: String = "Failed to start cloudflared (is it installed?): ".to_owned().concat(
                reason.as_str(),
            );
            StartStep::Failed(ZeptoError::Config(text))
        },
        StartEvent::NoStderr => StartStep::Failed(
            ZeptoError::Config("Failed to capture cloudflared stderr".to_owned()),
        ),
        StartEvent::Line(line) => match extract_cloudflare_url(line.as_str()) {
            Some(url) => StartStep::Announced(url),
            None => StartStep::KeepReading,
        },
        StartEvent::OutputEnded => StartStep::Failed(
            ZeptoError::Config("cloudflared exited without providing a tunnel URL".to_owned()),
        ),
        StartEvent::TimedOut => StartStep::Failed(
            ZeptoError::Config("Timed out waiting for cloudflared tunnel URL (30s)".to_owned()),
        ),
    }
}

/// `tokio::process::Child::id`: the identifier of the child until the handle has seen it end.
/// What it is rests on the process and on what the handle has been polled for, so nothing is
/// stated of the result.
pub assume_specification[ tokio::process::Child::id ](child: &tokio::process::Child) -> (id: Option<
    u32,
>);

/// `id` is what `tokio::process::Child::id` may give for `child`.
pub open spec fn may_have_id(child: tokio::process::Child, id: Option<u32>) -> bool {
    call_ensures(tokio::process::Child::id, (&child,), id)
}

/// Whether a tunnel is healthy whose child has the identifier `id`; `None` stands for no child.
pub fn is_healthy(id: Option<Option<u32>>) -> (res: bool)
    ensures
        res == (id matches Some(pid) && pid is Some),
{
    match id {
        Some(pid) => pid.is_some(),
        None => false,
    }
}

impl CloudflareTunnel {
    /// A tunnel has a URL exactly while it has a child.
    pub open spec fn wf(self) -> bool {
        self.child is Some <==> self.url is Some
    }

    /// Create a new Cloudflare Tunnel provider.
    pub fn new(config: Option<CloudflareTunnelConfig>) -> (res: Self)
        ensures
            res.config == config,
            res.child is None,
            res.url is None,
            res.wf(),
    {
        Self { config, child: None, url: None }
    }

    /// The name of this provider.
    pub fn name(&self) -> (res: &'static str)
        ensures
            res@ == "cloudflare"@,
    {
        "cloudflare"
    }

    /// What `cloudflared` is started with to expose `local_port`, unless the tunnel already
    /// runs.
    pub fn plan_start(&self, local_port: u16) -> (res: Result<Launch<'static>, ZeptoError>)
        ensures
            match res {
                Err(ZeptoError::Config(text)) => {
                    &&& self.child is Some
                    &&& text@ == "Cloudflare tunnel already running"@
                },
                Ok(launch) => {
                    &&& self.child is None
                    &&& launch.program@ == "cloudflared"@
                    &&& texts(launch.args@) == tunnel_args(token_of(self.config), local_port)
                    &&& !launch.clear_env
                    &&& pairs(launch.env@) == tunnel_env(token_of(self.config))
                    &&& launch.workdir is None
                    &&& !launch.own_process_group
                    &&& launch.stdin == Stream::Null
                    &&& launch.stdout == Stream::Piped
                    &&& launch.stderr == Stream::Piped
                },
            },
            res is Ok <==> self.child is None,
            res matches Ok(launch) ==> match self.config {
                Some(CloudflareTunnelConfig { token: Some(token) }) => {
                    &&& launch.args@.len() == 2
                    &&& launch.args@[0]@ == "tunnel"@
                    &&& launch.args@[1]@ == "run"@
                    &&& launch.env@.len() == 1
                    &&& launch.env@[0].0@ == "TUNNEL_TOKEN"@
                    &&& launch.env@[0].1@ == token@
                },
                _ => {
                    &&& launch.args@.len() == 3
                    &&& launch.args@[0]@ == "tunnel"@
                    &&& launch.args@[1]@ == "--url"@
                    &&& names_port(launch.args@[2]@, local_port)
                    &&& launch.env@.len() == 0
                },
            },
    {
        if self.child.is_some() {
            return Err(ZeptoError::Config("Cloudflare tunnel already running".to_owned()));
        }
        let token: Option<String> = match &self.config {
            Some(settings) => settings.token.clone(),
            None => None,
        };
        let mut args: Vec<String> = Vec::new();
        let mut env: Vec<(String, String)> = Vec::new();
        args.push("tunnel".to_owned());
        match token {
            Some(token) => {
                // Named tunnel: the token goes into the environment (cloudflared reads
                // TUNNEL_TOKEN), so the secret never appears in the command line.
                args.push("run".to_owned());
                env.push(("TUNNEL_TOKEN".to_owned(), token));
            },
            None => {
                // Quick tunnel (free, random URL).
                args.push("--url".to_owned());
                args.push("http://localhost:".to_owned().concat(decimal_text(local_port).as_str()));
            },
        }
        assert(texts(args@) =~= tunnel_args(token_of(self.config), local_port));
        assert(pairs(env@) =~= tunnel_env(token_of(self.config)));
        proof {
            law_contents_are_whole(args@, env@);
            law_quick_tunnel_exposes_its_port(local_port);
        }
        Ok(
            Launch {
                program: "cloudflared",
                args,
                clear_env: false,
                env,
                workdir: None,
                own_process_group: false,
                stdin: Stream::Null,
                stdout: Stream::Piped,
                stderr: Stream::Piped,
            },
        )
    }

    /// Records that `child` serves the tunnel at `url`, and returns the URL.
    pub fn started(&mut self, child: tokio::process::Child, url: String) -> (res: String)
        ensures
            res@ == url@,
            final(self).config == old(self).config,
            final(self).child == Some(child),
            final(self).url == Some(url),
            final(self).wf(),
    {
        let res: String = url.clone();
        self.url = Some(url);
        self.child = Some(child);
        res
    }

    /// The child that a stop kills and waits for: the one that serves the tunnel, if it runs.
    pub fn running_child(&mut self) -> (res: Option<&mut tokio::process::Child>)
        ensures
            match res {
                Some(child) => {
                    &&& old(self).child == Some(*child)
                    &&& final(self).child == Some(*final(child))
                },
                None => old(self).child is None && final(self).child is None,
            },
            final(self).config == old(self).config,
            final(self).url == old(self).url,
    {
        self.child.as_mut()
    }

    /// Records that the tunnel no longer runs, and lets go of the child that served it.
    pub fn stopped(&mut self) -> (child: Option<tokio::process::Child>)
        ensures
            child == old(self).child,
            final(self).config == old(self).config,
            final(self).child is None,
            final(self).url is None,
            final(self).wf(),
    {
        self.url = None;
        self.child.take()
    }

    /// Whether the tunnel runs, as far as its child's handle knows: without a child it does
    /// not, and with one it does while the handle gives an identifier.
    pub fn health_check(&self) -> (res: bool)
        ensures
            match self.child {
                Some(child) => exists|id: Option<u32>| #[trigger]
                    may_have_id(child, id) && res == (id is Some),
                None => !res,
            },
            self.child matches Some(child) ==> exists|id: Option<u32>| #[trigger]
                call_ensures(tokio::process::Child::id, (&child,), id) && res == (id is Some),
    {
        match &self.child {
            Some(child) => {
                let id_of = tokio::process::Child::id;
                let id: Option<u32> = id_of(child);
                assert(may_have_id(*child, id));
                is_healthy(Some(id))
            },
            None => is_healthy(None),
        }
    }
}

/// A start ends at the first event that ends it, whatever comes after.
pub proof fn law_start_ends_at_first_result(
    before: Seq<StartEvent>,
    event: StartEvent,
    after: Seq<StartEvent>,
)
    requires
        forall|i: int| 0 <= i < before.len() ==> start_result(#[trigger] before[i]) is None,
        start_result(event) is Some,
    ensures
        start_outcome(before.push(event) + after) == start_result(event),
    decreases before.len(),
{
    let events = before.push(event) + after;
    if before.len() == 0 {
        assert(events[0] == event);
    } else {
        assert(events[0] == before[0]);
        assert(events.drop_first() == before.drop_first().push(event) + after);
        law_start_ends_at_first_result(before.drop_first(), event, after);
    }
}

/// Lines without a URL never end a start.
pub proof fn law_start_waits_for_a_url(events: Seq<StartEvent>)
    requires
        forall|i: int|
            0 <= i < events.len() ==> ((#[trigger] events[i]) matches StartEvent::Line(line)
                && tunnel_url(line@) is None),
    ensures
        start_outcome(events) is None,
    decreases events.len(),
{
    if events.len() > 0 {
        assert(events[0] is Line);
        law_start_waits_for_a_url(events.drop_first());
    }
}

/// The command line of a named tunnel tells nothing of its token: it is the same for any two.
pub proof fn law_token_never_in_arguments(a: Seq<char>, b: Seq<char>, port: u16)
    ensures
        tunnel_args(Some(a), port) == tunnel_args(Some(b), port),
{
}

/// The token reaches `cloudflared` in its environment, which is otherwise the inherited one.
pub proof fn law_token_in_environment(
    launch: Launch,
    token: Option<Seq<char>>,
    inherited: Map<Seq<char>, Seq<char>>,
)
    requires
        !launch.clear_env,
        pairs(launch.env@) == tunnel_env(token),
    ensures
        launch.environment(inherited) == (match token {
            Some(token) => inherited.insert("TUNNEL_TOKEN"@, token),
            None => inherited,
        }),
{
    reveal_with_fuel(assigned, 2);
    if token is Some {
        let env = tunnel_env(token);
        assert(env.drop_last().len() == 0);
    }
}

/// A quick tunnel exposes the port that was asked for: its arguments are `tunnel`, `--url` and
/// the address of that port.
pub proof fn law_quick_tunnel_exposes_its_port(port: u16)
    ensures
        tunnel_args(None, port).len() == 3,
        tunnel_args(None, port)[0] == "tunnel"@,
        tunnel_args(None, port)[1] == "--url"@,
        names_port(tunnel_args(None, port)[2], port),
        exists|digits: Seq<char>|
            #![trigger decimal_value(digits)]
            {
                &&& tunnel_args(None, port)[2] == "http://localhost:"@ + digits
                &&& digits.len() > 0
                &&& forall|i: int| 0 <= i < digits.len() ==> '0' <= (#[trigger] digits[i]) <= '9'
                &&& digits.len() > 1 ==> digits[0] != '0'
                &&& decimal_value(digits) == port
            },
{
    law_decimal_reads_back(port as nat);
    let digits = decimal(port as nat);
    assert(decimal_value(digits) == port);
}

/// The arguments of quick tunnels to two different ports differ, in the address alone.
pub proof fn law_ports_are_told_apart(a: u16, b: u16)
    requires
        a != b,
    ensures
        tunnel_args(None, a) != tunnel_args(None, b),
        tunnel_args(None, a)[2] != tunnel_args(None, b)[2],
{
    law_quick_tunnel_exposes_its_port(a);
    law_quick_tunnel_exposes_its_port(b);
    let left = tunnel_args(None, a)[2];
    let right = tunnel_args(None, b)[2];
    if left == right {
        law_address_names_one_port(left, a, b);
    }
}

/// An address names one port only.
pub proof fn law_address_names_one_port(text: Seq<char>, a: u16, b: u16)
    requires
        names_port(text, a),
        names_port(text, b),
    ensures
        a == b,
{
    let host = "http://localhost:"@;
    let x = choose|digits: Seq<char>|
        #![trigger decimal_value(digits)]
        text == host + digits && decimal_value(digits) == a;
    let y = choose|digits: Seq<char>|
        #![trigger decimal_value(digits)]
        text == host + digits && decimal_value(digits) == b;
    assert(x =~= (host + x).skip(host.len() as int));
    assert(y =~= (host + y).skip(host.len() as int));
}

/// A token in the settings makes a named tunnel: it is run, with exactly that token and no
/// other variable; without one nothing is set.
pub proof fn law_token_is_handed_over_whole(settings: CloudflareTunnelConfig, port: u16)
    ensures
        settings.token matches Some(token) ==> {
            let found = token_of(Some(settings));
            &&& tunnel_args(found, port) == seq!["tunnel"@, "run"@]
            &&& tunnel_env(found) == seq![("TUNNEL_TOKEN"@, token@)]
        },
        settings.token is None ==> {
            let found = token_of(Some(settings));
            &&& tunnel_args(found, port) == tunnel_args(token_of(None), port)
            &&& tunnel_env(found).len() == 0
        },
{
}

/// The first line with a URL ends a start with that URL, whatever comes after it.
pub proof fn law_first_url_line_starts_the_tunnel(
    before: Seq<StartEvent>,
    line: String,
    url: Seq<char>,
    after: Seq<StartEvent>,
)
    requires
        forall|i: int|
            0 <= i < before.len() ==> ((#[trigger] before[i]) matches StartEvent::Line(earlier)
                && tunnel_url(earlier@) is None),
        tunnel_url(line@) == Some(url),
    ensures
        start_outcome(before.push(StartEvent::Line(line)) + after) == Some(
            Ok::<Seq<char>, Seq<char>>(url),
        ),
{
    assert forall|i: int| 0 <= i < before.len() implies start_result(#[trigger] before[i]) is None by {
        assert(before[i] is Line);
    }
    law_start_ends_at_first_result(before, StartEvent::Line(line), after);
}

/// A program that cannot be started is reported with the whole reason: two reasons give two
/// reports, and each ends with its reason.
pub proof fn law_spawn_failure_tells_its_reason(a: String, b: String)
    ensures
        a@ != b@ ==> start_result(StartEvent::SpawnFailed(a)) != start_result(
            StartEvent::SpawnFailed(b),
        ),
        start_result(StartEvent::SpawnFailed(a)) matches Some(Err(text)) && text
            == "Failed to start cloudflared (is it installed?): "@ + a@,
{
    let intro = "Failed to start cloudflared (is it installed?): "@;
    assert(a@ =~= (intro + a@).skip(intro.len() as int));
    assert(b@ =~= (intro + b@).skip(intro.len() as int));
}

} // verus!
