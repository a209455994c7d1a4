//! Where a listener dials.
//!
//! A relay dials a fixed port of its enrolled peer, whose address is learned
//! at run time. A terminal dials a fixed address.

use vstd::prelude::*;
use vstd::string::*;

use crate::addr::{addr_ip, addr_of, addr_port, addr_text, IpAddr, SocketAddr};
use crate::path::{debug_text, quoted};
use crate::rule::{Rule, RuleView};
use crate::text::{dec, dec_string, join2};

verus! {

broadcast use vstd::string::group_string_axioms;

/// Role of the daemon.
#[derive(Clone, Copy, Debug, PartialEq, Eq, Structural)]
pub enum Mode {
    Relay,
    Terminal,
}

/// The name of a mode.
pub open spec fn mode_text(m: Mode) -> Seq<char> {
    match m {
        Mode::Relay => "relay"@,
        Mode::Terminal => "terminal"@,
    }
}

impl Mode {
    /// The name of the mode.
    pub fn as_str(&self) -> (r: &'static str)
        ensures
            r@ == mode_text(*self),
    {
        match self {
            Mode::Relay => "relay",
            Mode::Terminal => "terminal",
        }
    }
}

/// Where a listener dials.
#[derive(Clone, Copy, Debug, PartialEq, Eq, Structural)]
pub enum UpstreamResolver {
    /// A port of the enrolled peer.
    Dynamic { port: u16 },
    /// A fixed address.
    Static { addr: SocketAddr },
}

/// The dial target, given the peer's address where it is known.
pub open spec fn target_of(r: UpstreamResolver, peer: Option<IpAddr>) -> Option<SocketAddr> {
    match r {
        UpstreamResolver::Dynamic { port } => match peer {
            Some(ip) => Some(addr_of(ip, port)),
            None => None,
        },
        UpstreamResolver::Static { addr } => Some(addr),
    }
}

/// The description of a resolver.
pub open spec fn resolver_text(r: UpstreamResolver) -> Seq<char> {
    match r {
        UpstreamResolver::Dynamic { port } => "dynamic:peer:"@ + dec(port as nat),
        UpstreamResolver::Static { addr } => "static:"@ + addr_text(addr),
    }
}

impl UpstreamResolver {
    /// The dial target; none for a relay that does not know its peer's address
    /// yet.
    pub fn current_target(&self, peer: Option<IpAddr>) -> (r: Option<SocketAddr>)
        ensures
            r == target_of(*self, peer),
    {
        match self {
            UpstreamResolver::Dynamic { port } => match peer {
                Some(ip) => Some(SocketAddr::new(ip, *port)),
                None => None,
            },
            UpstreamResolver::Static { addr } => Some(*addr),
        }
    }

    /// Description for logs and status output.
    pub fn describe(&self) -> (r: String)
        ensures
            r@ == resolver_text(*self),
    {
        match self {
            UpstreamResolver::Dynamic { port } => {
                let p = dec_string(*port as u64);
                join2("dynamic:peer:", p.as_str())
            },
            UpstreamResolver::Static { addr } => {
                let a = addr.to_text();
                join2("static:", a.as_str())
            },
        }
    }

    /// Whether the target can change over time.
    pub fn is_dynamic(&self) -> (r: bool)
        ensures
            r == (*self is Dynamic),
    {
        matches!(self, UpstreamResolver::Dynamic { .. })
    }
}

/// Why no resolver could be built for a rule.
#[derive(Debug)]
pub enum ResolverBuildError {
    /// The rule is of the other mode's shape.
    ModeMismatch { rule: String, mode: Mode, detail: &'static str },
    /// The rule is of no mode's shape, or the factory is incomplete.
    Internal(&'static str),
}

/// The model of a [`ResolverBuildError`].
pub enum BuildErrorView {
    ModeMismatch { rule: Seq<char>, mode: Mode, detail: Seq<char> },
    Internal(Seq<char>),
}

impl View for ResolverBuildError {
    type V = BuildErrorView;

    open spec fn view(&self) -> BuildErrorView {
        match self {
            ResolverBuildError::ModeMismatch { rule, mode, detail } => {
                BuildErrorView::ModeMismatch { rule: rule@, mode: *mode, detail: detail@ }
            },
            ResolverBuildError::Internal(s) => BuildErrorView::Internal(s@),
        }
    }
}

/// The message of an error.
pub open spec fn build_error_text(e: BuildErrorView) -> Seq<char> {
    match e {
        BuildErrorView::ModeMismatch { rule, mode, detail } => "rule "@ + debug_text(rule) + ": "@
            + detail + " (daemon mode = "@ + mode_text(mode) + ")"@,
        BuildErrorView::Internal(s) => "internal resolver error: "@ + s,
    }
}

impl ResolverBuildError {
    /// The message of the error.
    pub fn message(&self) -> (r: String)
        ensures
            r@ == build_error_text(self@),
    {
        match self {
            ResolverBuildError::ModeMismatch { rule, mode, detail } => {
                let mut s = "rule ".to_owned();
                s.append(quoted(rule.as_str()).as_str());
                s.append(": ");
                s.append(detail);
                s.append(" (daemon mode = ");
                s.append(mode.as_str());
                s.append(")");
                s
            },
            ResolverBuildError::Internal(d) => join2("internal resolver error: ", d),
        }
    }
}

/// Builds resolvers for rules.
#[derive(Clone, Copy, Debug, PartialEq, Eq, Structural)]
pub struct ResolverFactory {
    pub mode: Mode,
    /// Whether there is an enrolled peer to dial.
    pub has_peer: bool,
}

/// The resolver for a rule: a relay rule names a port, a terminal rule an
/// address, and neither names both.
pub open spec fn resolver_for(f: ResolverFactory, rule: RuleView) -> Result<
    UpstreamResolver,
    BuildErrorView,
> {
    match (f.mode, rule.upstream_port, rule.upstream_addr) {
        (Mode::Relay, Some(port), None) => if f.has_peer {
            Ok(UpstreamResolver::Dynamic { port })
        } else {
            Err(
                BuildErrorView::Internal("relay-mode factory has no peer_state (logic error)"@),
            )
        },
        (Mode::Relay, None, Some(_)) => Err(
            BuildErrorView::ModeMismatch {
                rule: rule.name,
                mode: Mode::Relay,
                detail:
                    "rule has upstream_addr (terminal-style) but daemon is in relay mode; terminal rules cannot run on a relay"@,
            },
        ),
        (Mode::Terminal, None, Some(addr)) => Ok(UpstreamResolver::Static { addr }),
        (Mode::Terminal, Some(_), None) => Err(
            BuildErrorView::ModeMismatch {
                rule: rule.name,
                mode: Mode::Terminal,
                detail:
                    "rule has upstream_port (relay-style) but daemon is in terminal mode; relay rules cannot run on a terminal"@,
            },
        ),
        (_, None, None) => Err(
            BuildErrorView::Internal(
                "rule has neither upstream_port nor upstream_addr (validation bug)"@,
            ),
        ),
        (_, Some(_), Some(_)) => Err(
            BuildErrorView::Internal(
                "rule has both upstream_port and upstream_addr (validation bug)"@,
            ),
        ),
    }
}

impl ResolverFactory {
    /// The factory of a relay with an enrolled peer.
    pub fn new_relay() -> (r: Self)
        ensures
            r == (ResolverFactory { mode: Mode::Relay, has_peer: true }),
    {
        ResolverFactory { mode: Mode::Relay, has_peer: true }
    }

    /// The factory of a terminal.
    pub fn new_terminal() -> (r: Self)
        ensures
            r == (ResolverFactory { mode: Mode::Terminal, has_peer: false }),
    {
        ResolverFactory { mode: Mode::Terminal, has_peer: false }
    }

    /// Builds the resolver for a rule.
    pub fn build(&self, rule: &Rule) -> (r: Result<UpstreamResolver, ResolverBuildError>)
        ensures
            match resolver_for(*self, rule@) {
                Ok(u) => r is Ok && r->Ok_0 == u,
                Err(e) => r is Err && r->Err_0@ == e,
            },
    {
        match (self.mode, rule.upstream_port, rule.upstream_addr) {
            (Mode::Relay, Some(port), None) => {
                if self.has_peer {
                    Ok(UpstreamResolver::Dynamic { port })
                } else {
                    Err(
                        ResolverBuildError::Internal(
                            "relay-mode factory has no peer_state (logic error)",
                        ),
                    )
                }
            },
            (Mode::Relay, None, Some(_)) => Err(
                ResolverBuildError::ModeMismatch {
                    rule: rule.name.clone(),
                    mode: Mode::Relay,
                    detail:
                        "rule has upstream_addr (terminal-style) but daemon is in relay mode; terminal rules cannot run on a relay",
                },
            ),
            (Mode::Terminal, None, Some(addr)) => Ok(UpstreamResolver::Static { addr }),
            (Mode::Terminal, Some(_), None) => Err(
                ResolverBuildError::ModeMismatch {
                    rule: rule.name.clone(),
                    mode: Mode::Terminal,
                    detail:
                        "rule has upstream_port (relay-style) but daemon is in terminal mode; relay rules cannot run on a terminal",
                },
            ),
            (_, None, None) => Err(
                ResolverBuildError::Internal(
                    "rule has neither upstream_port nor upstream_addr (validation bug)",
                ),
            ),
            (_, Some(_), Some(_)) => Err(
                ResolverBuildError::Internal(
                    "rule has both upstream_port and upstream_addr (validation bug)",
                ),
            ),
        }
    }
}

/// Law: a relay never gets a static resolver and a terminal never a dynamic
/// one; and a terminal's target does not depend on any peer.
pub proof fn law_mode_fixes_the_resolver_shape(
    f: ResolverFactory,
    rule: RuleView,
    a: Option<IpAddr>,
    b: Option<IpAddr>,
)
    ensures
        f.mode == Mode::Relay && resolver_for(f, rule) is Ok ==> resolver_for(f, rule)->Ok_0
            is Dynamic,
        f.mode == Mode::Terminal && resolver_for(f, rule) is Ok ==> resolver_for(f, rule)->Ok_0
            is Static && target_of(resolver_for(f, rule)->Ok_0, a) == target_of(
            resolver_for(f, rule)->Ok_0,
            b,
        ) && target_of(resolver_for(f, rule)->Ok_0, a) is Some,
{
}

/// Law: a dynamic resolver dials its own port at whatever address the peer has,
/// and nothing while that is unknown; a static one dials its address.
pub proof fn law_resolver_dials_where_it_was_told(port: u16, addr: SocketAddr, ip: IpAddr)
    ensures
        target_of(UpstreamResolver::Dynamic { port }, None) is None,
        target_of(UpstreamResolver::Dynamic { port }, Some(ip)) is Some,
        addr_ip(target_of(UpstreamResolver::Dynamic { port }, Some(ip))->0) == ip,
        addr_port(target_of(UpstreamResolver::Dynamic { port }, Some(ip))->0) == port,
        target_of(UpstreamResolver::Static { addr }, None) == Some(addr),
        target_of(UpstreamResolver::Static { addr }, Some(ip)) == Some(addr),
{
}

/// Law: a rule gets a resolver exactly where it has the shape of the daemon's
/// mode: a port and no address on a relay that has a peer, an address and no port
/// on a terminal. The resolver dials that port, or that address.
pub proof fn law_rule_of_the_right_shape_is_dialled(f: ResolverFactory, rule: RuleView)
    ensures
        resolver_for(f, rule) is Ok <==> {
            ||| f.mode == Mode::Relay && f.has_peer && rule.upstream_port is Some
                && rule.upstream_addr is None
            ||| f.mode == Mode::Terminal && rule.upstream_port is None && rule.upstream_addr is Some
        },
        resolver_for(f, rule) is Ok && f.mode == Mode::Relay ==> resolver_for(f, rule)->Ok_0 == (
        UpstreamResolver::Dynamic { port: rule.upstream_port->0 }),
        resolver_for(f, rule) is Ok && f.mode == Mode::Terminal ==> resolver_for(f, rule)->Ok_0 == (
        UpstreamResolver::Static { addr: rule.upstream_addr->0 }),
        resolver_for(f, rule) is Err && (rule.upstream_port is Some <==> rule.upstream_addr is None)
            && (f.mode == Mode::Relay ==> f.has_peer) ==> resolver_for(f, rule)->Err_0
            is ModeMismatch && resolver_for(f, rule)->Err_0->rule == rule.name && resolver_for(
            f,
            rule,
        )->Err_0->mode == f.mode,
{
}

/// Law: a resolver is described by what it dials, and a rule of the wrong shape
/// by its name, what is wrong, and the mode of the daemon.
pub proof fn law_descriptions_say_what_is_dialled(
    port: u16,
    addr: SocketAddr,
    rule: Seq<char>,
    detail: Seq<char>,
)
    ensures
        resolver_text(UpstreamResolver::Dynamic { port }) == "dynamic:peer:"@ + dec(port as nat),
        resolver_text(UpstreamResolver::Static { addr }) == "static:"@ + addr_text(addr),
        build_error_text(BuildErrorView::ModeMismatch { rule, mode: Mode::Relay, detail })
            == "rule "@ + debug_text(rule) + ": "@ + detail + " (daemon mode = relay)"@,
        build_error_text(BuildErrorView::ModeMismatch { rule, mode: Mode::Terminal, detail })
            == "rule "@ + debug_text(rule) + ": "@ + detail + " (daemon mode = terminal)"@,
        build_error_text(BuildErrorView::Internal(detail)) == "internal resolver error: "@ + detail,
{
    reveal_strlit(" (daemon mode = ");
    reveal_strlit("relay");
    reveal_strlit("terminal");
    reveal_strlit(")");
    reveal_strlit(" (daemon mode = relay)");
    reveal_strlit(" (daemon mode = terminal)");
    assert(build_error_text(BuildErrorView::ModeMismatch { rule, mode: Mode::Relay, detail })
        =~= "rule "@ + debug_text(rule) + ": "@ + detail + " (daemon mode = relay)"@);
    assert(build_error_text(BuildErrorView::ModeMismatch { rule, mode: Mode::Terminal, detail })
        =~= "rule "@ + debug_text(rule) + ": "@ + detail + " (daemon mode = terminal)"@);
}

} // verus!
