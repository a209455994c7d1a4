//! From one rule set to the next.
//!
//! A new rule set becomes a list of tasks: stop what is gone, stop and start
//! what changed, start what is new. Rules that did not change appear in no
//! task, so nothing that happens here touches their listeners.

use vstd::prelude::*;
use vstd::string::*;

use crate::addr::{addr_ip, addr_of, addr_port, addr_text, IpAddr, SocketAddr};
use crate::path::{debug_text, quoted};
use crate::resolver::{
    build_error_text, resolver_for, resolver_text, Mode, ResolverFactory, UpstreamResolver,
};
use crate::rule::{
    bound_listen, change_views, has_rule, lemma_rule_pos, missing_from, redefined, rule_pos,
    rule_views, Protocol, ProxyProto, Rule, RuleDiff, RuleSet, RuleView,
};
use crate::strmap::StrMap;
use crate::text::{less, text_lt};

verus! {

broadcast use vstd::string::group_string_axioms;

/// A running proxy.
#[derive(Debug)]
pub struct ActiveProxy {
    pub name: String,
    pub protocol: Protocol,
    /// The address that it listens on.
    pub listen: SocketAddr,
    pub upstream_description: String,
    /// Routes that are served without a certificate.
    pub cert_less_route_count: usize,
    /// What an HTTPS proxy registered with the companion listener.
    pub companion: Option<CompanionClaim>,
}

/// What an HTTPS proxy registered with the companion listener of an address.
#[derive(Debug)]
pub struct CompanionClaim {
    pub ip: IpAddr,
    pub hosts: Vec<String>,
}

/// One thing to do for a new rule set.
#[derive(Debug)]
pub enum UpdateTask {
    /// Stop the proxy of the rule with this name, if it runs.
    Stop(String),
    /// Start a proxy for the rule.
    Start(Rule),
}

/// The model of an [`UpdateTask`].
pub enum TaskView {
    Stop(Seq<char>),
    Start(RuleView),
}

impl View for UpdateTask {
    type V = TaskView;

    open spec fn view(&self) -> TaskView {
        match self {
            UpdateTask::Stop(n) => TaskView::Stop(n@),
            UpdateTask::Start(r) => TaskView::Start(r@),
        }
    }
}

/// Views of a list of tasks.
pub open spec fn task_views(v: Seq<UpdateTask>) -> Seq<TaskView> {
    Seq::new(v.len(), |i: int| v[i]@)
}

/// The rule that a task is about.
pub open spec fn task_name(t: TaskView) -> Seq<char> {
    match t {
        TaskView::Stop(n) => n,
        TaskView::Start(r) => r.name,
    }
}

/// A stop for each removed rule.
pub open spec fn stop_tasks(removed: Seq<RuleView>) -> Seq<TaskView> {
    Seq::new(removed.len(), |i: int| TaskView::Stop(removed[i].name))
}

/// A stop and a start for each changed rule: the two may claim the same
/// address, so they cannot overlap.
pub open spec fn swap_tasks(changed: Seq<(RuleView, RuleView)>) -> Seq<TaskView> {
    Seq::new(
        2 * changed.len(),
        |i: int|
            if i % 2 == 0 {
                TaskView::Stop(changed[i / 2].0.name)
            } else {
                TaskView::Start(changed[i / 2].1)
            },
    )
}

/// A start for each added rule.
pub open spec fn start_tasks(added: Seq<RuleView>) -> Seq<TaskView> {
    Seq::new(added.len(), |i: int| TaskView::Start(added[i]))
}

/// The tasks for what was removed, changed and added, in order.
pub open spec fn tasks_of(
    removed: Seq<RuleView>,
    changed: Seq<(RuleView, RuleView)>,
    added: Seq<RuleView>,
) -> Seq<TaskView> {
    stop_tasks(removed) + swap_tasks(changed) + start_tasks(added)
}

/// The tasks for a new rule set, in order.
pub open spec fn update_plan(old: Seq<RuleView>, new: Seq<RuleView>) -> Seq<TaskView> {
    tasks_of(
        missing_from(old, new, old.len() as int),
        redefined(old, new, new.len() as int),
        missing_from(new, old, new.len() as int),
    )
}

/// The tasks for a difference between rule sets, in order.
pub fn plan_update(diff: &RuleDiff) -> (r: Vec<UpdateTask>)
    ensures
        task_views(r@) == tasks_of(
            rule_views(diff.removed@),
            change_views(diff.changed@),
            rule_views(diff.added@),
        ),
{
    let mut out: Vec<UpdateTask> = Vec::new();
    let ghost stops = stop_tasks(rule_views(diff.removed@));
    let ghost swaps = swap_tasks(change_views(diff.changed@));
    let ghost starts = start_tasks(rule_views(diff.added@));
    for i in 0..diff.removed.len()
        invariant
            stops == stop_tasks(rule_views(diff.removed@)),
            task_views(out@) == stops.subrange(0, i as int),
    {
        let ghost done = out@;
        out.push(UpdateTask::Stop(diff.removed[i].name.clone()));
        assert(task_views(out@) =~= task_views(done).push(stops[i as int]));
        assert(task_views(out@) =~= stops.subrange(0, i + 1));
    }
    assert(task_views(out@) =~= stops + swaps.subrange(0, 0));
    for i in 0..diff.changed.len()
        invariant
            swaps == swap_tasks(change_views(diff.changed@)),
            task_views(out@) == stops + swaps.subrange(0, 2 * i as int),
    {
        let ghost done = out@;
        out.push(UpdateTask::Stop(diff.changed[i].old.name.clone()));
        let ghost mid = out@;
        out.push(UpdateTask::Start(diff.changed[i].new.clone()));
        proof {
            assert(swaps[2 * i as int] == TaskView::Stop(diff.changed@[i as int].old@.name));
            assert(swaps[2 * i + 1] == TaskView::Start(diff.changed@[i as int].new@));
            assert(task_views(mid) =~= task_views(done).push(swaps[2 * i as int]));
            assert(task_views(out@) =~= task_views(mid).push(swaps[2 * i + 1]));
            assert(task_views(out@) =~= stops + swaps.subrange(0, 2 * (i + 1)));
        }
    }
    assert(swaps.subrange(0, 2 * diff.changed@.len() as int) =~= swaps);
    assert(task_views(out@) =~= stops + swaps + starts.subrange(0, 0));
    for i in 0..diff.added.len()
        invariant
            starts == start_tasks(rule_views(diff.added@)),
            task_views(out@) == stops + swaps + starts.subrange(0, i as int),
    {
        let ghost done = out@;
        out.push(UpdateTask::Start(diff.added[i].clone()));
        assert(task_views(out@) =~= task_views(done).push(starts[i as int]));
        assert(task_views(out@) =~= stops + swaps + starts.subrange(0, i + 1));
    }
    assert(starts.subrange(0, diff.added@.len() as int) =~= starts);
    out
}

/// Where HTTPS rules are served.
#[derive(Clone, Copy, Debug, PartialEq, Eq, Structural)]
pub enum HttpsRules {
    /// One frontend serves every route of the node; a rule of its own is
    /// refused.
    NodeWide,
    /// Each HTTPS rule has a frontend of its own.
    PerRule,
}

/// What starting a proxy depends on besides its rule.
#[derive(Clone, Copy, Debug, PartialEq, Eq, Structural)]
pub struct SpawnContext {
    pub factory: ResolverFactory,
    /// Address that replaces the one of every rule.
    pub bind: Option<IpAddr>,
    pub https_rules: HttpsRules,
}

/// How to start a proxy.
#[derive(Debug)]
pub enum SpawnOrder {
    /// Forward TCP or UDP.
    L4 {
        rule: Rule,
        resolver: UpstreamResolver,
        description: String,
        expect_inbound_proxy: bool,
    },
    /// Bring up an HTTPS frontend for the rule.
    Https { rule: Rule },
}

/// The model of a [`SpawnOrder`].
pub enum OrderView {
    L4 {
        rule: RuleView,
        resolver: UpstreamResolver,
        description: Seq<char>,
        expect_inbound_proxy: bool,
    },
    Https { rule: RuleView },
}

impl View for SpawnOrder {
    type V = OrderView;

    open spec fn view(&self) -> OrderView {
        match self {
            SpawnOrder::L4 { rule, resolver, description, expect_inbound_proxy } => OrderView::L4 {
                rule: rule@,
                resolver: *resolver,
                description: description@,
                expect_inbound_proxy: *expect_inbound_proxy,
            },
            SpawnOrder::Https { rule } => OrderView::Https { rule: rule@ },
        }
    }
}

/// A running proxy claims an address: it listens there, or it is an HTTPS one
/// and the address is port 80 beside it.
pub open spec fn claims_addr(p: ActiveProxy, addr: SocketAddr) -> bool {
    p.listen == addr || p.protocol == Protocol::Https && addr == addr_of(addr_ip(p.listen), 80)
}

/// The running proxies by rule name.
pub type ActiveModel = Map<Seq<char>, ActiveProxy>;

/// Some running proxy claims the address.
pub open spec fn addr_claimed(active: ActiveModel, addr: SocketAddr) -> bool {
    exists|k: Seq<char>| #[trigger] active.contains_key(k) && claims_addr(active[k], addr)
}

/// Some running proxy other than an HTTPS one listens on the address.
pub open spec fn addr_taken_by_l4(active: ActiveModel, addr: SocketAddr) -> bool {
    exists|k: Seq<char>| #[trigger]
        active.contains_key(k) && active[k].protocol != Protocol::Https && active[k].listen == addr
}

/// The message where an address is claimed.
pub open spec fn claimed_message(name: Seq<char>, listen: SocketAddr) -> Seq<char> {
    "rule "@ + debug_text(name) + ": listen address "@ + addr_text(listen)
        + " is already claimed by another rule"@
}

/// The message where port 80 beside an HTTPS rule is taken.
pub open spec fn clash_message(name: Seq<char>, implicit: SocketAddr) -> Seq<char> {
    "rule "@ + debug_text(name) + ": implicit HTTP→HTTPS redirect on "@ + addr_text(implicit)
        + " clashes with another rule already listening there"@
}

/// The message where a rule is an HTTPS one but the node serves routes.
pub open spec fn https_rule_message(name: Seq<char>) -> Seq<char> {
    "rule "@ + debug_text(name)
        + ": protocol = \"https\" is no longer valid on `[[rule]]`; use top-level `[[route]]` blocks"@
}

/// The message where an HTTPS rule has no routes.
pub open spec fn no_routes_message(name: Seq<char>) -> Seq<char> {
    "HTTPS rule "@ + debug_text(name)
        + ": routes list is empty; validator should have rejected this"@
}

/// A rule lists at least one route.
pub open spec fn has_routes(rule: RuleView) -> bool {
    rule.routes is Some && rule.routes->0.len() > 0
}

/// The message where no resolver can be built.
pub open spec fn resolver_message(
    name: Seq<char>,
    e: crate::resolver::BuildErrorView,
) -> Seq<char> {
    "build resolver for rule "@ + debug_text(name) + ": "@ + build_error_text(e)
}

/// How to start a proxy for a rule, or why not. The previous hop announces the
/// client only to a relay, and only in front of rules that pass it on as v2.
pub open spec fn spawn_order(rule: RuleView, ctx: SpawnContext, active: ActiveModel) -> Result<
    OrderView,
    Seq<char>,
> {
    let bound = RuleView { listen: bound_listen(rule.listen, ctx.bind), ..rule };
    let implicit = addr_of(addr_ip(bound.listen), 80);
    if addr_claimed(active, bound.listen) {
        Err(claimed_message(bound.name, bound.listen))
    } else if bound.protocol == Protocol::Https {
        if ctx.https_rules == HttpsRules::NodeWide {
            Err(https_rule_message(bound.name))
        } else if addr_taken_by_l4(active, implicit) {
            Err(clash_message(bound.name, implicit))
        } else if !has_routes(bound) {
            Err(no_routes_message(bound.name))
        } else {
            Ok(OrderView::Https { rule: bound })
        }
    } else {
        match resolver_for(ctx.factory, bound) {
            Err(e) => Err(resolver_message(bound.name, e)),
            Ok(resolver) => Ok(
                OrderView::L4 {
                    rule: bound,
                    resolver,
                    description: resolver_text(resolver),
                    expect_inbound_proxy: ctx.factory.mode == Mode::Relay && bound.proxy_protocol
                        == Some(ProxyProto::V2),
                },
            ),
        }
    }
}

/// Law: an HTTPS frontend is started for a rule with routes only, and where no
/// other proxy claims its address or listens on port 80 beside it.
pub proof fn law_https_order_is_served(rule: RuleView, ctx: SpawnContext, active: ActiveModel)
    requires
        spawn_order(rule, ctx, active) is Ok,
        spawn_order(rule, ctx, active)->Ok_0 is Https,
    ensures
        ({
            let bound = spawn_order(rule, ctx, active)->Ok_0->Https_rule;
            &&& has_routes(bound) && bound.routes == rule.routes
            &&& !addr_claimed(active, bound.listen)
            &&& !addr_taken_by_l4(active, addr_of(addr_ip(bound.listen), 80))
        }),
{
}

/// Whether some running proxy claims the address.
fn is_claimed(active: &StrMap<ActiveProxy>, addr: SocketAddr) -> (r: bool)
    requires
        active.wf(),
    ensures
        r == addr_claimed(active@, addr),
{
    let n: usize = active.len();
    let ghost ks = active.keys();
    proof {
        active.lemma_keys();
    }
    for i in 0..n
        invariant
            active.wf(),
            ks == active.keys(),
            n == ks.len(),
            forall|j: int| 0 <= j < i ==> !claims_addr(active@[#[trigger] ks[j]], addr),
    {
        let p = active.value_at(i);
        if p.listen == addr || (p.protocol == Protocol::Https && addr == SocketAddr::new(
            p.listen.ip(),
            80,
        )) {
            assert(active@.contains_key(ks[i as int]));
            return true;
        }
    }
    proof {
        if addr_claimed(active@, addr) {
            let k = choose|k: Seq<char>| #[trigger]
                active@.contains_key(k) && claims_addr(active@[k], addr);
            assert(ks.contains(k));
            let j = choose|j: int| 0 <= j < ks.len() && ks[j] == k;
            assert(!claims_addr(active@[ks[j]], addr));
        }
    }
    false
}

/// Whether some running proxy other than an HTTPS one listens on the address.
fn is_taken_by_l4(active: &StrMap<ActiveProxy>, addr: SocketAddr) -> (r: bool)
    requires
        active.wf(),
    ensures
        r == addr_taken_by_l4(active@, addr),
{
    let n: usize = active.len();
    let ghost ks = active.keys();
    proof {
        active.lemma_keys();
    }
    for i in 0..n
        invariant
            active.wf(),
            ks == active.keys(),
            n == ks.len(),
            forall|j: int|
                0 <= j < i ==> !(active@[#[trigger] ks[j]].protocol != Protocol::Https
                    && active@[ks[j]].listen == addr),
    {
        let p = active.value_at(i);
        if p.protocol != Protocol::Https && p.listen == addr {
            assert(active@.contains_key(ks[i as int]));
            return true;
        }
    }
    proof {
        if addr_taken_by_l4(active@, addr) {
            let k = choose|k: Seq<char>| #[trigger]
                active@.contains_key(k) && active@[k].protocol != Protocol::Https
                    && active@[k].listen == addr;
            assert(ks.contains(k));
            let j = choose|j: int| 0 <= j < ks.len() && ks[j] == k;
            assert(active@[ks[j]].listen == addr);
        }
    }
    false
}

/// Decides how to start a proxy for a rule, or why not.
pub fn plan_spawn(rule: Rule, ctx: &SpawnContext, active: &StrMap<ActiveProxy>) -> (r: Result<
    SpawnOrder,
    String,
>)
    requires
        active.wf(),
    ensures
        match spawn_order(rule@, *ctx, active@) {
            Ok(o) => r is Ok && r->Ok_0@ == o,
            Err(m) => r is Err && r->Err_0@ == m,
        },
        r is Ok && r->Ok_0 is L4 ==> (r->Ok_0->expect_inbound_proxy <==> ctx.factory.mode
            == Mode::Relay && rule.proxy_protocol == Some(ProxyProto::V2)),
{
    let rule = rule.with_bind_override(ctx.bind);
    if is_claimed(active, rule.listen) {
        let mut m = "rule ".to_owned();
        m.append(quoted(rule.name.as_str()).as_str());
        m.append(": listen address ");
        m.append(rule.listen.to_text().as_str());
        m.append(" is already claimed by another rule");
        return Err(m);
    }
    if rule.protocol == Protocol::Https {
        if ctx.https_rules == HttpsRules::NodeWide {
            let mut m = "rule ".to_owned();
            m.append(quoted(rule.name.as_str()).as_str());
            m.append(
                ": protocol = \"https\" is no longer valid on `[[rule]]`; use top-level `[[route]]` blocks",
            );
            return Err(m);
        }
        let implicit = SocketAddr::new(rule.listen.ip(), 80);
        if is_taken_by_l4(active, implicit) {
            let mut m = "rule ".to_owned();
            m.append(quoted(rule.name.as_str()).as_str());
            m.append(": implicit HTTP→HTTPS redirect on ");
            m.append(implicit.to_text().as_str());
            m.append(" clashes with another rule already listening there");
            return Err(m);
        }
        let listed: usize = match &rule.routes {
            Some(v) => v.len(),
            None => 0,
        };
        if listed == 0 {
            let mut m = "HTTPS rule ".to_owned();
            m.append(quoted(rule.name.as_str()).as_str());
            m.append(": routes list is empty; validator should have rejected this");
            return Err(m);
        }
        return Ok(SpawnOrder::Https { rule });
    }
    match ctx.factory.build(&rule) {
        Err(e) => {
            let mut m = "build resolver for rule ".to_owned();
            m.append(quoted(rule.name.as_str()).as_str());
            m.append(": ");
            m.append(e.message().as_str());
            Err(m)
        },
        Ok(resolver) => {
            let description = resolver.describe();
            let expect_inbound_proxy = ctx.factory.mode == Mode::Relay && rule.proxy_protocol
                == Some(ProxyProto::V2);
            Ok(SpawnOrder::L4 { rule, resolver, description, expect_inbound_proxy })
        },
    }
}

/// What to do next for a new rule set.
#[derive(Debug)]
pub enum UpdateAction {
    /// Stop this proxy; it is no longer in the table.
    Stop(ActiveProxy),
    /// Start a proxy, and report it where it runs.
    Start(SpawnOrder),
    /// The rule stays offline, for this reason.
    Refuse { rule: String, reason: String },
    /// Nothing is left to do.
    Finished,
}

/// The running proxies, the position among the tasks, and the action.
pub struct UpdateStep {
    pub active: ActiveModel,
    pub next: int,
    pub action: UpdateActionView,
}

/// The model of an [`UpdateAction`].
pub enum UpdateActionView {
    Stop(ActiveProxy),
    Start(OrderView),
    Refuse { rule: Seq<char>, reason: Seq<char> },
    Finished,
}

impl View for UpdateAction {
    type V = UpdateActionView;

    open spec fn view(&self) -> UpdateActionView {
        match self {
            UpdateAction::Stop(p) => UpdateActionView::Stop(*p),
            UpdateAction::Start(o) => UpdateActionView::Start(o@),
            UpdateAction::Refuse { rule, reason } => UpdateActionView::Refuse {
                rule: rule@,
                reason: reason@,
            },
            UpdateAction::Finished => UpdateActionView::Finished,
        }
    }
}

/// What to do next from task `i` on. Tasks to stop what does not run are passed
/// over.
pub open spec fn update_step(
    tasks: Seq<TaskView>,
    i: int,
    active: ActiveModel,
    ctx: SpawnContext,
) -> UpdateStep
    decreases tasks.len() - i,
{
    if i < 0 || i >= tasks.len() {
        UpdateStep { active, next: i, action: UpdateActionView::Finished }
    } else {
        match tasks[i] {
            TaskView::Stop(name) => if active.contains_key(name) {
                UpdateStep {
                    active: active.remove(name),
                    next: i + 1,
                    action: UpdateActionView::Stop(active[name]),
                }
            } else {
                update_step(tasks, i + 1, active, ctx)
            },
            TaskView::Start(rule) => match spawn_order(rule, ctx, active) {
                Ok(o) => UpdateStep { active, next: i + 1, action: UpdateActionView::Start(o) },
                Err(m) => UpdateStep {
                    active,
                    next: i + 1,
                    action: UpdateActionView::Refuse { rule: rule.name, reason: m },
                },
            },
        }
    }
}

/// The tasks of a new rule set, and how far they are done.
#[derive(Debug)]
pub struct UpdateRun {
    pub tasks: Vec<UpdateTask>,
    pub next: usize,
}

impl UpdateRun {
    /// The tasks for going from one rule set to another.
    pub fn new(old: &RuleSet, new: &RuleSet) -> (r: UpdateRun)
        ensures
            task_views(r.tasks@) == update_plan(rule_views(old.rules@), rule_views(new.rules@)),
            r.next == 0,
    {
        let diff = old.diff(new);
        UpdateRun { tasks: plan_update(&diff), next: 0 }
    }

    /// Decides what to do next. A proxy that is to stop leaves the table at
    /// once.
    pub fn advance(&mut self, active: &mut StrMap<ActiveProxy>, ctx: &SpawnContext) -> (r:
        UpdateAction)
        requires
            old(active).wf(),
        ensures
            final(active).wf(),
            final(self).tasks == old(self).tasks,
            ({
                let s = update_step(
                    task_views(old(self).tasks@),
                    old(self).next as int,
                    old(active)@,
                    *ctx,
                );
                &&& final(active)@ == s.active
                &&& final(self).next == s.next
                &&& r@ == s.action
            }),
    {
        let ghost tasks = task_views(self.tasks@);
        let ghost start = self.next as int;
        let ghost before = active@;
        let ghost all = self.tasks;
        while self.next < self.tasks.len()
            invariant
                active.wf(),
                active@ == before,
                before == old(active)@,
                all == old(self).tasks,
                start == old(self).next as int,
                self.tasks == all,
                tasks == task_views(self.tasks@),
                start <= self.next,
                update_step(tasks, start, before, *ctx) == update_step(
                    tasks,
                    self.next as int,
                    before,
                    *ctx,
                ),
            decreases self.tasks@.len() - self.next,
        {
            let i: usize = self.next;
            assert(tasks[i as int] == self.tasks@[i as int]@);
            self.next = i + 1;
            match &self.tasks[i] {
                UpdateTask::Stop(name) => {
                    if let Some(p) = active.remove(name.as_str()) {
                        return UpdateAction::Stop(p);
                    }
                    assert(before.remove(name@) =~= before);
                },
                UpdateTask::Start(rule) => {
                    let name = rule.name.clone();
                    return match plan_spawn(rule.clone(), ctx, active) {
                        Ok(o) => UpdateAction::Start(o),
                        Err(reason) => UpdateAction::Refuse { rule: name, reason },
                    };
                },
            }
        }
        UpdateAction::Finished
    }

    /// Reports that the proxy of a rule runs.
    pub fn started(&self, active: &mut StrMap<ActiveProxy>, name: &str, proxy: ActiveProxy)
        requires
            old(active).wf(),
        ensures
            final(active).wf(),
            final(active)@ == old(active)@.insert(name@, proxy),
    {
        let _ = active.insert(name.to_owned(), proxy);
    }
}

/// The names of a list of rules are distinct.
pub open spec fn names_distinct(v: Seq<RuleView>) -> bool {
    forall|i: int, j: int| 0 <= i < j < v.len() ==> (#[trigger] v[i]).name != (#[trigger] v[j]).name
}

/// A rule is the one under its name where names are distinct.
proof fn lemma_rule_pos_is(v: Seq<RuleView>, i: int)
    requires
        names_distinct(v),
        0 <= i < v.len(),
    ensures
        rule_pos(v, v[i].name) == i,
{
    lemma_rule_pos(v, v[i].name);
    let p = rule_pos(v, v[i].name);
    if p < i {
        assert(v[p].name != v[i].name);
    } else if i < p {
        assert(v[i].name != v[i].name);
    }
}

/// Missing rules are rules that the other list does not have.
proof fn lemma_missing(v: Seq<RuleView>, other: Seq<RuleView>, n: int, k: int)
    requires
        0 <= n <= v.len(),
        0 <= k < missing_from(v, other, n).len(),
    ensures
        !has_rule(other, missing_from(v, other, n)[k].name),
    decreases n,
{
    if n > 0 && k < missing_from(v, other, n - 1).len() {
        lemma_missing(v, other, n - 1, k);
    }
}

/// Redefined rules are rules that both lists have with different definitions.
proof fn lemma_redefined(old: Seq<RuleView>, new: Seq<RuleView>, n: int, k: int)
    requires
        0 <= n <= new.len(),
        0 <= k < redefined(old, new, n).len(),
    ensures
        ({
            let c = redefined(old, new, n)[k];
            &&& c.0.name == c.1.name
            &&& c.0 != c.1
            &&& exists|i: int| 0 <= i < n && #[trigger] new[i] == c.1
            &&& has_rule(old, c.1.name) && old[rule_pos(old, c.1.name)] == c.0
        }),
    decreases n,
{
    if n > 0 {
        if k < redefined(old, new, n - 1).len() {
            lemma_redefined(old, new, n - 1, k);
            let c = redefined(old, new, n)[k];
            let i = choose|i: int| 0 <= i < n - 1 && #[trigger] new[i] == c.1;
            assert(new[i] == c.1);
        } else {
            lemma_rule_pos(old, new[n - 1].name);
            assert(new[n - 1] == redefined(old, new, n)[k].1);
        }
    }
}

/// Law: a rule that is the same before and after appears in no task.
pub proof fn law_unchanged_rules_have_no_task(
    old: Seq<RuleView>,
    new: Seq<RuleView>,
    a: int,
    b: int,
    t: int,
)
    requires
        names_distinct(old),
        names_distinct(new),
        0 <= a < old.len(),
        0 <= b < new.len(),
        old[a] == new[b],
        0 <= t < update_plan(old, new).len(),
    ensures
        task_name(update_plan(old, new)[t]) != old[a].name,
{
    let name = old[a].name;
    lemma_rule_pos_is(old, a);
    lemma_rule_pos_is(new, b);
    let removed = missing_from(old, new, old.len() as int);
    let changed = redefined(old, new, new.len() as int);
    let added = missing_from(new, old, new.len() as int);
    let n1 = removed.len() as int;
    let n2 = 2 * changed.len() as int;
    let plan = update_plan(old, new);
    if t < n1 {
        assert(plan[t] == TaskView::Stop(removed[t].name));
        lemma_missing(old, new, old.len() as int, t);
    } else if t < n1 + n2 {
        let k = (t - n1) / 2;
        lemma_redefined(old, new, new.len() as int, k);
        let c = changed[k];
        if c.1.name == name {
            let i = choose|i: int| 0 <= i < new.len() && #[trigger] new[i] == c.1;
            lemma_rule_pos_is(new, i);
            assert(i == b);
        }
        assert(plan[t] == swap_tasks(changed)[t - n1]);
    } else {
        let k = t - n1 - n2;
        assert(plan[t] == TaskView::Start(added[k]));
        lemma_missing(new, old, new.len() as int, k);
    }
}

/// Law: a step of an update leaves alone every running proxy that no task is
/// about: it stays in the table, as it was, and no action names it.
pub proof fn law_step_touches_only_its_tasks(
    tasks: Seq<TaskView>,
    i: int,
    active: ActiveModel,
    ctx: SpawnContext,
    name: Seq<char>,
)
    requires
        0 <= i,
        active.contains_key(name),
        forall|t: int| 0 <= t < tasks.len() ==> task_name(#[trigger] tasks[t]) != name,
    ensures
        update_step(tasks, i, active, ctx).active.contains_key(name),
        update_step(tasks, i, active, ctx).active[name] == active[name],
        match update_step(tasks, i, active, ctx).action {
            UpdateActionView::Start(OrderView::L4 { rule, .. }) => rule.name != name,
            UpdateActionView::Start(OrderView::Https { rule }) => rule.name != name,
            UpdateActionView::Refuse { rule, .. } => rule != name,
            _ => true,
        },
    decreases tasks.len() - i,
{
    if i < tasks.len() {
        assert(task_name(tasks[i]) != name);
        match tasks[i] {
            TaskView::Stop(n) => {
                if !active.contains_key(n) {
                    law_step_touches_only_its_tasks(tasks, i + 1, active, ctx, name);
                }
            },
            TaskView::Start(_) => {},
        }
    }
}

/// Law: no two running proxies ever listen on one address: a proxy is started
/// only where nobody claims the address.
pub proof fn law_started_address_is_free(rule: RuleView, ctx: SpawnContext, active: ActiveModel)
    requires
        spawn_order(rule, ctx, active) is Ok,
    ensures
        !addr_claimed(active, bound_listen(rule.listen, ctx.bind)),
{
}

/// What is shown of a running proxy.
#[derive(Debug)]
pub struct ProxySnapshot {
    pub name: String,
    pub protocol: Protocol,
    pub listen: SocketAddr,
    pub upstream_description: String,
    pub cert_less_route_count: usize,
}

/// The model of a [`ProxySnapshot`].
pub struct SnapshotView {
    pub name: Seq<char>,
    pub protocol: Protocol,
    pub listen: SocketAddr,
    pub upstream_description: Seq<char>,
    pub cert_less_route_count: usize,
}

impl View for ProxySnapshot {
    type V = SnapshotView;

    open spec fn view(&self) -> SnapshotView {
        SnapshotView {
            name: self.name@,
            protocol: self.protocol,
            listen: self.listen,
            upstream_description: self.upstream_description@,
            cert_less_route_count: self.cert_less_route_count,
        }
    }
}

/// What is shown of a running proxy.
pub open spec fn snapshot_of(p: ActiveProxy) -> SnapshotView {
    SnapshotView {
        name: p.name@,
        protocol: p.protocol,
        listen: p.listen,
        upstream_description: p.upstream_description@,
        cert_less_route_count: p.cert_less_route_count,
    }
}

fn snapshot_proxy(p: &ActiveProxy) -> (r: ProxySnapshot)
    ensures
        r@ == snapshot_of(*p),
{
    ProxySnapshot {
        name: p.name.clone(),
        protocol: p.protocol,
        listen: p.listen,
        upstream_description: p.upstream_description.clone(),
        cert_less_route_count: p.cert_less_route_count,
    }
}

/// Every running proxy is listed under the name of its rule.
pub open spec fn named_by_rule(active: ActiveModel) -> bool {
    forall|k: Seq<char>| #[trigger] active.contains_key(k) ==> active[k].name@ == k
}

/// Snapshots by increasing name, equal names next to each other.
pub open spec fn sorted_snapshots(v: Seq<SnapshotView>) -> bool {
    forall|i: int, j: int|
        0 <= i < j < v.len() ==> !text_lt((#[trigger] v[j]).name, (#[trigger] v[i]).name)
}

/// Views of a list of snapshots.
pub open spec fn snapshot_views(v: Seq<ProxySnapshot>) -> Seq<SnapshotView> {
    Seq::new(v.len(), |i: int| v[i]@)
}

/// The snapshot is that of some running proxy.
pub open spec fn shows_some(active: ActiveModel, s: SnapshotView) -> bool {
    exists|k: Seq<char>| #[trigger] active.contains_key(k) && s == snapshot_of(active[k])
}

/// A list shows the running proxies by increasing name, the HTTPS frontend
/// among them.
pub open spec fn snapshots_show(
    v: Seq<SnapshotView>,
    active: ActiveModel,
    https: Option<ActiveProxy>,
) -> bool {
    &&& sorted_snapshots(v)
    &&& v.len() == active.dom().len() + (if https is Some {
        1int
    } else {
        0
    })
    &&& forall|k: Seq<char>| #[trigger]
        active.contains_key(k) ==> v.contains(snapshot_of(active[k]))
    &&& https is Some ==> v.contains(snapshot_of(https->0))
    &&& forall|i: int|
        0 <= i < v.len() ==> (https is Some && (#[trigger] v[i]) == snapshot_of(https->0))
            || shows_some(active, v[i])
}

/// The running proxies by increasing name, the HTTPS frontend among them.
pub fn snapshot(active: &StrMap<ActiveProxy>, https: Option<&ActiveProxy>) -> (r: Vec<
    ProxySnapshot,
>)
    requires
        active.wf(),
        named_by_rule(active@),
    ensures
        snapshots_show(
            snapshot_views(r@),
            active@,
            match https {
                Some(p) => Some(*p),
                None => None,
            },
        ),
        sorted_snapshots(snapshot_views(r@)),
        r@.len() == active@.dom().len() + (if https is Some {
            1int
        } else {
            0
        }),
        forall|k: Seq<char>| #[trigger]
            active@.contains_key(k) ==> snapshot_views(r@).contains(snapshot_of(active@[k])),
        https is Some ==> snapshot_views(r@).contains(snapshot_of(*https->0)),
        forall|i: int|
            0 <= i < r@.len() ==> (https is Some && (#[trigger] snapshot_views(r@)[i])
                == snapshot_of(*https->0)) || shows_some(active@, snapshot_views(r@)[i]),
{
    let mut out: Vec<ProxySnapshot> = Vec::new();
    let n: usize = active.len();
    let ghost ks = active.keys();
    proof {
        active.lemma_keys();
    }
    for i in 0..n
        invariant
            active.wf(),
            named_by_rule(active@),
            ks == active.keys(),
            n == ks.len(),
            out@.len() == i,
            forall|j: int| 0 <= j < i ==> active@.contains_key(#[trigger] ks[j]),
            forall|j: int|
                0 <= j < i ==> #[trigger] snapshot_views(out@)[j] == snapshot_of(active@[ks[j]]),
    {
        let p = active.value_at(i);
        let ghost done = out@;
        out.push(snapshot_proxy(p));
        assert(snapshot_views(out@) =~= snapshot_views(done).push(snapshot_of(*p)));
    }
    let ghost list = snapshot_views(out@);
    proof {
        assert forall|i: int, j: int| 0 <= i < j < list.len() implies !text_lt(
            (#[trigger] list[j]).name,
            (#[trigger] list[i]).name,
        ) by {
            assert(list[i].name == ks[i] && list[j].name == ks[j]);
            assert(text_lt(ks[i], ks[j]));
            if text_lt(ks[j], ks[i]) {
                crate::text::lemma_text_lt_transitive(ks[i], ks[j], ks[i]);
                crate::text::lemma_text_lt_irreflexive(ks[i]);
            }
        }
        assert forall|k: Seq<char>| #[trigger] active@.contains_key(k) implies list.contains(
            snapshot_of(active@[k]),
        ) by {
            assert(ks.contains(k));
            let j = choose|j: int| 0 <= j < ks.len() && ks[j] == k;
            assert(list[j] == snapshot_of(active@[ks[j]]));
        }
        assert forall|i: int| 0 <= i < list.len() implies shows_some(
            active@,
            #[trigger] list[i],
        ) by {
            assert(active@.contains_key(ks[i]));
            assert(list[i] == snapshot_of(active@[ks[i]]));
        }
    }
    match https {
        None => out,
        Some(h) => {
            let s = snapshot_proxy(h);
            let ghost sv = s@;
            let mut p: usize = 0;
            while p < out.len() && !less(s.name.as_str(), out[p].name.as_str())
                invariant
                    p <= out@.len(),
                    list == snapshot_views(out@),
                    sv == s@,
                    forall|j: int| 0 <= j < p ==> !text_lt(sv.name, (#[trigger] list[j]).name),
                decreases out@.len() - p,
            {
                assert(list[p as int] == out@[p as int]@);
                p += 1;
            }
            out.insert(p, s);
            proof {
                let r = snapshot_views(out@);
                assert(r =~= list.insert(p as int, sv));
                assert forall|i: int, j: int| 0 <= i < j < r.len() implies !text_lt(
                    (#[trigger] r[j]).name,
                    (#[trigger] r[i]).name,
                ) by {
                    if j < p {
                        assert(r[i] == list[i] && r[j] == list[j]);
                    } else if j == p {
                        assert(r[i] == list[i]);
                        assert(!text_lt(sv.name, list[i].name));
                    } else if i == p {
                        assert(r[j] == list[j - 1]);
                        lemma_after_slot(list, sv.name, p as int, j - 1);
                    } else if i < p {
                        assert(r[i] == list[i] && r[j] == list[j - 1]);
                    } else {
                        assert(r[i] == list[i - 1] && r[j] == list[j - 1]);
                    }
                }
                assert(r[p as int] == sv);
                assert forall|k: Seq<char>| #[trigger] active@.contains_key(k) implies r.contains(
                    snapshot_of(active@[k]),
                ) by {
                    let x = snapshot_of(active@[k]);
                    assert(list.contains(x));
                    let j = choose|j: int| 0 <= j < list.len() && list[j] == x;
                    if j < p {
                        assert(r[j] == x);
                    } else {
                        assert(r[j + 1] == x);
                    }
                }
                assert forall|i: int| 0 <= i < r.len() implies (#[trigger] r[i]) == sv
                    || shows_some(active@, r[i]) by {
                    if i < p {
                        assert(r[i] == list[i]);
                    } else if i > p {
                        assert(r[i] == list[i - 1]);
                    }
                }
            }
            out
        },
    }
}

/// In a sorted list, nothing after the first name above `name` is below it.
proof fn lemma_after_slot(list: Seq<SnapshotView>, name: Seq<char>, p: int, j: int)
    requires
        sorted_snapshots(list),
        0 <= p <= j < list.len(),
        text_lt(name, list[p].name),
    ensures
        !text_lt(list[j].name, name),
{
    if text_lt(list[j].name, name) {
        crate::text::lemma_text_lt_transitive(list[j].name, name, list[p].name);
        if p == j {
            crate::text::lemma_text_lt_irreflexive(list[p].name);
        } else {
            assert(!text_lt(list[j].name, list[p].name));
        }
    }
}

/// What woke the supervisor.
#[derive(Debug)]
pub enum LoopEvent {
    /// The daemon is being stopped.
    Cancelled,
    /// The rule files changed.
    FileUpdate(RuleSet),
    /// The rule files are no longer watched.
    WatcherClosed,
    /// A rule set was pushed.
    Pushed(RuleSet),
    /// Nobody can push any more.
    PushClosed,
}

/// What the supervisor does then.
#[derive(Debug)]
pub enum LoopAction {
    /// Stop everything and leave.
    Shutdown,
    /// Apply the rule set. With `announce`, say so to the service manager
    /// before and after.
    Apply { set: RuleSet, source: &'static str, announce: bool },
    /// Go back to sleep.
    Nothing,
}

/// Neither rules nor routes.
pub open spec fn set_is_empty(s: RuleSet) -> bool {
    s.rules@.len() == 0 && s.routes@.len() == 0
}

/// An update from the files is announced.
pub open spec fn announced(current: RuleSet, set: RuleSet) -> bool {
    !(set_is_empty(current) && set_is_empty(set))
}

/// The supervisor does what an event asks for.
pub open spec fn loop_action_is(r: LoopAction, current: RuleSet, event: LoopEvent) -> bool {
    match event {
        LoopEvent::Cancelled | LoopEvent::WatcherClosed => r is Shutdown,
        LoopEvent::PushClosed => r is Nothing,
        LoopEvent::FileUpdate(set) => r is Apply && r->set == set && r->source@ == "file_watcher"@
            && r->announce == announced(current, set),
        LoopEvent::Pushed(set) => r is Apply && r->set == set && r->source@ == "external_push"@
            && r->announce,
    }
}

/// Decides what the supervisor does. The empty set at startup is applied
/// without announcement.
pub fn next_loop_action(current: &RuleSet, event: LoopEvent) -> (r: LoopAction)
    ensures
        loop_action_is(r, *current, event),
{
    match event {
        LoopEvent::Cancelled | LoopEvent::WatcherClosed => LoopAction::Shutdown,
        LoopEvent::PushClosed => LoopAction::Nothing,
        LoopEvent::FileUpdate(set) => {
            let quiet = current.rules.len() == 0 && set.rules.len() == 0 && current.routes.len()
                == 0 && set.routes.len() == 0;
            LoopAction::Apply { set, source: "file_watcher", announce: !quiet }
        },
        LoopEvent::Pushed(set) => LoopAction::Apply {
            set,
            source: "external_push",
            announce: true,
        },
    }
}

/// Returned where a rule set is pushed to a supervisor that is gone.
#[derive(Clone, Copy, Debug, PartialEq, Eq, Structural)]
pub struct SupervisorShutDown;

impl SupervisorShutDown {
    /// The message of the error.
    pub fn message(&self) -> (r: &'static str)
        ensures
            r@ == "proxy supervisor is shut down"@,
    {
        "proxy supervisor is shut down"
    }
}

/// Law: a proxy reads the previous hop's PROXY header exactly where the daemon is
/// a relay and the rule passes the client on as v2: a terminal never does, and a
/// relay's v2 rule always does. The proxy serves the rule as it is, on the bind
/// address where there is one, and dials what the rule names.
pub proof fn law_relay_reads_the_previous_hop(
    rule: RuleView,
    ctx: SpawnContext,
    active: ActiveModel,
)
    requires
        spawn_order(rule, ctx, active) is Ok,
        spawn_order(rule, ctx, active)->Ok_0 is L4,
    ensures
        ({
            let order = spawn_order(rule, ctx, active)->Ok_0;
            &&& rule.protocol != Protocol::Https
            &&& order->expect_inbound_proxy <==> ctx.factory.mode == Mode::Relay
                && rule.proxy_protocol == Some(ProxyProto::V2)
            &&& order->L4_rule == (RuleView { listen: order->L4_rule.listen, ..rule })
            &&& order->description == crate::resolver::resolver_text(order->resolver)
            &&& order->L4_rule.name == rule.name
            &&& order->L4_rule.protocol == rule.protocol
            &&& order->L4_rule.proxy_protocol == rule.proxy_protocol
            &&& order->L4_rule.idle_timeout == rule.idle_timeout
            &&& addr_port(order->L4_rule.listen) == addr_port(rule.listen)
            &&& addr_ip(order->L4_rule.listen) == (match ctx.bind {
                Some(ip) => ip,
                None => addr_ip(rule.listen),
            })
            &&& ctx.factory.mode == Mode::Relay ==> order->resolver == (UpstreamResolver::Dynamic {
                port: rule.upstream_port->0,
            })
            &&& ctx.factory.mode == Mode::Terminal ==> order->resolver == (
            UpstreamResolver::Static { addr: rule.upstream_addr->0 })
        }),
{
}

/// Law: a rule for TCP or UDP that has the shape of the daemon's mode is started,
/// unless its address is taken: by a proxy that listens there, or, for port 80,
/// by an HTTPS one of the same address.
pub proof fn law_sound_rule_is_started(rule: RuleView, ctx: SpawnContext, active: ActiveModel)
    requires
        rule.protocol != Protocol::Https,
        ctx.factory.mode == Mode::Relay ==> ctx.factory.has_peer && rule.upstream_port is Some
            && rule.upstream_addr is None,
        ctx.factory.mode == Mode::Terminal ==> rule.upstream_port is None && rule.upstream_addr
            is Some,
    ensures
        ({
            let at = match ctx.bind {
                Some(ip) => addr_of(ip, addr_port(rule.listen)),
                None => rule.listen,
            };
            let taken = exists|k: Seq<char>| #[trigger]
                active.contains_key(k) && (active[k].listen == at || active[k].protocol
                    == Protocol::Https && at == addr_of(addr_ip(active[k].listen), 80));
            &&& !taken ==> spawn_order(rule, ctx, active) is Ok && spawn_order(
                rule,
                ctx,
                active,
            )->Ok_0 is L4
            &&& taken ==> spawn_order(rule, ctx, active) is Err
        }),
{
    let at = bound_listen(rule.listen, ctx.bind);
    if exists|k: Seq<char>| #[trigger]
        active.contains_key(k) && (active[k].listen == at || active[k].protocol == Protocol::Https
            && at == addr_of(addr_ip(active[k].listen), 80)) {
        let k = choose|k: Seq<char>| #[trigger]
            active.contains_key(k) && (active[k].listen == at || active[k].protocol
                == Protocol::Https && at == addr_of(addr_ip(active[k].listen), 80));
        assert(active.contains_key(k) && claims_addr(active[k], at));
    }
    if addr_claimed(active, at) {
        let k = choose|k: Seq<char>| #[trigger]
            active.contains_key(k) && claims_addr(active[k], at);
        assert(active.contains_key(k));
    }
}

/// Law: an HTTPS rule gets a frontend of its own exactly where the node serves
/// rules so, the rule has routes, nobody listens on its address or on port 80
/// beside it for another protocol, and no HTTPS proxy holds its address.
pub proof fn law_https_rule_is_started(rule: RuleView, ctx: SpawnContext, active: ActiveModel)
    requires
        rule.protocol == Protocol::Https,
    ensures
        ({
            let at = match ctx.bind {
                Some(ip) => addr_of(ip, addr_port(rule.listen)),
                None => rule.listen,
            };
            let taken = exists|k: Seq<char>| #[trigger]
                active.contains_key(k) && (active[k].listen == at || active[k].protocol
                    == Protocol::Https && at == addr_of(addr_ip(active[k].listen), 80));
            let clash = exists|k: Seq<char>| #[trigger]
                active.contains_key(k) && active[k].protocol != Protocol::Https
                    && active[k].listen == addr_of(addr_ip(at), 80);
            &&& spawn_order(rule, ctx, active) is Ok <==> ctx.https_rules == HttpsRules::PerRule
                && rule.routes is Some && rule.routes->0.len() > 0 && !taken && !clash
            &&& spawn_order(rule, ctx, active) is Ok ==> spawn_order(rule, ctx, active)->Ok_0 == (
            OrderView::Https { rule: RuleView { listen: at, ..rule } })
        }),
{
    let at = bound_listen(rule.listen, ctx.bind);
    if exists|k: Seq<char>| #[trigger]
        active.contains_key(k) && (active[k].listen == at || active[k].protocol == Protocol::Https
            && at == addr_of(addr_ip(active[k].listen), 80)) {
        let k = choose|k: Seq<char>| #[trigger]
            active.contains_key(k) && (active[k].listen == at || active[k].protocol
                == Protocol::Https && at == addr_of(addr_ip(active[k].listen), 80));
        assert(active.contains_key(k) && claims_addr(active[k], at));
    }
    if addr_claimed(active, at) {
        let k = choose|k: Seq<char>| #[trigger]
            active.contains_key(k) && claims_addr(active[k], at);
        assert(active.contains_key(k));
    }
}

/// Law: a new rule set is put in place by its tasks: what is gone or changed is
/// stopped, what is new or changed is started as newly defined, and a changed
/// rule is stopped before it is started.
pub proof fn law_every_change_has_its_tasks(old: Seq<RuleView>, new: Seq<RuleView>, i: int)
    requires
        names_distinct(old),
        names_distinct(new),
    ensures
        0 <= i < new.len() && (forall|j: int|
            0 <= j < old.len() ==> (#[trigger] old[j]).name != new[i].name) ==> update_plan(
            old,
            new,
        ).contains(TaskView::Start(new[i])),
        0 <= i < old.len() && (forall|j: int|
            0 <= j < new.len() ==> (#[trigger] new[j]).name != old[i].name) ==> update_plan(
            old,
            new,
        ).contains(TaskView::Stop(old[i].name)),
        0 <= i < new.len() ==> forall|j: int|
            0 <= j < old.len() && (#[trigger] old[j]).name == new[i].name && old[j] != new[i]
                ==> exists|t: int|
                0 <= t < update_plan(old, new).len() - 1 && #[trigger] update_plan(old, new)[t]
                    == TaskView::Stop(new[i].name) && update_plan(old, new)[t + 1]
                    == TaskView::Start(new[i]),
{
    let removed = missing_from(old, new, old.len() as int);
    let changed = redefined(old, new, new.len() as int);
    let added = missing_from(new, old, new.len() as int);
    let plan = update_plan(old, new);
    let (n1, n2) = (removed.len() as int, 2 * changed.len() as int);
    if 0 <= i < new.len() {
        crate::rule::law_diff_goes_by_name_and_definition(old, new, new.len() as int, i);
        if added.contains(new[i]) {
            let k = choose|k: int| 0 <= k < added.len() && added[k] == new[i];
            assert(plan[n1 + n2 + k] == TaskView::Start(new[i]));
        }
        assert forall|j: int|
            0 <= j < old.len() && (#[trigger] old[j]).name == new[i].name && old[j]
                != new[i] implies exists|t: int|
            0 <= t < plan.len() - 1 && #[trigger] plan[t] == TaskView::Stop(new[i].name) && plan[t
                + 1] == TaskView::Start(new[i]) by {
            let k = choose|k: int| 0 <= k < changed.len() && changed[k] == (old[j], new[i]);
            let t = n1 + 2 * k;
            assert(swap_tasks(changed)[2 * k] == TaskView::Stop(changed[k].0.name));
            assert(swap_tasks(changed)[2 * k + 1] == TaskView::Start(changed[k].1));
            assert(plan[t] == TaskView::Stop(new[i].name));
            assert(plan[t + 1] == TaskView::Start(new[i]));
        }
    }
    if 0 <= i < old.len() {
        crate::rule::law_diff_goes_by_name_and_definition(new, old, old.len() as int, i);
        if removed.contains(old[i]) {
            let k = choose|k: int| 0 <= k < removed.len() && removed[k] == old[i];
            assert(plan[k] == TaskView::Stop(old[i].name));
        }
    }
}

/// Law: an update does one task at a time. A proxy that is to stop leaves the
/// table, and is the one handed out; a stop of what does not run is passed over;
/// a start hands out an order or the reason why not, and leaves the table alone.
pub proof fn law_update_does_each_task(
    tasks: Seq<TaskView>,
    i: int,
    active: ActiveModel,
    ctx: SpawnContext,
    other: Seq<char>,
)
    requires
        0 <= i,
    ensures
        ({
            let s = update_step(tasks, i, active, ctx);
            &&& i >= tasks.len() ==> s.action is Finished && s.active == active && s.next == i
            &&& i < tasks.len() && tasks[i] is Stop && active.contains_key(tasks[i]->Stop_0) ==> {
                &&& s.action == UpdateActionView::Stop(active[tasks[i]->Stop_0])
                &&& s.next == i + 1
                &&& !s.active.contains_key(tasks[i]->Stop_0)
                &&& other != tasks[i]->Stop_0 ==> (s.active.contains_key(other)
                    <==> active.contains_key(other)) && (active.contains_key(other)
                    ==> s.active[other] == active[other])
            }
            &&& i < tasks.len() && tasks[i] is Stop && !active.contains_key(tasks[i]->Stop_0) ==> s
                == update_step(tasks, i + 1, active, ctx)
            &&& i < tasks.len() && tasks[i] is Start ==> {
                let order = spawn_order(tasks[i]->Start_0, ctx, active);
                &&& s.active == active && s.next == i + 1
                &&& order is Ok ==> s.action == UpdateActionView::Start(order->Ok_0)
                &&& order is Err ==> s.action == (UpdateActionView::Refuse {
                    rule: tasks[i]->Start_0.name,
                    reason: order->Err_0,
                })
            }
        }),
{
}

/// Law: a snapshot shows a proxy as it runs.
pub proof fn law_snapshot_shows_the_proxy(p: ActiveProxy)
    ensures
        snapshot_of(p).name == p.name@,
        snapshot_of(p).protocol == p.protocol,
        snapshot_of(p).listen == p.listen,
        snapshot_of(p).upstream_description == p.upstream_description@,
        snapshot_of(p).cert_less_route_count == p.cert_less_route_count,
{
}

/// Law: an update from the files is announced exactly where there were or will be
/// rules or routes.
pub proof fn law_empty_start_is_quiet(current: RuleSet, set: RuleSet)
    ensures
        announced(current, set) <==> current.rules@.len() > 0 || current.routes@.len() > 0
            || set.rules@.len() > 0 || set.routes@.len() > 0,
{
}

/// Law: the tasks are, in order, a stop for each removed rule, a stop and then
/// a start for each changed one, and a start for each added one.
pub proof fn law_tasks_are_in_order(
    removed: Seq<RuleView>,
    changed: Seq<(RuleView, RuleView)>,
    added: Seq<RuleView>,
    i: int,
)
    ensures
        ({
            let t = tasks_of(removed, changed, added);
            let a = removed.len() as int;
            let b = a + 2 * changed.len();
            &&& t.len() == b + added.len()
            &&& 0 <= i < removed.len() ==> t[i] == TaskView::Stop(removed[i].name)
            &&& 0 <= i < changed.len() ==> t[a + 2 * i] == TaskView::Stop(changed[i].0.name) && t[a
                + 2 * i + 1] == TaskView::Start(changed[i].1)
            &&& 0 <= i < added.len() ==> t[b + i] == TaskView::Start(added[i])
        }),
{
}

/// Law: a rule that cannot be started is refused for the first of these: its
/// address is taken, the node does not serve HTTPS by rules, port 80 beside it
/// is taken, it has no routes, or no resolver can be built. The message names
/// the rule, and the address that is in the way.
pub proof fn law_refused_rule_is_told_why(rule: RuleView, ctx: SpawnContext, active: ActiveModel)
    ensures
        ({
            let at = match ctx.bind {
                Some(ip) => addr_of(ip, addr_port(rule.listen)),
                None => rule.listen,
            };
            let beside = addr_of(addr_ip(at), 80);
            let taken = addr_claimed(active, at);
            let https = rule.protocol == Protocol::Https;
            let per_rule = ctx.https_rules == HttpsRules::PerRule;
            let clash = addr_taken_by_l4(active, beside);
            let r = spawn_order(rule, ctx, active);
            &&& taken ==> r == Err::<OrderView, Seq<char>>(
                "rule "@ + debug_text(rule.name) + ": listen address "@ + addr_text(at)
                    + " is already claimed by another rule"@,
            )
            &&& !taken && https && !per_rule ==> r == Err::<OrderView, Seq<char>>(
                "rule "@ + debug_text(rule.name)
                    + ": protocol = \"https\" is no longer valid on `[[rule]]`; use top-level `[[route]]` blocks"@,
            )
            &&& !taken && https && per_rule && clash ==> r == Err::<OrderView, Seq<char>>(
                "rule "@ + debug_text(rule.name) + ": implicit HTTP→HTTPS redirect on "@
                    + addr_text(beside) + " clashes with another rule already listening there"@,
            )
            &&& !taken && https && per_rule && !clash && (rule.routes is None
                || rule.routes->0.len() == 0) ==> r == Err::<OrderView, Seq<char>>(
                "HTTPS rule "@ + debug_text(rule.name)
                    + ": routes list is empty; validator should have rejected this"@,
            )
            &&& !taken && !https && resolver_for(
                ctx.factory,
                RuleView { listen: at, ..rule },
            ) is Err ==> r == Err::<OrderView, Seq<char>>(
                "build resolver for rule "@ + debug_text(rule.name) + ": "@ + build_error_text(
                    resolver_for(ctx.factory, RuleView { listen: at, ..rule })->Err_0,
                ),
            )
        }),
{
}

/// Law: an address is taken where a proxy listens there, and, for port 80, where
/// an HTTPS proxy is beside it; for the listener beside an HTTPS rule only
/// proxies of another protocol count.
pub proof fn law_addresses_are_taken(active: ActiveModel, k: Seq<char>, addr: SocketAddr)
    requires
        active.contains_key(k),
    ensures
        active[k].listen == addr ==> addr_claimed(active, addr),
        active[k].protocol == Protocol::Https && addr == addr_of(addr_ip(active[k].listen), 80)
            ==> addr_claimed(active, addr),
        active[k].protocol != Protocol::Https && active[k].listen == addr ==> addr_taken_by_l4(
            active,
            addr,
        ),
        (forall|j: Seq<char>| #[trigger] active.contains_key(j) ==> active[j].listen != addr && !(
        active[j].protocol == Protocol::Https && addr == addr_of(addr_ip(active[j].listen), 80)))
            ==> !addr_claimed(active, addr),
        (forall|j: Seq<char>| #[trigger]
            active.contains_key(j) ==> active[j].protocol == Protocol::Https || active[j].listen
                != addr) ==> !addr_taken_by_l4(active, addr),
{
    if active[k].listen == addr || active[k].protocol == Protocol::Https && addr == addr_of(
        addr_ip(active[k].listen),
        80,
    ) {
        assert(active.contains_key(k) && claims_addr(active[k], addr));
    }
}

/// Law: a pushed rule set is always applied and announced, as it is; one from
/// the files is applied as it is. Only the end of the daemon or of the watch
/// stops the supervisor.
pub proof fn law_supervisor_applies_what_it_gets(r: LoopAction, current: RuleSet, set: RuleSet)
    ensures
        loop_action_is(r, current, LoopEvent::Pushed(set)) ==> r is Apply && r->set == set
            && r->announce && r->source@ == "external_push"@,
        loop_action_is(r, current, LoopEvent::FileUpdate(set)) ==> r is Apply && r->set == set
            && r->source@ == "file_watcher"@ && (r->announce <==> current.rules@.len() > 0
            || current.routes@.len() > 0 || set.rules@.len() > 0 || set.routes@.len() > 0),
        loop_action_is(r, current, LoopEvent::Cancelled) <==> r is Shutdown,
        loop_action_is(r, current, LoopEvent::WatcherClosed) <==> r is Shutdown,
        loop_action_is(r, current, LoopEvent::PushClosed) <==> r is Nothing,
{
}

/// Law: a list of snapshots is sorted where each name comes before, or is the
/// same as, every later one.
pub proof fn law_snapshots_are_sorted_by_name(v: Seq<SnapshotView>, i: int, j: int)
    requires
        sorted_snapshots(v),
        0 <= i < j < v.len(),
    ensures
        v[i].name == v[j].name || text_lt(v[i].name, v[j].name),
{
    assert(!text_lt(v[j].name, v[i].name));
    crate::text::lemma_text_lt_total(v[i].name, v[j].name);
}

/// Law: a list of snapshots has a row for each running proxy and for the HTTPS
/// frontend where it runs, with the name, the address and what it dials, and no
/// row besides.
pub proof fn law_every_proxy_is_shown(
    v: Seq<SnapshotView>,
    active: ActiveModel,
    https: Option<ActiveProxy>,
    k: Seq<char>,
    row: int,
)
    requires
        snapshots_show(v, active, https),
    ensures
        active.contains_key(k) ==> exists|i: int|
            0 <= i < v.len() && (#[trigger] v[i]).name == active[k].name@ && v[i].listen
                == active[k].listen && v[i].upstream_description
                == active[k].upstream_description@,
        https is Some ==> exists|i: int|
            0 <= i < v.len() && (#[trigger] v[i]).name == https->0.name@ && v[i].listen
                == https->0.listen,
        https is None ==> v.len() == active.dom().len(),
        https is Some ==> v.len() == active.dom().len() + 1,
        0 <= row < v.len() && https is None ==> exists|j: Seq<char>| #[trigger]
            active.contains_key(j) && active[j].name@ == v[row].name,
{
    if active.contains_key(k) {
        let s = snapshot_of(active[k]);
        assert(v.contains(s));
        let i = choose|i: int| 0 <= i < v.len() && v[i] == s;
        assert(v[i].name == active[k].name@);
    }
    if https is Some {
        let s = snapshot_of(https->0);
        assert(v.contains(s));
        let i = choose|i: int| 0 <= i < v.len() && v[i] == s;
        assert(v[i].name == https->0.name@);
    }
    if 0 <= row < v.len() && https is None {
        assert(shows_some(active, v[row]));
        let j = choose|j: Seq<char>| #[trigger]
            active.contains_key(j) && v[row] == snapshot_of(active[j]);
        assert(active.contains_key(j) && active[j].name@ == v[row].name);
    }
}

} // verus!
