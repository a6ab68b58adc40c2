//! The servers that are connected, and what is known of each.
use vstd::prelude::*;
use crate::mcp::config::{offers, McpServerConfig};
use crate::mcp::names::{exposed_name, namespaced_tool_name};
use crate::paths::{order_texts, text_order, Order};
use crate::text::chars::{copy_opt, copy_texts, lemma_views_push, member, same, view_opt, views};
use crate::text::search::{join, join_spec};

verus! {

/// How the connection with a server stands.
#[derive(Clone, Copy, Debug, PartialEq, Eq, Structural)]
pub enum McpServerState {
    Disabled,
    Connected,
    Disconnected,
    AuthRequired,
    Failed,
}

impl McpServerState {
    pub open spec fn word(self) -> Seq<char> {
        match self {
            McpServerState::Disabled => "disabled"@,
            McpServerState::Connected => "connected"@,
            McpServerState::Disconnected => "disconnected"@,
            McpServerState::AuthRequired => "auth_required"@,
            McpServerState::Failed => "failed"@,
        }
    }

    /// The word for the state.
    pub fn as_str(&self) -> (r: &'static str)
        ensures
            r@ == self.word(),
    {
        match self {
            McpServerState::Disabled => "disabled",
            McpServerState::Connected => "connected",
            McpServerState::Disconnected => "disconnected",
            McpServerState::AuthRequired => "auth_required",
            McpServerState::Failed => "failed",
        }
    }
}

/// Whether the user may be asked to sign in.
#[derive(Clone, Copy, Debug, PartialEq, Eq, Structural)]
pub enum OAuthFlow {
    StoredOnly,
    InteractiveIfRequired,
}

/// What is known of a server.
#[derive(Clone, Debug, PartialEq)]
pub struct McpServerStatus {
    pub name: String,
    pub state: McpServerState,
    pub tools: Vec<String>,
    pub detail: Option<String>,
}

#[verifier::ext_equal]
pub struct StatusView {
    pub name: Seq<char>,
    pub state: McpServerState,
    pub tools: Seq<Seq<char>>,
    pub detail: Option<Seq<char>>,
}

impl View for McpServerStatus {
    type V = StatusView;

    open spec fn view(&self) -> StatusView {
        StatusView {
            name: self.name@,
            state: self.state,
            tools: views(self.tools@),
            detail: view_opt(self.detail),
        }
    }
}

impl McpServerStatus {
    /// A copy of the status.
    pub fn copy(&self) -> (r: McpServerStatus)
        ensures
            r@ == self@,
    {
        McpServerStatus {
            name: self.name.clone(),
            state: self.state,
            tools: copy_texts(&self.tools),
            detail: copy_opt(&self.detail),
        }
    }
}

pub open spec fn statuses_view(v: Seq<McpServerStatus>) -> Seq<StatusView> {
    v.map_values(|s: McpServerStatus| s@)
}

/// A cause of a failed connection, as far as signing in is concerned.
#[derive(Clone, Debug, PartialEq)]
pub enum FailureCause {
    /// The server asks for signing in, with this challenge.
    AuthRequired(String),
    /// The rights do not suffice, with this challenge.
    InsufficientScope(String),
    /// The first exchange failed, with a challenge where there is one.
    Initialize(Option<String>),
    Other,
}

pub open spec fn asks_for_signing_in(c: FailureCause) -> bool {
    c is AuthRequired || c is InsufficientScope
}

/// The first challenge among the causes.
pub open spec fn challenge_of(causes: Seq<FailureCause>) -> Option<Seq<char>>
    decreases causes.len(),
{
    if causes.len() == 0 {
        None
    } else {
        match causes[0] {
            FailureCause::AuthRequired(t) => Some(t@),
            FailureCause::InsufficientScope(t) => Some(t@),
            FailureCause::Initialize(Some(t)) => Some(t@),
            _ => challenge_of(causes.skip(1)),
        }
    }
}

pub open spec fn any_asks(causes: Seq<FailureCause>) -> bool {
    exists|i: int| 0 <= i < causes.len() && asks_for_signing_in(#[trigger] causes[i])
}

/// The state of a server whose connection failed.
pub fn connection_error_state(causes: &Vec<FailureCause>) -> (r: McpServerState)
    ensures
        r == if any_asks(causes@) {
            McpServerState::AuthRequired
        } else {
            McpServerState::Failed
        },
{
    for i in 0..causes.len()
        invariant
            forall|j: int| 0 <= j < i ==> !asks_for_signing_in(#[trigger] causes@[j]),
    {
        let asks = match &causes[i] {
            FailureCause::AuthRequired(_) => true,
            FailureCause::InsufficientScope(_) => true,
            _ => false,
        };
        if asks {
            assert(asks_for_signing_in(causes@[i as int]));
            return McpServerState::AuthRequired;
        }
    }
    McpServerState::Failed
}

/// The challenge of a server that asks for signing in.
pub fn auth_challenge_from_error(causes: &Vec<FailureCause>) -> (r: Option<String>)
    ensures
        view_opt(r) == challenge_of(causes@),
{
    assert(causes@.skip(0) =~= causes@);
    for i in 0..causes.len()
        invariant
            challenge_of(causes@) == challenge_of(causes@.skip(i as int)),
    {
        assert(causes@.skip(i as int).skip(1) =~= causes@.skip(i + 1));
        match &causes[i] {
            FailureCause::AuthRequired(t) => {
                return Some(t.clone());
            },
            FailureCause::InsufficientScope(t) => {
                return Some(t.clone());
            },
            FailureCause::Initialize(Some(t)) => {
                return Some(t.clone());
            },
            _ => {},
        }
    }
    None
}

/// Whether a server asks for signing in.
pub fn is_auth_required(causes: &Vec<FailureCause>) -> (r: bool)
    ensures
        r == (challenge_of(causes@) is Some || any_asks(causes@)),
{
    auth_challenge_from_error(causes).is_some() || connection_error_state(causes)
        == McpServerState::AuthRequired
}

/// What follows a connection that failed with stored credentials.
#[derive(Clone, Debug, PartialEq)]
pub enum AfterFailure {
    /// Have the user sign in, with this challenge.
    SignIn(Option<String>),
    /// Give up; the text goes in front of the reason.
    GiveUp(Option<String>),
}

/// What follows a connection that failed with stored credentials.
pub fn after_stored_failure(flow: OAuthFlow, server: &str, causes: &Vec<FailureCause>) -> (r:
    AfterFailure)
    ensures
        ({
            let required = challenge_of(causes@) is Some || any_asks(causes@);
            match r {
                AfterFailure::SignIn(c) => flow == OAuthFlow::InteractiveIfRequired && required
                    && view_opt(c) == challenge_of(causes@),
                AfterFailure::GiveUp(t) => !(flow == OAuthFlow::InteractiveIfRequired && required)
                    && view_opt(t) == if required {
                    Some(
                        "MCP Server `"@ + server@ + "` 需要浏览器登录，输入 /mcp auth "@ + server@,
                    )
                } else {
                    None
                },
            }
        }),
{
    if !is_auth_required(causes) {
        return AfterFailure::GiveUp(None);
    }
    if flow == OAuthFlow::InteractiveIfRequired {
        return AfterFailure::SignIn(auth_challenge_from_error(causes));
    }
    let mut t = "MCP Server `".to_owned();
    t.append(server);
    t.append("` 需要浏览器登录，输入 /mcp auth ");
    t.append(server);
    AfterFailure::GiveUp(Some(t))
}

/// Which of the discovered tools of a server are offered: those that are
/// enabled and whose name is not taken.
#[verifier::ext_equal]
pub struct Adoption {
    /// All names that are taken, those of other servers among them.
    pub taken: Seq<Seq<char>>,
    /// The names under which the server's tools are offered.
    pub names: Seq<Seq<char>>,
    /// The positions of those tools among the discovered ones.
    pub positions: Seq<usize>,
    pub collisions: Seq<Seq<char>>,
}

pub open spec fn adopted(
    taken: Seq<Seq<char>>,
    config: McpServerConfig,
    server: Seq<char>,
    discovered: Seq<Seq<char>>,
) -> Adoption
    decreases discovered.len(),
{
    if discovered.len() == 0 {
        Adoption {
            taken,
            names: Seq::empty(),
            positions: Seq::empty(),
            collisions: Seq::empty(),
        }
    } else {
        let before = adopted(taken, config, server, discovered.drop_last());
        let tool = discovered.last();
        let name = exposed_name(server, tool);
        if !offers(config.allowed(), views(config.disabled_tools@), tool) {
            before
        } else if before.taken.contains(name) {
            Adoption { collisions: before.collisions.push(name), ..before }
        } else {
            Adoption {
                taken: before.taken.push(name),
                names: before.names.push(name),
                positions: before.positions.push((discovered.len() - 1) as usize),
                ..before
            }
        }
    }
}

/// The note about tools that were left out.
pub open spec fn collision_note(collisions: Seq<Seq<char>>) -> Option<Seq<char>> {
    if collisions.len() == 0 {
        None
    } else {
        Some("跳过命名冲突工具: "@ + join_spec(collisions, ", "@))
    }
}

/// The servers and what is known of each. The connections themselves are up
/// to its user; here only their names count.
pub struct McpManager {
    connections: Vec<String>,
    statuses: Vec<McpServerStatus>,
    taken: Vec<String>,
    loaded_files: Vec<String>,
    skipped_project_file: Option<String>,
    global_config: Option<String>,
    project_config: Option<String>,
}

#[verifier::ext_equal]
pub struct ManagerView {
    pub connections: Seq<Seq<char>>,
    pub statuses: Seq<StatusView>,
    pub taken: Seq<Seq<char>>,
    pub loaded_files: Seq<Seq<char>>,
    pub skipped_project_file: Option<Seq<char>>,
    pub global_config: Option<Seq<char>>,
    pub project_config: Option<Seq<char>>,
}

impl View for McpManager {
    type V = ManagerView;

    closed spec fn view(&self) -> ManagerView {
        ManagerView {
            connections: views(self.connections@),
            statuses: statuses_view(self.statuses@),
            taken: views(self.taken@),
            loaded_files: views(self.loaded_files@),
            skipped_project_file: view_opt(self.skipped_project_file),
            global_config: view_opt(self.global_config),
            project_config: view_opt(self.project_config),
        }
    }
}

/// The position of the status of a server.
pub open spec fn status_position(list: Seq<StatusView>, name: Seq<char>) -> Option<int>
    decreases list.len(),
{
    if list.len() == 0 {
        None
    } else {
        match status_position(list.drop_last(), name) {
            Some(i) => Some(i),
            None => if list.last().name == name {
                Some(list.len() - 1)
            } else {
                None
            },
        }
    }
}

/// The names without one.
pub open spec fn without_name(list: Seq<Seq<char>>, name: Seq<char>) -> Seq<Seq<char>> {
    list.filter(crate::context::other_than(name))
}

/// The statuses of the other servers.
pub open spec fn of_others(name: Seq<char>) -> spec_fn(StatusView) -> bool {
    |s: StatusView| s.name != name
}

/// A status in its place by the server's name.
pub open spec fn insert_status(list: Seq<StatusView>, s: StatusView) -> Seq<StatusView>
    decreases list.len(),
{
    if list.len() == 0 {
        seq![s]
    } else if text_order(s.name, list[0].name) == Order::Less {
        seq![s] + list
    } else {
        seq![list[0]] + insert_status(list.skip(1), s)
    }
}

pub open spec fn sorted_statuses(list: Seq<StatusView>) -> Seq<StatusView>
    decreases list.len(),
{
    if list.len() == 0 {
        Seq::empty()
    } else {
        insert_status(sorted_statuses(list.drop_last()), list.last())
    }
}

/// What went wrong with a server, where something did.
pub open spec fn failure_of(s: StatusView) -> Option<Seq<char>> {
    if s.state == McpServerState::AuthRequired || s.state == McpServerState::Failed {
        Some(
            s.name + ": "@ + match s.detail {
                Some(d) => d,
                None => "连接失败"@,
            },
        )
    } else {
        None
    }
}

pub open spec fn failures(list: Seq<StatusView>) -> Seq<Seq<char>>
    decreases list.len(),
{
    if list.len() == 0 {
        Seq::empty()
    } else {
        let before = failures(list.drop_last());
        match failure_of(list.last()) {
            Some(t) => before.push(t),
            None => before,
        }
    }
}

impl ManagerView {
    pub open spec fn add(self, s: StatusView) -> ManagerView {
        ManagerView { statuses: self.statuses.push(s), ..self }
    }

    /// A server has been connected and has told its tools.
    pub open spec fn connect(
        self,
        server: Seq<char>,
        config: McpServerConfig,
        discovered: Seq<Seq<char>>,
    ) -> ManagerView {
        let a = adopted(self.taken, config, server, discovered);
        ManagerView {
            connections: without_name(self.connections, server).push(server),
            taken: a.taken,
            statuses: self.statuses.push(
                StatusView {
                    name: server,
                    state: McpServerState::Connected,
                    tools: a.names,
                    detail: collision_note(a.collisions),
                },
            ),
            ..self
        }
    }

    /// A server has been disconnected by the user.
    pub open spec fn disconnect(self, i: int) -> ManagerView {
        ManagerView {
            connections: without_name(self.connections, self.statuses[i].name),
            statuses: self.statuses.update(
                i,
                StatusView {
                    name: self.statuses[i].name,
                    state: McpServerState::Disconnected,
                    tools: Seq::empty(),
                    detail: Some("已由用户手动断开"@),
                },
            ),
            ..self
        }
    }

    /// Why a candidate cannot take the place of a server, if it cannot.
    pub open spec fn replacement_fault(self, server: Seq<char>) -> Option<Seq<char>> {
        match status_position(self.statuses, server) {
            None => Some("候选配置中没有 MCP Server: "@ + server),
            Some(i) => if self.statuses[i].state != McpServerState::Connected {
                Some(
                    "MCP Server `"@ + server + "` 未连接成功（"@ + self.statuses[i].state.word() + (
                    match self.statuses[i].detail {
                        Some(d) => ": "@ + d,
                        None => Seq::empty(),
                    }) + "）"@,
                )
            } else if !self.connections.contains(server) {
                Some("候选 MCP 连接缺失"@)
            } else {
                None
            },
        }
    }

    /// A candidate takes the place of a server.
    pub open spec fn replace(self, server: Seq<char>, candidate: ManagerView) -> ManagerView {
        ManagerView {
            connections: without_name(self.connections, server).push(server),
            statuses: sorted_statuses(
                self.statuses.filter(of_others(server)).push(
                    candidate.statuses[status_position(candidate.statuses, server)->0],
                ),
            ),
            taken: self.taken,
            loaded_files: candidate.loaded_files,
            skipped_project_file: candidate.skipped_project_file,
            global_config: candidate.global_config,
            project_config: candidate.project_config,
        }
    }
}

fn push_status(list: &mut Vec<McpServerStatus>, s: McpServerStatus)
    ensures
        statuses_view(final(list)@) == statuses_view(old(list)@).push(s@),
{
    assert(statuses_view(list@.push(s)) =~= statuses_view(list@).push(s@));
    list.push(s);
}

fn remove_name(list: &Vec<String>, name: &str) -> (r: Vec<String>)
    ensures
        views(r@) == without_name(views(list@), name@),
{
    let ghost all = views(list@);
    let ghost p = crate::context::other_than(name@);
    let mut r: Vec<String> = Vec::new();
    proof {
        crate::seqs::lemma_filter_empty(all, p);
        assert(views(r@) =~= Seq::empty());
    }
    for i in 0..list.len()
        invariant
            all == views(list@),
            p == crate::context::other_than(name@),
            views(r@) == all.take(i as int).filter(p),
    {
        proof {
            crate::seqs::lemma_filter_step(all, i as int, p);
        }
        if !same(&list[i], name) {
            let kept = list[i].clone();
            proof {
                lemma_views_push(r@, kept);
            }
            r.push(kept);
        }
    }
    assert(all.take(list@.len() as int) =~= all);
    r
}

fn find_status(list: &Vec<McpServerStatus>, name: &str) -> (r: Option<usize>)
    ensures
        match r {
            Some(i) => status_position(statuses_view(list@), name@) == Some(i as int) && i
                < list@.len(),
            None => status_position(statuses_view(list@), name@) is None,
        },
{
    let ghost all = statuses_view(list@);
    let mut found: Option<usize> = None;
    assert(all.take(0) =~= Seq::empty());
    for i in 0..list.len()
        invariant
            all == statuses_view(list@),
            match found {
                Some(k) => status_position(all.take(i as int), name@) == Some(k as int) && k < i,
                None => status_position(all.take(i as int), name@) is None,
            },
    {
        assert(all.take(i + 1).drop_last() =~= all.take(i as int));
        assert(all.take(i + 1).last() == list@[i as int]@);
        if found.is_none() && same(&list[i].name, name) {
            found = Some(i);
        }
    }
    assert(all.take(list@.len() as int) =~= all);
    found
}

fn add_status(list: &mut Vec<McpServerStatus>, s: McpServerStatus)
    ensures
        statuses_view(final(list)@) == insert_status(statuses_view(old(list)@), s@),
{
    let ghost all = statuses_view(list@);
    let mut i: usize = 0;
    assert(all.skip(0) =~= all);
    assert(all.take(0) + insert_status(all, s@) =~= insert_status(all, s@));
    while i < list.len() && order_texts(&s.name, &list[i].name) != Order::Less
        invariant
            i <= list@.len(),
            all == statuses_view(list@),
            list@ == old(list)@,
            insert_status(all, s@) == all.take(i as int) + insert_status(all.skip(i as int), s@),
        decreases list@.len() - i,
    {
        let ghost rest = all.skip(i as int);
        proof {
            assert(rest[0] == list@[i as int]@);
            assert(rest.skip(1) =~= all.skip(i + 1));
            assert(all.take(i as int) + (seq![rest[0]] + insert_status(rest.skip(1), s@))
                =~= all.take(i + 1) + insert_status(all.skip(i + 1), s@));
        }
        i += 1;
    }
    proof {
        let rest = all.skip(i as int);
        if rest.len() > 0 {
            assert(rest[0] == list@[i as int]@);
        }
        assert(insert_status(rest, s@) =~= seq![s@] + rest);
        assert(statuses_view(list@.insert(i as int, s)) =~= all.take(i as int) + (seq![s@]
            + rest));
    }
    list.insert(i, s);
}

impl McpManager {
    /// A manager without servers, over the configurations that were read.
    pub fn new(loaded_files: Vec<String>, skipped_project_file: Option<String>) -> (r: McpManager)
        ensures
            r@ == (ManagerView {
                connections: Seq::empty(),
                statuses: Seq::empty(),
                taken: Seq::empty(),
                loaded_files: views(loaded_files@),
                skipped_project_file: view_opt(skipped_project_file),
                global_config: None,
                project_config: None,
            }),
    {
        let r = McpManager {
            connections: Vec::new(),
            statuses: Vec::new(),
            taken: Vec::new(),
            loaded_files,
            skipped_project_file,
            global_config: None,
            project_config: None,
        };
        assert(r@.connections =~= Seq::empty());
        assert(r@.statuses =~= Seq::empty());
        assert(r@.taken =~= Seq::empty());
        r
    }

    /// Says where the configurations of the user and of the project are looked
    /// for.
    pub fn set_config_paths(&mut self, global: Option<String>, project: Option<String>)
        ensures
            final(self)@ == (ManagerView {
                global_config: view_opt(global),
                project_config: view_opt(project),
                ..old(self)@
            }),
    {
        self.global_config = global;
        self.project_config = project;
    }

    /// Where the configuration of the user is looked for.
    pub fn global_config(&self) -> (r: Option<&str>)
        ensures
            match r {
                Some(t) => self@.global_config == Some(t@),
                None => self@.global_config is None,
            },
    {
        match &self.global_config {
            Some(t) => Some(t.as_str()),
            None => None,
        }
    }

    /// Where the configuration of the project is looked for.
    pub fn project_config(&self) -> (r: Option<&str>)
        ensures
            match r {
                Some(t) => self@.project_config == Some(t@),
                None => self@.project_config is None,
            },
    {
        match &self.project_config {
            Some(t) => Some(t.as_str()),
            None => None,
        }
    }

    /// Notes a server that is switched off.
    pub fn add_disabled(&mut self, server: &str)
        ensures
            final(self)@ == old(self)@.add(
                StatusView {
                    name: server@,
                    state: McpServerState::Disabled,
                    tools: Seq::empty(),
                    detail: None,
                },
            ),
    {
        let s = McpServerStatus {
            name: server.to_owned(),
            state: McpServerState::Disabled,
            tools: Vec::new(),
            detail: None,
        };
        assert(s@.tools =~= Seq::empty());
        push_status(&mut self.statuses, s);
    }

    /// Notes a server whose connection failed.
    pub fn add_failed(&mut self, server: &str, causes: &Vec<FailureCause>, detail: String)
        ensures
            final(self)@ == old(self)@.add(
                StatusView {
                    name: server@,
                    state: if any_asks(causes@) {
                        McpServerState::AuthRequired
                    } else {
                        McpServerState::Failed
                    },
                    tools: Seq::empty(),
                    detail: Some(detail@),
                },
            ),
    {
        let s = McpServerStatus {
            name: server.to_owned(),
            state: connection_error_state(causes),
            tools: Vec::new(),
            detail: Some(detail),
        };
        assert(s@.tools =~= Seq::empty());
        push_status(&mut self.statuses, s);
    }

    /// Notes a server that has been connected, and returns the positions of
    /// the tools that are offered among the discovered ones.
    pub fn add_connected(
        &mut self,
        server: &str,
        config: &McpServerConfig,
        discovered: &Vec<String>,
    ) -> (r: Vec<usize>)
        ensures
            final(self)@ == old(self)@.connect(server@, *config, views(discovered@)),
            r@ == adopted(old(self)@.taken, *config, server@, views(discovered@)).positions,
    {
        let ghost all = views(discovered@);
        let ghost start = views(self.taken@);
        let mut names: Vec<String> = Vec::new();
        let mut positions: Vec<usize> = Vec::new();
        let mut collisions: Vec<String> = Vec::new();
        proof {
            assert(all.take(0) =~= Seq::empty());
            assert(views(names@) =~= Seq::empty());
            assert(positions@ =~= Seq::empty());
        }
        for i in 0..discovered.len()
            invariant
                all == views(discovered@),
                start == old(self)@.taken,
                self.connections@ == old(self).connections@,
                self.statuses@ == old(self).statuses@,
                self.loaded_files@ == old(self).loaded_files@,
                self.skipped_project_file == old(self).skipped_project_file,
                self.global_config == old(self).global_config,
                self.project_config == old(self).project_config,
                (Adoption {
                    taken: views(self.taken@),
                    names: views(names@),
                    positions: positions@,
                    collisions: views(collisions@),
                }) == adopted(start, *config, server@, all.take(i as int)),
        {
            proof {
                assert(all.take(i + 1).drop_last() =~= all.take(i as int));
                assert(all.take(i + 1).last() == discovered@[i as int]@);
            }
            if config.tool_enabled(&discovered[i]) {
                let name = namespaced_tool_name(server, &discovered[i]);
                if member(&self.taken, &name) {
                    proof {
                        lemma_views_push(collisions@, name);
                    }
                    collisions.push(name);
                } else {
                    let copy = name.clone();
                    proof {
                        lemma_views_push(self.taken@, copy);
                        lemma_views_push(names@, name);
                    }
                    self.taken.push(copy);
                    names.push(name);
                    positions.push(i);
                }
            }
        }
        assert(all.take(discovered@.len() as int) =~= all);
        assert(views(collisions@).len() == collisions@.len());
        let detail = if collisions.len() == 0 {
            None
        } else {
            let mut t = "跳过命名冲突工具: ".to_owned();
            t.append(join(&collisions, ", ").as_str());
            Some(t)
        };
        push_status(
            &mut self.statuses,
            McpServerStatus {
                name: server.to_owned(),
                state: McpServerState::Connected,
                tools: names,
                detail,
            },
        );
        self.put_connection(server);
        positions
    }

    fn put_connection(&mut self, server: &str)
        ensures
            final(self)@ == (ManagerView {
                connections: without_name(old(self)@.connections, server@).push(server@),
                ..old(self)@
            }),
    {
        let mut kept = remove_name(&self.connections, server);
        let name = server.to_owned();
        proof {
            lemma_views_push(kept@, name);
        }
        kept.push(name);
        self.connections = kept;
    }

    /// What is known of each server.
    pub fn statuses(&self) -> (r: &[McpServerStatus])
        ensures
            statuses_view(r@) == self@.statuses,
    {
        self.statuses.as_slice()
    }

    /// The configurations that were read.
    pub fn loaded_files(&self) -> (r: &[String])
        ensures
            views(r@) == self@.loaded_files,
    {
        self.loaded_files.as_slice()
    }

    /// The configuration of the project, where it is not trusted.
    pub fn skipped_project_file(&self) -> (r: Option<&str>)
        ensures
            match r {
                Some(t) => self@.skipped_project_file == Some(t@),
                None => self@.skipped_project_file is None,
            },
    {
        match &self.skipped_project_file {
            Some(t) => Some(t.as_str()),
            None => None,
        }
    }

    /// The number of connections.
    pub fn active_connections(&self) -> (r: usize)
        ensures
            r == self@.connections.len(),
    {
        assert(views(self.connections@).len() == self.connections@.len());
        self.connections.len()
    }

    /// Whether the connection with some server failed for another reason than
    /// that it asks for signing in.
    pub fn has_blocking_failures(&self) -> (r: bool)
        ensures
            r == exists|i: int|
                0 <= i < self@.statuses.len() && (#[trigger] self@.statuses[i]).state
                    == McpServerState::Failed,
    {
        let ghost all = self@.statuses;
        for i in 0..self.statuses.len()
            invariant
                all == self@.statuses,
                forall|j: int|
                    0 <= j < i ==> (#[trigger] all[j]).state != McpServerState::Failed,
        {
            assert(all[i as int] == self.statuses@[i as int]@);
            if self.statuses[i].state == McpServerState::Failed {
                assert(self@.statuses[i as int].state == McpServerState::Failed);
                return true;
            }
        }
        false
    }

    /// What went wrong, server by server.
    pub fn failure_summary(&self) -> (r: String)
        ensures
            r@ == join_spec(failures(self@.statuses), "; "@),
    {
        let ghost all = self@.statuses;
        let mut parts: Vec<String> = Vec::new();
        assert(views(parts@) =~= failures(all.take(0)));
        for i in 0..self.statuses.len()
            invariant
                all == self@.statuses,
                views(parts@) == failures(all.take(i as int)),
        {
            assert(all.take(i + 1).drop_last() =~= all.take(i as int));
            assert(all.take(i + 1).last() == self.statuses@[i as int]@);
            let s = &self.statuses[i];
            if s.state == McpServerState::AuthRequired || s.state == McpServerState::Failed {
                let mut part = s.name.clone();
                part.append(": ");
                match &s.detail {
                    Some(d) => part.append(d.as_str()),
                    None => part.append("连接失败"),
                }
                proof {
                    lemma_views_push(parts@, part);
                }
                parts.push(part);
            }
        }
        assert(all.take(self.statuses@.len() as int) =~= all);
        join(&parts, "; ")
    }

    /// The names under which the tools of a server are offered.
    pub fn server_tools(&self, server: &str) -> (r: Option<&Vec<String>>)
        ensures
            match r {
                Some(v) => status_position(self@.statuses, server@) is Some && views(v@)
                    == self@.statuses[status_position(self@.statuses, server@)->0].tools,
                None => status_position(self@.statuses, server@) is None,
            },
    {
        match find_status(&self.statuses, server) {
            Some(i) => {
                assert(self@.statuses[i as int] == self.statuses@[i as int]@);
                Some(&self.statuses[i].tools)
            },
            None => None,
        }
    }

    /// Disconnects a server, and returns the names of its tools, which are
    /// not offered any more.
    pub fn disconnect(&mut self, server: &str) -> (r: Result<Vec<String>, String>)
        ensures
            match r {
                Ok(tools) => status_position(old(self)@.statuses, server@) is Some && ({
                    let i = status_position(old(self)@.statuses, server@)->0;
                    views(tools@) == old(self)@.statuses[i].tools && final(self)@ == old(
                        self,
                    )@.disconnect(i)
                }),
                Err(e) => status_position(old(self)@.statuses, server@) is None && e@
                    == "未知 MCP Server: "@ + server@ && final(self)@ == old(self)@,
            },
    {
        match find_status(&self.statuses, server) {
            None => {
                let mut e = "未知 MCP Server: ".to_owned();
                e.append(server);
                Err(e)
            },
            Some(i) => {
                proof {
                    lemma_status_position(self@.statuses, server@);
                }
                assert(self@.statuses[i as int] == self.statuses@[i as int]@);
                let tools = copy_texts(&self.statuses[i].tools);
                let s = McpServerStatus {
                    name: server.to_owned(),
                    state: McpServerState::Disconnected,
                    tools: Vec::new(),
                    detail: Some("已由用户手动断开".to_owned()),
                };
                assert(s@.tools =~= Seq::empty());
                let ghost before = self@.statuses;
                self.statuses.set(i, s);
                assert(statuses_view(self.statuses@) =~= before.update(i as int, s@));
                self.connections = remove_name(&self.connections, server);
                Ok(tools)
            },
        }
    }

    /// Puts a candidate that has been connected in the place of a server.
    pub fn replace_server(&mut self, server: &str, candidate: McpManager) -> (r: Result<(), String>)
        ensures
            match r {
                Ok(_) => candidate@.replacement_fault(server@) is None && final(self)@ == old(
                    self,
                )@.replace(server@, candidate@),
                Err(e) => candidate@.replacement_fault(server@) == Some(e@) && final(self)@ == old(
                    self,
                )@,
            },
    {
        let i: usize = match find_status(&candidate.statuses, server) {
            Some(i) => i,
            None => {
                let mut e = "候选配置中没有 MCP Server: ".to_owned();
                e.append(server);
                return Err(e);
            },
        };
        assert(candidate@.statuses[i as int] == candidate.statuses@[i as int]@);
        let s = candidate.statuses[i].copy();
        if s.state != McpServerState::Connected {
            let mut e = "MCP Server `".to_owned();
            e.append(server);
            e.append("` 未连接成功（");
            e.append(s.state.as_str());
            let mut detail = String::new();
            assert(detail@ =~= Seq::empty());
            if let Some(d) = &s.detail {
                detail = ": ".to_owned();
                detail.append(d.as_str());
            }
            e.append(detail.as_str());
            e.append("）");
            return Err(e);
        }
        if !member(&candidate.connections, server) {
            return Err("候选 MCP 连接缺失".to_owned());
        }
        let ghost all = self@.statuses;
        let ghost p = of_others(server@);
        let mut kept: Vec<McpServerStatus> = Vec::new();
        proof {
            crate::seqs::lemma_filter_empty(all, p);
            assert(statuses_view(kept@) =~= Seq::empty());
        }
        for k in 0..self.statuses.len()
            invariant
                all == self@.statuses,
                self@ == old(self)@,
                p == of_others(server@),
                statuses_view(kept@) == all.take(k as int).filter(p),
        {
            proof {
                crate::seqs::lemma_filter_step(all, k as int, p);
                assert(all[k as int] == self.statuses@[k as int]@);
            }
            if !same(&self.statuses[k].name, server) {
                push_status(&mut kept, self.statuses[k].copy());
            }
        }
        assert(all.take(self.statuses@.len() as int) =~= all);
        push_status(&mut kept, s);
        let ghost list = statuses_view(kept@);
        let mut sorted: Vec<McpServerStatus> = Vec::new();
        assert(statuses_view(sorted@) =~= sorted_statuses(list.take(0)));
        for k in 0..kept.len()
            invariant
                list == statuses_view(kept@),
                statuses_view(sorted@) == sorted_statuses(list.take(k as int)),
        {
            assert(list.take(k + 1).drop_last() =~= list.take(k as int));
            assert(list.take(k + 1).last() == kept@[k as int]@);
            add_status(&mut sorted, kept[k].copy());
        }
        assert(list.take(kept@.len() as int) =~= list);
        self.statuses = sorted;
        self.put_connection(server);
        self.loaded_files = candidate.loaded_files;
        self.skipped_project_file = candidate.skipped_project_file;
        self.global_config = candidate.global_config;
        self.project_config = candidate.project_config;
        Ok(())
    }
}

proof fn lemma_status_position(list: Seq<StatusView>, name: Seq<char>)
    ensures
        status_position(list, name) matches Some(i) ==> 0 <= i < list.len() && list[i].name == name,
    decreases list.len(),
{
    if list.len() > 0 {
        lemma_status_position(list.drop_last(), name);
    }
}

proof fn lemma_adopted(
    taken: Seq<Seq<char>>,
    config: McpServerConfig,
    server: Seq<char>,
    discovered: Seq<Seq<char>>,
)
    requires
        taken.no_duplicates(),
    ensures
        adopted(taken, config, server, discovered).taken.no_duplicates(),
        adopted(taken, config, server, discovered).taken == taken + adopted(
            taken,
            config,
            server,
            discovered,
        ).names,
    decreases discovered.len(),
{
    let a = adopted(taken, config, server, discovered);
    if discovered.len() == 0 {
        assert(taken + a.names =~= taken);
    } else {
        let before = adopted(taken, config, server, discovered.drop_last());
        lemma_adopted(taken, config, server, discovered.drop_last());
        let name = exposed_name(server, discovered.last());
        if offers(config.allowed(), views(config.disabled_tools@), discovered.last())
            && !before.taken.contains(name) {
            assert((taken + before.names).push(name) =~= taken + before.names.push(name));
            assert forall|i: int, j: int| 0 <= i < j < a.taken.len() implies a.taken[i]
                != a.taken[j] by {
                assert(before.taken.contains(before.taken[i]));
            }
        }
    }
}

/// No two remote tools are offered under the same name, whichever servers
/// they come from.
pub proof fn law_remote_names_are_unique(
    m: ManagerView,
    server: Seq<char>,
    config: McpServerConfig,
    discovered: Seq<Seq<char>>,
)
    requires
        m.taken.no_duplicates(),
    ensures
        m.connect(server, config, discovered).taken.no_duplicates(),
{
    lemma_adopted(m.taken, config, server, discovered);
}

/// A server that was disconnected offers no tool and has no connection.
pub proof fn law_disconnected_servers_offer_nothing(m: ManagerView, i: int)
    requires
        0 <= i < m.statuses.len(),
    ensures
        m.disconnect(i).statuses[i].tools.len() == 0,
        m.disconnect(i).statuses[i].state == McpServerState::Disconnected,
        !m.disconnect(i).connections.contains(m.statuses[i].name),
{
    crate::seqs::lemma_filter_contains(
        m.connections,
        crate::context::other_than(m.statuses[i].name),
        m.statuses[i].name,
    );
}

} // verus!
