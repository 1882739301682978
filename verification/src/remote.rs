//! The connection to a remote server, as a project sees it.
use vstd::prelude::*;
use vstd::std_specs::convert::FromSpecImpl;
use crate::clock::ReplicaId;
use crate::language::Capability;
use crate::settings::SaturatingBool;

verus! {

/// Where the connection to the remote server stands. The tasks that run a live
/// connection are held elsewhere; this records what decisions read of it.
#[derive(Debug)]
pub enum State {
    Connecting,
    Connected,
    HeartbeatMissed { missed_heartbeats: usize },
    Reconnecting,
    ReconnectFailed { error: String, attempts: usize },
    ReconnectExhausted,
    ServerNotRunning,
}

#[derive(Clone, Copy, Debug, PartialEq, Eq, Structural)]
pub enum ConnectionState {
    Connecting,
    Connected,
    HeartbeatMissed,
    Reconnecting,
    Disconnected,
}

/// What a state of the connection shows to its users.
pub open spec fn connection_state_of(s: State) -> ConnectionState {
    match s {
        State::Connecting => ConnectionState::Connecting,
        State::Connected => ConnectionState::Connected,
        State::Reconnecting | State::ReconnectFailed { .. } => ConnectionState::Reconnecting,
        State::HeartbeatMissed { .. } => ConnectionState::HeartbeatMissed,
        State::ReconnectExhausted => ConnectionState::Disconnected,
        State::ServerNotRunning => ConnectionState::Disconnected,
    }
}

impl<'a> From<&'a State> for ConnectionState {
    fn from(value: &'a State) -> (r: Self) {
        match value {
            State::Connecting => Self::Connecting,
            State::Connected => Self::Connected,
            State::Reconnecting | State::ReconnectFailed { .. } => Self::Reconnecting,
            State::HeartbeatMissed { .. } => Self::HeartbeatMissed,
            State::ReconnectExhausted => Self::Disconnected,
            State::ServerNotRunning => Self::Disconnected,
        }
    }
}

impl<'a> FromSpecImpl<&'a State> for ConnectionState {
    open spec fn obeys_from_spec() -> bool {
        true
    }

    open spec fn from_spec(v: &'a State) -> Self {
        connection_state_of(*v)
    }
}

/// The client side of a connection to a remote server.
pub struct RemoteClient {
    state: Option<State>,
}

/// What a client without a state shows: it is disconnected.
pub open spec fn client_connection_state(state: Option<State>) -> ConnectionState {
    match state {
        Some(s) => connection_state_of(s),
        None => ConnectionState::Disconnected,
    }
}

impl RemoteClient {
    /// A client whose connection is in `state` (none once it has been torn down).
    pub fn new(state: Option<State>) -> (r: Self)
        ensures
            r.state_spec() == state,
    {
        RemoteClient { state }
    }

    pub closed spec fn state_spec(&self) -> Option<State> {
        self.state
    }

    pub fn connection_state(&self) -> (r: ConnectionState)
        ensures
            r == client_connection_state(self.state_spec()),
    {
        match &self.state {
            Some(s) => ConnectionState::from(s),
            None => ConnectionState::Disconnected,
        }
    }

    pub fn is_disconnected(&self) -> (r: bool)
        ensures
            r == (client_connection_state(self.state_spec()) == ConnectionState::Disconnected),
    {
        self.connection_state() == ConnectionState::Disconnected
    }
}

#[derive(Debug)]
pub enum ProjectClientState {
    Local,
    Shared { remote_id: u64 },
    Collab {
        sharing_has_stopped: bool,
        capability: Capability,
        remote_id: u64,
        replica_id: ReplicaId,
    },
}

pub struct Project {
    pub remote_client: Option<RemoteClient>,
    pub client_state: ProjectClientState,
}

/// A project works through a remote server when it is not a collaborator's copy and
/// has a remote client.
pub open spec fn via_remote_server(remote_client: Option<RemoteClient>, client_state: ProjectClientState) -> bool {
    match client_state {
        ProjectClientState::Local | ProjectClientState::Shared { .. } => remote_client is Some,
        ProjectClientState::Collab { .. } => false,
    }
}

/// A project is disconnected when the host stopped sharing a collaborator's copy, or when
/// the remote server of a local project is disconnected.
pub open spec fn project_disconnected(remote_client: Option<RemoteClient>, client_state: ProjectClientState) -> bool {
    match client_state {
        ProjectClientState::Collab { sharing_has_stopped, .. } => sharing_has_stopped,
        ProjectClientState::Local => via_remote_server(remote_client, client_state) && (
        remote_client matches Some(c) && client_connection_state(c.state_spec())
            == ConnectionState::Disconnected),
        _ => false,
    }
}

impl Project {
    pub fn is_via_remote_server(&self) -> (r: bool)
        ensures
            r == via_remote_server(self.remote_client, self.client_state),
    {
        match &self.client_state {
            ProjectClientState::Local | ProjectClientState::Shared { .. } => {
                self.remote_client.is_some()
            },
            ProjectClientState::Collab { .. } => false,
        }
    }

    pub fn is_disconnected(&self) -> (r: bool)
        ensures
            r == project_disconnected(self.remote_client, self.client_state),
            self.client_state is Shared ==> !r,
    {
        match &self.client_state {
            ProjectClientState::Collab { sharing_has_stopped, .. } => *sharing_has_stopped,
            ProjectClientState::Local => {
                if self.is_via_remote_server() {
                    self.remote_client_is_disconnected()
                } else {
                    false
                }
            },
            _ => false,
        }
    }

    fn remote_client_is_disconnected(&self) -> (r: bool)
        ensures
            r == (self.remote_client matches Some(c) && client_connection_state(c.state_spec())
                == ConnectionState::Disconnected),
    {
        match &self.remote_client {
            Some(remote) => remote.is_disconnected(),
            None => false,
        }
    }
}

/// Only two kinds of project can be disconnected: a collaborator's copy, exactly when the
/// host stopped sharing, and a local project, exactly when it has a remote client whose
/// connection is down. A shared project never is, and neither is a local project without
/// a remote client. A remote client is down exactly when its server is not running, its
/// reconnection attempts are exhausted, or it holds no state.
pub proof fn which_projects_are_disconnected(
    remote_client: Option<RemoteClient>,
    client_state: ProjectClientState,
)
    ensures
        client_state is Shared ==> !project_disconnected(remote_client, client_state),
        client_state matches ProjectClientState::Collab { sharing_has_stopped, .. }
            ==> project_disconnected(remote_client, client_state) == sharing_has_stopped,
        client_state is Local ==> (project_disconnected(remote_client, client_state) <==> (
        remote_client matches Some(c) && client_connection_state(c.state_spec())
            == ConnectionState::Disconnected)),
        client_state is Local && remote_client is None ==> !project_disconnected(
            remote_client,
            client_state,
        ),
        remote_client matches Some(c) ==> (client_connection_state(c.state_spec())
            == ConnectionState::Disconnected <==> (c.state_spec() is None || c.state_spec() matches Some(
            State::ServerNotRunning,
        ) || c.state_spec() matches Some(State::ReconnectExhausted))),
{
}

/// The worktrees whose settings and tasks the user trusts.
#[derive(Debug)]
pub struct TrustedWorktreesStore {}

#[derive(Copy, Clone, Debug, PartialEq, Eq, Structural)]
pub struct DisableAiSettings {
    pub disable_ai: bool,
}

impl DisableAiSettings {
    /// The setting as the project's settings give it; they always hold a value here, as
    /// the defaults are merged in before settings are read.
    pub fn from_settings(disable_ai: Option<SaturatingBool>) -> (r: Self)
        requires
            disable_ai is Some,
        ensures
            r.disable_ai == disable_ai.unwrap().0,
    {
        match disable_ai {
            Some(flag) => Self { disable_ai: flag.0 },
            None => Self { disable_ai: false },
        }
    }
}

} // verus!
