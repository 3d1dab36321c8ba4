//! A blocking client for the local cache-agent protocol: the version
//! handshake and the meaning of each answer. Moving bytes is the transport's.
use vstd::prelude::*;
use crate::agent::wire::{AgentRequest, AgentResponse, AGENT_PROTOCOL_VERSION};
use crate::text::{lit, string_of};

verus! {

/// One round trip to a connected agent: write a request as a line of JSON,
/// read one line of JSON back.
///
/// Embedders own endpoint discovery and platform transport creation, and
/// implement this over the stream they connected.
pub trait AgentTransport {
    /// Send `request` and return the response it got, or why none came.
    fn exchange(&mut self, request: AgentRequest) -> Result<AgentResponse, String>;
}

/// Why a client call failed.
#[derive(Debug)]
pub enum ClientError {
    /// The transport could not carry the exchange.
    Transport(String),
    /// The agent answered with an error.
    Agent(String),
    /// The agent speaks another protocol version or answered the handshake
    /// with something else.
    IncompatibleHandshake,
    /// The agent answered a begin-task request with something else.
    UnexpectedBeginTask,
    /// The agent answered a commit-task request with something else.
    UnexpectedCommitTask,
}

impl ClientError {
    /// The failure as a sentence.
    pub fn message(&self) -> (r: String)
        ensures
            r@ == match self {
                ClientError::Transport(m) => m@,
                ClientError::Agent(m) => m@,
                ClientError::IncompatibleHandshake => "cache agent returned an incompatible handshake"@,
                ClientError::UnexpectedBeginTask => "cache agent returned an unexpected begin-task response"@,
                ClientError::UnexpectedCommitTask => "cache agent returned an unexpected commit-task response"@,
            },
    {
        match self {
            ClientError::Transport(m) => m.clone(),
            ClientError::Agent(m) => m.clone(),
            ClientError::IncompatibleHandshake => string_of(&lit("cache agent returned an incompatible handshake")),
            ClientError::UnexpectedBeginTask => string_of(&lit("cache agent returned an unexpected begin-task response")),
            ClientError::UnexpectedCommitTask => string_of(&lit("cache agent returned an unexpected commit-task response")),
        }
    }
}

/// What a handshake answer means: the exact protocol version is accepted,
/// an agent error is passed on, and anything else is incompatible.
pub open spec fn handshake_accepts(response: AgentResponse) -> bool {
    response matches AgentResponse::Hello { protocol, .. } && protocol == AGENT_PROTOCOL_VERSION
}

/// What the answer to the handshake makes of it.
pub open spec fn handshake_result(response: AgentResponse) -> Result<(), ClientError> {
    match response {
        AgentResponse::Hello { protocol, .. } => if protocol == AGENT_PROTOCOL_VERSION {
            Ok(())
        } else {
            Err(ClientError::IncompatibleHandshake)
        },
        AgentResponse::Error { message } => Err(ClientError::Agent(message)),
        _ => Err(ClientError::IncompatibleHandshake),
    }
}

/// What the answer to a begin-task request makes of it.
pub open spec fn begin_task_result(response: AgentResponse) -> Result<String, ClientError> {
    match response {
        AgentResponse::TaskBegun { run } => Ok(run),
        AgentResponse::Error { message } => Err(ClientError::Agent(message)),
        _ => Err(ClientError::UnexpectedBeginTask),
    }
}

/// What the answer to a commit-task request makes of it.
pub open spec fn commit_task_result(response: AgentResponse) -> Result<(), ClientError> {
    match response {
        AgentResponse::TaskCommitted => Ok(()),
        AgentResponse::Error { message } => Err(ClientError::Agent(message)),
        _ => Err(ClientError::UnexpectedCommitTask),
    }
}

/// Whether `after` is `before` with one more round trip, of `request`.
pub open spec fn one_more_exchange(before: Seq<(AgentRequest, AgentResponse)>, after: Seq<(AgentRequest, AgentResponse)>, request: AgentRequest) -> bool {
    &&& after.len() == before.len() + 1
    &&& after.drop_last() == before
    &&& after.last().0 == request
}

/// Judge the agent's answer to the handshake.
pub fn handshake_outcome(response: AgentResponse) -> (r: Result<(), ClientError>)
    ensures
        r == handshake_result(response),
        r is Ok <==> handshake_accepts(response),
        match response {
            AgentResponse::Hello { protocol, .. } => protocol != AGENT_PROTOCOL_VERSION ==> r matches Err(ClientError::IncompatibleHandshake),
            AgentResponse::Error { message } => r matches Err(ClientError::Agent(m)) && m@ == message@,
            _ => r matches Err(ClientError::IncompatibleHandshake),
        },
{
    match response {
        AgentResponse::Hello { protocol, .. } => {
            if protocol == AGENT_PROTOCOL_VERSION {
                Ok(())
            } else {
                Err(ClientError::IncompatibleHandshake)
            }
        },
        AgentResponse::Error { message } => Err(ClientError::Agent(message)),
        _ => Err(ClientError::IncompatibleHandshake),
    }
}

/// Judge the agent's answer to a begin-task request: the run it names, its
/// error, or an unexpected answer.
pub fn begin_task_outcome(response: AgentResponse) -> (r: Result<String, ClientError>)
    ensures
        r == begin_task_result(response),
        match response {
            AgentResponse::TaskBegun { run } => r matches Ok(v) && v@ == run@,
            AgentResponse::Error { message } => r matches Err(ClientError::Agent(m)) && m@ == message@,
            _ => r matches Err(ClientError::UnexpectedBeginTask),
        },
{
    match response {
        AgentResponse::TaskBegun { run } => Ok(run),
        AgentResponse::Error { message } => Err(ClientError::Agent(message)),
        _ => Err(ClientError::UnexpectedBeginTask),
    }
}

/// Judge the agent's answer to a commit-task request.
pub fn commit_task_outcome(response: AgentResponse) -> (r: Result<(), ClientError>)
    ensures
        r == commit_task_result(response),
        match response {
            AgentResponse::TaskCommitted => r is Ok,
            AgentResponse::Error { message } => r matches Err(ClientError::Agent(m)) && m@ == message@,
            _ => r matches Err(ClientError::UnexpectedCommitTask),
        },
{
    match response {
        AgentResponse::TaskCommitted => Ok(()),
        AgentResponse::Error { message } => Err(ClientError::Agent(message)),
        _ => Err(ClientError::UnexpectedCommitTask),
    }
}

/// A synchronous client over an already-connected local agent transport.
pub struct BlockingAgentClient<S> {
    stream: S,
    exchanged: Ghost<Seq<(AgentRequest, AgentResponse)>>,
}

impl<S: AgentTransport> BlockingAgentClient<S> {
    /// The transport this client talks through.
    pub closed spec fn transport(&self) -> S {
        self.stream
    }

    /// The round trips this client completed, oldest first: each request it
    /// handed to the transport with the response that came back.
    pub closed spec fn exchanges(&self) -> Seq<(AgentRequest, AgentResponse)> {
        self.exchanged@
    }

    /// Negotiate the exact agent protocol and application version.
    ///
    /// Succeeds only when the agent answers with this protocol version.
    pub fn connect(stream: S, client_version: String) -> (r: Result<Self, ClientError>)
        ensures
            match r {
                Ok(client) => {
                    let request = AgentRequest::Hello { protocol: AGENT_PROTOCOL_VERSION, client_version };
                    &&& one_more_exchange(Seq::empty(), client.exchanges(), request)
                    &&& handshake_result(client.exchanges().last().1) is Ok
                },
                Err(ClientError::Transport(_)) => true,
                Err(e) => exists|response: AgentResponse| handshake_result(response) == Err::<(), ClientError>(e),
            },
    {
        let ghost before = Seq::<(AgentRequest, AgentResponse)>::empty();
        let ghost sent = AgentRequest::Hello { protocol: AGENT_PROTOCOL_VERSION, client_version };
        let mut client = BlockingAgentClient { stream, exchanged: Ghost(Seq::empty()) };
        let response = client.request(AgentRequest::Hello { protocol: AGENT_PROTOCOL_VERSION, client_version })?;
        let ghost answered = response;
        assert(client.exchanged@.drop_last() =~= before);
        assert(client.exchanged@.last() == (sent, answered));
        match handshake_outcome(response) {
            Ok(()) => Ok(client),
            Err(e) => {
                assert(handshake_result(answered) == Err::<(), ClientError>(e));
                Err(e)
            },
        }
    }

    /// Send one request and wait for its response.
    pub fn request(&mut self, request: AgentRequest) -> (r: Result<AgentResponse, ClientError>)
        ensures
            match r {
                Ok(response) => final(self).exchanges() == old(self).exchanges().push((request, response)),
                Err(e) => e is Transport && final(self).exchanges() == old(self).exchanges(),
            },
    {
        let ghost sent = request;
        match self.stream.exchange(request) {
            Ok(response) => {
                self.exchanged = Ghost(self.exchanged@.push((sent, response)));
                Ok(response)
            },
            Err(message) => Err(ClientError::Transport(message)),
        }
    }

    /// Begin a prediction-manifest run and return its opaque identifier.
    ///
    /// The identifier is the one the agent's `TaskBegun` answer named.
    pub fn begin_task(&mut self, task: String) -> (r: Result<String, ClientError>)
        ensures
            r matches Err(ClientError::Transport(_)) ==> final(self).exchanges() == old(self).exchanges(),
            !(r matches Err(ClientError::Transport(_))) ==> {
                &&& one_more_exchange(old(self).exchanges(), final(self).exchanges(), AgentRequest::BeginTask { task })
                &&& r == begin_task_result(final(self).exchanges().last().1)
            },
    {
        let ghost before = self.exchanged@;
        let ghost sent = AgentRequest::BeginTask { task };
        let response = self.request(AgentRequest::BeginTask { task })?;
        assert(self.exchanged@.drop_last() =~= before);
        assert(self.exchanged@.last() == (sent, response));
        begin_task_outcome(response)
    }

    /// Commit predictions collected for a task run.
    pub fn commit_task(&mut self, run: String) -> (r: Result<(), ClientError>)
        ensures
            r matches Err(ClientError::Transport(_)) ==> final(self).exchanges() == old(self).exchanges(),
            !(r matches Err(ClientError::Transport(_))) ==> {
                &&& one_more_exchange(old(self).exchanges(), final(self).exchanges(), AgentRequest::CommitTask { run })
                &&& r == commit_task_result(final(self).exchanges().last().1)
            },
    {
        let ghost before = self.exchanged@;
        let ghost sent = AgentRequest::CommitTask { run };
        let response = self.request(AgentRequest::CommitTask { run })?;
        assert(self.exchanged@.drop_last() =~= before);
        assert(self.exchanged@.last() == (sent, response));
        commit_task_outcome(response)
    }

    /// Recover the connected transport.
    pub fn into_inner(self) -> (r: S)
        ensures
            r == self.transport(),
    {
        self.stream
    }
}

} // verus!
