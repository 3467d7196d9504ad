//! The registry's entities: services, database tables, queue contracts,
//! gRPC proto contracts and HTTP contracts, with the short summaries that
//! listings return.
use vstd::prelude::*;

verus! {

/// The view of a list of strings: the character sequence of each item.
pub open spec fn strs(v: Seq<String>) -> Seq<Seq<char>> {
    v.map_values(|s: String| s@)
}

/// A microservice and how it talks to the rest of the system.
#[derive(Debug, Clone, PartialEq)]
pub struct Service {
    pub name: String,
    pub description: String,
    pub github_repo: Option<String>,
    /// gRPC servers this service implements.
    pub grpc_servers: Vec<String>,
    /// gRPC servers this service calls.
    pub grpc_clients: Vec<String>,
    /// Whether it exposes an HTTP API.
    pub http_server: bool,
    /// Services it makes HTTP calls to.
    pub http_clients: Vec<String>,
    /// Queues/topics it publishes to.
    pub queue_publishers: Vec<String>,
    /// Queues/topics it subscribes to.
    pub queue_subscribers: Vec<String>,
    /// Database tables it owns.
    pub tables: Vec<String>,
}

/// The mathematical value of a [`Service`].
#[verifier::ext_equal]
pub struct ServiceView {
    pub name: Seq<char>,
    pub description: Seq<char>,
    pub github_repo: Option<Seq<char>>,
    pub grpc_servers: Seq<Seq<char>>,
    pub grpc_clients: Seq<Seq<char>>,
    pub http_server: bool,
    pub http_clients: Seq<Seq<char>>,
    pub queue_publishers: Seq<Seq<char>>,
    pub queue_subscribers: Seq<Seq<char>>,
    pub tables: Seq<Seq<char>>,
}

impl View for Service {
    type V = ServiceView;

    open spec fn view(&self) -> ServiceView {
        ServiceView {
            name: self.name@,
            description: self.description@,
            github_repo: match self.github_repo {
                Some(r) => Some(r@),
                None => None,
            },
            grpc_servers: strs(self.grpc_servers@),
            grpc_clients: strs(self.grpc_clients@),
            http_server: self.http_server,
            http_clients: strs(self.http_clients@),
            queue_publishers: strs(self.queue_publishers@),
            queue_subscribers: strs(self.queue_subscribers@),
            tables: strs(self.tables@),
        }
    }
}

/// Name and description of a service, as listings return them.
#[derive(Debug, Clone, PartialEq)]
pub struct ServiceSummary {
    pub name: String,
    pub description: String,
}

/// A database table and its DDL.
#[derive(Debug, Clone, PartialEq)]
pub struct Table {
    pub name: String,
    pub database: String,
    pub owner: String,
    pub description: String,
    pub ddl: String,
}

/// Name and description of a table, as listings return them.
#[derive(Debug, Clone, PartialEq)]
pub struct TableSummary {
    pub name: String,
    pub description: String,
}

/// One typed field of a queue message.
#[derive(Debug, Clone, PartialEq)]
pub struct QueueField {
    pub name: String,
    pub field_type: String,
    pub description: String,
}

/// The message schema of a queue.
#[derive(Debug, Clone, PartialEq)]
pub struct QueueSchema {
    pub name: String,
    pub fields: Vec<QueueField>,
    pub notes: String,
}

/// A queue/topic and the schema of the messages that flow through it.
#[derive(Debug, Clone, PartialEq)]
pub struct QueueContract {
    pub name: String,
    pub description: String,
    pub schema: QueueSchema,
}

/// Name and description of a queue, as listings return them.
#[derive(Debug, Clone, PartialEq)]
pub struct QueueSummary {
    pub name: String,
    pub description: String,
}

/// The raw `.proto` definition of a gRPC server.
#[derive(Debug, Clone, PartialEq)]
pub struct ProtoContract {
    pub server: String,
    pub description: String,
    pub proto_raw: String,
}

/// Server name and description of a proto contract, as listings return them.
#[derive(Debug, Clone, PartialEq)]
pub struct ProtoSummary {
    pub server: String,
    pub description: String,
}

/// The OpenAPI/Swagger specification of a service's HTTP API.
#[derive(Debug, Clone, PartialEq)]
pub struct HttpContract {
    pub service: String,
    pub description: String,
    pub spec_raw: String,
}

/// Service name and description of an HTTP contract, as listings return them.
#[derive(Debug, Clone, PartialEq)]
pub struct HttpContractSummary {
    pub service: String,
    pub description: String,
}

} // verus!
