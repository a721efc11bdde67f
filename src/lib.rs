pub mod client_follower_document;
pub mod client_session;
pub mod connection;
pub mod document_command;
pub mod document_storage;
pub mod fractional_index;
pub mod ids;
pub mod inversion;
pub mod materialize;
pub mod message;
pub mod model;
pub mod server;
pub mod server_leader_document;
pub mod server_state;
pub mod session;
pub mod table;
pub mod transaction_manager;
pub mod transactional_document;
pub mod tree;

pub use client_follower_document::{ClientFollowerDocument, FollowerError, TransactionResult};
pub use client_session::{ClientSession, ClientSessionError};
pub use connection::{ConnectionState, EgressStep};
pub use document_command::{
    convert_command, convert_command_to_tx, create_last_index_of_parent, CommandError,
    DocumentCommand, Point,
};
pub use document_storage::{DocumentStorage, ObjectEntry};
pub use ids::create_file_name;
pub use materialize::{DocumentMaterial, FrameMaterial, ObjectMaterial, OvalMaterial};
pub use message::{
    Color, CommandId, CommandResult, ConnectionId, DocumentMutation, DocumentSnapshot, FatalError,
    FileId, IdentifiableCommand, IdentifiableEvent, LivePointerCommand, LivePointerEvent,
    ObjectId, ObjectKind, PropKind, PropValue, RollbackReason, SessionCommand, SessionError,
    SessionEvent, SessionId, SessionSnapshot, Transaction, TransactionId,
};
pub use server::{ConnectionEvent, FileDescription, Server, ServerAction};
pub use server_leader_document::ServerLeaderDocument;
pub use server_state::{ServerError, ServerState};
pub use session::{
    PendingTransactionCommitError, PendingTransactionCommitResult, Session, SessionBehavior,
};
pub use transaction_manager::TransactionManager;
pub use transactional_document::TransactionalDocument;
