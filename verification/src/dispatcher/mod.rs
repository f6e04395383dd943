//! The routing core: the subscription table, the retained store and the
//! cached-session store.

pub mod router;
pub mod sessions;

pub use router::{Dispatcher, Pipeline, RetainedMessage, SubscribedTopic, Subscription, topic_match};
pub use sessions::{CachedSessions, ConnectedClient, ConnectedClients};
