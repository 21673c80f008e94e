//! A message relay broker: a registry from identity to outbound queue, a router
//! for directed and broadcast messages, and the lifecycle of one connection.

mod broker;
mod laws;
mod message;
mod resolver;
mod session;

pub use broker::{
    deliver_spec, enqueue, is_recipient, miss_notice, queue_of, routed_spec, Broker, Queue,
};
pub use laws::{
    apply_changes, deliver_all, lemma_broadcast_skips_sender, lemma_directed_only_target,
    lemma_lookup_stable, lemma_malformed_frame_harmless, lemma_order_kept, lemma_rejoin_last_wins, lemma_rejoin_routes_to_latest,
    lemma_removed_handle_gets_nothing, lemma_teardown_announces_once, reaches,
    lemma_teardown_once,
};
pub use message::{
    copy_opt, joined_text, left_text, miss_text, opt_view, spec_joined_text, spec_left_text,
    spec_miss_text, system_identity, Envelope, InboundMessage, OutboundMessage,
};
pub use resolver::{
    bearer_token, extract_username, extract_username_from_message, json_string_member, resolve,
    spec_bearer_token, spec_resolve,
};
pub use session::{
    completes, end_duty, finished, frame_spec, inbound_view, teardown_queues, teardown_registry,
    Duty, Session, SessionState,
};
