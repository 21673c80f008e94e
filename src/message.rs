use vstd::prelude::*;

verus! {

/// The identity under which the broker itself speaks; the resolver never
/// hands it to a user.
pub open spec fn system_identity() -> Seq<char> {
    "SYSTEM"@
}

/// What one inbound chat frame decodes to.
pub struct InboundMessage {
    pub to: Option<String>,
    pub content: String,
}

/// A routed message: `to == None` asks for a broadcast to everyone but `from`.
pub struct OutboundMessage {
    pub from: String,
    pub to: Option<String>,
    pub content: String,
}

/// The mathematical value of an `OutboundMessage`.
pub struct Envelope {
    pub from: Seq<char>,
    pub to: Option<Seq<char>>,
    pub content: Seq<char>,
}

pub open spec fn opt_view(o: Option<String>) -> Option<Seq<char>> {
    match o {
        Some(s) => Some(s@),
        None => None,
    }
}

impl View for OutboundMessage {
    type V = Envelope;

    open spec fn view(&self) -> Envelope {
        Envelope { from: self.from@, to: opt_view(self.to), content: self.content@ }
    }
}

pub fn copy_opt(o: &Option<String>) -> (r: Option<String>)
    ensures
        opt_view(r) == opt_view(*o),
{
    match o {
        Some(s) => Some(s.clone()),
        None => None,
    }
}

impl OutboundMessage {
    /// A copy of this message with the same value.
    pub fn duplicate(&self) -> (r: OutboundMessage)
        ensures
            r@ == self@,
    {
        OutboundMessage { from: self.from.clone(), to: copy_opt(&self.to), content: self.content.clone() }
    }

    /// The routed form of a message that `identity` sent.
    pub fn from_inbound(identity: &String, msg: InboundMessage) -> (r: OutboundMessage)
        ensures
            r@ == (Envelope { from: identity@, to: opt_view(msg.to), content: msg.content@ }),
    {
        OutboundMessage { from: identity.clone(), to: msg.to, content: msg.content }
    }

    /// A broadcast from the reserved system identity.
    pub fn announcement(text: String) -> (r: OutboundMessage)
        ensures
            r@ == (Envelope { from: system_identity(), to: None, content: text@ }),
    {
        OutboundMessage { from: String::from_str("SYSTEM"), to: None, content: text }
    }
}

pub open spec fn spec_joined_text(identity: Seq<char>) -> Seq<char> {
    identity + " joined the chat"@
}

pub open spec fn spec_left_text(identity: Seq<char>) -> Seq<char> {
    identity + " left the chat"@
}

pub open spec fn spec_miss_text(target: Seq<char>) -> Seq<char> {
    "User '"@ + target + "' not found or offline"@
}

/// The announcement text for an identity that has just joined.
pub fn joined_text(identity: &str) -> (r: String)
    ensures
        r@ == spec_joined_text(identity@),
{
    let s = String::from_str(identity);
    s.concat(" joined the chat")
}

/// The announcement text for an identity that has left.
pub fn left_text(identity: &str) -> (r: String)
    ensures
        r@ == spec_left_text(identity@),
{
    let s = String::from_str(identity);
    s.concat(" left the chat")
}

/// The notice sent back to a sender whose target is not registered.
pub fn miss_text(target: &str) -> (r: String)
    ensures
        r@ == spec_miss_text(target@),
{
    let s = String::from_str("User '");
    let s = s.concat(target);
    s.concat("' not found or offline")
}

} // verus!
