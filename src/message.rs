//! Payout messages: unsigned events whose identity is their content hash,
//! and the signed events obtained by attaching a decrypted signature.
use vstd::prelude::*;

verus! {

/// An unsigned payout message: its 32-byte id, its author's 32-byte x-only
/// key, and the JSON text it was read from.
pub struct UnsignedMessage {
    pub id: Vec<u8>,
    pub pubkey: Vec<u8>,
    pub json: String,
}

pub struct UnsignedMessageView {
    pub id: Seq<u8>,
    pub pubkey: Seq<u8>,
    pub json: Seq<char>,
}

impl View for UnsignedMessage {
    type V = UnsignedMessageView;

    open spec fn view(&self) -> UnsignedMessageView {
        UnsignedMessageView { id: self.id@, pubkey: self.pubkey@, json: self.json@ }
    }
}

/// A finalized payout message: its id and its JSON text.
pub struct SignedMessage {
    pub id: Vec<u8>,
    pub json: String,
}

pub struct SignedMessageView {
    pub id: Seq<u8>,
    pub json: Seq<char>,
}

impl View for SignedMessage {
    type V = SignedMessageView;

    open spec fn view(&self) -> SignedMessageView {
        SignedMessageView { id: self.id@, json: self.json@ }
    }
}

pub open spec fn unsigned_view(r: Option<UnsignedMessage>) -> Option<UnsignedMessageView> {
    match r {
        Some(m) => Some(m@),
        None => None,
    }
}

pub open spec fn signed_view(r: Option<SignedMessage>) -> Option<SignedMessageView> {
    match r {
        Some(m) => Some(m@),
        None => None,
    }
}

/// The unsigned event that a JSON text describes, with its id.
pub uninterp spec fn unsigned_read(json: Seq<char>) -> Option<UnsignedMessageView>;

/// The signed event made from an unsigned event's JSON text and a 64-byte
/// signature; `None` where the signature does not verify.
pub uninterp spec fn signed_of(json: Seq<char>, sig: Seq<u8>) -> Option<SignedMessageView>;

/// A message agrees with its text: reading the JSON gives back its id and
/// author.
pub open spec fn is_read(m: UnsignedMessageView) -> bool {
    unsigned_read(m.json) == Some(m)
}

/// Relies on nostr's `UnsignedEvent::from_json` and `UnsignedEvent::id`: the
/// event depends on the text alone, and the id and key are 32 bytes.
#[verifier::external_body]
fn read_unsigned(json: &str) -> (r: Option<UnsignedMessage>)
    ensures
        unsigned_view(r) == unsigned_read(json@),
        r is Some ==> r->0.json@ == json@ && r->0.id@.len() == 32 && r->0.pubkey@.len() == 32,
{
    let mut event = nostr::event::UnsignedEvent::from_json(json).ok()?;
    let id = event.id().to_bytes().to_vec();
    Some(UnsignedMessage { id, pubkey: event.pubkey.to_bytes().to_vec(), json: json.to_string() })
}

/// Relies on nostr's `UnsignedEvent::add_signature`: it keeps the id that
/// `UnsignedEvent::id` gives for the same text, and fails where the
/// signature does not verify.
#[verifier::external_body]
fn attach_signature(json: &str, sig: &Vec<u8>) -> (r: Option<SignedMessage>)
    ensures
        signed_view(r) == signed_of(json@, sig@),
        r is Some ==> unsigned_read(json@) is Some && r->0.id@ == unsigned_read(json@)->0.id,
{
    let unsigned = nostr::event::UnsignedEvent::from_json(json).ok()?;
    let sig = nostr::event::Signature::from_slice(sig).ok()?;
    let event = unsigned.add_signature(sig).ok()?;
    Some(SignedMessage { id: event.id.to_bytes().to_vec(), json: event.as_json() })
}

impl UnsignedMessage {
    /// Reads an unsigned payout message from its JSON text.
    pub fn from_json(json: &str) -> (r: Option<UnsignedMessage>)
        ensures
            unsigned_view(r) == unsigned_read(json@),
            r is Some ==> is_read(r->0@),
            r is Some ==> r->0.json@ == json@ && r->0.id@.len() == 32 && r->0.pubkey@.len() == 32,
    {
        read_unsigned(json)
    }

    /// A copy of this message.
    pub fn duplicate(&self) -> (r: UnsignedMessage)
        ensures
            r@ == self@,
    {
        UnsignedMessage { id: self.id.clone(), pubkey: self.pubkey.clone(), json: self.json.clone() }
    }

    /// Completes this message with a plain 64-byte signature.
    pub fn add_signature(&self, sig: &Vec<u8>) -> (r: Option<SignedMessage>)
        ensures
            signed_view(r) == signed_of(self.json@, sig@),
            r is Some ==> unsigned_read(self.json@) is Some && r->0.id@ == unsigned_read(
                self.json@,
            )->0.id,
    {
        attach_signature(self.json.as_str(), sig)
    }
}

} // verus!
