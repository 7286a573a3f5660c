//! Keys and signed events of the Nostr protocol.

use crate::text::{byte_len, is_word, starts_with, view_of, views};
use vstd::prelude::*;

verus! {

/// A pair of keys, both in hexadecimal.
#[derive(Debug, Clone, PartialEq, Eq)]
pub struct KeyPair {
    pub secret: String,
    pub public: String,
}

/// What a [`KeyPair`] holds.
pub struct KeyView {
    pub secret: Seq<char>,
    pub public: Seq<char>,
}

impl View for KeyPair {
    type V = KeyView;

    open spec fn view(&self) -> KeyView {
        KeyView { secret: self.secret@, public: self.public@ }
    }
}

/// An event that somebody signed. Its id, the author's key and the signature are
/// in hexadecimal.
#[derive(Debug, PartialEq, Eq)]
pub struct SignedEvent {
    pub id: String,
    pub pubkey: String,
    pub created_at: u64,
    pub kind: u16,
    pub tags: Vec<Vec<String>>,
    pub content: String,
    pub sig: String,
}

/// What a [`SignedEvent`] holds.
pub struct EventView {
    pub id: Seq<char>,
    pub pubkey: Seq<char>,
    pub created_at: u64,
    pub kind: u16,
    pub tags: Seq<Seq<Seq<char>>>,
    pub content: Seq<char>,
    pub sig: Seq<char>,
}

/// What the tags of a list hold.
pub open spec fn tag_views(list: Seq<Vec<String>>) -> Seq<Seq<Seq<char>>> {
    Seq::new(list.len(), |i: int| views(list[i]@))
}

impl View for SignedEvent {
    type V = EventView;

    open spec fn view(&self) -> EventView {
        EventView {
            id: self.id@,
            pubkey: self.pubkey@,
            created_at: self.created_at,
            kind: self.kind,
            tags: tag_views(self.tags@),
            content: self.content@,
            sig: self.sig@,
        }
    }
}

impl Clone for SignedEvent {
    fn clone(&self) -> (r: Self)
        ensures
            r@ == self@,
    {
        let mut tags: Vec<Vec<String>> = Vec::new();
        let mut i: usize = 0;
        while i < self.tags.len()
            invariant
                i <= self.tags@.len(),
                tags@.len() == i,
                forall|j: int| 0 <= j < i ==> views(#[trigger] tags@[j]@) == views(self.tags@[j]@),
            decreases self.tags@.len() - i,
        {
            tags.push(crate::parser::copied_list(&self.tags[i]));
            i += 1;
        }
        assert(tag_views(tags@) == tag_views(self.tags@));
        SignedEvent {
            id: self.id.clone(),
            pubkey: self.pubkey.clone(),
            created_at: self.created_at,
            kind: self.kind,
            tags,
            content: self.content.clone(),
            sig: self.sig.clone(),
        }
    }
}

/// The keys that `nostr_sdk::Keys::parse` reads in a text.
pub uninterp spec fn parsed_keys(text: Seq<char>) -> Option<KeyView>;

/// The secret key in a text, written with its prefix by
/// `nostr_sdk::ToBech32::to_bech32`.
pub uninterp spec fn nsec_text(secret: Seq<char>) -> Option<Seq<char>>;

/// A public key written with its prefix by `nostr_sdk::ToBech32::to_bech32`.
pub uninterp spec fn npub_text(public: Seq<char>) -> Option<Seq<char>>;

/// What `nostr_sdk::nips::nip44::decrypt` reads in a text that the owner of a
/// secret key wrote to themselves.
pub uninterp spec fn decrypted(secret: Seq<char>, content: Seq<char>) -> Option<Seq<char>>;

/// `nostr_sdk::Event::verify` accepts the event: its id is that of its contents,
/// and its signature that of its author.
pub uninterp spec fn authentic(event: EventView) -> bool;

/// What an optional pair of keys holds.
pub open spec fn key_view(value: Option<KeyPair>) -> Option<KeyView> {
    match value {
        Some(keys) => Some(keys@),
        None => None,
    }
}

/// `nostr_sdk::Keys::parse`: a secret key, in hexadecimal or with its prefix,
/// and the public key that belongs to it. The result depends on the text alone.
/// The secret key that it gives, read again, gives the same keys, and the
/// public key can be written with its prefix.
#[verifier::external_body]
pub(crate) fn read_keys(text: &str) -> (r: Option<KeyPair>)
    ensures
        key_view(r) == parsed_keys(text@),
        r is Some ==> parsed_keys(r->0.secret@) == Some(r->0@),
        r is Some ==> npub_text(r->0.public@) is Some,
{
    let keys = nostr_sdk::Keys::parse(text).ok()?;
    Some(KeyPair {
        secret: keys.secret_key().to_secret_hex(),
        public: keys.public_key().to_hex(),
    })
}

/// `nostr_sdk::Keys::generate`: the secret key of a new pair, by chance, in
/// hexadecimal. It can be read as a key.
#[verifier::external_body]
pub(crate) fn new_secret() -> (r: String)
    ensures
        parsed_keys(r@) is Some,
        parsed_keys(r@)->0.secret == r@,
{
    nostr_sdk::Keys::generate().secret_key().to_secret_hex()
}

/// `nostr_sdk::ToBech32::to_bech32` of a secret key. The result depends on the
/// key alone; it is there for every text that can be read as a key, is a single
/// word that begins with its prefix, and is read as the same key.
#[verifier::external_body]
pub(crate) fn write_nsec(secret: &str) -> (r: Option<String>)
    ensures
        view_of(r) == nsec_text(secret@),
        r is Some == parsed_keys(secret@) is Some,
        r is Some ==> is_word(r->0@) && starts_with(r->0@, "nsec1"@) && parsed_keys(r->0@)
            == parsed_keys(secret@),
{
    let key = nostr_sdk::SecretKey::parse(secret).ok()?;
    nostr_sdk::ToBech32::to_bech32(&key).ok()
}

/// `nostr_sdk::ToBech32::to_bech32` of a public key in hexadecimal. The result
/// depends on the key alone.
#[verifier::external_body]
pub(crate) fn write_npub(public: &str) -> (r: Option<String>)
    ensures
        view_of(r) == npub_text(public@),
{
    let key = nostr_sdk::PublicKey::from_hex(public).ok()?;
    nostr_sdk::ToBech32::to_bech32(&key).ok()
}

/// `nostr_sdk::nips::nip44::encrypt` of `text`, in version 2, by the owner of
/// the secret key for themselves. Each call draws a new nonce, so the result is
/// not a function of the arguments. With a key that can be read it gives a
/// result for every text of 1 to 65,408 bytes, of 87,472 bytes at most, and
/// decrypting that gives the text back.
#[verifier::external_body]
pub(crate) fn encrypt(secret: &str, text: &str) -> (r: Result<String, String>)
    ensures
        parsed_keys(secret@) is Some && 1 <= byte_len(text@) <= 65_408 ==> r is Ok,
        r is Ok ==> decrypted(secret@, r->Ok_0@) == Some(text@) && byte_len(r->Ok_0@) <= 87_472,
{
    let keys = nostr_sdk::Keys::parse(secret).map_err(|error| error.to_string())?;
    nostr_sdk::nips::nip44::encrypt(
        keys.secret_key(),
        &keys.public_key(),
        text,
        nostr_sdk::nips::nip44::Version::V2,
    ).map_err(|error| error.to_string())
}

/// `nostr_sdk::nips::nip44::decrypt` of what the owner of the secret key wrote
/// to themselves; nothing where it fails. The result depends on the arguments
/// alone.
#[verifier::external_body]
pub(crate) fn decrypt(secret: &str, content: &str) -> (r: Option<String>)
    ensures
        view_of(r) == decrypted(secret@, content@),
{
    let keys = nostr_sdk::Keys::parse(secret).ok()?;
    nostr_sdk::nips::nip44::decrypt(keys.secret_key(), &keys.public_key(), content).ok()
}

/// `nostr_sdk::EventBuilder::sign_with_keys`: an event of a kind, with one tag,
/// the identifier, with a content and a time, signed with the secret key. The
/// signature is drawn by chance. With a key that can be read the event is there,
/// holds what was asked for, names the owner of the key as its author, and is
/// authentic.
#[verifier::external_body]
pub(crate) fn sign_event(
    secret: &str,
    kind: u16,
    identifier: &str,
    content: &str,
    created_at: u64,
) -> (r: Option<SignedEvent>)
    ensures
        r is Some == parsed_keys(secret@) is Some,
        r is Some ==> {
            &&& r->0@.pubkey == parsed_keys(secret@)->0.public
            &&& r->0@.kind == kind
            &&& r->0@.tags == seq![seq!["d"@, identifier@]]
            &&& r->0@.content == content@
            &&& r->0@.created_at == created_at
            &&& authentic(r->0@)
        },
{
    let keys = nostr_sdk::Keys::parse(secret).ok()?;
    let event = nostr_sdk::EventBuilder::new(nostr_sdk::Kind::from_u16(kind), content)
        .tag(nostr_sdk::Tag::identifier(identifier))
        .custom_created_at(nostr_sdk::Timestamp::from_secs(created_at))
        .sign_with_keys(&keys)
        .ok()?;
    Some(SignedEvent {
        id: event.id.to_hex(),
        pubkey: event.pubkey.to_hex(),
        created_at: event.created_at.as_secs(),
        kind: event.kind.as_u16(),
        tags: event.tags.iter().map(|tag| tag.as_slice().to_vec()).collect(),
        content: event.content,
        sig: event.sig.to_string(),
    })
}

/// `nostr_sdk::Event::verify` on the event that `event` describes. The result,
/// which is there where the event is accepted, depends on the event alone.
#[verifier::external_body]
pub(crate) fn verify_event(event: &SignedEvent) -> (r: Option<()>)
    ensures
        r is Some == authentic(event@),
{
    let tags = event.tags.iter().map(|tag| nostr_sdk::Tag::parse(tag.iter().cloned()));
    nostr_sdk::Event::new(
        nostr_sdk::EventId::from_hex(event.id.as_str()).ok()?,
        nostr_sdk::PublicKey::from_hex(event.pubkey.as_str()).ok()?,
        nostr_sdk::Timestamp::from_secs(event.created_at),
        nostr_sdk::Kind::from_u16(event.kind),
        tags.collect::<Result<Vec<nostr_sdk::Tag>, _>>().ok()?,
        event.content.as_str(),
        event.sig.parse::<nostr_sdk::secp256k1::schnorr::Signature>().ok()?,
    ).verify().ok()
}

} // verus!
