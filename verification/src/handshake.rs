//! The hello of a Reality handshake: the session's key as its key share, and as its
//! session ID what is sealed over that same hello.

use vstd::prelude::*;

use crate::bytes::be16;
use crate::config::session_plaintext;
use crate::crypto::aes_128_gcm_sealed;
use crate::error::{is_general, TlsError};
use crate::grease::Grease;
use crate::hello::{
    a_body_is_written_field_by_field, a_message_is_a_header_and_the_body, entries_are_written_in_order, entries_bytes, entry_bytes, generated,
    leading, lemma_body_len, shaped, shaped_shares, unpadded, writable, HelloModel, HelloOffer,
    OfferModel, ShapedHello,
};
use crate::hello_laws::every_extension_has_its_place;
use crate::hkdf::Hkdf;
use crate::profile::{ClientHelloProfile, ProfileModel, RawExtension};
use crate::session::{
    auth_key, readable, session_id_under, streamed, AuthKeySlot, Random, RealitySessionState,
    SessionModel, AUTH_KEY_INFO, X25519_GROUP,
};

verus! {

/// Where the session ID stands in a handshake message: behind type, length, version,
/// random value and its own length.
pub const SESSION_ID_AT: usize = 39;

/// What stands for the session ID until it is known.
pub open spec fn no_session_id() -> Seq<u8> {
    Seq::new(32, |i: int| 0u8)
}

/// An offer with the session's public key as its one key share, and this session ID.
pub open spec fn reality_offer(
    session: SessionModel,
    offer: OfferModel,
    session_id: Seq<u8>,
) -> OfferModel {
    OfferModel { session_id, key_shares: seq![(X25519_GROUP, session.client_public)], ..offer }
}

/// The hello that the session ID is sealed over: shaped like the one that is sent,
/// with zeros for the session ID.
pub open spec fn blank_hello(
    session: SessionModel,
    profile: ProfileModel,
    grease: Grease,
    offer: OfferModel,
) -> HelloModel {
    shaped(profile, grease, reality_offer(session, offer, no_session_id()))
}

/// The session ID of a hello under an authentication key.
pub open spec fn hello_session_id(
    session: SessionModel,
    profile: ProfileModel,
    grease: Grease,
    offer: OfferModel,
    key: Seq<u8>,
    timestamp: u32,
) -> Seq<u8> {
    session_id_under(
        session.config,
        key,
        offer.random,
        blank_hello(session, profile, grease, offer).message(),
        timestamp,
    )
}

/// Shaping looks at the length of the session ID alone.
proof fn lemma_shape_ignores_session_id(
    profile: ProfileModel,
    grease: Grease,
    offer: OfferModel,
    session_id: Seq<u8>,
)
    requires
        session_id.len() == offer.session_id.len(),
    ensures
        shaped(profile, grease, OfferModel { session_id, ..offer }) == (HelloModel {
            session_id,
            ..shaped(profile, grease, offer)
        }),
{
    let other = OfferModel { session_id, ..offer };
    assert(leading(profile, grease, other) == leading(profile, grease, offer));
    assert(unpadded(profile, grease, other).body_len() == unpadded(
        profile,
        grease,
        offer,
    ).body_len());
}

impl RealitySessionState {
    /// Builds the hello of a Reality handshake and leaves the authentication key in
    /// `slot`.
    ///
    /// The offer's own key shares and session ID are not used. Nothing is built, and
    /// the slot keeps what it had, where the shaped hello has a list too long for its
    /// length field, or where the key cannot be derived.
    pub fn reality_hello<H: Hkdf>(
        &self,
        slot: &mut AuthKeySlot,
        profile: &ClientHelloProfile,
        grease: &Grease,
        offer: HelloOffer,
        hkdf: &H,
        timestamp: u32,
    ) -> (r: Result<Option<ShapedHello>, TlsError>)
        ensures
            self@.well_formed(),
            ({
                let can_be_written = writable(
                    profile@,
                    *grease,
                    reality_offer(self@, offer@, no_session_id()),
                );
                let blank = blank_hello(self@, profile@, *grease, offer@);
                match auth_key(*hkdf, self@.auth_shared_secret, offer.random@) {
                    Some(key) => {
                        let id = hello_session_id(
                            self@,
                            profile@,
                            *grease,
                            offer@,
                            key,
                            timestamp,
                        );
                        let plaintext = session_plaintext(self@.config, timestamp);
                        &&& r matches Ok(built) && (built is Some <==> can_be_written)
                        &&& r matches Ok(Some(hello)) ==> {
                            &&& hello@ == shaped(
                                profile@,
                                *grease,
                                reality_offer(self@, offer@, id),
                            )
                            &&& hello@ == (HelloModel { session_id: id, ..blank })
                            &&& readable(id, key, offer.random@, blank.message(), plaintext)
                            &&& streamed(id, key, offer.random@, plaintext)
                            &&& final(slot)@ == Some(key)
                        }
                    },
                    None => {
                        &&& r is Err <==> can_be_written
                        &&& r matches Ok(hello) ==> hello is None
                        &&& r matches Err(e) ==> is_general(e, "HKDF expand failed"@)
                    },
                }
            }),
            !(r matches Ok(Some(_))) ==> *final(slot) == *old(slot),
    {
        let ghost given = offer@;
        let random = Random(offer.random);
        let mut zeros: Vec<u8> = Vec::new();
        zeros.resize(32, 0);
        assert(zeros@ =~= no_session_id());
        let mut key_shares: Vec<RawExtension> = Vec::new();
        key_shares.push(self.key_share());
        let blank_offer = HelloOffer {
            random: offer.random,
            session_id: zeros,
            cipher_suites: offer.cipher_suites,
            tls12: offer.tls12,
            named_groups: offer.named_groups,
            versions: offer.versions,
            key_shares,
            extensions: offer.extensions,
            trailing: offer.trailing,
        };
        assert(blank_offer@.key_shares =~= seq![(X25519_GROUP, self@.client_public)]);
        assert(blank_offer@ == reality_offer(self@, given, no_session_id()));
        let blank = match profile.shape(grease, &blank_offer) {
            Some(hello) => hello,
            None => {
                return Ok(None);
            },
        };
        let message = blank.message();
        let id = match self.compute_session_id(
            slot,
            &random,
            message.as_slice(),
            hkdf,
            timestamp,
        ) {
            Ok(id) => id,
            Err(e) => {
                return Err(e);
            },
        };
        proof {
            lemma_shape_ignores_session_id(profile@, *grease, blank_offer@, id@);
            assert(reality_offer(self@, given, id@) == (OfferModel {
                session_id: id@,
                ..blank_offer@
            }));
        }
        Ok(Some(blank.with_session_id(&id)))
    }
}

/// What the offer says for a session ID, or for key shares, does not matter: the ones
/// of the session take their place.
pub proof fn offered_session_ids_do_not_matter(
    session: SessionModel,
    offer: OfferModel,
    generated: Seq<u8>,
    shares: Seq<(u16, Seq<u8>)>,
    session_id: Seq<u8>,
)
    ensures
        reality_offer(
            session,
            OfferModel { session_id: generated, key_shares: shares, ..offer },
            session_id,
        ) == reality_offer(session, offer, session_id),
{
}

/// The session ID stands at a fixed place in the message, and putting another in its
/// place changes nothing else. So the server, which sees the hello as it was sent,
/// puts zeros there and has what the session ID was sealed over.
pub proof fn the_server_can_blank_the_hello(hello: HelloModel, session_id: Seq<u8>)
    requires
        hello.fits(),
        hello.session_id.len() == 32,
        session_id.len() == 32,
    ensures
        ({
            let at = SESSION_ID_AT as int;
            let message = hello.message();
            &&& message.subrange(at, at + 32) == hello.session_id
            &&& (HelloModel { session_id, ..hello }).message() == message.take(at) + session_id
                + message.skip(at + 32)
        }),
{
    let other = HelloModel { session_id, ..hello };
    let at = SESSION_ID_AT as int;
    lemma_body_len(hello);
    lemma_body_len(other);
    let message = hello.message();
    let rest = hello.fields().suites_field() + hello.fields().extensions_field();
    assert(other.fields().suites_field() == hello.fields().suites_field());
    assert(other.fields().extensions_field() == hello.fields().extensions_field());
    assert(hello.body() =~= hello.fields().opening() + rest);
    assert(other.body() =~= other.fields().opening() + rest);
    let front = message.take(at);
    assert(message =~= front + hello.session_id + rest);
    assert(message.skip(at + 32) =~= rest);
    assert(other.message() =~= front + session_id + rest);
}

/// The offer goes out as it is, but for the session ID and the key shares: the one share is
/// of group 0x001d and holds the session's public key.
pub proof fn nothing_else_of_the_offer_changes(
    session: SessionModel,
    offer: OfferModel,
    session_id: Seq<u8>,
)
    ensures
        ({
            let sent = reality_offer(session, offer, session_id);
            &&& sent.random == offer.random
            &&& sent.cipher_suites == offer.cipher_suites
            &&& sent.tls12 == offer.tls12
            &&& sent.named_groups == offer.named_groups
            &&& sent.versions == offer.versions
            &&& sent.extensions == offer.extensions
            &&& sent.trailing == offer.trailing
            &&& sent.session_id == session_id
            &&& sent.key_shares.len() == 1
            &&& sent.key_shares[0].0 == 0x001d
            &&& sent.key_shares[0].1 == session.client_public
        }),
{
}

/// The hello of a Reality handshake is the hello of an ordinary one, with another session ID
/// and another body in its key_share extension: the random value, the cipher suites and
/// every other extension, those that were offered and those that the profile adds, are the
/// same, in the same order. The key share is 00 1d, 00 20 and the session's public key.
pub proof fn reality_changes_the_session_id_and_the_key_share_alone(
    session: SessionModel,
    profile: ProfileModel,
    grease: Grease,
    offer: OfferModel,
    session_id: Seq<u8>,
)
    requires
        profile.padding is None,
        session.client_public.len() == 32,
    ensures
        ({
            let hello = shaped(profile, grease, reality_offer(session, offer, session_id));
            let ordinary = shaped(profile, grease, offer);
            let g: int = if profile.grease {
                1
            } else {
                0
            };
            let at = g + profile.prepend_extensions.len() + 2;
            let share = hello.extensions[at].1;
            &&& hello.random == offer.random
            &&& hello.session_id == session_id
            &&& hello.cipher_suites == ordinary.cipher_suites
            &&& hello.extensions.len() == ordinary.extensions.len()
            &&& forall|i: int|
                0 <= i < hello.extensions.len() && i != at ==> #[trigger] hello.extensions[i]
                    == ordinary.extensions[i]
            &&& hello.extensions.subrange(at + 1, at + 1 + offer.extensions.len())
                == offer.extensions
            &&& hello.extensions[at].0 == 51
            &&& share.len() == 2 + 5 * g + 4 + 32
            &&& 256 * share[0] + share[1] == share.len() - 2
            &&& share.skip(2 + 5 * g) == seq![0x00u8, 0x1du8, 0x00u8, 0x20u8]
                + session.client_public
        }),
{
    let sent = reality_offer(session, offer, session_id);
    let hello = shaped(profile, grease, sent);
    let ordinary = shaped(profile, grease, offer);
    let made = generated(profile, grease, sent)[2];
    let g: int = if profile.grease {
        1
    } else {
        0
    };
    let at = g + profile.prepend_extensions.len() + 2;
    lemma_shares_have_one_place(profile, grease, offer, sent);
    assert(hello.extensions == ordinary.extensions.update(at, made));
    every_extension_has_its_place(profile, grease, offer);
    assert(hello.extensions[at] == made);
    assert(hello.extensions.subrange(at + 1, at + 1 + offer.extensions.len())
        =~= ordinary.extensions.subrange(at + 1, at + 1 + offer.extensions.len()));
    assert(made.0 == 51);
    lemma_one_share(session.client_public);
    lemma_shares_body(profile, grease, sent);
    assert(hello.cipher_suites == ordinary.cipher_suites);
}

/// Of the whole list of extensions, only the third of the generated ones looks at the key
/// shares, and none looks at the session ID.
proof fn lemma_shares_have_one_place(
    profile: ProfileModel,
    grease: Grease,
    offer: OfferModel,
    sent: OfferModel,
)
    requires
        profile.padding is None,
        sent == (OfferModel {
            session_id: sent.session_id,
            key_shares: sent.key_shares,
            ..offer
        }),
    ensures
        shaped(profile, grease, sent).extensions == shaped(profile, grease, offer).extensions.update(
            (if profile.grease {
                1int
            } else {
                0int
            }) + profile.prepend_extensions.len() + 2,
            generated(profile, grease, sent)[2],
        ),
{
    let g: int = if profile.grease {
        1
    } else {
        0
    };
    let before = profile.prepend_extensions;
    let ours = generated(profile, grease, sent);
    let theirs = generated(profile, grease, offer);
    let made = ours[2];
    assert(ours =~= theirs.update(2, made));
    let ours_middle = before + ours + profile.append_extensions;
    let theirs_middle = before + theirs + profile.append_extensions;
    assert(ours_middle =~= theirs_middle.update(before.len() as int + 2, made));
    let at = g + before.len() + 2;
    let front = leading(profile, grease, offer);
    assert(front.len() >= at + 1);
    assert(leading(profile, grease, sent) =~= front.update(at, made));
    assert(shaped(profile, grease, offer).extensions =~= front + offer.trailing);
    assert(shaped(profile, grease, sent).extensions =~= front.update(at, made) + offer.trailing);
    assert(front.update(at, made) + offer.trailing =~= (front + offer.trailing).update(at, made));
}

/// The bytes of one X25519 key share.
proof fn lemma_one_share(key: Seq<u8>)
    requires
        key.len() == 32,
    ensures
        entries_bytes(seq![(X25519_GROUP, key)]) == seq![0x00u8, 0x1du8, 0x00u8, 0x20u8] + key,
{
    let entry = (X25519_GROUP, key);
    let bytes = entries_bytes(seq![entry]);
    reveal_with_fuel(entries_bytes, 2);
    assert(seq![entry].drop_first() =~= Seq::empty());
    assert(bytes =~= entry_bytes(entry));
    assert(be16(X25519_GROUP) =~= seq![0x00u8, 0x1du8]);
    assert(be16(32) =~= seq![0x00u8, 0x20u8]);
    assert(entry_bytes(entry) =~= seq![0x00u8, 0x1du8] + seq![0x00u8, 0x20u8] + key);
    assert(seq![0x00u8, 0x1du8] + seq![0x00u8, 0x20u8] =~= seq![0x00u8, 0x1du8, 0x00u8, 0x20u8]);
}

/// The body of the key_share extension: length, GREASE if asked for, the shares.
proof fn lemma_shares_body(profile: ProfileModel, grease: Grease, offer: OfferModel)
    requires
        entries_bytes(offer.key_shares).len() + 5 <= 0xffff,
    ensures
        ({
            let body = generated(profile, grease, offer)[2].1;
            let g: int = if profile.grease {
                1
            } else {
                0
            };
            &&& body.len() == 2 + 5 * g + entries_bytes(offer.key_shares).len()
            &&& 256 * body[0] + body[1] == body.len() - 2
            &&& body.skip(2 + 5 * g) == entries_bytes(offer.key_shares)
        }),
{
    let body = generated(profile, grease, offer)[2].1;
    let shares = shaped_shares(profile, grease, offer);
    let bytes = entries_bytes(shares);
    let entry = (grease.named_group, Grease::KEY_SHARE_PAYLOAD@);
    let none = Seq::<(u16, Seq<u8>)>::empty();
    if profile.grease {
        assert(shares =~= none + seq![entry] + offer.key_shares);
        entries_are_written_in_order(none, entry, offer.key_shares);
        assert(bytes.skip(5) =~= entries_bytes(offer.key_shares));
        assert(body.skip(7) =~= bytes.skip(5));
    } else {
        assert(body.skip(2) =~= bytes);
    }
}

/// What the server does with the hello that reaches it: bytes 6 to 25 of the message are the
/// salt of the authentication key, bytes 26 to 37 the nonce, bytes 39 to 70 the session ID,
/// and the message with zeros there is what the session ID was sealed over.
pub proof fn the_hello_holds_what_opens_its_session_id<H: Hkdf>(
    session: SessionModel,
    profile: ProfileModel,
    grease: Grease,
    offer: OfferModel,
    hkdf: H,
    key: Seq<u8>,
    timestamp: u32,
    zeros: Seq<u8>,
)
    requires
        ({
            let id = hello_session_id(session, profile, grease, offer, key, timestamp);
            let hello = shaped(profile, grease, reality_offer(session, offer, id));
            &&& id.len() == 32
            &&& hello.random.len() == 32
            &&& 2 * hello.cipher_suites.len() <= 0xffff
            &&& entries_bytes(hello.extensions).len() <= 0xffff
        }),
        key.len() == 32,
        zeros.len() == 32,
        forall|i: int| 0 <= i < 32 ==> #[trigger] zeros[i] == 0,
    ensures
        ({
            let id = hello_session_id(session, profile, grease, offer, key, timestamp);
            let message = shaped(profile, grease, reality_offer(session, offer, id)).message();
            &&& message.subrange(39, 71) == id
            &&& id == aes_128_gcm_sealed(
                key.subrange(0, 16),
                message.subrange(26, 38),
                message.take(39) + zeros + message.skip(71),
                session_plaintext(session.config, timestamp),
            )
            &&& auth_key(hkdf, session.auth_shared_secret, offer.random) == hkdf.okm(
                Some(message.subrange(6, 26)),
                session.auth_shared_secret,
                seq![0x52u8, 0x45u8, 0x41u8, 0x4cu8, 0x49u8, 0x54u8, 0x59u8],
                32,
            )
        }),
{
    let id = hello_session_id(session, profile, grease, offer, key, timestamp);
    let message = shaped(profile, grease, reality_offer(session, offer, id)).message();
    lemma_blank_message(session, profile, grease, offer, id, zeros);
    lemma_salt_and_nonce(message, offer.random);
    assert(AUTH_KEY_INFO@ =~= seq![0x52u8, 0x45u8, 0x41u8, 0x4cu8, 0x49u8, 0x54u8, 0x59u8]);
}

proof fn lemma_blank_message(
    session: SessionModel,
    profile: ProfileModel,
    grease: Grease,
    offer: OfferModel,
    id: Seq<u8>,
    zeros: Seq<u8>,
)
    requires
        shaped(profile, grease, reality_offer(session, offer, id)).fits(),
        id.len() == 32,
        zeros.len() == 32,
        forall|i: int| 0 <= i < 32 ==> #[trigger] zeros[i] == 0,
    ensures
        ({
            let message = shaped(profile, grease, reality_offer(session, offer, id)).message();
            &&& message.len() >= 71
            &&& message.subrange(39, 71) == id
            &&& message.subrange(6, 38) == offer.random
            &&& blank_hello(session, profile, grease, offer).message() == message.take(39) + zeros
                + message.skip(71)
        }),
{
    let sent = reality_offer(session, offer, id);
    let hello = shaped(profile, grease, sent);
    assert(zeros =~= no_session_id());
    lemma_shape_ignores_session_id(profile, grease, sent, zeros);
    assert(reality_offer(session, offer, zeros) == (OfferModel { session_id: zeros, ..sent }));
    assert(blank_hello(session, profile, grease, offer) == (HelloModel {
        session_id: zeros,
        ..hello
    }));
    assert(hello.session_id == id);
    assert(hello.random == offer.random);
    the_server_can_blank_the_hello(hello, zeros);
    a_message_is_a_header_and_the_body(hello);
    a_body_is_written_field_by_field(hello);
}

proof fn lemma_salt_and_nonce(message: Seq<u8>, random: Seq<u8>)
    requires
        message.len() >= 38,
        message.subrange(6, 38) == random,
    ensures
        random.subrange(0, 20) == message.subrange(6, 26),
        random.subrange(20, 32) == message.subrange(26, 38),
{
    assert(random.subrange(0, 20) =~= message.subrange(6, 26));
    assert(random.subrange(20, 32) =~= message.subrange(26, 38));
}

} // verus!
