//! What a Reality client is configured with.

use vstd::prelude::*;

use crate::bytes::{be32, be32_bytes, be32_round_trip, read32};

verus! {

/// The longest short ID, in bytes.
pub const SHORT_ID_MAX: usize = 8;

/// VLESS Reality protocol configuration.
#[derive(Debug)]
pub struct RealityConfig {
    server_public_key: [u8; 32],
    short_id: Vec<u8>,
    client_version: [u8; 3],
}

/// What a [`RealityConfig`] holds.
pub struct RealityConfigModel {
    /// The server's X25519 public key.
    pub server_public_key: Seq<u8>,
    /// Identifies the client to the server.
    pub short_id: Seq<u8>,
    /// The version that the client claims.
    pub client_version: Seq<u8>,
}

/// Errors that can occur when creating a Reality configuration.
#[derive(Debug)]
pub enum RealityConfigError {
    /// The short ID must fit in eight bytes.
    ShortIdTooLong,
    /// A cryptographic operation failed.
    CryptoError(String),
}

/// The plaintext of a session ID: version, a reserved zero byte, the time in
/// seconds, and the short ID filled up with zeros to eight bytes.
pub open spec fn session_plaintext(config: RealityConfigModel, timestamp: u32) -> Seq<u8> {
    config.client_version + seq![0u8] + be32(timestamp) + padded_short_id(config.short_id)
}

/// A short ID filled up with zeros to eight bytes.
pub open spec fn padded_short_id(short_id: Seq<u8>) -> Seq<u8> {
    short_id + Seq::new((SHORT_ID_MAX - short_id.len()) as nat, |i: int| 0u8)
}

impl View for RealityConfig {
    type V = RealityConfigModel;

    closed spec fn view(&self) -> RealityConfigModel {
        RealityConfigModel {
            server_public_key: self.server_public_key@,
            short_id: self.short_id@,
            client_version: self.client_version@,
        }
    }
}

impl RealityConfigModel {
    /// The sizes that every configuration has.
    pub open spec fn well_formed(self) -> bool {
        &&& self.server_public_key.len() == 32
        &&& self.short_id.len() <= SHORT_ID_MAX
        &&& self.client_version.len() == 3
    }
}

impl RealityConfig {
    #[verifier::type_invariant]
    spec fn inv(self) -> bool {
        self.short_id@.len() <= SHORT_ID_MAX
    }

    /// Create a new Reality configuration.
    pub fn new(server_public_key: [u8; 32], short_id: Vec<u8>) -> (r: Result<
        Self,
        RealityConfigError,
    >)
        ensures
            r is Ok <==> short_id@.len() <= SHORT_ID_MAX,
            r matches Ok(config) ==> config@ == (RealityConfigModel {
                server_public_key: server_public_key@,
                short_id: short_id@,
                client_version: seq![0u8, 0u8, 0u8],
            }),
            r matches Err(e) ==> e is ShortIdTooLong,
    {
        if short_id.len() > SHORT_ID_MAX {
            return Err(RealityConfigError::ShortIdTooLong);
        }
        let client_version = [0u8, 0u8, 0u8];
        assert(client_version@ =~= seq![0u8, 0u8, 0u8]);
        Ok(RealityConfig { server_public_key, short_id, client_version })
    }

    /// Override the three-byte client version embedded in the Reality payload.
    pub fn with_client_version(self, version: [u8; 3]) -> (config: Self)
        ensures
            config@ == (RealityConfigModel { client_version: version@, ..self@ }),
    {
        proof {
            use_type_invariant(&self);
        }
        RealityConfig {
            server_public_key: self.server_public_key,
            short_id: self.short_id,
            client_version: version,
        }
    }

    /// The server's X25519 public key.
    pub fn server_public_key(&self) -> (key: &[u8; 32])
        ensures
            key@ == self@.server_public_key,
            self@.well_formed(),
    {
        proof {
            use_type_invariant(self);
        }
        &self.server_public_key
    }

    /// The short ID, as it was given.
    pub fn short_id(&self) -> (short_id: &[u8])
        ensures
            short_id@ == self@.short_id,
            self@.well_formed(),
    {
        proof {
            use_type_invariant(self);
        }
        self.short_id.as_slice()
    }

    /// The three-byte client version.
    pub fn client_version(&self) -> (version: &[u8; 3])
        ensures
            version@ == self@.client_version,
            self@.well_formed(),
    {
        proof {
            use_type_invariant(self);
        }
        &self.client_version
    }

    /// Lays out the plaintext of a session ID.
    pub fn session_plaintext(&self, timestamp: u32) -> (plaintext: [u8; 16])
        ensures
            plaintext@ == session_plaintext(self@, timestamp),
    {
        proof {
            use_type_invariant(self);
        }
        let time = be32_bytes(timestamp);
        let mut plaintext = [0u8; 16];
        plaintext[0] = self.client_version[0];
        plaintext[1] = self.client_version[1];
        plaintext[2] = self.client_version[2];
        plaintext[4] = time[0];
        plaintext[5] = time[1];
        plaintext[6] = time[2];
        plaintext[7] = time[3];
        let len: usize = self.short_id.len();
        let mut k: usize = 0;
        while k < len
            invariant
                k <= len <= SHORT_ID_MAX,
                len == self.short_id@.len(),
                plaintext@.take(8) =~= self.client_version@ + seq![0u8] + time@,
                forall|m: int| 8 <= m < 8 + k ==> #[trigger] plaintext@[m] == self.short_id@[m - 8],
                forall|m: int| 8 + k <= m < 16 ==> #[trigger] plaintext@[m] == 0u8,
            decreases len - k,
        {
            let ghost before = plaintext@;
            plaintext[8 + k] = self.short_id[k];
            assert(plaintext@.take(8) =~= before.take(8));
            k = k + 1;
        }
        assert(plaintext@.skip(8) =~= padded_short_id(self.short_id@));
        assert(plaintext@ =~= plaintext@.take(8) + plaintext@.skip(8));
        assert(plaintext@ =~= session_plaintext(self@, timestamp));
        plaintext
    }
}

impl Clone for RealityConfig {
    fn clone(&self) -> (config: Self)
        ensures
            config@ == self@,
    {
        proof {
            use_type_invariant(self);
        }
        let short_id = self.short_id.clone();
        assert(short_id@ =~= self.short_id@);
        RealityConfig {
            server_public_key: self.server_public_key,
            short_id,
            client_version: self.client_version,
        }
    }
}

impl RealityConfigError {
    /// The text that `message` gives.
    pub open spec fn spec_message(self) -> Seq<char> {
        match self {
            RealityConfigError::ShortIdTooLong => "Reality short_id must be at most 8 bytes"@,
            RealityConfigError::CryptoError(msg) => "Reality crypto error: "@ + msg@,
        }
    }

    /// Says in words what went wrong.
    pub fn message(&self) -> (text: String)
        ensures
            text@ == self.spec_message(),
    {
        match self {
            RealityConfigError::ShortIdTooLong => {
                "Reality short_id must be at most 8 bytes".to_owned()
            },
            RealityConfigError::CryptoError(msg) => {
                let mut text = "Reality crypto error: ".to_owned();
                text.append(msg.as_str());
                text
            },
        }
    }
}

/// The plaintext of a session ID is sixteen bytes, and whoever has it can read
/// the version, the time and the zero-filled short ID back at fixed places.
pub proof fn session_plaintext_fields(config: RealityConfigModel, timestamp: u32)
    requires
        config.well_formed(),
    ensures
        session_plaintext(config, timestamp).len() == 16,
        session_plaintext(config, timestamp).subrange(0, 3) == config.client_version,
        session_plaintext(config, timestamp)[3] == 0,
        read32(session_plaintext(config, timestamp), 4) == timestamp,
        session_plaintext(config, timestamp).subrange(8, 16) == padded_short_id(config.short_id),
        padded_short_id(config.short_id).take(config.short_id.len() as int) == config.short_id,
{
    let p = session_plaintext(config, timestamp);
    be32_round_trip(timestamp);
    assert(p.subrange(0, 3) =~= config.client_version);
    assert(p.subrange(4, 8) =~= be32(timestamp));
    assert(p.subrange(8, 16) =~= padded_short_id(config.short_id));
    assert(padded_short_id(config.short_id).take(config.short_id.len() as int)
        =~= config.short_id);
    assert(p[4] == p.subrange(4, 8)[0]);
    assert(p[5] == p.subrange(4, 8)[1]);
    assert(p[6] == p.subrange(4, 8)[2]);
    assert(p[7] == p.subrange(4, 8)[3]);
}

/// The plaintext byte by byte: the version, a zero, the time with its most significant
/// byte first, and the short ID with zeros behind it.
pub proof fn session_plaintext_byte_by_byte(config: RealityConfigModel, timestamp: u32)
    requires
        config.client_version.len() == 3,
        config.short_id.len() <= 8,
    ensures
        ({
            let p = session_plaintext(config, timestamp);
            &&& p.len() == 16
            &&& forall|k: int| 0 <= k < 3 ==> #[trigger] p[k] == config.client_version[k]
            &&& p[3] == 0
            &&& 0x100_0000 * p[4] + 0x1_0000 * p[5] + 256 * p[6] + p[7] == timestamp
            &&& forall|k: int|
                8 <= k < 8 + config.short_id.len() ==> #[trigger] p[k] == config.short_id[k - 8]
            &&& forall|k: int| 8 + config.short_id.len() <= k < 16 ==> #[trigger] p[k] == 0
        }),
{
    let p = session_plaintext(config, timestamp);
    assert(p[4] == be32(timestamp)[0] && p[5] == be32(timestamp)[1]);
    assert(p[6] == be32(timestamp)[2] && p[7] == be32(timestamp)[3]);
}

/// A configuration is well formed just where its key has 32 bytes, its short ID at most
/// eight and its version three.
pub proof fn a_configuration_is_bound_by_three_lengths(config: RealityConfigModel)
    ensures
        config.well_formed() <==> {
            &&& config.server_public_key.len() == 32
            &&& config.short_id.len() <= 8
            &&& config.client_version.len() == 3
        },
{
}

/// The words for an error hold what it was made with: the whole message of a failed
/// operation stands behind the same words each time.
pub proof fn the_words_hold_the_whole_message(msg: String, other: String)
    ensures
        ({
            let words = RealityConfigError::CryptoError(msg).spec_message();
            let first = words.len() - msg@.len();
            &&& words.take(first) == "Reality crypto error: "@
            &&& words.skip(first) == msg@
            &&& RealityConfigError::CryptoError(other).spec_message().take(first) == words.take(
                first,
            )
        }),
        RealityConfigError::ShortIdTooLong.spec_message()
            == "Reality short_id must be at most 8 bytes"@,
{
    let front = "Reality crypto error: "@;
    let words = RealityConfigError::CryptoError(msg).spec_message();
    assert(words.take(front.len() as int) =~= front);
    assert(words.skip(front.len() as int) =~= msg@);
    assert(RealityConfigError::CryptoError(other).spec_message().take(front.len() as int)
        =~= front);
}

} // verus!
