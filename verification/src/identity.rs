//! The device identity: an Ed25519 key pair that signs the gateway handshake.
use vstd::prelude::*;
use vstd::utf8::encode_utf8;

use crate::encoding::{
    base64_symbol, base64url, base64url_decode, base64url_encode, base64url_injective, hex_decode,
    hex_encode, hex_reads_back, hex_spells, hex_text, hex_value, sextet,
};
use crate::text::{
    decimal, decimal_injective, decimal_string, join, joined, joined_injective, optional_text,
    owned, trim, trimmed, trimmed_keeps_content, trimming_leaves_the_middle, views, white_space,
};

verus! {

// ---------------------------------------------------------------------------
// Keys, signatures and digests
// ---------------------------------------------------------------------------
/// The public key of an Ed25519 secret key.
pub uninterp spec fn ed25519_public_key(secret: Seq<u8>) -> Seq<u8>;

/// The Ed25519 signature of a message under a secret key.
pub uninterp spec fn ed25519_signature(secret: Seq<u8>, message: Seq<u8>) -> Seq<u8>;

/// The SHA-256 digest.
pub uninterp spec fn sha256(data: Seq<u8>) -> Seq<u8>;

/// The public key of a secret key.
///
/// Trusted: `ed25519_dalek::SigningKey::verifying_key` depends on the secret key
/// alone.
#[verifier::external_body]
fn public_key_of(secret: &[u8; 32]) -> (key: [u8; 32])
    ensures
        key@ == ed25519_public_key(secret@),
{
    ed25519_dalek::SigningKey::from_bytes(secret).verifying_key().to_bytes()
}

/// The signature of a message.
///
/// Trusted: signing with `ed25519_dalek::SigningKey` is deterministic, so that the
/// signature depends on the secret key and the message alone.
#[verifier::external_body]
fn signature_of(secret: &[u8; 32], message: &[u8]) -> (signature: [u8; 64])
    ensures
        signature@ == ed25519_signature(secret@, message@),
{
    ed25519_dalek::Signer::sign(&ed25519_dalek::SigningKey::from_bytes(secret), message).to_bytes()
}

/// Why the operating system gave no random bytes.
#[verifier::external_type_specification]
#[verifier::external_body]
pub struct ExError(rand_core::Error);

/// A new secret key from the random source of the operating system.
///
/// Trusted: `rand_core::OsRng` fills the key through `try_fill_bytes`, which returns
/// an error where the source fails. Nothing is claimed of the key but its length.
#[verifier::external_body]
fn random_secret_key() -> (r: Result<[u8; 32], rand_core::Error>) {
    let mut secret = [0u8; 32];
    rand_core::RngCore::try_fill_bytes(&mut rand_core::OsRng, &mut secret)?;
    Ok(secret)
}

/// The SHA-256 digest of some bytes.
///
/// Trusted: `sha2::Sha256::digest` depends on the bytes alone.
#[verifier::external_body]
fn sha256_of(data: &[u8]) -> (digest: [u8; 32])
    ensures
        digest@ == sha256(data@),
{
    <sha2::Sha256 as sha2::Digest>::digest(data).into()
}

// ---------------------------------------------------------------------------
// Stored identities
// ---------------------------------------------------------------------------
/// What a device identity file holds. The secret key stands in one of two forms;
/// the hexadecimal one is only read where the base64 one is blank.
#[derive(Debug)]
pub struct StoredDeviceIdentity {
    pub secret_key_base64url: String,
    pub private_key_hex: String,
    pub device_token: Option<String>,
}

/// The file spells `secret` as its secret key.
pub open spec fn spells_secret(stored: StoredDeviceIdentity, secret: Seq<u8>) -> bool {
    if trimmed(stored.secret_key_base64url@).len() > 0 {
        stored.secret_key_base64url@ == base64url(secret)
    } else {
        hex_spells(trimmed(stored.private_key_hex@), secret)
    }
}

/// The stored form of a new identity with the given secret key.
pub open spec fn stores_new_key(stored: StoredDeviceIdentity, secret: Seq<u8>) -> bool {
    &&& secret.len() == 32
    &&& stored.secret_key_base64url@ == base64url(secret)
    &&& stored.private_key_hex@ == Seq::<char>::empty()
    &&& stored.device_token is None
}

impl StoredDeviceIdentity {
    /// The stored form of a secret key that has no token yet.
    pub fn from_secret(secret: &[u8; 32]) -> (stored: Self)
        ensures
            stores_new_key(stored, secret@),
    {
        StoredDeviceIdentity {
            secret_key_base64url: base64url_encode(secret),
            private_key_hex: String::new(),
            device_token: None,
        }
    }

    /// The stored form of a new random secret key, where the operating system has one
    /// to give.
    pub fn generate() -> (r: Result<Self, IdentityError>)
        ensures
            match r {
                Ok(stored) => exists|secret: Seq<u8>| #[trigger] stores_new_key(stored, secret),
                Err(error) => error == IdentityError::RandomSource,
            },
    {
        match random_secret_key() {
            Ok(secret) => Ok(StoredDeviceIdentity::from_secret(&secret)),
            Err(_) => Err(IdentityError::RandomSource),
        }
    }

    /// The same identity with a new device token.
    pub fn with_device_token(self, device_token: &str) -> (stored: Self)
        ensures
            stored.secret_key_base64url == self.secret_key_base64url,
            stored.private_key_hex == self.private_key_hex,
            optional_text(stored.device_token) == Some(device_token@),
    {
        StoredDeviceIdentity {
            secret_key_base64url: self.secret_key_base64url,
            private_key_hex: self.private_key_hex,
            device_token: Some(owned(device_token)),
        }
    }
}

/// Why there is no identity to use.
#[derive(Debug, Clone, Copy, PartialEq, Eq, Structural)]
pub enum IdentityError {
    SecretKeyEncoding,
    LegacyKeyEncoding,
    SecretKeyLength,
    /// No random key could be had.
    RandomSource,
}

impl IdentityError {
    /// The text of the error.
    pub open spec fn text(self) -> Seq<char> {
        match self {
            IdentityError::SecretKeyEncoding => "failed to decode device secret key"@,
            IdentityError::LegacyKeyEncoding => "failed to decode legacy device secret key"@,
            IdentityError::SecretKeyLength => "device secret key must be 32 bytes"@,
            IdentityError::RandomSource => "failed to generate device secret key"@,
        }
    }

    /// The text of the error.
    pub fn message(self) -> (r: String)
        ensures
            r@ == self.text(),
    {
        match self {
            IdentityError::SecretKeyEncoding => owned("failed to decode device secret key"),
            IdentityError::LegacyKeyEncoding => owned("failed to decode legacy device secret key"),
            IdentityError::SecretKeyLength => owned("device secret key must be 32 bytes"),
            IdentityError::RandomSource => owned("failed to generate device secret key"),
        }
    }
}

/// The bytes as an array, if there are 32 of them.
fn key_array(bytes: &Vec<u8>) -> (r: Option<[u8; 32]>)
    ensures
        match r {
            Some(key) => key@ == bytes@,
            None => bytes@.len() != 32,
        },
{
    if bytes.len() != 32 {
        return None;
    }
    let mut key: [u8; 32] = [0;32];
    let mut i: usize = 0;
    while i < 32
        invariant
            i <= 32,
            bytes@.len() == 32,
            key@.len() == 32,
            forall|k: int| 0 <= k < i ==> key@[k] == bytes@[k],
        decreases 32 - i,
    {
        key[i] = bytes[i];
        i += 1;
    }
    assert(key@ =~= bytes@);
    Some(key)
}

/// A device identity that can sign.
pub struct DeviceIdentity {
    pub secret_key: [u8; 32],
    pub device_id: String,
    pub public_key_base64url: String,
    pub device_token: Option<String>,
}

/// What goes into the payload that the handshake signs.
pub struct SignatureParams<'a> {
    pub client_id: &'a str,
    pub client_mode: &'a str,
    pub role: &'a str,
    pub scopes: &'a Vec<String>,
    pub signed_at_ms: u64,
    pub token: Option<&'a str>,
    pub nonce: &'a str,
    pub platform: &'a str,
    pub device_family: &'a str,
}

/// What the signed payload says besides the device identifier.
pub struct PayloadModel {
    pub client_id: Seq<char>,
    pub client_mode: Seq<char>,
    pub role: Seq<char>,
    pub scopes: Seq<Seq<char>>,
    pub signed_at_ms: u64,
    pub token: Option<Seq<char>>,
    pub nonce: Seq<char>,
    pub platform: Seq<char>,
    pub device_family: Seq<char>,
}

impl<'a> View for SignatureParams<'a> {
    type V = PayloadModel;

    open spec fn view(&self) -> PayloadModel {
        PayloadModel {
            client_id: self.client_id@,
            client_mode: self.client_mode@,
            role: self.role@,
            scopes: views(self.scopes@),
            signed_at_ms: self.signed_at_ms,
            token: match self.token {
                Some(token) => Some(token@),
                None => None,
            },
            nonce: self.nonce@,
            platform: self.platform@,
            device_family: self.device_family@,
        }
    }
}

/// The fields of the signed payload, in order.
pub open spec fn payload_fields(device_id: Seq<char>, params: PayloadModel) -> Seq<Seq<char>> {
    seq![
        "v3"@,
        device_id,
        params.client_id,
        params.client_mode,
        params.role,
        joined(params.scopes, ","@),
        decimal(params.signed_at_ms as nat),
        (match params.token {
            Some(token) => token,
            None => Seq::empty(),
        }),
        params.nonce,
        params.platform,
        params.device_family,
    ]
}

/// The text that the handshake signs.
pub open spec fn signature_payload(device_id: Seq<char>, params: PayloadModel) -> Seq<char> {
    joined(payload_fields(device_id, params), "|"@)
}

impl DeviceIdentity {
    /// The secret key.
    pub open spec fn secret(&self) -> Seq<u8> {
        self.secret_key@
    }

    /// The identifier and the public key belong to the secret key.
    pub open spec fn wf(&self) -> bool {
        &&& self.secret().len() == 32
        &&& self.device_id@ == hex_text(sha256(ed25519_public_key(self.secret())))
        &&& self.device_id@.len() == 64
        &&& self.public_key_base64url@ == base64url(ed25519_public_key(self.secret()))
    }

    /// The identity that a file holds.
    pub fn from_stored(stored: StoredDeviceIdentity) -> (r: Result<Self, IdentityError>)
        ensures
            match r {
                Ok(identity) => {
                    &&& identity.wf()
                    &&& identity.device_id@ == hex_text(
                        sha256(ed25519_public_key(identity.secret_key@)),
                    )
                    &&& identity.public_key_base64url@ == base64url(
                        ed25519_public_key(identity.secret_key@),
                    )
                    &&& spells_secret(stored, identity.secret())
                    &&& identity.device_token == stored.device_token
                },
                Err(IdentityError::SecretKeyEncoding) => {
                    &&& trimmed(stored.secret_key_base64url@).len() > 0
                    &&& forall|secret: Seq<u8>| !#[trigger] spells_secret(stored, secret)
                },
                Err(IdentityError::LegacyKeyEncoding) => {
                    &&& trimmed(stored.secret_key_base64url@).len() == 0
                    &&& forall|secret: Seq<u8>| !#[trigger] spells_secret(stored, secret)
                },
                Err(IdentityError::SecretKeyLength) => exists|secret: Seq<u8>| #[trigger]
                    spells_secret(stored, secret) && secret.len() != 32,
                Err(IdentityError::RandomSource) => false,
            },
    {
        let decoded = if !trim(stored.secret_key_base64url.as_str()).is_empty() {
            match base64url_decode(stored.secret_key_base64url.as_str()) {
                Ok(bytes) => bytes,
                Err(_) => {
                    return Err(IdentityError::SecretKeyEncoding);
                },
            }
        } else {
            match hex_decode(trim(stored.private_key_hex.as_str())) {
                Ok(bytes) => bytes,
                Err(_) => {
                    return Err(IdentityError::LegacyKeyEncoding);
                },
            }
        };
        assert(spells_secret(stored, decoded@));
        let secret_key = match key_array(&decoded) {
            Some(key) => key,
            None => {
                return Err(IdentityError::SecretKeyLength);
            },
        };
        let public_key = public_key_of(&secret_key);
        let digest = sha256_of(&public_key);
        Ok(
            DeviceIdentity {
                secret_key,
                device_id: hex_encode(&digest),
                public_key_base64url: base64url_encode(&public_key),
                device_token: stored.device_token,
            },
        )
    }

    /// The text that the handshake signs.
    pub fn build_signature_payload(&self, params: &SignatureParams<'_>) -> (payload: String)
        ensures
            payload@ == signature_payload(self.device_id@, params@),
    {
        let mut fields: Vec<String> = Vec::new();
        fields.push(owned("v3"));
        fields.push(owned(self.device_id.as_str()));
        fields.push(owned(params.client_id));
        fields.push(owned(params.client_mode));
        fields.push(owned(params.role));
        fields.push(join(params.scopes, ","));
        fields.push(decimal_string(params.signed_at_ms));
        fields.push(
            match params.token {
                Some(token) => owned(token),
                None => String::new(),
            },
        );
        fields.push(owned(params.nonce));
        fields.push(owned(params.platform));
        fields.push(owned(params.device_family));
        assert(views(fields@) =~= payload_fields(self.device_id@, params@));
        join(&fields, "|")
    }

    /// The signature of a text, in base64.
    pub fn sign(&self, payload: &str) -> (signature: String)
        ensures
            signature@ == base64url(ed25519_signature(self.secret(), encode_utf8(payload@))),
    {
        let signature = signature_of(&self.secret_key, payload.as_bytes());
        base64url_encode(&signature)
    }
}

// ---------------------------------------------------------------------------
// Where the identity comes from
// ---------------------------------------------------------------------------
/// A place where an identity may be stored.
#[derive(Debug, Clone, Copy, PartialEq, Eq, Structural)]
pub enum IdentityLocation {
    /// This application's own file.
    Own,
    /// The file of the sibling application that speaks.
    Sibling,
}

impl IdentityLocation {
    /// The directory, under the user's directory for settings, that holds the file.
    pub fn directory(self) -> (name: &'static str)
        ensures
            name@ == (match self {
                IdentityLocation::Own => "openclaw-listen"@,
                IdentityLocation::Sibling => "openclaw-speak"@,
            }),
    {
        match self {
            IdentityLocation::Own => "openclaw-listen",
            IdentityLocation::Sibling => "openclaw-speak",
        }
    }
}

/// A look at one of the files while an identity is sought.
#[derive(Debug, Clone, Copy, PartialEq, Eq, Structural)]
pub enum LoadStage {
    OwnWithToken,
    SiblingWithToken,
    OwnAny,
}

/// What to do after a look.
#[derive(Debug, Clone, Copy, PartialEq, Eq, Structural)]
pub enum LoadAction {
    /// Use the identity that was just read from there.
    Use(IdentityLocation),
    /// Look further.
    Inspect(LoadStage),
    /// Create a new identity and store it in the own file.
    Create,
}

/// A stored identity, if there is one, has a device token.
pub open spec fn has_token(found: Option<StoredDeviceIdentity>) -> bool {
    found matches Some(stored) && stored.device_token is Some
}

/// What to do after a look that found `found`.
pub open spec fn load_action(stage: LoadStage, found: Option<StoredDeviceIdentity>) -> LoadAction {
    match stage {
        LoadStage::OwnWithToken => if has_token(found) {
            LoadAction::Use(IdentityLocation::Own)
        } else {
            LoadAction::Inspect(LoadStage::SiblingWithToken)
        },
        LoadStage::SiblingWithToken => if has_token(found) {
            LoadAction::Use(IdentityLocation::Sibling)
        } else {
            LoadAction::Inspect(LoadStage::OwnAny)
        },
        LoadStage::OwnAny => if found is Some {
            LoadAction::Use(IdentityLocation::Own)
        } else {
            LoadAction::Create
        },
    }
}

impl LoadStage {
    /// The file that the stage looks at.
    pub fn location(self) -> (location: IdentityLocation)
        ensures
            location == (match self {
                LoadStage::SiblingWithToken => IdentityLocation::Sibling,
                _ => IdentityLocation::Own,
            }),
    {
        match self {
            LoadStage::OwnWithToken => IdentityLocation::Own,
            LoadStage::SiblingWithToken => IdentityLocation::Sibling,
            LoadStage::OwnAny => IdentityLocation::Own,
        }
    }

    /// What to do after a look that found `found`. The first look is
    /// `LoadStage::OwnWithToken`.
    pub fn after(self, found: &Option<StoredDeviceIdentity>) -> (action: LoadAction)
        ensures
            action == load_action(self, *found),
    {
        let paired = match found {
            Some(stored) => stored.device_token.is_some(),
            None => false,
        };
        match self {
            LoadStage::OwnWithToken => if paired {
                LoadAction::Use(IdentityLocation::Own)
            } else {
                LoadAction::Inspect(LoadStage::SiblingWithToken)
            },
            LoadStage::SiblingWithToken => if paired {
                LoadAction::Use(IdentityLocation::Sibling)
            } else {
                LoadAction::Inspect(LoadStage::OwnAny)
            },
            LoadStage::OwnAny => if found.is_some() {
                LoadAction::Use(IdentityLocation::Own)
            } else {
                LoadAction::Create
            },
        }
    }
}

/// The outcome of a search in which the looks found `own`, `sibling` and
/// `own_again`, as far as they were needed.
pub open spec fn load_outcome(
    own: Option<StoredDeviceIdentity>,
    sibling: Option<StoredDeviceIdentity>,
    own_again: Option<StoredDeviceIdentity>,
) -> LoadAction {
    match load_action(LoadStage::OwnWithToken, own) {
        LoadAction::Inspect(second) => match load_action(second, sibling) {
            LoadAction::Inspect(third) => load_action(third, own_again),
            action => action,
        },
        action => action,
    }
}

// ---------------------------------------------------------------------------
// Laws
// ---------------------------------------------------------------------------
/// A search ends after at most three looks. A paired identity is preferred to one
/// without a token, the own one to the sibling's, and a new identity is created
/// only where neither file is paired and the own file is missing.
pub proof fn identity_preference(
    own: Option<StoredDeviceIdentity>,
    sibling: Option<StoredDeviceIdentity>,
    own_again: Option<StoredDeviceIdentity>,
)
    ensures
        !(load_outcome(own, sibling, own_again) is Inspect),
        has_token(own) ==> load_outcome(own, sibling, own_again) == LoadAction::Use(
            IdentityLocation::Own,
        ),
        load_outcome(own, sibling, own_again) == LoadAction::Use(IdentityLocation::Sibling) <==> {
            !has_token(own) && has_token(sibling)
        },
        load_outcome(own, sibling, own_again) == LoadAction::Create <==> {
            !has_token(own) && !has_token(sibling) && own_again is None
        },
{
}

/// What was stored for a new key reads back as that key and no other, so that a
/// new identity can be loaded.
pub proof fn new_key_reads_back(stored: StoredDeviceIdentity, secret: Seq<u8>, other: Seq<u8>)
    requires
        stores_new_key(stored, secret),
    ensures
        spells_secret(stored, other) <==> other == secret,
{
    let text = stored.secret_key_base64url@;
    assert(text.len() == 43);
    assert(text[0] == base64_symbol(sextet(secret, 0)));
    trimmed_keeps_content(text, 0);
    if base64url(other) == base64url(secret) {
        base64url_injective(other, secret);
    }
}

/// Storing a device token leaves the key alone.
pub proof fn token_keeps_key(
    before: StoredDeviceIdentity,
    after: StoredDeviceIdentity,
    secret: Seq<u8>,
)
    requires
        after.secret_key_base64url == before.secret_key_base64url,
        after.private_key_hex == before.private_key_hex,
    ensures
        spells_secret(after, secret) == spells_secret(before, secret),
{
}

/// A file spells at most one secret key.
pub proof fn secret_is_unique(stored: StoredDeviceIdentity, a: Seq<u8>, b: Seq<u8>)
    requires
        spells_secret(stored, a),
        spells_secret(stored, b),
    ensures
        a == b,
{
    if trimmed(stored.secret_key_base64url@).len() > 0 {
        base64url_injective(a, b);
    } else {
        hex_reads_back(trimmed(stored.private_key_hex@), a, b);
    }
}

/// No field of the payload holds the separator.
pub open spec fn fields_separable(device_id: Seq<char>, params: PayloadModel) -> bool {
    forall|i: int|
        0 <= i < payload_fields(device_id, params).len() ==> !(#[trigger] payload_fields(
            device_id,
            params,
        )[i]).contains('|')
}

/// A signed payload binds each of its fields: two payloads whose fields hold no
/// separator are the same only if all their fields are, the time included.
pub proof fn payload_binds_fields(
    first_id: Seq<char>,
    first: PayloadModel,
    second_id: Seq<char>,
    second: PayloadModel,
)
    requires
        fields_separable(first_id, first),
        fields_separable(second_id, second),
        signature_payload(first_id, first) == signature_payload(second_id, second),
    ensures
        payload_fields(first_id, first) == payload_fields(second_id, second),
        first_id == second_id,
        first.nonce == second.nonce,
        first.signed_at_ms == second.signed_at_ms,
{
    reveal_strlit("|");
    assert("|"@ =~= seq!['|']);
    let a = payload_fields(first_id, first);
    let b = payload_fields(second_id, second);
    joined_injective(a, b, '|');
    assert(a[1] == b[1]);
    assert(a[6] == b[6]);
    assert(a[8] == b[8]);
    decimal_injective(first.signed_at_ms as nat, second.signed_at_ms as nat);
}

proof fn lemma_joined_push(parts: Seq<Seq<char>>, part: Seq<char>, separator: Seq<char>)
    requires
        parts.len() > 0,
    ensures
        joined(parts.push(part), separator) == joined(parts, separator) + separator + part,
{
    assert(parts.push(part).drop_last() =~= parts);
}

/// The text that is signed spells out its fields one after another, with a bar between
/// neighbours: the version, the device, the client and its mode, the role, the scopes,
/// the time in milliseconds, the token as it is given or nothing, the nonce, the
/// platform and the kind of device.
pub proof fn signed_text_spells_its_fields(device_id: Seq<char>, params: PayloadModel)
    ensures
        signature_payload(device_id, params) == seq!['v', '3', '|'] + device_id + seq!['|']
            + params.client_id + seq!['|'] + params.client_mode + seq!['|'] + params.role + seq![
            '|',
        ] + joined(params.scopes, seq![',']) + seq!['|'] + decimal(params.signed_at_ms as nat)
            + seq!['|'] + (if params.token is Some {
            params.token->Some_0
        } else {
            Seq::empty()
        }) + seq!['|'] + params.nonce + seq!['|'] + params.platform + seq!['|']
            + params.device_family,
{
    reveal_strlit("|");
    reveal_strlit(",");
    reveal_strlit("v3");
    let bar = seq!['|'];
    assert("|"@ =~= bar);
    assert(","@ =~= seq![',']);
    let fields = payload_fields(device_id, params);
    let s0 = seq![fields[0]];
    let s1 = s0.push(fields[1]);
    let s2 = s1.push(fields[2]);
    let s3 = s2.push(fields[3]);
    let s4 = s3.push(fields[4]);
    let s5 = s4.push(fields[5]);
    let s6 = s5.push(fields[6]);
    let s7 = s6.push(fields[7]);
    let s8 = s7.push(fields[8]);
    let s9 = s8.push(fields[9]);
    let s10 = s9.push(fields[10]);
    assert(s10 =~= fields);
    assert(joined(s0, bar) == "v3"@);
    lemma_joined_push(s0, fields[1], bar);
    lemma_joined_push(s1, fields[2], bar);
    lemma_joined_push(s2, fields[3], bar);
    lemma_joined_push(s3, fields[4], bar);
    lemma_joined_push(s4, fields[5], bar);
    lemma_joined_push(s5, fields[6], bar);
    lemma_joined_push(s6, fields[7], bar);
    lemma_joined_push(s7, fields[8], bar);
    lemma_joined_push(s8, fields[9], bar);
    lemma_joined_push(s9, fields[10], bar);
    assert("v3"@ + bar =~= seq!['v', '3', '|']);
}

/// A key is read in the form in which it is stored. A base64 text that is not blank
/// counts as it stands, white space included, whatever the hexadecimal field holds; only
/// where it is blank is the key the one whose digits, in either case, stand in the
/// hexadecimal field, where white space around them does not matter.
pub proof fn keys_are_read_as_stored(
    stored: StoredDeviceIdentity,
    secret: Seq<u8>,
    before: Seq<char>,
    digits: Seq<char>,
    after: Seq<char>,
)
    requires
        secret.len() > 0,
        forall|i: int| 0 <= i < before.len() ==> white_space(#[trigger] before[i]),
        forall|i: int| 0 <= i < after.len() ==> white_space(#[trigger] after[i]),
    ensures
        stored.secret_key_base64url@ == base64url(secret) ==> spells_secret(stored, secret),
        trimmed(stored.secret_key_base64url@).len() > 0 && stored.secret_key_base64url@
            != base64url(secret) ==> !spells_secret(stored, secret),
        trimmed(stored.secret_key_base64url@).len() == 0 && stored.private_key_hex@ == before
            + digits + after && hex_spells(digits, secret) ==> spells_secret(stored, secret),
        trimmed(stored.secret_key_base64url@).len() == 0 && stored.private_key_hex@ == before
            + digits + after && digits.len() > 0 && !white_space(digits[0]) && !white_space(
            digits[digits.len() - 1],
        ) && !hex_spells(digits, secret) ==> !spells_secret(stored, secret),
{
    if stored.secret_key_base64url@ == base64url(secret) {
        let text = stored.secret_key_base64url@;
        assert(text.len() > 0);
        assert(text[0] == base64_symbol(sextet(secret, 0)));
        trimmed_keeps_content(text, 0);
    }
    if hex_spells(digits, secret) {
        assert(hex_value(digits[0]) == Some(secret[0] as int / 16));
        let last = secret.len() - 1;
        assert(hex_value(digits[2 * last + 1]) == Some(secret[last] as int % 16));
        trimming_leaves_the_middle(before, digits, after);
    } else if digits.len() > 0 && !white_space(digits[0]) && !white_space(
        digits[digits.len() - 1],
    ) {
        trimming_leaves_the_middle(before, digits, after);
    }
}

/// What is signed is what the parameters hold, the scopes all of them and the token where
/// there is one.
pub proof fn signed_parameters_are_as_given(params: SignatureParams<'_>)
    ensures
        params@.client_id == params.client_id@,
        params@.client_mode == params.client_mode@,
        params@.role == params.role@,
        params@.scopes.len() == params.scopes@.len(),
        forall|i: int|
            0 <= i < params.scopes@.len() ==> #[trigger] params@.scopes[i] == params.scopes@[i]@,
        params@.signed_at_ms == params.signed_at_ms,
        params.token matches Some(token) ==> params@.token == Some(token@),
        params.token is None ==> params@.token is None,
        params@.nonce == params.nonce@,
        params@.platform == params.platform@,
        params@.device_family == params.device_family@,
{
}

/// A device is known by its key alone: its identifier is the digest of its public key in
/// hexadecimal digits, and it shows that public key. Whatever token it holds, the same
/// secret key makes the same device.
pub proof fn devices_are_known_by_their_key(a: DeviceIdentity, b: DeviceIdentity)
    requires
        a.wf(),
        b.wf(),
    ensures
        a.device_id@ == hex_text(sha256(ed25519_public_key(a.secret_key@))),
        a.public_key_base64url@ == base64url(ed25519_public_key(a.secret_key@)),
        a.secret_key@ == b.secret_key@ ==> a.device_id@ == b.device_id@ && a.public_key_base64url@
            == b.public_key_base64url@,
        a.public_key_base64url@ == b.public_key_base64url@ ==> a.device_id@ == b.device_id@,
{
    if a.public_key_base64url@ == b.public_key_base64url@ {
        base64url_injective(
            ed25519_public_key(a.secret_key@),
            ed25519_public_key(b.secret_key@),
        );
    }
}

/// A new key is stored in base64 and without a token, and nothing stands in the field of
/// the older form.
pub proof fn new_keys_are_stored_bare(stored: StoredDeviceIdentity, secret: Seq<u8>)
    requires
        stores_new_key(stored, secret),
    ensures
        stored.secret_key_base64url@ == base64url(secret),
        secret.len() == 32,
        stored.private_key_hex@.len() == 0,
        stored.device_token is None,
        !has_token(Some(stored)),
{
}

} // verus!
