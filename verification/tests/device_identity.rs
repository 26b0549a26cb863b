use openclaw_listen::identity::{
    DeviceIdentity, IdentityError, IdentityLocation, LoadAction, LoadStage, SignatureParams,
    StoredDeviceIdentity,
};

const SECRET: &str = "nWGxne_9WmC6hEr0kuwsxERJxWl7MmkZcDusAxyuf2A";
const SECRET_HEX: &str = "9d61b19deffd5a60ba844af492ec2cc44449c5697b326919703bac031cae7f60";

fn stored(base64: &str, hex: &str, token: Option<&str>) -> StoredDeviceIdentity {
    StoredDeviceIdentity {
        secret_key_base64url: base64.to_string(),
        private_key_hex: hex.to_string(),
        device_token: token.map(|token| token.to_string()),
    }
}

fn known() -> DeviceIdentity {
    DeviceIdentity::from_stored(stored(SECRET, "", Some("tok"))).unwrap()
}

fn error_of(stored: StoredDeviceIdentity) -> IdentityError {
    match DeviceIdentity::from_stored(stored) {
        Ok(_) => panic!("the identity was accepted"),
        Err(error) => error,
    }
}

#[test]
fn a_known_key_pair() {
    let identity = known();
    assert_eq!(identity.public_key_base64url, "11qYAYKxCrfVS_7TyWQHOg7hcvPapiMlrwIaaPcHURo");
    assert_eq!(
        identity.device_id,
        "21fe31dfa154a261626bf854046fd2271b7bed4b6abe45aa58877ef47f9721b9"
    );
    assert_eq!(identity.device_token.as_deref(), Some("tok"));
    assert_eq!(
        identity.sign(""),
        "5VZDAMNgrHKQhuLMgG6CioSHfx645dl02HPgZSJJAVVfuIIVkKM7rMYeOXAc-bRr0lv18FlbviRlUUFDjnoQCw"
    );
    assert_ne!(identity.sign("a"), identity.sign(""));
}

#[test]
fn the_hexadecimal_form_is_read_where_the_other_is_blank() {
    let upper = SECRET_HEX.to_uppercase();
    for text in [SECRET_HEX, &upper, &format!(" {SECRET_HEX}\n")] {
        let identity = DeviceIdentity::from_stored(stored(" ", text, None)).unwrap();
        assert_eq!(identity.device_id, known().device_id);
        assert_eq!(identity.device_token, None);
    }
    // The base64 form wins where both are there.
    let other = "AAAAAAAAAAAAAAAAAAAAAAAAAAAAAAAAAAAAAAAAAAA";
    let identity = DeviceIdentity::from_stored(stored(other, SECRET_HEX, None)).unwrap();
    assert_ne!(identity.device_id, known().device_id);
}

#[test]
fn unusable_keys_are_refused() {
    assert_eq!(error_of(stored("***", "", None)), IdentityError::SecretKeyEncoding);
    assert_eq!(error_of(stored(&format!("{SECRET}="), "", None)), IdentityError::SecretKeyEncoding);
    assert_eq!(error_of(stored(&format!(" {SECRET}"), "", None)), IdentityError::SecretKeyEncoding);
    assert_eq!(error_of(stored("", "xyz", None)), IdentityError::LegacyKeyEncoding);
    assert_eq!(error_of(stored("", "abc", None)), IdentityError::LegacyKeyEncoding);
    assert_eq!(error_of(stored("", "", None)), IdentityError::SecretKeyLength);
    assert_eq!(error_of(stored("AAAA", "", None)), IdentityError::SecretKeyLength);
    assert_eq!(
        IdentityError::SecretKeyEncoding.message(),
        "failed to decode device secret key"
    );
    assert_eq!(
        IdentityError::LegacyKeyEncoding.message(),
        "failed to decode legacy device secret key"
    );
    assert_eq!(IdentityError::SecretKeyLength.message(), "device secret key must be 32 bytes");
    assert_eq!(IdentityError::RandomSource.message(), "failed to generate device secret key");
}

#[test]
fn stray_bits_are_refused() {
    // The last symbol of 32 bytes carries four bits only.
    let stray = format!("{}B", &SECRET[..42]);
    assert_eq!(error_of(stored(&stray, "", None)), IdentityError::SecretKeyEncoding);
}

#[test]
fn a_new_key_is_stored_and_read_back() {
    let secret: [u8; 32] = core::array::from_fn(|i| i as u8);
    let new = StoredDeviceIdentity::from_secret(&secret);
    assert_eq!(new.secret_key_base64url, "AAECAwQFBgcICQoLDA0ODxAREhMUFRYXGBkaGxwdHh8");
    assert_eq!(new.private_key_hex, "");
    assert_eq!(new.device_token, None);
    assert_eq!(DeviceIdentity::from_stored(new).unwrap().secret_key, secret);
    let first = StoredDeviceIdentity::generate().unwrap();
    let second = StoredDeviceIdentity::generate().unwrap();
    assert_ne!(first.secret_key_base64url, second.secret_key_base64url);
    assert!(DeviceIdentity::from_stored(first).is_ok());
}

#[test]
fn a_token_leaves_the_key_alone() {
    let paired = stored(SECRET, "", None).with_device_token("new");
    assert_eq!(paired.secret_key_base64url, SECRET);
    assert_eq!(paired.device_token.as_deref(), Some("new"));
}

#[test]
fn the_signed_payload() {
    let scopes = vec!["operator.read".to_string(), "operator.write".to_string()];
    let identity = known();
    let payload = |token, nonce| {
        identity.build_signature_payload(&SignatureParams {
            client_id: "cli",
            client_mode: "cli",
            role: "operator",
            scopes: &scopes,
            signed_at_ms: 1776935117036,
            token,
            nonce,
            platform: "linux",
            device_family: "server",
        })
    };
    let id = &identity.device_id;
    assert_eq!(
        payload(Some("tok"), "n"),
        format!(
            "v3|{id}|cli|cli|operator|operator.read,operator.write|1776935117036|tok|n|linux|server"
        )
    );
    assert_eq!(
        payload(None, "n"),
        format!("v3|{id}|cli|cli|operator|operator.read,operator.write|1776935117036||n|linux|server")
    );
    assert_ne!(payload(None, "n"), payload(None, "m"));
}

fn search(own: Option<Option<&str>>, sibling: Option<Option<&str>>) -> LoadAction {
    let mut stage = LoadStage::OwnWithToken;
    loop {
        let found = match stage.location() {
            IdentityLocation::Own => own,
            IdentityLocation::Sibling => sibling,
        };
        let found = found.map(|token| stored(SECRET, "", token));
        match stage.after(&found) {
            LoadAction::Inspect(next) => stage = next,
            action => return action,
        }
    }
}

#[test]
fn a_paired_identity_is_preferred() {
    let own = LoadAction::Use(IdentityLocation::Own);
    let sibling = LoadAction::Use(IdentityLocation::Sibling);
    assert_eq!(search(Some(Some("t")), Some(Some("t"))), own);
    assert_eq!(search(Some(None), Some(Some("t"))), sibling);
    assert_eq!(search(None, Some(Some("t"))), sibling);
    assert_eq!(search(Some(None), Some(None)), own);
    assert_eq!(search(Some(None), None), own);
    assert_eq!(search(None, Some(None)), LoadAction::Create);
    assert_eq!(search(None, None), LoadAction::Create);
}
