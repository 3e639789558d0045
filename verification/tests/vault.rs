use pickle::identity::keystore::{FileRead, Keystore, KeystoreError, StoredIdentity};
use pickle::identity::pow::MineProgress;
use pickle::identity::sealed::{KdfHeader, SealError, SealedVault};
use pickle::identity::vault::{
    document_of, Protection, StoredEntry, StoredVault, Vault, VaultDocument, VaultEntry, VaultError,
};
use pickle::identity::Identity;
use serde_json::Value;

const VAULT: &str = "identities.json";
const LEGACY: &str = "identity.json";

/// What lies at the path of the older single-identity file.
enum Legacy {
    Saved(StoredIdentity),
    Garbage,
}

/// The two files, held in memory.
#[derive(Default)]
struct Disk {
    vault: Option<Vec<u8>>,
    mode: u32,
    legacy: Option<Legacy>,
    backup: Option<Legacy>,
}

fn string(value: &Value, key: &str) -> Option<String> {
    Some(value.get(key)?.as_str()?.to_string())
}

fn number(value: &Value, key: &str) -> Option<u64> {
    value.get(key)?.as_u64()
}

fn pretty(value: serde_json::Map<String, Value>) -> Vec<u8> {
    serde_json::to_vec_pretty(&Value::Object(value)).unwrap()
}

fn render(stored: StoredVault) -> Vec<u8> {
    let mut out = serde_json::Map::new();
    out.insert("version".into(), Value::from(stored.version));
    out.insert("active".into(), Value::from(stored.active));
    let entries: Vec<Value> = stored
        .identities
        .into_iter()
        .map(|e| {
            let mut entry = serde_json::Map::new();
            entry.insert("secret_key".into(), Value::from(e.secret_key));
            entry.insert("counter".into(), Value::from(e.counter));
            entry.insert("nickname".into(), Value::from(e.nickname));
            entry.insert("label".into(), Value::from(e.label));
            Value::Object(entry)
        })
        .collect();
    out.insert("identities".into(), Value::from(entries));
    pretty(out)
}

fn stored_vault(value: &Value) -> Option<StoredVault> {
    let mut identities = Vec::new();
    for entry in value.get("identities")?.as_array()? {
        identities.push(StoredEntry {
            secret_key: string(entry, "secret_key")?,
            counter: number(entry, "counter")?,
            nickname: string(entry, "nickname")?,
            label: string(entry, "label")?,
        });
    }
    Some(StoredVault {
        version: number(value, "version")? as u32,
        active: string(value, "active")?,
        identities,
    })
}

fn read(octets: Vec<u8>) -> Option<StoredVault> {
    stored_vault(&serde_json::from_slice(&octets).ok()?)
}

fn render_envelope(sealed: SealedVault) -> Vec<u8> {
    let mut kdf = serde_json::Map::new();
    kdf.insert("algorithm".into(), Value::from(sealed.kdf.algorithm));
    kdf.insert("version".into(), Value::from(sealed.kdf.version));
    kdf.insert("memory_kib".into(), Value::from(sealed.kdf.memory_kib));
    kdf.insert("iterations".into(), Value::from(sealed.kdf.iterations));
    kdf.insert("parallelism".into(), Value::from(sealed.kdf.parallelism));
    kdf.insert("salt".into(), Value::from(sealed.kdf.salt));
    let mut out = serde_json::Map::new();
    out.insert("version".into(), Value::from(sealed.version));
    out.insert("kdf".into(), Value::Object(kdf));
    out.insert("cipher".into(), Value::from(sealed.cipher));
    out.insert("nonce".into(), Value::from(sealed.nonce));
    out.insert("ciphertext".into(), Value::from(sealed.ciphertext));
    pretty(out)
}

fn envelope(value: &Value) -> Option<SealedVault> {
    let kdf = value.get("kdf")?;
    Some(SealedVault {
        version: number(value, "version")? as u32,
        kdf: KdfHeader {
            algorithm: string(kdf, "algorithm")?,
            version: number(kdf, "version")? as u32,
            memory_kib: number(kdf, "memory_kib")? as u32,
            iterations: number(kdf, "iterations")? as u32,
            parallelism: number(kdf, "parallelism")? as u32,
            salt: string(kdf, "salt")?,
        },
        cipher: string(value, "cipher")?,
        nonce: string(value, "nonce")?,
        ciphertext: string(value, "ciphertext")?,
    })
}

fn document(octets: &[u8]) -> Option<VaultDocument> {
    let value: Value = serde_json::from_slice(octets).ok()?;
    let version = number(&value, "version")? as u32;
    Some(document_of(version, stored_vault(&value), envelope(&value)))
}

impl Disk {
    fn text(&self) -> String {
        String::from_utf8(self.vault.clone().unwrap()).unwrap()
    }

    fn write(&mut self, text: String) {
        self.vault = Some(text.into_bytes());
    }

    fn file(&self) -> FileRead<VaultDocument> {
        match &self.vault {
            None => FileRead::Missing("not found".into()),
            Some(octets) => FileRead::Read {
                mode: Some(self.mode),
                document: document(octets),
            },
        }
    }

    fn open(&mut self, nickname: &str) -> Result<Vault, VaultError> {
        self.open_with(nickname, None)
    }

    fn open_with(
        &mut self,
        nickname: &str,
        passphrase: Option<&str>,
    ) -> Result<Vault, VaultError> {
        if let Some(vault) = Vault::open_with_passphrase(VAULT, self.file(), passphrase, read)? {
            return Ok(vault);
        }
        let legacy = match &self.legacy {
            None => FileRead::Missing("not found".into()),
            Some(Legacy::Garbage) => FileRead::Read {
                mode: Some(0o100600),
                document: None,
            },
            Some(Legacy::Saved(stored)) => FileRead::Read {
                mode: Some(0o100600),
                document: Some(stored.clone()),
            },
        };
        let loaded = Keystore::load(LEGACY, legacy);
        let (vault, migrated) = Vault::create(VAULT, LEGACY, loaded, nickname, passphrase)?;
        self.save(&vault)?;
        if migrated {
            self.backup = self.legacy.take();
        }
        Ok(vault)
    }

    fn save(&mut self, vault: &Vault) -> Result<(), VaultError> {
        let octets = vault.encode(vault.current_protection(), render, render_envelope)?;
        self.vault = Some(octets);
        self.mode = 0o100600;
        Ok(())
    }

    fn rewrite(
        &mut self,
        vault: &mut Vault,
        protection: Protection,
        passphrase: Option<&str>,
    ) -> Result<(), VaultError> {
        let octets = vault.encode(&protection, render, render_envelope)?;
        let reopened = match document(&octets) {
            Some(found) => Vault::parse(VAULT, found, passphrase, read),
            None => Err(VaultError::Malformed(VAULT.into())),
        };
        vault.verify_rewrite(reopened)?;
        self.vault = Some(octets);
        vault.adopt_protection(protection);
        Ok(())
    }

    fn set_passphrase(&mut self, vault: &mut Vault, passphrase: &str) -> Result<(), VaultError> {
        let protection = vault.passphrase_protection(passphrase)?;
        self.rewrite(vault, protection, Some(passphrase))
    }

    fn remove_passphrase(&mut self, vault: &mut Vault) -> Result<(), VaultError> {
        self.rewrite(vault, Protection::Plain, None)
    }

    fn needs_passphrase(&self) -> Result<bool, VaultError> {
        let version = match &self.vault {
            None => FileRead::Missing("not found".into()),
            Some(octets) => FileRead::Read {
                mode: Some(self.mode),
                document: serde_json::from_slice::<Value>(octets)
                    .ok()
                    .and_then(|v| number(&v, "version"))
                    .map(|v| v as u32),
            },
        };
        Vault::needs_passphrase(VAULT, version)
    }
}

#[test]
fn a_first_run_creates_one_identity_and_selects_it() {
    let mut p = Disk::default();
    let vault = p.open("andy").unwrap();

    assert_eq!(vault.list().len(), 1);
    assert_eq!(vault.active().nickname, "andy");
    assert_eq!(
        vault.active_fingerprint(),
        vault.list()[0].identity.fingerprint().to_string()
    );
}

#[test]
fn migration_preserves_the_key_counter_and_level() {
    // The whole point of the migration: the user must come out the other
    // side as the same person to every server they have ever used.
    let mut p = Disk::default();

    let mut original = Identity::generate();
    original.mine(8, &mut |_: MineProgress| true);
    p.legacy = Some(Legacy::Saved(Keystore::stored(&original, "andy")));

    let vault = p.open("ignored").unwrap();
    let migrated = &vault.active().identity;

    assert_eq!(migrated.fingerprint(), original.fingerprint());
    assert_eq!(migrated.counter(), original.counter());
    assert_eq!(migrated.security_level(), original.security_level());
    assert_eq!(vault.active().nickname, "andy", "the profile comes across");
}

#[test]
fn migration_keeps_the_old_file_as_a_backup() {
    // It holds the only copy of a key; deleting it is not recoverable.
    let mut p = Disk::default();
    p.legacy = Some(Legacy::Saved(Keystore::stored(&Identity::generate(), "andy")));

    p.open("ignored").unwrap();

    assert!(p.legacy.is_none(), "the v1 file is moved aside");
    assert!(p.backup.is_some(), "and kept as a backup");
}

#[test]
fn migration_happens_once_and_is_not_repeated() {
    let mut p = Disk::default();
    p.legacy = Some(Legacy::Saved(Keystore::stored(&Identity::generate(), "andy")));

    let first = p.open("ignored").unwrap();
    let fingerprint = first.active_fingerprint().to_string();

    let second = p.open("ignored").unwrap();
    assert_eq!(second.active_fingerprint(), fingerprint);
    assert_eq!(second.list().len(), 1);
}

#[test]
fn an_unreadable_v1_file_is_reported_rather_than_replaced() {
    // Generating a fresh key here would silently strand every permission
    // the old one held.
    let mut p = Disk::default();
    p.legacy = Some(Legacy::Garbage);

    assert!(matches!(
        p.open("andy"),
        Err(VaultError::Migration { .. })
    ));
    assert!(
        p.vault.is_none(),
        "nothing is written on a failed migration"
    );
}

#[test]
fn save_then_open_round_trips_every_identity() {
    let mut p = Disk::default();
    let mut vault = p.open("andy").unwrap();
    let second = vault.add(Identity::generate(), "alter-ego", "work");
    vault.set_active(&second).unwrap();
    p.save(&vault).unwrap();

    let reopened = p.open("ignored").unwrap();
    assert_eq!(reopened.list().len(), 2);
    assert_eq!(reopened.active_fingerprint(), second);
    assert_eq!(reopened.active().nickname, "alter-ego");
    assert_eq!(reopened.active().label, "work");
}

#[test]
fn adding_an_identity_twice_does_not_duplicate_it() {
    let mut p = Disk::default();
    let mut vault = p.open("andy").unwrap();

    let identity = Identity::generate();
    let bytes = identity.secret_bytes();
    let first = vault.add(identity, "one", "");
    let again = vault.add(Identity::from_secret_bytes(&bytes, 0), "two", "");

    assert_eq!(first, again);
    assert_eq!(vault.list().len(), 2, "the original plus one, not two");
}

#[test]
fn removing_the_active_identity_selects_another() {
    let mut p = Disk::default();
    let mut vault = p.open("andy").unwrap();
    let second = vault.add(Identity::generate(), "other", "");
    vault.set_active(&second).unwrap();

    vault.remove(&second).unwrap();

    assert_eq!(vault.list().len(), 1);
    assert_eq!(
        vault.active_fingerprint(),
        vault.list()[0].identity.fingerprint().to_string(),
        "the selection must never dangle",
    );
}

#[test]
fn recording_a_mined_counter_keeps_the_fingerprint() {
    // The guarantee that makes mining safe: raising your level must never
    // cost you the permissions servers granted the key.
    let mut p = Disk::default();
    let mut vault = p.open("andy").unwrap();
    let fingerprint = vault.active_fingerprint().to_string();

    // Mine on a copy, exactly as the application does.
    let mut copy = Identity::from_secret_bytes(&vault.active().identity.secret_bytes(), 0);
    copy.mine(8, &mut |_: MineProgress| true);

    vault.set_counter(&fingerprint, copy.counter()).unwrap();

    assert_eq!(vault.active_fingerprint(), fingerprint);
    assert_eq!(vault.active().identity.counter(), copy.counter());
    assert_eq!(
        vault.active().identity.security_level(),
        copy.security_level()
    );
}

#[test]
fn removing_the_last_identity_is_refused() {
    let mut p = Disk::default();
    let mut vault = p.open("andy").unwrap();
    let only = vault.active_fingerprint().to_string();

    assert!(matches!(vault.remove(&only), Err(VaultError::WouldEmpty)));
}

#[test]
fn removing_or_selecting_an_unknown_identity_is_an_error() {
    let mut p = Disk::default();
    let mut vault = p.open("andy").unwrap();

    assert!(matches!(
        vault.set_active("nope"),
        Err(VaultError::NotFound(_))
    ));
    assert!(matches!(vault.remove("nope"), Err(VaultError::NotFound(_))));
}

#[test]
fn a_dangling_active_pointer_falls_back_rather_than_failing_to_start() {
    let mut p = Disk::default();
    let vault = p.open("andy").unwrap();
    p.save(&vault).unwrap();

    let broken = p
        .text()
        .replace(vault.active_fingerprint(), "not-a-fingerprint");
    p.write(broken);

    let reopened = p.open("andy").unwrap();
    assert_eq!(
        reopened.active_fingerprint(),
        reopened.list()[0].identity.fingerprint().to_string()
    );
}

#[test]
fn opening_a_world_readable_vault_is_refused() {
    let mut p = Disk::default();
    p.open("andy").unwrap();
    p.mode = 0o100644;

    assert!(matches!(
        p.open("andy"),
        Err(VaultError::PermissionsTooOpen { .. })
    ));
}

#[test]
fn vault_a_future_version_is_refused() {
    let mut p = Disk::default();
    p.open("andy").unwrap();

    let bumped = p.text().replace("\"version\": 2", "\"version\": 99");
    p.write(bumped);

    assert!(matches!(
        p.open("andy"),
        Err(VaultError::UnsupportedVersion { found: 99, .. })
    ));
}

// --- passphrase encryption ---------------------------------------------

const PASSPHRASE: &str = "correct horse battery staple";

/// A vault with two identities, one of them mined, so that a round trip has
/// something to get wrong.
fn populated(p: &mut Disk) -> Vault {
    let mut vault = p.open("andy").unwrap();
    let first = vault.active_fingerprint().to_string();

    let mut mined = Identity::generate();
    mined.mine(8, &mut |_: MineProgress| true);
    let second = vault.add(mined, "alter-ego", "work");

    vault.set_active(&second).unwrap();
    vault.set_active(&first).unwrap();
    p.save(&vault).unwrap();
    vault
}

/// Everything about a vault that must survive a round trip, in a form two
/// vaults can be compared on.
fn snapshot(vault: &Vault) -> Vec<(String, [u8; 32], u64, String, String)> {
    vault
        .list()
        .iter()
        .map(|e| {
            (
                e.identity.fingerprint().to_string(),
                e.identity.secret_bytes(),
                e.identity.counter(),
                e.nickname.clone(),
                e.label.clone(),
            )
        })
        .collect()
}

#[test]
fn encrypting_and_reopening_preserves_every_identity_exactly() {
    // The whole bargain: a passphrase must cost the user nothing but the
    // typing. Every key, witness, nickname and label comes back.
    let mut p = Disk::default();
    let mut vault = populated(&mut p);
    let before = snapshot(&vault);
    let active = vault.active_fingerprint().to_string();

    p.set_passphrase(&mut vault, PASSPHRASE).unwrap();

    let reopened =
        p.open_with("ignored", Some(PASSPHRASE)).unwrap();
    assert_eq!(snapshot(&reopened), before);
    assert_eq!(reopened.active_fingerprint(), active);
    assert!(reopened.is_encrypted());
}

#[test]
fn an_encrypted_vault_holds_no_key_material_in_the_clear() {
    let mut p = Disk::default();
    let mut vault = populated(&mut p);
    let secret = data_encoding::BASE64.encode(&vault.active().identity.secret_bytes());
    p.set_passphrase(&mut vault, PASSPHRASE).unwrap();

    let raw = p.text();
    assert!(!raw.contains(&secret), "the secret key must not be legible");
    assert!(
        !raw.contains("alter-ego"),
        "nor the profile attached to it: nicknames say who the user is",
    );
    assert!(
        !raw.contains(vault.active_fingerprint()),
        "nor the fingerprint, which names the key on every server it uses",
    );
}

#[test]
fn an_encrypted_vault_will_not_open_without_a_passphrase() {
    let mut p = Disk::default();
    let mut vault = populated(&mut p);
    p.set_passphrase(&mut vault, PASSPHRASE).unwrap();

    assert!(matches!(
        p.open("andy"),
        Err(VaultError::PassphraseRequired(_))
    ));
}

#[test]
fn the_wrong_passphrase_fails_rather_than_producing_a_key() {
    // The failure that matters most: a near miss must be an error, never a
    // vault full of keys that are subtly not the user's.
    let mut p = Disk::default();
    let mut vault = populated(&mut p);
    p.set_passphrase(&mut vault, PASSPHRASE).unwrap();

    let result = p.open_with("andy", Some("hunter2"));
    assert!(matches!(
        result,
        Err(VaultError::Locked {
            source: SealError::Unauthentic,
            ..
        })
    ));
}

#[test]
fn a_wrong_passphrase_does_not_replace_the_vault() {
    // A failed unlock must leave the file alone. Rewriting it here would
    // destroy the identities the user was one typo away from reaching.
    let mut p = Disk::default();
    let mut vault = populated(&mut p);
    p.set_passphrase(&mut vault, PASSPHRASE).unwrap();
    let before = p.vault.clone();

    let _ = p.open_with("andy", Some("hunter2"));
    let _ = p.open("andy");

    assert_eq!(p.vault, before);
    let recovered =
        p.open_with("andy", Some(PASSPHRASE)).unwrap();
    assert_eq!(snapshot(&recovered), snapshot(&vault));
}

#[test]
fn an_existing_unencrypted_vault_keeps_opening_untouched() {
    // Nobody who never asked for a passphrase may be made to type one.
    let mut p = Disk::default();
    let vault = populated(&mut p);
    let before = snapshot(&vault);
    drop(vault);

    let reopened = p.open("ignored").unwrap();
    assert!(!reopened.is_encrypted());
    assert_eq!(snapshot(&reopened), before);
    assert!(!p.needs_passphrase().unwrap());
}

#[test]
fn a_passphrase_offered_to_an_unencrypted_vault_does_not_encrypt_it() {
    // Opening a file is never the moment encryption gets turned on; a caller
    // holding a cached passphrase must not silently convert the vault.
    let mut p = Disk::default();
    populated(&mut p);

    let vault =
        p.open_with("ignored", Some(PASSPHRASE)).unwrap();
    assert!(!vault.is_encrypted());
    p.save(&vault).unwrap();
    assert!(p.open("ignored").is_ok());
}

#[test]
fn needs_passphrase_answers_before_anything_is_decrypted() {
    let mut p = Disk::default();
    assert!(
        !p.needs_passphrase().unwrap(),
        "a vault that does not exist yet is about to be created unencrypted",
    );

    let mut vault = populated(&mut p);
    assert!(!p.needs_passphrase().unwrap());

    p.set_passphrase(&mut vault, PASSPHRASE).unwrap();
    assert!(p.needs_passphrase().unwrap());
}

#[test]
fn ordinary_saves_keep_the_vault_encrypted() {
    // Encryption is a property of the vault, not of the one call that
    // enabled it: a nickname edit must not quietly write plaintext back.
    let mut p = Disk::default();
    let mut vault = populated(&mut p);
    p.set_passphrase(&mut vault, PASSPHRASE).unwrap();

    let active = vault.active_fingerprint().to_string();
    vault.set_nickname(&active, "renamed").unwrap();
    p.save(&vault).unwrap();

    assert!(p.needs_passphrase().unwrap());
    let reopened =
        p.open_with("ignored", Some(PASSPHRASE)).unwrap();
    assert_eq!(reopened.active().nickname, "renamed");
}

#[test]
fn changing_the_passphrase_retires_the_old_one() {
    let mut p = Disk::default();
    let mut vault = populated(&mut p);
    let before = snapshot(&vault);

    p.set_passphrase(&mut vault, PASSPHRASE).unwrap();
    p.set_passphrase(&mut vault, "something else entirely").unwrap();

    assert!(matches!(
        p.open_with("andy", Some(PASSPHRASE)),
        Err(VaultError::Locked { .. })
    ));
    let reopened = p.open_with("ignored",
        Some("something else entirely"),
    )
    .unwrap();
    assert_eq!(snapshot(&reopened), before);
}

#[test]
fn removing_the_passphrase_returns_an_ordinary_vault() {
    let mut p = Disk::default();
    let mut vault = populated(&mut p);
    let before = snapshot(&vault);

    p.set_passphrase(&mut vault, PASSPHRASE).unwrap();
    p.remove_passphrase(&mut vault).unwrap();

    assert!(!vault.is_encrypted());
    let reopened = p.open("ignored").unwrap();
    assert_eq!(snapshot(&reopened), before);
}

#[test]
fn a_first_run_can_start_out_encrypted() {
    let mut p = Disk::default();
    let vault =
        p.open_with("andy", Some(PASSPHRASE)).unwrap();

    assert!(vault.is_encrypted());
    assert_eq!(vault.active().nickname, "andy");
    assert!(p.needs_passphrase().unwrap());
}

#[test]
fn migrating_a_v1_keystore_into_an_encrypted_vault_preserves_the_key() {
    let mut p = Disk::default();
    let mut original = Identity::generate();
    original.mine(8, &mut |_: MineProgress| true);
    p.legacy = Some(Legacy::Saved(Keystore::stored(&original, "andy")));

    let vault =
        p.open_with("ignored", Some(PASSPHRASE)).unwrap();

    assert!(vault.is_encrypted());
    assert_eq!(
        vault.active().identity.fingerprint(),
        original.fingerprint()
    );
    assert_eq!(vault.active().identity.counter(), original.counter());
    assert_eq!(vault.active().nickname, "andy");
    assert!(
        p.backup.is_some(),
        "the v1 file is still kept, not deleted",
    );
}

#[test]
fn a_truncated_encrypted_vault_is_reported_rather_than_regenerated() {
    // Silently generating a fresh identity over a damaged file is the worst
    // thing this code could do: the user would appear to be a stranger on
    // every server they have ever used, with no sign anything went wrong.
    let mut p = Disk::default();
    let mut vault = populated(&mut p);
    p.set_passphrase(&mut vault, PASSPHRASE).unwrap();

    let whole = p.text();
    p.write(whole[..whole.len() / 2].to_string());

    assert!(matches!(
        p.open_with("andy", Some(PASSPHRASE)),
        Err(VaultError::Malformed(_))
    ));
}

#[test]
fn a_corrupted_ciphertext_is_reported_rather_than_regenerated() {
    let mut p = Disk::default();
    let mut vault = populated(&mut p);
    p.set_passphrase(&mut vault, PASSPHRASE).unwrap();

    // A single flipped character in the body, leaving the JSON intact — the
    // kind of damage a failing disk produces rather than an editor.
    let raw = p.text();
    let sealed: serde_json::Value = serde_json::from_str(&raw).unwrap();
    let mut ciphertext = sealed["ciphertext"].as_str().unwrap().to_string();
    let flipped = if ciphertext.starts_with('A') {
        'B'
    } else {
        'A'
    };
    ciphertext.replace_range(0..1, &flipped.to_string());
    p.write(raw.replace(sealed["ciphertext"].as_str().unwrap(), &ciphertext));

    assert!(matches!(
        p.open_with("andy", Some(PASSPHRASE)),
        Err(VaultError::Locked { .. })
    ));
}

#[test]
fn opening_a_world_readable_encrypted_vault_is_still_refused() {
    let mut p = Disk::default();
    let mut vault = populated(&mut p);
    p.set_passphrase(&mut vault, PASSPHRASE).unwrap();
    p.mode = 0o100644;

    assert!(matches!(
        p.open_with("andy", Some(PASSPHRASE)),
        Err(VaultError::PermissionsTooOpen { .. })
    ));
}

#[test]
fn a_rewrite_that_reads_back_differently_is_refused() {
    let mut p = Disk::default();
    let vault = populated(&mut p);
    let mut other = p.open("ignored").unwrap();
    let active = other.active_fingerprint().to_string();
    other.set_nickname(&active, "somebody else").unwrap();

    assert!(!vault.holds_the_same_identities_as(&other));
    assert!(matches!(
        vault.verify_rewrite(Ok(other)),
        Err(VaultError::VerificationFailed(_))
    ));
    let same = p.open("ignored").unwrap();
    assert!(vault.verify_rewrite(Ok(same)).is_ok());
}

#[test]
fn the_active_entry_can_be_changed_in_place() {
    let mut p = Disk::default();
    let mut vault = populated(&mut p);
    vault.active_mut().label = "home".to_string();
    let entry: &VaultEntry = vault.active();
    assert_eq!(entry.label, "home");
    assert_eq!(vault.list()[1].label, "work", "and only that one");
}

#[test]
fn an_entry_that_holds_no_key_is_refused() {
    let stored = StoredVault {
        version: 2,
        active: String::new(),
        identities: vec![StoredEntry {
            secret_key: "AAAA".into(),
            counter: 0,
            nickname: "andy".into(),
            label: String::new(),
        }],
    };
    assert!(matches!(
        Vault::restore(VAULT, stored, Protection::Plain),
        Err(VaultError::BadKey(_))
    ));
    let empty = StoredVault {
        version: 2,
        active: String::new(),
        identities: Vec::new(),
    };
    assert!(Vault::restore(VAULT, empty, Protection::Plain).is_err());
}

#[test]
fn a_vault_that_cannot_be_read_is_not_replaced() {
    for file in [
        FileRead::Failed("disk on fire".to_string()),
        FileRead::Unchecked("no mode".to_string()),
    ] {
        assert!(matches!(
            Vault::open_with_passphrase(VAULT, file, None, read),
            Err(VaultError::Io { .. })
        ));
    }
}

#[test]
fn vault_errors_have_words() {
    assert_eq!(
        VaultError::WouldEmpty.message(),
        "this is the only identity you have; add another before removing it"
    );
    assert_eq!(
        VaultError::UnsupportedVersion {
            path: VAULT.into(),
            found: 99,
            expected: 2
        }
        .message(),
        "vault identities.json has version 99, but this build understands 2 (unencrypted) \
         and 3 (passphrase-encrypted)"
    );
    assert_eq!(
        VaultError::Migration {
            from: LEGACY.into(),
            source: KeystoreError::Malformed(LEGACY.into())
        }
        .message(),
        "migrating identity.json: keystore identity.json is not valid JSON"
    );
    assert!(VaultError::Locked {
        path: VAULT.into(),
        source: SealError::Unauthentic
    }
    .message()
    .starts_with("could not open vault identities.json: "));
}

#[test]
fn a_file_is_read_as_what_its_version_says() {
    assert!(matches!(document_of(2, None, None), VaultDocument::Plain(None)));
    assert!(matches!(document_of(3, None, None), VaultDocument::Sealed(None)));
    assert!(matches!(document_of(9, None, None), VaultDocument::Other(9)));
}

#[test]
fn a_new_passphrase_is_stretched_at_the_full_cost() {
    let missing = KeystoreError::Io {
        path: "identity.json".into(),
        source: "not found".into(),
        not_found: true,
    };
    let (vault, _) =
        Vault::create("identities.json", "identity.json", Err(missing), "andy", Some("hunter2"))
            .unwrap();
    for protection in [
        vault.current_protection(),
        &vault.passphrase_protection("hunter3").unwrap(),
    ] {
        match protection {
            Protection::Passphrase(key) => {
                assert_eq!(key.header().algorithm, "argon2id");
                assert_eq!(key.header().memory_kib, 19 * 1024);
                assert_eq!(key.header().iterations, 2);
                assert_eq!(key.header().parallelism, 1);
            }
            Protection::Plain => panic!("a passphrase was given"),
        }
    }
}
