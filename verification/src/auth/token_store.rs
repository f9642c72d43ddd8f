//! Token persistence: what a stored token is, when it is fresh, and which
//! store holds it.

use crate::config::TokenStoreKind;
use crate::error::{AuthError, AuthFault};
use crate::text::{cat, owned};
use vstd::prelude::*;
use vstd::string::*;

verus! {

#[derive(Debug)]
pub struct StoredToken {
    pub access_token: String,
    pub refresh_token: Option<String>,
    /// Unix seconds; `None` for opaque tokens with unknown expiry.
    pub expires_at_unix: Option<u64>,
    pub token_type: String,
}

/// A `StoredToken` as a mathematical value.
pub struct TokenShape {
    pub access_token: Seq<char>,
    pub refresh_token: Option<Seq<char>>,
    pub expires_at_unix: Option<u64>,
    pub token_type: Seq<char>,
}

impl View for StoredToken {
    type V = TokenShape;

    open spec fn view(&self) -> TokenShape {
        TokenShape {
            access_token: self.access_token@,
            refresh_token: self.refresh_token.deep_view(),
            expires_at_unix: self.expires_at_unix,
            token_type: self.token_type@,
        }
    }
}

impl DeepView for StoredToken {
    type V = TokenShape;

    open spec fn deep_view(&self) -> TokenShape {
        self@
    }
}

/// Fresh if there's no known expiry, or expiry is more than `margin` seconds
/// after `now`.
pub open spec fn fresh_at(expires: Option<u64>, now: u64, margin: u64) -> bool {
    match expires {
        None => true,
        Some(exp) => now + margin < exp,
    }
}

impl StoredToken {
    /// Whether the token is fresh at a given time.
    pub fn is_fresh_at(&self, now: u64, margin_secs: u64) -> (r: bool)
        ensures
            r == fresh_at(self.expires_at_unix, now, margin_secs),
    {
        match self.expires_at_unix {
            None => true,
            Some(exp) => margin_secs < exp && now < exp - margin_secs,
        }
    }

    /// Fresh if there's no known expiry, or expiry is more than `margin_secs` away.
    pub fn is_fresh(&self, margin_secs: u64) -> (r: bool)
        ensures
            exists|now: u64| r == #[trigger] fresh_at(self.expires_at_unix, now, margin_secs),
            self.expires_at_unix is None ==> r,
            self.expires_at_unix matches Some(exp) && exp <= margin_secs ==> !r,
    {
        let now = now_unix();
        self.is_fresh_at(now, margin_secs)
    }
}

/// `std::time::SystemTime::now` in seconds since `UNIX_EPOCH`, and 0 for a
/// clock set before it.
#[verifier::external_body]
pub fn now_unix() -> u64 {
    std::time::SystemTime::now().duration_since(std::time::UNIX_EPOCH).map_or(0, |d| d.as_secs())
}

/// Keeps one token per project.
pub trait TokenStore {
    fn load(&self, project: &str) -> Option<StoredToken>;

    fn save(&self, project: &str, token: &StoredToken) -> Result<(), AuthError>;

    fn clear(&self, project: &str) -> Result<(), AuthError>;
}

/// JSON files in a directory, one per project.
#[derive(Debug)]
pub struct FileStore {
    pub dir: String,
}

/// The OS keychain.
#[derive(Debug)]
pub struct KeyringStore;

/// Where tokens are kept.
#[derive(Debug)]
pub enum StoreChoice {
    File(FileStore),
    Keyring(KeyringStore),
    /// The keychain, and files wherever the keychain fails.
    KeyringThenFile(KeyringStore, FileStore),
}

impl FileStore {
    /// The name of a project's token file.
    pub fn file_name(&self, project: &str) -> (r: String)
        ensures
            r@ == project@ + ".json"@,
    {
        cat(project, ".json")
    }

    /// The name under which a token file is written before it is moved in place.
    pub fn temporary_name(&self, project: &str) -> (r: String)
        ensures
            r@ == project@ + ".json.tmp"@,
    {
        cat(project, ".json.tmp")
    }
}

/// Where an operation on the keychain, with files behind it, goes on.
#[derive(Debug)]
pub enum StoreStep<T> {
    /// The keychain settled it.
    Done(T),
    /// The file is tried.
    UseFile,
}

/// What follows a look into the keychain: a token that is not found there may
/// lie in the file.
pub fn after_keyring_load(found: Option<StoredToken>) -> (r: StoreStep<Option<StoredToken>>)
    ensures
        r == (if found is Some {
            StoreStep::Done(found)
        } else {
            StoreStep::UseFile
        }),
{
    match found {
        Some(token) => StoreStep::Done(Some(token)),
        None => StoreStep::UseFile,
    }
}

/// What follows saving in the keychain: where that fails, the file is written.
pub fn after_keyring_save(saved: Result<(), AuthError>) -> (r: StoreStep<Result<(), AuthError>>)
    ensures
        r == (if saved is Ok {
            StoreStep::Done(saved)
        } else {
            StoreStep::UseFile
        }),
{
    match saved {
        Ok(done) => StoreStep::Done(Ok(done)),
        Err(_) => StoreStep::UseFile,
    }
}

pub open spec fn no_keyring_message() -> Seq<char> {
    "token_store = \"keyring\" but this build lacks the 'keyring' feature"@
}

/// The store of a kind; `keyring_available` says whether the build has the
/// keychain.
pub fn new_token_store(
    kind: TokenStoreKind,
    token_dir: String,
    keyring_available: bool,
) -> (r: Result<StoreChoice, AuthError>)
    ensures
        match kind {
            TokenStoreKind::File => r == Ok::<StoreChoice, AuthError>(
                StoreChoice::File(FileStore { dir: token_dir }),
            ),
            TokenStoreKind::Keyring => if keyring_available {
                r == Ok::<StoreChoice, AuthError>(StoreChoice::Keyring(KeyringStore))
            } else {
                r matches Err(e) && e@ == AuthFault::Store(no_keyring_message())
            },
            TokenStoreKind::Auto => if keyring_available {
                r == Ok::<StoreChoice, AuthError>(
                    StoreChoice::KeyringThenFile(KeyringStore, FileStore { dir: token_dir }),
                )
            } else {
                r == Ok::<StoreChoice, AuthError>(StoreChoice::File(FileStore { dir: token_dir }))
            },
        },
{
    match kind {
        TokenStoreKind::File => Ok(StoreChoice::File(FileStore { dir: token_dir })),
        TokenStoreKind::Keyring => if keyring_available {
            Ok(StoreChoice::Keyring(KeyringStore))
        } else {
            Err(
                AuthError::Store(
                    owned("token_store = \"keyring\" but this build lacks the 'keyring' feature"),
                ),
            )
        },
        TokenStoreKind::Auto => if keyring_available {
            Ok(StoreChoice::KeyringThenFile(KeyringStore, FileStore { dir: token_dir }))
        } else {
            Ok(StoreChoice::File(FileStore { dir: token_dir }))
        },
    }
}

// ---------------------------------------------------------------- laws

/// A token that is fresh for a margin was fresh earlier and is for any
/// smaller margin.
pub proof fn law_freshness_only_wears_off(
    expires: Option<u64>,
    now: u64,
    margin: u64,
    earlier: u64,
    smaller: u64,
)
    requires
        fresh_at(expires, now, margin),
        earlier <= now,
        smaller <= margin,
    ensures
        fresh_at(expires, earlier, smaller),
{
}

} // verus!
