//! Finding the API key: a developer's key from the environment first
//! (`ANTHROPIC_API_KEY`, then `TIDYDOG_API_KEY`), else the user's key from the
//! operating system's keychain. The key is never put in a message.

use vstd::prelude::*;
use crate::text::{chars_of, push_str, string_of, trim, trim_chars};

verus! {

#[verifier::external_type_specification]
#[verifier::external_body]
pub struct ExKeyringEntry(keyring::Entry);

#[verifier::external_type_specification]
#[verifier::external_body]
pub struct ExKeyringError(keyring::Error);

/// `keyring::Entry::new`: the keychain entry for a service and account. What
/// comes back depends on the platform's store, so nothing is claimed of it.
#[verifier::external_body]
fn keychain_entry(service: &str, account: &str) -> Result<keyring::Entry, keyring::Error> {
    keyring::Entry::new(service, account)
}

/// `keyring::Entry::get_password`: the password stored in the entry, read
/// from the platform's store; nothing is claimed of it.
#[verifier::external_body]
fn keychain_password(entry: &keyring::Entry) -> Result<String, keyring::Error> {
    entry.get_password()
}

/// `<keyring::Error as Display>`: the error as text; nothing is claimed of it.
#[verifier::external_body]
fn keyring_error_text(e: &keyring::Error) -> String {
    e.to_string()
}

/// The message when no key can be found.
pub open spec fn no_key_message() -> Seq<char> {
    "API 키가 없습니다. 설정(⚙)에서 입력하거나 ANTHROPIC_API_KEY 환경변수를 설정하세요."@
}

/// The key an environment value gives: the value trimmed, when that is not empty.
pub open spec fn env_candidate(v: Option<Seq<char>>) -> Option<Seq<char>> {
    match v {
        Some(s) => if trim(s).len() > 0 {
            Some(trim(s))
        } else {
            None
        },
        None => None,
    }
}

/// The key the environment gives, the first variable winning.
pub open spec fn env_key(primary: Option<Seq<char>>, secondary: Option<Seq<char>>) -> Option<Seq<char>> {
    match env_candidate(primary) {
        Some(k) => Some(k),
        None => env_candidate(secondary),
    }
}

fn candidate(v: &Option<String>) -> (r: Option<String>)
    ensures
        crate::path::opt_seq(r) == env_candidate(crate::path::opt_seq(*v)),
{
    match v {
        Some(s) => {
            let c = chars_of(s.as_str());
            let t = trim_chars(&c);
            if t.len() > 0 {
                Some(string_of(&t))
            } else {
                None
            }
        },
        None => None,
    }
}

/// What reading the keychain gave.
pub enum KeychainRead {
    /// The entry holds this password.
    Found(String),
    /// The entry was opened but gave no password.
    NoPassword,
    /// The entry could not be opened; the keychain's error as text.
    EntryError(String),
}

/// The text of a result of strings.
pub open spec fn result_text(r: Result<String, String>) -> Result<Seq<char>, Seq<char>> {
    match r {
        Ok(s) => Ok(s@),
        Err(e) => Err(e@),
    }
}

/// The answer to a key request: the environment's key when there is one;
/// otherwise the keychain's password, or the no-key message when the entry
/// holds none, or the keychain's error when the entry cannot be opened.
pub open spec fn api_key_answer(
    primary: Option<Seq<char>>,
    secondary: Option<Seq<char>>,
    read: KeychainRead,
) -> Result<Seq<char>, Seq<char>> {
    match env_key(primary, secondary) {
        Some(k) => Ok(k),
        None => match read {
            KeychainRead::Found(p) => Ok(p@),
            KeychainRead::NoPassword => Err(no_key_message()),
            KeychainRead::EntryError(t) => Err("keyring 오류: "@ + t@),
        },
    }
}

/// A key set in the environment is returned trimmed, whatever the keychain
/// holds; with none set, the password the keychain gives is the key, a
/// keychain without one answers with the no-key message, and an entry that
/// cannot be opened answers with the keychain's error. A key, once found, is
/// never answered with an error.
pub proof fn lemma_key_sources(
    primary: Option<Seq<char>>,
    secondary: Option<Seq<char>>,
    read: KeychainRead,
)
    ensures
        primary matches Some(v) ==> (trim(v).len() > 0 ==> api_key_answer(primary, secondary, read)
            == Ok::<Seq<char>, Seq<char>>(trim(v))),
        env_key(primary, secondary) is None ==> (read matches KeychainRead::Found(p)
            ==> api_key_answer(primary, secondary, read) == Ok::<Seq<char>, Seq<char>>(p@)),
        env_key(primary, secondary) is None && read is NoPassword ==> api_key_answer(
            primary,
            secondary,
            read,
        ) == Err::<Seq<char>, Seq<char>>(no_key_message()),
        (api_key_answer(primary, secondary, read) is Err) <==> (env_key(primary, secondary) is None
            && !(read is Found)),
{
}

/// The API key, given the values of the two environment variables and what
/// reading the keychain gave.
pub fn api_key_from(env_primary: Option<String>, env_secondary: Option<String>, read: KeychainRead) -> (r:
    Result<String, String>)
    ensures
        result_text(r) == api_key_answer(
            crate::path::opt_seq(env_primary),
            crate::path::opt_seq(env_secondary),
            read,
        ),
{
    match candidate(&env_primary) {
        Some(k) => {
            return Ok(k);
        },
        None => {},
    }
    match candidate(&env_secondary) {
        Some(k) => {
            return Ok(k);
        },
        None => {},
    }
    match read {
        KeychainRead::Found(p) => Ok(p),
        KeychainRead::NoPassword => Err(
            "API 키가 없습니다. 설정(⚙)에서 입력하거나 ANTHROPIC_API_KEY 환경변수를 설정하세요.".to_string(),
        ),
        KeychainRead::EntryError(t) => {
            let mut m = String::new();
            push_str(&mut m, "keyring 오류: ");
            push_str(&mut m, t.as_str());
            Err(m)
        },
    }
}

/// The API key for `service`/`account`, given the values of the two
/// environment variables. An environment key always wins, and the keychain is
/// then not asked; otherwise the answer is the one `api_key_from` gives for
/// what the keychain read gave, which depends on the platform's store.
pub fn get_api_key_inner(
    service: &str,
    account: &str,
    env_primary: Option<String>,
    env_secondary: Option<String>,
) -> (r: Result<String, String>)
    ensures
        env_key(crate::path::opt_seq(env_primary), crate::path::opt_seq(env_secondary)) matches Some(
            k,
        ) ==> (r matches Ok(s) && s@ == k),
        exists|rd: KeychainRead|
            result_text(r) == api_key_answer(
                crate::path::opt_seq(env_primary),
                crate::path::opt_seq(env_secondary),
                rd,
            ),
        r matches Err(m) ==> (m@ == no_key_message() || exists|t: Seq<char>|
            m@ == "keyring 오류: "@ + t),
{
    match candidate(&env_primary) {
        Some(k) => {
            let ghost rd = KeychainRead::NoPassword;
            assert(result_text(Ok::<String, String>(k)) == api_key_answer(
                crate::path::opt_seq(env_primary),
                crate::path::opt_seq(env_secondary),
                rd,
            ));
            return Ok(k);
        },
        None => {},
    }
    match candidate(&env_secondary) {
        Some(k) => {
            let ghost rd = KeychainRead::NoPassword;
            assert(result_text(Ok::<String, String>(k)) == api_key_answer(
                crate::path::opt_seq(env_primary),
                crate::path::opt_seq(env_secondary),
                rd,
            ));
            return Ok(k);
        },
        None => {},
    }
    let read = match keychain_entry(service, account) {
        Ok(entry) => match keychain_password(&entry) {
            Ok(p) => KeychainRead::Found(p),
            Err(_) => KeychainRead::NoPassword,
        },
        Err(e) => KeychainRead::EntryError(keyring_error_text(&e)),
    };
    let ghost rd = read;
    let r = api_key_from(env_primary, env_secondary, read);
    assert(result_text(r) == api_key_answer(
        crate::path::opt_seq(env_primary),
        crate::path::opt_seq(env_secondary),
        rd,
    ));
    r
}

/// The application's API key (service `tidydog`, account `anthropic_api_key`),
/// given the values of `ANTHROPIC_API_KEY` and `TIDYDOG_API_KEY`.
pub fn get_api_key(env_primary: Option<String>, env_secondary: Option<String>) -> (r: Result<String, String>)
    ensures
        env_key(crate::path::opt_seq(env_primary), crate::path::opt_seq(env_secondary)) matches Some(
            k,
        ) ==> (r matches Ok(s) && s@ == k),
        r matches Err(m) ==> (m@ == no_key_message() || exists|t: Seq<char>|
            m@ == "keyring 오류: "@ + t),
{
    get_api_key_inner("tidydog", "anthropic_api_key", env_primary, env_secondary)
}

} // verus!
