//! Where the API key is kept: in the credential store of the system, and nowhere else.
use vstd::prelude::*;
use crate::text::{blank, is_blank};

verus! {

broadcast use vstd::string::group_string_axioms;

#[derive(Debug, Clone, Copy, PartialEq, Eq, Structural)]
pub enum SecretStoreError {
    Unavailable,
    Missing,
    Rejected,
}

/// Whether a look at the key shows that there is one.
pub open spec fn key_present(found: Result<String, SecretStoreError>) -> Result<
    bool,
    SecretStoreError,
> {
    match found {
        Ok(_) => Ok(true),
        Err(SecretStoreError::Missing) => Ok(false),
        Err(e) => Err(e),
    }
}

/// Says whether there is a key, without the key.
pub fn presence(found: Result<String, SecretStoreError>) -> (r: Result<bool, SecretStoreError>)
    ensures
        r == key_present(found),
{
    match found {
        Ok(_) => Ok(true),
        Err(SecretStoreError::Missing) => Ok(false),
        Err(e) => Err(e),
    }
}

/// A store for the key.
pub trait SecretStore {
    fn set_api_key(&self, value: &str) -> Result<(), SecretStoreError>;

    fn get_api_key(&self) -> Result<String, SecretStoreError>;

    fn delete_api_key(&self) -> Result<(), SecretStoreError>;

    /// Whether there is a key. A key that is missing is no error.
    fn has_api_key(&self) -> (r: Result<bool, SecretStoreError>)
        default_ensures
            exists|found: Result<String, SecretStoreError>|
                #[trigger] call_ensures(Self::get_api_key, (self,), found) && r == key_present(
                    found,
                ),
    {
        let found = self.get_api_key();
        presence(found)
    }
}

/// Decides whether a text can be kept as a key.
pub fn check_secret(value: &str) -> (r: Result<(), SecretStoreError>)
    ensures
        blank(value@) ==> r == Err::<(), SecretStoreError>(SecretStoreError::Rejected),
        !blank(value@) ==> r is Ok,
{
    if is_blank(value) {
        Err(SecretStoreError::Rejected)
    } else {
        Ok(())
    }
}

// ---------------------------------------------------------------------------
// Laws
// ---------------------------------------------------------------------------

/// A key is there where it was found, and is not where there is none; a store that failed
/// says neither.
pub proof fn whether_a_key_is_there(key: String)
    ensures
        key_present(Ok(key)) == Ok::<bool, SecretStoreError>(true),
        key_present(Err(SecretStoreError::Missing)) == Ok::<bool, SecretStoreError>(false),
        key_present(Err(SecretStoreError::Unavailable)) == Err::<bool, SecretStoreError>(
            SecretStoreError::Unavailable,
        ),
        key_present(Err(SecretStoreError::Rejected)) == Err::<bool, SecretStoreError>(
            SecretStoreError::Rejected,
        ),
{
}

} // verus!
