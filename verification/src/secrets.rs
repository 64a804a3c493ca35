//! What the server has to keep to itself.
use crate::hexadecimal;
use vstd::prelude::*;
use vstd::string::StringSliceAdditionalSpecFns;

verus! {

/// The credentials for the object storage.
#[derive(Debug)]
pub struct LinodeObjectStorageSecrets {
    pub access_key: String,
    pub secret_key: String,
}

impl Clone for LinodeObjectStorageSecrets {
    fn clone(&self) -> (r: LinodeObjectStorageSecrets)
        ensures
            r == *self,
    {
        LinodeObjectStorageSecrets { access_key: self.access_key.clone(), secret_key: self.secret_key.clone() }
    }
}

/// The secrets, as they stand in the secrets file. Those for the object storage can be left out.
#[derive(Debug)]
pub struct Secrets {
    pub linode_object_storage: Option<LinodeObjectStorageSecrets>,
    pub steam_api_key: String,
    pub session_private_key_hex: String,
}

/// Whether a text holds 32 bytes in hexadecimal.
pub open spec fn is_key_hex(s: Seq<char>) -> bool {
    s.len() == 64 && hexadecimal::all_hex(s)
}

impl Secrets {
    /// The key for Steam's web API.
    pub fn steam_api_key(&self) -> (r: String)
        ensures
            r == self.steam_api_key,
    {
        self.steam_api_key.clone()
    }

    /// Whether the session key is 32 bytes in hexadecimal.
    pub fn has_session_private_key(&self) -> (r: bool)
        ensures
            r == is_key_hex(self.session_private_key_hex@),
    {
        let c = crate::text::to_chars(self.session_private_key_hex.as_str());
        if c.len() != 64 {
            return false;
        }
        let mut i: usize = 0;
        while i < c.len()
            invariant
                i <= c@.len(),
                c@ == self.session_private_key_hex@,
                forall|j: int| 0 <= j < i ==> hexadecimal::is_hex(#[trigger] c@[j]),
            decreases c.len() - i,
        {
            let d = c[i];
            if !((d >= '0' && d <= '9') || (d >= 'a' && d <= 'f') || (d >= 'A' && d <= 'F')) {
                assert(!hexadecimal::is_hex(self.session_private_key_hex@[i as int]));
                return false;
            }
            i = i + 1;
        }
        true
    }

    /// The key that signs session cookies.
    pub fn session_private_key(&self) -> (r: [u8; 32])
        requires
            is_key_hex(self.session_private_key_hex@),
        ensures
            hexadecimal::hex_decoded(self.session_private_key_hex@) == Some(r@),
    {
        let bytes = self.session_private_key_hex.as_str().as_bytes();
        proof {
            hexadecimal::latin_undoes_ascii(self.session_private_key_hex@);
        }
        let mut key: [u8; 32] = [0u8; 32];
        if let Some(decoded) = hexadecimal::decode(bytes) {
            let mut i: usize = 0;
            while i < 32
                invariant
                    i <= 32,
                    decoded@.len() == 32,
                    forall|j: int| 0 <= j < i ==> key@[j] == decoded@[j],
                decreases 32 - i,
            {
                key[i] = decoded[i];
                i = i + 1;
            }
            assert(key@ =~= decoded@);
        }
        key
    }

    /// The credentials for the object storage, where there are any.
    pub fn linode_credentials(&self) -> (r: Option<LinodeObjectStorageSecrets>)
        ensures
            r == self.linode_object_storage,
    {
        match &self.linode_object_storage {
            Some(credentials) => Some(credentials.clone()),
            None => None,
        }
    }
}

/// The hexadecimal text of any 32 bytes is a session key, and stands for those bytes.
pub proof fn key_hex_stands_for_key(key: Seq<u8>)
    requires
        key.len() == 32,
    ensures
        is_key_hex(hexadecimal::hex_encoded(key)),
        hexadecimal::hex_decoded(hexadecimal::hex_encoded(key)) == Some(key),
{
    hexadecimal::decode_undoes_encode(key);
}

/// A text of another length, or with another character than a hexadecimal digit, is no session key.
pub proof fn other_texts_are_no_keys(s: Seq<char>, i: int)
    ensures
        s.len() != 64 ==> !is_key_hex(s),
        0 <= i < s.len() && !('0' <= s[i] <= '9' || 'a' <= s[i] <= 'f' || 'A' <= s[i] <= 'F') ==> !is_key_hex(s),
{
}

} // verus!
