//! Credential selection for the identity backend: the credential kind and
//! the text forms it is configured by.

use vstd::prelude::*;

use crate::chars::{self, lower_seq, trim_seq};
use crate::text::chars_of;

verus! {

/// The kind of credential used for authentication.
#[derive(Debug, Clone, Copy, PartialEq, Eq, Structural, Default)]
pub enum CredentialType {
    #[default]
    ManagedIdentity,
}

/// A parse failure of [`CredentialType`], carrying its message text.
#[derive(Debug, Clone, PartialEq)]
pub struct CredentialTypeParseError {
    message: String,
}

impl View for CredentialTypeParseError {
    type V = Seq<char>;

    closed spec fn view(&self) -> Seq<char> {
        self.message@
    }
}

impl CredentialTypeParseError {
    pub fn new(message: String) -> (r: Self)
        ensures
            r@ == message@,
    {
        Self { message }
    }

    /// The message text.
    pub fn message(&self) -> (r: String)
        ensures
            r@ == self@,
    {
        self.message.clone()
    }
}

/// The text forms that select the managed-identity credential: empty, or the
/// name in any case with either word separator, after trimming.
pub open spec fn managed_identity_text(normalized: Seq<char>) -> bool {
    ||| normalized == Seq::<char>::empty()
    ||| normalized == seq!['m', 'a', 'n', 'a', 'g', 'e', 'd', 'i', 'd', 'e', 'n', 't', 'i', 't', 'y']
    ||| normalized == seq![
        'm', 'a', 'n', 'a', 'g', 'e', 'd', '_', 'i', 'd', 'e', 'n', 't', 'i', 't', 'y',
    ]
    ||| normalized == seq![
        'm', 'a', 'n', 'a', 'g', 'e', 'd', '-', 'i', 'd', 'e', 'n', 't', 'i', 't', 'y',
    ]
}

pub open spec fn err_prefix() -> Seq<char> {
    seq![
        'u', 'n', 's', 'u', 'p', 'p', 'o', 'r', 't', 'e', 'd', ' ', 'c', 'r', 'e', 'd', 'e', 'n',
        't', 'i', 'a', 'l', ' ', 't', 'y', 'p', 'e', ' ', '\'',
    ]
}

impl CredentialType {
    /// Parse a credential type from its configured text: the value is
    /// trimmed and ASCII-lowered, and must name the managed identity (or be
    /// empty, which selects the default).
    pub fn from_str(value: &str) -> (r: Result<CredentialType, CredentialTypeParseError>)
        ensures
            match r {
                Ok(c) => managed_identity_text(lower_seq(trim_seq(value@))) && c
                    == CredentialType::ManagedIdentity,
                Err(e) => !managed_identity_text(lower_seq(trim_seq(value@))) && e@ == err_prefix()
                    + value@ + seq!['\''],
            },
    {
        let v = chars_of(value);
        let normalized = chars::to_lower(&chars::trim(&v));
        let w1 = vec![
            'm', 'a', 'n', 'a', 'g', 'e', 'd', 'i', 'd', 'e', 'n', 't', 'i', 't', 'y',
        ];
        let w2 = vec![
            'm', 'a', 'n', 'a', 'g', 'e', 'd', '_', 'i', 'd', 'e', 'n', 't', 'i', 't', 'y',
        ];
        let w3 = vec![
            'm', 'a', 'n', 'a', 'g', 'e', 'd', '-', 'i', 'd', 'e', 'n', 't', 'i', 't', 'y',
        ];
        assert(w1@ =~= seq![
            'm', 'a', 'n', 'a', 'g', 'e', 'd', 'i', 'd', 'e', 'n', 't', 'i', 't', 'y',
        ]);
        assert(w2@ =~= seq![
            'm', 'a', 'n', 'a', 'g', 'e', 'd', '_', 'i', 'd', 'e', 'n', 't', 'i', 't', 'y',
        ]);
        assert(w3@ =~= seq![
            'm', 'a', 'n', 'a', 'g', 'e', 'd', '-', 'i', 'd', 'e', 'n', 't', 'i', 't', 'y',
        ]);
        if normalized.len() == 0 || chars::seq_eq(&normalized, &w1) || chars::seq_eq(
            &normalized,
            &w2,
        ) || chars::seq_eq(&normalized, &w3) {
            proof {
                if normalized@.len() == 0 {
                    assert(normalized@ =~= Seq::<char>::empty());
                }
            }
            Ok(CredentialType::ManagedIdentity)
        } else {
            let mut msg = vec![
                'u', 'n', 's', 'u', 'p', 'p', 'o', 'r', 't', 'e', 'd', ' ', 'c', 'r', 'e', 'd',
                'e', 'n', 't', 'i', 'a', 'l', ' ', 't', 'y', 'p', 'e', ' ', '\'',
            ];
            assert(msg@ =~= err_prefix());
            chars::push_all(&mut msg, &v);
            msg.push('\'');
            Err(CredentialTypeParseError::new(crate::text::string_of(&msg)))
        }
    }
}

/// Connection options of the identity backend.
#[derive(Debug, Clone, Default)]
pub struct ConnectOptions {
    /// The credential kind to authenticate with.
    pub credential_type: CredentialType,
}

} // verus!
