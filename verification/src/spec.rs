//! What operators write: the plugin's connection block, the spec of a
//! binding, and the spec of a watch.

use vstd::prelude::*;

use crate::error::{invalid_spec, BackendError, BackendFault, WatchError, WatchFault};
use crate::text::{blank, contains_char, contains_text, is_blank, occurs_in};

verus! {

/// Plugin-level config: the `config:` block of the `plugins[]` entry.
///
/// Connection parameters live here, once per plugin instance; what belongs to
/// one binding arrives in its [`NatsBackendSpec`].
#[derive(Debug, Clone)]
pub struct NatsPluginConfig {
    /// Server URL; empty where none is configured.
    pub url: String,
    /// Path to a NATS credentials file.
    pub credentials_path: Option<String>,
}

impl Default for NatsPluginConfig {
    /// An absent block: no URL, no credentials file.
    fn default() -> (config: Self)
        ensures
            config.url@ == Seq::<char>::empty(),
            config.credentials_path is None,
    {
        NatsPluginConfig { url: String::new(), credentials_path: None }
    }
}

/// Spec of one binding.
///
/// Where `url`, `credentials_path` or `auth_token` carries a
/// `${cred://issuer/target}` token, each call resolves it for its caller and
/// goes over a client of that caller's credentials. A bare `cred://…` is no
/// token and travels to NATS verbatim.
#[derive(Debug, Clone)]
pub struct NatsBackendSpec {
    /// Server URL of this binding.
    pub url: Option<String>,
    /// Path to a NATS credentials file.
    pub credentials_path: Option<String>,
    /// Auth token for the connection.
    pub auth_token: Option<String>,
    /// Subject that requests are published to.
    pub subject: String,
    /// How long a call waits for its reply, in milliseconds.
    pub timeout_ms: u64,
    /// How many bytes of a reply are handed on.
    pub max_response_bytes: usize,
}

/// The text of an optional string.
pub open spec fn text_of(s: Option<String>) -> Option<Seq<char>> {
    match s {
        Some(s) => Some(s@),
        None => None,
    }
}

/// A [`NatsBackendSpec`] with its texts.
pub struct SpecView {
    pub url: Option<Seq<char>>,
    pub credentials_path: Option<Seq<char>>,
    pub auth_token: Option<Seq<char>>,
    pub subject: Seq<char>,
    pub timeout_ms: u64,
    pub max_response_bytes: usize,
}

impl View for NatsBackendSpec {
    type V = SpecView;

    open spec fn view(&self) -> SpecView {
        SpecView {
            url: text_of(self.url),
            credentials_path: text_of(self.credentials_path),
            auth_token: text_of(self.auth_token),
            subject: self.subject@,
            timeout_ms: self.timeout_ms,
            max_response_bytes: self.max_response_bytes,
        }
    }
}

/// Per-call timeout of a spec that names none, in milliseconds.
pub fn default_timeout_ms() -> (timeout_ms: u64)
    ensures
        timeout_ms == 2_000,
{
    2_000
}

/// Reply cap of a spec that names none: 64 KiB.
pub fn default_max_response_bytes() -> (max_response_bytes: usize)
    ensures
        max_response_bytes == 65_536,
{
    65_536
}

/// The first rule that a spec breaks, in the words of its rejection.
pub open spec fn spec_objection(spec: SpecView) -> Option<Seq<char>> {
    if blank(spec.subject) {
        Some("subject must not be empty"@)
    } else if spec.subject.contains(' ') {
        Some("subject must not contain spaces"@)
    } else if spec.timeout_ms == 0 {
        Some("timeout_ms must be greater than 0"@)
    } else if spec.max_response_bytes == 0 {
        Some("max_response_bytes must be greater than 0"@)
    } else if occurs_in(spec.subject, "cred://"@) {
        Some("subject must not contain a cred:// reference"@)
    } else {
        None
    }
}

/// Whether a spec can be registered.
pub open spec fn acceptable(spec: SpecView) -> bool {
    spec_objection(spec) is None
}

/// What an acceptable spec promises: a subject that is not empty, holds no
/// space and no `cred://` reference, some time to reply in, and some room for
/// the reply.
pub proof fn acceptable_specs(spec: SpecView)
    ensures
        acceptable(spec) <==> {
            &&& !blank(spec.subject)
            &&& !spec.subject.contains(' ')
            &&& !occurs_in(spec.subject, "cred://"@)
            &&& spec.timeout_ms > 0
            &&& spec.max_response_bytes > 0
        },
{
}

/// Check the values of a binding's spec.
///
/// The subject is a plaintext routing fact, never a credential carrier, so a
/// `cred://` reference in it is refused: it would put a secret on the wire as
/// a subject name. The credential-bearing fields are not restricted.
pub fn validate_spec(spec: &NatsBackendSpec) -> (checked: Result<(), BackendError>)
    ensures
        checked is Ok <==> acceptable(spec@),
        checked matches Err(error) ==> error@ == (BackendFault::InvalidSpec {
            message: spec_objection(spec@)->0,
        }),
{
    if is_blank(spec.subject.as_str()) {
        return Err(invalid_spec("subject must not be empty"));
    }
    if contains_char(spec.subject.as_str(), ' ') {
        return Err(invalid_spec("subject must not contain spaces"));
    }
    if spec.timeout_ms == 0 {
        return Err(invalid_spec("timeout_ms must be greater than 0"));
    }
    if spec.max_response_bytes == 0 {
        return Err(invalid_spec("max_response_bytes must be greater than 0"));
    }
    if contains_text(spec.subject.as_str(), "cred://") {
        return Err(invalid_spec("subject must not contain a cred:// reference"));
    }
    Ok(())
}

/// Spec of a watch: the subject whose messages mean that the resource changed.
#[derive(Debug, Clone)]
pub struct NatsWatchSpec {
    pub subject: String,
}

/// Check the values of a watch spec.
pub fn validate_watch_spec(spec: &NatsWatchSpec) -> (checked: Result<(), WatchError>)
    ensures
        checked is Ok <==> !blank(spec.subject@),
        checked matches Err(error) ==> error@ == (WatchFault::InvalidSpec {
            message: "subject must not be empty"@,
        }),
{
    if is_blank(spec.subject.as_str()) {
        return Err(WatchError::InvalidSpec { message: "subject must not be empty".to_owned() });
    }
    Ok(())
}

/// Copy an optional string.
pub(crate) fn copy_text(s: &Option<String>) -> (out: Option<String>)
    ensures
        text_of(out) == text_of(*s),
{
    match s {
        Some(s) => Some(s.clone()),
        None => None,
    }
}

} // verus!
