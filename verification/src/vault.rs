//! The secret backend: the capability that issues tokens.
//!
//! Two implementations stand behind one injected enum, so tests never
//! touch a network endpoint: a live backend that talks to a vault server,
//! and a recording mock that returns a fixed token.

use vstd::prelude::*;

use crate::errors::{PluginError, PluginErrorV};

verus! {

/// One token request as the backend saw it.
pub struct VaultCall {
    /// The display name the token was requested under.
    pub display_name: String,
    /// The fully interpolated policy list the token is scoped to.
    pub policies: Vec<String>,
    /// The requested time-to-live, in seconds.
    pub ttl: u64,
}

/// The mathematical model of a [`VaultCall`].
pub struct CallV {
    pub display_name: Seq<char>,
    pub policies: Seq<Seq<char>>,
    pub ttl: u64,
}

impl View for VaultCall {
    type V = CallV;

    open spec fn view(&self) -> CallV {
        CallV {
            display_name: self.display_name@,
            policies: self.policies.deep_view(),
            ttl: self.ttl,
        }
    }
}

/// The address the mock backend reports.
pub open spec fn mock_addr() -> Seq<char> {
    "http://example.com:8200/"@
}

/// The token the mock backend returns for every request.
pub open spec fn mock_token() -> Seq<char> {
    "fake_token"@
}

/// A fake backend for testing: records every call and returns a fixed
/// token.
pub struct MockVault {
    calls: Vec<VaultCall>,
}

impl View for MockVault {
    type V = Seq<CallV>;

    closed spec fn view(&self) -> Seq<CallV> {
        self.calls@.map_values(|c: VaultCall| c@)
    }
}

impl MockVault {
    /// A mock that has seen no calls.
    pub fn new() -> (r: MockVault)
        ensures
            r@ == Seq::<CallV>::empty(),
    {
        let r = MockVault { calls: Vec::new() };
        proof {
            assert(r@ =~= Seq::<CallV>::empty());
        }
        r
    }

    /// The record of the calls made so far, oldest first.
    pub fn calls(&self) -> (r: &Vec<VaultCall>)
        ensures
            r@.map_values(|c: VaultCall| c@) == self@,
    {
        &self.calls
    }

    /// The fixed address of the pretend server.
    pub fn addr(&self) -> (r: &'static str)
        ensures
            r@ == mock_addr(),
    {
        "http://example.com:8200/"
    }

    /// Records the request and hands out the fixed token.
    pub fn generate_token(&mut self, display_name: &str, policies: Vec<String>, ttl: u64) -> (r:
        Result<String, PluginError>)
        ensures
            final(self)@ == old(self)@.push(
                CallV { display_name: display_name@, policies: policies.deep_view(), ttl },
            ),
            r matches Ok(t) && t@ == mock_token(),
    {
        let ghost c0 = self.calls@;
        self.calls.push(
            VaultCall { display_name: display_name.to_owned(), policies, ttl },
        );
        proof {
            assert(self@ =~= old(self)@.push(
                CallV { display_name: display_name@, policies: policies.deep_view(), ttl },
            ));
        }
        Ok("fake_token".to_owned())
    }
}

/// Relies on hashicorp_vault's `Client::new` and `create_token`: connects
/// to the vault server at `addr` with the master credential `master` (a
/// fresh connection per call, so no long-lived connection can go stale),
/// and requests one non-renewable token with the given display name,
/// policy list and time-to-live in seconds.  The outcome depends on the
/// server, so nothing is promised of it.
#[verifier::external_body]
fn request_live_token(
    addr: &String,
    master: &String,
    display_name: &String,
    policies: Vec<String>,
    ttl: u64,
) -> Result<String, hashicorp_vault::Error> {
    let client = hashicorp_vault::Client::new(addr.as_str(), master.as_str())?;
    let opts = hashicorp_vault::client::TokenOptions::default()
        .display_name(display_name.as_str())
        .renewable(false)
        .ttl(hashicorp_vault::client::VaultDuration::seconds(ttl))
        .policies(policies);
    let auth = client.create_token(&opts)?;
    Ok(auth.client_token)
}

/// Relies on the variants of hashicorp_vault's error enum alone:
/// transport, I/O and encoding failures become `BackendUnavailable`;
/// answers from the vault server rejecting the request become
/// `AuthenticationFailed`.
#[verifier::external_body]
fn classify_backend_error(e: hashicorp_vault::Error) -> (r: PluginError)
    ensures
        r@ == PluginErrorV::BackendUnavailable || r@ == PluginErrorV::AuthenticationFailed,
{
    match e {
        hashicorp_vault::Error::Reqwest(_) => PluginError::BackendUnavailable,
        hashicorp_vault::Error::SerdeJson(_) => PluginError::BackendUnavailable,
        hashicorp_vault::Error::Vault(_) => PluginError::AuthenticationFailed,
        hashicorp_vault::Error::VaultResponse(_, _) => PluginError::AuthenticationFailed,
        hashicorp_vault::Error::Io(_) => PluginError::BackendUnavailable,
        hashicorp_vault::Error::Url(_) => PluginError::BackendUnavailable,
        hashicorp_vault::Error::Base64(_) => PluginError::BackendUnavailable,
    }
}

/// The live backend: a vault server address and the master credential the
/// plugin issues tokens with.
pub struct Vault {
    addr: String,
    token: String,
}

impl Vault {
    /// The server address.
    pub closed spec fn addr_spec(&self) -> Seq<char> {
        self.addr@
    }

    /// The master credential.
    pub closed spec fn token_spec(&self) -> Seq<char> {
        self.token@
    }

    /// Builds the live backend from the backend-address and
    /// master-credential values found in the execution environment; either
    /// missing means the backend cannot be constructed at all.
    pub fn new(addr: Option<String>, token: Option<String>) -> (r: Result<Vault, PluginError>)
        ensures
            match r {
                Ok(v) => addr matches Some(a) && token matches Some(t) && v.addr_spec() == a@
                    && v.token_spec() == t@,
                Err(e) => (addr is None || token is None) && e@ == PluginErrorV::ConfigurationMissing,
            },
    {
        match (addr, token) {
            (Some(a), Some(t)) => Ok(Vault { addr: a, token: t }),
            _ => Err(PluginError::ConfigurationMissing),
        }
    }

    /// The address tokens from this backend are used against.
    pub fn addr(&self) -> (r: &String)
        ensures
            r@ == self.addr_spec(),
    {
        &self.addr
    }

    /// Issues one token from the live server.  The server decides the
    /// outcome; a failure is either `BackendUnavailable` or
    /// `AuthenticationFailed`.
    pub fn generate_token(&self, display_name: &String, policies: Vec<String>, ttl: u64) -> (r:
        Result<String, PluginError>)
        ensures
            r matches Err(e) ==> e@ == PluginErrorV::BackendUnavailable || e@
                == PluginErrorV::AuthenticationFailed,
    {
        match request_live_token(&self.addr, &self.token, display_name, policies, ttl) {
            Ok(t) => Ok(t),
            Err(e) => Err(classify_backend_error(e)),
        }
    }
}

/// The backend handle the plugin owns: the chosen implementation is
/// injected at construction.
pub enum TokenSource {
    /// The recording mock.
    Mock(MockVault),
    /// The live backend.
    Live(Vault),
}

/// What one `generate_token` call on the backend guarantees: the mock
/// records exactly the request and returns the fixed token; the live
/// backend keeps no state and fails only with a backend error.
pub open spec fn generate_post(
    g0: TokenSource,
    g1: TokenSource,
    display_name: Seq<char>,
    policies: Seq<Seq<char>>,
    ttl: u64,
    r: Result<String, PluginError>,
) -> bool {
    match g0 {
        TokenSource::Mock(m0) => {
            &&& (g1 matches TokenSource::Mock(m1) && m1@ == m0@.push(
                (CallV { display_name, policies, ttl }),
            ))
            &&& (r matches Ok(t) && t@ == mock_token())
        },
        TokenSource::Live(_) => {
            &&& g1 == g0
            &&& (r matches Err(e) ==> e@ == PluginErrorV::BackendUnavailable || e@
                == PluginErrorV::AuthenticationFailed)
        },
    }
}

impl TokenSource {
    /// The address this backend reports.
    pub open spec fn addr_spec(&self) -> Seq<char> {
        match self {
            TokenSource::Mock(_) => mock_addr(),
            TokenSource::Live(v) => v.addr_spec(),
        }
    }

    /// A stable, informational endpoint string for the backend.
    pub fn addr(&self) -> (r: String)
        ensures
            r@ == self.addr_spec(),
    {
        match self {
            TokenSource::Mock(m) => m.addr().to_owned(),
            TokenSource::Live(v) => v.addr().clone(),
        }
    }

    /// Requests one credential scoped to `policies`, named `display_name`,
    /// valid for `ttl` seconds and explicitly non-renewable.
    pub fn generate_token(&mut self, display_name: &str, policies: Vec<String>, ttl: u64) -> (r:
        Result<String, PluginError>)
        ensures
            generate_post(*old(self), *final(self), display_name@, policies.deep_view(), ttl, r),
    {
        match self {
            TokenSource::Mock(m) => m.generate_token(display_name, policies, ttl),
            TokenSource::Live(v) => {
                let dn = display_name.to_owned();
                v.generate_token(&dn, policies, ttl)
            },
        }
    }
}

} // verus!
