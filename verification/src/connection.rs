//! The credentials of a remote session.

use vstd::prelude::*;
use vstd::string::*;

verus! {

/// How to authenticate.
#[derive(Debug)]
pub enum AuthOption {
    /// By password: the user name, then the password.
    UserauthPassword(String, String),
    /// With the first public key found in an agent: the user name.
    UserauthAgent(String),
    /// With a private key file: the user name, the path of the public key if
    /// one is given, the path of the private key, and its passphrase if it
    /// has one.
    UserauthPubkeyFile(String, Option<String>, String, Option<String>),
}

/// Where to connect, and as whom.
#[derive(Debug)]
pub struct SshCred {
    auth: AuthOption,
    host: String,
    port: String,
}

impl SshCred {
    /// How these credentials authenticate.
    pub closed spec fn auth_option(&self) -> AuthOption {
        self.auth
    }

    /// The name of the host.
    pub closed spec fn host_name(&self) -> Seq<char> {
        self.host@
    }

    /// The port, as it was given.
    pub closed spec fn port_text(&self) -> Seq<char> {
        self.port@
    }

    /// Credentials for the given host and port.
    pub fn new(auth: AuthOption, host: String, port: String) -> (cred: SshCred)
        ensures
            cred.auth_option() == auth,
            cred.host_name() == host@,
            cred.port_text() == port@,
    {
        SshCred { auth, host, port }
    }

    /// How to authenticate.
    pub fn auth(&self) -> (r: &AuthOption)
        ensures
            *r == self.auth_option(),
    {
        &self.auth
    }

    /// The name of the host.
    pub fn host(&self) -> (r: &String)
        ensures
            r@ == self.host_name(),
    {
        &self.host
    }

    /// The port.
    pub fn port(&self) -> (r: &String)
        ensures
            r@ == self.port_text(),
    {
        &self.port
    }

    /// The address to connect to: host and port with a colon between them.
    pub fn address(&self) -> (r: String)
        ensures
            r@ == self.host_name().push(':') + self.port_text(),
    {
        let mut r = self.host.clone();
        r.push(':');
        r.append(self.port.as_str());
        r
    }
}

} // verus!
