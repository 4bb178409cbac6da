//! Per-session configuration: hostname, server name, the maximum number of
//! bytes accepted per command line and per message body, and the ESMTP
//! capabilities the server advertises in its EHLO reply.

use vstd::prelude::*;
use vstd::string::StrSliceExecFns;
use vstd::string::StringExecFns;

use crate::text::{spec_udec, usize_to_string};

verus! {

/// An ESMTP extension advertised in the EHLO multi-line response.
#[derive(Clone, Copy, PartialEq, Eq, Structural, Hash, Debug)]
pub enum Capability {
    /// Message size declaration: the client may learn how large a message
    /// this server accepts.
    Size,
    /// In-band upgrade of the plaintext connection to TLS.
    StartTls,
    /// UTF-8 in mailbox names and header fields.
    SmtpUtf8,
}

/// Immutable per-session parameters. A session never mutates its
/// configuration; connections share it by cloning.
#[derive(Clone)]
pub struct Config {
    pub max_receive_length: usize,
    pub hostname: String,
    pub mail_server_name: String,
    pub capabilities: Vec<Capability>,
}

/// `c` occurs in `caps`.
pub open spec fn spec_has_capability(caps: Seq<Capability>, c: Capability) -> bool {
    exists|i: int| 0 <= i < caps.len() && caps[i] == c
}

impl Config {
    /// Whether the configuration advertises `capability`.
    pub fn has_capability(&self, capability: &Capability) -> (r: bool)
        ensures
            r == spec_has_capability(self.capabilities@, *capability),
    {
        let n: usize = self.capabilities.len();
        let mut i: usize = 0;
        while i < n
            invariant
                0 <= i <= n,
                n == self.capabilities@.len(),
                forall|k: int| 0 <= k < i ==> self.capabilities@[k] != *capability,
            decreases n - i,
        {
            if self.capabilities[i] == *capability {
                return true;
            }
            i += 1;
        }
        false
    }
}

/// The tag line a capability contributes to the EHLO reply.
pub open spec fn spec_capability_tag(c: Capability, max: nat) -> Seq<char> {
    match c {
        Capability::Size => "SIZE "@ + spec_udec(max),
        Capability::StartTls => "STARTTLS"@,
        Capability::SmtpUtf8 => "SMTPUTF8"@,
    }
}

impl Capability {
    /// Render the tag line this capability contributes to the EHLO reply;
    /// the size capability carries the configured maximum receive length.
    pub fn to_tag(&self, config: &Config) -> (r: String)
        ensures
            r@ == spec_capability_tag(*self, config.max_receive_length as nat),
    {
        match self {
            Capability::Size => {
                let n: String = usize_to_string(config.max_receive_length);
                let s: String = String::from_str("SIZE ");
                s.concat(n.as_str())
            },
            Capability::StartTls => "STARTTLS".to_owned(),
            Capability::SmtpUtf8 => "SMTPUTF8".to_owned(),
        }
    }
}

/// Builds an immutable [`Config`]. Capabilities are explicit: setting a
/// maximum size advertises `SIZE`, enabling the TLS upgrade advertises
/// `STARTTLS`; the TLS acceptor itself lives with the I/O layer that
/// performs the handshake.
pub struct Builder(pub Config);

impl Default for Builder {
    fn default() -> (r: Self)
        ensures
            r.0.max_receive_length == usize::MAX,
            r.0.hostname@ == "smtp.example.com"@,
            r.0.mail_server_name@ == "Rusty SMTP server"@,
            r.0.capabilities@ == Seq::<Capability>::empty(),
    {
        Builder(
            Config {
                max_receive_length: usize::MAX,
                hostname: "smtp.example.com".to_owned(),
                mail_server_name: "Rusty SMTP server".to_owned(),
                capabilities: Vec::new(),
            },
        )
    }
}

impl Builder {
    /// Set the hostname used in the greeting and the EHLO reply.
    pub fn with_hostname(self, hostname: String) -> (r: Self)
        ensures
            r.0.hostname == hostname,
            r.0.max_receive_length == self.0.max_receive_length,
            r.0.mail_server_name == self.0.mail_server_name,
            r.0.capabilities == self.0.capabilities,
    {
        let Builder(mut config) = self;
        config.hostname = hostname;
        Builder(config)
    }

    /// Set the server name used in the greeting.
    pub fn with_server_name(self, mail_server_name: String) -> (r: Self)
        ensures
            r.0.mail_server_name == mail_server_name,
            r.0.max_receive_length == self.0.max_receive_length,
            r.0.hostname == self.0.hostname,
            r.0.capabilities == self.0.capabilities,
    {
        let Builder(mut config) = self;
        config.mail_server_name = mail_server_name;
        Builder(config)
    }

    /// Bound both the per-command line length and the total body length,
    /// and advertise the bound through the `SIZE` capability.
    pub fn with_max_size(self, max_size: usize) -> (r: Self)
        ensures
            r.0.max_receive_length == max_size,
            r.0.hostname == self.0.hostname,
            r.0.mail_server_name == self.0.mail_server_name,
            r.0.capabilities@ == self.0.capabilities@.push(Capability::Size),
    {
        let Builder(mut config) = self;
        config.max_receive_length = max_size;
        config.capabilities.push(Capability::Size);
        Builder(config)
    }

    /// Advertise the `STARTTLS` capability. The caller is responsible for
    /// pairing the configuration with a TLS acceptor that can perform the
    /// upgrade handshake.
    pub fn with_starttls(self) -> (r: Self)
        ensures
            r.0.max_receive_length == self.0.max_receive_length,
            r.0.hostname == self.0.hostname,
            r.0.mail_server_name == self.0.mail_server_name,
            r.0.capabilities@ == self.0.capabilities@.push(Capability::StartTls),
    {
        let Builder(mut config) = self;
        config.capabilities.push(Capability::StartTls);
        Builder(config)
    }

    /// The finished configuration.
    pub fn build(self) -> (r: Config)
        ensures
            r == self.0,
    {
        self.0
    }
}

} // verus!
