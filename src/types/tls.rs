use vstd::prelude::*;
use crate::wire::{be_value, read_u16};

verus! {

/// What a ClientHello offers, as far as a packet hook reads it: the server
/// name, and the cipher suites and signature schemes as 16-bit code points.
pub struct LuaClientHello {
    pub sni: Option<String>,
    pub ciphersuites: Vec<u16>,
    pub signature_schemes: Vec<u16>,
}

/// The server name, cipher suites and signature schemes of a ClientHello, as plain values.
pub open spec fn hello_fields(h: LuaClientHello) -> (Option<Seq<char>>, Seq<u16>, Seq<u16>) {
    (
        match h.sni {
            Some(s) => Some(s@),
            None => None,
        },
        h.ciphersuites@,
        h.signature_schemes@,
    )
}

/// What rustls reads out of TLS record `record` when it holds a complete
/// ClientHello: server name, cipher suites, signature schemes.
pub uninterp spec fn client_hello_of(record: Seq<u8>) -> Option<(Option<Seq<char>>, Seq<u16>, Seq<u16>)>;

/// Relies on rustls::server::Acceptor (read_tls, then accept): it reads the
/// record and, when that record holds a complete ClientHello, hands out the
/// server name, cipher suites and signature schemes it names.
#[verifier::external_body]
fn read_client_hello(record: &[u8]) -> (r: Option<LuaClientHello>)
    ensures
        r is Some <==> client_hello_of(record@) is Some,
        r matches Some(h) ==> client_hello_of(record@) == Some(hello_fields(h)),
{
    let mut acceptor = rustls::server::Acceptor::default();
    let mut reader: &[u8] = record;
    acceptor.read_tls(&mut reader).ok()?;
    let accepted = acceptor.accept().ok()??;
    let hello = accepted.client_hello();
    Some(LuaClientHello {
        sni: hello.server_name().map(|s| s.to_string()),
        ciphersuites: hello.cipher_suites().iter().map(|c| c.get_u16()).collect(),
        signature_schemes: hello.signature_schemes().iter().map(|s| s.get_u16()).collect(),
    })
}

/// How a TLS record's version field is named (as the hook reports it).
pub open spec fn tls_version_name(version: u16) -> Seq<char> {
    if version == 0x0303 {
        "TLS 1.3"@
    } else if version == 0x0302 {
        "TLS 1.2"@
    } else if version == 0x0301 {
        "TLS 1.1"@
    } else if version == 0x0300 {
        "TLS 1.0"@
    } else if version == 0x0201 {
        "SSL 3.0"@
    } else if version == 0x0202 {
        "SSL 2.0"@
    } else {
        "Unknown"@
    }
}

/// A TLS record as a packet hook sees it.
pub struct LuaTls(pub Vec<u8>);

impl LuaTls {
    /// Long enough for a record header.
    pub open spec fn wf(&self) -> bool {
        self.0@.len() >= 5
    }

    /// The content type.
    pub fn content_type(&self) -> (r: u8)
        requires
            self.wf(),
        ensures
            r == self.0@[0],
    {
        self.0[0]
    }

    /// The version field.
    pub fn version(&self) -> (r: u16)
        requires
            self.wf(),
        ensures
            r == be_value(self.0@.subrange(1, 3)),
    {
        read_u16(&self.0, 1)
    }

    /// The name of the version field.
    pub fn version_name(&self) -> (r: &'static str)
        requires
            self.wf(),
        ensures
            r@ == tls_version_name(be_value(self.0@.subrange(1, 3)) as u16),
    {
        let v = self.version();
        if v == 0x0303 {
            "TLS 1.3"
        } else if v == 0x0302 {
            "TLS 1.2"
        } else if v == 0x0301 {
            "TLS 1.1"
        } else if v == 0x0300 {
            "TLS 1.0"
        } else if v == 0x0201 {
            "SSL 3.0"
        } else if v == 0x0202 {
            "SSL 2.0"
        } else {
            "Unknown"
        }
    }

    /// How many bytes follow the record header.
    pub fn size(&self) -> (r: usize)
        requires
            self.wf(),
        ensures
            r == self.0@.len() - 5,
    {
        self.0.len() - 5
    }

    /// The ClientHello this record holds: looked for only in handshake
    /// records (content type 0x16).
    pub fn as_client_hello(&self) -> (r: Option<LuaClientHello>)
        requires
            self.wf(),
        ensures
            self.0@[0] != 0x16 ==> r is None,
            self.0@[0] == 0x16 ==> (r is Some <==> client_hello_of(self.0@) is Some),
            r matches Some(h) ==> client_hello_of(self.0@) == Some(hello_fields(h)),
    {
        if self.0[0] == 0x16 {
            read_client_hello(&self.0)
        } else {
            None
        }
    }
}

} // verus!
