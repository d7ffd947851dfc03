use vstd::prelude::*;

verus! {

/// Protocol by which a session to a host is opened.
#[derive(Clone, Copy, Debug, PartialEq, Eq, Structural)]
pub enum HostProtocol {
    VNC,
    HTTP,
    HTTPS,
    SSH,
}

/// The label under which a protocol is persisted in the registry file.
pub open spec fn protocol_label(p: HostProtocol) -> Seq<char> {
    match p {
        HostProtocol::VNC => "VNC"@,
        HostProtocol::HTTP => "HTTP"@,
        HostProtocol::HTTPS => "HTTPS"@,
        HostProtocol::SSH => "SSH"@,
    }
}

impl HostProtocol {
    /// The persisted form of this protocol.
    pub fn label(&self) -> (r: &'static str)
        ensures
            r@ == protocol_label(*self),
    {
        match self {
            HostProtocol::VNC => "VNC",
            HostProtocol::HTTP => "HTTP",
            HostProtocol::HTTPS => "HTTPS",
            HostProtocol::SSH => "SSH",
        }
    }
}

/// Mathematical model of a host record.
#[verifier::ext_equal]
pub ghost struct HostV {
    pub id: u64,
    pub name: Seq<char>,
    pub ip: Seq<char>,
    pub protocol: HostProtocol,
    pub username: Option<Seq<char>>,
    pub password: Option<Seq<char>>,
}

/// A single remote-connection profile.
pub struct Host {
    pub id: u64,
    pub name: String,
    pub ip: String,
    pub protocol: HostProtocol,
    pub username: Option<String>,
    pub password: Option<String>,
}

pub open spec fn opt_string_view(o: Option<String>) -> Option<Seq<char>> {
    match o {
        None => None,
        Some(s) => Some(s@),
    }
}

impl View for Host {
    type V = HostV;

    open spec fn view(&self) -> HostV {
        HostV {
            id: self.id,
            name: self.name@,
            ip: self.ip@,
            protocol: self.protocol,
            username: opt_string_view(self.username),
            password: opt_string_view(self.password),
        }
    }
}

fn clone_opt_string(o: &Option<String>) -> (r: Option<String>)
    ensures
        opt_string_view(r) == opt_string_view(*o),
{
    match o {
        None => None,
        Some(s) => Some(s.clone()),
    }
}

impl Clone for Host {
    fn clone(&self) -> (r: Self)
        ensures
            r@ == self@,
    {
        Host {
            id: self.id,
            name: self.name.clone(),
            ip: self.ip.clone(),
            protocol: self.protocol,
            username: clone_opt_string(&self.username),
            password: clone_opt_string(&self.password),
        }
    }
}

/// Model of a sequence of host records.
pub open spec fn hosts_view(hs: Seq<Host>) -> Seq<HostV> {
    hs.map_values(|h: Host| h@)
}

} // verus!
