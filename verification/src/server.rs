//! Connection profiles and the argument vectors handed to the external
//! client programs (`ssh`, `mosh`, `sftp`, `ssh-copy-id`).

use vstd::prelude::*;
use vstd::string::StringExecFns;

verus! {

/// Mathematical view of a connection profile: each field as a character
/// sequence.
pub ghost struct ServerV {
    pub name: Seq<char>,
    pub user: Seq<char>,
    pub host: Seq<char>,
    pub port: Seq<char>,
    pub jump_host: Seq<char>,
}

/// One saved connection target. `name` and `host` are never empty once a
/// profile has entered the store; `user` and `port` receive the defaults
/// `root` / `22` at commit time; `jump_host` may be empty.
pub struct Server {
    pub name: String,
    pub user: String,
    pub host: String,
    pub port: String,
    pub jump_host: String,
}

impl View for Server {
    type V = ServerV;

    open spec fn view(&self) -> ServerV {
        ServerV {
            name: self.name@,
            user: self.user@,
            host: self.host@,
            port: self.port@,
            jump_host: self.jump_host@,
        }
    }
}

/// A stored profile always carries a non-empty display name and host.
pub open spec fn server_valid(v: ServerV) -> bool {
    &&& v.name.len() > 0
    &&& v.host.len() > 0
}

/// The sequence of views of a vector of profiles.
pub open spec fn views(l: Seq<Server>) -> Seq<ServerV> {
    l.map_values(|s: Server| s@)
}

/// The sequence of views of a vector of strings.
pub open spec fn strs(l: Seq<String>) -> Seq<Seq<char>> {
    l.map_values(|s: String| s@)
}

/// `user@host`, the login address handed to every client program.
pub open spec fn address_of(v: ServerV) -> Seq<char> {
    v.user + "@"@ + v.host
}

/// `user@host:port`, the identity key used by recency tracking. Two
/// profiles with equal keys denote the same remote endpoint even when
/// their display names differ.
pub open spec fn key_of(v: ServerV) -> Seq<char> {
    v.user + "@"@ + v.host + ":"@ + v.port
}

/// Argument vector for the secure-shell client: an optional relay flag,
/// the address, then an optional port flag (lowercase `-p`).
pub open spec fn ssh_args_of(v: ServerV) -> Seq<Seq<char>> {
    let relay: Seq<Seq<char>> = if v.jump_host.len() > 0 {
        seq!["-J"@, v.jump_host]
    } else {
        seq![]
    };
    let port: Seq<Seq<char>> = if v.port.len() > 0 {
        seq!["-p"@, v.port]
    } else {
        seq![]
    };
    relay + seq![address_of(v)] + port
}

/// The inner option string a mobile-shell invocation forwards to its
/// underlying secure-shell transport: `-p <port>` and `-J <jump_host>`,
/// space-joined, each present only when non-empty.
pub open spec fn mosh_opts_of(v: ServerV) -> Seq<char> {
    if v.port.len() > 0 && v.jump_host.len() > 0 {
        "-p "@ + v.port + " -J "@ + v.jump_host
    } else if v.port.len() > 0 {
        "-p "@ + v.port
    } else if v.jump_host.len() > 0 {
        "-J "@ + v.jump_host
    } else {
        Seq::empty()
    }
}

/// Argument vector for the mobile-shell client: when any transport option
/// is present it rides in a single `--ssh "ssh <opts>"` pair, then the
/// address.
pub open spec fn mosh_args_of(v: ServerV) -> Seq<Seq<char>> {
    if mosh_opts_of(v).len() > 0 {
        seq!["--ssh"@, "ssh "@ + mosh_opts_of(v), address_of(v)]
    } else {
        seq![address_of(v)]
    }
}

/// Argument vector for the file-transfer client: optional relay flag,
/// optional port flag (capital `-P`, this client's distinct spelling),
/// then the address.
pub open spec fn sftp_args_of(v: ServerV) -> Seq<Seq<char>> {
    let relay: Seq<Seq<char>> = if v.jump_host.len() > 0 {
        seq!["-J"@, v.jump_host]
    } else {
        seq![]
    };
    let port: Seq<Seq<char>> = if v.port.len() > 0 {
        seq!["-P"@, v.port]
    } else {
        seq![]
    };
    relay + port + seq![address_of(v)]
}

/// Argument vector for the key-copy client: optional `-o ProxyJump=<relay>`
/// pair, optional port flag (lowercase `-p`), then the address.
pub open spec fn copy_id_args_of(v: ServerV) -> Seq<Seq<char>> {
    let relay: Seq<Seq<char>> = if v.jump_host.len() > 0 {
        seq!["-o"@, "ProxyJump="@ + v.jump_host]
    } else {
        seq![]
    };
    let port: Seq<Seq<char>> = if v.port.len() > 0 {
        seq!["-p"@, v.port]
    } else {
        seq![]
    };
    relay + port + seq![address_of(v)]
}

impl Server {
    /// The login address `user@host`.
    pub fn address(&self) -> (r: String)
        ensures
            r@ == address_of(self@),
    {
        let mut r = self.user.clone();
        r.append("@");
        r.append(self.host.as_str());
        r
    }

    /// The identity key `user@host:port` used for recency tracking.
    pub fn identity_key(&self) -> (r: String)
        ensures
            r@ == key_of(self@),
    {
        let mut r = self.address();
        r.append(":");
        r.append(self.port.as_str());
        r
    }

    /// Arguments for launching the secure-shell client at this profile.
    pub fn to_ssh_args(&self) -> (r: Vec<String>)
        ensures
            strs(r@) == ssh_args_of(self@),
    {
        let mut args: Vec<String> = Vec::new();
        if !self.jump_host.as_str().is_empty() {
            args.push(String::from_str("-J"));
            args.push(self.jump_host.clone());
        }
        args.push(self.address());
        if !self.port.as_str().is_empty() {
            args.push(String::from_str("-p"));
            args.push(self.port.clone());
        }
        proof {
            assert(strs(args@) =~~= ssh_args_of(self@));
        }
        args
    }

    /// Arguments for launching the mobile-shell client at this profile.
    pub fn to_mosh_args(&self) -> (r: Vec<String>)
        ensures
            strs(r@) == mosh_args_of(self@),
    {
        let mut args: Vec<String> = Vec::new();
        let has_port = !self.port.as_str().is_empty();
        let has_jump = !self.jump_host.as_str().is_empty();
        if has_port || has_jump {
            let mut inner = String::from_str("ssh ");
            if has_port {
                inner.append("-p ");
                inner.append(self.port.as_str());
                if has_jump {
                    inner.append(" -J ");
                    inner.append(self.jump_host.as_str());
                }
            } else {
                inner.append("-J ");
                inner.append(self.jump_host.as_str());
            }
            proof {
                assert("ssh "@ + "-p "@ + self.port@ + " -J "@ + self.jump_host@
                    =~= "ssh "@ + ("-p "@ + self.port@ + " -J "@ + self.jump_host@));
                assert("ssh "@ + "-p "@ + self.port@ =~= "ssh "@ + ("-p "@ + self.port@));
                assert("ssh "@ + "-J "@ + self.jump_host@ =~= "ssh "@ + ("-J "@
                    + self.jump_host@));
            }
            args.push(String::from_str("--ssh"));
            args.push(inner);
        }
        args.push(self.address());
        proof {
            assert(strs(args@) =~~= mosh_args_of(self@));
        }
        args
    }

    /// Arguments for launching the file-transfer client at this profile.
    pub fn to_sftp_args(&self) -> (r: Vec<String>)
        ensures
            strs(r@) == sftp_args_of(self@),
    {
        let mut args: Vec<String> = Vec::new();
        if !self.jump_host.as_str().is_empty() {
            args.push(String::from_str("-J"));
            args.push(self.jump_host.clone());
        }
        if !self.port.as_str().is_empty() {
            args.push(String::from_str("-P"));
            args.push(self.port.clone());
        }
        args.push(self.address());
        proof {
            assert(strs(args@) =~~= sftp_args_of(self@));
        }
        args
    }

    /// Arguments for launching the key-copy client at this profile.
    pub fn to_copy_id_args(&self) -> (r: Vec<String>)
        ensures
            strs(r@) == copy_id_args_of(self@),
    {
        let mut args: Vec<String> = Vec::new();
        if !self.jump_host.as_str().is_empty() {
            args.push(String::from_str("-o"));
            let mut relay = String::from_str("ProxyJump=");
            relay.append(self.jump_host.as_str());
            args.push(relay);
        }
        if !self.port.as_str().is_empty() {
            args.push(String::from_str("-p"));
            args.push(self.port.clone());
        }
        args.push(self.address());
        proof {
            assert(strs(args@) =~~= copy_id_args_of(self@));
        }
        args
    }
}

} // verus!
