//! Who may ask what, and where the daemon listens.

use crate::rpc::{Request, Response, RpcError};
use crate::text::{dec_string, quoted};
use vstd::prelude::*;

verus! {

use crate::text::{debug_text, dec};

/// What a listener accepts.
#[derive(Clone, Copy, Debug, PartialEq, Eq, Structural)]
pub enum SocketRole {
    /// Read requests only.
    Read,
    /// All requests; on a Unix socket from the operator alone.
    Write,
}

/// Whether a peer is admitted to the write socket, and why not.
pub open spec fn is_admission(
    r: core::result::Result<(), String>,
    uid: u32,
    operator_uid: Option<u32>,
) -> bool {
    &&& r is Ok == (operator_uid == Some(uid))
    &&& r is Err ==> r->Err_0@ == match operator_uid {
        Some(op) => "write socket is operator-only (peer uid "@ + dec(uid as nat)
            + " != operator uid "@ + dec(op as nat) + ")"@,
        None => "write socket: operator_uid not configured (failing closed)"@,
    }
}

/// Admits a peer to the write socket: the operator alone, and nobody where no operator is
/// configured.
pub fn operator_gate(uid: u32, operator_uid: Option<u32>) -> (r: core::result::Result<(), String>)
    ensures
        is_admission(r, uid, operator_uid),
{
    match operator_uid {
        Some(op) => if uid == op {
            Ok(())
        } else {
            Err(
                "write socket is operator-only (peer uid ".to_owned().concat(
                    dec_string(uid as u64).as_str(),
                ).concat(" != operator uid ").concat(dec_string(op as u64).as_str()).concat(")"),
            )
        },
        None => Err("write socket: operator_uid not configured (failing closed)".to_owned()),
    }
}

/// Admits a connection to the write socket, once its peer was looked up.
pub fn check_operator(peer: core::result::Result<u32, String>, operator_uid: Option<u32>) -> (r:
    core::result::Result<(), String>)
    ensures
        match peer {
            Ok(uid) => is_admission(r, uid, operator_uid),
            Err(e) => r is Err && r->Err_0@ == "peer credential check failed: "@ + e@,
        },
{
    match peer {
        Ok(uid) => operator_gate(uid, operator_uid),
        Err(e) => Err("peer credential check failed: ".to_owned().concat(e.as_str())),
    }
}

/// A reply that turns a connection or a request away.
pub open spec fn is_forbidden(r: Response, reason: Seq<char>) -> bool {
    r is Error && r->Error_0.code@ == "forbidden"@ && r->Error_0.msg@ == reason
}

/// The reply that turns a connection away.
pub fn forbidden(reason: String) -> (r: Response)
    ensures
        is_forbidden(r, reason@),
{
    Response::Error(RpcError { code: "forbidden".to_owned(), msg: reason })
}

/// What becomes of a request.
#[derive(Clone, Copy, Debug, PartialEq, Eq, Structural)]
pub enum Route {
    /// It is turned away.
    Refuse,
    /// The providers are polled.
    Refresh,
    /// It is answered from the tables.
    Answer,
}

/// What becomes of a request on a socket: a write request on the read socket is turned away
/// before anything else looks at it.
pub open spec fn route_of(role: SocketRole, req: Request) -> Route {
    if role == SocketRole::Read && req.writes() {
        Route::Refuse
    } else if req is ProviderRefresh {
        Route::Refresh
    } else {
        Route::Answer
    }
}

/// What becomes of a request on a socket.
pub fn route(role: SocketRole, req: &Request) -> (r: Route)
    ensures
        r == route_of(role, *req),
{
    if role == SocketRole::Read && req.is_write() {
        return Route::Refuse;
    }
    match req {
        Request::ProviderRefresh { .. } => Route::Refresh,
        _ => Route::Answer,
    }
}

/// The reply to a write request on the read socket.
pub fn write_refusal() -> (r: Response)
    ensures
        is_forbidden(r, "write verb rejected on read socket"@),
{
    forbidden("write verb rejected on read socket".to_owned())
}

/// Nothing that changes state gets past the read socket.
pub proof fn law_read_socket_never_writes(req: Request)
    ensures
        route_of(SocketRole::Read, req) != Route::Refuse ==> !req.writes(),
        req.writes() ==> route_of(SocketRole::Read, req) == Route::Refuse,
        !req.writes() ==> route_of(SocketRole::Read, req) == Route::Answer,
{
}

/// The write socket takes every request.
pub proof fn law_write_socket_takes_all(req: Request)
    ensures
        route_of(SocketRole::Write, req) != Route::Refuse,
{
}

/// The octets of an address.
#[derive(Debug)]
pub enum Octets {
    V4([u8; 4]),
    V6([u8; 16]),
}

/// Whether octets are those of a loopback address: 127.0.0.0/8, or ::1.
pub open spec fn is_loopback(ip: Octets) -> bool {
    match ip {
        Octets::V4(o) => o@[0] == 127,
        Octets::V6(o) => o@[15] == 1 && forall|i: int| 0 <= i < 15 ==> #[trigger] o@[i] == 0,
    }
}

/// An address that a host name was resolved to.
#[derive(Debug)]
pub struct Resolved {
    pub text: String,
    pub ip: Octets,
}

impl Resolved {
    /// Whether only this machine can reach the address.
    pub open spec fn local(&self) -> bool {
        is_loopback(self.ip)
    }

    pub fn is_local(&self) -> (r: bool)
        ensures
            r == self.local(),
    {
        match &self.ip {
            Octets::V4(o) => o[0] == 127,
            Octets::V6(o) => {
                let mut i: usize = 0;
                while i < 15
                    invariant
                        i <= 15,
                        self.ip == Octets::V6(*o),
                        forall|k: int| 0 <= k < i ==> #[trigger] o@[k] == 0,
                    decreases 15 - i,
                {
                    if o[i] != 0 {
                        return false;
                    }
                    i = i + 1;
                }
                o[15] == 1
            },
        }
    }
}

/// The first address that is not a loopback one, or the number of addresses.
pub open spec fn first_exposed(addrs: Seq<Resolved>) -> int
    decreases addrs.len(),
{
    if addrs.len() == 0 {
        0
    } else if !addrs[0].local() {
        0
    } else {
        1 + first_exposed(addrs.skip(1))
    }
}

proof fn lemma_first_exposed(addrs: Seq<Resolved>, k: int)
    requires
        0 <= k <= addrs.len(),
        forall|i: int| 0 <= i < k ==> (#[trigger] addrs[i]).local(),
        k < addrs.len() ==> !addrs[k].local(),
    ensures
        first_exposed(addrs) == k,
    decreases k,
{
    if k > 0 {
        let rest = addrs.skip(1);
        assert forall|i: int| 0 <= i < k - 1 implies (#[trigger] rest[i]).local() by {
            assert(rest[i] == addrs[i + 1]);
        }
        lemma_first_exposed(rest, k - 1);
    }
}

/// Accepts an address to listen on. Peers over TCP have no user to check, so every address
/// that it resolves to has to be a loopback one.
pub fn require_loopback(bind: &str, resolved: &core::result::Result<Vec<Resolved>, String>) -> (r:
    core::result::Result<(), String>)
    ensures
        match *resolved {
            Err(e) => r is Err && r->Err_0@ == "resolve tcp_bind "@ + debug_text(bind@) + ": "@
                + e@,
            Ok(addrs) => {
                let k = first_exposed(addrs@);
                if addrs@.len() == 0 {
                    r is Err && r->Err_0@ == "tcp_bind "@ + debug_text(bind@)
                        + " resolved to no addresses"@
                } else if k < addrs@.len() {
                    r is Err && r->Err_0@ == "tcp_bind "@ + debug_text(bind@)
                        + " resolves to non-loopback "@ + addrs@[k].text@
                        + ": the TCP listener has no peer-UID auth and must bind loopback only (remote access is mesh SSH; never expose 7732)"@
                } else {
                    r is Ok
                }
            },
        },
        r is Ok ==> resolved is Ok && forall|i: int|
            0 <= i < resolved->Ok_0@.len() ==> (#[trigger] resolved->Ok_0@[i]).local(),
{
    let addrs: &Vec<Resolved> = match resolved {
        Ok(v) => v,
        Err(e) => {
            return Err(
                "resolve tcp_bind ".to_owned().concat(quoted(bind).as_str()).concat(": ").concat(
                    e.as_str(),
                ),
            );
        },
    };
    if addrs.len() == 0 {
        return Err(
            "tcp_bind ".to_owned().concat(quoted(bind).as_str()).concat(
                " resolved to no addresses",
            ),
        );
    }
    let mut i: usize = 0;
    while i < addrs.len()
        invariant
            i <= addrs.len(),
            resolved is Ok,
            resolved->Ok_0@ == addrs@,
            addrs@.len() > 0,
            forall|k: int| 0 <= k < i ==> (#[trigger] addrs@[k]).local(),
        decreases addrs.len() - i,
    {
        if !addrs[i].is_local() {
            proof {
                lemma_first_exposed(addrs@, i as int);
            }
            return Err(
                "tcp_bind ".to_owned().concat(quoted(bind).as_str()).concat(
                    " resolves to non-loopback ",
                ).concat(addrs[i].text.as_str()).concat(
                    ": the TCP listener has no peer-UID auth and must bind loopback only (remote access is mesh SSH; never expose 7732)",
                ),
            );
        }
        i = i + 1;
    }
    proof {
        lemma_first_exposed(addrs@, i as int);
    }
    Ok(())
}

/// A path that the daemon keeps access to.
#[derive(Debug)]
pub struct Unveil {
    pub path: String,
    /// Whether it may be written and created, beside being read.
    pub writable: bool,
}

/// The paths that the daemon works with.
#[derive(Debug)]
pub struct SandboxPaths {
    pub db_path: String,
    pub db_parent: Option<String>,
    pub log_parent: Option<String>,
    pub read_socket_parent: Option<String>,
    pub write_socket_parent: Option<String>,
    pub reports_dir: String,
    pub ics_dir: String,
}

/// The system calls that the daemon keeps. There is none to start a process.
pub const PROMISES: &'static str = "stdio rpath wpath cpath flock fattr inet unix dns";

/// The paths and whether they may be written.
pub open spec fn entries(us: Seq<Unveil>) -> Seq<(Seq<char>, bool)> {
    us.map_values(|u: Unveil| (u.path@, u.writable))
}

/// A plan with one more directory, where there is one.
pub open spec fn plus_dir(plan: Seq<(Seq<char>, bool)>, dir: Option<String>) -> Seq<
    (Seq<char>, bool),
> {
    match dir {
        Some(d) => plan.push((d@, true)),
        None => plan,
    }
}

/// The paths that access is kept to, in order: the database, the directories of the
/// database, the log and the sockets, the two output directories, the configuration, and
/// scratch space. Only the configuration may not be written.
pub open spec fn unveiled(p: SandboxPaths) -> Seq<(Seq<char>, bool)> {
    let a = plus_dir(seq![(p.db_path@, true)], p.db_parent);
    let b = plus_dir(plus_dir(a, p.log_parent), p.read_socket_parent);
    plus_dir(b, p.write_socket_parent).push((p.reports_dir@, true)).push((p.ics_dir@, true)).push(
        ("/etc/arca"@, false),
    ).push(("/tmp"@, true))
}

fn keep(out: &mut Vec<Unveil>, path: &str, writable: bool)
    ensures
        entries(final(out)@) == entries(old(out)@).push((path@, writable)),
{
    out.push(Unveil { path: path.to_owned(), writable });
    assert(entries(out@) =~= entries(old(out)@).push((path@, writable)));
}

fn keep_dir(out: &mut Vec<Unveil>, dir: &Option<String>)
    ensures
        entries(final(out)@) == plus_dir(entries(old(out)@), *dir),
{
    match dir {
        Some(d) => keep(out, d.as_str(), true),
        None => {},
    }
}

/// The paths that the daemon keeps access to, in order.
pub fn unveil_plan(p: &SandboxPaths) -> (r: Vec<Unveil>)
    ensures
        entries(r@) == unveiled(*p),
{
    let mut out: Vec<Unveil> = Vec::new();
    keep(&mut out, p.db_path.as_str(), true);
    assert(entries(out@) =~= seq![(p.db_path@, true)]);
    keep_dir(&mut out, &p.db_parent);
    keep_dir(&mut out, &p.log_parent);
    keep_dir(&mut out, &p.read_socket_parent);
    keep_dir(&mut out, &p.write_socket_parent);
    keep(&mut out, p.reports_dir.as_str(), true);
    keep(&mut out, p.ics_dir.as_str(), true);
    keep(&mut out, "/etc/arca", false);
    keep(&mut out, "/tmp", true);
    out
}

} // verus!
