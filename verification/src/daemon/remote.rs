//! Remote clients: where the daemon may listen, and who is let in.

use vstd::prelude::*;

use crate::proto::auth;
use crate::text::opt_str;

verus! {

/// An IP address.
#[derive(Debug, Clone, Copy, PartialEq, Eq)]
pub enum Ip {
    V4([u8; 4]),
    V6([u8; 16]),
}

/// The address is of this machine: `127.0.0.0/8`, or `::1`.
pub open spec fn is_loopback(ip: Ip) -> bool {
    match ip {
        Ip::V4(o) => o[0] == 127,
        Ip::V6(o) => o[15] == 1 && forall|i: int| 0 <= i < 15 ==> #[trigger] o[i] == 0,
    }
}

/// The address is of a tailnet: `100.64.0.0/10`, or `fd7a:115c:a1e0::/48`.
pub open spec fn is_tailnet(ip: Ip) -> bool {
    match ip {
        Ip::V4(o) => o[0] == 100 && 64 <= o[1] <= 127,
        Ip::V6(o) => o[0] == 0xfd && o[1] == 0x7a && o[2] == 0x11 && o[3] == 0x5c && o[4] == 0xa1 && o[5]
            == 0xe0,
    }
}

/// Whether to warn of listening there: others than this machine and its tailnet can connect.
pub fn should_warn_exposed(ip: &Ip) -> (warn: bool)
    ensures
        warn == !(is_loopback(*ip) || is_tailnet(*ip)),
{
    match ip {
        Ip::V4(o) => !(o[0] == 127 || (o[0] == 100 && 64 <= o[1] && o[1] <= 127)),
        Ip::V6(o) => {
            let tailnet = o[0] == 0xfd && o[1] == 0x7a && o[2] == 0x11 && o[3] == 0x5c && o[4] == 0xa1
                && o[5] == 0xe0;
            let mut zeros = true;
            let mut i: usize = 0;
            while i < 15
                invariant
                    i <= 15,
                    zeros == forall|k: int| 0 <= k < i ==> #[trigger] o[k] == 0,
                decreases 15 - i,
            {
                if o[i] != 0 {
                    zeros = false;
                }
                i = i + 1;
            }
            !((zeros && o[15] == 1) || tailnet)
        },
    }
}

/// What the daemon logs of the address where it listens.
#[derive(Debug, Clone, Copy, PartialEq, Eq, Structural)]
pub enum Exposure {
    /// Nothing: it is reached from this machine or its tailnet alone.
    Closed,
    /// It is open, and protected.
    Protected,
    /// It is open, and anyone may use it.
    Open,
}

/// How open the daemon is where it listens.
pub open spec fn exposure_of(ip: Ip, tls: bool) -> Exposure {
    if is_loopback(ip) || is_tailnet(ip) {
        Exposure::Closed
    } else if tls {
        Exposure::Protected
    } else {
        Exposure::Open
    }
}

/// What the daemon logs of the address where it listens.
pub fn exposure(ip: &Ip, tls: bool) -> (e: Exposure)
    ensures
        e == exposure_of(*ip, tls),
{
    if !should_warn_exposed(ip) {
        Exposure::Closed
    } else if tls {
        Exposure::Protected
    } else {
        Exposure::Open
    }
}

/// A remote client is let in where the daemon asks for no token, or the client shows the one that it asks
/// for.
pub open spec fn is_let_in(expected: Option<Seq<char>>, shown: Option<Seq<char>>) -> bool {
    match expected {
        None => true,
        Some(e) => shown == Some(e),
    }
}

/// Whether a remote client is let in.
pub open spec fn is_authorized(
    expected: Option<Seq<char>>,
    shown: Option<Seq<char>>,
    r: Result<(), String>,
) -> bool {
    match r {
        Ok(_) => is_let_in(expected, shown),
        Err(e) => {
            &&& !is_let_in(expected, shown)
            &&& e@ == "remote auth failed (bad or missing token)"@
        },
    }
}

/// Let a remote client in, or refuse it.
pub fn authorize(expected: Option<&str>, shown: Option<&str>) -> (r: Result<(), String>)
    ensures
        is_authorized(opt_str(expected), opt_str(shown), r),
{
    match expected {
        None => Ok(()),
        Some(e) => {
            let same = match shown {
                Some(t) => {
                    proof {
                        vstd::utf8::encode_utf8_decode_utf8(e@);
                        vstd::utf8::encode_utf8_decode_utf8(t@);
                    }
                    auth::constant_time_eq(t.as_bytes(), e.as_bytes())
                },
                None => false,
            };
            if same {
                Ok(())
            } else {
                Err("remote auth failed (bad or missing token)".to_owned())
            }
        },
    }
}

/// A daemon that asks for a token lets no one in without it.
pub proof fn law_no_one_is_let_in_without_the_token(expected: Seq<char>, shown: Option<Seq<char>>)
    ensures
        is_let_in(Some(expected), shown) <==> shown == Some(expected),
        !is_let_in(Some(expected), None),
{
}

/// A daemon that asks for no token lets everyone in.
pub proof fn law_without_a_token_everyone_is_let_in(shown: Option<Seq<char>>)
    ensures
        is_let_in(None, shown),
{
}

/// A daemon is closed to others exactly where it listens at `127.x.x.x`, from `100.64.x.x` to `100.127.x.x`,
/// at `::1` or under `fd7a:115c:a1e0`; anywhere else it is open, and protected only by TLS.
pub proof fn law_where_a_daemon_is_open(v4: [u8; 4], v6: [u8; 16], tls: bool)
    ensures
        exposure_of(Ip::V4(v4), tls) == Exposure::Closed <==> v4[0] == 127 || (v4[0] == 100 && v4[1] / 64
            == 1),
        exposure_of(Ip::V6(v6), tls) == Exposure::Closed <==> (v6[15] == 1 && forall|i: int|
            0 <= i < 15 ==> #[trigger] v6[i] == 0) || v6@.take(6) == seq![
            0xfdu8,
            0x7au8,
            0x11u8,
            0x5cu8,
            0xa1u8,
            0xe0u8,
        ],
        exposure_of(Ip::V4(v4), tls) == Exposure::Open ==> !tls,
        exposure_of(Ip::V4(v4), tls) == Exposure::Protected ==> tls,
        exposure_of(Ip::V6(v6), tls) == Exposure::Open ==> !tls,
        exposure_of(Ip::V6(v6), tls) == Exposure::Protected ==> tls,
{
    let known = seq![0xfdu8, 0x7au8, 0x11u8, 0x5cu8, 0xa1u8, 0xe0u8];
    let head = v6@.take(6);
    if is_tailnet(Ip::V6(v6)) {
        assert(head =~= known);
    }
    if head == known {
        assert(head[0] == 0xfd && head[1] == 0x7a && head[2] == 0x11 && head[3] == 0x5c && head[4] == 0xa1
            && head[5] == 0xe0);
    }
}

/// Who shows the token that is asked for is let in, and who shows none or another is not; where none is
/// asked for, everyone is.
pub proof fn law_who_is_let_in(expected: Option<Seq<char>>, shown: Option<Seq<char>>, r: Result<(), String>)
    requires
        is_authorized(expected, shown, r),
    ensures
        expected is None ==> r is Ok,
        expected is Some && shown is None ==> r is Err,
        expected is Some && shown is Some ==> (r is Ok <==> expected->0 == shown->0),
{
}

} // verus!
