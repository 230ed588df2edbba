//! The addresses announced at startup: the local URL, the network URL and
//! its QR code.

use vstd::prelude::*;
use crate::text::{decimal, decimal_text, hex_lower, push_char, push_hex, push_str};

verus! {

/// An IP address.
#[derive(PartialEq, Eq, Clone, Copy, Debug)]
pub enum IpAddress {
    /// Four octets, most significant first.
    V4([u8; 4]),
    /// Eight 16-bit segments, most significant first.
    V6([u16; 8]),
}

pub open spec fn spec_is_loopback(ip: IpAddress) -> bool {
    match ip {
        IpAddress::V4(o) => o@[0] == 127,
        IpAddress::V6(s) => s@ == seq![0u16, 0, 0, 0, 0, 0, 0, 1],
    }
}

pub open spec fn spec_is_unspecified(ip: IpAddress) -> bool {
    match ip {
        IpAddress::V4(o) => o@ == seq![0u8, 0, 0, 0],
        IpAddress::V6(s) => s@ == seq![0u16, 0, 0, 0, 0, 0, 0, 0],
    }
}

impl IpAddress {
    /// Whether this is a loopback address: `127.0.0.0/8` or `::1`.
    pub fn is_loopback(&self) -> (res: bool)
        ensures
            res == spec_is_loopback(*self),
    {
        match self {
            IpAddress::V4(o) => o[0] == 127,
            IpAddress::V6(s) => {
                let res = s[0] == 0 && s[1] == 0 && s[2] == 0 && s[3] == 0 && s[4] == 0 && s[5] == 0
                    && s[6] == 0 && s[7] == 1;
                assert(res ==> s@ =~= seq![0u16, 0, 0, 0, 0, 0, 0, 1]);
                res
            },
        }
    }

    /// Whether this is the unspecified address: `0.0.0.0` or `::`.
    pub fn is_unspecified(&self) -> (res: bool)
        ensures
            res == spec_is_unspecified(*self),
    {
        match self {
            IpAddress::V4(o) => {
                let res = o[0] == 0 && o[1] == 0 && o[2] == 0 && o[3] == 0;
                assert(res ==> o@ =~= seq![0u8, 0, 0, 0]);
                res
            },
            IpAddress::V6(s) => {
                let res = s[0] == 0 && s[1] == 0 && s[2] == 0 && s[3] == 0 && s[4] == 0 && s[5] == 0
                    && s[6] == 0 && s[7] == 0;
                assert(res ==> s@ =~= seq![0u16, 0, 0, 0, 0, 0, 0, 0]);
                res
            },
        }
    }

    /// Whether this is an IPv4 address.
    pub fn is_ipv4(&self) -> (res: bool)
        ensures
            res == (*self is V4),
    {
        match self {
            IpAddress::V4(_) => true,
            IpAddress::V6(_) => false,
        }
    }
}

/// The address to reach the server from this machine: the loopback address
/// of the same family when bound to the unspecified address.
pub open spec fn spec_loopback_for(bound: IpAddress) -> IpAddress {
    if spec_is_unspecified(bound) {
        match bound {
            IpAddress::V4(_) => IpAddress::V4([127u8, 0, 0, 1]),
            IpAddress::V6(_) => IpAddress::V6([0u16, 0, 0, 0, 0, 0, 0, 1]),
        }
    } else {
        bound
    }
}

/// The address to browse to from this machine.
pub fn loopback_for(bound: IpAddress) -> (res: IpAddress)
    ensures
        res == spec_loopback_for(bound),
{
    if bound.is_unspecified() {
        match bound {
            IpAddress::V4(_) => IpAddress::V4([127u8, 0, 0, 1]),
            IpAddress::V6(_) => IpAddress::V6([0u16, 0, 0, 0, 0, 0, 0, 1]),
        }
    } else {
        bound
    }
}

/// The address other devices can use, if any: none for a loopback bind, the
/// bound address itself for a specific bind, and for the unspecified address
/// the discovered LAN address, if it is not loopback and of the same family.
pub open spec fn spec_network_ip(bound: IpAddress, discovered: Option<IpAddress>) -> Option<IpAddress> {
    if spec_is_loopback(bound) {
        None
    } else if !spec_is_unspecified(bound) {
        Some(bound)
    } else {
        match discovered {
            Some(ip) => if !spec_is_loopback(ip) && ((ip is V4) == (bound is V4)) {
                Some(ip)
            } else {
                None
            },
            None => None,
        }
    }
}

/// The advertised network address is never a loopback address, and a
/// loopback bind advertises none.
pub proof fn lemma_network_ip_not_loopback(bound: IpAddress, discovered: Option<IpAddress>)
    ensures
        spec_network_ip(bound, discovered) matches Some(ip) ==> !spec_is_loopback(ip),
        spec_is_loopback(bound) ==> spec_network_ip(bound, discovered) is None,
{
}

/// Advertises only addresses that are reachable through the bind.
pub fn network_ip(bound: IpAddress, discovered: Option<IpAddress>) -> (res: Option<IpAddress>)
    ensures
        res == spec_network_ip(bound, discovered),
{
    if bound.is_loopback() {
        return None;
    }
    if !bound.is_unspecified() {
        return Some(bound);
    }
    match discovered {
        Some(ip) => if !ip.is_loopback() && ip.is_ipv4() == bound.is_ipv4() {
            Some(ip)
        } else {
            None
        },
        None => None,
    }
}

} // verus!

verus! {

/// Dotted-decimal text of an IPv4 address.
pub open spec fn ipv4_text(o: Seq<u8>) -> Seq<char> {
    decimal(o[0] as nat) + seq!['.'] + decimal(o[1] as nat) + seq!['.'] + decimal(o[2] as nat)
        + seq!['.'] + decimal(o[3] as nat)
}

/// Segments in lower-case hex, separated by `:`.
pub open spec fn hex_join(s: Seq<u16>) -> Seq<char>
    decreases s.len(),
{
    if s.len() == 0 {
        seq![]
    } else if s.len() == 1 {
        hex_lower(s[0] as nat)
    } else {
        hex_join(s.drop_last()) + seq![':'] + hex_lower(s.last() as nat)
    }
}

/// `s[start..start + len]` are all zero.
pub open spec fn is_zero_run(s: Seq<u16>, start: int, len: int) -> bool {
    &&& 0 <= start
    &&& 0 <= len
    &&& start + len <= s.len()
    &&& forall|k: int| start <= k < start + len ==> s[k] == 0
}

/// The first of the longest runs of zero segments (`(0, 0)` when none).
pub open spec fn is_first_longest_run(s: Seq<u16>, start: int, len: int) -> bool {
    &&& is_zero_run(s, start, len)
    &&& forall|st: int, l: int| is_zero_run(s, st, l) ==> l <= len
    &&& forall|st: int| is_zero_run(s, st, len) ==> start <= st
}

pub open spec fn longest_zero_run(s: Seq<u16>) -> (int, int) {
    choose|r: (int, int)| is_first_longest_run(s, r.0, r.1)
}

/// An IPv4-mapped address, `::ffff:a.b.c.d`.
pub open spec fn is_ipv4_mapped(s: Seq<u16>) -> bool {
    s[0] == 0 && s[1] == 0 && s[2] == 0 && s[3] == 0 && s[4] == 0 && s[5] == 0xffff
}

/// The text of an IPv6 address: IPv4-mapped addresses as `::ffff:` and the
/// IPv4 text; otherwise segments in lower-case hex, with the first longest
/// run of two or more zero segments written `::`.
pub open spec fn ipv6_text(s: Seq<u16>) -> Seq<char> {
    if is_ipv4_mapped(s) {
        seq![':', ':', 'f', 'f', 'f', 'f', ':'] + ipv4_text(
            seq![(s[6] / 256) as u8, (s[6] % 256) as u8, (s[7] / 256) as u8, (s[7] % 256) as u8],
        )
    } else {
        let run = longest_zero_run(s);
        if run.1 > 1 {
            hex_join(s.take(run.0)) + seq![':', ':'] + hex_join(s.skip(run.0 + run.1))
        } else {
            hex_join(s)
        }
    }
}

/// The URL of the server at `ip` and `port`.
pub open spec fn spec_url(ip: IpAddress, port: u16) -> Seq<char> {
    match ip {
        IpAddress::V4(o) => seq!['h', 't', 't', 'p', ':', '/', '/'] + ipv4_text(o@) + seq![':']
            + decimal(port as nat),
        IpAddress::V6(s) => seq!['h', 't', 't', 'p', ':', '/', '/', '['] + ipv6_text(s@) + seq![
            ']',
            ':',
        ] + decimal(port as nat),
    }
}

proof fn lemma_first_longest_unique(s: Seq<u16>, a: int, l: int, b: int, m: int)
    requires
        is_first_longest_run(s, a, l),
        is_first_longest_run(s, b, m),
    ensures
        a == b && l == m,
{
}

fn push_ipv4(out: &mut String, o: [u8; 4])
    ensures
        final(out)@ == old(out)@ + ipv4_text(o@),
{
    let a = decimal_text(o[0] as u128);
    push_str(out, a.as_str());
    push_char(out, '.');
    let b = decimal_text(o[1] as u128);
    push_str(out, b.as_str());
    push_char(out, '.');
    let c = decimal_text(o[2] as u128);
    push_str(out, c.as_str());
    push_char(out, '.');
    let d = decimal_text(o[3] as u128);
    push_str(out, d.as_str());
}

/// Appends `s[from..to]` in hex, separated by `:`.
fn push_hex_join(out: &mut String, s: &[u16; 8], from: usize, to: usize)
    requires
        from <= to <= 8,
    ensures
        final(out)@ == old(out)@ + hex_join(s@.subrange(from as int, to as int)),
{
    let ghost start = out@;
    let mut i = from;
    while i < to
        invariant
            from <= i <= to <= 8,
            s@.len() == 8,
            out@ == start + hex_join(s@.subrange(from as int, i as int)),
        decreases to - i,
    {
        let ghost prev = s@.subrange(from as int, i as int);
        let ghost next = s@.subrange(from as int, i + 1);
        assert(next.drop_last() == prev);
        if i > from {
            push_char(out, ':');
        } else {
            assert(prev.len() == 0);
        }
        push_hex(out, s[i]);
        i = i + 1;
    }
}

/// Finds the first of the longest runs of zero segments.
fn longest_run(s: &[u16; 8]) -> (res: (usize, usize))
    ensures
        is_first_longest_run(s@, res.0 as int, res.1 as int),
{
    let mut ls: usize = 0;
    let mut ll: usize = 0;
    let mut cs: usize = 0;
    let mut cl: usize = 0;
    let mut i: usize = 0;
    while i < 8
        invariant
            s@.len() == 8,
            i <= 8,
            is_zero_run(s@, ls as int, ll as int),
            ls + ll <= i,
            forall|st: int, l: int| st + l <= i && is_zero_run(s@, st, l) ==> l <= ll,
            forall|st: int| st + ll <= i && is_zero_run(s@, st, ll as int) ==> ls <= st,
            cs + cl == i,
            is_zero_run(s@, cs as int, cl as int),
            cs == 0 || s@[cs - 1] != 0,
            cl <= ll,
        decreases 8 - i,
    {
        if s[i] == 0 {
            cl = cl + 1;
            assert forall|st: int, l: int| st + l == i + 1 && l > 0 && is_zero_run(s@, st, l) implies cs <= st by {
                if st < cs {
                    assert(s@[cs - 1] == 0);
                }
            }
            if cl > ll {
                ls = cs;
                ll = cl;
            }
        } else {
            assert forall|st: int, l: int| st + l == i + 1 && is_zero_run(s@, st, l) implies l == 0 by {
                if l > 0 {
                    assert(s@[i as int] == 0);
                }
            }
            cs = i + 1;
            cl = 0;
        }
        i = i + 1;
    }
    (ls, ll)
}

fn push_ipv6(out: &mut String, s: [u16; 8])
    ensures
        final(out)@ == old(out)@ + ipv6_text(s@),
{
    if s[0] == 0 && s[1] == 0 && s[2] == 0 && s[3] == 0 && s[4] == 0 && s[5] == 0xffff {
        push_char(out, ':');
        push_char(out, ':');
        push_char(out, 'f');
        push_char(out, 'f');
        push_char(out, 'f');
        push_char(out, 'f');
        push_char(out, ':');
        let v4 = [(s[6] / 256) as u8, (s[6] % 256) as u8, (s[7] / 256) as u8, (s[7] % 256) as u8];
        push_ipv4(out, v4);
        return;
    }
    let (start, len) = longest_run(&s);
    proof {
        let r = longest_zero_run(s@);
        lemma_first_longest_unique(s@, r.0, r.1, start as int, len as int);
    }
    if len > 1 {
        push_hex_join(out, &s, 0, start);
        push_char(out, ':');
        push_char(out, ':');
        push_hex_join(out, &s, start + len, 8);
    } else {
        push_hex_join(out, &s, 0, 8);
        assert(s@.subrange(0, 8) == s@);
    }
}

/// The URL of the server at `ip` and `port`: `http://a.b.c.d:port`, or
/// `http://[v6]:port`.
pub fn url(ip: IpAddress, port: u16) -> (res: String)
    ensures
        res@ == spec_url(ip, port),
{
    let mut out = String::new();
    push_char(&mut out, 'h');
    push_char(&mut out, 't');
    push_char(&mut out, 't');
    push_char(&mut out, 'p');
    push_char(&mut out, ':');
    push_char(&mut out, '/');
    push_char(&mut out, '/');
    match ip {
        IpAddress::V4(o) => {
            push_ipv4(&mut out, o);
            push_char(&mut out, ':');
        },
        IpAddress::V6(s) => {
            push_char(&mut out, '[');
            push_ipv6(&mut out, s);
            push_char(&mut out, ']');
            push_char(&mut out, ':');
        },
    }
    let p = decimal_text(port as u128);
    push_str(&mut out, p.as_str());
    out
}

} // verus!

verus! {

/// The terminal rendering of the QR code for `data`, if it fits in one.
pub uninterp spec fn qr_text(data: Seq<u8>) -> Option<Seq<char>>;

/// Renders `data` as a QR code in Unicode half blocks, two modules per
/// terminal cell, with the quiet zone.
///
/// Trusted: calls `qrcode::QrCode::new(data)` and, on success,
/// `render::<unicode::Dense1x2>().quiet_zone(true).module_dimensions(1, 1).build()`
/// on the code. The result is named by `qr_text`: the crate's source picks
/// the smallest code at error-correction level M for the bytes alone, and
/// fails (`None` here) when the data does not fit.
#[verifier::external_body]
fn render_qr(data: &[u8]) -> (res: Option<String>)
    ensures
        res matches Some(t) ==> qr_text(data@) == Some(t@),
        res is None ==> qr_text(data@) is None,
{
    match qrcode::QrCode::new(data) {
        Ok(code) => Some(
            code.render::<qrcode::render::unicode::Dense1x2>().quiet_zone(true).module_dimensions(
                1,
                1,
            ).build(),
        ),
        Err(_) => None,
    }
}

/// The URLs announced at startup.
pub struct Urls {
    /// The URL that reaches the server from this machine.
    pub local: String,
}

/// What startup announces: the URLs, and the text printed to the terminal.
pub struct Startup {
    pub urls: Urls,
    pub banner: String,
}

/// The startup text.
pub open spec fn banner(
    root: Seq<char>,
    local: Seq<char>,
    network: Option<Seq<char>>,
    live_reload: bool,
    qr: Option<Seq<char>>,
) -> Seq<char> {
    "Serving "@ + root + "\n"@ + "  Local:   "@ + local + "\n"@ + (match network {
        Some(u) => "  Network: "@ + u + "\n"@,
        None => seq![],
    }) + (if live_reload {
        "  Reload:  watching for changes\n"@
    } else {
        seq![]
    }) + "\nPress Ctrl+C to stop.\n"@ + (match qr {
        Some(q) => "\n"@ + q + "\n"@,
        None => seq![],
    })
}

/// The network URL for a bind, if one is advertised.
pub open spec fn spec_network_url(bound: IpAddress, port: u16, discovered: Option<IpAddress>) -> Option<Seq<char>> {
    match spec_network_ip(bound, discovered) {
        Some(ip) => Some(spec_url(ip, port)),
        None => None,
    }
}

/// Works out the URLs for a server bound to `bound:port` and, unless
/// `quiet`, the text to print: the served root, the URLs, whether reload is
/// on, and the network URL's QR code when `show_qr`. `discovered` is this
/// machine's LAN address, if one was found.
pub fn startup(
    root: &str,
    bound: IpAddress,
    port: u16,
    discovered: Option<IpAddress>,
    show_qr: bool,
    live_reload: bool,
    quiet: bool,
) -> (res: Startup)
    ensures
        res.urls.local@ == spec_url(spec_loopback_for(bound), port),
        quiet ==> res.banner@ == Seq::<char>::empty(),
        !quiet ==> res.banner@ == banner(
            root@,
            spec_url(spec_loopback_for(bound), port),
            spec_network_url(bound, port, discovered),
            live_reload,
            match spec_network_url(bound, port, discovered) {
                Some(u) => if show_qr { qr_text(vstd::utf8::encode_utf8(u)) } else { None },
                None => None,
            },
        ),
{
    let local = url(loopback_for(bound), port);
    let network = match network_ip(bound, discovered) {
        Some(ip) => Some(url(ip, port)),
        None => None,
    };
    let mut text = String::new();
    if !quiet {
        push_str(&mut text, "Serving ");
        push_str(&mut text, root);
        push_str(&mut text, "\n");
        push_str(&mut text, "  Local:   ");
        push_str(&mut text, local.as_str());
        push_str(&mut text, "\n");
        match &network {
            Some(u) => {
                push_str(&mut text, "  Network: ");
                push_str(&mut text, u.as_str());
                push_str(&mut text, "\n");
            },
            None => {},
        }
        if live_reload {
            push_str(&mut text, "  Reload:  watching for changes\n");
        }
        push_str(&mut text, "\nPress Ctrl+C to stop.\n");
        if show_qr {
            match &network {
                Some(u) => {
                    match render_qr(u.as_str().as_bytes()) {
                        Some(q) => {
                            push_str(&mut text, "\n");
                            push_str(&mut text, q.as_str());
                            push_str(&mut text, "\n");
                        },
                        None => {},
                    }
                },
                None => {},
            }
        }
    }
    Startup { urls: Urls { local }, banner: text }
}

/// The network URL, when one is advertised, is announced on the line after
/// the local URL, whether or not a QR code is shown or renders.
pub proof fn lemma_banner_shows_network(
    root: Seq<char>,
    local: Seq<char>,
    url: Seq<char>,
    live_reload: bool,
    qr: Option<Seq<char>>,
)
    ensures
        ({
            let head = "Serving "@ + root + "\n"@ + "  Local:   "@ + local + "\n"@;
            let line = "  Network: "@ + url + "\n"@;
            banner(root, local, Some(url), live_reload, qr).take((head.len() + line.len()) as int)
                == head + line
        }),
{
    let head = "Serving "@ + root + "\n"@ + "  Local:   "@ + local + "\n"@;
    let line = "  Network: "@ + url + "\n"@;
    let b = banner(root, local, Some(url), live_reload, qr);
    assert(b.take((head.len() + line.len()) as int) =~= head + line);
}

/// Whenever the bind advertises a network URL, the startup text names it,
/// with or without the QR code.
pub proof fn lemma_startup_announces_network(
    root: Seq<char>,
    bound: IpAddress,
    port: u16,
    discovered: Option<IpAddress>,
    live_reload: bool,
    qr: Option<Seq<char>>,
)
    requires
        spec_network_url(bound, port, discovered) is Some,
    ensures
        ({
            let local = spec_url(spec_loopback_for(bound), port);
            let url = spec_network_url(bound, port, discovered)->0;
            let head = "Serving "@ + root + "\n"@ + "  Local:   "@ + local + "\n"@;
            let line = "  Network: "@ + url + "\n"@;
            banner(root, local, spec_network_url(bound, port, discovered), live_reload, qr).take(
                (head.len() + line.len()) as int,
            ) == head + line
        }),
{
    lemma_banner_shows_network(
        root,
        spec_url(spec_loopback_for(bound), port),
        spec_network_url(bound, port, discovered)->0,
        live_reload,
        qr,
    );
}

/// The local URL's address is reachable from this machine: a loopback
/// address of the bind's family when bound to the unspecified address, the
/// bound address otherwise.
pub proof fn lemma_loopback_for_reaches_bind(bound: IpAddress)
    ensures
        spec_is_unspecified(bound) ==> spec_is_loopback(spec_loopback_for(bound)),
        (spec_loopback_for(bound) is V4) == (bound is V4),
        !spec_is_unspecified(bound) ==> spec_loopback_for(bound) == bound,
{
    if spec_is_unspecified(bound) {
        match bound {
            IpAddress::V4(_) => {
                assert([127u8, 0, 0, 1]@[0] == 127);
            },
            IpAddress::V6(_) => {
                assert([0u16, 0, 0, 0, 0, 0, 0, 1]@ =~= seq![0u16, 0, 0, 0, 0, 0, 0, 1]);
            },
        }
    }
}

/// A specific, non-loopback bind is advertised as itself, whatever address
/// was discovered.
pub proof fn lemma_specific_bind_is_advertised(bound: IpAddress, discovered: Option<IpAddress>)
    requires
        !spec_is_loopback(bound),
        !spec_is_unspecified(bound),
    ensures
        spec_network_ip(bound, discovered) == Some(bound),
{
}

} // verus!
