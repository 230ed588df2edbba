use srv::output::{loopback_for, network_ip, startup, url, IpAddress};

fn v4(a: u8, b: u8, c: u8, d: u8) -> IpAddress {
    IpAddress::V4([a, b, c, d])
}

fn v6(s: [u16; 8]) -> IpAddress {
    IpAddress::V6(s)
}

#[test]
fn formats_ipv4_and_ipv6_urls() {
    assert_eq!(url(v4(192, 168, 1, 2), 3000), "http://192.168.1.2:3000");
    assert_eq!(url(v6([0, 0, 0, 0, 0, 0, 0, 1]), 80), "http://[::1]:80");
}

#[test]
fn advertises_only_addresses_reachable_through_the_bind() {
    let lan = v4(192, 168, 1, 2);
    assert_eq!(network_ip(v4(0, 0, 0, 0), Some(lan)), Some(lan));
    assert_eq!(network_ip(v4(127, 0, 0, 1), Some(lan)), None);
    assert_eq!(network_ip(v4(192, 168, 1, 9), Some(lan)), Some(v4(192, 168, 1, 9)));
    assert_eq!(network_ip(v6([0; 8]), Some(lan)), None);
}

#[test]
fn ipv6_text_compresses_the_first_longest_zero_run() {
    let samples: [([u16; 8], &str); 14] = [
        ([0; 8], "::"),
        ([1, 0, 0, 0, 0, 0, 0, 0], "1::"),
        ([1, 2, 3, 4, 5, 6, 7, 8], "1:2:3:4:5:6:7:8"),
        ([1, 0, 0, 2, 0, 0, 0, 3], "1:0:0:2::3"),
        ([1, 0, 0, 2, 0, 0, 3, 4], "1::2:0:0:3:4"),
        ([0, 0, 1, 0, 0, 1, 0, 0], "::1:0:0:1:0:0"),
        ([0xfe80, 0, 0, 0, 0, 0, 1, 2], "fe80::1:2"),
        ([0x2001, 0xdb8, 0, 0, 0, 0xff00, 0x42, 0x8329], "2001:db8::ff00:42:8329"),
        ([0, 0, 0, 0, 0, 0xffff, 0xc0a8, 0x0102], "::ffff:192.168.1.2"),
        ([0, 0, 0, 0, 0, 0xffff, 0, 0], "::ffff:0.0.0.0"),
        ([1, 0, 2, 0, 3, 0, 4, 0], "1:0:2:0:3:0:4:0"),
        ([0, 2, 3, 4, 5, 6, 7, 8], "0:2:3:4:5:6:7:8"),
        ([0, 0, 0, 0, 0, 0, 0x102, 0x304], "::102:304"),
        ([0, 1, 0, 0, 0, 0, 0, 0], "0:1::"),
    ];
    for (segments, text) in samples {
        assert_eq!(url(v6(segments), 1), format!("http://[{text}]:1"));
    }
}

#[test]
fn loopback_replaces_unspecified_binds() {
    assert_eq!(loopback_for(v4(0, 0, 0, 0)), v4(127, 0, 0, 1));
    assert_eq!(loopback_for(v6([0; 8])), v6([0, 0, 0, 0, 0, 0, 0, 1]));
    assert_eq!(loopback_for(v4(10, 0, 0, 7)), v4(10, 0, 0, 7));
}

#[test]
fn network_ip_keeps_the_bind_family() {
    assert_eq!(network_ip(v6([0; 8]), Some(v6([0xfe80, 0, 0, 0, 0, 0, 0, 2]))), Some(v6([0xfe80, 0, 0, 0, 0, 0, 0, 2])));
    assert_eq!(network_ip(v4(0, 0, 0, 0), Some(v4(127, 0, 0, 1))), None);
    assert_eq!(network_ip(v4(0, 0, 0, 0), None), None);
    assert_eq!(network_ip(v6([0, 0, 0, 0, 0, 0, 0, 1]), Some(v6([0xfe80, 0, 0, 0, 0, 0, 0, 2]))), None);
}

#[test]
fn startup_banner_lists_urls_and_qr() {
    let run = startup("/srv/site", v4(0, 0, 0, 0), 3000, Some(v4(192, 168, 1, 2)), true, true, false);
    assert_eq!(run.urls.local, "http://127.0.0.1:3000");
    let qr = qrcode::QrCode::new("http://192.168.1.2:3000".as_bytes())
        .unwrap()
        .render::<qrcode::render::unicode::Dense1x2>()
        .quiet_zone(true)
        .module_dimensions(1, 1)
        .build();
    let expected = format!(
        "Serving /srv/site\n  Local:   http://127.0.0.1:3000\n  Network: http://192.168.1.2:3000\n  Reload:  watching for changes\n\nPress Ctrl+C to stop.\n\n{qr}\n"
    );
    assert_eq!(run.banner, expected);
}

#[test]
fn startup_is_silent_when_quiet() {
    let run = startup("/x", v4(127, 0, 0, 1), 8080, None, true, false, true);
    assert_eq!(run.urls.local, "http://127.0.0.1:8080");
    assert_eq!(run.banner, "");
    let run = startup("/x", v4(127, 0, 0, 1), 8080, None, true, false, false);
    assert_eq!(run.banner, "Serving /x\n  Local:   http://127.0.0.1:8080\n\nPress Ctrl+C to stop.\n");
}
