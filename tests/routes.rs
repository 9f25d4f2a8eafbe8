use harpy::util::gateway_from_routes;

fn table(text: &str) -> Vec<Vec<u8>> {
    text.lines().map(|l| l.as_bytes().to_vec()).collect()
}

#[test]
fn default_gateway_of_interface() {
    let t = table("Iface\tDestination\tGateway \tFlags\tRefCnt\tUse\tMetric\tMask\t\tMTU\tWindow\tIRTT\n\
                   eth0\t00000000\t0100A8C0\t0003\t0\t0\t100\t00000000\t0\t0\t0\n\
                   eth0\t0000A8C0\t00000000\t0001\t0\t0\t100\t00FFFFFF\t0\t0\t0\n\
                   wlan0\t00000000\t FE01A8C0\t0003\t0\t0\t600\t00000000\t0\t0\t0\n");
    assert_eq!(gateway_from_routes(&t, b"eth0"), Some(0xc0a8_0001));
    assert_eq!(gateway_from_routes(&t, b"wlan0"), None);
    assert_eq!(gateway_from_routes(&t, b"eth1"), None);
    assert_eq!(gateway_from_routes(&Vec::new(), b"eth0"), None);
}

#[test]
fn last_named_gateway_wins() {
    let t = table("Iface\tDestination\tGateway\n\
                   eth0\t00000000\t0100A8C0\n\
                   eth0\t00000000\t0101a8c0\n\
                   eth0\t00000000\t00000000\n\
                   eth0\t00000000\n");
    assert_eq!(gateway_from_routes(&t, b"eth0"), Some(0xc0a8_0101));
    let header_only = table("eth0\t00000000\t0100A8C0\n");
    assert_eq!(gateway_from_routes(&header_only, b"eth0"), None);
}
