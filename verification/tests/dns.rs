use skyengine::dns::{
    apply_dns_map_option, default_dns_mappings, parse_dns_mappings, route_mapped_endpoint, DnsMapping,
};

fn view(m: &DnsMapping) -> (String, [u8; 4], Option<u16>) {
    (m.source.clone(), m.address, m.port)
}

fn views(ms: &[DnsMapping]) -> Vec<(String, [u8; 4], Option<u16>)> {
    ms.iter().map(view).collect()
}

fn ip(a: [u8; 4]) -> u32 {
    u32::from_be_bytes(a)
}

#[test]
fn parses_dns_mappings_with_optional_port_routes() {
    assert_eq!(
        views(
            &parse_dns_mappings("SPD.SkyMobiApp.com.->159.75.119.124;211.155.236.18->127.0.0.1:8088")
                .unwrap()
        ),
        vec![
            ("spd.skymobiapp.com".to_string(), [159, 75, 119, 124], None),
            ("211.155.236.18".to_string(), [127, 0, 0, 1], Some(8088)),
        ]
    );
}

#[test]
fn rejects_malformed_dns_mappings() {
    assert!(parse_dns_mappings("example.com=127.0.0.1").is_err());
    assert!(parse_dns_mappings("example.com->localhost").is_err());
    assert!(parse_dns_mappings("a.example->127.0.0.1;a.example->127.0.0.2").is_err());
}

#[test]
fn dns_map_option_overrides_defaults_only_when_present() {
    let mut mappings = default_dns_mappings();
    let defaults = views(&mappings);

    apply_dns_map_option(&mut mappings, None).unwrap();
    assert_eq!(views(&mappings), defaults);

    apply_dns_map_option(&mut mappings, Some("example.com->127.0.0.1:8080")).unwrap();
    assert_eq!(
        views(&mappings),
        vec![("example.com".to_string(), [127, 0, 0, 1], Some(8080))]
    );
}

#[test]
fn dns_mapping_errors_name_the_bad_part() {
    let error = |v: &str| parse_dns_mappings(v).unwrap_err().to_string();
    assert_eq!(
        error("example.com=127.0.0.1"),
        "invalid DNS mapping \"example.com=127.0.0.1\"; expected SOURCE->IPv4[:PORT]"
    );
    assert_eq!(error(" . ->1.2.3.4"), "invalid DNS mapping source \"\"");
    assert_eq!(error("é->1.2.3.4"), "invalid DNS mapping source \"é\"");
    assert_eq!(
        error("a->1.2.3.4; A. ->1.2.3.5"),
        "duplicate DNS mapping source \"a\""
    );
    assert_eq!(
        error("a->1.2.3.04"),
        "invalid DNS mapping target \"1.2.3.04\"; expected IPv4[:PORT]"
    );
    assert_eq!(
        error("a->1.2.3.4:65536"),
        "invalid DNS mapping target \"1.2.3.4:65536\"; expected IPv4[:PORT]"
    );
    assert!(parse_dns_mappings("a->256.1.1.1").is_err());
    assert!(parse_dns_mappings("a->1.2.3").is_err());
    assert!(parse_dns_mappings("a->1.2.3.4:").is_err());
    assert_eq!(views(&parse_dns_mappings(" ; a->0.0.0.0:00080 ;").unwrap()), vec![("a".to_string(), [0, 0, 0, 0], Some(80))]);
}

#[test]
fn the_default_table_maps_the_service_hosts() {
    let d = views(&default_dns_mappings());
    assert_eq!(d.len(), 3);
    assert!(d.iter().all(|m| m.1 == [159, 75, 119, 124] && m.2.is_none()));
    assert_eq!(d[0].0, "rop.skymobiapp.com");
    assert_eq!(d[1].0, "spd.skymobiapp.com");
    assert_eq!(d[2].0, "wap.skmeg.com");
}

#[test]
fn an_explicit_gateway_mapping_overrides_the_proxy() {
    let gateway = ip([10, 0, 0, 172]);
    let proxy = Some(([127, 0, 0, 1], 3128u16));
    let none: Vec<DnsMapping> = vec![];
    assert_eq!(route_mapped_endpoint(&none, proxy, gateway, 80), (ip([127, 0, 0, 1]), 3128));
    assert_eq!(route_mapped_endpoint(&none, None, gateway, 80), (gateway, 80));
    let explicit = parse_dns_mappings("10.0.0.172->192.168.1.2").unwrap();
    assert_eq!(route_mapped_endpoint(&explicit, proxy, gateway, 80), (ip([192, 168, 1, 2]), 80));
    let with_port = parse_dns_mappings("211.155.236.18->127.0.0.1:8088").unwrap();
    assert_eq!(
        route_mapped_endpoint(&with_port, None, ip([211, 155, 236, 18]), 80),
        (ip([127, 0, 0, 1]), 8088)
    );
    // A connection straight to a mapped target takes the mapping's port.
    assert_eq!(
        route_mapped_endpoint(&with_port, None, ip([127, 0, 0, 1]), 80),
        (ip([127, 0, 0, 1]), 8088)
    );
    assert_eq!(route_mapped_endpoint(&with_port, None, ip([8, 8, 8, 8]), 53), (ip([8, 8, 8, 8]), 53));
}
