use nova_bridge::discovery::{discover_nova_openapi, parse_location, ssdp_response_endpoint,
    DiscoveryError, DiscoveryMethod, DiscoveryReply};

#[test]
fn parse_location_strips_scheme_and_path() {
    let e = parse_location("http://192.168.1.50:8080/api/").expect("well-formed location");
    assert_eq!(e.host, "192.168.1.50");
    assert_eq!(e.port, 8080);
}

#[test]
fn parse_location_accepts_websocket_scheme() {
    let e = parse_location("ws://nova.local:2921").expect("well-formed location");
    assert_eq!(e.host, "nova.local");
    assert_eq!(e.port, 2921);
}

#[test]
fn parse_location_accepts_bare_host_and_port() {
    let e = parse_location("10.0.0.7:80").expect("well-formed location");
    assert_eq!(e.host, "10.0.0.7");
    assert_eq!(e.port, 80);
}

#[test]
fn parse_location_rejects_missing_or_bad_port() {
    assert!(parse_location("http://hostonly").is_none());
    assert!(parse_location("http://host:").is_none());
    assert!(parse_location("http://host:99999").is_none());
    assert!(parse_location("http://host:12ab").is_none());
    assert!(parse_location("").is_none());
}

#[test]
fn ssdp_response_with_service_and_location_yields_endpoint() {
    let response = "HTTP/1.1 200 OK\r\n\
        CACHE-CONTROL: max-age=1800\r\n\
        ST: urn:openlaunch:service:openapi:1\r\n\
        LOCATION: http://192.168.4.22:2921/\r\n\
        \r\n";
    let e = ssdp_response_endpoint(response).expect("matching response");
    assert_eq!(e.host, "192.168.4.22");
    assert_eq!(e.port, 2921);
}

#[test]
fn ssdp_response_without_service_identifier_is_ignored() {
    let response = "HTTP/1.1 200 OK\r\n\
        ST: urn:other:service:1\r\n\
        LOCATION: http://192.168.4.22:2921/\r\n\
        \r\n";
    assert!(ssdp_response_endpoint(response).is_none());
}

#[test]
fn ssdp_last_location_header_wins() {
    let response = "HTTP/1.1 200 OK\r\n\
        ST: urn:openlaunch:service:openapi:1\r\n\
        LOCATION: http://10.0.0.1:1111/\r\n\
        LOCATION: http://10.0.0.2:2222/\r\n\
        \r\n";
    let e = ssdp_response_endpoint(response).expect("matching response");
    assert_eq!(e.host, "10.0.0.2");
    assert_eq!(e.port, 2222);
}

#[test]
fn discover_picks_first_usable_ssdp_reply() {
    let replies = vec![
        DiscoveryReply::Ssdp("noise".to_string()),
        DiscoveryReply::Ssdp(
            "HTTP/1.1 200 OK\r\nST: urn:openlaunch:service:openapi:1\r\n\
             LOCATION: http://192.168.7.3:2921/\r\n\r\n"
                .to_string(),
        ),
    ];
    let e = discover_nova_openapi(DiscoveryMethod::Ssdp, &replies).expect("usable reply");
    assert_eq!(e.host, "192.168.7.3");
    assert_eq!(e.port, 2921);
}

#[test]
fn discover_reports_no_ssdp_response_on_empty_window() {
    let replies: Vec<DiscoveryReply> = Vec::new();
    assert_eq!(
        discover_nova_openapi(DiscoveryMethod::Ssdp, &replies).unwrap_err(),
        DiscoveryError::SsdpNoResponse
    );
}

#[test]
fn discover_picks_first_resolved_mdns_service() {
    let replies = vec![
        DiscoveryReply::Mdns("192.168.7.9".to_string(), 2921),
        DiscoveryReply::Mdns("192.168.7.10".to_string(), 1111),
    ];
    let e = discover_nova_openapi(DiscoveryMethod::Mdns, &replies).expect("resolved service");
    assert_eq!(e.host, "192.168.7.9");
    assert_eq!(e.port, 2921);
}

#[test]
fn discover_reports_no_mdns_response_without_resolutions() {
    let replies = vec![DiscoveryReply::Ssdp("unrelated".to_string())];
    assert_eq!(
        discover_nova_openapi(DiscoveryMethod::Mdns, &replies).unwrap_err(),
        DiscoveryError::MdnsNoResponse
    );
}
