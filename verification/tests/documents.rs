use rjs_config::{ConfigError, Connection, DlsIP, IpAddress, ReadError, Rjs, XmlData};

fn read(xml: &str) -> Result<XmlData, ReadError> {
    XmlData::read_from_xml(xml.to_string())
}

fn config_failure(xml: &str) -> (ConfigError, String) {
    match read(xml) {
        Err(ReadError::ConfigError { error, location }) => (error, location),
        other => panic!("expected a configuration error, got {:?}", other),
    }
}

fn missing(name: &str) -> ConfigError {
    ConfigError::MissingAttribute { name: name.to_string() }
}

#[test]
fn end_to_end_example() {
    let data = read(
        "<root><seg><rjs prejezd=\"P1\" ip=\"10.0.0.1\" port=\"5000\" type=\"A\"/><dlsip source=\"STATIC\" ip=\"10.0.0.2\"/></seg></root>",
    )
    .unwrap();
    assert_eq!(
        data.rjss,
        vec![Rjs {
            prejezd: "P1".to_string(),
            ip: IpAddress::V4 { octets: [10, 0, 0, 1] },
            port: 5000,
            rjs_type: "A".to_string(),
        }]
    );
    assert_eq!(data.diagnet, vec![DlsIP::Static { ip: IpAddress::V4 { octets: [10, 0, 0, 2] } }]);
}

#[test]
fn empty_document_gives_no_records() {
    let data = read("").unwrap();
    assert!(data.rjss.is_empty());
    assert!(data.diagnet.is_empty());
    let data = read("<root></root>").unwrap();
    assert!(data.rjss.is_empty());
    assert!(data.diagnet.is_empty());
}

#[test]
fn interleaved_records_keep_their_own_order() {
    let data = read(
        "<root>\
           <dlsip source=\"HOSTS\" alias=\"first\" connection=\"P2P\"/>\
           <rjs prejezd=\"A\" ip=\"10.0.0.1\" port=\"1\" type=\"x\"/>\
           <other key=\"v\"/>\
           <deep><rjs prejezd=\"B\" ip=\"10.0.0.2\" port=\"2\" type=\"y\"/></deep>\
           <dlsip source=\"STATIC\" ip=\"::1\"/>\
           <rjs prejezd=\"C\" ip=\"10.0.0.3\" port=\"3\" type=\"z\"/>\
           <dlsip source=\"HOSTS\" alias=\"last\" connection=\"BROADCAST\"/>\
         </root>",
    )
    .unwrap();
    let names: Vec<&str> = data.rjss.iter().map(|r| r.prejezd.as_str()).collect();
    assert_eq!(names, vec!["A", "B", "C"]);
    let ports: Vec<u16> = data.rjss.iter().map(|r| r.port).collect();
    assert_eq!(ports, vec![1, 2, 3]);
    assert_eq!(
        data.diagnet,
        vec![
            DlsIP::Hosts { alias: "first".to_string(), connection: Connection::P2P },
            DlsIP::Static { ip: IpAddress::V6 { segments: [0, 0, 0, 0, 0, 0, 0, 1] } },
            DlsIP::Hosts { alias: "last".to_string(), connection: Connection::Broadcast },
        ]
    );
}

#[test]
fn only_self_closing_elements_are_records() {
    let data = read(
        "<root><rjs prejezd=\"A\" ip=\"10.0.0.1\" port=\"1\" type=\"x\"></rjs><dlsip source=\"FOO\"></dlsip></root>",
    )
    .unwrap();
    assert!(data.rjss.is_empty());
    assert!(data.diagnet.is_empty());
}

#[test]
fn rjs_without_prejezd() {
    let (error, location) =
        config_failure("<root><seg><rjs ip=\"10.0.0.1\" port=\"5000\" type=\"A\"/></seg></root>");
    assert_eq!(error, missing("prejezd"));
    assert_eq!(location, "root/seg/rjs");
}

#[test]
fn rjs_without_ip() {
    let (error, location) =
        config_failure("<root><seg><rjs prejezd=\"PZ\" port=\"5000\" type=\"A\"/></seg></root>");
    assert_eq!(error, missing("ip"));
    assert_eq!(location, "root/seg/rjs");
}

#[test]
fn rjs_without_port() {
    let (error, location) =
        config_failure("<root><rjs prejezd=\"PZ\" ip=\"10.0.0.1\" type=\"A\"/></root>");
    assert_eq!(error, missing("port"));
    assert_eq!(location, "root/rjs");
}

#[test]
fn rjs_without_type() {
    let (error, location) =
        config_failure("<rjs prejezd=\"PZ\" ip=\"10.0.0.1\" port=\"5000\"/>");
    assert_eq!(error, missing("type"));
    assert_eq!(location, "rjs");
}

#[test]
fn rjs_attributes_are_read_in_order() {
    let (error, _) = config_failure("<rjs/>");
    assert_eq!(error, missing("prejezd"));
    let (error, _) = config_failure("<rjs prejezd=\"P\" ip=\"nowhere\" type=\"A\"/>");
    assert!(matches!(error, ConfigError::ParseError { .. }));
    let (error, _) = config_failure("<rjs prejezd=\"P\" ip=\"1.2.3.4\" port=\"x\"/>");
    assert!(matches!(error, ConfigError::ParseError { .. }));
}

#[test]
fn dlsip_without_source() {
    let (error, location) =
        config_failure("<net><dlsip alias=\"a\" connection=\"P2P\"/></net>");
    assert_eq!(error, missing("source"));
    assert_eq!(location, "net/dlsip");
}

#[test]
fn dlsip_hosts_without_connection() {
    let (error, location) = config_failure("<net><dlsip source=\"HOSTS\" alias=\"a\"/></net>");
    assert_eq!(error, missing("connection"));
    assert_eq!(location, "net/dlsip");
}

#[test]
fn dlsip_hosts_without_alias() {
    let (error, location) =
        config_failure("<net><dlsip source=\"HOSTS\" connection=\"BROADCAST\"/></net>");
    assert_eq!(error, missing("alias"));
    assert_eq!(location, "net/dlsip");
}

#[test]
fn dlsip_static_without_ip() {
    let (error, location) = config_failure("<net><dlsip source=\"STATIC\"/></net>");
    assert_eq!(error, missing("ip"));
    assert_eq!(location, "net/dlsip");
}

#[test]
fn port_out_of_range() {
    let (error, location) = config_failure(
        "<root><rjs prejezd=\"PZ\" ip=\"10.0.0.1\" port=\"70000\" type=\"A\"/></root>",
    );
    match error {
        ConfigError::ParseError { input, to, cause } => {
            assert_eq!(input, "70000");
            assert_eq!(to, "u16");
            assert!(!cause.is_empty());
        }
        other => panic!("expected a parse error, got {:?}", other),
    }
    assert_eq!(location, "root/rjs");
}

#[test]
fn port_limits() {
    let low = read("<rjs prejezd=\"P\" ip=\"10.0.0.1\" port=\"0\" type=\"A\"/>").unwrap();
    assert_eq!(low.rjss[0].port, 0);
    let high = read("<rjs prejezd=\"P\" ip=\"10.0.0.1\" port=\"65535\" type=\"A\"/>").unwrap();
    assert_eq!(high.rjss[0].port, 65535);
    let (error, _) = config_failure("<rjs prejezd=\"P\" ip=\"10.0.0.1\" port=\"65536\" type=\"A\"/>");
    assert!(matches!(error, ConfigError::ParseError { .. }));
    let (error, _) = config_failure("<rjs prejezd=\"P\" ip=\"10.0.0.1\" port=\"-1\" type=\"A\"/>");
    assert!(matches!(error, ConfigError::ParseError { .. }));
    let (error, _) = config_failure("<rjs prejezd=\"P\" ip=\"10.0.0.1\" port=\"\" type=\"A\"/>");
    assert!(matches!(error, ConfigError::ParseError { .. }));
}

#[test]
fn unknown_connection() {
    let (error, location) =
        config_failure("<dlsip source=\"HOSTS\" alias=\"a\" connection=\"WIFI\" />");
    assert_eq!(
        error,
        ConfigError::InvalidValue { name: "connection".to_string(), value: "WIFI".to_string() }
    );
    assert_eq!(location, "dlsip");
}

#[test]
fn connection_is_checked_before_alias() {
    let (error, _) = config_failure("<dlsip source=\"HOSTS\" connection=\"WIFI\" />");
    assert_eq!(
        error,
        ConfigError::InvalidValue { name: "connection".to_string(), value: "WIFI".to_string() }
    );
}

#[test]
fn unknown_source() {
    let (error, location) = config_failure("<a><dlsip source=\"FOO\" ip=\"10.0.0.1\" /></a>");
    assert_eq!(
        error,
        ConfigError::InvalidValue { name: "source".to_string(), value: "FOO".to_string() }
    );
    assert_eq!(location, "a/dlsip");
}

#[test]
fn both_address_versions_parse() {
    let data = read(
        "<r>\
           <rjs prejezd=\"P\" ip=\"192.168.1.20\" port=\"1\" type=\"A\"/>\
           <rjs prejezd=\"Q\" ip=\"2001:db8::ff00:42:8329\" port=\"2\" type=\"B\"/>\
           <dlsip source=\"STATIC\" ip=\"255.255.255.255\"/>\
           <dlsip source=\"STATIC\" ip=\"fe80::1\"/>\
         </r>",
    )
    .unwrap();
    assert_eq!(data.rjss[0].ip, IpAddress::V4 { octets: [192, 168, 1, 20] });
    assert_eq!(
        data.rjss[1].ip,
        IpAddress::V6 { segments: [0x2001, 0xdb8, 0, 0, 0, 0xff00, 0x42, 0x8329] }
    );
    assert_eq!(data.diagnet[0], DlsIP::Static { ip: IpAddress::V4 { octets: [255; 4] } });
    assert_eq!(
        data.diagnet[1],
        DlsIP::Static { ip: IpAddress::V6 { segments: [0xfe80, 0, 0, 0, 0, 0, 0, 1] } }
    );
}

#[test]
fn malformed_address() {
    let (error, location) =
        config_failure("<r><rjs prejezd=\"P\" ip=\"10.0.0.256\" port=\"1\" type=\"A\"/></r>");
    match error {
        ConfigError::ParseError { input, to, cause } => {
            assert_eq!(input, "10.0.0.256");
            assert_eq!(to, "IpAddr");
            assert!(!cause.is_empty());
        }
        other => panic!("expected a parse error, got {:?}", other),
    }
    assert_eq!(location, "r/rjs");
    let (error, _) = config_failure("<r><dlsip source=\"STATIC\" ip=\"not an address\"/></r>");
    match error {
        ConfigError::ParseError { input, to, .. } => {
            assert_eq!(input, "not an address");
            assert_eq!(to, "IpAddr");
        }
        other => panic!("expected a parse error, got {:?}", other),
    }
}

#[test]
fn eleven_levels_deep() {
    let xml = "<l0><l1><l2><l3><l4><l5><l6><l7><l8><l9><rjs/></l9></l8></l7></l6></l5></l4></l3></l2></l1></l0>";
    let (error, location) = config_failure(xml);
    assert_eq!(error, missing("prejezd"));
    assert_eq!(location, "l0/l1/l2/l3/l4/l5/l6/l7/l8/l9");
}

#[test]
fn deep_records_are_still_read() {
    let xml = "<l0><l1><l2><l3><l4><l5><l6><l7><l8><l9><la><lb>\
               <dlsip source=\"STATIC\" ip=\"10.0.0.2\"/>\
               </lb></la></l9></l8></l7></l6></l5></l4></l3></l2></l1></l0>";
    let data = read(xml).unwrap();
    assert_eq!(data.diagnet.len(), 1);
    assert!(data.rjss.is_empty());
}

#[test]
fn closed_elements_leave_the_location() {
    let (error, location) =
        config_failure("<root><x><y/><z>text</z></x><w><rjs/></w></root>");
    assert_eq!(error, missing("prejezd"));
    assert_eq!(location, "root/w/rjs");
    let (_, location) = config_failure("<root><x><y/></x><rjs/></root>");
    assert_eq!(location, "root/rjs");
}

#[test]
fn first_failure_ends_the_walk() {
    let (error, location) = config_failure(
        "<root><rjs prejezd=\"A\" ip=\"10.0.0.1\" port=\"1\" type=\"x\"/><dlsip source=\"BAD\"/><rjs/></root>",
    );
    assert_eq!(
        error,
        ConfigError::InvalidValue { name: "source".to_string(), value: "BAD".to_string() }
    );
    assert_eq!(location, "root/dlsip");
}

#[test]
fn malformed_markup_is_a_syntax_error() {
    assert!(matches!(read("<root><a></b></root>"), Err(ReadError::XmlError(_))));
    assert!(matches!(
        read("<root><rjs prejezd=\"A\" ip=\"10.0.0.1\" port=\"1\" type=\"x\"/></wrong>"),
        Err(ReadError::XmlError(_))
    ));
}

#[test]
fn first_of_two_equal_keys_wins() {
    let attrs = vec![
        None,
        Some(rjs_config::Attribute { key: "ip".to_string(), value: "one".to_string() }),
        Some(rjs_config::Attribute { key: "port".to_string(), value: "two".to_string() }),
        None,
        Some(rjs_config::Attribute { key: "ip".to_string(), value: "three".to_string() }),
    ];
    assert_eq!(rjs_config::find_attribute(&attrs, "ip"), Ok("one".to_string()));
    assert_eq!(rjs_config::find_attribute(&attrs, "port"), Ok("two".to_string()));
    assert_eq!(rjs_config::find_attribute(&attrs, "i"), Err(missing("i")));
    assert_eq!(rjs_config::find_attribute(&Vec::new(), "ip"), Err(missing("ip")));
}

#[test]
fn unquoted_attribute_counts_as_missing() {
    let (error, location) = config_failure(
        "<r><rjs prejezd=\"P\" ip=10.0.0.1 port=\"1\" type=\"A\"/></r>",
    );
    assert_eq!(error, missing("ip"));
    assert_eq!(location, "r/rjs");
}

#[test]
fn attribute_without_value_counts_as_missing() {
    let (error, location) =
        config_failure("<net><dlsip source=\"HOSTS\" connection=\"P2P\" alias /></net>");
    assert_eq!(error, missing("alias"));
    assert_eq!(location, "net/dlsip");
}

#[test]
fn attributes_after_a_rejected_one_are_still_read() {
    let data = read(
        "<r><rjs junk=1 prejezd=\"P\" ip=\"10.0.0.1\" port=\"1\" type=\"A\"/></r>",
    )
    .unwrap();
    assert_eq!(data.rjss.len(), 1);
    assert_eq!(data.rjss[0].prejezd, "P");
    assert_eq!(data.rjss[0].port, 1);
}

#[test]
fn repeated_key_keeps_the_first_value() {
    let data = read(
        "<r><rjs prejezd=\"first\" prejezd=\"second\" ip=\"10.0.0.1\" port=\"1\" type=\"A\"/></r>",
    )
    .unwrap();
    assert_eq!(data.rjss[0].prejezd, "first");
}

#[test]
fn reading_stops_at_the_first_syntax_error() {
    assert!(matches!(read("</a><rjs/>"), Err(ReadError::XmlError(_))));
    assert!(matches!(
        read("<a></b><dlsip source=\"STATIC\" ip=\"10.0.0.2\"/></a>"),
        Err(ReadError::XmlError(_))
    ));
}
