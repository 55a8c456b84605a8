use stest_lib::config::{
    build_config, find_ignore_ids, ClientConfig, ConfigAttribute, ConfigElement, DownloadConfig,
    FullConfig, GenerateConfig, ServerConfig, TestServerConfig, UploadConfig,
};
use stest_lib::utils::{parse_micro, parse_micro_or_zero, parse_u64, parse_u64_or_zero};

fn attr(name: &str, value: &str) -> ConfigAttribute {
    ConfigAttribute { name: name.to_string(), value: value.to_string() }
}

#[test]
fn parse_u64_accepts_digits_and_plus() {
    assert_eq!(parse_u64("0"), Some(0));
    assert_eq!(parse_u64("1234567890"), Some(1234567890));
    assert_eq!(parse_u64("+42"), Some(42));
    assert_eq!(parse_u64("18446744073709551615"), Some(u64::MAX));
}

#[test]
fn parse_u64_rejects_malformed_and_overflow() {
    assert_eq!(parse_u64(""), None);
    assert_eq!(parse_u64("+"), None);
    assert_eq!(parse_u64("12a"), None);
    assert_eq!(parse_u64("-1"), None);
    assert_eq!(parse_u64("18446744073709551616"), None);
    assert_eq!(parse_u64_or_zero("junk"), 0);
}

#[test]
fn parse_micro_reads_signed_decimals_in_millionths() {
    assert_eq!(parse_micro("49.2576"), Some(49_257_600));
    assert_eq!(parse_micro("-3.5"), Some(-3_500_000));
    assert_eq!(parse_micro("+180"), Some(180_000_000));
    assert_eq!(parse_micro("0.0000019"), Some(1)); // the seventh digit is cut
    assert_eq!(parse_micro("12."), Some(12_000_000));
}

#[test]
fn parse_micro_defaults_to_zero_on_malformed_values() {
    assert_eq!(parse_micro(""), None);
    assert_eq!(parse_micro("."), None);
    assert_eq!(parse_micro("1.2.3"), None);
    assert_eq!(parse_micro("abc"), None);
    assert_eq!(parse_micro_or_zero("n/a"), 0);
}

#[test]
fn server_config_reads_its_two_attributes() {
    let attrs = vec![attr("threadcount", "4"), attr("ignoreids", "1,2"), attr("other", "x")];
    let sc = ServerConfig::from_xml(&attrs);
    assert_eq!(sc.threadcount, "4");
    assert_eq!(sc.ignoreids, "1,2");
}

#[test]
fn repeated_attributes_keep_the_last_value() {
    let attrs = vec![attr("threadcount", "4"), attr("threadcount", "8")];
    let sc: ServerConfig = build_config(&attrs);
    assert_eq!(sc.threadcount, "8");
}

#[test]
fn download_config_parses_numbers_with_zero_default() {
    let attrs = vec![
        attr("testlength", "10"),
        attr("initialtest", "250K"),
        attr("mintestsize", "250K"),
        attr("threadsperurl", "four"),
    ];
    let dc = DownloadConfig::from_xml(&attrs);
    assert_eq!(dc.testlength, 10);
    assert_eq!(dc.initialtest, "250K");
    assert_eq!(dc.mintestsize, "250K");
    assert_eq!(dc.threadsperurl, 0); // malformed attribute takes the documented default
}

#[test]
fn upload_config_parses_all_fields() {
    let attrs = vec![
        attr("testlength", "10"),
        attr("ratio", "5"),
        attr("initialtest", "0"),
        attr("mintestsize", "32K"),
        attr("threads", "2"),
        attr("maxchunksize", "512K"),
        attr("maxchunkcount", "50"),
        attr("threadsperurl", "4"),
    ];
    let uc = UploadConfig::from_xml(&attrs);
    assert_eq!(uc.testlength, 10);
    assert_eq!(uc.ratio, 5);
    assert_eq!(uc.threads, 2);
    assert_eq!(uc.maxchunksize, "512K");
    assert_eq!(uc.maxchunkcount, 50);
    assert_eq!(uc.threadsperurl, 4);
}

#[test]
fn client_config_keeps_coordinates_in_microdegrees() {
    let attrs = vec![
        attr("ip", "203.0.113.7"),
        attr("lat", "49.2576"),
        attr("lon", "-123.1"),
        attr("isp", "Example ISP"),
        attr("isprating", "3.7"),
        attr("ispdlavg", "25000"),
        attr("ispulavg", "about five"),
    ];
    let cc = ClientConfig::from_xml(&attrs);
    assert_eq!(cc.ip, "203.0.113.7");
    assert_eq!(cc.lat, 49_257_600);
    assert_eq!(cc.lon, -123_100_000);
    assert_eq!(cc.isp, "Example ISP");
    assert_eq!(cc.isprating, 3_700_000);
    assert_eq!(cc.ispdlavg, 25000);
    assert_eq!(cc.ispulavg, 0);
}

#[test]
fn test_server_config_reads_a_catalog_entry() {
    let attrs = vec![
        attr("url", "http://host-a.example.net/speedtest/upload.php"),
        attr("lat", "35.6833"),
        attr("lon", "139.6833"),
        attr("name", "Tokyo"),
        attr("country", "Japan"),
        attr("cc", "JP"),
        attr("id", "7510"),
        attr("host", "host-a.example.net:8080"),
    ];
    let ts = TestServerConfig::from_xml(&attrs);
    assert_eq!(ts.url, "http://host-a.example.net/speedtest/upload.php");
    assert_eq!(ts.latitude, 35_683_300);
    assert_eq!(ts.longitude, 139_683_300);
    assert_eq!(ts.name, "Tokyo");
    assert_eq!(ts.country, "Japan");
    assert_eq!(ts.country_code, "JP");
    assert_eq!(ts.id, 7510);
    assert_eq!(ts.url2, "");
    assert_eq!(ts.host, "host-a.example.net:8080");
}

#[test]
fn full_config_dispatches_sections_by_element_name() {
    let elements = vec![
        ConfigElement { name: "client".to_string(), attributes: vec![attr("ip", "203.0.113.7")] },
        ConfigElement {
            name: "server-config".to_string(),
            attributes: vec![attr("ignoreids", "3,9")],
        },
        ConfigElement { name: "download".to_string(), attributes: vec![attr("testlength", "10")] },
        ConfigElement { name: "upload".to_string(), attributes: vec![attr("ratio", "5")] },
        ConfigElement { name: "odometer".to_string(), attributes: vec![attr("ratio", "9")] },
    ];
    let fc = FullConfig::from_elements(&elements);
    assert!(fc.parsing_succeeded);
    assert_eq!(fc.client.ip, "203.0.113.7");
    assert_eq!(fc.server.ignoreids, "3,9");
    assert_eq!(fc.download.testlength, 10);
    assert_eq!(fc.upload.ratio, 5);
}

#[test]
fn empty_full_config_reports_no_parse() {
    let fc = FullConfig::empty();
    assert!(!fc.parsing_succeeded);
    assert_eq!(fc.client.ip, "");
    assert_eq!(fc.upload.ratio, 0);
}

#[test]
fn find_ignore_ids_splits_and_parses() {
    assert_eq!(find_ignore_ids("1,2,3"), vec![1, 2, 3]);
    assert_eq!(find_ignore_ids("7510"), vec![7510]);
}

#[test]
fn find_ignore_ids_drops_malformed_segments() {
    assert_eq!(find_ignore_ids("5,x,7"), vec![5, 7]);
    assert_eq!(find_ignore_ids(""), Vec::<u64>::new());
    assert_eq!(find_ignore_ids("1,,2"), vec![1, 2]);
}
