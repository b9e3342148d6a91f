use anorak::server::api::{ApiItem, ApiResponse};
use anorak::server::assets::{immutable_cache, is_hashed_asset};
use anorak::server::config::{parse_u16, Config};
use anorak::server::models::{decode_basic_entities, Item, SendToTransmission};
use anorak::server::query::{format_query_url, known_torrent_names, torrents_url, Gathered, JsonValue};
use anorak::server::send::{decoded_magnet, rqbit_outcome};
use anorak::server::torznab::{normalize_torznab_xml, prepare_torznab_xml, xml_attr};

fn item(title: &str, seeders: u32, peers: u32) -> Item {
    Item {
        title: title.to_string(),
        guid: String::new(),
        link: String::new(),
        comments: String::new(),
        pub_date: String::new(),
        size: 0,
        files: 0,
        description: String::new(),
        category: Vec::new(),
        seeders,
        peers,
        magneturl: String::new(),
    }
}

fn links(link: &str, magneturl: &str, guid: &str) -> Item {
    let mut it = item("t", 0, 0);
    it.link = link.to_string();
    it.magneturl = magneturl.to_string();
    it.guid = guid.to_string();
    it
}

#[test]
fn magnet_link_prefers_link_magnet() {
    let it = links("magnet:?xt=urn:btih:aaa", "magnet:?xt=urn:btih:bbb", "https://example.org/1");
    assert_eq!(it.magnet_link(), "magnet:?xt=urn:btih:aaa");
}

#[test]
fn magnet_link_decodes_magneturl_entities() {
    let it = links("https://example.org/dl", "magnet:?xt=urn:btih:b&amp;dn=x", "https://example.org/1");
    assert_eq!(it.magnet_link(), "magnet:?xt=urn:btih:b&dn=x");
}

#[test]
fn magnet_link_any_case_and_trimmed() {
    let it = links("", "", "  MAGNET:?xt=urn:btih:c \n");
    assert_eq!(it.magnet_link(), "MAGNET:?xt=urn:btih:c");
}

#[test]
fn magnet_link_falls_back_to_first_nonempty() {
    let it = links("   ", "https://example.org/dl?a=1&amp;b=2", "https://example.org/1");
    assert_eq!(it.magnet_link(), "https://example.org/dl?a=1&b=2");
    let it = links("", "", "");
    assert_eq!(it.magnet_link(), "");
}

#[test]
fn decode_basic_entities_in_order() {
    assert_eq!(decode_basic_entities("a &amp; b &lt;c&gt; &quot;d&quot; &#39;e&#39;"), "a & b <c> \"d\" 'e'");
    assert_eq!(decode_basic_entities("&amp;lt;"), "<");
    assert_eq!(decode_basic_entities("plain text"), "plain text");
    assert_eq!(decode_basic_entities("&unknown;"), "&unknown;");
}

#[test]
fn normalize_lifts_wanted_attributes() {
    let xml = "<item><title>x</title><torznab:attr name=\"seeders\" value=\"12\"/><torznab:attr name=\"files\" value=\"3\"/><torznab:attr name=\"peers\" value=\"4\" /><torznab:attr name=\"magneturl\" value=\"magnet:?a&amp;b\"/></item>";
    assert_eq!(
        normalize_torznab_xml(xml),
        "<item><title>x</title><seeders>12</seeders><peers>4</peers><magneturl>magnet:?a&amp;b</magneturl></item>"
    );
}

#[test]
fn normalize_keeps_text_without_attributes() {
    let xml = "<rss><channel><item><title>a</title></item></channel></rss>";
    assert_eq!(normalize_torznab_xml(xml), xml);
}

#[test]
fn normalize_keeps_unclosed_attribute() {
    let xml = "<a><torznab:attr name=\"seeders\" value=\"1\"/><torznab:attr name=\"peers\" value=\"2\">";
    assert_eq!(normalize_torznab_xml(xml), "<a><seeders>1</seeders><torznab:attr name=\"peers\" value=\"2\">");
}

#[test]
fn prepare_trims_then_normalizes() {
    let xml = "\n  <x><torznab:attr name=\"peers\" value=\"7\"/></x>  \n";
    assert_eq!(prepare_torznab_xml(xml), "<x><peers>7</peers></x>");
}

#[test]
fn xml_attr_values() {
    let tag = "<torznab:attr name=\"seeders\" value=\"12\"/>";
    assert_eq!(xml_attr(tag, "name").as_deref(), Some("seeders"));
    assert_eq!(xml_attr(tag, "value").as_deref(), Some("12"));
    assert_eq!(xml_attr(tag, "other"), None);
    assert_eq!(xml_attr("<a name=\"x/>", "name"), None);
    assert_eq!(xml_attr("<a name=\"\"/>", "name").as_deref(), Some(""));
}

fn config(url: &str, key: &str) -> Config {
    Config::from_vars(None, url.to_string(), key.to_string(), None)
}

#[test]
fn query_url_encodes_key_and_term() {
    let c = config("http://127.0.0.1:3420/api/v2.0/indexers/all/results/torznab/", "a b");
    assert_eq!(
        format_query_url(&c, "one punch/é"),
        "http://127.0.0.1:3420/api/v2.0/indexers/all/results/torznab/api?apikey=a%20b&t=search&q=one%20punch%2F%C3%A9"
    );
    let c = config("http://x", "k-._~");
    assert_eq!(format_query_url(&c, "A1"), "http://x/api?apikey=k-._~&t=search&q=A1");
}

#[test]
fn torrents_url_strips_slashes() {
    assert_eq!(torrents_url("http://127.0.0.1:9030//"), "http://127.0.0.1:9030/torrents");
    assert_eq!(torrents_url("http://h"), "http://h/torrents");
}

#[test]
fn config_defaults_and_port() {
    let c = Config::from_vars(None, "u".to_string(), "k".to_string(), None);
    assert_eq!(c.port, 9341);
    assert_eq!(c.rqbit_url, "http://127.0.0.1:9030");
    assert_eq!(c.jackett_url, "u");
    assert_eq!(c.jackett_apikey, "k");
    let c = Config::from_vars(Some("8080"), "u".to_string(), "k".to_string(), Some("http://r".to_string()));
    assert_eq!(c.port, 8080);
    assert_eq!(c.rqbit_url, "http://r");
    assert_eq!(Config::from_vars(Some("x80"), "u".into(), "k".into(), None).port, 9341);
    assert_eq!(Config::from_vars(Some("70000"), "u".into(), "k".into(), None).port, 9341);
}

#[test]
fn parse_u16_like_std() {
    for s in ["", "+", "-1", "0", "+80", "007", "65535", "65536", "99999999999", " 1", "1 ", "12a"] {
        assert_eq!(parse_u16(s), s.parse::<u16>().ok(), "{s:?}");
    }
}

#[test]
fn gathered_default_order_is_stable() {
    let items = vec![item("a", 5, 1), item("b", 9, 0), item("c", 5, 3), item("d", 5, 1), item("e", 0, 9)];
    let g = Gathered::new(items, vec![]);
    let titles: Vec<&str> = g.items.iter().map(|i| i.title.as_str()).collect();
    assert_eq!(titles, vec!["b", "c", "a", "d", "e"]);
}

#[test]
fn gathered_is_known_by_substring() {
    let g = Gathered::new(vec![item("Show S01", 1, 1)], vec!["[grp] Show S01 1080p".to_string()]);
    assert!(g.is_known(&item("Show S01", 0, 0)));
    assert!(!g.is_known(&item("Show S02", 0, 0)));
}

fn obj(fields: Vec<(&str, JsonValue)>) -> JsonValue {
    JsonValue::Object(fields.into_iter().map(|(k, v)| (k.to_string(), v)).collect())
}

#[test]
fn known_torrent_names_from_array_or_object() {
    let entries = vec![
        obj(vec![("id", JsonValue::Number("1".into())), ("name", JsonValue::Str("one".into()))]),
        obj(vec![("id", JsonValue::Number("2".into()))]),
        obj(vec![("name", JsonValue::Number("3".into()))]),
        obj(vec![("name", JsonValue::Str("two".into()))]),
    ];
    let names = known_torrent_names(&JsonValue::Array(entries));
    assert_eq!(names, vec!["one".to_string(), "two".to_string()]);
    let wrapped = obj(vec![("torrents", JsonValue::Array(vec![obj(vec![("name", JsonValue::Str("x".into()))])]))]);
    assert_eq!(known_torrent_names(&wrapped), vec!["x".to_string()]);
    assert!(known_torrent_names(&obj(vec![("torrents", JsonValue::Null)])).is_empty());
    assert!(known_torrent_names(&JsonValue::Str("torrents".into())).is_empty());
}

#[test]
fn api_item_parses_date() {
    let mut it = item("t", 3, 4);
    it.pub_date = "Fri, 05 Jan 2024 10:00:00 +0000".to_string();
    it.link = "magnet:?x".to_string();
    let a = ApiItem::from_item(&it, true, "2000".into(), "1 KB".into(), "d".into());
    assert_eq!(a.date, Some(1704448800));
    assert_eq!(a.magnet, "magnet:?x");
    assert_eq!(a.category, "2000");
    assert!(a.already_added);
    it.pub_date = "yesterday".to_string();
    let a = ApiItem::from_item(&it, false, String::new(), String::new(), String::new());
    assert_eq!(a.date, None);
    let r = ApiResponse::new("q".into(), vec![a]);
    assert_eq!(r.count, 1);
}

#[test]
fn decoded_magnet_percent_decodes() {
    let f = SendToTransmission { magnet: "magnet%3A%3Fxt%3Durn%3Abtih%3Aab&dn=a+b%2".to_string() };
    assert_eq!(decoded_magnet(&f).ok(), Some("magnet:?xt=urn:btih:ab&dn=a+b%2".to_string()));
    let f = SendToTransmission { magnet: "%C3%A9%zz".to_string() };
    assert_eq!(decoded_magnet(&f).ok(), Some("é%zz".to_string()));
    let f = SendToTransmission { magnet: "%FF".to_string() };
    assert!(decoded_magnet(&f).is_err());
}

#[test]
fn rqbit_outcome_messages() {
    assert_eq!(rqbit_outcome(true, "200 OK", "fine".into()), Ok("fine".to_string()));
    assert_eq!(
        rqbit_outcome(false, "400 Bad Request", "bad magnet".into()),
        Err("rqbit returned 400 Bad Request: bad magnet".to_string())
    );
}

#[test]
fn hashed_assets() {
    assert!(is_hashed_asset("/anorak-gpui-abc.wasm"));
    assert!(is_hashed_asset("/x.js"));
    assert!(!is_hashed_asset("/index.html"));
    assert!(!is_hashed_asset("/wasm"));
    assert!(immutable_cache("/a.js", true));
    assert!(!immutable_cache("/a.js", false));
}
