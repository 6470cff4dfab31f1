use rdap::text::trim_chars;
use rdap::config::{
    load_tld_overrides, lookup_tld_override, system_config_dir, tld_list_is_valid, Cache, Config,
    TldList, TldOverrides,
};

fn overrides(pairs: &[(&str, &str)]) -> TldOverrides {
    let mut m = TldOverrides::new();
    for (k, v) in pairs {
        m.insert(k.to_string(), v.to_string());
    }
    m
}

fn tld_list_text() -> String {
    let mut text = String::from("# Version 2024010100, Last Updated Mon Jan  1 07:07:01 2024 UTC\n");
    for t in ["COM", "NET", "ORG", "IO", "GOOGLE", "AF", "UK", "DE"] {
        text.push_str(t);
        text.push('\n');
    }
    for i in 0..1000 {
        text.push_str(&format!("XN--TEST{}\n", i));
    }
    text
}

#[test]
fn test_tld_list_valid() {
    let tld_list = TldList::parse(&tld_list_text());
    assert!(tld_list.len() > 1000);
    assert!(tld_list.is_tld("com"));
    assert!(tld_list.is_tld("COM"));
    assert!(tld_list.is_tld("google"));
    assert!(tld_list.is_tld("io"));
    assert!(!tld_list.is_tld("notarealtld123"));
}

#[test]
fn test_tld_lookup() {
    let overrides = overrides(&[
        ("io", "https://rdap.identitydigital.services/rdap/"),
        ("com.af", "https://rdap.coccaregistry.org/"),
    ]);

    let url = lookup_tld_override(&overrides, "example.io");
    assert!(url.is_some());
    assert!(url.unwrap().contains("identitydigital"));

    let url = lookup_tld_override(&overrides, "test.com.af");
    assert!(url.is_some());
    assert!(url.unwrap().contains("coccaregistry"));

    let url = lookup_tld_override(&overrides, "example.com");
    assert!(url.is_none());
}

#[test]
fn override_longest_suffix_wins() {
    let m = overrides(&[
        ("af", "https://short.example/"),
        ("com.af", "https://long.example/"),
    ]);
    assert_eq!(lookup_tld_override(&m, "www.test.com.af").as_deref(), Some("https://long.example/"));
    assert_eq!(lookup_tld_override(&m, "test.org.af").as_deref(), Some("https://short.example/"));
    assert_eq!(lookup_tld_override(&m, "TEST.COM.AF.").as_deref(), Some("https://long.example/"));
    assert_eq!(lookup_tld_override(&m, "com.af").as_deref(), Some("https://long.example/"));
}

#[test]
fn override_with_bad_url_is_skipped() {
    let m = overrides(&[("af", "https://short.example/"), ("com.af", "::bad::")]);
    assert_eq!(lookup_tld_override(&m, "x.com.af").as_deref(), Some("https://short.example/"));
}

#[test]
fn override_map_insert_replaces() {
    let mut m = overrides(&[("io", "https://a.example/")]);
    m.insert("io".to_string(), "https://b.example/".to_string());
    assert_eq!(m.get("io").as_deref(), Some("https://b.example/"));
    assert_eq!(m.get("de"), None);
}

#[test]
fn override_layers() {
    let builtin = overrides(&[("io", "https://builtin.example/"), ("de", "https://de.example/")]);
    let system = overrides(&[("io", "https://system.example/")]);
    let local = overrides(&[("de", "https://local.example/")]);
    let m = load_tld_overrides(None, Some(system), builtin.clone(), Some(local));
    assert_eq!(lookup_tld_override(&m, "x.io").as_deref(), Some("https://system.example/"));
    assert_eq!(lookup_tld_override(&m, "x.de").as_deref(), Some("https://local.example/"));
    let m = load_tld_overrides(None, None, builtin, None);
    assert_eq!(lookup_tld_override(&m, "x.io").as_deref(), Some("https://builtin.example/"));
}

#[test]
fn tld_list_skips_comments_blank_lines_and_duplicates() {
    let list = TldList::parse("# comment\n\n  IO  \r\nio\nDe");
    assert_eq!(list.len(), 2);
    assert!(list.is_tld("io"));
    assert!(list.is_tld("DE"));
    assert!(!list.is_tld("comment"));
    assert!(TldList::parse("").is_empty());
}

#[test]
fn tld_list_validation() {
    assert!(tld_list_is_valid("# header\nCOM\nNET\nXN--P1AI\n"));
    assert!(!tld_list_is_valid("# header\nCOM\nN T\n"));
    assert!(tld_list_is_valid("A\nB\nC\nD\nE\nnot valid\n"));
}

#[test]
fn config_defaults_and_dirs() {
    let c = Config::default();
    assert_eq!(c.bootstrap.dns, "https://data.iana.org/rdap/dns.json");
    assert_eq!(c.cache.ttl_seconds, 86400);
    assert_eq!(system_config_dir(), "/etc/rdap");
    assert_eq!(Config::config_dir(Some("/home/u")), "/home/u/.config/rdap");
    assert_eq!(Config::config_dir(Some("/home/u/")), "/home/u/.config/rdap");
    assert_eq!(Config::config_dir(None), ".config/rdap");
}

#[test]
fn cache_expiry() {
    let cache = Cache::in_dir("/tmp/rdap".to_string()).with_ttl(60);
    assert_eq!(cache.ttl_seconds, 60);
    assert!(!cache.is_expired(60));
    assert!(cache.is_expired(61));
}

#[test]
fn entries_are_trimmed_of_unicode_white_space() {
    let list = TldList::parse("\u{a0}IO\u{3000}\n\tDE \r\n");
    assert!(list.is_tld("io"));
    assert!(list.is_tld("de"));
    assert_eq!(list.len(), 2);
    let cs: Vec<char> = " \u{2003}a b\u{85}".chars().collect();
    let t: String = trim_chars(&cs).into_iter().collect();
    assert_eq!(t, "a b");
}
