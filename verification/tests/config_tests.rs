use anime_dl::config::{config_path, load, save};
use anime_dl::file::FileDest;
use anime_dl::proxy::{choose_proxy, proxy_list, ProxyConfig};

#[test]
fn test_proxy_config_defaults() {
    let config = ProxyConfig::new();
    let url_str = config.to_url().unwrap();
    assert!(url_str.contains("https://api.proxyscrape.com/"));
    assert!(url_str.contains("request=getproxies"));
    assert!(url_str.contains("proxytype=http"));
    assert!(url_str.contains("timeout=2000"));
    assert!(url_str.contains("country=all"));
    assert!(url_str.contains("ssl=all"));
    assert!(url_str.contains("anonymity=elite"));
}

#[test]
fn test_proxy_config_to_url_format() {
    let config = ProxyConfig::new();
    let url_str = config.to_url().unwrap();
    for key in ["request=", "proxytype=", "timeout=", "country=", "ssl=", "anonymity="] {
        assert!(url_str.contains(key));
    }
}

#[test]
fn proxies_are_chosen_from_the_list() {
    let list = "1.2.3.4:80\n 5.6.7.8:8080 \n";
    assert_eq!(proxy_list(list), vec!["1.2.3.4:80".to_string(), "5.6.7.8:8080".to_string()]);
    let p = choose_proxy(list).unwrap();
    assert!(p == "https://1.2.3.4:80" || p == "https://5.6.7.8:8080");
    assert_eq!(choose_proxy(" \n"), None);
}

#[test]
fn test_save_and_load() {
    for value in ["data test config", "value with spaces and !@#$%", "\u{30a2}\u{30cb}\u{30e1}", "", "overwritten"] {
        let content = save(None, "test", value);
        assert_eq!(load(&content, "test").as_deref(), Some(value));
    }
}

#[test]
fn test_save_multiple_keys() {
    let content = save(None, "first", "1");
    let content = save(Some(&content), "second", "2");
    assert_eq!(load(&content, "first").as_deref(), Some("1"));
    assert_eq!(load(&content, "second").as_deref(), Some("2"));
}

#[test]
fn test_load_missing() {
    assert_eq!(load("", "test"), None);
    assert_eq!(load("not = [valid", "test"), None);
    let content = save(Some("not = [valid"), "token", "x");
    assert_eq!(load(&content, "token").as_deref(), Some("x"));
}

#[test]
fn test_config_path() {
    assert_eq!(config_path(Some("/tmp")), "/tmp/.config/anime-dl/config.toml");
    assert_eq!(config_path(None), ".config/anime-dl/config.toml");
}

#[test]
fn destinations_count_what_is_there() {
    let d = FileDest::new("/tmp/adl", "test.dest", false, Some(4));
    assert_eq!(d.path, "/tmp/adl/test.dest");
    assert_eq!(d.size, 4);
    let d = FileDest::new("/tmp/adl", "test.dest", true, Some(4));
    assert_eq!(d.size, 0);
    assert!(d.open_mode().truncate);
}

#[test]
fn saving_keeps_the_other_keys() {
    let current = "[anilist]\ntoken = \"abc\"\n\n[other]\nx = \"y\"\n";
    let content = save(Some(current), "id", "7");
    assert_eq!(load(&content, "id").as_deref(), Some("7"));
    assert_eq!(load(&content, "token").as_deref(), Some("abc"));
    let content = save(Some(&content), "token", "new");
    assert_eq!(load(&content, "token").as_deref(), Some("new"));
    assert_eq!(load(&content, "id").as_deref(), Some("7"));
}

#[test]
fn saving_over_an_inline_entry_starts_the_table_anew() {
    let content = save(Some("anilist = { token = \"abc\" }\n"), "id", "7");
    assert_eq!(load(&content, "id").as_deref(), Some("7"));
    assert_eq!(load(&content, "token"), None);
}
