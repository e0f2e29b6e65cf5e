use bangumi_proxy::browser::{
    auto_detect_browser, browser_candidates, browser_commands, chromium_args, find_browser, firefox_args,
    firefox_prefs, is_gui_launch, snap_profile_dir, BrowserKind, Os,
};

#[test]
fn names_and_families() {
    assert_eq!(BrowserKind::Chrome.name(), "chrome");
    assert_eq!(BrowserKind::Chromium.name(), "chromium");
    assert_eq!(BrowserKind::Edge.name(), "edge");
    assert_eq!(BrowserKind::Firefox.name(), "firefox");
    assert!(BrowserKind::Edge.is_chromium());
    assert!(!BrowserKind::Firefox.is_chromium());
}

#[test]
fn candidates_and_lookup() {
    assert_eq!(
        browser_candidates(BrowserKind::Chromium, Os::Linux),
        vec!["/usr/bin/chromium", "/usr/bin/chromium-browser", "/snap/bin/chromium"]
    );
    assert!(browser_candidates(BrowserKind::Chrome, Os::Other).is_empty());
    assert_eq!(browser_commands(BrowserKind::Edge), vec!["microsoft-edge", "msedge"]);
    let found = find_browser(BrowserKind::Chromium, Os::Linux, &vec![false, true, true], &vec![None, None]);
    assert_eq!(found.as_deref(), Some("/usr/bin/chromium-browser"));
    let found = find_browser(
        BrowserKind::Firefox,
        Os::Linux,
        &vec![false, false],
        &vec![None, Some("/opt/ff/firefox-esr".to_string())],
    );
    assert_eq!(found.as_deref(), Some("/opt/ff/firefox-esr"));
    assert_eq!(find_browser(BrowserKind::Edge, Os::Other, &vec![], &vec![None, None]), None);
}

#[test]
fn auto_detect_follows_priority() {
    let found = vec![None, None, Some("edge".to_string()), Some("ff".to_string())];
    assert_eq!(auto_detect_browser(&found), Some((BrowserKind::Edge, "edge".to_string())));
    assert_eq!(auto_detect_browser(&vec![None, None, None, None]), None);
    let found = vec![Some("c".to_string()), Some("x".to_string()), None, None];
    assert_eq!(auto_detect_browser(&found), Some((BrowserKind::Chrome, "c".to_string())));
}

#[test]
fn gui_launch() {
    assert!(is_gui_launch(Some(1)));
    assert!(!is_gui_launch(Some(2)));
    assert!(!is_gui_launch(None));
}

#[test]
fn snap_profiles() {
    let home = Some("/home/u");
    assert_eq!(
        snap_profile_dir(BrowserKind::Chromium, "/snap/bin/chromium", home, false, false).as_deref(),
        Some("/home/u/snap/chromium/common/bangumi-proxy")
    );
    assert_eq!(
        snap_profile_dir(BrowserKind::Firefox, "/snap/firefox/8107/usr/lib/firefox/firefox", home, false, false)
            .as_deref(),
        Some("/home/u/snap/firefox/common/bangumi-proxy")
    );
    assert_eq!(
        snap_profile_dir(BrowserKind::Chromium, "/usr/bin/chromium", home, true, false).as_deref(),
        Some("/home/u/snap/chromium/common/bangumi-proxy")
    );
    assert_eq!(snap_profile_dir(BrowserKind::Chromium, "/usr/bin/chromium", home, false, false), None);
    assert_eq!(
        snap_profile_dir(BrowserKind::Firefox, "/usr/bin/firefox", home, false, true).as_deref(),
        Some("/home/u/snap/firefox/common/bangumi-proxy")
    );
    assert_eq!(snap_profile_dir(BrowserKind::Chrome, "/snap/bin/chromium", None, true, true), None);
    assert_eq!(snap_profile_dir(BrowserKind::Chrome, "/usr/bin/google-chrome", home, true, true), None);
}

#[test]
fn launch_arguments() {
    assert_eq!(
        chromium_args("127.0.0.1:8080", "/tmp/p", "https://bgm.tv", true),
        vec![
            "--proxy-server=http://127.0.0.1:8080",
            "--remote-debugging-port=9222",
            "--no-first-run",
            "--no-default-browser-check",
            "--user-data-dir=/tmp/p",
            "--ignore-certificate-errors",
            "--no-sandbox",
            "https://bgm.tv",
        ]
    );
    let plain = chromium_args("h:1", "p", "u", false);
    assert_eq!(plain.len(), 7);
    assert!(plain.contains(&"--ignore-certificate-errors".to_string()));
    assert_eq!(firefox_args("/tmp/p", "https://bgm.tv"), vec!["--no-remote", "--profile", "/tmp/p", "https://bgm.tv"]);
}

#[test]
fn firefox_preferences() {
    let prefs = firefox_prefs("127.0.0.1:8080", true);
    assert_eq!(
        prefs,
        "user_pref(\"network.proxy.type\", 1);\nuser_pref(\"network.proxy.http\", \"127.0.0.1\");\nuser_pref(\"network.proxy.http_port\", 8080);\nuser_pref(\"network.proxy.ssl\", \"127.0.0.1\");\nuser_pref(\"network.proxy.ssl_port\", 8080);\nuser_pref(\"network.proxy.no_proxies_on\", \"\");\nuser_pref(\"security.enterprise_roots.enabled\", true);\n"
    );
    let untrusted = firefox_prefs("localhost:9000", false);
    assert!(untrusted.contains("\"localhost\""));
    assert!(untrusted.contains("http_port\", 9000);"));
    assert!(untrusted.ends_with("user_pref(\"security.cert_pinning.enforcement_level\", 0);\n"));
    assert!(firefox_prefs("noport", true).contains("\"127.0.0.1\""));
}
