use bangumi_proxy::browser::BrowserKind;
use bangumi_proxy::cli::{launch_plan, requested_browser, Args, LaunchPlan};

#[test]
fn defaults() {
    let a = Args::defaults();
    assert_eq!(a.port, 8080);
    assert_eq!(a.url, "https://bgm.tv");
    assert_eq!(a.dns, vec!["https://doh.pub/dns-query".to_string()]);
    assert!(!a.browser && !a.trust_ca && a.hosts.is_none());
}

#[test]
fn browser_flags() {
    let mut a = Args::defaults();
    assert_eq!(requested_browser(&a), None);
    a.edge = Some(Some(String::new()));
    a.firefox = Some(Some("/opt/ff".to_string()));
    assert_eq!(requested_browser(&a), Some((BrowserKind::Edge, None)));
    a.chrome = Some(Some("/opt/chrome".to_string()));
    assert_eq!(requested_browser(&a), Some((BrowserKind::Chrome, Some("/opt/chrome".to_string()))));
}

#[test]
fn launch_plans() {
    let mut a = Args::defaults();
    assert!(matches!(launch_plan(&a, true), LaunchPlan::GuiAutoDetect));
    assert!(matches!(launch_plan(&a, false), LaunchPlan::NoBrowser));
    a.browser = true;
    assert!(matches!(launch_plan(&a, false), LaunchPlan::AutoDetect));
    a.chromium = Some(None);
    assert!(matches!(launch_plan(&a, false), LaunchPlan::Requested { kind: BrowserKind::Chromium, path: None }));
}
