//! Browsers: which to use, where they live, and how they are launched with
//! the proxy configured.

use vstd::prelude::*;
use crate::text::{chars_of, chars_starts_with, find_chars, find_from, lemma_find_from_bounds, last_index_of, rfind_char};

verus! {

/// The browsers the proxy can launch.
#[derive(Clone, Copy, Debug, PartialEq, Eq, Structural)]
pub enum BrowserKind {
    Chrome,
    Chromium,
    Edge,
    Firefox,
}

pub open spec fn spec_browser_name(kind: BrowserKind) -> Seq<char> {
    match kind {
        BrowserKind::Chrome => "chrome"@,
        BrowserKind::Chromium => "chromium"@,
        BrowserKind::Edge => "edge"@,
        BrowserKind::Firefox => "firefox"@,
    }
}

impl BrowserKind {
    /// The browser's short name.
    pub fn name(self) -> (n: &'static str)
        ensures
            n@ == spec_browser_name(self),
    {
        match self {
            BrowserKind::Chrome => "chrome",
            BrowserKind::Chromium => "chromium",
            BrowserKind::Edge => "edge",
            BrowserKind::Firefox => "firefox",
        }
    }

    /// Whether the browser is built on Chromium (Chrome, Chromium, Edge).
    pub fn is_chromium(self) -> (r: bool)
        ensures
            r == (self != BrowserKind::Firefox),
    {
        match self {
            BrowserKind::Chrome | BrowserKind::Chromium | BrowserKind::Edge => true,
            BrowserKind::Firefox => false,
        }
    }
}

/// The operating system the browser runs on.
#[derive(Clone, Copy, Debug, PartialEq, Eq, Structural)]
pub enum Os {
    Windows,
    Linux,
    MacOs,
    Other,
}

pub open spec fn views(v: Seq<&'static str>) -> Seq<Seq<char>> {
    v.map_values(|s: &'static str| s@)
}

/// The install paths where each browser is looked for on each system, in order.
pub open spec fn spec_browser_candidates(kind: BrowserKind, os: Os) -> Seq<Seq<char>> {
    match os {
        Os::Windows => match kind {
            BrowserKind::Chrome => seq![
                "C:/Program Files/Google/Chrome/Application/chrome.exe"@,
                "C:/Program Files (x86)/Google/Chrome/Application/chrome.exe"@,
            ],
            BrowserKind::Chromium => seq![
                "C:/Program Files/Chromium/Application/chrome.exe"@,
                "C:/Program Files (x86)/Chromium/Application/chrome.exe"@,
            ],
            BrowserKind::Edge => seq![
                "C:/Program Files/Microsoft/Edge/Application/msedge.exe"@,
                "C:/Program Files (x86)/Microsoft/Edge/Application/msedge.exe"@,
            ],
            BrowserKind::Firefox => seq![
                "C:/Program Files/Mozilla Firefox/firefox.exe"@,
                "C:/Program Files (x86)/Mozilla Firefox/firefox.exe"@,
            ],
        },
        Os::Linux => match kind {
            BrowserKind::Chrome => seq!["/usr/bin/google-chrome"@, "/usr/bin/google-chrome-stable"@],
            BrowserKind::Chromium => seq![
                "/usr/bin/chromium"@,
                "/usr/bin/chromium-browser"@,
                "/snap/bin/chromium"@,
            ],
            BrowserKind::Edge => seq!["/usr/bin/microsoft-edge"@, "/usr/bin/microsoft-edge-stable"@],
            BrowserKind::Firefox => seq!["/usr/bin/firefox"@, "/usr/bin/firefox-esr"@],
        },
        Os::MacOs => match kind {
            BrowserKind::Chrome => seq!["/Applications/Google Chrome.app/Contents/MacOS/Google Chrome"@],
            BrowserKind::Chromium => seq!["/Applications/Chromium.app/Contents/MacOS/Chromium"@],
            BrowserKind::Edge => seq!["/Applications/Microsoft Edge.app/Contents/MacOS/Microsoft Edge"@],
            BrowserKind::Firefox => seq!["/Applications/Firefox.app/Contents/MacOS/firefox"@],
        },
        Os::Other => Seq::<Seq<char>>::empty(),
    }
}

/// The install paths where `kind` is looked for on `os`, in order.
pub fn browser_candidates(kind: BrowserKind, os: Os) -> (r: Vec<&'static str>)
    ensures
        views(r@) == spec_browser_candidates(kind, os),
{
    let r: Vec<&'static str> = match os {
        Os::Windows => match kind {
            BrowserKind::Chrome => vec![
                "C:/Program Files/Google/Chrome/Application/chrome.exe",
                "C:/Program Files (x86)/Google/Chrome/Application/chrome.exe",
            ],
            BrowserKind::Chromium => vec![
                "C:/Program Files/Chromium/Application/chrome.exe",
                "C:/Program Files (x86)/Chromium/Application/chrome.exe",
            ],
            BrowserKind::Edge => vec![
                "C:/Program Files/Microsoft/Edge/Application/msedge.exe",
                "C:/Program Files (x86)/Microsoft/Edge/Application/msedge.exe",
            ],
            BrowserKind::Firefox => vec![
                "C:/Program Files/Mozilla Firefox/firefox.exe",
                "C:/Program Files (x86)/Mozilla Firefox/firefox.exe",
            ],
        },
        Os::Linux => match kind {
            BrowserKind::Chrome => vec!["/usr/bin/google-chrome", "/usr/bin/google-chrome-stable"],
            BrowserKind::Chromium => vec!["/usr/bin/chromium", "/usr/bin/chromium-browser", "/snap/bin/chromium"],
            BrowserKind::Edge => vec!["/usr/bin/microsoft-edge", "/usr/bin/microsoft-edge-stable"],
            BrowserKind::Firefox => vec!["/usr/bin/firefox", "/usr/bin/firefox-esr"],
        },
        Os::MacOs => match kind {
            BrowserKind::Chrome => vec!["/Applications/Google Chrome.app/Contents/MacOS/Google Chrome"],
            BrowserKind::Chromium => vec!["/Applications/Chromium.app/Contents/MacOS/Chromium"],
            BrowserKind::Edge => vec!["/Applications/Microsoft Edge.app/Contents/MacOS/Microsoft Edge"],
            BrowserKind::Firefox => vec!["/Applications/Firefox.app/Contents/MacOS/firefox"],
        },
        Os::Other => Vec::new(),
    };
    assert(views(r@) =~= spec_browser_candidates(kind, os));
    r
}

/// The command names under which each browser is looked for on `PATH`, in order.
pub open spec fn spec_browser_commands(kind: BrowserKind) -> Seq<Seq<char>> {
    match kind {
        BrowserKind::Chrome => seq!["google-chrome"@, "chrome"@],
        BrowserKind::Chromium => seq!["chromium"@, "chromium-browser"@],
        BrowserKind::Edge => seq!["microsoft-edge"@, "msedge"@],
        BrowserKind::Firefox => seq!["firefox"@, "firefox-esr"@],
    }
}

pub fn browser_commands(kind: BrowserKind) -> (r: Vec<&'static str>)
    ensures
        views(r@) == spec_browser_commands(kind),
{
    let r: Vec<&'static str> = match kind {
        BrowserKind::Chrome => vec!["google-chrome", "chrome"],
        BrowserKind::Chromium => vec!["chromium", "chromium-browser"],
        BrowserKind::Edge => vec!["microsoft-edge", "msedge"],
        BrowserKind::Firefox => vec!["firefox", "firefox-esr"],
    };
    assert(views(r@) =~= spec_browser_commands(kind));
    r
}

pub open spec fn opt_view(o: Option<String>) -> Option<Seq<char>> {
    match o {
        Some(s) => Some(s@),
        None => None,
    }
}

/// The index of the first `true` in `s`.
pub open spec fn first_true(s: Seq<bool>) -> Option<int>
    decreases s.len(),
{
    if s.len() == 0 {
        None
    } else {
        match first_true(s.drop_last()) {
            Some(i) => Some(i),
            None => if s.last() {
                Some(s.len() - 1)
            } else {
                None
            },
        }
    }
}

/// The index of the first `Some` in `s`.
pub open spec fn first_some<T>(s: Seq<Option<T>>) -> Option<int>
    decreases s.len(),
{
    if s.len() == 0 {
        None
    } else {
        match first_some(s.drop_last()) {
            Some(i) => Some(i),
            None => if s.last() is Some {
                Some(s.len() - 1)
            } else {
                None
            },
        }
    }
}

/// The path chosen for a browser: the first candidate path that exists,
/// else the first command that resolves on `PATH`. `exists[i]` tells whether
/// the `i`-th candidate exists, `resolved[i]` where the `i`-th command resolves.
pub fn find_browser(kind: BrowserKind, os: Os, exists: &Vec<bool>, resolved: &Vec<Option<String>>) -> (r:
    Option<String>)
    requires
        exists@.len() == spec_browser_candidates(kind, os).len(),
        resolved@.len() == spec_browser_commands(kind).len(),
    ensures
        match first_true(exists@) {
            Some(i) => r matches Some(p) && p@ == spec_browser_candidates(kind, os)[i],
            None => match first_some(resolved@) {
                Some(j) => r matches Some(p) && opt_view(resolved@[j]) == Some(p@),
                None => r is None,
            },
        },
{
    let candidates = browser_candidates(kind, os);
    let mut i: usize = 0;
    while i < exists.len()
        invariant
            i <= exists.len(),
            views(candidates@) == spec_browser_candidates(kind, os),
            exists@.len() == candidates@.len(),
            first_true(exists@.take(i as int)) is None,
        decreases exists.len() - i,
    {
        assert(exists@.take(i + 1).drop_last() =~= exists@.take(i as int));
        if exists[i] {
            proof {
                lemma_first_true_prefix(exists@, i as int);
            }
            assert(candidates@[i as int]@ == views(candidates@)[i as int]);
            return Some(String::from_str(candidates[i]));
        }
        i = i + 1;
    }
    assert(exists@.take(exists.len() as int) =~= exists@);
    let mut j: usize = 0;
    while j < resolved.len()
        invariant
            j <= resolved.len(),
            first_true(exists@) is None,
            first_some(resolved@.take(j as int)) is None,
        decreases resolved.len() - j,
    {
        assert(resolved@.take(j + 1).drop_last() =~= resolved@.take(j as int));
        match &resolved[j] {
            Some(p) => {
                proof {
                    lemma_first_some_prefix(resolved@, j as int);
                }
                return Some(p.clone());
            },
            None => {},
        }
        j = j + 1;
    }
    assert(resolved@.take(resolved.len() as int) =~= resolved@);
    None
}

proof fn lemma_first_true_prefix(s: Seq<bool>, i: int)
    requires
        0 <= i < s.len(),
        s[i],
        first_true(s.take(i)) is None,
    ensures
        first_true(s) == Some(i),
    decreases s.len(),
{
    if s.len() - 1 > i {
        assert(s.drop_last().take(i) =~= s.take(i));
        lemma_first_true_prefix(s.drop_last(), i);
    } else {
        assert(s.drop_last() =~= s.take(i));
    }
}

proof fn lemma_first_some_prefix<T>(s: Seq<Option<T>>, i: int)
    requires
        0 <= i < s.len(),
        s[i] is Some,
        first_some(s.take(i)) is None,
    ensures
        first_some(s) == Some(i),
    decreases s.len(),
{
    if s.len() - 1 > i {
        assert(s.drop_last().take(i) =~= s.take(i));
        lemma_first_some_prefix(s.drop_last(), i);
    } else {
        assert(s.drop_last() =~= s.take(i));
    }
}

/// The order in which browsers are tried: Chrome, Chromium, Edge, Firefox.
pub open spec fn browser_priority() -> Seq<BrowserKind> {
    seq![BrowserKind::Chrome, BrowserKind::Chromium, BrowserKind::Edge, BrowserKind::Firefox]
}

/// The first browser found in priority order: `found[i]` is where the
/// `i`-th browser of the priority order was found, if anywhere.
pub fn auto_detect_browser(found: &Vec<Option<String>>) -> (r: Option<(BrowserKind, String)>)
    requires
        found@.len() == 4,
    ensures
        match first_some(found@) {
            Some(i) => r matches Some((k, p)) && k == browser_priority()[i] && opt_view(found@[i]) == Some(p@),
            None => r is None,
        },
{
    let kinds = [BrowserKind::Chrome, BrowserKind::Chromium, BrowserKind::Edge, BrowserKind::Firefox];
    assert(kinds@ =~= browser_priority());
    let mut i: usize = 0;
    while i < 4
        invariant
            i <= 4,
            found@.len() == 4,
            kinds@ == browser_priority(),
            first_some(found@.take(i as int)) is None,
        decreases 4 - i,
    {
        assert(found@.take(i + 1).drop_last() =~= found@.take(i as int));
        match &found[i] {
            Some(p) => {
                proof {
                    lemma_first_some_prefix(found@, i as int);
                }
                return Some((kinds[i], p.clone()));
            },
            None => {},
        }
        i = i + 1;
    }
    assert(found@.take(4) =~= found@);
    None
}

/// Whether the program was started by a double click rather than from a
/// terminal: only on Windows, where the console then has at most one
/// process (`console_processes` is `None` elsewhere).
pub fn is_gui_launch(console_processes: Option<u32>) -> (r: bool)
    ensures
        r == (console_processes matches Some(n) && n <= 1),
{
    match console_processes {
        Some(n) => n <= 1,
        None => false,
    }
}

/// The profile directory a snap-packaged browser can use, which cannot see
/// `/tmp`: `{home}/snap/{name}/common/bangumi-proxy`, where the snap is
/// `firefox` or `chromium`. A path under `/snap/` names the snap by whether
/// it mentions `firefox`; the distribution's chromium and firefox wrappers
/// count when the snap is installed (`snap_chromium`, `snap_firefox`). No
/// home directory, or no snap, gives `None`.
pub open spec fn spec_snap_profile_dir(
    kind: BrowserKind,
    exe: Seq<char>,
    home: Option<Seq<char>>,
    snap_chromium: bool,
    snap_firefox: bool,
) -> Option<Seq<char>> {
    let name: Option<Seq<char>> = if "/snap/"@.is_prefix_of(exe) {
        if find_from(exe, "firefox"@, 0) is Some {
            Some("firefox"@)
        } else {
            Some("chromium"@)
        }
    } else if kind != BrowserKind::Firefox && (exe == "/usr/bin/chromium-browser"@ || exe == "/usr/bin/chromium"@)
        && snap_chromium {
        Some("chromium"@)
    } else if kind == BrowserKind::Firefox && exe == "/usr/bin/firefox"@ && snap_firefox {
        Some("firefox"@)
    } else {
        None
    };
    match (home, name) {
        (Some(h), Some(n)) => Some(h + "/snap/"@ + n + "/common/bangumi-proxy"@),
        _ => None,
    }
}

/// The distribution wrappers of a snap browser get the snap's own profile
/// directory under the home directory: for a Chromium-family browser run as
/// `/usr/bin/chromium-browser` or `/usr/bin/chromium` while the chromium snap
/// is installed, it is `home/snap/chromium/common/bangumi-proxy`; for Firefox
/// run as `/usr/bin/firefox` while the firefox snap is installed, it is
/// `home/snap/firefox/common/bangumi-proxy`. Without the snap there is none.
pub proof fn law_snap_wrappers(kind: BrowserKind, home: Seq<char>, snap_chromium: bool, snap_firefox: bool)
    ensures
        kind != BrowserKind::Firefox ==> spec_snap_profile_dir(
            kind,
            "/usr/bin/chromium-browser"@,
            Some(home),
            snap_chromium,
            snap_firefox,
        ) == (if snap_chromium {
            Some(home + "/snap/chromium/common/bangumi-proxy"@)
        } else {
            None
        }),
        kind != BrowserKind::Firefox ==> spec_snap_profile_dir(
            kind,
            "/usr/bin/chromium"@,
            Some(home),
            snap_chromium,
            snap_firefox,
        ) == (if snap_chromium {
            Some(home + "/snap/chromium/common/bangumi-proxy"@)
        } else {
            None
        }),
        spec_snap_profile_dir(BrowserKind::Firefox, "/usr/bin/firefox"@, Some(home), snap_chromium, snap_firefox)
            == (if snap_firefox {
            Some(home + "/snap/firefox/common/bangumi-proxy"@)
        } else {
            None
        }),
{
    reveal_strlit("/snap/");
    reveal_strlit("/usr/bin/chromium-browser");
    reveal_strlit("/usr/bin/chromium");
    reveal_strlit("/usr/bin/firefox");
    reveal_strlit("chromium");
    reveal_strlit("firefox");
    reveal_strlit("/common/bangumi-proxy");
    reveal_strlit("/snap/chromium/common/bangumi-proxy");
    reveal_strlit("/snap/firefox/common/bangumi-proxy");
    assert(!"/snap/"@.is_prefix_of("/usr/bin/chromium-browser"@)) by {
        assert("/usr/bin/chromium-browser"@[1] != "/snap/"@[1]);
    }
    assert(!"/snap/"@.is_prefix_of("/usr/bin/chromium"@)) by {
        assert("/usr/bin/chromium"@[1] != "/snap/"@[1]);
    }
    assert(!"/snap/"@.is_prefix_of("/usr/bin/firefox"@)) by {
        assert("/usr/bin/firefox"@[1] != "/snap/"@[1]);
    }
    assert("/usr/bin/chromium-browser"@ != "/usr/bin/chromium"@) by {
        assert("/usr/bin/chromium-browser"@.len() != "/usr/bin/chromium"@.len());
    }
    assert("/usr/bin/firefox"@ != "/usr/bin/chromium"@) by {
        assert("/usr/bin/firefox"@[9] != "/usr/bin/chromium"@[9]);
    }
    assert("/usr/bin/firefox"@ != "/usr/bin/chromium-browser"@) by {
        assert("/usr/bin/firefox"@.len() != "/usr/bin/chromium-browser"@.len());
    }
    assert(home + "/snap/"@ + "chromium"@ + "/common/bangumi-proxy"@ =~= home
        + "/snap/chromium/common/bangumi-proxy"@);
    assert(home + "/snap/"@ + "firefox"@ + "/common/bangumi-proxy"@ =~= home
        + "/snap/firefox/common/bangumi-proxy"@);
}

pub fn snap_profile_dir(
    kind: BrowserKind,
    exe: &str,
    home: Option<&str>,
    snap_chromium: bool,
    snap_firefox: bool,
) -> (r: Option<String>)
    ensures
        opt_view(r) == spec_snap_profile_dir(
            kind,
            exe@,
            match home {
                Some(h) => Some(h@),
                None => None,
            },
            snap_chromium,
            snap_firefox,
        ),
{
    let home = match home {
        Some(h) => h,
        None => return None,
    };
    let e = chars_of(exe);
    let snap = chars_of("/snap/");
    let ff = chars_of("firefox");
    let name: &str = if chars_starts_with(e.as_slice(), snap.as_slice()) {
        if find_chars(e.as_slice(), ff.as_slice(), 0).is_some() {
            "firefox"
        } else {
            "chromium"
        }
    } else if kind.is_chromium() && (crate::text::chars_eq(e.as_slice(), chars_of("/usr/bin/chromium-browser").as_slice())
        || crate::text::chars_eq(e.as_slice(), chars_of("/usr/bin/chromium").as_slice())) && snap_chromium {
        "chromium"
    } else if kind == BrowserKind::Firefox && crate::text::chars_eq(e.as_slice(), chars_of("/usr/bin/firefox").as_slice())
        && snap_firefox {
        "firefox"
    } else {
        return None;
    };
    let mut r = String::from_str(home);
    r.append("/snap/");
    r.append(name);
    r.append("/common/bangumi-proxy");
    Some(r)
}

pub open spec fn string_views(v: Seq<String>) -> Seq<Seq<char>> {
    v.map_values(|s: String| s@)
}

/// The command-line arguments of a Chromium-based browser: the proxy, remote
/// debugging on port 9222, no first-run or default-browser prompts, its own
/// profile; certificate errors ignored; no sandbox where it runs as root;
/// then the URL.
pub open spec fn spec_chromium_args(
    proxy: Seq<char>,
    profile: Seq<char>,
    url: Seq<char>,
    no_sandbox: bool,
) -> Seq<Seq<char>> {
    seq![
        "--proxy-server=http://"@ + proxy,
        "--remote-debugging-port=9222"@,
        "--no-first-run"@,
        "--no-default-browser-check"@,
        "--user-data-dir="@ + profile,
        "--ignore-certificate-errors"@,
    ] + (if no_sandbox {
        seq!["--no-sandbox"@]
    } else {
        Seq::<Seq<char>>::empty()
    }) + seq![url]
}

pub fn chromium_args(proxy: &str, profile: &str, url: &str, no_sandbox: bool) -> (r: Vec<
    String,
>)
    ensures
        string_views(r@) == spec_chromium_args(proxy@, profile@, url@, no_sandbox),
{
    let mut r: Vec<String> = Vec::new();
    let mut a = String::from_str("--proxy-server=http://");
    a.append(proxy);
    r.push(a);
    r.push(String::from_str("--remote-debugging-port=9222"));
    r.push(String::from_str("--no-first-run"));
    r.push(String::from_str("--no-default-browser-check"));
    let mut d = String::from_str("--user-data-dir=");
    d.append(profile);
    r.push(d);
    r.push(String::from_str("--ignore-certificate-errors"));
    if no_sandbox {
        r.push(String::from_str("--no-sandbox"));
    }
    r.push(String::from_str(url));
    assert(string_views(r@) =~= spec_chromium_args(proxy@, profile@, url@, no_sandbox));
    r
}

/// The host and port of a proxy address `host:port`, split at its last `:`;
/// `127.0.0.1` and `8080` when it has none.
pub open spec fn spec_proxy_host_port(proxy: Seq<char>) -> (Seq<char>, Seq<char>) {
    match last_index_of(proxy, ':') {
        Some(i) => (proxy.take(i), proxy.skip(i + 1)),
        None => ("127.0.0.1"@, "8080"@),
    }
}

/// The `user.js` preferences of the Firefox profile: HTTP and HTTPS through
/// the proxy, no exceptions, the system's roots trusted; while the CA is
/// untrusted, OCSP and certificate pinning are switched off.
pub open spec fn spec_firefox_prefs(proxy: Seq<char>, ca_trusted: bool) -> Seq<char> {
    let (host, port) = spec_proxy_host_port(proxy);
    "user_pref(\"network.proxy.type\", 1);\n"@ + "user_pref(\"network.proxy.http\", \""@ + host
        + "\");\n"@ + "user_pref(\"network.proxy.http_port\", "@ + port + ");\n"@
        + "user_pref(\"network.proxy.ssl\", \""@ + host + "\");\n"@
        + "user_pref(\"network.proxy.ssl_port\", "@ + port + ");\n"@
        + "user_pref(\"network.proxy.no_proxies_on\", \"\");\n"@
        + "user_pref(\"security.enterprise_roots.enabled\", true);\n"@ + if !ca_trusted {
        "user_pref(\"security.OCSP.enabled\", 0);\n"@ + "user_pref(\"security.cert_pinning.enforcement_level\", 0);\n"@
    } else {
        Seq::<char>::empty()
    }
}

pub fn firefox_prefs(proxy: &str, ca_trusted: bool) -> (r: String)
    ensures
        r@ == spec_firefox_prefs(proxy@, ca_trusted),
{
    let p = chars_of(proxy);
    let (host, port): (&str, &str) = match rfind_char(p.as_slice(), ':') {
        Some(i) => (proxy.substring_char(0, i), proxy.substring_char(i + 1, p.len())),
        None => ("127.0.0.1", "8080"),
    };
    let mut r = String::from_str("user_pref(\"network.proxy.type\", 1);\n");
    r.append("user_pref(\"network.proxy.http\", \"");
    r.append(host);
    r.append("\");\n");
    r.append("user_pref(\"network.proxy.http_port\", ");
    r.append(port);
    r.append(");\n");
    r.append("user_pref(\"network.proxy.ssl\", \"");
    r.append(host);
    r.append("\");\n");
    r.append("user_pref(\"network.proxy.ssl_port\", ");
    r.append(port);
    r.append(");\n");
    r.append("user_pref(\"network.proxy.no_proxies_on\", \"\");\n");
    r.append("user_pref(\"security.enterprise_roots.enabled\", true);\n");
    if !ca_trusted {
        r.append("user_pref(\"security.OCSP.enabled\", 0);\n");
        r.append("user_pref(\"security.cert_pinning.enforcement_level\", 0);\n");
    }
    assert(r@ =~= spec_firefox_prefs(proxy@, ca_trusted));
    r
}

/// The command-line arguments of Firefox: no remote, the given profile, the URL.
pub fn firefox_args(profile: &str, url: &str) -> (r: Vec<String>)
    ensures
        string_views(r@) == seq!["--no-remote"@, "--profile"@, profile@, url@],
{
    let mut r: Vec<String> = Vec::new();
    r.push(String::from_str("--no-remote"));
    r.push(String::from_str("--profile"));
    r.push(String::from_str(profile));
    r.push(String::from_str(url));
    assert(string_views(r@) =~= seq!["--no-remote"@, "--profile"@, profile@, url@]);
    r
}

} // verus!
