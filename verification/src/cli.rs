//! The command-line options and what they ask the program to do at start.

use vstd::prelude::*;
use crate::browser::{BrowserKind, opt_view};

verus! {

/// The options of the program.
#[derive(Debug)]
pub struct Args {
    /// Listening port.
    pub port: u16,
    /// Launch a browser with the proxy configured.
    pub browser: bool,
    /// The URL to open in the browser.
    pub url: String,
    /// Use Chrome (with an optional path).
    pub chrome: Option<Option<String>>,
    /// Use Chromium (with an optional path).
    pub chromium: Option<Option<String>>,
    /// Use Edge (with an optional path).
    pub edge: Option<Option<String>>,
    /// Use Firefox (with an optional path).
    pub firefox: Option<Option<String>>,
    /// DoH URLs or plain DNS addresses.
    pub dns: Vec<String>,
    /// A hosts file (`IP name ...` per line).
    pub hosts: Option<String>,
    /// Install the CA certificate into the system's trust store.
    pub trust_ca: bool,
}

impl Args {
    /// The options when none is given.
    pub fn defaults() -> (a: Args)
        ensures
            a.port == 8080,
            !a.browser,
            a.url@ == "https://bgm.tv"@,
            a.chrome is None,
            a.chromium is None,
            a.edge is None,
            a.firefox is None,
            a.dns@.len() == 1,
            a.dns@[0]@ == "https://doh.pub/dns-query"@,
            a.hosts is None,
            !a.trust_ca,
    {
        let mut dns: Vec<String> = Vec::new();
        dns.push(String::from_str("https://doh.pub/dns-query"));
        Args {
            port: 8080,
            browser: false,
            url: String::from_str("https://bgm.tv"),
            chrome: None,
            chromium: None,
            edge: None,
            firefox: None,
            dns,
            hosts: None,
            trust_ca: false,
        }
    }
}

/// A browser flag's path: given and non-empty, or none.
pub open spec fn flag_path(p: Option<String>) -> Option<Seq<char>> {
    match p {
        Some(s) => if s@.len() > 0 {
            Some(s@)
        } else {
            None
        },
        None => None,
    }
}

/// The browser asked for by flag, the first of Chrome, Chromium, Edge and
/// Firefox that is given, with its path when one is given.
pub open spec fn spec_requested_browser(args: Args) -> Option<(BrowserKind, Option<Seq<char>>)> {
    if args.chrome is Some {
        Some((BrowserKind::Chrome, flag_path(args.chrome->0)))
    } else if args.chromium is Some {
        Some((BrowserKind::Chromium, flag_path(args.chromium->0)))
    } else if args.edge is Some {
        Some((BrowserKind::Edge, flag_path(args.edge->0)))
    } else if args.firefox is Some {
        Some((BrowserKind::Firefox, flag_path(args.firefox->0)))
    } else {
        None
    }
}

fn path_of_flag(p: &Option<String>) -> (r: Option<String>)
    ensures
        opt_view(r) == flag_path(*p),
{
    match p {
        Some(s) => if s.as_str().unicode_len() > 0 {
            Some(s.clone())
        } else {
            None
        },
        None => None,
    }
}

pub fn requested_browser(args: &Args) -> (r: Option<(BrowserKind, Option<String>)>)
    ensures
        match spec_requested_browser(*args) {
            Some((k, p)) => r matches Some((k2, p2)) && k2 == k && opt_view(p2) == p,
            None => r is None,
        },
{
    if let Some(p) = &args.chrome {
        Some((BrowserKind::Chrome, path_of_flag(p)))
    } else if let Some(p) = &args.chromium {
        Some((BrowserKind::Chromium, path_of_flag(p)))
    } else if let Some(p) = &args.edge {
        Some((BrowserKind::Edge, path_of_flag(p)))
    } else if let Some(p) = &args.firefox {
        Some((BrowserKind::Firefox, path_of_flag(p)))
    } else {
        None
    }
}

/// Which browser is launched at start.
#[derive(Debug)]
pub enum LaunchPlan {
    /// Started by a double click: the first browser found opens bgm.tv.
    GuiAutoDetect,
    /// A browser flag: that browser, at its given path or found, opens the URL.
    Requested { kind: BrowserKind, path: Option<String> },
    /// `-b`: the first browser found opens the URL.
    AutoDetect,
    /// No browser: a hint is shown.
    NoBrowser,
}

/// The launch decision: a double-click start comes first, then a browser
/// flag, then `-b`.
pub fn launch_plan(args: &Args, gui_launch: bool) -> (p: LaunchPlan)
    ensures
        gui_launch ==> p is GuiAutoDetect,
        !gui_launch ==> match spec_requested_browser(*args) {
            Some((k, q)) => p matches LaunchPlan::Requested { kind, path } && kind == k && opt_view(path) == q,
            None => if args.browser {
                p is AutoDetect
            } else {
                p is NoBrowser
            },
        },
{
    if gui_launch {
        return LaunchPlan::GuiAutoDetect;
    }
    match requested_browser(args) {
        Some((kind, path)) => LaunchPlan::Requested { kind, path },
        None => if args.browser {
            LaunchPlan::AutoDetect
        } else {
            LaunchPlan::NoBrowser
        },
    }
}

} // verus!
