//! The local certificate authority: whether it is trusted by the system, the
//! steps that install it, and the DER form of its PEM certificate.

use vstd::prelude::*;
use base64::Engine;
use vstd::utf8::is_ascii_chars;
use crate::ech::utf8_lossy;
use crate::text::{
    chars_eq_ignore_ascii_case, chars_of, chars_starts_with, eq_ignore_ascii_case, find_chars, find_from,
    lemma_split_on_nonempty, split_chars, split_on, trim, trim_str,
};

verus! {

/// The common name of the local CA.
pub const CA_NAME: &'static str = "bangumi-proxy CA";

/// The lines of a text as `str::lines` gives them: the pieces between
/// newlines, a carriage return dropped before each newline, no last line
/// when the text ends with a newline (or is empty).
pub open spec fn text_lines(s: Seq<char>) -> Seq<Seq<char>> {
    let ps = split_on(s, '\n');
    let ended = ps.take(ps.len() - 1).map_values(|p: Seq<char>| strip_cr(p));
    if ps.last().len() == 0 {
        ended
    } else {
        ended.push(ps.last())
    }
}

pub open spec fn strip_cr(p: Seq<char>) -> Seq<char> {
    if p.len() > 0 && p.last() == '\r' {
        p.drop_last()
    } else {
        p
    }
}

/// The lines that are kept, joined: those that do not start with `-----`.
pub open spec fn body_of_lines(ls: Seq<Seq<char>>) -> Seq<char>
    decreases ls.len(),
{
    if ls.len() == 0 {
        Seq::<char>::empty()
    } else {
        body_of_lines(ls.drop_last()) + if "-----"@.is_prefix_of(ls.last()) {
            Seq::<char>::empty()
        } else {
            ls.last()
        }
    }
}

/// The base64 text of a PEM document: its lines other than the `-----`
/// armour lines, joined.
pub open spec fn spec_pem_base64(pem: Seq<char>) -> Seq<char> {
    body_of_lines(text_lines(pem))
}

pub fn pem_base64(pem: &str) -> (r: String)
    ensures
        r@ == spec_pem_base64(pem@),
{
    let cs = chars_of(pem);
    let pieces = split_chars(&cs, '\n');
    let ghost ps = split_on(pem@, '\n');
    let ghost ls = text_lines(pem@);
    let dashes = chars_of("-----");
    proof {
        lemma_split_on_nonempty(pem@, '\n');
    }
    let n = pieces.len();
    let mut r = String::new();
    let mut i: usize = 0;
    while i < n
        invariant
            n == pieces.len(),
            n == ps.len(),
            n >= 1,
            ps == split_on(pem@, '\n'),
            ls == text_lines(pem@),
            dashes@ == "-----"@,
            forall|k: int| 0 <= k < n ==> #[trigger] pieces[k]@ == ps[k],
            i <= n,
            r@ == body_of_lines(ls.take(if i < n { i as int } else { ls.len() as int })),
            i < n ==> i <= ls.len(),
            forall|k: int| 0 <= k < n - 1 ==> #[trigger] ls[k] == strip_cr(ps[k]),
            ls.len() == (if ps.last().len() == 0 { n - 1 } else { n as int }),
            ps.last().len() > 0 ==> ls.last() == ps.last(),
        decreases n - i,
    {
        let ghost before = r@;
        let mut line: Vec<char> = pieces[i].clone();
        if i + 1 < n && line.len() > 0 && line[line.len() - 1] == '\r' {
            line.pop();
        }
        if i + 1 == n && line.len() == 0 {
            assert(ls.take(ls.len() as int) =~= ls);
            assert(ls.len() == i);
            assert(ls.take(i as int) =~= ls);
        } else {
            assert(ls.take(i + 1).drop_last() =~= ls.take(i as int));
            assert(line@ == ls[i as int]) by {
                if i + 1 < n {
                    assert(ls[i as int] == strip_cr(ps[i as int]));
                    if ps[i as int].len() > 0 && ps[i as int].last() == '\r' {
                        assert(line@ =~= ps[i as int].drop_last());
                    }
                }
            }
            if !chars_starts_with(line.as_slice(), dashes.as_slice()) {
                let mut j: usize = 0;
                while j < line.len()
                    invariant
                        j <= line.len(),
                        r@ == before + line@.take(j as int),
                    decreases line.len() - j,
                {
                    crate::text::push_char(&mut r, line[j]);
                    j = j + 1;
                    assert(r@ =~= before + line@.take(j as int));
                }
                assert(line@.take(line.len() as int) =~= line@);
            }
            assert(r@ =~= body_of_lines(ls.take(i + 1)));
            if i + 1 == n {
                assert(ls.take(i + 1) =~= ls);
            }
        }
        i = i + 1;
    }
    assert(ls.take(ls.len() as int) =~= ls);
    r
}

/// The bytes that standard base64 (with padding) decodes `text` to, as
/// `base64::engine::general_purpose::STANDARD` decodes it; `None` when the
/// text is not valid base64.
pub uninterp spec fn base64_standard_decode(text: Seq<char>) -> Option<Seq<u8>>;

/// Decodes standard base64 (`base64::engine::general_purpose::STANDARD`,
/// `Engine::decode`); the result is the crate's decoding of the text.
#[verifier::external_body]
fn base64_decode(text: &str) -> (r: Option<Vec<u8>>)
    ensures
        match r {
            Some(b) => base64_standard_decode(text@) == Some(b@),
            None => base64_standard_decode(text@) is None,
        },
{
    base64::engine::general_purpose::STANDARD.decode(text).ok()
}

/// The DER bytes of a PEM certificate: its base64 body decoded; `None` when
/// the body is not valid base64.
pub fn pem_to_der(pem: &str) -> (r: Option<Vec<u8>>)
    ensures
        match r {
            Some(b) => base64_standard_decode(spec_pem_base64(pem@)) == Some(b@),
            None => base64_standard_decode(spec_pem_base64(pem@)) is None,
        },
{
    let body = pem_base64(pem);
    base64_decode(body.as_str())
}

/// Whether a certificate store listing (the output of the system's store
/// query, decoded leniently) names the local CA.
pub open spec fn spec_store_lists_ca(listing: Seq<u8>) -> bool {
    find_from(utf8_lossy(listing), CA_NAME@, 0) is Some
}

pub fn store_lists_ca(listing: &[u8]) -> (r: bool)
    ensures
        r == spec_store_lists_ca(listing@),
{
    let text = crate::ech::utf8_lossy_string(listing);
    let t = chars_of(text.as_str());
    let name = chars_of(CA_NAME);
    find_chars(t.as_slice(), name.as_slice(), 0).is_some()
}

/// Whether the user's answer to "Run automatically now? [Y/n]" agrees: any
/// answer but `n` (trimmed, either case) does.
pub open spec fn spec_accepts_install(answer: Seq<char>) -> bool {
    !eq_ignore_ascii_case(trim(answer), "n"@)
}

pub fn accepts_install(answer: &str) -> (r: bool)
    ensures
        r == spec_accepts_install(answer@),
{
    let a = chars_of(trim_str(answer));
    let n = chars_of("n");
    !chars_eq_ignore_ascii_case(a.as_slice(), n.as_slice())
}

/// A step of installing the local CA into the system's trust store.
#[derive(Clone, Copy, Debug, PartialEq, Eq, Structural)]
pub enum TrustStep {
    /// `ca.pem` is missing: nothing to trust.
    MissingCa,
    /// The CA is trusted already.
    AlreadyTrusted,
    /// Not trusted, and only a check was asked for: point at `--trust-ca`.
    NotTrusted,
    /// Not trusted: show the install commands and ask whether to run them.
    Ask,
    /// The user agreed: run the install commands.
    Install,
    /// The user declined.
    Declined,
    /// The install commands succeeded.
    Installed,
    /// The install commands failed.
    InstallFailed,
}

/// The step after looking for `ca.pem`: none means there is nothing to do.
pub fn trust_start(ca_pem_exists: bool) -> (s: Option<TrustStep>)
    ensures
        s == (if ca_pem_exists {
            None::<TrustStep>
        } else {
            Some(TrustStep::MissingCa)
        }),
{
    if ca_pem_exists {
        None
    } else {
        Some(TrustStep::MissingCa)
    }
}

/// The step after checking the trust store: trusted ends it; otherwise the
/// user is asked only in interactive mode (`prompt`).
pub fn trust_after_check(prompt: bool, trusted: bool) -> (s: TrustStep)
    ensures
        s == (if trusted {
            TrustStep::AlreadyTrusted
        } else if !prompt {
            TrustStep::NotTrusted
        } else {
            TrustStep::Ask
        }),
{
    if trusted {
        TrustStep::AlreadyTrusted
    } else if !prompt {
        TrustStep::NotTrusted
    } else {
        TrustStep::Ask
    }
}

/// The step after the user's answer.
pub fn trust_after_answer(answer: &str) -> (s: TrustStep)
    ensures
        s == (if spec_accepts_install(answer@) {
            TrustStep::Install
        } else {
            TrustStep::Declined
        }),
{
    if accepts_install(answer) {
        TrustStep::Install
    } else {
        TrustStep::Declined
    }
}

/// The step after running the install commands.
pub fn trust_after_install(success: bool) -> (s: TrustStep)
    ensures
        s == (if success {
            TrustStep::Installed
        } else {
            TrustStep::InstallFailed
        }),
{
    if success {
        TrustStep::Installed
    } else {
        TrustStep::InstallFailed
    }
}

pub open spec fn spec_trust_result(s: TrustStep) -> bool {
    s == TrustStep::AlreadyTrusted
}

/// What a finished trust run reports: `true` only when the CA was trusted
/// already and nothing was done; an install, even a successful one, reports
/// `false`.
pub fn trust_result(s: TrustStep) -> (r: bool)
    ensures
        r == spec_trust_result(s),
{
    match s {
        TrustStep::AlreadyTrusted => true,
        _ => false,
    }
}

pub open spec fn string_views(v: Seq<String>) -> Seq<Seq<char>> {
    v.map_values(|s: String| s@)
}

/// The system keychain of macOS.
pub const MACOS_KEYCHAIN: &'static str = "/Library/Keychains/System.keychain";

/// `certutil` arguments that list the local CA in the Windows root store.
pub fn windows_check_args() -> (r: Vec<String>)
    ensures
        string_views(r@) == seq!["-store"@, "Root"@, CA_NAME@],
{
    let r = vec![String::from_str("-store"), String::from_str("Root"), String::from_str(CA_NAME)];
    assert(string_views(r@) =~= seq!["-store"@, "Root"@, CA_NAME@]);
    r
}

/// `certutil` arguments that add the DER certificate to the Windows root store.
pub fn windows_install_args(der_path: &str) -> (r: Vec<String>)
    ensures
        string_views(r@) == seq!["-addstore"@, "Root"@, der_path@],
{
    let r = vec![String::from_str("-addstore"), String::from_str("Root"), String::from_str(der_path)];
    assert(string_views(r@) =~= seq!["-addstore"@, "Root"@, der_path@]);
    r
}

/// Where the local CA goes on Linux, and the command that refreshes the store.
#[derive(Debug)]
pub struct LinuxTrust {
    pub dir: String,
    pub target: String,
    pub update: String,
}

/// The Linux trust store: the `ca-trust` anchors directory (refreshed by
/// `update-ca-trust`) where it exists, else `ca-certificates` (refreshed by
/// `update-ca-certificates`); the certificate is `bangumi-proxy-ca.crt` there.
pub fn linux_trust(anchors_exists: bool) -> (r: LinuxTrust)
    ensures
        anchors_exists ==> r.dir@ == "/etc/pki/ca-trust/source/anchors"@ && r.update@ == "update-ca-trust"@,
        !anchors_exists ==> r.dir@ == "/usr/local/share/ca-certificates"@ && r.update@
            == "update-ca-certificates"@,
        r.target@ == r.dir@ + "/bangumi-proxy-ca.crt"@,
{
    let (dir, update) = if anchors_exists {
        ("/etc/pki/ca-trust/source/anchors", "update-ca-trust")
    } else {
        ("/usr/local/share/ca-certificates", "update-ca-certificates")
    };
    let mut target = String::from_str(dir);
    target.append("/bangumi-proxy-ca.crt");
    LinuxTrust { dir: String::from_str(dir), target, update: String::from_str(update) }
}

/// `sudo` arguments that copy `ca.pem` into the Linux trust store.
pub fn linux_copy_args(ca_pem: &str, target: &str) -> (r: Vec<String>)
    ensures
        string_views(r@) == seq!["cp"@, ca_pem@, target@],
{
    let r = vec![String::from_str("cp"), String::from_str(ca_pem), String::from_str(target)];
    assert(string_views(r@) =~= seq!["cp"@, ca_pem@, target@]);
    r
}

/// `security` arguments that look for the local CA in the macOS system keychain.
pub fn macos_check_args() -> (r: Vec<String>)
    ensures
        string_views(r@) == seq!["find-certificate"@, "-c"@, CA_NAME@, MACOS_KEYCHAIN@],
{
    let r = vec![
        String::from_str("find-certificate"),
        String::from_str("-c"),
        String::from_str(CA_NAME),
        String::from_str(MACOS_KEYCHAIN),
    ];
    assert(string_views(r@) =~= seq!["find-certificate"@, "-c"@, CA_NAME@, MACOS_KEYCHAIN@]);
    r
}

/// `sudo` arguments that add `ca.pem` to the macOS system keychain as a
/// trusted root.
pub fn macos_install_args(ca_pem: &str) -> (r: Vec<String>)
    ensures
        string_views(r@) == seq![
            "security"@,
            "add-trusted-cert"@,
            "-d"@,
            "-r"@,
            "trustRoot"@,
            "-k"@,
            MACOS_KEYCHAIN@,
            ca_pem@,
        ],
{
    let r = vec![
        String::from_str("security"),
        String::from_str("add-trusted-cert"),
        String::from_str("-d"),
        String::from_str("-r"),
        String::from_str("trustRoot"),
        String::from_str("-k"),
        String::from_str(MACOS_KEYCHAIN),
        String::from_str(ca_pem),
    ];
    assert(string_views(r@) =~= seq![
        "security"@,
        "add-trusted-cert"@,
        "-d"@,
        "-r"@,
        "trustRoot"@,
        "-k"@,
        MACOS_KEYCHAIN@,
        ca_pem@,
    ]);
    r
}

/// The outcome of a trust run, from what it found: the CA file exists and
/// the CA was trusted already.
pub open spec fn spec_trust_outcome(
    ca_exists: bool,
    trusted: bool,
    prompt: bool,
    answer: Seq<char>,
    installed: bool,
) -> bool {
    ca_exists && trusted
}

/// Following the steps of a trust run (`trust_start`, `trust_after_check`,
/// `trust_after_answer`, `trust_after_install`) to their end reports exactly
/// the outcome above.
pub proof fn law_trust_steps(ca_exists: bool, trusted: bool, prompt: bool, answer: Seq<char>, installed: bool)
    ensures
        ({
            let last = if !ca_exists {
                TrustStep::MissingCa
            } else {
                let checked = if trusted {
                    TrustStep::AlreadyTrusted
                } else if !prompt {
                    TrustStep::NotTrusted
                } else {
                    TrustStep::Ask
                };
                if checked != TrustStep::Ask {
                    checked
                } else if !spec_accepts_install(answer) {
                    TrustStep::Declined
                } else if installed {
                    TrustStep::Installed
                } else {
                    TrustStep::InstallFailed
                }
            };
            spec_trust_result(last) == spec_trust_outcome(ca_exists, trusted, prompt, answer, installed)
        }),
{
}

#[verifier::external_type_specification]
#[verifier::external_body]
pub struct ExKeyPair(rcgen::KeyPair);

#[verifier::external_type_specification]
#[verifier::external_body]
pub struct ExCertificate(rcgen::Certificate);

#[verifier::external_type_specification]
#[verifier::external_body]
pub struct ExCertificateParams(rcgen::CertificateParams);

#[verifier::external_type_specification]
#[verifier::external_body]
pub struct ExRcgenError(rcgen::Error);

#[verifier::external_type_specification]
#[verifier::external_body]
pub struct ExServerConfig(rustls::ServerConfig);

#[verifier::external_type_specification]
#[verifier::external_body]
pub struct ExTlsError(rustls::Error);

/// Why the local CA or a host certificate could not be made.
#[derive(Debug)]
pub enum CaError {
    /// Key or certificate generation failed.
    Certificate(rcgen::Error),
    /// The TLS server configuration refused the certificate and key.
    Tls(rustls::Error),
}

/// A key usage the proxy's certificates carry.
#[derive(Clone, Copy, Debug, PartialEq, Eq, Structural)]
pub enum KeyUsage {
    KeyCertSign,
    CrlSign,
}

/// Whether `text` opens with the line `line`, ended by `\n` or `\r\n`.
pub open spec fn opens_with_line(text: Seq<char>, line: Seq<char>) -> bool {
    &&& text.len() > line.len()
    &&& text.subrange(0, line.len() as int) == line
    &&& (text[line.len() as int] == '\n' || text[line.len() as int] == '\r')
}

/// Whether `text` closes with the line `line`, ended by `\n` or `\r\n`.
pub open spec fn closes_with_line(text: Seq<char>, line: Seq<char>) -> bool {
    ||| (text.len() >= line.len() + 1 && text.subrange(text.len() - line.len() - 1, text.len() as int)
        == line.push('\n'))
    ||| (text.len() >= line.len() + 2 && text.subrange(text.len() - line.len() - 2, text.len() as int)
        == line.push('\r').push('\n'))
}

/// Whether `text` is one PEM block labelled `label`: it opens with the line
/// `-----BEGIN label-----` and closes with the line `-----END label-----`.
pub open spec fn is_pem_block(text: Seq<char>, label: Seq<char>) -> bool {
    &&& opens_with_line(text, "-----BEGIN "@ + label + "-----"@)
    &&& closes_with_line(text, "-----END "@ + label + "-----"@)
}

/// An extended key usage the proxy's certificates carry.
#[derive(Clone, Copy, Debug, PartialEq, Eq, Structural)]
pub enum ExtendedKeyUsage {
    ServerAuth,
}

/// The basic constraints of a certificate.
#[derive(Clone, Copy, Debug, PartialEq, Eq, Structural)]
pub enum BasicConstraints {
    /// Not a CA.
    NotCa,
    /// A CA without a path length limit.
    UnconstrainedCa,
}

/// What a certificate is made with, as plain values: its subject alternative
/// names, its subject's common name (the subject holds nothing else), its
/// basic constraints, key usages and extended key usages.
pub struct CertParams {
    pub names: Vec<String>,
    pub common_name: String,
    pub constraints: BasicConstraints,
    pub key_usages: Vec<KeyUsage>,
    pub extended_key_usages: Vec<ExtendedKeyUsage>,
}

/// A model of certificate parameters as plain values: the subject
/// alternative names, the subject's common name (if any; the subject holds
/// nothing else), the basic constraints, key usages and extended key usages.
pub type CertModel = (Seq<Seq<char>>, Option<Seq<char>>, BasicConstraints, Seq<KeyUsage>, Seq<ExtendedKeyUsage>);

/// The model of `p`.
pub open spec fn params_view(p: CertParams) -> CertModel {
    (string_views(p.names@), Some(p.common_name@), p.constraints, p.key_usages@, p.extended_key_usages@)
}

/// The settings of the local CA: no alternative names, named
/// `bangumi-proxy CA`, an unconstrained CA that may sign certificates and
/// CRLs.
pub open spec fn spec_ca_params() -> CertModel {
    (
        Seq::<Seq<char>>::empty(),
        Some(CA_NAME@),
        BasicConstraints::UnconstrainedCa,
        seq![KeyUsage::KeyCertSign, KeyUsage::CrlSign],
        Seq::<ExtendedKeyUsage>::empty(),
    )
}

/// The settings of the certificate for an intercepted `host`: `host` as its
/// one alternative name and its common name, not a CA, for server
/// authentication.
pub open spec fn spec_host_params(host: Seq<char>) -> CertModel {
    (seq![host], Some(host), BasicConstraints::NotCa, Seq::<KeyUsage>::empty(), seq![ExtendedKeyUsage::ServerAuth])
}

/// The PKCS#8 DER bytes of the key pair that rcgen reads from PEM text
/// (`rcgen::KeyPair::from_pem`, then `serialize_der`), or `None` where it
/// reads none.
pub uninterp spec fn rcgen_key_der_of_pem(pem: Seq<char>) -> Option<Seq<u8>>;

/// The PEM text of the key pair that rcgen reads from DER bytes
/// (`rcgen::KeyPair::try_from`, then `serialize_pem`), or `None` where it
/// reads none.
pub uninterp spec fn rcgen_key_pem_of_der(der: Seq<u8>) -> Option<Seq<char>>;

/// Whether rcgen reads a key pair from `der`, writes it as PEM text, and
/// reads the same bytes back from that text.
pub open spec fn key_round_trips(der: Seq<u8>) -> bool {
    &&& rcgen_key_pem_of_der(der) is Some
    &&& rcgen_key_der_of_pem(rcgen_key_pem_of_der(der)->0) == Some(der)
}

/// The DER bytes of the key pair rcgen reads from `pem`
/// (`rcgen::KeyPair::from_pem`, then `serialize_der`, which gives back the
/// bytes that the PEM block holds); rcgen reads those bytes as a key pair
/// again, and its PEM text for them holds them.
#[verifier::external_body]
fn key_der_from_pem(pem: &str) -> (r: Result<Vec<u8>, rcgen::Error>)
    ensures
        match r {
            Ok(d) => rcgen_key_der_of_pem(pem@) == Some(d@) && key_round_trips(d@),
            Err(_) => rcgen_key_der_of_pem(pem@) is None,
        },
{
    Ok(rcgen::KeyPair::from_pem(pem)?.serialize_der())
}

/// The PEM text of the key pair rcgen reads from `der`
/// (`rcgen::KeyPair::try_from`, then `serialize_pem`): one `PRIVATE KEY`
/// block (lines end in `\n`, or `\r\n` on Windows) holding `der` itself, so
/// that rcgen reads the same bytes back from it.
#[verifier::external_body]
fn key_pem_from_der(der: &[u8]) -> (r: Result<String, rcgen::Error>)
    ensures
        match r {
            Ok(p) => rcgen_key_pem_of_der(der@) == Some(p@) && is_pem_block(p@, "PRIVATE KEY"@)
                && rcgen_key_der_of_pem(p@) == Some(der@),
            Err(_) => rcgen_key_pem_of_der(der@) is None,
        },
{
    Ok(rcgen::KeyPair::try_from(der)?.serialize_pem())
}

/// The DER bytes of a new random key pair (`rcgen::KeyPair::generate`,
/// ECDSA P-256, then `serialize_der`); rcgen reads them as a key pair again,
/// and its PEM text for them holds them.
#[verifier::external_body]
fn generate_key_der() -> (r: Result<Vec<u8>, rcgen::Error>)
    ensures
        r matches Ok(d) ==> key_round_trips(d@),
{
    Ok(rcgen::KeyPair::generate()?.serialize_der())
}

/// An rcgen key pair with the DER bytes it was read from.
pub struct RcgenKey {
    pair: rcgen::KeyPair,
    der: Ghost<Seq<u8>>,
}

/// The key pair rcgen reads from `der` (`rcgen::KeyPair::try_from`); it
/// fails where `key_pem_from_der` does.
#[verifier::external_body]
fn key_pair_from_der(der: &[u8]) -> (r: Result<RcgenKey, rcgen::Error>)
    ensures
        r is Ok <==> rcgen_key_pem_of_der(der@) is Some,
        r matches Ok(k) ==> k.der@ == der@,
{
    Ok(RcgenKey { pair: rcgen::KeyPair::try_from(der)?, der: Ghost(der@) })
}

/// rcgen certificate parameters with their model.
pub struct RcgenParams {
    params: rcgen::CertificateParams,
    model: Ghost<CertModel>,
}

/// Parameters with the given subject alternative names
/// (`rcgen::CertificateParams::new`): a name that parses as an IP address is
/// one, any other must be ASCII to be taken as a DNS name, so the call fails
/// exactly when some name is not ASCII. The rest is rcgen's default: subject
/// common name `rcgen self signed cert`, not a CA, no key usages.
#[verifier::external_body]
fn params_with_names(names: Vec<String>) -> (r: Result<RcgenParams, rcgen::Error>)
    ensures
        r is Ok <==> forall|i: int| 0 <= i < names@.len() ==> is_ascii_chars(#[trigger] names@[i]@),
        r matches Ok(p) ==> p.model@ == (
            string_views(names@),
            Some("rcgen self signed cert"@),
            BasicConstraints::NotCa,
            Seq::<KeyUsage>::empty(),
            Seq::<ExtendedKeyUsage>::empty(),
        ),
{
    let ghost names_view = string_views(names@);
    Ok(RcgenParams {
        params: rcgen::CertificateParams::new(names)?,
        model: Ghost((names_view, Some("rcgen self signed cert"@), BasicConstraints::NotCa, Seq::empty(), Seq::empty())),
    })
}

/// Sets the basic constraints (the `is_ca` field).
#[verifier::external_body]
fn set_constraints(params: &mut RcgenParams, constraints: BasicConstraints)
    ensures
        final(params).model@ == (
            old(params).model@.0,
            old(params).model@.1,
            constraints,
            old(params).model@.3,
            old(params).model@.4,
        ),
{
    params.params.is_ca = match constraints {
        BasicConstraints::NotCa => rcgen::IsCa::NoCa,
        BasicConstraints::UnconstrainedCa => rcgen::IsCa::Ca(rcgen::BasicConstraints::Unconstrained),
    };
}

/// Empties the subject (`rcgen::DistinguishedName::new` into the
/// `distinguished_name` field).
#[verifier::external_body]
fn clear_subject(params: &mut RcgenParams)
    ensures
        final(params).model@ == (
            old(params).model@.0,
            None::<Seq<char>>,
            old(params).model@.2,
            old(params).model@.3,
            old(params).model@.4,
        ),
{
    params.params.distinguished_name = rcgen::DistinguishedName::new();
}

/// Sets the subject's common name (`rcgen::DistinguishedName::push` with
/// `DnType::CommonName`, which replaces an earlier common name).
#[verifier::external_body]
fn push_common_name(params: &mut RcgenParams, name: &str)
    ensures
        final(params).model@ == (
            old(params).model@.0,
            Some(name@),
            old(params).model@.2,
            old(params).model@.3,
            old(params).model@.4,
        ),
{
    params.params.distinguished_name.push(rcgen::DnType::CommonName, name);
}

/// Sets the key usages (the `key_usages` field).
#[verifier::external_body]
fn set_key_usages(params: &mut RcgenParams, usages: Vec<KeyUsage>)
    ensures
        final(params).model@ == (
            old(params).model@.0,
            old(params).model@.1,
            old(params).model@.2,
            usages@,
            old(params).model@.4,
        ),
{
    params.params.key_usages = usages.into_iter().map(|u| match u {
        KeyUsage::KeyCertSign => rcgen::KeyUsagePurpose::KeyCertSign,
        KeyUsage::CrlSign => rcgen::KeyUsagePurpose::CrlSign,
    }).collect();
}

/// Sets the extended key usages (the `extended_key_usages` field).
#[verifier::external_body]
fn set_extended_key_usages(params: &mut RcgenParams, usages: Vec<ExtendedKeyUsage>)
    ensures
        final(params).model@ == (
            old(params).model@.0,
            old(params).model@.1,
            old(params).model@.2,
            old(params).model@.3,
            usages@,
        ),
{
    params.params.extended_key_usages = usages.into_iter().map(|u| match u {
        ExtendedKeyUsage::ServerAuth => rcgen::ExtendedKeyUsagePurpose::ServerAuth,
    }).collect();
}

/// An rcgen certificate with its DER bytes, the model of the parameters it
/// was made with, the DER bytes of its subject's key and of the key that
/// signed it, and the common name of its issuer.
pub struct RcgenCert {
    cert: rcgen::Certificate,
    der: Vec<u8>,
    model: Ghost<CertModel>,
    subject_key: Ghost<Seq<u8>>,
    issuer_key: Ghost<Seq<u8>>,
    issuer_name: Ghost<Option<Seq<char>>>,
}

/// A certificate made from `params` for `key` and signed by it, its issuer
/// being its own subject (`rcgen::CertificateParams::self_signed`), with its
/// DER bytes (`rcgen::Certificate::der`).
#[verifier::external_body]
fn self_signed(params: RcgenParams, key: &RcgenKey) -> (r: Result<RcgenCert, rcgen::Error>)
    ensures
        r matches Ok(c) ==> c.model@ == params.model@ && c.subject_key@ == key.der@ && c.issuer_key@
            == key.der@ && c.issuer_name@ == params.model@.1,
{
    let ghost model = params.model@;
    let cert = params.params.self_signed(&key.pair)?;
    let der = cert.der().to_vec();
    Ok(RcgenCert {
        cert,
        der,
        model: Ghost(model),
        subject_key: Ghost(key.der@),
        issuer_key: Ghost(key.der@),
        issuer_name: Ghost(model.1),
    })
}

/// A certificate made from `params` for `key`, issued by `issuer` (whose
/// subject becomes its issuer) and signed with `issuer_key`
/// (`rcgen::CertificateParams::signed_by`), with its DER bytes
/// (`rcgen::Certificate::der`).
#[verifier::external_body]
fn signed_by(params: RcgenParams, key: &RcgenKey, issuer: &RcgenCert, issuer_key: &RcgenKey) -> (r: Result<
    RcgenCert,
    rcgen::Error,
>)
    ensures
        r matches Ok(c) ==> c.model@ == params.model@ && c.subject_key@ == key.der@ && c.issuer_key@
            == issuer_key.der@ && c.issuer_name@ == issuer.model@.1,
{
    let ghost model = params.model@;
    let cert = params.params.signed_by(&key.pair, &issuer.cert, &issuer_key.pair)?;
    let der = cert.der().to_vec();
    Ok(RcgenCert {
        cert,
        der,
        model: Ghost(model),
        subject_key: Ghost(key.der@),
        issuer_key: Ghost(issuer_key.der@),
        issuer_name: Ghost(issuer.model@.1),
    })
}

/// The PEM text of a certificate (`rcgen::Certificate::pem`): its DER bytes
/// encoded by the `pem` crate as one `CERTIFICATE` block, whose lines end in
/// `\n`, or in `\r\n` on Windows.
#[verifier::external_body]
fn certificate_pem(cert: &RcgenCert) -> (r: String)
    ensures
        is_pem_block(r@, "CERTIFICATE"@),
{
    cert.cert.pem()
}

/// A TLS server configuration with the certificate and key it presents.
pub struct TlsConfig {
    config: rustls::ServerConfig,
    cert_der: Ghost<Seq<u8>>,
    key_der: Ghost<Seq<u8>>,
}

impl TlsConfig {
    /// The DER bytes of the one certificate the configuration presents.
    pub closed spec fn certificate(self) -> Seq<u8> {
        self.cert_der@
    }

    /// The PKCS#8 DER bytes of the certificate's key.
    pub closed spec fn key(self) -> Seq<u8> {
        self.key_der@
    }

    /// The rustls configuration.
    pub fn into_config(self) -> rustls::ServerConfig {
        self.config
    }
}

/// A TLS server configuration without client authentication that presents
/// the one certificate `cert_der` with the PKCS#8 key `key_der`
/// (`rustls::ServerConfig::builder`, `with_no_client_auth`,
/// `with_single_cert`); fails when the key is invalid or does not match the
/// certificate.
#[verifier::external_body]
fn tls_server_config(cert_der: Vec<u8>, key_der: Vec<u8>) -> (r: Result<TlsConfig, rustls::Error>)
    ensures
        r matches Ok(c) ==> c.cert_der@ == cert_der@ && c.key_der@ == key_der@,
{
    let ghost (cert_view, key_view) = (cert_der@, key_der@);
    let certs = vec![rustls::pki_types::CertificateDer::from(cert_der)];
    let key = rustls::pki_types::PrivateKeyDer::from(rustls::pki_types::PrivatePkcs8KeyDer::from(key_der));
    let config = rustls::ServerConfig::builder().with_no_client_auth().with_single_cert(certs, key)?;
    Ok(TlsConfig { config, cert_der: Ghost(cert_view), key_der: Ghost(key_view) })
}

/// The parameters of the local CA.
fn ca_params() -> (p: CertParams)
    ensures
        params_view(p) == spec_ca_params(),
{
    let mut key_usages: Vec<KeyUsage> = Vec::new();
    key_usages.push(KeyUsage::KeyCertSign);
    key_usages.push(KeyUsage::CrlSign);
    let p = CertParams {
        names: Vec::new(),
        common_name: String::from_str(CA_NAME),
        constraints: BasicConstraints::UnconstrainedCa,
        key_usages,
        extended_key_usages: Vec::new(),
    };
    assert(string_views(p.names@) =~= Seq::<Seq<char>>::empty());
    assert(p.key_usages@ =~= seq![KeyUsage::KeyCertSign, KeyUsage::CrlSign]);
    p
}

/// The parameters of the certificate for an intercepted `host`.
pub fn host_params(host: &str) -> (p: CertParams)
    ensures
        params_view(p) == spec_host_params(host@),
{
    let mut names: Vec<String> = Vec::new();
    names.push(String::from_str(host));
    let mut extended_key_usages: Vec<ExtendedKeyUsage> = Vec::new();
    extended_key_usages.push(ExtendedKeyUsage::ServerAuth);
    let p = CertParams {
        names,
        common_name: String::from_str(host),
        constraints: BasicConstraints::NotCa,
        key_usages: Vec::new(),
        extended_key_usages,
    };
    assert(string_views(p.names@) =~= seq![host@]);
    assert(p.extended_key_usages@ =~= seq![ExtendedKeyUsage::ServerAuth]);
    p
}

/// rcgen's parameters for `p`, each setting handed over; they fail exactly
/// when an alternative name is not ASCII.
fn rcgen_params(p: CertParams) -> (r: Result<RcgenParams, rcgen::Error>)
    ensures
        r is Ok <==> forall|i: int| 0 <= i < p.names@.len() ==> is_ascii_chars(#[trigger] p.names@[i]@),
        r matches Ok(rp) ==> rp.model@ == params_view(p),
{
    let ghost view = params_view(p);
    let mut params = match params_with_names(p.names) {
        Ok(params) => params,
        Err(e) => return Err(e),
    };
    set_constraints(&mut params, p.constraints);
    clear_subject(&mut params);
    push_common_name(&mut params, p.common_name.as_str());
    set_key_usages(&mut params, p.key_usages);
    set_extended_key_usages(&mut params, p.extended_key_usages);
    assert(params.model@ == view);
    Ok(params)
}

/// Where the local CA comes from.
#[derive(Clone, Copy, Debug, PartialEq, Eq, Structural)]
pub enum CaSource {
    /// `ca.pem` and `ca-key.pem` exist: the key is loaded.
    Load,
    /// Otherwise a new key and certificate are made and saved.
    Generate,
}

pub fn ca_source(cert_exists: bool, key_exists: bool) -> (s: CaSource)
    ensures
        s == (if cert_exists && key_exists {
            CaSource::Load
        } else {
            CaSource::Generate
        }),
{
    if cert_exists && key_exists {
        CaSource::Load
    } else {
        CaSource::Generate
    }
}

/// The local CA that signs a certificate for each intercepted host: its key
/// (with its PKCS#8 DER bytes) and its self-signed certificate (with its PEM
/// text).
pub struct MitmCa {
    key: RcgenKey,
    key_der: Vec<u8>,
    cert: RcgenCert,
    cert_text: String,
}

impl MitmCa {
    #[verifier::type_invariant]
    spec fn inv(self) -> bool {
        self.wf()
    }

    /// The CA's key and certificate agree: the certificate, made from the
    /// CA parameters, is for the key and signed by it, and rcgen reads the
    /// key back from its PEM text.
    pub closed spec fn wf(self) -> bool {
        &&& self.key.der@ == self.key_der@
        &&& key_round_trips(self.key_der@)
        &&& self.cert.model@ == spec_ca_params()
        &&& self.cert.subject_key@ == self.key_der@
        &&& self.cert.issuer_key@ == self.key_der@
        &&& is_pem_block(self.cert_text@, "CERTIFICATE"@)
    }

    /// The CA key's PKCS#8 DER bytes.
    pub closed spec fn key(self) -> Seq<u8> {
        self.key_der@
    }

    /// The CA certificate's PEM text.
    pub closed spec fn certificate(self) -> Seq<char> {
        self.cert_text@
    }

    /// The parameters the CA certificate was made with.
    pub closed spec fn params(self) -> CertModel {
        self.cert.model@
    }

    /// The common name of the CA certificate's issuer.
    pub closed spec fn issuer_name(self) -> Option<Seq<char>> {
        self.cert.issuer_name@
    }

    /// What holds of a CA made from `key`: it is well formed, holds `key`,
    /// and its certificate was made from the CA parameters and signed by
    /// `key`, its issuer being itself.
    pub open spec fn made_from(self, key: Seq<u8>) -> bool {
        &&& self.wf()
        &&& self.key() == key
        &&& self.params() == spec_ca_params()
        &&& self.issuer_name() == Some(CA_NAME@)
    }

    /// The CA of `key_der`: its certificate is made, self-signed, from the
    /// CA parameters.
    fn from_key_der(key_der: Vec<u8>) -> (r: Result<MitmCa, CaError>)
        requires
            key_round_trips(key_der@),
        ensures
            r matches Ok(ca) ==> ca.made_from(key_der@),
    {
        let key = match key_pair_from_der(key_der.as_slice()) {
            Ok(k) => k,
            Err(e) => return Err(CaError::Certificate(e)),
        };
        let params = match rcgen_params(ca_params()) {
            Ok(params) => params,
            Err(e) => return Err(CaError::Certificate(e)),
        };
        match self_signed(params, &key) {
            Ok(cert) => {
                let cert_text = certificate_pem(&cert);
                Ok(MitmCa { key, key_der, cert, cert_text })
            },
            Err(e) => Err(CaError::Certificate(e)),
        }
    }

    /// The CA of a saved key: the key rcgen reads from `key_pem`, and a
    /// certificate made again, self-signed, from the CA parameters. Text
    /// that holds no key gives an error.
    pub fn load(key_pem: &str) -> (r: Result<MitmCa, CaError>)
        ensures
            rcgen_key_der_of_pem(key_pem@) is None ==> (r matches Err(CaError::Certificate(_))),
            r matches Ok(ca) ==> rcgen_key_der_of_pem(key_pem@) == Some(ca.key()) && ca.made_from(ca.key()),
    {
        match key_der_from_pem(key_pem) {
            Ok(der) => MitmCa::from_key_der(der),
            Err(e) => Err(CaError::Certificate(e)),
        }
    }

    /// A new CA with a fresh random key, its certificate self-signed from
    /// the CA parameters.
    pub fn generate() -> (r: Result<MitmCa, CaError>)
        ensures
            r matches Ok(ca) ==> ca.made_from(ca.key()),
    {
        match generate_key_der() {
            Ok(der) => MitmCa::from_key_der(der),
            Err(e) => Err(CaError::Certificate(e)),
        }
    }

    /// The CA certificate in PEM form (saved as `ca.pem`).
    pub fn cert_pem(&self) -> (r: String)
        ensures
            r@ == self.certificate(),
            is_pem_block(r@, "CERTIFICATE"@),
    {
        proof {
            use_type_invariant(self);
        }
        self.cert_text.clone()
    }

    /// The CA key in PEM form (saved as `ca-key.pem`): the PEM text rcgen
    /// writes for the key, from which rcgen reads the same key back.
    pub fn key_pem(&self) -> (r: String)
        ensures
            rcgen_key_pem_of_der(self.key()) == Some(r@),
            rcgen_key_der_of_pem(r@) == Some(self.key()),
            is_pem_block(r@, "PRIVATE KEY"@),
    {
        proof {
            use_type_invariant(self);
        }
        match key_pem_from_der(self.key_der.as_slice()) {
            Ok(p) => p,
            Err(_) => {
                proof {
                    assert(false);
                }
                String::new()
            },
        }
    }

    /// A fresh certificate for `host`, made from `host_params(host)` for a
    /// new random key and signed with this CA's key, this CA being its
    /// issuer. A host that is not ASCII gets none.
    pub fn host_certificate(&self, host: &str) -> (r: Result<HostCertificate, CaError>)
        ensures
            !is_ascii_chars(host@) ==> (r matches Err(CaError::Certificate(_))),
            r matches Ok(c) ==> c.issued_for(host@, self.key()),
    {
        proof {
            use_type_invariant(self);
        }
        let host_der = match generate_key_der() {
            Ok(d) => d,
            Err(e) => return Err(CaError::Certificate(e)),
        };
        let host_key = match key_pair_from_der(host_der.as_slice()) {
            Ok(k) => k,
            Err(e) => return Err(CaError::Certificate(e)),
        };
        let p = host_params(host);
        let ghost requested = p.names@;
        assert(string_views(requested).len() == 1 && string_views(requested)[0] == host@);
        assert(string_views(requested)[0] == requested[0]@);
        let params = match rcgen_params(p) {
            Ok(params) => params,
            Err(e) => return Err(CaError::Certificate(e)),
        };
        assert(is_ascii_chars(requested[0]@));
        match signed_by(params, &host_key, &self.cert, &self.key) {
            Ok(cert) => Ok(HostCertificate { cert, key_der: host_der }),
            Err(e) => Err(CaError::Certificate(e)),
        }
    }

    /// The TLS server configuration, without client authentication, that
    /// presents `host_certificate(host)` with its key. A host that is not
    /// ASCII gets none.
    pub fn server_config(&self, host: &str) -> (r: Result<TlsConfig, CaError>)
        ensures
            !is_ascii_chars(host@) ==> (r matches Err(CaError::Certificate(_))),
            r matches Ok(cfg) ==> exists|c: HostCertificate|
                #![trigger c.issued_for(host@, self.key())]
                c.issued_for(host@, self.key()) && cfg.certificate() == c.der() && cfg.key() == c.key(),
    {
        let c = match self.host_certificate(host) {
            Ok(c) => c,
            Err(e) => return Err(e),
        };
        let ghost issued = c;
        match tls_server_config(c.cert.der, c.key_der) {
            Ok(config) => {
                assert(issued.issued_for(host@, self.key()));
                Ok(config)
            },
            Err(e) => Err(CaError::Tls(e)),
        }
    }
}

/// A certificate for an intercepted host, with its key's PKCS#8 DER bytes.
pub struct HostCertificate {
    cert: RcgenCert,
    key_der: Vec<u8>,
}

impl HostCertificate {
    /// The certificate's DER bytes.
    pub closed spec fn der(self) -> Seq<u8> {
        self.cert.der@
    }

    /// The certificate's key, as PKCS#8 DER bytes.
    pub closed spec fn key(self) -> Seq<u8> {
        self.key_der@
    }

    /// The parameters the certificate was made with.
    pub closed spec fn params(self) -> CertModel {
        self.cert.model@
    }

    /// The DER bytes of the key that signed the certificate.
    pub closed spec fn issuer_key(self) -> Seq<u8> {
        self.cert.issuer_key@
    }

    /// The common name of the certificate's issuer.
    pub closed spec fn issuer_name(self) -> Option<Seq<char>> {
        self.cert.issuer_name@
    }

    /// The DER bytes of the key the certificate is for.
    pub closed spec fn subject_key(self) -> Seq<u8> {
        self.cert.subject_key@
    }

    /// Whether this is a certificate for `host` made from
    /// `host_params(host)` for its own key, issued by the local CA and signed
    /// with `ca_key`.
    pub open spec fn issued_for(self, host: Seq<char>, ca_key: Seq<u8>) -> bool {
        &&& self.params() == spec_host_params(host)
        &&& self.subject_key() == self.key()
        &&& self.issuer_key() == ca_key
        &&& self.issuer_name() == Some(CA_NAME@)
    }

    /// The certificate's DER bytes.
    pub fn cert_der(&self) -> (r: Vec<u8>)
        ensures
            r@ == self.der(),
    {
        self.cert.der.clone()
    }

    /// The certificate's key, as PKCS#8 DER bytes.
    pub fn key_der(&self) -> (r: Vec<u8>)
        ensures
            r@ == self.key(),
    {
        self.key_der.clone()
    }
}

/// A saved CA loads back with its key: rcgen reads back, from the text that
/// `key_pem` writes for a CA's key, that same key, which is what `load`
/// keeps.
pub proof fn law_saved_key_loads_back(ca: MitmCa, text: Seq<char>)
    requires
        ca.wf(),
        rcgen_key_pem_of_der(ca.key()) == Some(text),
    ensures
        rcgen_key_der_of_pem(text) == Some(ca.key()),
{
}

} // verus!
