//! PEM and X.509 material: parsing, and the checks on what parsing gave.

use rustls::pki_types::pem::PemObject;
use rustls::pki_types::{CertificateDer, PrivateKeyDer};
use vstd::prelude::*;
use vstd::string::*;

use crate::certs::origin::{
    pair_view, CertError, CertErrorView, CertifiedKey, KeyFormat, KeyView,
};
use crate::headers::bytes_views;
use crate::text::{lower, same, texts, to_lower};

verus! {

broadcast use vstd::string::group_string_axioms;

/// A subject alternative name.
#[derive(Debug)]
pub enum AltName {
    Dns(String),
    Other,
}

/// The model of an [`AltName`].
pub enum AltNameView {
    Dns(Seq<char>),
    Other,
}

impl View for AltName {
    type V = AltNameView;

    open spec fn view(&self) -> AltNameView {
        match self {
            AltName::Dns(n) => AltNameView::Dns(n@),
            AltName::Other => AltNameView::Other,
        }
    }
}

/// What could not be read while looking for alternative names.
#[derive(Clone, Copy, Debug, PartialEq, Eq, Structural)]
pub enum NameStage {
    Certificate,
    Extension,
}

/// View of a parsed chain.
pub open spec fn chain_result(r: Result<Vec<Vec<u8>>, String>) -> Result<Seq<Seq<u8>>, Seq<char>> {
    match r {
        Ok(v) => Ok(bytes_views(v@)),
        Err(e) => Err(e@),
    }
}

/// A parsed private key, if there was one.
pub type FoundKey = Result<Option<(KeyFormat, Seq<u8>)>, Seq<char>>;

/// View of a parsed private key.
pub open spec fn key_result(r: Result<Option<(KeyFormat, Vec<u8>)>, String>) -> FoundKey {
    match r {
        Ok(Some((f, d))) => Ok(Some((f, d@))),
        Ok(None) => Ok(None),
        Err(e) => Err(e@),
    }
}

/// Parsed alternative names, if the certificate has the extension.
pub type FoundNames = Result<Option<Seq<AltNameView>>, (NameStage, Seq<char>)>;

/// Views of a list of alternative names.
pub open spec fn alt_views(v: Seq<AltName>) -> Seq<AltNameView> {
    Seq::new(v.len(), |i: int| v[i]@)
}

/// View of parsed alternative names.
pub open spec fn names_result(r: Result<Option<Vec<AltName>>, (NameStage, String)>) -> FoundNames {
    match r {
        Ok(Some(v)) => Ok(Some(alt_views(v@))),
        Ok(None) => Ok(None),
        Err((s, e)) => Err((s, e@)),
    }
}

/// The certificates, as DER, of a PEM text; or the message of the first
/// section that is malformed.
pub uninterp spec fn pem_chain(pem: Seq<u8>) -> Result<Seq<Seq<u8>>, Seq<char>>;

/// `CertificateDer::pem_slice_iter`, collected up to the first error.
#[verifier::external_body]
pub(crate) fn pem_certs(pem: &[u8]) -> (r: Result<Vec<Vec<u8>>, String>)
    ensures
        chain_result(r) == pem_chain(pem@),
{
    let sections = CertificateDer::pem_slice_iter(pem);
    sections.map(|c| c.map(|d| d.to_vec()).map_err(|e| e.to_string())).collect()
}

/// The first private key of a PEM text, none where there is no key section; or
/// the message of a malformed section before it.
pub uninterp spec fn pem_key(pem: Seq<u8>) -> FoundKey;

/// `PrivateKeyDer::from_pem_slice`; its "no items found" error is given as
/// none.
#[verifier::external_body]
pub(crate) fn pem_private_key(pem: &[u8]) -> (r: Result<Option<(KeyFormat, Vec<u8>)>, String>)
    ensures
        key_result(r) == pem_key(pem@),
{
    match PrivateKeyDer::from_pem_slice(pem) {
        Ok(PrivateKeyDer::Pkcs1(k)) => Ok(Some((KeyFormat::Pkcs1, k.secret_pkcs1_der().to_vec()))),
        Ok(PrivateKeyDer::Sec1(k)) => Ok(Some((KeyFormat::Sec1, k.secret_sec1_der().to_vec()))),
        Ok(PrivateKeyDer::Pkcs8(k)) => Ok(Some((KeyFormat::Pkcs8, k.secret_pkcs8_der().to_vec()))),
        Ok(_) => Ok(None),
        Err(rustls::pki_types::pem::Error::NoItemsFound) => Ok(None),
        Err(e) => Err(e.to_string()),
    }
}

/// The error with which a private key is refused for signing, as its message
/// and as its `Debug` text; none where the key is accepted.
pub uninterp spec fn signing_error(format: KeyFormat, der: Seq<u8>) -> Option<
    (Seq<char>, Seq<char>),
>;

/// `rustls::crypto::ring::sign::any_supported_type`, and its error as message
/// and as `Debug` text.
#[verifier::external_body]
pub(crate) fn check_signing_key(format: KeyFormat, der: &[u8]) -> (r: Option<(String, String)>)
    ensures
        pair_view(r) == signing_error(format, der@),
{
    let key = match format {
        KeyFormat::Pkcs1 => PrivateKeyDer::Pkcs1(der.to_vec().into()),
        KeyFormat::Sec1 => PrivateKeyDer::Sec1(der.to_vec().into()),
        KeyFormat::Pkcs8 => PrivateKeyDer::Pkcs8(der.to_vec().into()),
    };
    let refused = rustls::crypto::ring::sign::any_supported_type(&key).err();
    refused.map(|e| (e.to_string(), format!("{:?}", e)))
}

/// The subject alternative names of a certificate, none where it has no such
/// extension; or which part could not be read, with the message.
pub uninterp spec fn x509_names(der: Seq<u8>) -> FoundNames;

/// `x509_parser::parse_x509_certificate`, with `subject_alternative_name` of
/// the result.
#[verifier::external_body]
pub(crate) fn x509_alt_names(der: &[u8]) -> (r: Result<Option<Vec<AltName>>, (NameStage, String)>)
    ensures
        names_result(r) == x509_names(der@),
{
    let (_, cert) = x509_parser::parse_x509_certificate(der).map_err(
        |e| (NameStage::Certificate, e.to_string()),
    )?;
    let ext = cert.subject_alternative_name().map_err(|e| (NameStage::Extension, e.to_string()))?;
    Ok(ext.map(|x| x.value.general_names.iter().map(|n| match n {
        x509_parser::extensions::GeneralName::DNSName(d) => AltName::Dns(d.to_string()),
        _ => AltName::Other,
    }).collect()))
}

/// A chain is accepted where it parsed and is not empty.
pub open spec fn chain_or_error(
    rule: Seq<char>,
    route: Seq<char>,
    path: Seq<char>,
    found: Result<Seq<Seq<u8>>, Seq<char>>,
) -> Result<Seq<Seq<u8>>, CertErrorView> {
    match found {
        Err(detail) => Err(
            CertErrorView::Pem { rule, route, kind: "certificate"@, path, detail },
        ),
        Ok(chain) => if chain.len() == 0 {
            Err(CertErrorView::CertEmpty { rule, route, path })
        } else {
            Ok(chain)
        },
    }
}

/// Checks a parsed chain.
pub fn checked_chain(
    rule: &str,
    route: &str,
    path: &str,
    found: Result<Vec<Vec<u8>>, String>,
) -> (r: Result<Vec<Vec<u8>>, CertError>)
    ensures
        match chain_or_error(rule@, route@, path@, chain_result(found)) {
            Ok(c) => r is Ok && bytes_views(r->Ok_0@) == c,
            Err(e) => r is Err && r->Err_0@ == e,
        },
{
    match found {
        Err(detail) => Err(
            CertError::Pem {
                rule: rule.to_owned(),
                route: route.to_owned(),
                kind: "certificate",
                path: path.to_owned(),
                detail,
            },
        ),
        Ok(chain) => {
            assert(bytes_views(chain@).len() == chain@.len());
            if chain.len() == 0 {
                Err(
                    CertError::CertEmpty {
                        rule: rule.to_owned(),
                        route: route.to_owned(),
                        path: path.to_owned(),
                    },
                )
            } else {
                Ok(chain)
            }
        },
    }
}

/// A key is accepted where it parsed and was there.
pub open spec fn key_or_error(
    rule: Seq<char>,
    route: Seq<char>,
    path: Seq<char>,
    found: FoundKey,
) -> Result<(KeyFormat, Seq<u8>), CertErrorView> {
    match found {
        Err(detail) => Err(
            CertErrorView::Pem { rule, route, kind: "private key"@, path, detail },
        ),
        Ok(None) => Err(CertErrorView::KeyEmpty { rule, route, path }),
        Ok(Some(k)) => Ok(k),
    }
}

/// Checks a parsed key.
pub fn checked_key(
    rule: &str,
    route: &str,
    path: &str,
    found: Result<Option<(KeyFormat, Vec<u8>)>, String>,
) -> (r: Result<(KeyFormat, Vec<u8>), CertError>)
    ensures
        match key_or_error(rule@, route@, path@, key_result(found)) {
            Ok(k) => r is Ok && r->Ok_0.0 == k.0 && r->Ok_0.1@ == k.1,
            Err(e) => r is Err && r->Err_0@ == e,
        },
{
    match found {
        Err(detail) => Err(
            CertError::Pem {
                rule: rule.to_owned(),
                route: route.to_owned(),
                kind: "private key",
                path: path.to_owned(),
                detail,
            },
        ),
        Ok(None) => Err(
            CertError::KeyEmpty {
                rule: rule.to_owned(),
                route: route.to_owned(),
                path: path.to_owned(),
            },
        ),
        Ok(Some(k)) => Ok(k),
    }
}

/// The chain and key of a pair of PEM texts, or the first thing wrong with
/// them: the chain, then the key, then its use for signing.
pub open spec fn pair_or_error(
    rule: Seq<char>,
    route: Seq<char>,
    cert_path: Seq<char>,
    cert_pem: Seq<u8>,
    key_path: Seq<char>,
    key_pem: Seq<u8>,
) -> Result<KeyView, CertErrorView> {
    match chain_or_error(rule, route, cert_path, pem_chain(cert_pem)) {
        Err(e) => Err(e),
        Ok(chain) => match key_or_error(rule, route, key_path, pem_key(key_pem)) {
            Err(e) => Err(e),
            Ok((format, key)) => match signing_error(format, key) {
                Some((detail, _)) => Err(CertErrorView::SigningKey { rule, route, detail }),
                None => Ok(KeyView { chain, format, key }),
            },
        },
    }
}

/// Parses and checks a pair of PEM texts.
pub fn parse_pem_pair(
    rule: &str,
    route: &str,
    cert_path: &str,
    cert_pem: &[u8],
    key_path: &str,
    key_pem: &[u8],
) -> (r: Result<CertifiedKey, CertError>)
    ensures
        match pair_or_error(rule@, route@, cert_path@, cert_pem@, key_path@, key_pem@) {
            Ok(k) => r is Ok && r->Ok_0@ == k,
            Err(e) => r is Err && r->Err_0@ == e,
        },
{
    let chain = match checked_chain(rule, route, cert_path, pem_certs(cert_pem)) {
        Ok(c) => c,
        Err(e) => {
            return Err(e);
        },
    };
    let (format, key) = match checked_key(rule, route, key_path, pem_private_key(key_pem)) {
        Ok(k) => k,
        Err(e) => {
            return Err(e);
        },
    };
    match check_signing_key(format, key.as_slice()) {
        Some((detail, _)) => Err(
            CertError::SigningKey { rule: rule.to_owned(), route: route.to_owned(), detail },
        ),
        None => Ok(CertifiedKey { chain, format, key }),
    }
}

/// The DNS names among the first `n` alternative names, in lowercase, each
/// once, in the order of their first occurrence.
pub open spec fn dns_names(names: Seq<AltNameView>, n: int) -> Seq<Seq<char>>
    decreases n,
{
    if n <= 0 {
        Seq::empty()
    } else {
        let before = dns_names(names, n - 1);
        match names[n - 1] {
            AltNameView::Dns(d) => if before.contains(lower(d)) {
                before
            } else {
                before.push(lower(d))
            },
            AltNameView::Other => before,
        }
    }
}

/// Whether `name` is among `list`.
pub fn is_listed(list: &Vec<String>, name: &str) -> (r: bool)
    ensures
        r == texts(list@).contains(name@),
{
    for i in 0..list.len()
        invariant
            forall|j: int| 0 <= j < i ==> texts(list@)[j] != name@,
    {
        if same(list[i].as_str(), name) {
            assert(texts(list@)[i as int] == name@);
            return true;
        }
    }
    false
}

/// The DNS names among alternative names, in lowercase, each once.
pub fn collect_dns_names(names: &Vec<AltName>) -> (r: Vec<String>)
    ensures
        texts(r@) == dns_names(alt_views(names@), names@.len() as int),
{
    let mut out: Vec<String> = Vec::new();
    let ghost all = alt_views(names@);
    assert(texts(out@) =~= Seq::<Seq<char>>::empty());
    for i in 0..names.len()
        invariant
            all == alt_views(names@),
            texts(out@) == dns_names(all, i as int),
    {
        assert(all[i as int] == names@[i as int]@);
        if let AltName::Dns(d) = &names[i] {
            let l = to_lower(d.as_str());
            if !is_listed(&out, l.as_str()) {
                let ghost done = out@;
                let ghost name = l@;
                out.push(l);
                assert(texts(out@) =~= texts(done).push(name));
            }
        }
    }
    out
}

/// The DNS names of a certificate, or which part could not be read. A
/// certificate without the extension covers no name.
pub open spec fn names_or_error(path: Seq<char>, found: FoundNames) -> Result<
    Seq<Seq<char>>,
    CertErrorView,
> {
    match found {
        Err((stage, detail)) => Err(
            CertErrorView::Pem {
                rule: "<default>"@,
                route: "<default>"@,
                kind: match stage {
                    NameStage::Certificate => "x509"@,
                    NameStage::Extension => "x509-sans"@,
                },
                path,
                detail,
            },
        ),
        Ok(None) => Ok(Seq::empty()),
        Ok(Some(names)) => Ok(dns_names(names, names.len() as int)),
    }
}

/// Checks parsed alternative names.
pub fn checked_names(path: &str, found: Result<Option<Vec<AltName>>, (NameStage, String)>) -> (r:
    Result<Vec<String>, CertError>)
    ensures
        match names_or_error(path@, names_result(found)) {
            Ok(n) => r is Ok && texts(r->Ok_0@) == n,
            Err(e) => r is Err && r->Err_0@ == e,
        },
{
    match found {
        Err((stage, detail)) => {
            let kind = match stage {
                NameStage::Certificate => "x509",
                NameStage::Extension => "x509-sans",
            };
            Err(
                CertError::Pem {
                    rule: "<default>".to_owned(),
                    route: "<default>".to_owned(),
                    kind,
                    path: path.to_owned(),
                    detail,
                },
            )
        },
        Ok(None) => {
            let out: Vec<String> = Vec::new();
            assert(texts(out@) =~= Seq::<Seq<char>>::empty());
            Ok(out)
        },
        Ok(Some(names)) => Ok(collect_dns_names(&names)),
    }
}

/// The DNS names of the leaf of a PEM chain, or the first thing wrong with it.
pub open spec fn leaf_names(path: Seq<char>, pem: Seq<u8>) -> Result<Seq<Seq<char>>, CertErrorView> {
    match chain_or_error("<default>"@, "<default>"@, path, pem_chain(pem)) {
        Err(e) => Err(e),
        Ok(chain) => names_or_error(path, x509_names(chain[0])),
    }
}

/// The DNS names of the leaf of a PEM chain.
pub fn leaf_dns_names(path: &str, pem: &[u8]) -> (r: Result<Vec<String>, CertError>)
    ensures
        match leaf_names(path@, pem@) {
            Ok(n) => r is Ok && texts(r->Ok_0@) == n,
            Err(e) => r is Err && r->Err_0@ == e,
        },
{
    match checked_chain("<default>", "<default>", path, pem_certs(pem)) {
        Err(e) => Err(e),
        Ok(chain) => {
            assert(bytes_views(chain@).len() == chain@.len());
            assert(bytes_views(chain@)[0] == chain@[0]@);
            checked_names(path, x509_alt_names(chain[0].as_slice()))
        },
    }
}

/// Law: a pair that is accepted is what the two texts hold: the whole chain of
/// the one, and the key of the other, which can sign.
pub proof fn law_accepted_pair_is_what_the_texts_hold(
    rule: Seq<char>,
    route: Seq<char>,
    cert_path: Seq<char>,
    cert_pem: Seq<u8>,
    key_path: Seq<char>,
    key_pem: Seq<u8>,
    chain: Seq<Seq<u8>>,
    format: KeyFormat,
    key: Seq<u8>,
)
    ensures
        (pair_or_error(rule, route, cert_path, cert_pem, key_path, key_pem) == Ok::<
            KeyView,
            CertErrorView,
        >(KeyView { chain, format, key })) == (pem_chain(cert_pem) == Ok::<
            Seq<Seq<u8>>,
            Seq<char>,
        >(chain) && chain.len() > 0 && pem_key(key_pem) == Ok::<
            Option<(KeyFormat, Seq<u8>)>,
            Seq<char>,
        >(Some((format, key))) && signing_error(format, key) is None),
{
}

/// Law: a pair that is refused is refused for the first thing wrong with it,
/// and the error names the file that it lies in.
pub proof fn law_refused_pair_says_why(
    rule: Seq<char>,
    route: Seq<char>,
    cert_path: Seq<char>,
    cert_pem: Seq<u8>,
    key_path: Seq<char>,
    key_pem: Seq<u8>,
)
    ensures
        ({
            let r = pair_or_error(rule, route, cert_path, cert_pem, key_path, key_pem);
            let chain = pem_chain(cert_pem);
            let found = pem_key(key_pem);
            let chain_good = chain is Ok && chain->Ok_0.len() > 0;
            let key_good = found is Ok && found->Ok_0 is Some;
            &&& chain is Err ==> r == Err::<KeyView, CertErrorView>(
                CertErrorView::Pem {
                    rule,
                    route,
                    kind: "certificate"@,
                    path: cert_path,
                    detail: chain->Err_0,
                },
            )
            &&& chain is Ok && chain->Ok_0.len() == 0 ==> r == Err::<KeyView, CertErrorView>(
                CertErrorView::CertEmpty { rule, route, path: cert_path },
            )
            &&& chain_good && found is Err ==> r == Err::<KeyView, CertErrorView>(
                CertErrorView::Pem {
                    rule,
                    route,
                    kind: "private key"@,
                    path: key_path,
                    detail: found->Err_0,
                },
            )
            &&& chain_good && found is Ok && found->Ok_0 is None ==> r == Err::<
                KeyView,
                CertErrorView,
            >(CertErrorView::KeyEmpty { rule, route, path: key_path })
            &&& chain_good && key_good && signing_error(
                (found->Ok_0->0).0,
                (found->Ok_0->0).1,
            ) is Some ==> r == Err::<KeyView, CertErrorView>(
                CertErrorView::SigningKey {
                    rule,
                    route,
                    detail: (signing_error((found->Ok_0->0).0, (found->Ok_0->0).1)->0).0,
                },
            )
        }),
{
}

/// Law: a name is taken from a certificate exactly where one of its DNS names
/// is that name but for its case; each once, and a name that stands first comes
/// first.
pub proof fn law_names_are_the_dns_names(names: Seq<AltNameView>, n: int, name: Seq<char>)
    requires
        0 <= n <= names.len(),
    ensures
        dns_names(names, n).contains(name) <==> exists|i: int|
            0 <= i < n && #[trigger] names[i] is Dns && lower(names[i]->Dns_0) == name,
        dns_names(names, n).no_duplicates(),
        n > 0 && names[0] is Dns ==> dns_names(names, n).len() > 0 && dns_names(names, n)[0]
            == lower(names[0]->Dns_0),
        n > 0 ==> dns_names(names, n - 1).is_prefix_of(dns_names(names, n)),
    decreases n,
{
    if n > 0 {
        law_names_are_the_dns_names(names, n - 1, name);
        let before = dns_names(names, n - 1);
        let after = dns_names(names, n);
        if names[n - 1] is Dns {
            let l = lower(names[n - 1]->Dns_0);
            if !before.contains(l) {
                assert(after == before.push(l));
                assert(after[before.len() as int] == l);
                if before.contains(name) {
                    let k = choose|k: int| 0 <= k < before.len() && before[k] == name;
                    assert(after[k] == name);
                }
                if after.contains(name) {
                    let k = choose|k: int| 0 <= k < after.len() && after[k] == name;
                    if k < before.len() {
                        assert(before[k] == name);
                    }
                }
            }
        }
        if after.contains(name) && !before.contains(name) {
            assert(names[n - 1] is Dns);
        }
    }
}

/// Law: the names of a chain are those of its first certificate, the leaf. One
/// without the extension has none, and an error names the part that could not
/// be read.
pub proof fn law_names_are_those_of_the_leaf(path: Seq<char>, pem: Seq<u8>)
    requires
        pem_chain(pem) is Ok,
        pem_chain(pem)->Ok_0.len() > 0,
    ensures
        ({
            let r = leaf_names(path, pem);
            let found = x509_names(pem_chain(pem)->Ok_0[0]);
            &&& r is Ok <==> found is Ok
            &&& found is Ok && found->Ok_0 is None ==> r->Ok_0.len() == 0
            &&& found is Ok && found->Ok_0 is Some ==> forall|name: Seq<char>| #[trigger]
                r->Ok_0.contains(name) <==> exists|i: int|
                    0 <= i < found->Ok_0->0.len() && #[trigger] found->Ok_0->0[i] is Dns && lower(
                        found->Ok_0->0[i]->Dns_0,
                    ) == name
            &&& found is Err ==> r == Err::<Seq<Seq<char>>, CertErrorView>(
                CertErrorView::Pem {
                    rule: "<default>"@,
                    route: "<default>"@,
                    kind: if (found->Err_0).0 == NameStage::Certificate {
                        "x509"@
                    } else {
                        "x509-sans"@
                    },
                    path,
                    detail: (found->Err_0).1,
                },
            )
        }),
{
    let found = x509_names(pem_chain(pem)->Ok_0[0]);
    if found is Ok && found->Ok_0 is Some {
        let names = found->Ok_0->0;
        assert forall|name: Seq<char>| #[trigger] dns_names(names, names.len() as int).contains(
            name,
        ) <==> exists|i: int|
            0 <= i < names.len() && #[trigger] names[i] is Dns && lower(names[i]->Dns_0)
                == name by {
            law_names_are_the_dns_names(names, names.len() as int, name);
        }
    }
}

} // verus!
