//! Errors of issuance and renewal.

use vstd::prelude::*;
use vstd::string::*;

use crate::path::{debug_text, quoted};

verus! {

broadcast use vstd::string::group_string_axioms;

/// What went wrong anywhere between an order and the files on disk.
#[derive(Debug)]
pub enum AcmeError {
    UnknownProvider { host: String, provider: String },
    NoHttp01Responder { host: String },
    Dns { host: String, detail: String },
    Account { host: String, detail: String },
    Storage { host: String, detail: String },
    Client { host: String, detail: String },
}

/// The model of an [`AcmeError`].
pub enum AcmeErrorView {
    UnknownProvider { host: Seq<char>, provider: Seq<char> },
    NoHttp01Responder { host: Seq<char> },
    Dns { host: Seq<char>, detail: Seq<char> },
    Account { host: Seq<char>, detail: Seq<char> },
    Storage { host: Seq<char>, detail: Seq<char> },
    Client { host: Seq<char>, detail: Seq<char> },
}

impl View for AcmeError {
    type V = AcmeErrorView;

    open spec fn view(&self) -> AcmeErrorView {
        match self {
            AcmeError::UnknownProvider { host, provider } => AcmeErrorView::UnknownProvider {
                host: host@,
                provider: provider@,
            },
            AcmeError::NoHttp01Responder { host } => AcmeErrorView::NoHttp01Responder {
                host: host@,
            },
            AcmeError::Dns { host, detail } => AcmeErrorView::Dns {
                host: host@,
                detail: detail@,
            },
            AcmeError::Account { host, detail } => AcmeErrorView::Account {
                host: host@,
                detail: detail@,
            },
            AcmeError::Storage { host, detail } => AcmeErrorView::Storage {
                host: host@,
                detail: detail@,
            },
            AcmeError::Client { host, detail } => AcmeErrorView::Client {
                host: host@,
                detail: detail@,
            },
        }
    }
}

/// The opening of every message.
pub open spec fn acme_prefix(host: Seq<char>) -> Seq<char> {
    "ACME route "@ + debug_text(host) + ": "@
}

/// The message of an error.
pub open spec fn acme_error_text(e: AcmeErrorView) -> Seq<char> {
    match e {
        AcmeErrorView::UnknownProvider { host, provider } => acme_prefix(host) + "provider "@
            + debug_text(provider) + " is not registered in [acme.dns]"@,
        AcmeErrorView::NoHttp01Responder { host } => acme_prefix(host)
            + "HTTP-01 requires the daemon's :80 redirect listener to be online (no HTTPS rule loaded yet)"@,
        AcmeErrorView::Dns { host, detail } => acme_prefix(host) + "DNS provider error: "@
            + detail,
        AcmeErrorView::Account { host, detail } => acme_prefix(host) + "account-key error: "@
            + detail,
        AcmeErrorView::Storage { host, detail } => acme_prefix(host) + "storage error: "@
            + detail,
        AcmeErrorView::Client { host, detail } => acme_prefix(host)
            + "directory client error: "@ + detail,
    }
}

fn prefix_of(host: &str) -> (r: String)
    ensures
        r@ == acme_prefix(host@),
{
    let mut s = "ACME route ".to_owned();
    s.append(quoted(host).as_str());
    s.append(": ");
    s
}

impl AcmeError {
    /// The message of the error.
    pub fn message(&self) -> (r: String)
        ensures
            r@ == acme_error_text(self@),
    {
        match self {
            AcmeError::UnknownProvider { host, provider } => {
                let mut s = prefix_of(host.as_str());
                s.append("provider ");
                s.append(quoted(provider.as_str()).as_str());
                s.append(" is not registered in [acme.dns]");
                s
            },
            AcmeError::NoHttp01Responder { host } => {
                let mut s = prefix_of(host.as_str());
                s.append(
                    "HTTP-01 requires the daemon's :80 redirect listener to be online (no HTTPS rule loaded yet)",
                );
                s
            },
            AcmeError::Dns { host, detail } => {
                let mut s = prefix_of(host.as_str());
                s.append("DNS provider error: ");
                s.append(detail.as_str());
                s
            },
            AcmeError::Account { host, detail } => {
                let mut s = prefix_of(host.as_str());
                s.append("account-key error: ");
                s.append(detail.as_str());
                s
            },
            AcmeError::Storage { host, detail } => {
                let mut s = prefix_of(host.as_str());
                s.append("storage error: ");
                s.append(detail.as_str());
                s
            },
            AcmeError::Client { host, detail } => {
                let mut s = prefix_of(host.as_str());
                s.append("directory client error: ");
                s.append(detail.as_str());
                s
            },
        }
    }

    /// A directory client error.
    pub fn client(host: &str, detail: String) -> (r: AcmeError)
        ensures
            r@ == (AcmeErrorView::Client { host: host@, detail: detail@ }),
    {
        AcmeError::Client { host: host.to_owned(), detail }
    }
}

/// A copy of an error.
pub fn clone_acme_error(e: &AcmeError) -> (r: AcmeError)
    ensures
        r == *e,
{
    match e {
        AcmeError::UnknownProvider { host, provider } => AcmeError::UnknownProvider {
            host: host.clone(),
            provider: provider.clone(),
        },
        AcmeError::NoHttp01Responder { host } => AcmeError::NoHttp01Responder {
            host: host.clone(),
        },
        AcmeError::Dns { host, detail } => AcmeError::Dns {
            host: host.clone(),
            detail: detail.clone(),
        },
        AcmeError::Account { host, detail } => AcmeError::Account {
            host: host.clone(),
            detail: detail.clone(),
        },
        AcmeError::Storage { host, detail } => AcmeError::Storage {
            host: host.clone(),
            detail: detail.clone(),
        },
        AcmeError::Client { host, detail } => AcmeError::Client {
            host: host.clone(),
            detail: detail.clone(),
        },
    }
}

/// Law: the message of an error opens with the host that it is about, says which
/// part failed, and ends with the cause.
pub proof fn law_message_names_host_and_cause(host: Seq<char>, cause: Seq<char>)
    ensures
        ({
            let open = "ACME route "@ + debug_text(host) + ": "@;
            &&& acme_error_text(AcmeErrorView::Dns { host, detail: cause }) == open
                + "DNS provider error: "@ + cause
            &&& acme_error_text(AcmeErrorView::Account { host, detail: cause }) == open
                + "account-key error: "@ + cause
            &&& acme_error_text(AcmeErrorView::Storage { host, detail: cause }) == open
                + "storage error: "@ + cause
            &&& acme_error_text(AcmeErrorView::Client { host, detail: cause }) == open
                + "directory client error: "@ + cause
            &&& acme_error_text(AcmeErrorView::UnknownProvider { host, provider: cause }) == open
                + "provider "@ + debug_text(cause) + " is not registered in [acme.dns]"@
        }),
{
}

} // verus!
