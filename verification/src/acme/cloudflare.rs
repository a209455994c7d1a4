//! Cloudflare as a DNS provider: credentials, the search for the zone of a
//! name, requests, and what their answers mean.

use vstd::prelude::*;
use vstd::string::*;

use crate::acme::error::{AcmeError, AcmeErrorView};
use crate::acme::provider::{DnsProvider, DnsProviderConfig, HandleView, TxtHandle};
use crate::path::{debug_text, quoted};
use crate::text::{
    chars_of, cut, find, find_char, join3, lemma_find, opt_view, string_of, trim_dots,
    trim_dots_chars,
};

verus! {

broadcast use vstd::string::group_string_axioms;

/// Base of every request.
pub const CF_API_BASE: &'static str = "https://api.cloudflare.com/client/v4";

/// How long to wait for a record to become visible, in milliseconds.
pub const PROPAGATION_DEADLINE_MS: u64 = 300_000;

/// Pause between two looks for a record, in milliseconds.
pub const PROPAGATION_POLL_INTERVAL_MS: u64 = 5_000;

/// Time to live of a challenge record, in seconds.
pub const TXT_TTL: u32 = 60;

/// A Unicode white space character.
pub open spec fn white(c: char) -> bool {
    ||| '\u{9}' <= c && c <= '\u{d}'
    ||| c == ' '
    ||| c == '\u{85}'
    ||| c == '\u{a0}'
    ||| c == '\u{1680}'
    ||| '\u{2000}' <= c && c <= '\u{200a}'
    ||| c == '\u{2028}'
    ||| c == '\u{2029}'
    ||| c == '\u{202f}'
    ||| c == '\u{205f}'
    ||| c == '\u{3000}'
}

/// The text is empty or all white space.
pub open spec fn is_blank_text(s: Seq<char>) -> bool {
    forall|i: int| 0 <= i < s.len() ==> white(#[trigger] s[i])
}

fn blank_text(s: &str) -> (r: bool)
    ensures
        r == is_blank_text(s@),
{
    let v = chars_of(s);
    for i in 0..v.len()
        invariant
            v@ == s@,
            forall|j: int| 0 <= j < i ==> white(#[trigger] v@[j]),
    {
        let c = v[i];
        if !(('\u{9}' <= c && c <= '\u{d}') || c == ' ' || c == '\u{85}' || c == '\u{a0}' || c
            == '\u{1680}' || ('\u{2000}' <= c && c <= '\u{200a}') || c == '\u{2028}' || c
            == '\u{2029}' || c == '\u{202f}' || c == '\u{205f}' || c == '\u{3000}') {
            assert(!white(s@[i as int]));
            return false;
        }
    }
    true
}

/// A configuration error.
pub open spec fn config_error(detail: Seq<char>) -> AcmeErrorView {
    AcmeErrorView::Dns { host: "<config>"@, detail }
}

/// The API token that a configuration gives: exactly one of the inline token
/// and the environment variable is named, and it holds something.
pub open spec fn api_token_of(
    token: Option<Seq<char>>,
    env_name: Option<Seq<char>>,
    env_value: Option<Seq<char>>,
) -> Result<Seq<char>, AcmeErrorView> {
    let found = match (token, env_name) {
        (Some(t), None) => Ok(t),
        (None, Some(name)) => match env_value {
            Some(v) => Ok(v),
            None => Err(
                config_error(
                    "[acme.dns.cloudflare]: api_token_env = "@ + debug_text(name)
                        + " is not set in the daemon's environment"@,
                ),
            ),
        },
        (Some(_), Some(_)) => Err(
            config_error(
                "[acme.dns.cloudflare]: api_token and api_token_env are mutually exclusive"@,
            ),
        ),
        (None, None) => Err(
            config_error(
                "[acme.dns.cloudflare]: one of api_token or api_token_env must be set"@,
            ),
        ),
    };
    match found {
        Err(e) => Err(e),
        Ok(t) => if is_blank_text(t) {
            Err(config_error("[acme.dns.cloudflare]: api_token is empty"@))
        } else {
            Ok(t)
        },
    }
}

/// The provider.
#[derive(Debug)]
pub struct CloudflareProvider {
    pub api_token: String,
}

/// A configuration error.
fn config_err(detail: String) -> (r: AcmeError)
    ensures
        r@ == config_error(detail@),
{
    AcmeError::Dns { host: "<config>".to_owned(), detail }
}

impl CloudflareProvider {
    /// Builds the provider from its configuration.
    pub fn from_config(cfg: &DnsProviderConfig) -> (r: Result<Self, AcmeError>)
        ensures
            match api_token_of(
                opt_view(cfg.api_token),
                opt_view(cfg.api_token_env),
                opt_view(cfg.env_value),
            ) {
                Ok(t) => r is Ok && r->Ok_0.api_token@ == t,
                Err(e) => r is Err && r->Err_0@ == e,
            },
    {
        let api_token = match (&cfg.api_token, &cfg.api_token_env) {
            (Some(t), None) => t.clone(),
            (None, Some(name)) => match &cfg.env_value {
                Some(v) => v.clone(),
                None => {
                    let mut d = "[acme.dns.cloudflare]: api_token_env = ".to_owned();
                    d.append(quoted(name.as_str()).as_str());
                    d.append(" is not set in the daemon's environment");
                    return Err(config_err(d));
                },
            },
            (Some(_), Some(_)) => {
                return Err(
                    config_err(
                        "[acme.dns.cloudflare]: api_token and api_token_env are mutually exclusive".to_owned(),
                    ),
                );
            },
            (None, None) => {
                return Err(
                    config_err(
                        "[acme.dns.cloudflare]: one of api_token or api_token_env must be set".to_owned(),
                    ),
                );
            },
        };
        if blank_text(api_token.as_str()) {
            return Err(config_err("[acme.dns.cloudflare]: api_token is empty".to_owned()));
        }
        Ok(CloudflareProvider { api_token })
    }
}

impl DnsProvider for CloudflareProvider {
    open spec fn provider_name(&self) -> Seq<char> {
        "cloudflare"@
    }

    fn name(&self) -> (r: &'static str) {
        "cloudflare"
    }
}

/// The next name to look a zone up for: without its first label, as long as a
/// dot is left.
pub open spec fn parent_name(name: Seq<char>) -> Option<Seq<char>> {
    let dot = find(name, '.');
    if dot < name.len() {
        let rest = name.subrange(dot + 1, name.len() as int);
        if rest.contains('.') {
            Some(rest)
        } else {
            None
        }
    } else {
        None
    }
}

/// The first name to look a zone up for.
pub fn first_zone_name(fqdn: &str) -> (r: String)
    ensures
        r@ == trim_dots(fqdn@),
{
    let v = chars_of(fqdn);
    let t = trim_dots_chars(v.as_slice());
    string_of(t.as_slice())
}

/// What to do after a zone was looked up.
#[derive(Debug)]
pub enum ZoneStep {
    /// The zone was found.
    Found(String),
    /// Look this name up.
    Query(String),
    /// No zone covers the name.
    Fail(AcmeError),
}

/// The model of a [`ZoneStep`].
pub enum ZoneView {
    Found(Seq<char>),
    Query(Seq<char>),
    Fail(AcmeErrorView),
}

impl View for ZoneStep {
    type V = ZoneView;

    open spec fn view(&self) -> ZoneView {
        match self {
            ZoneStep::Found(id) => ZoneView::Found(id@),
            ZoneStep::Query(n) => ZoneView::Query(n@),
            ZoneStep::Fail(e) => ZoneView::Fail(e@),
        }
    }
}

/// What to do after `name` was looked up on the way up from `fqdn`.
pub open spec fn zone_step(fqdn: Seq<char>, name: Seq<char>, found: Option<Seq<char>>) -> ZoneView {
    match found {
        Some(id) => ZoneView::Found(id),
        None => match parent_name(name) {
            Some(p) => ZoneView::Query(p),
            None => ZoneView::Fail(
                AcmeErrorView::Dns {
                    host: fqdn,
                    detail: "no Cloudflare zone covers "@ + debug_text(fqdn) + " (token scope?)"@,
                },
            ),
        },
    }
}

/// Decides what to do after a zone was looked up.
pub fn after_zone_query(fqdn: &str, name: &str, found: Option<String>) -> (r: ZoneStep)
    ensures
        r@ == zone_step(fqdn@, name@, opt_view(found)),
{
    if let Some(id) = found {
        return ZoneStep::Found(id);
    }
    let v = chars_of(name);
    let dot: usize = find_char(v.as_slice(), '.');
    proof {
        lemma_find(v@, '.');
    }
    if dot < v.len() {
        let rest = cut(v.as_slice(), dot + 1, v.len());
        let next: usize = find_char(rest.as_slice(), '.');
        proof {
            lemma_find(rest@, '.');
        }
        if next < rest.len() {
            return ZoneStep::Query(string_of(rest.as_slice()));
        }
    }
    let mut d = "no Cloudflare zone covers ".to_owned();
    d.append(quoted(fqdn).as_str());
    d.append(" (token scope?)");
    ZoneStep::Fail(AcmeError::Dns { host: fqdn.to_owned(), detail: d })
}

/// Law: the search goes on only with shorter names, so it ends.
pub proof fn law_zone_search_ends(fqdn: Seq<char>, name: Seq<char>)
    ensures
        zone_step(fqdn, name, None) is Query ==> zone_step(fqdn, name, None)->Query_0.len()
            < name.len(),
{
    lemma_find(name, '.');
}

/// The URL of a zone lookup.
pub open spec fn zone_address(name: Seq<char>) -> Seq<char> {
    CF_API_BASE@ + "/zones?name="@ + name
}

/// The URL under which the records of a zone are created.
pub open spec fn records_address(zone_id: Seq<char>) -> Seq<char> {
    CF_API_BASE@ + "/zones/"@ + zone_id + "/dns_records"@
}

/// The URL of a record.
pub open spec fn record_address(zone_id: Seq<char>, record_id: Seq<char>) -> Seq<char> {
    CF_API_BASE@ + "/zones/"@ + zone_id + "/dns_records/"@ + record_id
}

/// The URL of a zone lookup.
pub fn zone_url(name: &str) -> (r: String)
    ensures
        r@ == zone_address(name@),
{
    join3(CF_API_BASE, "/zones?name=", name)
}

/// The URL under which a record is created.
pub fn records_url(zone_id: &str) -> (r: String)
    ensures
        r@ == records_address(zone_id@),
{
    let mut s = join3(CF_API_BASE, "/zones/", zone_id);
    s.append("/dns_records");
    s
}

/// The URL of a record.
pub fn record_url(zone_id: &str, record_id: &str) -> (r: String)
    ensures
        r@ == record_address(zone_id@, record_id@),
{
    let mut s = join3(CF_API_BASE, "/zones/", zone_id);
    s.append("/dns_records/");
    s.append(record_id);
    s
}

/// The identifier under which a created record is remembered.
pub open spec fn record_key(zone_id: Seq<char>, record_id: Seq<char>) -> Seq<char> {
    zone_id + seq!['/'] + record_id
}

/// Whether a status code is a success.
pub open spec fn success(status: u16) -> bool {
    200 <= status <= 299
}

/// The record that a create request made, or the error.
pub open spec fn created(
    fqdn: Seq<char>,
    zone_id: Seq<char>,
    status: u16,
    body_success: bool,
    status_text: Seq<char>,
    errors_text: Seq<char>,
    record_id: Option<Seq<char>>,
) -> Result<HandleView, AcmeErrorView> {
    if !(success(status) && body_success) {
        Err(
            AcmeErrorView::Dns {
                host: fqdn,
                detail: "Cloudflare TXT add failed (status="@ + status_text + ", errors="@
                    + errors_text + ")"@,
            },
        )
    } else {
        match record_id {
            None => Err(
                AcmeErrorView::Dns {
                    host: fqdn,
                    detail: "Cloudflare returned success without result body"@,
                },
            ),
            Some(id) => Ok(HandleView { fqdn, provider_record_id: record_key(zone_id, id) }),
        }
    }
}

/// The record that a create request made, or the error: the status and the
/// body must both say success, and the body must name the record.
pub fn created_record(
    fqdn: &str,
    zone_id: &str,
    status: u16,
    body_success: bool,
    status_text: &str,
    errors_text: &str,
    record_id: Option<String>,
) -> (r: Result<TxtHandle, AcmeError>)
    ensures
        match created(
            fqdn@,
            zone_id@,
            status,
            body_success,
            status_text@,
            errors_text@,
            opt_view(record_id),
        ) {
            Ok(h) => r is Ok && r->Ok_0@ == h,
            Err(e) => r is Err && r->Err_0@ == e,
        },
        !(success(status) && body_success) ==> r is Err && r->Err_0@ == (AcmeErrorView::Dns {
            host: fqdn@,
            detail: "Cloudflare TXT add failed (status="@ + status_text@ + ", errors="@
                + errors_text@ + ")"@,
        }),
        success(status) && body_success && record_id is None ==> r is Err && r->Err_0@
            == (AcmeErrorView::Dns {
            host: fqdn@,
            detail: "Cloudflare returned success without result body"@,
        }),
        success(status) && body_success && record_id is Some ==> r is Ok && r->Ok_0@ == (
        HandleView {
            fqdn: fqdn@,
            provider_record_id: record_key(zone_id@, record_id->0@),
        }),
{
    if !(200 <= status && status <= 299) || !body_success {
        let mut d = "Cloudflare TXT add failed (status=".to_owned();
        d.append(status_text);
        d.append(", errors=");
        d.append(errors_text);
        d.append(")");
        return Err(AcmeError::Dns { host: fqdn.to_owned(), detail: d });
    }
    match record_id {
        None => Err(
            AcmeError::Dns {
                host: fqdn.to_owned(),
                detail: "Cloudflare returned success without result body".to_owned(),
            },
        ),
        Some(id) => {
            proof {
                reveal_strlit("/");
                assert("/"@ =~= seq!['/']);
            }
            Ok(
                TxtHandle {
                    fqdn: fqdn.to_owned(),
                    provider_record_id: join3(zone_id, "/", id.as_str()),
                },
            )
        },
    }
}

/// The zone and the record that a handle stands for: the text around its first
/// slash.
pub open spec fn split_record(h: HandleView) -> Result<(Seq<char>, Seq<char>), AcmeErrorView> {
    let id = h.provider_record_id;
    let i = find(id, '/');
    if i < id.len() {
        Ok((id.subrange(0, i), id.subrange(i + 1, id.len() as int)))
    } else {
        Err(
            AcmeErrorView::Dns {
                host: h.fqdn,
                detail: "malformed Cloudflare TxtHandle (expected `<zone>/<record>`)"@,
            },
        )
    }
}

/// The zone and the record that a handle stands for.
pub fn record_of(handle: &TxtHandle) -> (r: Result<(String, String), AcmeError>)
    ensures
        match split_record(handle@) {
            Ok((z, k)) => r is Ok && r->Ok_0.0@ == z && r->Ok_0.1@ == k,
            Err(e) => r is Err && r->Err_0@ == e,
        },
{
    let v = chars_of(handle.provider_record_id.as_str());
    let i: usize = find_char(v.as_slice(), '/');
    proof {
        lemma_find(v@, '/');
    }
    if i < v.len() {
        let z = cut(v.as_slice(), 0, i);
        let k = cut(v.as_slice(), i + 1, v.len());
        Ok((string_of(z.as_slice()), string_of(k.as_slice())))
    } else {
        Err(
            AcmeError::Dns {
                host: handle.fqdn.clone(),
                detail: "malformed Cloudflare TxtHandle (expected `<zone>/<record>`)".to_owned(),
            },
        )
    }
}

/// Law: the handle of a created record leads back to its zone and record.
pub proof fn law_handle_round_trips(fqdn: Seq<char>, zone_id: Seq<char>, record_id: Seq<char>)
    requires
        !zone_id.contains('/'),
    ensures
        split_record(HandleView { fqdn, provider_record_id: record_key(zone_id, record_id) })
            == Ok::<(Seq<char>, Seq<char>), AcmeErrorView>((zone_id, record_id)),
{
    let id = record_key(zone_id, record_id);
    assert forall|j: int| 0 <= j < zone_id.len() implies id[j] != '/' by {
        assert(id[j] == zone_id[j]);
        assert(zone_id.contains(zone_id[j]));
    }
    crate::text::lemma_find_unique(id, '/', zone_id.len() as int);
    assert(id.subrange(0, zone_id.len() as int) =~= zone_id);
    assert(id.subrange(zone_id.len() as int + 1, id.len() as int) =~= record_id);
}

/// A delete request with this status leaves no record.
pub open spec fn gone(status: u16) -> bool {
    status == 404 || success(status)
}

/// Whether a delete request succeeded. A record that is already gone counts as
/// deleted.
pub fn deleted(fqdn: &str, status: u16, status_text: &str, body: &str) -> (r: Result<(), AcmeError>)
    ensures
        r is Ok <==> gone(status),
        r is Err ==> r->Err_0@ == (AcmeErrorView::Dns {
            host: fqdn@,
            detail: "Cloudflare TXT delete failed: status="@ + status_text@ + " body="@ + body@,
        }),
{
    if status == 404 || (200 <= status && status <= 299) {
        return Ok(());
    }
    let mut d = "Cloudflare TXT delete failed: status=".to_owned();
    d.append(status_text);
    d.append(" body=");
    d.append(body);
    Err(AcmeError::Dns { host: fqdn.to_owned(), detail: d })
}

/// What a zone lookup gives.
pub open spec fn zone_found(
    name: Seq<char>,
    status: u16,
    body_success: bool,
    status_text: Seq<char>,
    errors_text: Seq<char>,
    first_id: Option<Seq<char>>,
) -> Result<Option<Seq<char>>, AcmeErrorView> {
    if success(status) && body_success {
        Ok(first_id)
    } else {
        Err(
            AcmeErrorView::Dns {
                host: name,
                detail: "Cloudflare zone lookup failed (status="@ + status_text + ", errors="@
                    + errors_text + ")"@,
            },
        )
    }
}

/// Whether a zone lookup succeeded: the status and the body must both say so.
/// Gives the identifier of the first zone, if there is one.
pub fn looked_up_zone(
    name: &str,
    status: u16,
    body_success: bool,
    status_text: &str,
    errors_text: &str,
    first_id: Option<String>,
) -> (r: Result<Option<String>, AcmeError>)
    ensures
        match zone_found(
            name@,
            status,
            body_success,
            status_text@,
            errors_text@,
            opt_view(first_id),
        ) {
            Ok(id) => r is Ok && opt_view(r->Ok_0) == id,
            Err(e) => r is Err && r->Err_0@ == e,
        },
        success(status) && body_success ==> r is Ok && opt_view(r->Ok_0) == opt_view(first_id),
        !(success(status) && body_success) ==> r is Err && r->Err_0@ == (AcmeErrorView::Dns {
            host: name@,
            detail: "Cloudflare zone lookup failed (status="@ + status_text@ + ", errors="@
                + errors_text@ + ")"@,
        }),
{
    if !(200 <= status && status <= 299) || !body_success {
        let mut d = "Cloudflare zone lookup failed (status=".to_owned();
        d.append(status_text);
        d.append(", errors=");
        d.append(errors_text);
        d.append(")");
        return Err(AcmeError::Dns { host: name.to_owned(), detail: d });
    }
    Ok(first_id)
}

/// What to do while a record is not visible yet.
#[derive(Debug)]
pub enum PropagationStep {
    /// Ask the name servers.
    Query,
    /// Pause for this many milliseconds.
    Sleep(u64),
    /// The record is visible.
    Done,
    /// It did not become visible in time.
    Fail(AcmeError),
}

/// The message of a record that did not become visible in time.
pub open spec fn propagation_error(fqdn: Seq<char>, value: Seq<char>) -> AcmeErrorView {
    AcmeErrorView::Dns {
        host: fqdn,
        detail: "TXT propagation poll timed out after 300s (no record matched "@ + debug_text(
            value,
        ) + ")"@,
    }
}

/// There is time for another question.
pub open spec fn asks_again(elapsed_ms: u64) -> bool {
    elapsed_ms < PROPAGATION_DEADLINE_MS
}

/// Decides whether to ask (again), given the time since the first question.
pub fn before_propagation_query(fqdn: &str, value: &str, elapsed_ms: u64) -> (r: PropagationStep)
    ensures
        asks_again(elapsed_ms) ==> r is Query,
        !asks_again(elapsed_ms) ==> r is Fail && r->Fail_0@ == propagation_error(
            fqdn@,
            value@,
        ),
{
    if elapsed_ms < PROPAGATION_DEADLINE_MS {
        return PropagationStep::Query;
    }
    let mut d = "TXT propagation poll timed out after 300s (no record matched ".to_owned();
    d.append(quoted(value).as_str());
    d.append(")");
    PropagationStep::Fail(AcmeError::Dns { host: fqdn.to_owned(), detail: d })
}

/// One of the answers is the value.
pub open spec fn answered(answers: Seq<Vec<u8>>, value: Seq<u8>) -> bool {
    exists|i: int| 0 <= i < answers.len() && (#[trigger] answers[i])@ == value
}

/// Decides what follows the answers of the name servers: done where one of the
/// strings is exactly the value, else pause.
pub fn after_propagation_query(answers: &Vec<Vec<u8>>, value: &str) -> (r: PropagationStep)
    ensures
        answered(answers@, value.spec_bytes()) <==> r is Done,
        !answered(answers@, value.spec_bytes()) ==> r == PropagationStep::Sleep(
            PROPAGATION_POLL_INTERVAL_MS,
        ),
{
    let want = value.as_bytes();
    for i in 0..answers.len()
        invariant
            want@ == value.spec_bytes(),
            forall|j: int| 0 <= j < i ==> (#[trigger] answers@[j])@ != want@,
    {
        if same_bytes(answers[i].as_slice(), want) {
            assert(answers@[i as int]@ == want@);
            return PropagationStep::Done;
        }
    }
    PropagationStep::Sleep(PROPAGATION_POLL_INTERVAL_MS)
}

fn same_bytes(a: &[u8], b: &[u8]) -> (r: bool)
    ensures
        r == (a@ == b@),
{
    if a.len() != b.len() {
        return false;
    }
    for i in 0..a.len()
        invariant
            a@.len() == b@.len(),
            forall|j: int| 0 <= j < i ==> a@[j] == b@[j],
    {
        if a[i] != b[i] {
            return false;
        }
    }
    assert(a@ =~= b@);
    true
}

/// Law: a token is usable where exactly one of the two places is named for it
/// and it is not blank there; what is found is used as it is.
pub proof fn law_one_place_names_the_token(
    token: Seq<char>,
    env_name: Seq<char>,
    env_value: Option<Seq<char>>,
    i: int,
)
    requires
        0 <= i < token.len(),
        'a' <= token[i] && token[i] <= 'z' || 'A' <= token[i] && token[i] <= 'Z' || '0' <= token[i]
            && token[i] <= '9',
    ensures
        api_token_of(Some(token), None, env_value) == Ok::<Seq<char>, AcmeErrorView>(token),
        api_token_of(None, Some(env_name), Some(token)) == Ok::<Seq<char>, AcmeErrorView>(token),
        api_token_of(None, Some(env_name), None) is Err,
        api_token_of(Some(token), Some(env_name), env_value) is Err,
        api_token_of(None, None, env_value) is Err,
{
    assert(!white(token[i]));
}

/// Law: a token of spaces, tabs and line ends only is refused, wherever it is
/// found, as a mistake of the configuration.
pub proof fn law_blank_token_is_refused(token: Seq<char>, env_name: Seq<char>)
    requires
        forall|i: int|
            0 <= i < token.len() ==> #[trigger] token[i] == ' ' || token[i] == '\t' || token[i]
                == '\r' || token[i] == '\n',
    ensures
        api_token_of(Some(token), None, None) == Err::<Seq<char>, AcmeErrorView>(
            AcmeErrorView::Dns {
                host: "<config>"@,
                detail: "[acme.dns.cloudflare]: api_token is empty"@,
            },
        ),
        api_token_of(None, Some(env_name), Some(token)) == Err::<Seq<char>, AcmeErrorView>(
            AcmeErrorView::Dns {
                host: "<config>"@,
                detail: "[acme.dns.cloudflare]: api_token is empty"@,
            },
        ),
{
}

/// Law: the search for a zone ends with the first one that is found. Until then
/// it drops one label after the other, and gives up before it would ask for a
/// name without a dot.
pub proof fn law_zone_search_drops_labels(
    fqdn: Seq<char>,
    label: Seq<char>,
    rest: Seq<char>,
    id: Seq<char>,
    name: Seq<char>,
)
    requires
        !label.contains('.'),
    ensures
        zone_step(fqdn, name, Some(id)) == ZoneView::Found(id),
        rest.contains('.') ==> zone_step(fqdn, label + "."@ + rest, None) == ZoneView::Query(rest),
        !rest.contains('.') ==> zone_step(fqdn, label + "."@ + rest, None) is Fail,
        zone_step(fqdn, label, None) is Fail,
        zone_step(fqdn, label, None)->Fail_0 is Dns && zone_step(
            fqdn,
            label,
            None,
        )->Fail_0->Dns_host == fqdn,
{
    reveal_strlit(".");
    let s = label + "."@ + rest;
    assert forall|j: int| 0 <= j < label.len() implies s[j] != '.' by {
        assert(s[j] == label[j]);
        assert(label.contains(label[j]));
    }
    assert(s[label.len() as int] == '.');
    crate::text::lemma_find_unique(s, '.', label.len() as int);
    assert(s.subrange(label.len() as int + 1, s.len() as int) =~= rest);
    lemma_find(label, '.');
}

/// Law: requests go to the fourth version of the API, below the zone that they
/// are about.
pub proof fn law_requests_go_to_the_zone(name: Seq<char>, zone: Seq<char>, record: Seq<char>)
    ensures
        zone_address(name) == "https://api.cloudflare.com/client/v4/zones?name="@ + name,
        records_address(zone) == "https://api.cloudflare.com/client/v4/zones/"@ + zone
            + "/dns_records"@,
        record_address(zone, record) == records_address(zone) + "/"@ + record,
{
    reveal_strlit("https://api.cloudflare.com/client/v4");
    reveal_strlit("/zones?name=");
    reveal_strlit("/zones/");
    reveal_strlit("https://api.cloudflare.com/client/v4/zones?name=");
    reveal_strlit("https://api.cloudflare.com/client/v4/zones/");
    reveal_strlit("/dns_records");
    reveal_strlit("/dns_records/");
    reveal_strlit("/");
    assert(zone_address(name) =~= "https://api.cloudflare.com/client/v4/zones?name="@ + name);
    assert(records_address(zone) =~= "https://api.cloudflare.com/client/v4/zones/"@ + zone
        + "/dns_records"@);
    assert("/dns_records/"@ =~= "/dns_records"@ + "/"@);
    assert(record_address(zone, record) =~= records_address(zone) + "/"@ + record);
}

/// Law: a record was created where the status is one of the two hundreds, the
/// body agrees and names the record; its handle holds the zone and the record
/// around a slash. Anything else is an error of the name.
pub proof fn law_creation_needs_both_to_agree(
    fqdn: Seq<char>,
    zone: Seq<char>,
    status: u16,
    agrees: bool,
    shown: Seq<char>,
    errors: Seq<char>,
    record: Option<Seq<char>>,
)
    ensures
        ({
            let r = created(fqdn, zone, status, agrees, shown, errors, record);
            &&& r is Ok <==> status / 100 == 2 && agrees && record is Some
            &&& r is Ok ==> r->Ok_0.fqdn == fqdn && r->Ok_0.provider_record_id == zone + "/"@
                + record->0
            &&& r is Err ==> r->Err_0 is Dns && r->Err_0->Dns_host == fqdn
        }),
{
    reveal_strlit("/");
    assert("/"@ =~= seq!['/']);
}

/// Law: a zone lookup gives what the body names first, where the status is one
/// of the two hundreds and the body agrees; anything else is an error of the
/// name that was looked up.
pub proof fn law_lookup_needs_both_to_agree(
    name: Seq<char>,
    status: u16,
    agrees: bool,
    shown: Seq<char>,
    errors: Seq<char>,
    first: Option<Seq<char>>,
)
    ensures
        ({
            let r = zone_found(name, status, agrees, shown, errors, first);
            &&& status / 100 == 2 && agrees ==> r == Ok::<Option<Seq<char>>, AcmeErrorView>(first)
            &&& !(status / 100 == 2 && agrees) ==> r is Err && r->Err_0 is Dns
                && r->Err_0->Dns_host == name
        }),
{
}

/// Law: a record is gone after a delete request that succeeded, and where there
/// was none; no other status will do.
pub proof fn law_missing_record_is_gone(status: u16)
    ensures
        gone(status) <==> status / 100 == 2 || status == 404,
{
}

/// Law: name servers are asked for five minutes, every five seconds, and a
/// challenge record lives for a minute.
pub proof fn law_name_servers_are_asked_for_five_minutes(elapsed_ms: u64)
    ensures
        asks_again(elapsed_ms) <==> elapsed_ms < 5 * 60 * 1000,
        PROPAGATION_POLL_INTERVAL_MS == 5 * 1000,
        TXT_TTL == 60,
{
}

/// Law: a record is visible as soon as one of the answers is its value, byte
/// for byte, and not before.
pub proof fn law_record_is_visible_in_any_answer(answers: Seq<Vec<u8>>, value: Seq<u8>, i: int)
    ensures
        0 <= i < answers.len() && answers[i]@ == value ==> answered(answers, value),
        (forall|j: int| 0 <= j < answers.len() ==> (#[trigger] answers[j])@ != value) ==> !answered(
            answers,
            value,
        ),
{
}

/// Law: a handle is taken apart at its first slash, and one without a slash is
/// an error of its name.
pub proof fn law_handle_without_slash_is_malformed(h: HandleView)
    requires
        !h.provider_record_id.contains('/'),
    ensures
        split_record(h) is Err,
        split_record(h)->Err_0 is Dns,
        split_record(h)->Err_0->Dns_host == h.fqdn,
{
    lemma_find(h.provider_record_id, '/');
    let i = find(h.provider_record_id, '/');
    if i < h.provider_record_id.len() {
        assert(h.provider_record_id.contains(h.provider_record_id[i]));
    }
}

} // verus!
