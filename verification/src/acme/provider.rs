//! DNS providers and their records.

use vstd::prelude::*;
use vstd::string::*;

use crate::acme::cloudflare::{api_token_of, CloudflareProvider};
use crate::acme::error::{AcmeError, AcmeErrorView};
use crate::strmap::{increasing, StrMap};
use crate::text::{opt_view, same, texts};

verus! {

broadcast use vstd::string::group_string_axioms;

/// A TXT record that was placed, with what the provider needs to remove it.
#[derive(Debug)]
pub struct TxtHandle {
    pub fqdn: String,
    pub provider_record_id: String,
}

/// The model of a [`TxtHandle`].
pub struct HandleView {
    pub fqdn: Seq<char>,
    pub provider_record_id: Seq<char>,
}

impl View for TxtHandle {
    type V = HandleView;

    open spec fn view(&self) -> HandleView {
        HandleView { fqdn: self.fqdn@, provider_record_id: self.provider_record_id@ }
    }
}

impl Clone for TxtHandle {
    fn clone(&self) -> (r: Self)
        ensures
            r == *self,
    {
        TxtHandle {
            fqdn: self.fqdn.clone(),
            provider_record_id: self.provider_record_id.clone(),
        }
    }
}

/// A DNS service that challenge records can be placed with.
pub trait DnsProvider {
    /// The name under which the provider is configured.
    spec fn provider_name(&self) -> Seq<char>;

    /// The name under which the provider is configured.
    fn name(&self) -> (r: &'static str)
        ensures
            r@ == self.provider_name(),
    ;
}

/// Credentials of a provider, as configured. `env_value` is what the
/// environment holds under the name `api_token_env`.
#[derive(Debug)]
pub struct DnsProviderConfig {
    pub api_token: Option<String>,
    pub api_token_env: Option<String>,
    pub env_value: Option<String>,
}

/// The providers by name.
pub struct ProviderRegistry {
    by_name: StrMap<CloudflareProvider>,
}

impl View for ProviderRegistry {
    type V = Map<Seq<char>, Seq<char>>;

    /// The token of each provider.
    closed spec fn view(&self) -> Map<Seq<char>, Seq<char>> {
        self.by_name@.map_values(|p: CloudflareProvider| p.api_token@)
    }
}

/// The registry after the first `n` configured providers, or the first error.
pub open spec fn registered(
    list: Seq<(String, DnsProviderConfig)>,
    n: int,
) -> Result<Map<Seq<char>, Seq<char>>, AcmeErrorView>
    decreases n,
{
    if n <= 0 {
        Ok(Map::empty())
    } else {
        match registered(list, n - 1) {
            Err(e) => Err(e),
            Ok(m) => {
                let (name, cfg) = list[n - 1];
                if name@ != "cloudflare"@ {
                    Err(
                        AcmeErrorView::UnknownProvider { host: "<config>"@, provider: name@ },
                    )
                } else {
                    match api_token_of(
                        opt_view(cfg.api_token),
                        opt_view(cfg.api_token_env),
                        opt_view(cfg.env_value),
                    ) {
                        Err(e) => Err(e),
                        Ok(token) => Ok(m.insert(name@, token)),
                    }
                }
            },
        }
    }
}

/// An error stays an error.
proof fn lemma_registered_fails(list: Seq<(String, DnsProviderConfig)>, i: int, n: int)
    requires
        0 <= i <= n,
        registered(list, i) is Err,
    ensures
        registered(list, n) == registered(list, i),
    decreases n - i,
{
    if i < n {
        lemma_registered_fails(list, i, n - 1);
    }
}

impl ProviderRegistry {
    /// The table is in order.
    pub closed spec fn table_wf(&self) -> bool {
        self.by_name.wf()
    }

    /// The registry is in order, and finite.
    pub open spec fn wf(&self) -> bool {
        self.table_wf() && self@.dom().finite()
    }

    /// Builds the providers from their configuration, in order. An unknown name
    /// or unusable credentials are an error.
    pub fn from_config(list: &Vec<(String, DnsProviderConfig)>) -> (r: Result<Self, AcmeError>)
        ensures
            match registered(list@, list@.len() as int) {
                Ok(m) => r is Ok && r->Ok_0.wf() && r->Ok_0@ == m,
                Err(e) => r is Err && r->Err_0@ == e,
            },
    {
        let mut by_name: StrMap<CloudflareProvider> = StrMap::new();
        let ghost mut m: Map<Seq<char>, Seq<char>> = Map::empty();
        let n: usize = list.len();
        assert(by_name@.map_values(|p: CloudflareProvider| p.api_token@) =~= m);
        for i in 0..n
            invariant
                n == list@.len(),
                by_name.wf(),
                m == by_name@.map_values(|p: CloudflareProvider| p.api_token@),
                registered(list@, i as int) == Ok::<Map<Seq<char>, Seq<char>>, AcmeErrorView>(m),
        {
            if !same(list[i].0.as_str(), "cloudflare") {
                proof {
                    lemma_registered_fails(list@, i + 1, n as int);
                }
                return Err(
                    AcmeError::UnknownProvider {
                        host: "<config>".to_owned(),
                        provider: list[i].0.clone(),
                    },
                );
            }
            match CloudflareProvider::from_config(&list[i].1) {
                Err(e) => {
                    proof {
                        lemma_registered_fails(list@, i + 1, n as int);
                    }
                    return Err(e);
                },
                Ok(p) => {
                    let ghost token = p.api_token@;
                    let _ = by_name.insert(list[i].0.clone(), p);
                    proof {
                        m = m.insert(list@[i as int].0@, token);
                        assert(by_name@.map_values(|p: CloudflareProvider| p.api_token@) =~= m);
                    }
                },
            }
        }
        proof {
            by_name.lemma_keys();
            assert(m.dom() =~= by_name@.dom());
        }
        Ok(ProviderRegistry { by_name })
    }

    /// The provider of that name.
    pub fn get(&self, host: &str, name: &str) -> (r: Result<&CloudflareProvider, AcmeError>)
        requires
            self.wf(),
        ensures
            self@.contains_key(name@) ==> r is Ok && r->Ok_0.api_token@ == self@[name@],
            !self@.contains_key(name@) ==> r is Err && r->Err_0@
                == (AcmeErrorView::UnknownProvider { host: host@, provider: name@ }),
    {
        match self.by_name.get(name) {
            Some(p) => Ok(p),
            None => Err(
                AcmeError::UnknownProvider { host: host.to_owned(), provider: name.to_owned() },
            ),
        }
    }

    /// The names of the providers, in increasing order.
    pub fn names(&self) -> (r: Vec<String>)
        requires
            self.wf(),
        ensures
            increasing(texts(r@)),
            forall|k: Seq<char>| #[trigger] texts(r@).contains(k) <==> self@.contains_key(k),
    {
        let mut out: Vec<String> = Vec::new();
        let n: usize = self.by_name.len();
        let ghost ks = self.by_name.keys();
        for i in 0..n
            invariant
                n == ks.len(),
                ks == self.by_name.keys(),
                texts(out@) == ks.subrange(0, i as int),
        {
            let ghost done = out@;
            out.push(self.by_name.key_at(i).clone());
            assert(texts(out@) =~= texts(done).push(ks[i as int]));
            assert(texts(out@) =~= ks.subrange(0, i + 1));
        }
        proof {
            assert(ks.subrange(0, n as int) =~= ks);
            self.by_name.lemma_keys();
        }
        out
    }

    /// Number of providers.
    pub fn len(&self) -> (r: usize)
        requires
            self.wf(),
        ensures
            r == self@.dom().len(),
    {
        assert(self@.dom() =~= self.by_name@.dom());
        self.by_name.len()
    }

    /// Whether there is no provider.
    pub fn is_empty(&self) -> (r: bool)
        requires
            self.wf(),
        ensures
            r == (self@.dom().len() == 0),
    {
        self.len() == 0
    }
}

/// Law: only providers that are known and have a usable token are registered,
/// each under its configured name; where one is listed twice, the later token
/// counts.
pub proof fn law_registered_providers_are_usable(
    list: Seq<(String, DnsProviderConfig)>,
    n: int,
    i: int,
)
    requires
        0 <= i < n <= list.len(),
        registered(list, n) is Ok,
    ensures
        ({
            let m = registered(list, n)->Ok_0;
            let cfg = list[i].1;
            let token = api_token_of(
                opt_view(cfg.api_token),
                opt_view(cfg.api_token_env),
                opt_view(cfg.env_value),
            );
            &&& list[i].0@ == "cloudflare"@
            &&& token is Ok
            &&& m.contains_key(list[i].0@)
            &&& i == n - 1 ==> m[list[i].0@] == token->Ok_0
            &&& forall|k: Seq<char>| #[trigger] m.contains_key(k) ==> k == "cloudflare"@
        }),
    decreases n,
{
    if i < n - 1 {
        law_registered_providers_are_usable(list, n - 1, i);
    } else if n > 1 {
        law_registered_providers_are_usable(list, n - 1, 0);
    }
}

/// Law: a provider of another name is an error of the configuration that names
/// it.
pub proof fn law_unknown_provider_is_refused(list: Seq<(String, DnsProviderConfig)>, n: int)
    requires
        0 <= n < list.len(),
        registered(list, n) is Ok,
        list[n].0@ != "cloudflare"@,
    ensures
        registered(list, list.len() as int) == Err::<Map<Seq<char>, Seq<char>>, AcmeErrorView>(
            AcmeErrorView::UnknownProvider { host: "<config>"@, provider: list[n].0@ },
        ),
{
    lemma_registered_fails(list, n + 1, list.len() as int);
}

} // verus!
