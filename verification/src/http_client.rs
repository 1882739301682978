//! Building requests and the URLs of the Zed services an HTTP client talks to.
use vstd::prelude::*;
use vstd::string::StringExecFns;
use http::request::Builder;
use url::{ParseError, Url};

verus! {

/// `http::request::Builder`, a request under construction.
#[verifier::external_type_specification]
#[verifier::external_body]
pub struct ExBuilder(Builder);

/// `url::Url`, a parsed URL.
#[verifier::external_type_specification]
#[verifier::external_body]
pub struct ExUrl(Url);

/// `url::ParseError`, why a text is not a URL.
#[verifier::external_type_specification]
#[verifier::external_body]
pub struct ExParseError(ParseError);

/// Whether redirects are followed, and how many.
#[derive(Default, Debug, Clone, PartialEq, Eq, Hash, Structural)]
pub enum RedirectPolicy {
    #[default]
    NoFollow,
    FollowLimit(u32),
    FollowAll,
}

/// The builder that `Builder::extension` gives back for `builder` and `policy`: the same
/// request with `policy` as its `RedirectPolicy` extension, or the same error.
pub uninterp spec fn builder_with_redirects(builder: Builder, policy: RedirectPolicy) -> Builder;

/// `Builder::extension`: the builder with `policy` attached to the request as an
/// extension; the result is a function of the builder and the policy alone.
#[verifier::external_body]
fn builder_with_policy(builder: Builder, policy: RedirectPolicy) -> (r: Builder)
    ensures
        r == builder_with_redirects(builder, policy),
{
    builder.extension(policy)
}

pub trait HttpRequestExt: Sized {
    /// `then(self)` when `condition` holds, else `self`.
    fn when(self, condition: bool, then: impl FnOnce(Self) -> Self) -> (r: Self)
        requires
            condition ==> call_requires(then, (self,)),
        ensures
            condition ==> call_ensures(then, (self,), r),
            !condition ==> r == self,
    {
        if condition {
            then(self)
        } else {
            self
        }
    }

    /// `then(self, value)` when `option` holds a value, else `self`.
    fn when_some<T>(self, option: Option<T>, then: impl FnOnce(Self, T) -> Self) -> (r: Self)
        requires
            option matches Some(v) ==> call_requires(then, (self, v)),
        ensures
            option matches Some(v) ==> call_ensures(then, (self, v), r),
            option is None ==> r == self,
    {
        match option {
            Some(value) => then(self, value),
            None => self,
        }
    }

    /// Sets whether the request follows redirects.
    fn follow_redirects(self, follow: RedirectPolicy) -> Self;
}

impl HttpRequestExt for Builder {
    fn follow_redirects(self, follow: RedirectPolicy) -> (r: Self)
        ensures
            r == builder_with_redirects(self, follow),
    {
        builder_with_policy(self, follow)
    }
}

/// Whether `Url::parse` accepts the text (the WHATWG URL parser decides).
pub uninterp spec fn url_parses(input: Seq<char>) -> bool;

/// The URL that `Url::parse` gives for the text, where it accepts it.
pub uninterp spec fn parsed_url(input: Seq<char>) -> Url;

/// The URL that `Url::parse_with_params` gives for the text and the query pairs, where
/// the text parses.
pub uninterp spec fn url_with_params(input: Seq<char>, params: Seq<(Seq<char>, Seq<char>)>) -> Url;

/// Query pairs as pairs of texts.
pub open spec fn pairs_view(params: Seq<(&str, &str)>) -> Seq<(Seq<char>, Seq<char>)> {
    params.map_values(|p: (&str, &str)| (p.0@, p.1@))
}

/// `Url::parse`: the URL the text spells, or why it spells none.
#[verifier::external_body]
fn parse_url(input: &str) -> (r: Result<Url, ParseError>)
    ensures
        r is Ok <==> url_parses(input@),
        r matches Ok(u) ==> u == parsed_url(input@),
{
    Url::parse(input)
}

/// `Url::parse_with_params`: the URL the text spells with the pairs appended to its
/// query; it parses the text as `Url::parse` does and appending pairs cannot fail.
#[verifier::external_body]
fn parse_url_with_params(input: &str, params: &[(&str, &str)]) -> (r: Result<Url, ParseError>)
    ensures
        r is Ok <==> url_parses(input@),
        r matches Ok(u) ==> u == url_with_params(input@, pairs_view(params@)),
{
    Url::parse_with_params(input, params)
}

/// A text handed to the URL parser that it refused.
#[derive(Debug, PartialEq, Eq)]
pub struct InvalidUrl {
    /// The text.
    pub input: String,
    /// Why the parser refused it.
    pub reason: ParseError,
}

/// The API server for a site: the production and staging sites and the local server
/// have their own, any other site serves its API itself.
pub open spec fn api_base(base: Seq<char>) -> Seq<char> {
    if base == "https://zed.dev"@ {
        "https://api.zed.dev"@
    } else if base == "https://staging.zed.dev"@ {
        "https://api-staging.zed.dev"@
    } else if base == "http://localhost:3000"@ {
        "http://localhost:8080"@
    } else {
        base
    }
}

/// The cloud server for a site.
pub open spec fn cloud_base(base: Seq<char>) -> Seq<char> {
    if base == "https://zed.dev"@ {
        "https://cloud.zed.dev"@
    } else if base == "https://staging.zed.dev"@ {
        "https://cloud.zed.dev"@
    } else if base == "http://localhost:3000"@ {
        "http://localhost:8787"@
    } else {
        base
    }
}

/// The language model server for a site.
pub open spec fn llm_base(base: Seq<char>) -> Seq<char> {
    if base == "https://zed.dev"@ {
        "https://cloud.zed.dev"@
    } else if base == "https://staging.zed.dev"@ {
        "https://llm-staging.zed.dev"@
    } else if base == "http://localhost:3000"@ {
        "http://localhost:8787"@
    } else {
        base
    }
}

/// Whether the site is one of the three with servers of their own: production, staging
/// and the local development server.
pub open spec fn known_site(base: Seq<char>) -> bool {
    base == "https://zed.dev"@ || base == "https://staging.zed.dev"@ || base
        == "http://localhost:3000"@
}

/// Any site other than the three known ones serves its API, cloud and language model
/// endpoints itself; production and staging share one cloud server; the local
/// development server's cloud and language model server are one.
pub proof fn unknown_sites_serve_themselves(base: Seq<char>)
    ensures
        !known_site(base) ==> api_base(base) == base && cloud_base(base) == base && llm_base(base)
            == base,
        cloud_base("https://zed.dev"@) == cloud_base("https://staging.zed.dev"@),
        cloud_base("http://localhost:3000"@) == llm_base("http://localhost:3000"@),
        llm_base("https://zed.dev"@) == cloud_base("https://zed.dev"@),
        known_site(base) ==> api_base(base) != base && cloud_base(base) != base && llm_base(base)
            != base,
{
    reveal_strlit("https://zed.dev");
    reveal_strlit("https://staging.zed.dev");
    reveal_strlit("http://localhost:3000");
    reveal_strlit("https://api.zed.dev");
    reveal_strlit("https://api-staging.zed.dev");
    reveal_strlit("http://localhost:8080");
    reveal_strlit("https://cloud.zed.dev");
    reveal_strlit("http://localhost:8787");
    reveal_strlit("https://llm-staging.zed.dev");
    let zed = "https://zed.dev"@;
    let staging = "https://staging.zed.dev"@;
    let local = "http://localhost:3000"@;
    assert(zed.len() != staging.len() && zed.len() != local.len() && staging.len() != local.len());
    assert(zed != "https://api.zed.dev"@ && zed.len() != "https://api.zed.dev"@.len());
    assert(zed.len() != "https://cloud.zed.dev"@.len());
    assert(staging.len() != "https://api-staging.zed.dev"@.len());
    assert(staging.len() != "https://cloud.zed.dev"@.len());
    assert(staging.len() != "https://llm-staging.zed.dev"@.len());
    assert(local[17] != "http://localhost:8080"@[17]);
    assert(local[17] != "http://localhost:8787"@[17]);
}

fn text_eq(a: &str, b: &str) -> (r: bool)
    ensures
        r == (a@ == b@),
{
    String::from_str(a) == String::from_str(b)
}

fn api_base_of(base: &str) -> (r: &str)
    ensures
        r@ == api_base(base@),
{
    if text_eq(base, "https://zed.dev") {
        "https://api.zed.dev"
    } else if text_eq(base, "https://staging.zed.dev") {
        "https://api-staging.zed.dev"
    } else if text_eq(base, "http://localhost:3000") {
        "http://localhost:8080"
    } else {
        base
    }
}

fn cloud_base_of(base: &str) -> (r: &str)
    ensures
        r@ == cloud_base(base@),
{
    if text_eq(base, "https://zed.dev") {
        "https://cloud.zed.dev"
    } else if text_eq(base, "https://staging.zed.dev") {
        "https://cloud.zed.dev"
    } else if text_eq(base, "http://localhost:3000") {
        "http://localhost:8787"
    } else {
        base
    }
}

fn llm_base_of(base: &str) -> (r: &str)
    ensures
        r@ == llm_base(base@),
{
    if text_eq(base, "https://zed.dev") {
        "https://cloud.zed.dev"
    } else if text_eq(base, "https://staging.zed.dev") {
        "https://llm-staging.zed.dev"
    } else if text_eq(base, "http://localhost:3000") {
        "http://localhost:8787"
    } else {
        base
    }
}

/// The outcome of parsing `input`: the URL, or the text and why it was refused.
fn parsed(input: String, outcome: Result<Url, ParseError>) -> (r: Result<Url, InvalidUrl>)
    ensures
        r is Ok <==> outcome is Ok,
        r matches Ok(u) ==> outcome == Ok::<Url, ParseError>(u),
        r matches Err(e) ==> e.input@ == input@,
{
    match outcome {
        Ok(url) => Ok(url),
        Err(reason) => Err(InvalidUrl { input, reason }),
    }
}

/// The proxy a client goes through: the configured proxy when it parses, else the one the
/// environment names when that parses, else none.
pub open spec fn chosen_proxy(proxy_url: Option<String>, env_proxy: Option<String>) -> Option<Url> {
    if proxy_url matches Some(p) && url_parses(p@) {
        Some(parsed_url(proxy_url->0@))
    } else if env_proxy matches Some(e) && url_parses(e@) {
        Some(parsed_url(env_proxy->0@))
    } else {
        None
    }
}

/// The proxy an HTTP client goes through.
pub struct HttpClientWithProxy {
    proxy: Option<Url>,
}

impl HttpClientWithProxy {
    /// The proxy URL, if any.
    pub closed spec fn proxy_url(&self) -> Option<Url> {
        self.proxy
    }

    /// A client through the proxy `proxy_url` when it parses, else through the proxy
    /// `env_proxy` that the environment names, when it parses.
    pub fn new(proxy_url: Option<String>, env_proxy: Option<String>) -> (r: Self)
        ensures
            r.proxy_url() == chosen_proxy(proxy_url, env_proxy),
    {
        let from_setting = match proxy_url {
            Some(p) => match parse_url(p.as_str()) {
                Ok(url) => Some(url),
                Err(_) => None,
            },
            None => None,
        };
        let proxy = match from_setting {
            Some(url) => Some(url),
            None => match env_proxy {
                Some(e) => match parse_url(e.as_str()) {
                    Ok(url) => Some(url),
                    Err(_) => None,
                },
                None => None,
            },
        };
        Self::new_url(proxy)
    }

    pub fn new_url(proxy_url: Option<Url>) -> (r: Self)
        ensures
            r.proxy_url() == proxy_url,
    {
        Self { proxy: proxy_url }
    }

    /// The proxy, if any.
    pub fn proxy(&self) -> (r: Option<&Url>)
        ensures
            match r {
                Some(u) => self.proxy_url() == Some(*u),
                None => self.proxy_url() is None,
            },
    {
        self.proxy.as_ref()
    }
}

/// An HTTP client for a site, and the URLs of the site's services.
pub struct HttpClientWithUrl {
    base_url: String,
    client: HttpClientWithProxy,
}

impl HttpClientWithUrl {
    /// The site's base URL.
    pub closed spec fn base(&self) -> Seq<char> {
        self.base_url@
    }

    /// The proxy URL, if any.
    pub closed spec fn proxy_url(&self) -> Option<Url> {
        self.client.proxy_url()
    }

    pub fn new(base_url: String, proxy_url: Option<String>, env_proxy: Option<String>) -> (r: Self)
        ensures
            r.base() == base_url@,
            r.proxy_url() == chosen_proxy(proxy_url, env_proxy),
    {
        let client = HttpClientWithProxy::new(proxy_url, env_proxy);
        Self { base_url, client }
    }

    pub fn new_url(base_url: String, proxy_url: Option<Url>) -> (r: Self)
        ensures
            r.base() == base_url@,
            r.proxy_url() == proxy_url,
    {
        let client = HttpClientWithProxy::new_url(proxy_url);
        Self { base_url, client }
    }

    /// The client's proxy settings.
    pub fn proxy_client(&self) -> (r: &HttpClientWithProxy)
        ensures
            r.proxy_url() == self.proxy_url(),
    {
        &self.client
    }

    pub fn base_url(&self) -> (r: String)
        ensures
            r@ == self.base(),
    {
        self.base_url.clone()
    }

    pub fn set_base_url(&mut self, base_url: String)
        ensures
            final(self).base() == base_url@,
            final(self).proxy_url() == old(self).proxy_url(),
    {
        self.base_url = base_url;
    }

    /// The site's base URL followed by `path`.
    pub fn build_url(&self, path: &str) -> (r: String)
        ensures
            r@ == self.base() + path@,
    {
        let mut url = self.base_url();
        url.append(path);
        url
    }

    /// The URL of `path` on the site's API server, with the query pairs.
    pub fn build_zed_api_url(&self, path: &str, query: &[(&str, &str)]) -> (r: Result<Url, InvalidUrl>)
        ensures
            r is Ok <==> url_parses(api_base(self.base()) + path@),
            r matches Ok(u) ==> u == url_with_params(api_base(self.base()) + path@, pairs_view(query@)),
            r matches Err(e) ==> e.input@ == api_base(self.base()) + path@,
    {
        let base_url = self.base_url();
        let mut input = String::from_str(api_base_of(base_url.as_str()));
        input.append(path);
        let result = parse_url_with_params(input.as_str(), query);
        parsed(input, result)
    }

    /// The URL of `path` on the site's cloud server.
    pub fn build_zed_cloud_url(&self, path: &str) -> (r: Result<Url, InvalidUrl>)
        ensures
            r is Ok <==> url_parses(cloud_base(self.base()) + path@),
            r matches Ok(u) ==> u == parsed_url(cloud_base(self.base()) + path@),
            r matches Err(e) ==> e.input@ == cloud_base(self.base()) + path@,
    {
        let base_url = self.base_url();
        let mut input = String::from_str(cloud_base_of(base_url.as_str()));
        input.append(path);
        let result = parse_url(input.as_str());
        parsed(input, result)
    }

    /// The URL of `path` on the site's cloud server with the encoded `query`.
    pub fn build_zed_cloud_url_with_query(&self, path: &str, query: &str) -> (r: Result<Url, InvalidUrl>)
        ensures
            r is Ok <==> url_parses(cloud_base(self.base()) + path@ + seq!['?'] + query@),
            r matches Ok(u) ==> u == parsed_url(cloud_base(self.base()) + path@ + seq!['?'] + query@),
            r matches Err(e) ==> e.input@ == cloud_base(self.base()) + path@ + seq!['?'] + query@,
    {
        let base_url = self.base_url();
        let mut input = String::from_str(cloud_base_of(base_url.as_str()));
        input.append(path);
        proof {
            reveal_strlit("?");
        }
        input.append("?");
        input.append(query);
        proof {
            assert(input@ =~= cloud_base(self.base()) + path@ + seq!['?'] + query@);
        }
        let result = parse_url(input.as_str());
        parsed(input, result)
    }

    /// The URL of `path` on the site's language model server, with the query pairs.
    pub fn build_zed_llm_url(&self, path: &str, query: &[(&str, &str)]) -> (r: Result<Url, InvalidUrl>)
        ensures
            r is Ok <==> url_parses(llm_base(self.base()) + path@),
            r matches Ok(u) ==> u == url_with_params(llm_base(self.base()) + path@, pairs_view(query@)),
            r matches Err(e) ==> e.input@ == llm_base(self.base()) + path@,
    {
        let base_url = self.base_url();
        let mut input = String::from_str(llm_base_of(base_url.as_str()));
        input.append(path);
        let result = parse_url_with_params(input.as_str(), query);
        parsed(input, result)
    }
}

} // verus!
