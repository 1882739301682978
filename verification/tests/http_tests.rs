use evk::http_client::{HttpClientWithProxy, HttpClientWithUrl, HttpRequestExt, RedirectPolicy};
use http::request::Builder;
use http::Method;

fn client(base: &str) -> HttpClientWithUrl {
    HttpClientWithUrl::new(base.to_string(), None, None)
}

#[test]
fn service_urls_of_production_site() {
    let c = client("https://zed.dev");
    assert_eq!(c.build_url("/account"), "https://zed.dev/account");
    assert_eq!(
        c.build_zed_api_url("/rpc", &[("a", "1"), ("b", "x y")]).unwrap().as_str(),
        "https://api.zed.dev/rpc?a=1&b=x+y"
    );
    assert_eq!(c.build_zed_cloud_url("/client/users").unwrap().as_str(), "https://cloud.zed.dev/client/users");
    assert_eq!(
        c.build_zed_cloud_url_with_query("/search", "q=rust").unwrap().as_str(),
        "https://cloud.zed.dev/search?q=rust"
    );
    assert_eq!(c.build_zed_llm_url("/completion", &[]).unwrap().as_str(), "https://cloud.zed.dev/completion?");
}

#[test]
fn service_urls_of_staging_and_local_sites() {
    let c = client("https://staging.zed.dev");
    assert_eq!(c.build_zed_api_url("/x", &[]).unwrap().as_str(), "https://api-staging.zed.dev/x?");
    assert_eq!(c.build_zed_cloud_url("/x").unwrap().as_str(), "https://cloud.zed.dev/x");
    assert_eq!(c.build_zed_llm_url("/x", &[]).unwrap().as_str(), "https://llm-staging.zed.dev/x?");
    let c = client("http://localhost:3000");
    assert_eq!(c.build_zed_api_url("/x", &[]).unwrap().as_str(), "http://localhost:8080/x?");
    assert_eq!(c.build_zed_cloud_url("/x").unwrap().as_str(), "http://localhost:8787/x");
    assert_eq!(c.build_zed_llm_url("/x", &[]).unwrap().as_str(), "http://localhost:8787/x?");
}

#[test]
fn other_sites_serve_themselves() {
    let mut c = client("https://example.com");
    assert_eq!(c.build_zed_api_url("/x", &[]).unwrap().as_str(), "https://example.com/x?");
    c.set_base_url("https://zed.dev".to_string());
    assert_eq!(c.base_url(), "https://zed.dev");
    assert_eq!(c.build_zed_api_url("/x", &[]).unwrap().as_str(), "https://api.zed.dev/x?");
}

#[test]
fn refused_urls() {
    let c = client("not a url");
    let e = c.build_zed_cloud_url("/x").unwrap_err();
    assert_eq!(e.input, "not a url/x");
    assert_eq!(e.reason, url::ParseError::RelativeUrlWithoutBase);
    let e = c.build_zed_api_url("/y", &[("k", "v")]).unwrap_err();
    assert_eq!(e.input, "not a url/y");
}

#[test]
fn proxies() {
    let p = HttpClientWithProxy::new(Some("http://proxy:8080".to_string()), Some("http://env:1".to_string()));
    assert_eq!(p.proxy().unwrap().as_str(), "http://proxy:8080/");
    let p = HttpClientWithProxy::new(Some("::bad".to_string()), Some("http://env:1".to_string()));
    assert_eq!(p.proxy().unwrap().as_str(), "http://env:1/");
    let p = HttpClientWithProxy::new(Some("::bad".to_string()), Some("also bad".to_string()));
    assert!(p.proxy().is_none());
    let p = HttpClientWithProxy::new(None, None);
    assert!(p.proxy().is_none());
    let c = HttpClientWithUrl::new("https://zed.dev".to_string(), None, Some("http://env:2".to_string()));
    assert_eq!(c.proxy_client().proxy().unwrap().as_str(), "http://env:2/");
}

#[test]
fn redirect_policy_on_requests() {
    assert_eq!(RedirectPolicy::default(), RedirectPolicy::NoFollow);
    let b = Builder::new().follow_redirects(RedirectPolicy::FollowLimit(3));
    assert_eq!(
        b.extensions_ref().unwrap().get::<RedirectPolicy>(),
        Some(&RedirectPolicy::FollowLimit(3))
    );
}

#[test]
fn conditional_builders() {
    let b = Builder::new().when(true, |b| b.method(Method::POST));
    assert_eq!(b.method_ref(), Some(&Method::POST));
    let b = Builder::new().when(false, |b| b.method(Method::POST));
    assert_eq!(b.method_ref(), Some(&Method::GET));
    let b = Builder::new().when_some(Some("/x"), |b, uri| b.uri(uri));
    assert_eq!(b.uri_ref().unwrap(), "/x");
    let b = Builder::new().when_some(None::<&str>, |b, uri| b.uri(uri));
    assert_eq!(b.uri_ref().unwrap(), "/");
}

#[test]
fn later_redirect_policy_replaces_earlier() {
    let b = Builder::new()
        .follow_redirects(RedirectPolicy::FollowAll)
        .follow_redirects(RedirectPolicy::NoFollow);
    assert_eq!(b.extensions_ref().unwrap().get::<RedirectPolicy>(), Some(&RedirectPolicy::NoFollow));
}
