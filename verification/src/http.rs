//! The trusted boundary: declarations and thin wrappers around the HTTP
//! client, the JSON parser and the ambient credential mechanism. Verus
//! believes the contracts here; the bodies only make the outside calls.

use vstd::prelude::*;

verus! {

#[verifier::external_type_specification]
#[verifier::external_body]
pub struct ExClient(reqwest::blocking::Client);

/// What the JSON parser finds under the key `size` when the body parses as a
/// JSON object whose `size` field is a string; it depends on the body's
/// characters alone.
pub uninterp spec fn json_size_of(s: Seq<char>) -> Option<Seq<char>>;

/// Relies on serde_json::from_str to parse the metadata body as a JSON
/// object and read its `size` field as a string.
#[verifier::external_body]
pub(crate) fn json_size_string(body: &str) -> (r: Option<String>)
    ensures
        r matches Some(s) ==> json_size_of(body@) == Some(s@),
        r is None ==> json_size_of(body@) is None,
{
    let map: std::collections::HashMap<String, serde_json::Value> =
        serde_json::from_str(body).ok()?;
    map.get("size")?.as_str().map(|v| v.to_string())
}

/// Relies on gcp_auth::provider and TokenProvider::token to obtain a bearer
/// token for the read-only storage scope from ambient credentials; the
/// outcome depends on the execution environment, so nothing is promised of
/// it.
#[verifier::external_body]
pub(crate) fn fetch_auto_token() -> (r: Result<String, String>) {
    let rt = match tokio::runtime::Runtime::new() {
        Ok(rt) => rt,
        Err(e) => return Err(e.to_string()),
    };
    let provider = match rt.block_on(gcp_auth::provider()) {
        Ok(p) => p,
        Err(e) => return Err(e.to_string()),
    };
    let scopes = &["https://www.googleapis.com/auth/devstorage.read_only"];
    match rt.block_on(provider.token(scopes)) {
        Ok(t) => Ok(t.as_str().to_string()),
        Err(e) => Err(e.to_string()),
    }
}

/// Relies on reqwest::blocking::ClientBuilder to build a client that sends
/// the given `Authorization` header value with every request.
#[verifier::external_body]
pub(crate) fn build_client(authorization: &str) -> (r: Result<reqwest::blocking::Client, String>) {
    let value = match reqwest::header::HeaderValue::from_str(authorization) {
        Ok(v) => v,
        Err(e) => return Err(e.to_string()),
    };
    let mut headers = reqwest::header::HeaderMap::new();
    headers.insert(reqwest::header::AUTHORIZATION, value);
    reqwest::blocking::ClientBuilder::new().default_headers(headers).build().map_err(|e| e.to_string())
}

/// Relies on reqwest::blocking::Client::get to perform one GET of `url` and
/// hand back the response's status code and text body; the outcome depends
/// on the network, so nothing is promised of it.
#[verifier::external_body]
pub(crate) fn http_get_text(client: &reqwest::blocking::Client, url: &str) -> (r: Result<
    (u16, String),
    String,
>) {
    let res = client.get(url).send().map_err(|e| e.to_string())?;
    let status = res.status().as_u16();
    let body = res.text().map_err(|e| e.to_string())?;
    Ok((status, body))
}

/// Relies on reqwest::blocking::Client::get to perform one GET of `url` with
/// query parameter `alt=media` and header `Range: bytes={first}-{last}`
/// (inclusive ends), handing back the status code and the raw body bytes;
/// the outcome depends on the network, so nothing is promised of it.
#[verifier::external_body]
pub(crate) fn http_get_range(
    client: &reqwest::blocking::Client,
    url: &str,
    first: u64,
    last: u64,
) -> (r: Result<(u16, Vec<u8>), String>) {
    let range = format!("bytes={}-{}", first, last);
    let res = client
        .get(url)
        .query(&[("alt", "media")])
        .header(reqwest::header::RANGE, range)
        .send()
        .map_err(|e| e.to_string())?;
    let status = res.status().as_u16();
    let body = res.bytes().map_err(|e| e.to_string())?;
    Ok((status, body.to_vec()))
}

/// Relies on String::from_utf8_lossy to turn an error response's bytes into
/// text for diagnostics.
#[verifier::external_body]
pub(crate) fn lossy_string(bytes: &Vec<u8>) -> (r: String) {
    String::from_utf8_lossy(bytes).into_owned()
}

} // verus!
