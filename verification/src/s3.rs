//! An S3 client: what its requests are made of.
use crate::decimal;
use crate::secrets::LinodeObjectStorageSecrets;
use crate::text;
use crate::urls;
use crate::urls::{Url, UrlError};
use crate::uuids;
use vstd::prelude::*;

verus! {

/// Stores credentials for accessing private S3 resources.
#[derive(Debug)]
pub struct S3Credentials {
    /// S3 Access Key
    pub access_key: String,
    /// S3 Secret Key
    pub secret_key: String,
}

impl Clone for S3Credentials {
    fn clone(&self) -> (r: S3Credentials)
        ensures
            r == *self,
    {
        S3Credentials { access_key: self.access_key.clone(), secret_key: self.secret_key.clone() }
    }
}

impl S3Credentials {
    /// Bundle up S3 credentials into a single object.
    pub fn new(access_key: &str, secret_key: &str) -> (r: S3Credentials)
        ensures
            r.access_key@ == access_key@,
            r.secret_key@ == secret_key@,
    {
        S3Credentials { access_key: access_key.to_string(), secret_key: secret_key.to_string() }
    }

    /// The credentials among the server's secrets.
    pub fn from_secrets(secrets: LinodeObjectStorageSecrets) -> (r: S3Credentials)
        ensures
            r.access_key == secrets.access_key,
            r.secret_key == secrets.secret_key,
    {
        S3Credentials { access_key: secrets.access_key, secret_key: secrets.secret_key }
    }
}

/// An S3 Region.
#[derive(Debug)]
pub struct S3Region {
    pub name: String,
    pub endpoint: Url,
}

impl Clone for S3Region {
    fn clone(&self) -> (r: S3Region)
        ensures
            r == *self,
    {
        S3Region { name: self.name.clone(), endpoint: self.endpoint.clone() }
    }
}

/// The endpoint of a region: the URL with the scheme `https`, unless its own begins with `http`.
pub open spec fn endpoint_of(s: Seq<char>) -> Option<Seq<char>> {
    match urls::parsed_url(s) {
        None => None,
        Some(u) => match urls::url_scheme(u) {
            None => None,
            Some(scheme) => if text::has_prefix(scheme, "http"@) {
                Some(u)
            } else {
                urls::url_with_scheme(u, "https"@)
            },
        },
    }
}

impl S3Region {
    /// Create a S3 region from a name and an endpoint URL.
    pub fn new(name: &str, endpoint: &str) -> (r: Result<S3Region, UrlError>)
        ensures
            match r {
                Ok(region) => region.name@ == name@ && endpoint_of(endpoint@) == Some(region.endpoint@),
                Err(_) => endpoint_of(endpoint@) is None,
            },
    {
        let url = match Url::parse(endpoint) {
            Ok(u) => u,
            Err(e) => {
                return Err(e);
            },
        };
        let scheme = match url.scheme() {
            Some(s) => s,
            None => {
                return Err(UrlError);
            },
        };
        let endpoint = if text::starts_with(scheme.as_str(), "http") {
            url
        } else {
            match url.with_scheme("https") {
                Ok(u) => u,
                Err(e) => {
                    return Err(e);
                },
            }
        };
        Ok(S3Region { name: name.to_string(), endpoint })
    }
}

/// A text without slashes at its start.
pub open spec fn without_slashes(s: Seq<char>) -> Seq<char>
    decreases s.len(),
{
    if s.len() > 0 && s[0] == '/' {
        without_slashes(s.drop_first())
    } else {
        s
    }
}

/// A text without slashes at its start.
pub fn strip_slashes(s: &str) -> (r: String)
    ensures
        r@ == without_slashes(s@),
{
    let c = text::to_chars(s);
    let mut i: usize = 0;
    assert(c@.skip(0) =~= c@);
    while i < c.len() && c[i] == '/'
        invariant
            i <= c@.len(),
            c@ == s@,
            without_slashes(s@) == without_slashes(c@.skip(i as int)),
        decreases c.len() - i,
    {
        assert(c@.skip(i as int).drop_first() =~= c@.skip(i + 1));
        i = i + 1;
    }
    assert(c@.subrange(i as int, c@.len() as int) =~= c@.skip(i as int));
    text::from_chars(&c, i, c.len())
}

/// What is left of a text without slashes at its start does not begin with one.
pub proof fn without_slashes_begins(s: Seq<char>)
    ensures
        without_slashes(s).len() > 0 ==> without_slashes(s)[0] != '/',
    decreases s.len(),
{
    if s.len() > 0 && s[0] == '/' {
        without_slashes_begins(s.drop_first());
    }
}

/// Interactions with S3 start here: a region, and the credentials for it.
#[derive(Debug)]
pub struct S3Client {
    pub creds: S3Credentials,
    pub region: S3Region,
}

/// One of the buckets of a client's region.
#[derive(Debug)]
pub struct S3BucketHandle<'a> {
    pub client: &'a S3Client,
    pub bucket_name: String,
}

impl S3Client {
    /// Construct a new S3 client with the given region and credentials.
    pub fn new(region: S3Region, creds: S3Credentials) -> (r: S3Client)
        ensures
            r == (S3Client { creds, region }),
    {
        S3Client { creds, region }
    }

    /// Focus on a specific S3 bucket.
    pub fn use_bucket<'a>(&'a self, name: &str) -> (r: S3BucketHandle<'a>)
        ensures
            r.client == self,
            r.bucket_name@ == name@,
    {
        S3BucketHandle { client: self, bucket_name: name.to_string() }
    }
}

/// The path of a file in a bucket.
pub open spec fn file_path(bucket: Seq<char>, key: Seq<char>) -> Seq<char> {
    "/"@ + bucket + "/"@ + without_slashes(key)
}

impl<'a> S3BucketHandle<'a> {
    /// The URL of a file in the bucket, where there is one.
    pub open spec fn url_of(&self, key: Seq<char>) -> Option<Seq<char>> {
        urls::url_with_path(self.client.region.endpoint@, file_path(self.bucket_name@, key))
    }

    /// The URL of a file in the bucket.
    pub fn file_url(&self, key: &str) -> (r: Result<Url, UrlError>)
        ensures
            urls::is_outcome(r, self.url_of(key@)),
    {
        let mut path = text::concat3("/", self.bucket_name.as_str(), "/");
        path.append(strip_slashes(key).as_str());
        self.client.region.endpoint.with_path(path.as_str())
    }
}

/// Whether a file exists, by the status of the answer to a `HEAD` request for it.
pub fn exists_by_status(status: u16) -> (r: bool)
    requires
        status == 200 || status == 404,
    ensures
        r == (status == 200),
{
    status == 200
}

/// What a request is signed for.
#[derive(Debug)]
pub struct SignatureScope {
    pub method: String,
    pub region_name: String,
    pub endpoint: String,
    pub path: String,
    pub scheme: String,
    pub hostname: Option<String>,
}

/// What a request is signed for, as texts.
pub struct ScopeView {
    pub method: Seq<char>,
    pub region_name: Seq<char>,
    pub endpoint: Seq<char>,
    pub path: Seq<char>,
    pub scheme: Seq<char>,
    pub hostname: Option<Seq<char>>,
}

impl View for SignatureScope {
    type V = ScopeView;

    open spec fn view(&self) -> ScopeView {
        ScopeView {
            method: self.method@,
            region_name: self.region_name@,
            endpoint: self.endpoint@,
            path: self.path@,
            scheme: self.scheme@,
            hostname: urls::opt_text(self.hostname),
        }
    }
}

/// What a request for a URL in a region is signed for: the path loses its slashes at the start.
pub open spec fn scope_of(region: S3Region, method: Seq<char>, url: Seq<char>) -> Option<ScopeView> {
    match (urls::url_scheme(url), urls::url_path(url)) {
        (Some(scheme), Some(path)) => Some(
            ScopeView {
                method,
                region_name: region.name@,
                endpoint: region.endpoint@,
                path: without_slashes(path),
                scheme,
                hostname: urls::url_host(url),
            },
        ),
        _ => None,
    }
}

/// What a request for a URL in a region is signed for.
pub fn signature_scope(region: &S3Region, method: &str, url: &Url) -> (r: Result<SignatureScope, UrlError>)
    ensures
        match r {
            Ok(s) => scope_of(*region, method@, url@) == Some(s@),
            Err(_) => scope_of(*region, method@, url@) is None,
        },
{
    match (url.scheme(), url.path()) {
        (Some(scheme), Some(path)) => Ok(
            SignatureScope {
                method: method.to_string(),
                region_name: region.name.clone(),
                endpoint: region.endpoint.as_str().to_string(),
                path: strip_slashes(path.as_str()),
                scheme,
                hostname: url.host_str(),
            },
        ),
        _ => Err(UrlError),
    }
}

/// What `rusoto_signature`'s `SignedRequest::generate_presigned_url` gives for a scope, an access key, a
/// secret key and a number of seconds at a time, which is written as in the parameter `X-Amz-Date`.
pub uninterp spec fn presigned_at(
    scope: ScopeView,
    access_key: Seq<char>,
    secret_key: Seq<char>,
    live_seconds: u64,
    time: Seq<char>,
) -> Seq<char>;

/// `rusoto_signature`'s `SignedRequest::generate_presigned_url` for the service `s3`, with a canonical
/// URI made from the path. The URL is determined by the arguments and by the time at which it is made, which stands
/// in it. It says for how many seconds it holds, and begins with the scheme and the host, where there is a host.
#[verifier::external_body]
fn presign(creds: &S3Credentials, scope: SignatureScope, live_seconds: u64) -> (r: String)
    ensures
        exists|time: Seq<char>| #[trigger]
            text::contains_text(r@, "&X-Amz-Date="@ + time + "&"@) && r@ == presigned_at(
                scope@,
                creds.access_key@,
                creds.secret_key@,
                live_seconds,
                time,
            ),
        scope@.hostname matches Some(host) ==> text::has_prefix(r@, scope.scheme@ + "://"@ + host),
        text::contains_text(r@, "&X-Amz-Expires="@ + decimal::decimal(live_seconds as nat) + "&"@),
{
    let SignatureScope { method, region_name, endpoint, path, scheme, hostname } = scope;
    let region = rusoto_signature::Region::Custom { name: region_name, endpoint };
    let mut signed = rusoto_signature::SignedRequest::new(&method, "s3", &region, &path);
    signed.scheme = Some(scheme);
    signed.hostname = hostname;
    signed.canonical_uri = signed.canonical_path();
    let (key, secret) = (creds.access_key.clone(), creds.secret_key.clone());
    let creds = rusoto_signature::credential::AwsCredentials::new(key, secret, None, None);
    let live = std::time::Duration::from_secs(live_seconds);
    signed.generate_presigned_url(&creds, &live, false)
}

/// Whether a text is the URL by which a file can be read for some time: the one for some time at which it
/// was made.
pub open spec fn is_presigned(text: Seq<char>, creds: S3Credentials, scope: ScopeView, live_seconds: u64) -> bool {
    &&& exists|time: Seq<char>| #[trigger]
        text::contains_text(text, "&X-Amz-Date="@ + time + "&"@) && text == presigned_at(
            scope,
            creds.access_key@,
            creds.secret_key@,
            live_seconds,
            time,
        )
    &&& scope.hostname matches Some(host) ==> text::has_prefix(text, scope.scheme + "://"@ + host)
    &&& text::contains_text(text, "&X-Amz-Expires="@ + decimal::decimal(live_seconds as nat) + "&"@)
}

/// Headers with the values of each.
pub type Headers = Seq<(String, Vec<Vec<u8>>)>;

/// Whether a value is a text.
pub open spec fn is_text(value: Seq<u8>, s: Seq<char>) -> bool {
    vstd::utf8::valid_utf8(value) && vstd::utf8::decode_utf8(value) == s
}

/// Whether a header has one value, which is a text.
pub open spec fn carries(headers: Headers, name: Seq<char>, value: Seq<char>) -> bool {
    exists|i: int|
        0 <= i < headers.len() && (#[trigger] headers[i]).0@ == name && headers[i].1@.len() == 1 && is_text(
            headers[i].1@[0]@,
            value,
        )
}

/// Whether a header has one value, which is a text that begins with another.
pub open spec fn carries_prefix(headers: Headers, name: Seq<char>, prefix: Seq<char>) -> bool {
    exists|value: Seq<char>| #[trigger] carries(headers, name, value) && text::has_prefix(value, prefix)
}

/// Whether a text is among the values of a header.
pub open spec fn keeps(headers: Headers, name: Seq<char>, value: Seq<char>) -> bool {
    exists|i: int, j: int|
        0 <= i < headers.len() && headers[i].0@ == name && 0 <= j < headers[i].1@.len() && is_text(
            #[trigger] headers[i].1@[j]@,
            value,
        )
}

/// A header's name in lower case.
pub open spec fn lower_name(name: Seq<char>) -> Seq<char> {
    name.map_values(|c: char| uuids::ascii_lower(c))
}

/// Whether signing sets a header anew.
pub open spec fn is_set_anew(name: Seq<char>) -> bool {
    name == "host"@ || name == "content-length"@ || name == "x-amz-date"@ || name == "x-amz-content-sha256"@ || name
        == "authorization"@
}

/// The names and values of headers.
pub open spec fn header_views(headers: Headers) -> Seq<(Seq<char>, Seq<Seq<u8>>)> {
    headers.map_values(|h: (String, Vec<Vec<u8>>)| (h.0@, h.1@.map_values(|v: Vec<u8>| v@)))
}

/// The headers that `rusoto_signature`'s `SignedRequest::sign` gives a request with a scope, headers and a
/// payload, for an access key and a secret key, at a time, which is written as in the header `x-amz-date`.
pub uninterp spec fn signed_at(
    scope: ScopeView,
    access_key: Seq<char>,
    secret_key: Seq<char>,
    headers: Seq<(Seq<char>, Seq<char>)>,
    payload: Option<Seq<u8>>,
    time: Seq<char>,
) -> Seq<(Seq<char>, Seq<Seq<u8>>)>;

/// What some bytes are, where there are any.
pub open spec fn opt_bytes(payload: Option<Vec<u8>>) -> Option<Seq<u8>> {
    match payload {
        Some(p) => Some(p@),
        None => None,
    }
}

/// The length of a payload.
pub open spec fn payload_len(payload: Option<Seq<u8>>) -> nat {
    match payload {
        Some(p) => p.len(),
        None => 0,
    }
}

/// Whether headers are those of a signed request: the ones for some time at which it was signed. The length of
/// the payload is among them, the host, where there is one, a header with the access key that authorizes the
/// request, and the given ones, but for those that signing sets anew.
pub open spec fn are_signed(
    signed: Headers,
    creds: S3Credentials,
    scope: ScopeView,
    headers: Seq<(String, String)>,
    payload: Option<Seq<u8>>,
) -> bool {
    &&& exists|time: Seq<char>| #[trigger]
        carries(signed, "x-amz-date"@, time) && header_views(signed) == signed_at(
            scope,
            creds.access_key@,
            creds.secret_key@,
            urls::pair_texts(headers),
            payload,
            time,
        )
    &&& scope.hostname matches Some(host) ==> carries(signed, "host"@, host)
    &&& carries(signed, "content-length"@, decimal::decimal(payload_len(payload)))
    &&& carries_prefix(signed, "authorization"@, "AWS4-HMAC-SHA256 Credential="@ + creds.access_key@ + "/"@)
    &&& forall|i: int|
        0 <= i < headers.len() && !is_set_anew(lower_name((#[trigger] headers[i]).0@)) ==> keeps(
            signed,
            lower_name(headers[i].0@),
            headers[i].1@,
        )
}

/// `rusoto_signature`'s `SignedRequest::sign` for the service `s3`, with a canonical URI made from the
/// path: the headers that the signed request has. They are determined by the arguments and by the time at which the
/// request is signed, which is among them. So are the length of the payload, the host, where there is one, a header
/// with the access key that authorizes the request, and the given ones, but for those that signing sets anew.
#[verifier::external_body]
fn sign(
    creds: &S3Credentials,
    scope: SignatureScope,
    headers: &Vec<(String, String)>,
    payload: Option<Vec<u8>>,
) -> (r: Vec<(String, Vec<Vec<u8>>)>)
    ensures
        exists|time: Seq<char>| #[trigger]
            carries(r@, "x-amz-date"@, time) && header_views(r@) == signed_at(
                scope@,
                creds.access_key@,
                creds.secret_key@,
                urls::pair_texts(headers@),
                opt_bytes(payload),
                time,
            ),
        scope@.hostname matches Some(host) ==> carries(r@, "host"@, host),
        carries(r@, "content-length"@, decimal::decimal(payload_len(opt_bytes(payload)))),
        carries_prefix(r@, "authorization"@, "AWS4-HMAC-SHA256 Credential="@ + creds.access_key@ + "/"@),
        forall|i: int|
            0 <= i < headers@.len() && !is_set_anew(lower_name((#[trigger] headers@[i]).0@)) ==> keeps(
                r@,
                lower_name(headers@[i].0@),
                headers@[i].1@,
            ),
{
    let region = rusoto_signature::Region::Custom { name: scope.region_name, endpoint: scope.endpoint };
    let mut signed = rusoto_signature::SignedRequest::new(&scope.method, "s3", &region, &scope.path);
    signed.scheme = Some(scope.scheme);
    signed.hostname = scope.hostname;
    signed.canonical_uri = signed.canonical_path();
    signed.set_payload(payload);
    headers.iter().for_each(|(name, value)| signed.add_header(name, value));
    let (key, secret) = (creds.access_key.clone(), creds.secret_key.clone());
    signed.sign(&rusoto_signature::credential::AwsCredentials::new(key, secret, None, None));
    signed.headers().iter().map(|(name, values)| (name.clone(), values.clone())).collect()
}

/// The payload that is signed for the bytes of a body: none where there are no bytes.
pub open spec fn payload_of(body: Seq<u8>) -> Option<Seq<u8>> {
    if body.len() == 0 {
        None
    } else {
        Some(body)
    }
}

/// The headers that a signed request for a URL has.
pub fn make_rusoto_signedrequest(
    creds: &S3Credentials,
    region: &S3Region,
    method: &str,
    url: &Url,
    headers: &Vec<(String, String)>,
    body: Vec<u8>,
) -> (r: Result<Vec<(String, Vec<Vec<u8>>)>, UrlError>)
    ensures
        match r {
            Ok(signed) => {
                &&& scope_of(*region, method@, url@) is Some
                &&& are_signed(signed@, *creds, scope_of(*region, method@, url@)->0, headers@, payload_of(body@))
            },
            Err(_) => scope_of(*region, method@, url@) is None,
        },
{
    match signature_scope(region, method, url) {
        Ok(scope) => Ok(
            sign(
                creds,
                scope,
                headers,
                if body.len() == 0 {
                    None
                } else {
                    Some(body)
                },
            ),
        ),
        Err(e) => Err(e),
    }
}

/// A URL by which a request can be made for some time without credentials. There is none where the text that is
/// made for it is no URL.
pub fn generate_presigned_url(
    creds: &S3Credentials,
    region: &S3Region,
    method: &str,
    original_url: &Url,
    live_seconds: u64,
) -> (r: Result<Url, UrlError>)
    ensures
        match scope_of(*region, method@, original_url@) {
            Some(scope) => exists|text: Seq<char>| #[trigger]
                is_presigned(text, *creds, scope, live_seconds) && urls::is_outcome(r, urls::parsed_url(text)),
            None => r is Err,
        },
{
    match signature_scope(region, method, original_url) {
        Ok(scope) => {
            let text = presign(creds, scope, live_seconds);
            assert(is_presigned(text@, *creds, scope@, live_seconds));
            Url::parse(text.as_str())
        },
        Err(e) => Err(e),
    }
}

impl<'a> S3BucketHandle<'a> {
    /// Generate a pre-signed URL for a given file. This URL will be valid until `live_seconds` seconds have passed.
    pub fn presign_url(&self, key: &str, live_seconds: u64) -> (r: Result<Url, UrlError>)
        ensures
            match self.url_of(key@) {
                Some(url) => match scope_of(self.client.region, "GET"@, url) {
                    Some(scope) => exists|text: Seq<char>| #[trigger]
                        is_presigned(text, self.client.creds, scope, live_seconds) && urls::is_outcome(
                            r,
                            urls::parsed_url(text),
                        ),
                    None => r is Err,
                },
                None => r is Err,
            },
    {
        match self.file_url(key) {
            Ok(url) => generate_presigned_url(&self.client.creds, &self.client.region, "GET", &url, live_seconds),
            Err(e) => Err(e),
        }
    }
}

/// What is taken from the start of a text are slashes alone, as many as stand there.
pub proof fn slashes_alone_are_taken(slashes: nat, rest: Seq<char>)
    requires
        rest.len() > 0 ==> rest[0] != '/',
    ensures
        without_slashes(Seq::new(slashes, |i: int| '/') + rest) == rest,
    decreases slashes,
{
    let s = Seq::new(slashes, |i: int| '/') + rest;
    if slashes > 0 {
        let fewer = (slashes - 1) as nat;
        slashes_alone_are_taken(fewer, rest);
        assert(s[0] == '/');
        assert(s.drop_first() =~= Seq::new(fewer, |i: int| '/') + rest);
    } else {
        assert(s =~= rest);
    }
}

/// A file has the same URL with and without slashes before its key, and in its path the key stands behind the
/// bucket's name.
pub proof fn path_names_bucket_and_key(bucket: Seq<char>, key: Seq<char>)
    requires
        key.len() > 0 ==> key[0] != '/',
    ensures
        file_path(bucket, key) == "/"@ + bucket + "/"@ + key,
        file_path(bucket, seq!['/'] + key) == file_path(bucket, key),
{
    slashes_alone_are_taken(0, key);
    slashes_alone_are_taken(1, key);
    assert(Seq::new(0, |i: int| '/') + key =~= key);
    assert(Seq::new(1, |i: int| '/') + key =~= seq!['/'] + key);
}

/// An endpoint by HTTP stays as it is, and any other gets HTTPS.
pub proof fn endpoints_are_by_http(s: Seq<char>, url: Seq<char>, scheme: Seq<char>)
    ensures
        urls::parsed_url(s) == Some(url) && urls::url_scheme(url) == Some(scheme) ==> endpoint_of(s) == if text::has_prefix(
            scheme,
            "http"@,
        ) {
            Some(url)
        } else {
            urls::url_with_scheme(url, "https"@)
        },
        urls::parsed_url(s) is None ==> endpoint_of(s) is None,
{
}

/// A request is signed for its method, its region, and the parts of its URL.
pub proof fn scope_says_what_is_asked(region: S3Region, method: Seq<char>, url: Seq<char>)
    ensures
        scope_of(region, method, url) is Some <==> urls::url_scheme(url) is Some && urls::url_path(url) is Some,
        scope_of(region, method, url) matches Some(scope) ==> {
            &&& scope.method == method
            &&& scope.region_name == region.name@
            &&& scope.endpoint == region.endpoint@
            &&& urls::url_scheme(url) == Some(scope.scheme)
            &&& scope.hostname == urls::url_host(url)
            &&& scope.path == without_slashes(urls::url_path(url)->0)
        },
{
}

/// A body is signed as it is, and one without bytes as none.
pub proof fn bodies_are_signed_whole(body: Seq<u8>)
    ensures
        body.len() > 0 ==> payload_of(body) == Some(body),
        body.len() == 0 ==> payload_of(body) is None,
        payload_len(payload_of(body)) == body.len(),
{
}

/// A signed request has the headers that signing gives it for its scope, its headers and its payload; among them
/// are its host, the length of its payload, the access key, and the given headers but for those that are set anew.
pub proof fn signed_requests_have_their_headers(
    signed: Headers,
    creds: S3Credentials,
    scope: ScopeView,
    headers: Seq<(String, String)>,
    payload: Option<Seq<u8>>,
)
    requires
        are_signed(signed, creds, scope, headers, payload),
    ensures
        exists|time: Seq<char>| #[trigger]
            carries(signed, "x-amz-date"@, time) && header_views(signed) == signed_at(
                scope,
                creds.access_key@,
                creds.secret_key@,
                urls::pair_texts(headers),
                payload,
                time,
            ),
        scope.hostname matches Some(host) ==> carries(signed, "host"@, host),
        carries(signed, "content-length"@, decimal::decimal(payload_len(payload))),
        carries_prefix(signed, "authorization"@, "AWS4-HMAC-SHA256 Credential="@ + creds.access_key@ + "/"@),
        forall|i: int|
            0 <= i < headers.len() && !is_set_anew(lower_name((#[trigger] headers[i]).0@)) ==> keeps(
                signed,
                lower_name(headers[i].0@),
                headers[i].1@,
            ),
{
}

/// A URL that was signed beforehand is the one for its scope, its credentials and its time to live, and says how
/// long it lives.
pub proof fn presigned_urls_say_how_long_they_live(
    text: Seq<char>,
    creds: S3Credentials,
    scope: ScopeView,
    live_seconds: u64,
)
    requires
        is_presigned(text, creds, scope, live_seconds),
    ensures
        exists|time: Seq<char>| #[trigger]
            text::contains_text(text, "&X-Amz-Date="@ + time + "&"@) && text == presigned_at(
                scope,
                creds.access_key@,
                creds.secret_key@,
                live_seconds,
                time,
            ),
        scope.hostname matches Some(host) ==> text::has_prefix(text, scope.scheme + "://"@ + host),
        text::contains_text(text, "&X-Amz-Expires="@ + decimal::decimal(live_seconds as nat) + "&"@),
{
}

/// A file of a bucket is at the path of the bucket and the key, on the endpoint of the region.
pub proof fn files_are_on_the_endpoint<'a>(bucket: S3BucketHandle<'a>, key: Seq<char>)
    requires
        key.len() > 0 ==> key[0] != '/',
    ensures
        bucket.url_of(key) == urls::url_with_path(
            bucket.client.region.endpoint@,
            "/"@ + bucket.bucket_name@ + "/"@ + key,
        ),
{
    path_names_bucket_and_key(bucket.bucket_name@, key);
}

} // verus!
