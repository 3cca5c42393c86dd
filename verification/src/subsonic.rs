//! OpenSubsonic/Subsonic request building: the server address, the
//! authentication parameters and the endpoint URLs of the REST API.

use vstd::prelude::*;
use vstd::utf8::encode_utf8;

use md5::{Digest, Md5};
use rand::distr::Alphanumeric;
use rand::Rng;
use url::Url;

use crate::model::ProviderError;
use crate::text::{chars_of, join_text, decimal, decimal_text, push_char};

verus! {

#[verifier::external_type_specification]
#[verifier::external_body]
pub struct ExUrl(Url);

// ---------------------------------------------------------------------------
// What the url crate computes
// ---------------------------------------------------------------------------

/// The path of a URL, as `Url::path` returns it.
pub uninterp spec fn url_path_of(url: Url) -> Seq<char>;

/// The name/value pairs of a URL's query, as `Url::query_pairs` decodes
/// them, in order.
pub uninterp spec fn url_query_of(url: Url) -> Seq<(Seq<char>, Seq<char>)>;

/// The serialization of a URL, as `String::from(url)` gives it.
pub uninterp spec fn url_text_of(url: Url) -> Seq<char>;

/// The part of a URL before its path (scheme, user, host and port), as
/// `&url[..Position::BeforePath]` gives it.
pub uninterp spec fn url_before_path(url: Url) -> Seq<char>;

/// Whether a URL cannot be a base (an opaque URL such as `mailto:x`), as
/// `Url::cannot_be_a_base` says.
pub uninterp spec fn url_opaque(url: Url) -> bool;

/// What `Url::parse` makes of a text: the URL, or the text of its error.
pub uninterp spec fn parsed_url(input: Seq<char>) -> Result<Url, Seq<char>>;

/// Whether a text starts with `http://` or `https://`.
pub open spec fn is_web_address(input: Seq<char>) -> bool {
    ||| (input.len() >= 7 && input.take(7) == "http://"@)
    ||| (input.len() >= 8 && input.take(8) == "https://"@)
}

/// Parses an absolute URL (`Url::parse`).
///
/// Trusted: the outcome is a function of the text alone; it is named. A
/// text that starts with `http://` or `https://` has a special scheme, whose
/// URLs always have a host and so can be a base.
#[verifier::external_body]
fn parse_url(input: &str) -> (parsed: Result<Url, String>)
    ensures
        match (parsed, parsed_url(input@)) {
            (Ok(url), Ok(named)) => url == named,
            (Err(text), Err(named)) => text@ == named,
            _ => false,
        },
        parsed matches Ok(u) ==> (is_web_address(input@) ==> !url_opaque(u)),
{
    match Url::parse(input) {
        Ok(url) => Ok(url),
        Err(error) => Err(error.to_string()),
    }
}

/// The path of the URL that a text parses as, empty when it does not parse.
pub open spec fn parsed_path(input: Seq<char>) -> Seq<char> {
    match parsed_url(input) {
        Ok(url) => url_path_of(url),
        Err(_) => Seq::empty(),
    }
}

/// The path of a URL (`Url::path`).
///
/// Trusted: returns the URL's path.
#[verifier::external_body]
fn url_path(url: &Url) -> (path: String)
    ensures
        path@ == url_path_of(*url),
{
    url.path().to_string()
}

/// Adds a trailing `/` to a URL's path (`Url::set_path`).
///
/// Trusted: `set_path` keeps the query and everything before the path, and
/// parses the given path without encoding again what `Url::path` gave; so a
/// non-empty path with `/` appended becomes exactly the new path. (An empty
/// path of an opaque URL, such as `foo:`, becomes `%2F` instead; for an
/// empty path the new path is not stated.) Whether the URL can be a base
/// does not change.
#[verifier::external_body]
fn url_set_path(url: &mut Url, path: &str)
    requires
        path@ == url_path_of(*old(url)).push('/'),
    ensures
        url_path_of(*old(url)).len() > 0 ==> url_path_of(*final(url)) == path@,
        url_query_of(*final(url)) == url_query_of(*old(url)),
        url_before_path(*final(url)) == url_before_path(*old(url)),
        url_opaque(*final(url)) == url_opaque(*old(url)),
{
    url.set_path(path);
}

/// Whether a relative reference is made only of ASCII letters, digits and
/// `/`, and starts with a letter or digit.
pub open spec fn is_plain_reference(reference: Seq<char>) -> bool {
    &&& reference.len() > 0
    &&& reference[0] != '/'
    &&& forall|i: int|
        0 <= i < reference.len() ==> #[trigger] is_ascii_alphanumeric(reference[i])
            || reference[i] == '/'
}

/// Whether a character is an ASCII letter or digit.
pub open spec fn is_ascii_alphanumeric(c: char) -> bool {
    ('0' <= c && c <= '9') || ('a' <= c && c <= 'z') || ('A' <= c && c <= 'Z')
}

/// What `Url::join` makes of a base URL and a reference: the joined URL,
/// or the text of its error.
pub uninterp spec fn url_joined(base: Url, reference: Seq<char>) -> Result<Url, Seq<char>>;

/// Resolves a relative reference against a base URL (`Url::join`).
///
/// Trusted: the outcome is a function of the base and the reference; it is
/// named. Of a plain relative path (letters, digits and `/`, see
/// [`is_plain_reference`]), which has no scheme, `?` or `#`, the source
/// shows more: against a base that can be a base the join always succeeds,
/// copies everything before the path from the base, gives no query, and
/// against a base path that ends with `/` appends the reference to that
/// path.
#[verifier::external_body]
fn url_join(base: &Url, reference: &str) -> (joined: Result<Url, String>)
    ensures
        match (joined, url_joined(*base, reference@)) {
            (Ok(url), Ok(named)) => url == named,
            (Err(text), Err(named)) => text@ == named,
            _ => false,
        },
        is_plain_reference(reference@) && !url_opaque(*base) ==> joined is Ok,
        joined matches Ok(url) ==> (is_plain_reference(reference@) ==> url_before_path(url)
            == url_before_path(*base) && !url_opaque(url)),
        joined matches Ok(url) ==> (is_plain_reference(reference@) ==> url_query_of(url)
            == Seq::<(Seq<char>, Seq<char>)>::empty()),
        joined matches Ok(url) ==> (is_plain_reference(reference@) && ends_with_slash(
            url_path_of(*base),
        ) ==> url_path_of(url) == url_path_of(*base) + reference@),
{
    match base.join(reference) {
        Ok(url) => Ok(url),
        Err(error) => Err(error.to_string()),
    }
}

/// Appends a name/value pair to a URL's query
/// (`Url::query_pairs_mut().append_pair`).
///
/// Trusted: the pair is form-urlencoded and appended; decoding the query
/// gives the earlier pairs followed by this one. The path, and everything
/// before it, is kept.
#[verifier::external_body]
fn url_append_pair(url: &mut Url, name: &str, value: &str)
    ensures
        url_query_of(*final(url)) == url_query_of(*old(url)).push((name@, value@)),
        url_path_of(*final(url)) == url_path_of(*old(url)),
        url_before_path(*final(url)) == url_before_path(*old(url)),
{
    url.query_pairs_mut().append_pair(name, value);
}

/// The serialization of a URL (`String::from(url)`).
///
/// Trusted: returns the URL's serialization, which starts with the part
/// before the path.
#[verifier::external_body]
fn url_into_string(url: Url) -> (text: String)
    ensures
        text@ == url_text_of(url),
        url_before_path(url).len() <= text@.len() && text@.take(url_before_path(url).len() as int)
            == url_before_path(url),
{
    url.into()
}

// ---------------------------------------------------------------------------
// Salts and tokens
// ---------------------------------------------------------------------------

/// The MD5 digest of some bytes, as `Md5::digest` computes it.
pub uninterp spec fn md5_of(data: Seq<u8>) -> Seq<u8>;

/// The MD5 digest of some bytes (`Md5::digest`).
///
/// Trusted: the digest is a function of the bytes alone (named here), and
/// its type holds sixteen bytes.
#[verifier::external_body]
fn md5_digest(data: &[u8]) -> (digest: Vec<u8>)
    ensures
        digest@ == md5_of(data@),
        digest@.len() == 16,
{
    Md5::digest(data).to_vec()
}

/// The lower-case hexadecimal digit for a value below sixteen.
pub open spec fn hex_digit(d: u8) -> char {
    if d < 10 {
        ((48 + d) as u32) as char
    } else {
        ((87 + d) as u32) as char
    }
}

/// Lower-case hexadecimal text of some bytes, two digits per byte, the high
/// half first.
pub open spec fn hex_text(bytes: Seq<u8>) -> Seq<char>
    decreases bytes.len(),
{
    if bytes.len() == 0 {
        Seq::empty()
    } else {
        hex_text(bytes.drop_last()) + seq![
            hex_digit(bytes.last() / 16),
            hex_digit(bytes.last() % 16),
        ]
    }
}

/// Every byte becomes two hexadecimal digits.
pub proof fn hex_text_len(bytes: Seq<u8>)
    ensures
        hex_text(bytes).len() == 2 * bytes.len(),
    decreases bytes.len(),
{
    if bytes.len() > 0 {
        hex_text_len(bytes.drop_last());
    }
}

/// Lower-case hexadecimal encoding (`hex::encode`).
///
/// Trusted: `hex::encode` maps each byte to its high and then its low
/// half, each written with `0123456789abcdef`.
#[verifier::external_body]
fn hex_encode(bytes: &[u8]) -> (text: String)
    ensures
        text@ == hex_text(bytes@),
{
    hex::encode(bytes)
}

/// Whether a text is a salt as the client makes them: sixteen ASCII letters
/// and digits.
pub open spec fn is_salt(salt: Seq<char>) -> bool {
    &&& salt.len() == 16
    &&& forall|i: int| 0 <= i < salt.len() ==> #[trigger] is_ascii_alphanumeric(salt[i])
}

/// A random text of ASCII letters and digits (`Alphanumeric` samples).
///
/// Trusted: the rand crate samples `Alphanumeric` from `A-Z`, `a-z` and
/// `0-9`; `len` of them are taken. Which ones is left to chance and not
/// stated.
#[verifier::external_body]
fn random_alphanumeric(len: usize) -> (text: String)
    ensures
        text@.len() == len,
        forall|i: int| 0 <= i < text@.len() ==> #[trigger] is_ascii_alphanumeric(text@[i]),
{
    rand::rng().sample_iter(&Alphanumeric).take(len).map(char::from).collect()
}

/// The token of Subsonic password authentication: the lower-case hex MD5 of
/// the UTF-8 bytes of the password followed by the salt.
pub open spec fn token_for(password: Seq<char>, salt: Seq<char>) -> Seq<char> {
    hex_text(md5_of(encode_utf8(password + salt)))
}

// ---------------------------------------------------------------------------
// Credentials and the query of every request
// ---------------------------------------------------------------------------

/// How the client authenticates with the server.
#[derive(Clone, Debug)]
pub enum Credentials {
    /// An OpenSubsonic API key.
    ApiKey(String),
    /// A user name and password, sent as a salted token.
    Password { username: String, password: String },
}

/// The REST API version the client speaks.
pub const API_VERSION: &'static str = "1.16.1";

/// The client name the server is told.
pub const CLIENT_NAME: &'static str = "subsonic-resonance";

/// A query pair, by its views.
pub type QueryPair = (Seq<char>, Seq<char>);

/// The pairs that start every query: API version, client name and format.
pub open spec fn protocol_pairs() -> Seq<QueryPair> {
    seq![("v"@, API_VERSION@), ("c"@, CLIENT_NAME@), ("f"@, "json"@)]
}

/// The pairs that authenticate a request: the API key, or the user name,
/// the salt and the token.
pub open spec fn auth_pairs(credentials: Credentials, salt: Seq<char>) -> Seq<QueryPair> {
    match credentials {
        Credentials::ApiKey(key) => seq![("apiKey"@, key@)],
        Credentials::Password { username, password } => seq![
            ("u"@, username@),
            ("s"@, salt),
            ("t"@, token_for(password@, salt)),
        ],
    }
}

/// The pairs of a method's own arguments.
pub open spec fn argument_pairs(arguments: Seq<(&str, String)>) -> Seq<QueryPair> {
    arguments.map_values(|a: (&str, String)| (a.0@, a.1@))
}

/// The full query of a request.
pub open spec fn request_query(
    credentials: Credentials,
    salt: Seq<char>,
    arguments: Seq<QueryPair>,
) -> Seq<QueryPair> {
    protocol_pairs() + auth_pairs(credentials, salt) + arguments
}

/// Whether a path ends with `/`.
pub open spec fn ends_with_slash(path: Seq<char>) -> bool {
    path.len() > 0 && path.last() == '/'
}

/// A base path with a trailing `/`, added where it is missing.
pub open spec fn directory_path(path: Seq<char>) -> Seq<char> {
    if ends_with_slash(path) {
        path
    } else {
        path.push('/')
    }
}

/// A client of one Subsonic server: its address (with a path that ends in
/// `/`) and the credentials for it.
#[derive(Debug)]
pub struct SubsonicClient {
    base_url: Url,
    credentials: Credentials,
}

/// Whether a URL is what `endpoint` makes for a method: `rest/<method>`
/// joined to the server address, with the protocol pairs, the
/// authentication pairs and the arguments appended to its query. For a
/// plain method name that is the server address's scheme, host and port,
/// the method's path below the base path, and exactly those pairs.
pub open spec fn is_endpoint(
    client: SubsonicClient,
    method: Seq<char>,
    arguments: Seq<QueryPair>,
    salt: Seq<char>,
    url: Url,
) -> bool {
    &&& client.joined(method) matches Ok(j) && url_path_of(url) == url_path_of(j)
        && url_before_path(url) == url_before_path(j) && url_query_of(url) == url_query_of(j)
        + request_query(client.credentials(), salt, arguments)
    &&& is_plain_reference("rest/"@ + method) ==> url_before_path(url) == client.origin()
    &&& is_plain_reference("rest/"@ + method) ==> url_query_of(url) == request_query(
        client.credentials(),
        salt,
        arguments,
    )
    &&& is_plain_reference("rest/"@ + method) && ends_with_slash(client.base_path())
        ==> url_path_of(url) == client.base_path() + "rest/"@ + method
    &&& client.credentials() is Password ==> hex_text(
        md5_of(encode_utf8(client.credentials()->password@ + salt)),
    ).len() == 32
}

impl SubsonicClient {
    /// The path of the server address: the parsed path, with `/` appended
    /// where it had none.
    pub closed spec fn base_path(&self) -> Seq<char> {
        url_path_of(self.base_url)
    }

    /// The credentials the client authenticates with.
    pub closed spec fn credentials(&self) -> Credentials {
        self.credentials
    }

    /// The part of the server address before its path: scheme, user, host
    /// and port.
    pub closed spec fn origin(&self) -> Seq<char> {
        url_before_path(self.base_url)
    }

    /// What joining `rest/<method>` to the server address gives.
    pub closed spec fn joined(&self, method: Seq<char>) -> Result<Url, Seq<char>> {
        url_joined(self.base_url, "rest/"@ + method)
    }

    /// Whether the server address cannot be a base (an opaque URL such as
    /// `mailto:x`), so that no API method resolves below it.
    pub closed spec fn opaque(&self) -> bool {
        url_opaque(self.base_url)
    }

    /// A client of the server at `base_url`. The address must be an
    /// absolute URL; its path gets a trailing `/` where it has none, so that
    /// API methods resolve below it.
    pub fn new(base_url: &str, credentials: Credentials) -> (client: Result<Self, ProviderError>)
        ensures
            client is Ok <==> parsed_url(base_url@) is Ok,
            client matches Ok(c) ==> (parsed_path(base_url@).len() > 0 ==> c.base_path()
                == directory_path(parsed_path(base_url@)))
                && c.credentials() == credentials,
            client matches Ok(c) ==> parsed_url(base_url@) matches Ok(u) && c.origin()
                == url_before_path(u) && c.opaque() == url_opaque(u),
            client matches Ok(c) ==> (is_web_address(base_url@) ==> !c.opaque()),
            client matches Err(e) ==> e matches ProviderError::InvalidResponse(message)
                && parsed_url(base_url@) matches Err(text) && message@ == "invalid server URL: "@
                + text,
    {
        let mut url = match parse_url(base_url) {
            Ok(url) => url,
            Err(text) => {
                return Err(
                    ProviderError::InvalidResponse(join_text("invalid server URL: ", text.as_str())),
                );
            },
        };
        let path = chars_of(url_path(&url).as_str());
        if path.len() == 0 || path[path.len() - 1] != '/' {
            let mut with_slash = url_path(&url);
            push_char(&mut with_slash, '/');
            url_set_path(&mut url, with_slash.as_str());
        }
        Ok(SubsonicClient { base_url: url, credentials })
    }

    /// The URL of an API method with the given salt for password
    /// authentication: `rest/<method>` below the server address, with the
    /// protocol pairs, the authentication pairs and the arguments, in this
    /// order, as its query.
    pub fn endpoint_with_salt(
        &self,
        method: &str,
        arguments: &[(&str, String)],
        salt: &str,
    ) -> (url: Result<Url, ProviderError>)
        ensures
            url is Ok <==> self.joined(method@) is Ok,
            url matches Ok(u) ==> is_endpoint(*self, method@, argument_pairs(arguments@), salt@, u),
            is_plain_reference("rest/"@ + method@) && !self.opaque() ==> url is Ok,
            url matches Err(e) ==> (e matches ProviderError::InvalidResponse(text)
                && self.joined(method@) matches Err(t) && text@ == t),
    {
        let reference = join_text("rest/", method);
        proof {
            reveal_strlit("rest/");
            assert(reference@ == "rest/"@ + method@);
        }
        let mut url = match url_join(&self.base_url, reference.as_str()) {
            Ok(url) => url,
            Err(text) => {
                return Err(ProviderError::InvalidResponse(text));
            },
        };
        let ghost joined_query = url_query_of(url);
        url_append_pair(&mut url, "v", API_VERSION);
        url_append_pair(&mut url, "c", CLIENT_NAME);
        url_append_pair(&mut url, "f", "json");
        match &self.credentials {
            Credentials::ApiKey(key) => {
                url_append_pair(&mut url, "apiKey", key.as_str());
            },
            Credentials::Password { username, password } => {
                let salted = join_text(password.as_str(), salt);
                let digest = md5_digest(salted.as_str().as_bytes());
                let token = hex_encode(digest.as_slice());
                proof {
                    hex_text_len(digest@);
                }
                url_append_pair(&mut url, "u", username.as_str());
                url_append_pair(&mut url, "s", salt);
                url_append_pair(&mut url, "t", token.as_str());
            },
        }
        let ghost prefix = url_query_of(url);
        let ghost path = url_path_of(url);
        let ghost front = url_before_path(url);
        let mut i: usize = 0;
        while i < arguments.len()
            invariant
                i <= arguments@.len(),
                url_query_of(url) == prefix + argument_pairs(arguments@.take(i as int)),
                url_path_of(url) == path,
                url_before_path(url) == front,
            decreases arguments@.len() - i,
        {
            let (name, value) = &arguments[i];
            url_append_pair(&mut url, *name, value.as_str());
            proof {
                assert(argument_pairs(arguments@.take(i + 1)) =~= argument_pairs(
                    arguments@.take(i as int),
                ).push((arguments@[i as int].0@, arguments@[i as int].1@)));
            }
            i = i + 1;
        }
        assert(arguments@.take(arguments@.len() as int) =~= arguments@);
        proof {
            assert(url_query_of(url) =~= joined_query + request_query(
                self.credentials,
                salt@,
                argument_pairs(arguments@),
            ));
            if is_plain_reference(reference@) {
                assert(url_query_of(url) =~= request_query(
                    self.credentials,
                    salt@,
                    argument_pairs(arguments@),
                ));
            }
        }
        assert(url_path_of(self.base_url) + reference@ =~= url_path_of(self.base_url) + "rest/"@
            + method@);
        Ok(url)
    }

    /// The URL of an API method, with a fresh random salt when the client
    /// authenticates by password.
    pub fn endpoint(&self, method: &str, arguments: &[(&str, String)]) -> (url: Result<
        Url,
        ProviderError,
    >)
        ensures
            url matches Ok(u) ==> exists|salt: Seq<char>|
                (self.credentials() is Password ==> is_salt(salt)) && is_endpoint(
                    *self,
                    method@,
                    argument_pairs(arguments@),
                    salt,
                    u,
                ),
            url is Ok <==> self.joined(method@) is Ok,
            is_plain_reference("rest/"@ + method@) && !self.opaque() ==> url is Ok,
            url matches Err(e) ==> (e matches ProviderError::InvalidResponse(text)
                && self.joined(method@) matches Err(t) && text@ == t),
    {
        let salt = match &self.credentials {
            Credentials::ApiKey(_) => String::new(),
            Credentials::Password { .. } => random_alphanumeric(16),
        };
        let url = self.endpoint_with_salt(method, arguments, salt.as_str());
        proof {
            if url is Ok {
                let u = url->Ok_0;
                assert((self.credentials() is Password ==> is_salt(salt@)) && is_endpoint(
                    *self,
                    method@,
                    argument_pairs(arguments@),
                    salt@,
                    u,
                ));
            }
        }
        url
    }
}


impl SubsonicClient {
    /// The URL that streams a track: `stream` with the track's id.
    pub fn stream_url(&self, track_id: &str) -> (url: Result<String, ProviderError>)
        ensures
            url matches Ok(text) ==> exists|salt: Seq<char>, u: Url|
                (self.credentials() is Password ==> is_salt(salt)) && #[trigger] is_endpoint(
                    *self,
                    "stream"@,
                    id_pairs(track_id@),
                    salt,
                    u,
                ) && text@ == url_text_of(u),
            url matches Ok(text) ==> self.origin().len() <= text@.len() && text@.take(
                self.origin().len() as int,
            ) == self.origin(),
            !self.opaque() ==> url is Ok,
            url is Ok <==> self.joined("stream"@) is Ok,
            url matches Err(e) ==> (e matches ProviderError::InvalidResponse(text)
                && self.joined("stream"@) matches Err(t) && text@ == t),
    {
        let arguments = vec![("id", String::from_str(track_id))];
        proof {
            reveal_strlit("id");
            assert(argument_pairs(arguments@) =~= id_pairs(track_id@));
            reveal_strlit("stream");
            assert(forall|i: int| 0 <= i < "stream"@.len() ==> #[trigger] is_ascii_alphanumeric(
                "stream"@[i],
            ));
            plain_method_name("stream"@);
        }
        match self.endpoint("stream", arguments.as_slice()) {
            Ok(u) => Ok(url_into_string(u)),
            Err(e) => Err(e),
        }
    }

    /// The URL of a cover image: `getCoverArt` with the image's id and, when
    /// given, the size in pixels.
    pub fn cover_art_url(&self, id: &str, size: Option<u32>) -> (url: Result<String, ProviderError>)
        ensures
            url matches Ok(text) ==> exists|salt: Seq<char>, u: Url|
                (self.credentials() is Password ==> is_salt(salt)) && #[trigger] is_endpoint(
                    *self,
                    "getCoverArt"@,
                    cover_pairs(id@, size),
                    salt,
                    u,
                ) && text@ == url_text_of(u),
            url matches Ok(text) ==> self.origin().len() <= text@.len() && text@.take(
                self.origin().len() as int,
            ) == self.origin(),
            !self.opaque() ==> url is Ok,
            url is Ok <==> self.joined("getCoverArt"@) is Ok,
            url matches Err(e) ==> (e matches ProviderError::InvalidResponse(text)
                && self.joined("getCoverArt"@) matches Err(t) && text@ == t),
    {
        let mut arguments = vec![("id", String::from_str(id))];
        if let Some(size) = size {
            arguments.push(("size", decimal_text(size as u64)));
        }
        proof {
            reveal_strlit("id");
            reveal_strlit("size");
            assert(argument_pairs(arguments@) =~= cover_pairs(id@, size));
            reveal_strlit("getCoverArt");
            assert(forall|i: int| 0 <= i < "getCoverArt"@.len() ==> #[trigger] is_ascii_alphanumeric(
                "getCoverArt"@[i],
            ));
            plain_method_name("getCoverArt"@);
        }
        match self.endpoint("getCoverArt", arguments.as_slice()) {
            Ok(u) => Ok(url_into_string(u)),
            Err(e) => Err(e),
        }
    }
}

/// A method name of ASCII letters and digits is a plain reference below
/// `rest/`, so that its endpoint resolves below the server address.
pub proof fn plain_method_name(method: Seq<char>)
    requires
        forall|i: int| 0 <= i < method.len() ==> #[trigger] is_ascii_alphanumeric(method[i]),
    ensures
        is_plain_reference("rest/"@ + method),
{
    reveal_strlit("rest/");
    let r = "rest/"@ + method;
    assert forall|i: int| 0 <= i < r.len() implies #[trigger] is_ascii_alphanumeric(r[i])
        || r[i] == '/' by {
        if i < 5 {
            assert(r[i] == "rest/"@[i]);
        } else {
            assert(r[i] == method[i - 5]);
        }
    }
    assert(r[0] == 'r');
}

/// The arguments that name one item: its `id`.
pub open spec fn id_pairs(id: Seq<char>) -> Seq<QueryPair> {
    seq![("id"@, id)]
}

/// The arguments of a cover request: the `id`, then the `size` when given.
pub open spec fn cover_pairs(id: Seq<char>, size: Option<u32>) -> Seq<QueryPair> {
    match size {
        Some(s) => id_pairs(id).push(("size"@, decimal(s as nat))),
        None => id_pairs(id),
    }
}

/// The most songs a search asks the server for.
pub const MAX_SEARCH_SONGS: u32 = 500;

/// The arguments of one page of the newest albums.
pub fn album_list_arguments(size: u32, offset: u32) -> (arguments: Vec<(&'static str, String)>)
    ensures
        argument_pairs(arguments@) == seq![
            ("type"@, "newest"@),
            ("size"@, decimal(size as nat)),
            ("offset"@, decimal(offset as nat)),
        ],
{
    let arguments = vec![
        ("type", String::from_str("newest")),
        ("size", decimal_text(size as u64)),
        ("offset", decimal_text(offset as u64)),
    ];
    proof {
        reveal_strlit("type");
        reveal_strlit("newest");
        reveal_strlit("size");
        reveal_strlit("offset");
        assert(argument_pairs(arguments@) =~= seq![
            ("type"@, "newest"@),
            ("size"@, decimal(size as nat)),
            ("offset"@, decimal(offset as nat)),
        ]);
    }
    arguments
}

/// The song count a search asks for: the limit, at most
/// [`MAX_SEARCH_SONGS`].
pub open spec fn search_song_count(limit: u32) -> nat {
    if limit < MAX_SEARCH_SONGS {
        limit as nat
    } else {
        MAX_SEARCH_SONGS as nat
    }
}

/// The arguments of a song search: the query, the song count, and no
/// albums or artists.
pub fn search_arguments(query: &str, limit: u32) -> (arguments: Vec<(&'static str, String)>)
    ensures
        argument_pairs(arguments@) == seq![
            ("query"@, query@),
            ("songCount"@, decimal(search_song_count(limit))),
            ("albumCount"@, "0"@),
            ("artistCount"@, "0"@),
        ],
{
    let count = if limit < MAX_SEARCH_SONGS {
        limit
    } else {
        MAX_SEARCH_SONGS
    };
    let arguments = vec![
        ("query", String::from_str(query)),
        ("songCount", decimal_text(count as u64)),
        ("albumCount", String::from_str("0")),
        ("artistCount", String::from_str("0")),
    ];
    proof {
        reveal_strlit("query");
        reveal_strlit("songCount");
        reveal_strlit("albumCount");
        reveal_strlit("artistCount");
        reveal_strlit("0");
        assert(argument_pairs(arguments@) =~= seq![
            ("query"@, query@),
            ("songCount"@, decimal(search_song_count(limit))),
            ("albumCount"@, "0"@),
            ("artistCount"@, "0"@),
        ]);
    }
    arguments
}

/// The arguments that name one album or directory: its `id`.
pub fn item_arguments(id: &str) -> (arguments: Vec<(&'static str, String)>)
    ensures
        argument_pairs(arguments@) == id_pairs(id@),
{
    let arguments = vec![("id", String::from_str(id))];
    proof {
        reveal_strlit("id");
        assert(argument_pairs(arguments@) =~= id_pairs(id@));
    }
    arguments
}

/// The names of some query pairs.
pub open spec fn pair_names(pairs: Seq<QueryPair>) -> Seq<Seq<char>> {
    pairs.map_values(|p: QueryPair| p.0)
}

/// API-key authentication sends the key alone, and no user name; password
/// authentication sends the user name, the salt and the salted token, and
/// the password itself never travels.
pub proof fn credentials_sent(credentials: Credentials, salt: Seq<char>)
    ensures
        credentials matches Credentials::ApiKey(key) ==> auth_pairs(credentials, salt) == seq![
            ("apiKey"@, key@),
        ],
        credentials is ApiKey ==> !pair_names(auth_pairs(credentials, salt)).contains("u"@),
        credentials matches Credentials::Password { username, password } ==> auth_pairs(
            credentials,
            salt,
        ) == seq![("u"@, username@), ("s"@, salt), ("t"@, token_for(password@, salt))],
        !pair_names(auth_pairs(credentials, salt)).contains("p"@),
{
    reveal_strlit("apiKey");
    reveal_strlit("u");
    reveal_strlit("s");
    reveal_strlit("t");
    reveal_strlit("p");
    let names = pair_names(auth_pairs(credentials, salt));
    assert forall|i: int| 0 <= i < names.len() implies names[i] != "p"@ by {
        assert(names[i].len() >= 1);
        assert(names[i][0] != 'p');
    }
    if credentials is ApiKey {
        assert forall|i: int| 0 <= i < names.len() implies names[i] != "u"@ by {
            assert(names[i][0] != 'u');
        }
    }
}

} // verus!
