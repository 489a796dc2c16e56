//! The requests, URIs and header fields of the `http` crate, by what they hold.
use http::uri::PathAndQuery;
use http::{HeaderMap, HeaderValue, Method, Request, Uri, Version};
use vstd::prelude::*;
use vstd::utf8::encode_utf8;

verus! {

/// Stands for `http::Error`.
#[verifier::external_type_specification]
#[verifier::external_body]
pub struct ExHttpError(http::Error);

/// Stands for `http::Uri`.
#[verifier::external_type_specification]
#[verifier::external_body]
pub struct ExUri(Uri);

/// The scheme of a URI, where it has one.
pub uninterp spec fn uri_scheme(uri: Uri) -> Option<Seq<char>>;

/// The authority of a URI, where it has one: host, port and all.
pub uninterp spec fn uri_authority(uri: Uri) -> Option<Seq<char>>;

/// The path of a URI, together with its query.
pub uninterp spec fn uri_path(uri: Uri) -> Seq<char>;

/// Whether a URI can be made of these three parts.
pub uninterp spec fn uri_accepted(
    scheme: Seq<char>,
    authority: Seq<char>,
    path: Seq<char>,
) -> bool;

/// Stands for `http::uri::PathAndQuery`.
#[verifier::external_type_specification]
#[verifier::external_body]
pub struct ExPathAndQuery(PathAndQuery);

/// The text of a path with its query.
pub uninterp spec fn path_text(path: PathAndQuery) -> Seq<char>;

/// Stands for `http::Method`.
#[verifier::external_type_specification]
#[verifier::external_body]
pub struct ExMethod(Method);

/// The name of a method, such as `GET`.
pub uninterp spec fn method_text(method: Method) -> Seq<char>;

/// Stands for `http::Version`.
#[verifier::external_type_specification]
#[verifier::external_body]
pub struct ExVersion(Version);

/// The name of a protocol version, such as `HTTP/1.1`.
pub uninterp spec fn version_text(version: Version) -> Seq<char>;

/// Stands for `http::HeaderValue`.
#[verifier::external_type_specification]
#[verifier::external_body]
pub struct ExHeaderValue(HeaderValue);

/// Stands for `http::HeaderMap`.
#[verifier::external_type_specification]
#[verifier::external_body]
#[verifier::reject_recursive_types(T)]
pub struct ExHeaderMap<T>(HeaderMap<T>);

/// The fields of a header: the values of each name, in their order. Names are in lower case.
pub uninterp spec fn header_fields(headers: HeaderMap<HeaderValue>) -> Map<
    Seq<char>,
    Seq<Seq<u8>>,
>;

/// Stands for `http::Request`.
#[verifier::external_type_specification]
#[verifier::external_body]
#[verifier::reject_recursive_types(T)]
pub struct ExRequest<T>(Request<T>);

/// The method of a request.
pub uninterp spec fn request_method(request: Request<()>) -> Method;

/// The URI of a request.
pub uninterp spec fn request_uri(request: Request<()>) -> Uri;

/// The protocol version of a request.
pub uninterp spec fn request_version(request: Request<()>) -> Version;

/// The header of a request.
pub uninterp spec fn request_headers(request: Request<()>) -> HeaderMap<HeaderValue>;

/// `fields` with one more value of `name` behind those it has.
pub open spec fn with_field(
    fields: Map<Seq<char>, Seq<Seq<u8>>>,
    name: Seq<char>,
    value: Seq<char>,
) -> Map<Seq<char>, Seq<Seq<u8>>> {
    let values = if fields.contains_key(name) {
        fields[name]
    } else {
        Seq::empty()
    };
    fields.insert(name, values.push(encode_utf8(value)))
}

/// A method name of upper-case letters.
pub open spec fn is_method_name(s: Seq<char>) -> bool {
    &&& s.len() > 0
    &&& forall|i: int| 0 <= i < s.len() ==> 'A' <= #[trigger] s[i] <= 'Z'
}

/// A field name of lower-case letters and hyphens.
pub open spec fn is_field_name(s: Seq<char>) -> bool {
    &&& 0 < s.len() <= 64
    &&& forall|i: int| 0 <= i < s.len() ==> 'a' <= #[trigger] s[i] <= 'z' || s[i] == '-'
}

/// A field value of printable characters.
pub open spec fn is_field_value(s: Seq<char>) -> bool {
    forall|i: int| 0 <= i < s.len() ==> ' ' <= #[trigger] s[i] <= '~'
}

/// `PathAndQuery::as_str` is the text. It is never empty, and holds no fragment.
pub assume_specification[ PathAndQuery::as_str ](path: &PathAndQuery) -> (r: &str)
    ensures
        r@ == path_text(*path),
        r@.len() > 0,
        !r@.contains('#'),
;

/// A clone of a `PathAndQuery` is the same path.
pub assume_specification[ <PathAndQuery as Clone>::clone ](path: &PathAndQuery) -> (r: PathAndQuery)
    ensures
        r == *path,
;

/// `Method::as_str` is the name.
pub assume_specification[ Method::as_str ](method: &Method) -> (r: &str)
    ensures
        r@ == method_text(*method),
;

/// `Version::HTTP_2` is HTTP/2.0.
#[verifier::external_body]
pub(crate) fn http_2() -> (r: Version)
    ensures
        version_text(r) == "HTTP/2.0"@,
{
    Version::HTTP_2
}

/// `Uri::authority` and `Authority::as_str` give the authority, where the URI has one.
#[verifier::external_body]
pub(crate) fn authority_text(uri: &Uri) -> (r: Option<&str>)
    ensures
        match r {
            Some(text) => uri_authority(*uri) == Some(text@),
            None => uri_authority(*uri) is None,
        },
{
    uri.authority().map(|authority| authority.as_str())
}

/// `Uri::builder` makes a URI of the three parts, each as it is given, or refuses them; which
/// ones, its parsers of each part decide, and an empty authority is refused. What an empty path
/// or one with a fragment becomes is not said.
#[verifier::external_body]
pub(crate) fn build_uri(scheme: &str, authority: &str, path: &str) -> (r: Result<Uri, http::Error>)
    ensures
        r is Ok <==> uri_accepted(scheme@, authority@, path@),
        authority@.len() == 0 ==> r is Err,
        r matches Ok(uri) ==> {
            &&& uri_scheme(uri) == Some(scheme@)
            &&& uri_authority(uri) == Some(authority@)
            &&& path@.len() > 0 && !path@.contains('#') ==> uri_path(uri) == path@
        },
{
    Uri::builder().scheme(scheme).authority(authority).path_and_query(path).build()
}

/// `Request::builder` makes a request without a body, with this method, URI and version, and
/// with these two header fields and no other. It fails where a name or a value holds a
/// character that HTTP does not allow there; those that are asked for here hold none.
#[verifier::external_body]
pub(crate) fn build_request(
    method: &str,
    uri: Uri,
    version: Version,
    field: (&str, &str),
    other: (&str, &str),
) -> (r: Request<()>)
    requires
        is_method_name(method@),
        is_field_name(field.0@),
        is_field_value(field.1@),
        is_field_name(other.0@),
        is_field_value(other.1@),
    ensures
        method_text(request_method(r)) == method@,
        request_uri(r) == uri,
        request_version(r) == version,
        header_fields(request_headers(r)) == with_field(
            with_field(Map::empty(), field.0@, field.1@),
            other.0@,
            other.1@,
        ),
{
    let builder = Request::builder().method(method).uri(uri).version(version);
    builder.header(field.0, field.1).header(other.0, other.1).body(()).unwrap()
}

/// `HeaderMap::remove` takes all values of a name out, and leaves the other names as they are.
#[verifier::external_body]
pub(crate) fn remove_field(headers: &mut HeaderMap<HeaderValue>, name: &str)
    requires
        is_field_name(name@),
    ensures
        header_fields(*final(headers)) == header_fields(*old(headers)).remove(name@),
{
    headers.remove(name);
}

} // verus!
