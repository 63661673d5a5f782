//! URL normalization and hashing for duplicate detection.
//!
//! Canonicalization drops the fragment, drops the default port of `http` and
//! `https`, and sorts the query pairs by key then value; scheme, host and path
//! stay as parsed. Two requests name the same logical URL exactly when their
//! canonical forms are byte-equal. The fingerprint is the lowercase hex of a
//! 256-bit hash of the canonical form.

use vstd::prelude::*;
use vstd::string::StrSliceExecFns;
use crate::error::DownloadError;
use crate::text::{join_query, sort_pairs, str_eq};

verus! {

/// A parsed URL of the `url` crate, opaque to verification.
#[verifier::external_type_specification]
#[verifier::external_body]
pub struct ExUrl(url::Url);

/// Whether the `url` crate parses this text as an absolute URL: a function of
/// the text alone.
pub uninterp spec fn url_parseable(s: Seq<char>) -> bool;

/// The URL value this text parses as: a function of the text alone.
pub uninterp spec fn parsed_url_of(s: Seq<char>) -> url::Url;

/// Relies on url::Url::parse: a pure function of the text that returns a
/// parsed URL exactly when the text is an absolute URL.
#[verifier::external_body]
fn url_parse(input: &str) -> (r: Option<url::Url>)
    ensures
        r is Some <==> url_parseable(input@),
        r matches Some(u) ==> u == parsed_url_of(input@),
{
    url::Url::parse(input).ok()
}

/// A URL's scheme text: a function of the URL value alone.
pub uninterp spec fn url_scheme_of(u: url::Url) -> Seq<char>;

/// Relies on url::Url::scheme: the URL's scheme text, a pure read.
#[verifier::external_body]
fn url_scheme(u: &url::Url) -> (r: String)
    ensures
        r@ == url_scheme_of(*u),
{
    u.scheme().to_owned()
}

/// A URL's explicit port, if its serialization carries one: a function of the
/// URL value alone.
pub uninterp spec fn url_port_of(u: url::Url) -> Option<u16>;

/// Relies on url::Url::port: the explicit port, a pure read.
#[verifier::external_body]
fn url_port(u: &url::Url) -> (r: Option<u16>)
    ensures
        r == url_port_of(*u),
{
    u.port()
}

/// A URL's userinfo text: a function of the URL value alone.
pub uninterp spec fn url_userinfo_of(u: url::Url) -> Seq<char>;

/// A URL's host text: a function of the URL value alone.
pub uninterp spec fn url_host_of(u: url::Url) -> Seq<char>;

/// A URL's path text: a function of the URL value alone.
pub uninterp spec fn url_path_of(u: url::Url) -> Seq<char>;

/// The URL with its fragment removed: a function of the URL value alone.
pub uninterp spec fn url_without_fragment(u: url::Url) -> url::Url;

/// Relies on url::Url::set_fragment: removes the fragment from the URL, a
/// deterministic rewrite that leaves scheme, userinfo, host and path as they
/// were.
#[verifier::external_body]
fn url_clear_fragment(u: &mut url::Url)
    ensures
        *final(u) == url_without_fragment(*old(u)),
        url_scheme_of(*final(u)) == url_scheme_of(*old(u)),
        url_userinfo_of(*final(u)) == url_userinfo_of(*old(u)),
        url_host_of(*final(u)) == url_host_of(*old(u)),
        url_path_of(*final(u)) == url_path_of(*old(u)),
{
    u.set_fragment(None);
}

/// The URL with its explicit port removed: a function of the URL value alone.
pub uninterp spec fn url_without_port(u: url::Url) -> url::Url;

/// Relies on url::Url::set_port: removes the explicit port from the URL, a
/// deterministic rewrite that leaves scheme, userinfo, host and path as they
/// were.
#[verifier::external_body]
fn url_clear_port(u: &mut url::Url)
    ensures
        *final(u) == url_without_port(*old(u)),
        url_scheme_of(*final(u)) == url_scheme_of(*old(u)),
        url_userinfo_of(*final(u)) == url_userinfo_of(*old(u)),
        url_host_of(*final(u)) == url_host_of(*old(u)),
        url_path_of(*final(u)) == url_path_of(*old(u)),
{
    let _ = u.set_port(None);
}

/// Whether a URL carries a query string: a function of the URL value alone.
pub uninterp spec fn url_has_query_of(u: url::Url) -> bool;

/// Relies on url::Url::query: whether the URL carries a query string, a pure
/// read.
#[verifier::external_body]
fn url_has_query(u: &url::Url) -> (r: bool)
    ensures
        r == url_has_query_of(*u),
{
    u.query().is_some()
}

/// The decoded key/value texts of a URL's query: a function of the URL value
/// alone.
pub uninterp spec fn url_query_pairs_of(u: url::Url) -> Seq<(Seq<char>, Seq<char>)>;

/// Relies on url::Url::query_pairs: the query decoded as key/value pairs, in
/// order, a pure read.
#[verifier::external_body]
fn url_query_pairs(u: &url::Url) -> (r: Vec<(String, String)>)
    ensures
        crate::text::views_of(r@) == url_query_pairs_of(*u),
{
    u.query_pairs().map(|(k, v)| (k.into_owned(), v.into_owned())).collect()
}

/// The URL with its query replaced by the given text (encoded as needed), or
/// removed: a function of the URL value and the text alone.
pub uninterp spec fn url_with_query(u: url::Url, q: Option<Seq<char>>) -> url::Url;

/// Relies on url::Url::set_query: replaces or removes the query, a
/// deterministic rewrite that leaves scheme, userinfo, host and path as they
/// were.
#[verifier::external_body]
fn url_set_query(u: &mut url::Url, query: Option<&str>)
    ensures
        *final(u) == url_with_query(
            *old(u),
            match query {
                Some(q) => Some(q@),
                None => None,
            },
        ),
        url_scheme_of(*final(u)) == url_scheme_of(*old(u)),
        url_userinfo_of(*final(u)) == url_userinfo_of(*old(u)),
        url_host_of(*final(u)) == url_host_of(*old(u)),
        url_path_of(*final(u)) == url_path_of(*old(u)),
{
    u.set_query(query);
}

/// A URL's serialization: a function of the URL value alone.
pub uninterp spec fn url_text_of(u: url::Url) -> Seq<char>;

/// Relies on url::Url::as_str: the URL's serialization, a pure read.
#[verifier::external_body]
fn url_to_text(u: &url::Url) -> (r: String)
    ensures
        r@ == url_text_of(*u),
{
    u.as_str().to_owned()
}

/// Whether the port is the scheme's default: 80 for `http`, 443 for `https`.
pub open spec fn spec_is_default_port(scheme: Seq<char>, port: Option<u16>) -> bool {
    (scheme == "http"@ && port == Some(80u16)) || (scheme == "https"@ && port == Some(443u16))
}

/// The canonical URL value of a text: parse it, drop the fragment, drop a
/// default port, and re-encode the query with its pairs sorted (or drop an
/// emptied query).
pub open spec fn canonical_url_of(s: Seq<char>) -> url::Url {
    let no_fragment = url_without_fragment(parsed_url_of(s));
    let trimmed = if spec_is_default_port(url_scheme_of(no_fragment), url_port_of(no_fragment)) {
        url_without_port(no_fragment)
    } else {
        no_fragment
    };
    if url_has_query_of(trimmed) {
        let sorted = crate::text::sorted_pairs_of(url_query_pairs_of(trimmed));
        if sorted.len() > 0 {
            url_with_query(trimmed, Some(crate::text::joined_query(sorted)))
        } else {
            url_with_query(trimmed, None)
        }
    } else {
        trimmed
    }
}

/// The canonical text of a URL: the serialization of its canonical value.
pub open spec fn canonical_text_of(s: Seq<char>) -> Seq<char> {
    url_text_of(canonical_url_of(s))
}

/// Canonicalize a URL: drop the fragment, drop the default port of `http`
/// (80) and `https` (443), and re-encode the query with its pairs sorted by
/// key then value. Succeeds exactly on parseable absolute URLs; everything
/// else is an `InvalidUrl` error.
pub fn normalize_url(input_url: &str) -> (r: Result<String, DownloadError>)
    ensures
        r is Ok <==> url_parseable(input_url@),
        r matches Ok(n) ==> n@ == canonical_text_of(input_url@),
        r is Ok ==> ({
            let parsed = parsed_url_of(input_url@);
            let canon = canonical_url_of(input_url@);
            &&& url_scheme_of(canon) == url_scheme_of(parsed)
            &&& url_userinfo_of(canon) == url_userinfo_of(parsed)
            &&& url_host_of(canon) == url_host_of(parsed)
            &&& url_path_of(canon) == url_path_of(parsed)
        }),
        r matches Err(e) ==> e is InvalidUrl,
{
    let mut parsed = match url_parse(input_url) {
        Some(u) => u,
        None => {
            return Err(DownloadError::InvalidUrl(input_url.to_owned()));
        },
    };

    url_clear_fragment(&mut parsed);
    let ghost no_fragment = parsed;
    proof {
        assert(no_fragment == url_without_fragment(parsed_url_of(input_url@)));
    }

    let scheme = url_scheme(&parsed);
    let port = url_port(&parsed);
    let default_port = match port {
        Some(80u16) => str_eq(scheme.as_str(), "http"),
        Some(443u16) => str_eq(scheme.as_str(), "https"),
        _ => false,
    };
    proof {
        assert(default_port == spec_is_default_port(
            url_scheme_of(no_fragment),
            url_port_of(no_fragment),
        ));
    }
    if default_port {
        url_clear_port(&mut parsed);
    }
    let ghost trimmed = parsed;

    if url_has_query(&parsed) {
        let pairs = url_query_pairs(&parsed);
        let sorted = sort_pairs(pairs);
        proof {
            assert(crate::text::views_of(sorted@) == crate::text::sorted_pairs_of(
                url_query_pairs_of(trimmed),
            ));
            assert(crate::text::views_of(sorted@).len() == sorted@.len());
        }
        if sorted.len() > 0 {
            let joined = join_query(&sorted);
            url_set_query(&mut parsed, Some(joined.as_str()));
        } else {
            url_set_query(&mut parsed, None);
        }
    }
    proof {
        assert(parsed == canonical_url_of(input_url@));
    }

    Ok(url_to_text(&parsed))
}

/// A lowercase hexadecimal digit.
pub open spec fn is_lower_hex_digit(c: char) -> bool {
    (48 <= c as u32 && c as u32 <= 57) || (97 <= c as u32 && c as u32 <= 102)
}

/// A well-formed URL fingerprint: 64 lowercase hexadecimal characters.
pub open spec fn is_valid_hash_text(s: Seq<char>) -> bool {
    s.len() == 64 && forall|i: int| 0 <= i < s.len() ==> is_lower_hex_digit(#[trigger] s[i])
}

/// The hex digest that the hash of the given text renders as: a function of
/// the text alone.
pub uninterp spec fn url_hash_of(s: Seq<char>) -> Seq<char>;

/// Relies on blake3::hash and blake3::Hash::to_hex: the 256-bit digest of the
/// text's UTF-8 bytes, rendered as 64 lowercase hexadecimal characters, a
/// function of the text alone.
#[verifier::external_body]
pub fn hash_normalized_url(normalized_url: &str) -> (r: String)
    ensures
        r@ == url_hash_of(normalized_url@),
        is_valid_hash_text(r@),
{
    blake3::hash(normalized_url.as_bytes()).to_hex().to_string()
}

/// Normalize a URL and fingerprint the canonical form in one step. Succeeds
/// exactly on parseable absolute URLs, and then returns the canonical URL
/// together with the hex digest of exactly that canonical text.
pub fn process_url_for_storage(input_url: &str) -> (r: Result<(String, String), DownloadError>)
    ensures
        r is Ok <==> url_parseable(input_url@),
        r matches Ok((normalized, hash)) ==> normalized@ == canonical_text_of(input_url@)
            && hash@ == url_hash_of(normalized@) && is_valid_hash_text(hash@),
        r matches Err(e) ==> e is InvalidUrl,
{
    let normalized = match normalize_url(input_url) {
        Ok(n) => n,
        Err(e) => {
            return Err(e);
        },
    };
    let hash = hash_normalized_url(normalized.as_str());
    Ok((normalized, hash))
}

/// The text after the last `/`, the whole text when it has no `/`.
pub open spec fn after_last_slash(s: Seq<char>) -> Seq<char>
    decreases s.len(),
{
    if s.len() == 0 {
        s
    } else if s.last() == '/' {
        Seq::empty()
    } else {
        after_last_slash(s.drop_last()).push(s.last())
    }
}

/// The filename a download defaults to: the text after the URL's last `/`,
/// or `download` when that is empty.
pub open spec fn spec_default_filename(s: Seq<char>) -> Seq<char> {
    if after_last_slash(s).len() == 0 {
        "download"@
    } else {
        after_last_slash(s)
    }
}

/// When nothing from a cut onwards is a `/`, and the cut sits at the start or
/// right after a `/`, the text after the last `/` is the suffix from the cut.
proof fn lemma_after_last_slash(s: Seq<char>, cut: int)
    requires
        0 <= cut <= s.len(),
        cut == 0 || s[cut - 1] == '/',
        forall|m: int| cut <= m < s.len() ==> s[m] != '/',
    ensures
        after_last_slash(s) == s.subrange(cut, s.len() as int),
    decreases s.len(),
{
    if s.len() == 0 {
        assert(after_last_slash(s) =~= s.subrange(0, 0));
    } else if s.last() == '/' {
        assert(cut == s.len());
        assert(after_last_slash(s) =~= s.subrange(cut, s.len() as int));
    } else {
        assert(cut < s.len() || cut == 0) by {
            if cut == s.len() && cut > 0 {
                assert(s[cut - 1] == '/');
            }
        }
        let t = s.drop_last();
        assert(forall|m: int| cut <= m < t.len() ==> t[m] == s[m]);
        if cut <= t.len() {
            lemma_after_last_slash(t, cut);
            assert(after_last_slash(s) == t.subrange(cut, t.len() as int).push(s.last()));
            assert(t.subrange(cut, t.len() as int).push(s.last()) =~= s.subrange(
                cut,
                s.len() as int,
            ));
        }
    }
}

/// The position right after the last `/` of the text, 0 when it has none.
fn position_after_last_slash(url: &str, len: usize) -> (cut: usize)
    requires
        len == url@.len(),
    ensures
        cut <= len,
        cut == 0 || url@[cut - 1] == '/',
        forall|m: int| cut <= m < len ==> url@[m] != '/',
{
    let mut cut: usize = len;
    loop
        invariant
            cut <= len,
            len == url@.len(),
            forall|m: int| cut <= m < len ==> url@[m] != '/',
        decreases cut,
    {
        if cut == 0 {
            return 0;
        }
        if url.get_char(cut - 1) == '/' {
            return cut;
        }
        cut -= 1;
    }
}

/// The default filename of a download request: the text after the URL's last
/// `/`, or `download` when that is empty.
pub fn default_filename(url: &str) -> (r: String)
    ensures
        r@ == spec_default_filename(url@),
{
    let len = url.unicode_len();
    let cut = position_after_last_slash(url, len);
    proof {
        lemma_after_last_slash(url@, cut as int);
    }
    let tail = url.substring_char(cut, len);
    if tail.is_empty() {
        proof {
            assert(after_last_slash(url@).len() == 0);
        }
        "download".to_owned()
    } else {
        tail.to_owned()
    }
}

/// Whether the text is a well-formed URL fingerprint: exactly 64 characters,
/// all lowercase hexadecimal digits.
pub fn is_valid_url_hash(hash: &str) -> (r: bool)
    ensures
        r == is_valid_hash_text(hash@),
{
    let len = hash.unicode_len();
    if len != 64 {
        return false;
    }
    let mut i: usize = 0;
    while i < 64
        invariant
            i <= 64,
            hash@.len() == 64,
            forall|k: int| 0 <= k < i ==> is_lower_hex_digit(#[trigger] hash@[k]),
        decreases 64 - i,
    {
        let c = hash.get_char(i);
        let v = c as u32;
        if !((48 <= v && v <= 57) || (97 <= v && v <= 102)) {
            return false;
        }
        i += 1;
    }
    true
}

} // verus!

