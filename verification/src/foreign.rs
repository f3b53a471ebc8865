//! Calls into std and into the crates `globset`, `regex`, `serde_json` and `url`. The contracts in
//! this module are believed, not proved.

use crate::globs::shallow;
use crate::text::{all_ascii, ascii_folded};
use globset::Glob;
use regex::Regex;
use url::Url;
use vstd::prelude::*;
use vstd::utf8::{decode_utf8, valid_utf8};

verus! {

/// `String::push` appends the character at the end.
pub assume_specification[ String::push ](s: &mut String, ch: char)
    ensures
        final(s)@ == old(s)@.push(ch),
;

/// The lower case form that Unicode gives a text.
pub uninterp spec fn unicode_lowercase(s: Seq<char>) -> Seq<char>;

/// The lower case form of a text. Where it is all ASCII, only the ASCII letters change.
pub open spec fn lowercase(s: Seq<char>) -> Seq<char> {
    if all_ascii(s) {
        ascii_folded(s)
    } else {
        unicode_lowercase(s)
    }
}

/// Calls `str::to_lowercase`: the result is a function of the text, the case of ASCII letters makes
/// no difference to it, and of a text that is all ASCII it changes just these.
#[verifier::external_body]
pub(crate) fn to_lowercase(s: &str) -> (r: String)
    ensures
        r@ == unicode_lowercase(s@),
        r@ == unicode_lowercase(ascii_folded(s@)),
        all_ascii(s@) ==> r@ == ascii_folded(s@),
{
    s.to_lowercase()
}

/// What `std::str::from_utf8` says of bytes that are not UTF-8.
pub uninterp spec fn utf8_error(bytes: Seq<u8>) -> Seq<char>;

/// Calls `std::str::from_utf8`: it accepts exactly the valid UTF-8 sequences and gives the
/// characters that they encode. The text of its error is only named.
#[verifier::external_body]
pub(crate) fn utf8_text(bytes: &[u8]) -> (r: Result<String, String>)
    ensures
        match r {
            Ok(text) => valid_utf8(bytes@) && text@ == decode_utf8(bytes@),
            Err(detail) => !valid_utf8(bytes@) && detail@ == utf8_error(bytes@),
        },
{
    std::str::from_utf8(bytes).map(|text| text.to_string()).map_err(|error| error.to_string())
}

/// The text that `String::from_utf8_lossy` reads from bytes.
pub uninterp spec fn utf8_lossy(bytes: Seq<u8>) -> Seq<char>;

/// Calls `String::from_utf8_lossy`: valid UTF-8 is read as it stands. What takes the place of
/// invalid sequences is only named.
#[verifier::external_body]
pub(crate) fn lossy_text(bytes: &[u8]) -> (r: String)
    ensures
        r@ == utf8_lossy(bytes@),
        valid_utf8(bytes@) ==> r@ == decode_utf8(bytes@),
{
    String::from_utf8_lossy(bytes).into_owned()
}

/// Why `globset::Glob::new` refuses a pattern; `None` for a pattern that it accepts. `separates`
/// says whether a backslash is a path separator, as it is on some platforms, or an escape, as it is
/// on the others.
pub uninterp spec fn glob_error(pattern: Seq<char>, separates: bool) -> Option<Seq<char>>;

/// Whether the regular expression that an accepted glob stands for can be compiled.
pub uninterp spec fn glob_compiles(pattern: Seq<char>, separates: bool) -> bool;

/// Whether the glob `pattern` matches `value`.
pub uninterp spec fn glob_matches(pattern: Seq<char>, value: Seq<char>, separates: bool) -> bool;

/// A text that `globset` reads alike on every platform.
pub open spec fn glob_portable(s: Seq<char>) -> bool {
    !s.contains('\\')
}

/// Calls `globset::Glob::new`, `Glob::compile_matcher` and `GlobMatcher::is_match`. An `Err` holds
/// the text of the error of `Glob::new`. `compile_matcher` panics on a glob whose expression
/// exceeds the limits of the regex engine (`{` nested too deeply, a pattern of megabytes), so the
/// expression is first built by `regex::bytes::RegexBuilder`, which has the same engine and limits
/// and reports failure: `Ok(None)` is such a glob. `Glob::new` itself recurses once for each level
/// of `{` and overflows the stack on a pattern with very many, so the levels are bounded. What comes
/// of the pattern is a function of it and of how the platform reads a backslash, and what comes of
/// the match is one of the two texts and that reading; texts without a backslash are read alike on
/// every platform. Which reading it is, the platform decides, and nothing is claimed of that.
#[verifier::external_body]
pub(crate) fn glob_match(pattern: &str, value: &str) -> (r: Result<Option<bool>, String>)
    requires
        shallow(pattern@),
    ensures
        exists|separates: bool|
            #![trigger glob_error(pattern@, separates)]
            match r {
                Ok(Some(matched)) => glob_error(pattern@, separates) is None && glob_compiles(
                    pattern@,
                    separates,
                ) && matched == glob_matches(pattern@, value@, separates),
                Ok(None) => glob_error(pattern@, separates) is None && !glob_compiles(
                    pattern@,
                    separates,
                ),
                Err(detail) => glob_error(pattern@, separates) == Some(detail@),
            },
        glob_portable(pattern@) ==> forall|separates: bool|
            #![trigger glob_error(pattern@, separates)]
            match r {
                Ok(Some(_)) => glob_error(pattern@, separates) is None && glob_compiles(
                    pattern@,
                    separates,
                ),
                Ok(None) => glob_error(pattern@, separates) is None && !glob_compiles(
                    pattern@,
                    separates,
                ),
                Err(detail) => glob_error(pattern@, separates) == Some(detail@),
            },
        glob_portable(pattern@) && glob_portable(value@) ==> (r matches Ok(Some(matched)) ==> forall|
            separates: bool,
        | matched == #[trigger] glob_matches(pattern@, value@, separates)),
{
    let glob = Glob::new(pattern).map_err(|error| error.to_string())?;
    let built = regex::bytes::RegexBuilder::new(glob.regex()).dot_matches_new_line(true).build();
    Ok(built.ok().map(|_| glob.compile_matcher().is_match(value)))
}

/// Why `regex::Regex::new` refuses a pattern; `None` for a pattern that it accepts.
pub uninterp spec fn regex_error(pattern: Seq<char>) -> Option<Seq<char>>;

/// Whether the regular expression `pattern` matches somewhere in `value`.
pub uninterp spec fn regex_matches(pattern: Seq<char>, value: Seq<char>) -> bool;

/// Calls `regex::Regex::new` and `Regex::is_match`. An `Err` holds the text of the error. Both are
/// functions of the texts.
#[verifier::external_body]
pub(crate) fn regex_match(pattern: &str, value: &str) -> (r: Result<bool, String>)
    ensures
        match r {
            Ok(matched) => regex_error(pattern@) is None && matched == regex_matches(
                pattern@,
                value@,
            ),
            Err(detail) => regex_error(pattern@) == Some(detail@),
        },
{
    let regex = Regex::new(pattern).map_err(|error| error.to_string())?;
    Ok(regex.is_match(value))
}

/// Why `url::Url::parse` refuses a text; `None` for a text that it accepts.
pub uninterp spec fn url_error(text: Seq<char>) -> Option<Seq<char>>;

/// `Url::host_str` of a parsed text.
pub uninterp spec fn url_host(text: Seq<char>) -> Option<Seq<char>>;

/// `Url::port` of a parsed text.
pub uninterp spec fn url_port(text: Seq<char>) -> Option<u16>;

/// `Url::path` of a parsed text.
pub uninterp spec fn url_path(text: Seq<char>) -> Seq<char>;

/// `Url::query` of a parsed text.
pub uninterp spec fn url_query(text: Seq<char>) -> Option<Seq<char>>;

/// The serialisation of a parsed text.
pub uninterp spec fn url_text(text: Seq<char>) -> Seq<char>;

/// The parts of a URL that the library reads.
pub struct UrlParts {
    /// The host, where the URL has one.
    pub host: Option<String>,
    /// The port, where the URL names one that is not the default of its scheme.
    pub port: Option<u16>,
    /// The path.
    pub path: String,
    /// The query without its question mark.
    pub query: Option<String>,
    /// The whole URL in its normal form.
    pub text: String,
}

/// The text that an optional string holds.
pub open spec fn opt_view(s: Option<String>) -> Option<Seq<char>> {
    match s {
        Some(t) => Some(t@),
        None => None,
    }
}

/// Calls `url::Url::parse` and reads `host_str`, `port`, `path`, `query` and the serialisation of
/// the URL. An `Err` holds the text of the error. Each is a function of the text. A path holds no
/// question mark: the first one ends the path, and none comes out of its percent-encoding.
#[verifier::external_body]
pub(crate) fn parse_url(text: &str) -> (r: Result<UrlParts, String>)
    ensures
        match r {
            Ok(parts) => url_error(text@) is None && opt_view(parts.host) == url_host(text@)
                && parts.port == url_port(text@) && parts.path@ == url_path(text@) && opt_view(
                parts.query,
            ) == url_query(text@) && parts.text@ == url_text(text@) && !parts.path@.contains('?'),
            Err(detail) => url_error(text@) == Some(detail@),
        },
{
    let url = Url::parse(text).map_err(|error| error.to_string())?;
    Ok(
        UrlParts {
            host: url.host_str().map(|host| host.to_string()),
            port: url.port(),
            path: url.path().to_string(),
            query: url.query().map(|query| query.to_string()),
            text: url.to_string(),
        },
    )
}

/// The hexadecimal digit for a number.
pub open spec fn hex_digit(n: int) -> char {
    if n < 10 {
        ('0' as int + n) as char
    } else {
        ('a' as int + n - 10) as char
    }
}

/// How JSON writes a character of a text.
pub open spec fn json_char(c: char) -> Seq<char> {
    if c == '"' || c == '\\' {
        seq!['\\', c]
    } else if c == '\u{8}' {
        seq!['\\', 'b']
    } else if c == '\t' {
        seq!['\\', 't']
    } else if c == '\n' {
        seq!['\\', 'n']
    } else if c == '\u{c}' {
        seq!['\\', 'f']
    } else if c == '\r' {
        seq!['\\', 'r']
    } else if (c as int) < 32 {
        seq!['\\', 'u', '0', '0', hex_digit((c as int) / 16), hex_digit((c as int) % 16)]
    } else {
        seq![c]
    }
}

/// How JSON writes the characters of a text.
pub open spec fn json_chars(text: Seq<char>) -> Seq<char>
    decreases text.len(),
{
    if text.len() == 0 {
        Seq::empty()
    } else {
        json_chars(text.drop_last()) + json_char(text.last())
    }
}

/// How JSON writes a text.
pub open spec fn json_string(text: Seq<char>) -> Seq<char> {
    seq!['"'] + json_chars(text) + seq!['"']
}

/// Calls `serde_json::Value::to_string` on a string value: the text between quotation marks, with
/// quotation marks, backslashes and control characters escaped.
#[verifier::external_body]
pub(crate) fn json_text(text: &str) -> (r: String)
    ensures
        r@ == json_string(text@),
{
    serde_json::Value::String(text.to_string()).to_string()
}

} // verus!
