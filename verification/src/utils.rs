//! Coordinate conversions between the zero-based LSP space and tsserver's
//! one-based line/offset space, plus small string helpers shared by the
//! protocol modules.

use vstd::prelude::*;
use vstd::string::StrSliceExecFns;

use crate::types::{Position, Range};

verus! {

/// One-based line/offset coordinate as tsserver understands it.
#[derive(Debug, Clone, Copy, PartialEq, Eq, Structural)]
pub struct TsserverPosition {
    pub line: u32,
    pub offset: u32,
}

#[derive(Debug, Clone, Copy, PartialEq, Eq, Structural)]
pub struct TsserverRange {
    pub start: TsserverPosition,
    pub end: TsserverPosition,
}

/// What converting an LSP position to tsserver coordinates yields: both
/// components move up by one.
pub open spec fn spec_lsp_position_to_tsserver(p: Position) -> TsserverPosition {
    TsserverPosition { line: (p.line + 1) as u32, offset: (p.character + 1) as u32 }
}

/// What converting a tsserver position back to LSP coordinates yields: both
/// components move down by one, saturating at zero.
pub open spec fn spec_tsserver_position_to_lsp(p: TsserverPosition) -> Position {
    Position {
        line: if p.line > 0 { (p.line - 1) as u32 } else { 0u32 },
        character: if p.offset > 0 { (p.offset - 1) as u32 } else { 0u32 },
    }
}

/// Converts a zero-based LSP position into tsserver's one-based space.
pub fn lsp_position_to_tsserver(position: &Position) -> (r: TsserverPosition)
    requires
        position.line < u32::MAX,
        position.character < u32::MAX,
    ensures
        r == spec_lsp_position_to_tsserver(*position),
{
    TsserverPosition { line: position.line + 1, offset: position.character + 1 }
}

/// Converts an LSP range into the tsserver one-based coordinate space.
pub fn lsp_range_to_tsserver(range: &Range) -> (r: TsserverRange)
    requires
        range.start.line < u32::MAX,
        range.start.character < u32::MAX,
        range.end.line < u32::MAX,
        range.end.character < u32::MAX,
    ensures
        r.start == spec_lsp_position_to_tsserver(range.start),
        r.end == spec_lsp_position_to_tsserver(range.end),
{
    TsserverRange {
        start: lsp_position_to_tsserver(&range.start),
        end: lsp_position_to_tsserver(&range.end),
    }
}

/// Converts a tsserver one-based position back into the zero-based LSP space,
/// saturating at zero.
pub fn tsserver_position_to_lsp(position: &TsserverPosition) -> (r: Position)
    ensures
        r == spec_tsserver_position_to_lsp(*position),
{
    Position {
        line: if position.line > 0 { position.line - 1 } else { 0 },
        character: if position.offset > 0 { position.offset - 1 } else { 0 },
    }
}

/// Converting an LSP position to tsserver coordinates and back yields the
/// original position.
pub proof fn lemma_position_round_trip(p: Position)
    requires
        p.line < u32::MAX,
        p.character < u32::MAX,
    ensures
        spec_tsserver_position_to_lsp(spec_lsp_position_to_tsserver(p)) == p,
{
}

/// Converting an LSP range to tsserver coordinates and back yields the
/// original range, position by position.
pub proof fn lemma_range_round_trip(r: Range)
    requires
        r.start.line < u32::MAX,
        r.start.character < u32::MAX,
        r.end.line < u32::MAX,
        r.end.character < u32::MAX,
    ensures
        spec_tsserver_position_to_lsp(spec_lsp_position_to_tsserver(r.start)) == r.start,
        spec_tsserver_position_to_lsp(spec_lsp_position_to_tsserver(r.end)) == r.end,
{
}

/// Collects the characters of a string slice into a vector with the same view.
pub fn str_to_chars(s: &str) -> (v: Vec<char>)
    ensures
        v@ == s@,
{
    let n = s.unicode_len();
    let mut v: Vec<char> = Vec::new();
    let mut i: usize = 0;
    while i < n
        invariant
            i <= n,
            n == s@.len(),
            v@ == s@.take(i as int),
        decreases n - i,
    {
        v.push(s.get_char(i));
        proof {
            assert(s@.take(i as int + 1) =~= s@.take(i as int).push(s@[i as int]));
        }
        i += 1;
    }
    proof {
        assert(s@.take(n as int) =~= s@);
    }
    v
}

/// Copies a string slice into an owned string with the same view.
pub fn str_to_string(s: &str) -> (r: String)
    ensures
        r@ == s@,
{
    s.to_owned()
}

/// Copies a character vector.
pub fn copy_chars(v: &Vec<char>) -> (r: Vec<char>)
    ensures
        r@ == v@,
{
    let mut out: Vec<char> = Vec::new();
    let mut i: usize = 0;
    while i < v.len()
        invariant
            i <= v@.len(),
            out@ == v@.take(i as int),
        decreases v@.len() - i,
    {
        out.push(v[i]);
        proof {
            assert(v@.take(i as int + 1) =~= v@.take(i as int).push(v@[i as int]));
        }
        i += 1;
    }
    proof {
        assert(v@.take(v@.len() as int) =~= v@);
    }
    out
}

/// Copies an optional string.
pub fn clone_opt_string(o: &Option<String>) -> (r: Option<String>)
    ensures
        r == *o,
{
    match o {
        Some(s) => Some(s.clone()),
        None => None,
    }
}

/// Character-for-character string equality, proved against the string views.
pub fn str_eq(a: &str, b: &str) -> (r: bool)
    ensures
        r == (a@ == b@),
{
    let a_len = a.unicode_len();
    let b_len = b.unicode_len();
    if a_len != b_len {
        assert(a@ != b@) by {
            assert(a@.len() != b@.len());
        }
        return false;
    }
    let mut i: usize = 0;
    while i < a_len
        invariant
            i <= a_len,
            a_len == a@.len(),
            b_len == b@.len(),
            a@.len() == b@.len(),
            forall|j: int| 0 <= j < i ==> a@[j] == b@[j],
        decreases a_len - i,
    {
        if a.get_char(i) != b.get_char(i) {
            assert(a@[i as int] != b@[i as int]);
            return false;
        }
        i += 1;
    }
    proof {
        assert(a@ =~= b@);
    }
    true
}

/// The tsserver script kind advertised for an LSP language identifier.
pub open spec fn spec_script_kind(lang: Option<Seq<char>>) -> Seq<char> {
    if lang == Some("javascript"@) {
        "JS"@
    } else if lang == Some("javascriptreact"@) {
        "JSX"@
    } else if lang == Some("typescriptreact"@) {
        "TSX"@
    } else if lang == Some("json"@) {
        "JSON"@
    } else {
        "TS"@
    }
}

/// Maps an LSP language identifier onto the script kind names tsserver's
/// `openFiles` entries expect; anything unknown is treated as TypeScript.
pub fn script_kind_from_language(lang: Option<&str>) -> (r: &'static str)
    ensures
        r@ == spec_script_kind(match lang {
            Some(s) => Some(s@),
            None => None,
        }),
{
    match lang {
        Some(s) => {
            if str_eq(s, "javascript") {
                "JS"
            } else if str_eq(s, "javascriptreact") {
                "JSX"
            } else if str_eq(s, "typescriptreact") {
                "TSX"
            } else if str_eq(s, "json") {
                "JSON"
            } else {
                "TS"
            }
        },
        None => "TS",
    }
}

/// True when `s` starts with `prefix`, comparing characters.
pub fn str_starts_with(s: &str, prefix: &str) -> (r: bool)
    ensures
        r == (s@.len() >= prefix@.len() && s@.take(prefix@.len() as int) == prefix@),
{
    let n = prefix.unicode_len();
    let s_len = s.unicode_len();
    if s_len < n {
        return false;
    }
    let mut i: usize = 0;
    while i < n
        invariant
            i <= n,
            n == prefix@.len(),
            s_len == s@.len(),
            n <= s@.len(),
            forall|j: int| 0 <= j < i ==> s@[j] == prefix@[j],
        decreases n - i,
    {
        if s.get_char(i) != prefix.get_char(i) {
            assert(s@.take(prefix@.len() as int)[i as int] != prefix@[i as int]);
            return false;
        }
        i += 1;
    }
    proof {
        assert(s@.take(prefix@.len() as int) =~= prefix@);
    }
    true
}

/// The path a URI decodes to, if it parses and names a local file: the result
/// of `url::Url::parse` followed by `url::Url::to_file_path`, a function of
/// the URI text alone.
pub uninterp spec fn file_path_of(uri: Seq<char>) -> Option<Seq<char>>;

/// The `file://` URI an absolute filesystem path wraps into: the result of
/// `url::Url::from_file_path`, a function of the path text alone; relative
/// paths yield nothing.
pub uninterp spec fn file_uri_of(path: Seq<char>) -> Option<Seq<char>>;

/// Relies on `url::Url::parse` and `url::Url::to_file_path`: decodes a
/// `file://` URI into an absolute filesystem path, [`file_path_of`] the URI.
#[verifier::external_body]
pub fn uri_to_file_path(uri: &str) -> (r: Option<String>)
    ensures
        r is Some <==> file_path_of(uri@) is Some,
        r is Some ==> r->0@ == file_path_of(uri@)->0,
{
    let parsed = url::Url::parse(uri).ok()?;
    parsed.to_file_path().ok().map(|p| p.to_string_lossy().into_owned())
}

/// Relies on `url::Url::from_file_path`: wraps an absolute filesystem path
/// into a `file://` URI, [`file_uri_of`] the path.
#[verifier::external_body]
pub fn file_path_to_uri(path: &str) -> (r: Option<String>)
    ensures
        r is Some <==> file_uri_of(path@) is Some,
        r is Some ==> r->0@ == file_uri_of(path@)->0,
{
    url::Url::from_file_path(path).ok().map(|u| String::from(u))
}

/// True when the text begins with the `zipfile://` scheme.
pub open spec fn is_zipfile_identifier(path: Seq<char>) -> bool {
    path.len() >= "zipfile://"@.len() && path.take("zipfile://"@.len() as int) == "zipfile://"@
}

/// The URI a tsserver file identifier maps to: a `zipfile://` identifier
/// passes through unchanged, anything else is the identifier's `file://` URI.
pub open spec fn spec_file_to_uri(path: Seq<char>) -> Option<Seq<char>> {
    if is_zipfile_identifier(path) {
        Some(path)
    } else {
        file_uri_of(path)
    }
}

/// Maps a tsserver file identifier to the URI it is reported under.
pub fn tsserver_file_to_uri(path: &str) -> (r: Option<String>)
    ensures
        r is Some <==> spec_file_to_uri(path@) is Some,
        r is Some ==> r->0@ == spec_file_to_uri(path@)->0,
{
    if str_starts_with(path, "zipfile://") {
        Some(str_to_string(path))
    } else {
        file_path_to_uri(path)
    }
}

} // verus!
