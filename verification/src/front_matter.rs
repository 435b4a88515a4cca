//! The front-matter parser.
//!
//! A content file starts with a delimiter line (`+++`), followed by a TOML
//! block, a second delimiter line, and the markdown body. The split into
//! block and body is verified character by character; reading the TOML block
//! itself is the toml crate's work, reached through trusted wrappers.

use vstd::prelude::*;

use crate::datetime::{ts_in_range, Timestamp};
use crate::site::ExternalDiscussion;
use crate::text::{
    concat_nl_range, join_from, line_views, spec_concat_nl, spec_join, spec_lines, split_lines,
};

verus! {

/// The line that delimits the beginning and the end of the front matter.
pub open spec fn spec_delim() -> Seq<char> {
    "+++"@
}

/// The first index at or after `j` whose line is the delimiter, or the number
/// of lines when no such line exists.
pub open spec fn spec_first_delim_at(ls: Seq<Seq<char>>, j: nat) -> nat
    decreases ls.len() - j,
{
    if j >= ls.len() {
        ls.len()
    } else if ls[j as int] == spec_delim() {
        j
    } else {
        spec_first_delim_at(ls, j + 1)
    }
}

proof fn lemma_first_delim_found(ls: Seq<Seq<char>>, a: int, j: int)
    requires
        0 <= a <= j < ls.len(),
        ls[j] == spec_delim(),
        forall|k: int| a <= k < j ==> ls[k] != spec_delim(),
    ensures
        spec_first_delim_at(ls, a as nat) == j,
    decreases j - a,
{
    if a < j {
        lemma_first_delim_found(ls, a + 1, j);
    }
}

proof fn lemma_first_delim_none(ls: Seq<Seq<char>>, a: int)
    requires
        0 <= a <= ls.len(),
        forall|k: int| a <= k < ls.len() ==> ls[k] != spec_delim(),
    ensures
        spec_first_delim_at(ls, a as nat) == ls.len(),
    decreases ls.len() - a,
{
    if a < ls.len() {
        lemma_first_delim_none(ls, a + 1);
    }
}

/// A content text is well formed when its first line is the delimiter and a
/// later line closes the front-matter block.
pub open spec fn content_well_formed(s: Seq<char>) -> bool {
    let ls = spec_lines(s);
    &&& ls[0] == spec_delim()
    &&& spec_first_delim_at(ls, 1) < ls.len()
}

/// The text of the front-matter block: every line between the two delimiter
/// lines, each followed by a newline.
pub open spec fn spec_front_matter_text(s: Seq<char>) -> Seq<char> {
    let ls = spec_lines(s);
    spec_concat_nl(ls.subrange(1, spec_first_delim_at(ls, 1) as int))
}

/// The body text: every line after the closing delimiter, rejoined with
/// newlines.
pub open spec fn spec_body_text(s: Seq<char>) -> Seq<char> {
    let ls = spec_lines(s);
    spec_join(ls.subrange(spec_first_delim_at(ls, 1) as int + 1, ls.len() as int))
}

/// Splits a content text into its front-matter block and its body.
///
/// Returns `None` exactly when the text is malformed: the first line is not
/// the delimiter, or no later line closes the block. A missing closing
/// delimiter is an error rather than an unterminated block silently swallowing
/// the body.
pub fn split_front_matter(text: &str) -> (r: Option<(String, String)>)
    ensures
        r is Some <==> content_well_formed(text@),
        r matches Some(p) ==> p.0@ == spec_front_matter_text(text@),
        r matches Some(p) ==> p.1@ == spec_body_text(text@),
{
    let lines = split_lines(text);
    let ghost ls = spec_lines(text@);
    proof {
        assert(lines@.len() == ls.len()) by {
            assert(line_views(lines@).len() == lines@.len());
        }
        crate::text::lemma_lines_len_pos(text@);
    }
    let delim = String::from_str("+++");
    if !lines[0].eq(&delim) {
        proof {
            assert(ls[0] == lines@[0]@);
        }
        return None;
    }
    let n = lines.len();
    let mut j: usize = 1;
    while j < n
        invariant
            1 <= j <= n,
            n == lines@.len(),
            ls == line_views(lines@),
            ls == spec_lines(text@),
            ls.len() == n,
            ls[0] == spec_delim(),
            delim@ == spec_delim(),
            forall|k: int| 1 <= k < j ==> ls[k] != spec_delim(),
        decreases n - j,
    {
        if lines[j].eq(&delim) {
            proof {
                assert(ls[j as int] == lines@[j as int]@);
                lemma_first_delim_found(ls, 1, j as int);
            }
            let fm = concat_nl_range(&lines, 1, j);
            let body = join_from(&lines, j + 1);
            return Some((fm, body));
        }
        proof {
            assert(ls[j as int] == lines@[j as int]@);
        }
        j += 1;
    }
    proof {
        lemma_first_delim_none(ls, 1);
    }
    None
}

/// The metadata block parsed from a content file. Every field is optional;
/// the entry builder applies the documented default for each absent field.
pub struct FrontMatter {
    pub slug: Option<String>,
    pub title: Option<String>,
    pub description: Option<String>,
    pub template: Option<String>,
    pub tags: Option<Vec<String>>,
    pub created_at: Option<Timestamp>,
    pub updated_at: Option<Timestamp>,
    pub comments_enabled: Option<bool>,
    pub external_discussions: Option<Vec<ExternalDiscussion>>,
}

impl FrontMatter {
    /// Every timestamp carried by the front matter lies in the calendar range.
    pub open spec fn wf(self) -> bool {
        &&& (self.created_at matches Some(t) ==> t.wf())
        &&& (self.updated_at matches Some(t) ==> t.wf())
    }
}

/// Whether the text parses as a TOML document; what `toml::from_str` decides.
/// The parse is a function of the text alone.
pub uninterp spec fn toml_doc_ok(text: Seq<char>) -> bool;

/// Whether the TOML document holds the given top-level key; false when the
/// text is no TOML document.
pub uninterp spec fn toml_has_key(text: Seq<char>, key: Seq<char>) -> bool;

/// The string payload of a top-level key of the TOML document; `None` when
/// the text is no document, the key is absent, or its value is another kind.
pub uninterp spec fn toml_str_field(text: Seq<char>, key: Seq<char>) -> Option<Seq<char>>;

/// The boolean payload of a top-level key; `None` as for `toml_str_field`.
pub uninterp spec fn toml_bool_field(text: Seq<char>, key: Seq<char>) -> Option<bool>;

/// The epoch-second count of a top-level datetime key; `None` when the text
/// is no document, the key is absent or no datetime, or the datetime carries
/// no full date, time and offset.
pub uninterp spec fn toml_datetime_field(text: Seq<char>, key: Seq<char>) -> Option<int>;

/// The length of a top-level array key; `None` when absent or another kind.
pub uninterp spec fn toml_array_len(text: Seq<char>, key: Seq<char>) -> Option<int>;

/// The string at the given index of a top-level array key; `None` when the
/// array is absent, the index out of range, or the element no string.
pub uninterp spec fn toml_str_elem(text: Seq<char>, key: Seq<char>, i: int) -> Option<Seq<char>>;

/// The `name` string of the table at the given index of a top-level array
/// key; `None` when the element is no table or carries no string `name`.
pub uninterp spec fn toml_disc_name(text: Seq<char>, key: Seq<char>, i: int) -> Option<Seq<char>>;

/// The `url` string of the table at the given index of a top-level array key.
pub uninterp spec fn toml_disc_url(text: Seq<char>, key: Seq<char>, i: int) -> Option<Seq<char>>;

/// Relies on `toml::from_str`: whether the text is a valid TOML document,
/// with the parser's message on failure. The result depends on the text
/// alone.
#[verifier::external_body]
fn toml_parse_check(text: &str) -> (r: Result<(), String>)
    ensures
        r is Ok <==> toml_doc_ok(text@),
{
    match toml::from_str::<toml::Value>(text) {
        Ok(_) => Ok(()),
        Err(e) => Err(e.to_string()),
    }
}

/// Relies on `toml::from_str` and `toml::Value::get`: whether the document
/// holds the key at top level; a function of the text and key alone.
#[verifier::external_body]
fn toml_key_present(text: &str, key: &str) -> (r: bool)
    ensures
        r == toml_has_key(text@, key@),
{
    match toml::from_str::<toml::Value>(text) {
        Ok(v) => v.get(key).is_some(),
        Err(_) => false,
    }
}

/// Relies on `toml::from_str`, `toml::Value::get` and `Value::as_str`: the
/// string payload of a top-level key; a function of the text and key alone.
/// A payload is only returned for a present key.
#[verifier::external_body]
fn toml_string_field(text: &str, key: &str) -> (r: Option<String>)
    ensures
        r is Some <==> toml_str_field(text@, key@) is Some,
        r matches Some(s) ==> toml_str_field(text@, key@) == Some(s@),
        r is Some ==> toml_has_key(text@, key@),
{
    let v = match toml::from_str::<toml::Value>(text) {
        Ok(v) => v,
        Err(_) => return None,
    };
    match v.get(key) {
        Some(x) => match x.as_str() {
            Some(s) => Some(s.to_owned()),
            None => None,
        },
        None => None,
    }
}

/// Relies on `toml::from_str`, `toml::Value::get` and `Value::as_bool`: the
/// boolean payload of a top-level key; a function of the text and key alone.
/// A payload is only returned for a present key.
#[verifier::external_body]
fn toml_boolean_field(text: &str, key: &str) -> (r: Option<bool>)
    ensures
        r == toml_bool_field(text@, key@),
        r is Some ==> toml_has_key(text@, key@),
{
    let v = match toml::from_str::<toml::Value>(text) {
        Ok(v) => v,
        Err(_) => return None,
    };
    match v.get(key) {
        Some(x) => x.as_bool(),
        None => None,
    }
}

/// Relies on `toml::from_str`, `toml::Value::get`, `Value::as_datetime`, the
/// RFC 3339 display form of toml's `Datetime`, and chrono's
/// `DateTime::parse_from_rfc3339` and `timestamp`: the epoch-second count of
/// a top-level datetime that carries a date, a time and an offset. A function
/// of the text and key alone; a count is only returned for a present key.
#[verifier::external_body]
fn toml_datetime_field_secs(text: &str, key: &str) -> (r: Option<i64>)
    ensures
        r is Some <==> toml_datetime_field(text@, key@) is Some,
        r matches Some(v) ==> toml_datetime_field(text@, key@) == Some(v as int),
        r is Some ==> toml_has_key(text@, key@),
{
    let v = match toml::from_str::<toml::Value>(text) {
        Ok(v) => v,
        Err(_) => return None,
    };
    let d = match v.get(key) {
        Some(x) => match x.as_datetime() {
            Some(d) => d,
            None => return None,
        },
        None => return None,
    };
    match chrono::DateTime::parse_from_rfc3339(&d.to_string()) {
        Ok(t) => Some(t.timestamp()),
        Err(_) => None,
    }
}

/// Relies on `toml::from_str`, `toml::Value::get` and `Value::as_array`: the
/// length of a top-level array; a function of the text and key alone. A
/// length is only returned for a present key.
#[verifier::external_body]
fn toml_array_field_len(text: &str, key: &str) -> (r: Option<usize>)
    ensures
        r is Some <==> toml_array_len(text@, key@) is Some,
        r matches Some(n) ==> toml_array_len(text@, key@) == Some(n as int),
        r is Some ==> toml_has_key(text@, key@),
{
    let v = match toml::from_str::<toml::Value>(text) {
        Ok(v) => v,
        Err(_) => return None,
    };
    match v.get(key) {
        Some(x) => match x.as_array() {
            Some(a) => Some(a.len()),
            None => None,
        },
        None => None,
    }
}

/// Relies on `toml::from_str`, `toml::Value::get` (by key and by index) and
/// `Value::as_str`: the string at one index of a top-level array; a function
/// of the text, key and index alone.
#[verifier::external_body]
fn toml_string_elem(text: &str, key: &str, i: usize) -> (r: Option<String>)
    ensures
        r is Some <==> toml_str_elem(text@, key@, i as int) is Some,
        r matches Some(s) ==> toml_str_elem(text@, key@, i as int) == Some(s@),
{
    let v = match toml::from_str::<toml::Value>(text) {
        Ok(v) => v,
        Err(_) => return None,
    };
    Some(v.get(key)?.get(i)?.as_str()?.to_owned())
}

/// Relies on `toml::from_str` and `toml::Value::get` (by key, by index and by
/// field) and `Value::as_str`: the `name` string of the table at one index of
/// a top-level array; a function of the text, key and index alone.
#[verifier::external_body]
fn toml_discussion_name(text: &str, key: &str, i: usize) -> (r: Option<String>)
    ensures
        r is Some <==> toml_disc_name(text@, key@, i as int) is Some,
        r matches Some(s) ==> toml_disc_name(text@, key@, i as int) == Some(s@),
{
    let v = match toml::from_str::<toml::Value>(text) {
        Ok(v) => v,
        Err(_) => return None,
    };
    Some(v.get(key)?.get(i)?.get("name")?.as_str()?.to_owned())
}

/// Relies on `toml::from_str` and `toml::Value::get` (by key, by index and by
/// field) and `Value::as_str`: the `url` string of the table at one index of
/// a top-level array; a function of the text, key and index alone.
#[verifier::external_body]
fn toml_discussion_url(text: &str, key: &str, i: usize) -> (r: Option<String>)
    ensures
        r is Some <==> toml_disc_url(text@, key@, i as int) is Some,
        r matches Some(s) ==> toml_disc_url(text@, key@, i as int) == Some(s@),
{
    let v = match toml::from_str::<toml::Value>(text) {
        Ok(v) => v,
        Err(_) => return None,
    };
    Some(v.get(key)?.get(i)?.get("url")?.as_str()?.to_owned())
}

/// A present string key must hold a string.
pub open spec fn str_field_ok(text: Seq<char>, key: Seq<char>) -> bool {
    toml_has_key(text, key) ==> toml_str_field(text, key) is Some
}

/// A present boolean key must hold a boolean.
pub open spec fn bool_field_ok(text: Seq<char>, key: Seq<char>) -> bool {
    toml_has_key(text, key) ==> toml_bool_field(text, key) is Some
}

/// A present datetime key must hold a full offset datetime whose epoch-second
/// count lies in the representable calendar range.
pub open spec fn datetime_field_ok(text: Seq<char>, key: Seq<char>) -> bool {
    &&& (toml_has_key(text, key) ==> toml_datetime_field(text, key) is Some)
    &&& (toml_datetime_field(text, key) matches Some(v) ==> ts_in_range(v))
}

/// A present `tags` key must hold an array of strings.
pub open spec fn tags_field_ok(text: Seq<char>) -> bool {
    &&& (toml_has_key(text, "tags"@) ==> toml_array_len(text, "tags"@) is Some)
    &&& (toml_array_len(text, "tags"@) matches Some(n) ==> forall|i: int|
        0 <= i < n ==> (#[trigger] toml_str_elem(text, "tags"@, i)) is Some)
}

/// A present `external_discussions` key must hold an array of tables, each
/// with a string `name` and a string `url`.
pub open spec fn discussions_field_ok(text: Seq<char>) -> bool {
    &&& (toml_has_key(text, "external_discussions"@) ==> toml_array_len(
        text,
        "external_discussions"@,
    ) is Some)
    &&& (toml_array_len(text, "external_discussions"@) matches Some(n) ==> forall|i: int|
        0 <= i < n ==> (#[trigger] toml_disc_name(text, "external_discussions"@, i)) is Some
            && toml_disc_url(text, "external_discussions"@, i) is Some)
}

/// Whether a front-matter text deserializes: a valid TOML document whose
/// known fields, where present, carry the expected types, and whose
/// timestamps lie in the calendar range.
pub open spec fn toml_fm_ok(text: Seq<char>) -> bool {
    &&& toml_doc_ok(text)
    &&& str_field_ok(text, "slug"@)
    &&& str_field_ok(text, "title"@)
    &&& str_field_ok(text, "description"@)
    &&& str_field_ok(text, "template"@)
    &&& tags_field_ok(text)
    &&& datetime_field_ok(text, "created_at"@)
    &&& datetime_field_ok(text, "updated_at"@)
    &&& bool_field_ok(text, "comments_enabled"@)
    &&& discussions_field_ok(text)
}

/// The tag strings of the front-matter text, in front-matter order.
pub open spec fn spec_tags_of(text: Seq<char>) -> Seq<Seq<char>> {
    Seq::new(
        toml_array_len(text, "tags"@)->0 as nat,
        |i: int| toml_str_elem(text, "tags"@, i)->0,
    )
}

/// The (name, url) pairs of the front-matter text's external discussions.
pub open spec fn spec_discussions_of(text: Seq<char>) -> Seq<(Seq<char>, Seq<char>)> {
    Seq::new(
        toml_array_len(text, "external_discussions"@)->0 as nat,
        |i: int| (
            toml_disc_name(text, "external_discussions"@, i)->0,
            toml_disc_url(text, "external_discussions"@, i)->0,
        ),
    )
}

/// The view of an optional string.
pub open spec fn opt_str_view(o: Option<String>) -> Option<Seq<char>> {
    match o {
        Some(s) => Some(s@),
        None => None,
    }
}

/// The epoch-second count of an optional timestamp.
pub open spec fn opt_ts_secs(o: Option<Timestamp>) -> Option<int> {
    match o {
        Some(t) => Some(t.secs as int),
        None => None,
    }
}

/// The (name, url) views of a sequence of external discussions.
pub open spec fn disc_views(ds: Seq<ExternalDiscussion>) -> Seq<(Seq<char>, Seq<char>)> {
    ds.map_values(|d: ExternalDiscussion| (d.name@, d.url@))
}

fn parse_string_field(text: &str, key: &str, label: &str) -> (r: Result<Option<String>, String>)
    ensures
        r is Ok <==> str_field_ok(text@, key@),
        r matches Ok(o) ==> opt_str_view(o) == toml_str_field(text@, key@),
{
    match toml_string_field(text, key) {
        Some(s) => Ok(Some(s)),
        None => {
            if toml_key_present(text, key) {
                let mut msg = String::from_str(label);
                msg.append(": expected a string");
                Err(msg)
            } else {
                Ok(None)
            }
        },
    }
}

fn parse_datetime_field(text: &str, key: &str, label: &str) -> (r: Result<
    Option<Timestamp>,
    String,
>)
    ensures
        r is Ok <==> datetime_field_ok(text@, key@),
        r matches Ok(o) ==> opt_ts_secs(o) == toml_datetime_field(text@, key@),
        r matches Ok(Some(t)) ==> t.wf(),
{
    match toml_datetime_field_secs(text, key) {
        Some(secs) => {
            // A large offset can push a datetime at the calendar's edge just
            // past the representable years; such values are rejected rather
            // than clamped.
            if secs < crate::datetime::TS_MIN || secs > crate::datetime::TS_MAX {
                let mut msg = String::from_str(label);
                msg.append(": outside the representable calendar range");
                Err(msg)
            } else {
                Ok(Some(Timestamp { secs }))
            }
        },
        None => {
            if toml_key_present(text, key) {
                let mut msg = String::from_str(label);
                msg.append(": expected an offset datetime");
                Err(msg)
            } else {
                Ok(None)
            }
        },
    }
}

fn parse_tags(text: &str) -> (r: Result<Option<Vec<String>>, String>)
    ensures
        r is Ok <==> tags_field_ok(text@),
        r matches Ok(Some(ts)) ==> toml_has_key(text@, "tags"@) && crate::site::str_views(ts@)
            == spec_tags_of(text@),
        r matches Ok(o) && o is None ==> !toml_has_key(text@, "tags"@),
{
    match toml_array_field_len(text, "tags") {
        None => {
            if toml_key_present(text, "tags") {
                Err(String::from_str("tags: expected an array"))
            } else {
                Ok(None)
            }
        },
        Some(n) => {
            let mut tags: Vec<String> = Vec::new();
            let mut i: usize = 0;
            while i < n
                invariant
                    i <= n,
                    toml_array_len(text@, "tags"@) == Some(n as int),
                    tags@.len() == i,
                    forall|j: int| 0 <= j < i ==> (#[trigger] toml_str_elem(text@, "tags"@, j))
                        is Some,
                    forall|j: int|
                        0 <= j < i ==> toml_str_elem(text@, "tags"@, j) == Some(
                            (#[trigger] tags@[j])@,
                        ),
                decreases n - i,
            {
                match toml_string_elem(text, "tags", i) {
                    Some(s) => tags.push(s),
                    None => {
                        return Err(String::from_str("tags: expected an array of strings"));
                    },
                }
                i += 1;
            }
            proof {
                assert(crate::site::str_views(tags@) =~= spec_tags_of(text@));
            }
            Ok(Some(tags))
        },
    }
}

fn parse_discussions(text: &str) -> (r: Result<Option<Vec<ExternalDiscussion>>, String>)
    ensures
        r is Ok <==> discussions_field_ok(text@),
        r matches Ok(Some(ds)) ==> toml_has_key(text@, "external_discussions"@) && disc_views(ds@)
            == spec_discussions_of(text@),
        r matches Ok(o) && o is None ==> !toml_has_key(text@, "external_discussions"@),
{
    match toml_array_field_len(text, "external_discussions") {
        None => {
            if toml_key_present(text, "external_discussions") {
                Err(String::from_str("external_discussions: expected an array"))
            } else {
                Ok(None)
            }
        },
        Some(n) => {
            let mut out: Vec<ExternalDiscussion> = Vec::new();
            let mut i: usize = 0;
            while i < n
                invariant
                    i <= n,
                    toml_array_len(text@, "external_discussions"@) == Some(n as int),
                    out@.len() == i,
                    forall|j: int|
                        0 <= j < i ==> (#[trigger] toml_disc_name(
                            text@,
                            "external_discussions"@,
                            j,
                        )) is Some && toml_disc_url(text@, "external_discussions"@, j) is Some,
                    forall|j: int|
                        0 <= j < i ==> toml_disc_name(text@, "external_discussions"@, j) == Some(
                            (#[trigger] out@[j]).name@,
                        ) && toml_disc_url(text@, "external_discussions"@, j) == Some(
                            out@[j].url@,
                        ),
                decreases n - i,
            {
                let name = match toml_discussion_name(text, "external_discussions", i) {
                    Some(s) => s,
                    None => {
                        return Err(
                            String::from_str("external_discussions: name must be a string"),
                        );
                    },
                };
                let url = match toml_discussion_url(text, "external_discussions", i) {
                    Some(s) => s,
                    None => {
                        return Err(String::from_str("external_discussions: url must be a string"));
                    },
                };
                out.push(ExternalDiscussion { name, url });
                i += 1;
            }
            proof {
                assert(disc_views(out@) =~= spec_discussions_of(text@));
            }
            Ok(Some(out))
        },
    }
}

/// How a parsed front matter relates to the text it was read from: every
/// field is exactly the named projection of the text.
pub open spec fn fm_matches_text(fm: FrontMatter, text: Seq<char>) -> bool {
    &&& opt_str_view(fm.slug) == toml_str_field(text, "slug"@)
    &&& opt_str_view(fm.title) == toml_str_field(text, "title"@)
    &&& opt_str_view(fm.description) == toml_str_field(text, "description"@)
    &&& opt_str_view(fm.template) == toml_str_field(text, "template"@)
    &&& (fm.tags matches Some(ts) ==> toml_has_key(text, "tags"@) && crate::site::str_views(ts@)
        == spec_tags_of(text))
    &&& (fm.tags is None ==> !toml_has_key(text, "tags"@))
    &&& opt_ts_secs(fm.created_at) == toml_datetime_field(text, "created_at"@)
    &&& opt_ts_secs(fm.updated_at) == toml_datetime_field(text, "updated_at"@)
    &&& fm.comments_enabled == toml_bool_field(text, "comments_enabled"@)
    &&& (fm.external_discussions matches Some(ds) ==> toml_has_key(text, "external_discussions"@)
        && disc_views(ds@) == spec_discussions_of(text))
    &&& (fm.external_discussions is None ==> !toml_has_key(text, "external_discussions"@))
}

/// Parses the text of a front-matter block into a `FrontMatter`.
///
/// Succeeds exactly when the text deserializes: it is a valid TOML document
/// whose present fields carry the expected types and whose timestamps lie in
/// the calendar range. On success every field is the named projection of the
/// text; an absent field is left for the entry builder's defaults.
pub fn parse_front_matter(text: &str) -> (r: Result<FrontMatter, String>)
    ensures
        r is Ok <==> toml_fm_ok(text@),
        r matches Ok(fm) ==> fm_matches_text(fm, text@) && fm.wf(),
{
    if let Err(e) = toml_parse_check(text) {
        return Err(e);
    }
    let slug = match parse_string_field(text, "slug", "slug") {
        Ok(s) => s,
        Err(e) => {
            return Err(e);
        },
    };
    let title = match parse_string_field(text, "title", "title") {
        Ok(s) => s,
        Err(e) => {
            return Err(e);
        },
    };
    let description = match parse_string_field(text, "description", "description") {
        Ok(s) => s,
        Err(e) => {
            return Err(e);
        },
    };
    let template = match parse_string_field(text, "template", "template") {
        Ok(s) => s,
        Err(e) => {
            return Err(e);
        },
    };
    let tags = match parse_tags(text) {
        Ok(t) => t,
        Err(e) => {
            return Err(e);
        },
    };
    let created_at = match parse_datetime_field(text, "created_at", "created_at") {
        Ok(t) => t,
        Err(e) => {
            return Err(e);
        },
    };
    let updated_at = match parse_datetime_field(text, "updated_at", "updated_at") {
        Ok(t) => t,
        Err(e) => {
            return Err(e);
        },
    };
    let comments_enabled = match toml_boolean_field(text, "comments_enabled") {
        Some(b) => Some(b),
        None => {
            if toml_key_present(text, "comments_enabled") {
                return Err(String::from_str("comments_enabled: expected a boolean"));
            }
            None
        },
    };
    let external_discussions = match parse_discussions(text) {
        Ok(d) => d,
        Err(e) => {
            return Err(e);
        },
    };
    Ok(
        FrontMatter {
            slug,
            title,
            description,
            template,
            tags,
            created_at,
            updated_at,
            comments_enabled,
            external_discussions,
        },
    )
}

} // verus!
