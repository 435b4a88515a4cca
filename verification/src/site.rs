//! The site model and its builder.
//!
//! A `ContentUnit` is the plain-value form of one top-level child of the
//! content root: its name, the text of its content file, the full paths of
//! its other files, and a fallback creation time. The builder turns units
//! into validated `BlogEntry` values and assembles an immutable `Site`
//! snapshot, rejecting the whole build on the first error so that a half-built
//! site can never go live.

use vstd::prelude::*;

use crate::datetime::{spec_clamp_secs, Timestamp};
use crate::front_matter::{
    content_well_formed, disc_views, fm_matches_text, opt_ts_secs, parse_front_matter,
    spec_body_text, spec_discussions_of, spec_front_matter_text, spec_tags_of,
    split_front_matter, toml_bool_field, toml_datetime_field, toml_fm_ok, toml_has_key,
    toml_str_field, FrontMatter,
};
use crate::render::{html_of, render_content_html, spec_html_path, RenderedHtml};
use crate::text::{rel_of, spec_file_stem, strip_path_prefix, under_dir};

verus! {

/// A link to a discussion of an entry on an external site.
#[derive(Debug, Clone, PartialEq, Eq)]
pub struct ExternalDiscussion {
    pub name: String,
    pub url: String,
}

/// A non-content file found under an entry's directory. The relative path is
/// relative to the entry's own root, not the site root.
#[derive(Debug, Clone, PartialEq, Eq)]
pub struct AssociatedFile {
    pub relative_path: String,
    pub full_path: String,
}

/// Derived, presentation-independent metadata of one page.
#[derive(Debug, PartialEq, Eq)]
pub struct PageMetadata {
    pub source_file: String,
    pub associated_files: Vec<AssociatedFile>,
    pub html_content_file: String,
    pub slug: String,
    pub template_name: String,
}

/// One blog post: front-matter metadata with all defaults applied, plus
/// derived fields. The rendered body is referred to by path, not held in
/// memory.
#[derive(Debug, PartialEq, Eq)]
pub struct BlogEntry {
    pub title: String,
    pub description: String,
    pub metadata: PageMetadata,
    pub tags: Vec<String>,
    pub created_at: Timestamp,
    pub updated_at: Option<Timestamp>,
    pub comments_enabled: bool,
    pub external_discussions: Vec<ExternalDiscussion>,
}

impl BlogEntry {
    /// Every timestamp of the entry lies in the calendar range.
    pub open spec fn wf(self) -> bool {
        &&& self.created_at.wf()
        &&& (self.updated_at matches Some(t) ==> t.wf())
    }
}

/// Why a build was rejected.
#[derive(Debug, Clone, PartialEq, Eq)]
pub enum BuildError {
    /// A content file does not start with the delimiter line, or the
    /// front-matter block is never closed.
    MalformedContent { path: String },
    /// The front-matter block is no valid TOML document, or a field has an
    /// unexpected type.
    InvalidFrontMatter { path: String, detail: String },
    /// Two entries share a slug; the path names the later of the two in scan
    /// order.
    DuplicateSlug { slug: String, path: String },
    /// A file could not be enumerated or read, or lies outside the entry's
    /// directory.
    FilesystemError { path: String, detail: String },
    /// Rendered HTML could not be materialized.
    RenderIoError { path: String, detail: String },
}

/// The plain-value form of one top-level child of the content root: the
/// directory's name, its path, the text of its content file, the full paths
/// of every other file under it (recursively), and the content file's
/// filesystem creation time as a fallback timestamp.
pub struct ContentUnit {
    pub name: String,
    pub path: String,
    pub content: String,
    pub associated_file_paths: Vec<String>,
    pub fallback_created_at: i64,
}

/// The path of the content file inside an entry directory.
pub open spec fn spec_content_path(dir: Seq<char>) -> Seq<char> {
    dir + "/content.md"@
}

/// The views of a sequence of strings.
pub open spec fn str_views(ps: Seq<String>) -> Seq<Seq<char>> {
    ps.map_values(|p: String| p@)
}

/// Whether every associated path either names the content file itself or lies
/// below the entry directory.
pub open spec fn assoc_paths_ok(paths: Seq<Seq<char>>, base: Seq<char>) -> bool {
    forall|i: int|
        0 <= i < paths.len() ==> paths[i] == spec_content_path(base) || under_dir(paths[i], base)
}

/// The (relative, full) path pairs of a sequence of associated files.
pub open spec fn assoc_views(fs: Seq<AssociatedFile>) -> Seq<(Seq<char>, Seq<char>)> {
    fs.map_values(|f: AssociatedFile| (f.relative_path@, f.full_path@))
}

/// The (relative, full) path pairs expected from a sequence of discovered
/// paths: the content file excluded, every other path relativized to the
/// entry directory.
pub open spec fn spec_assoc_pairs(paths: Seq<Seq<char>>, base: Seq<char>) -> Seq<
    (Seq<char>, Seq<char>),
>
    decreases paths.len(),
{
    if paths.len() == 0 {
        Seq::<(Seq<char>, Seq<char>)>::empty()
    } else {
        let rest = spec_assoc_pairs(paths.drop_last(), base);
        let q = paths.last();
        if q == spec_content_path(base) {
            rest
        } else {
            rest.push((rel_of(q, base), q))
        }
    }
}

/// The string value of an optional front-matter field, empty when absent.
pub open spec fn default_str(o: Option<String>) -> Seq<char> {
    match o {
        Some(s) => s@,
        None => Seq::<char>::empty(),
    }
}

/// Collects the associated files of an entry: every discovered path except
/// the content file itself, relativized to the entry directory. Fails with
/// the offending path when one does not lie below the directory.
fn collect_associated_files(paths: &Vec<String>, dir: &str, content_path: &String) -> (r: Result<
    Vec<AssociatedFile>,
    BuildError,
>)
    requires
        content_path@ == spec_content_path(dir@),
    ensures
        r is Ok <==> assoc_paths_ok(str_views(paths@), dir@),
        r matches Ok(fs) ==> assoc_views(fs@) == spec_assoc_pairs(str_views(paths@), dir@),
        r matches Err(BuildError::FilesystemError { path, detail }) ==> exists|i: int|
            0 <= i < paths@.len() && (#[trigger] paths@[i])@ == path@ && !(paths@[i]@
                == spec_content_path(dir@) || under_dir(paths@[i]@, dir@)),
        r matches Err(e) ==> e is FilesystemError,
{
    let ghost pviews = str_views(paths@);
    let ghost base = dir@;
    let ghost cp = spec_content_path(base);
    let mut files: Vec<AssociatedFile> = Vec::new();
    let mut i: usize = 0;
    proof {
        assert(pviews.subrange(0, 0) =~= Seq::<Seq<char>>::empty());
        assert(spec_assoc_pairs(pviews.subrange(0, 0), base) =~= Seq::<(Seq<char>, Seq<
            char,
        >)>::empty());
        assert(assoc_views(files@) =~= Seq::<(Seq<char>, Seq<char>)>::empty());
    }
    while i < paths.len()
        invariant
            i <= paths@.len(),
            pviews == str_views(paths@),
            base == dir@,
            cp == spec_content_path(base),
            content_path@ == cp,
            pviews.len() == paths@.len(),
            forall|j: int| 0 <= j < i ==> pviews[j] == cp || under_dir(pviews[j], base),
            assoc_views(files@) == spec_assoc_pairs(pviews.subrange(0, i as int), base),
        decreases paths@.len() - i,
    {
        let p = &paths[i];
        let ghost prefix = pviews.subrange(0, i as int);
        let ghost prefix1 = pviews.subrange(0, i + 1);
        proof {
            assert(prefix1 =~= prefix.push(p@));
            assert(prefix1.drop_last() =~= prefix);
            assert(prefix1.last() == p@);
        }
        if p.eq(content_path) {
            proof {
                assert(spec_assoc_pairs(prefix1, base) == spec_assoc_pairs(prefix, base));
            }
        } else {
            match strip_path_prefix(dir, p.as_str()) {
                Some(rel) => {
                    let file = AssociatedFile { relative_path: rel, full_path: p.clone() };
                    proof {
                        assert(spec_assoc_pairs(prefix1, base) == spec_assoc_pairs(
                            prefix,
                            base,
                        ).push((rel_of(p@, base), p@)));
                        assert(assoc_views(files@.push(file)) =~= assoc_views(files@).push(
                            (file.relative_path@, file.full_path@),
                        ));
                    }
                    files.push(file);
                },
                None => {
                    proof {
                        assert(paths@[i as int]@ == p@ && !(p@ == cp || under_dir(p@, base)));
                    }
                    return Err(
                        BuildError::FilesystemError {
                            path: p.clone(),
                            detail: String::from_str("file lies outside the entry directory"),
                        },
                    );
                },
            }
        }
        i += 1;
    }
    proof {
        assert(pviews.subrange(0, paths@.len() as int) =~= pviews);
    }
    Ok(files)
}

/// Builds a `BlogEntry` from parsed front matter, applying the documented
/// default for every absent field: empty title and description, the unit name
/// as slug, the default template, no tags, comments enabled, no external
/// discussions, and the filesystem creation time (clamped to the calendar
/// range) when the front matter carries no `created_at`.
pub fn build_entry(fm: FrontMatter, unit: &ContentUnit, html_dir: &str, body: &str) -> (r: Result<
    (BlogEntry, RenderedHtml),
    BuildError,
>)
    requires
        fm.wf(),
    ensures
        r is Ok <==> assoc_paths_ok(str_views(unit.associated_file_paths@), unit.path@),
        r matches Err(e) ==> e is FilesystemError,
        r matches Err(BuildError::FilesystemError { path, detail }) ==> exists|i: int|
            0 <= i < unit.associated_file_paths@.len() && (#[trigger] unit.associated_file_paths@[i])@
                == path@ && !(unit.associated_file_paths@[i]@ == spec_content_path(unit.path@)
                || under_dir(unit.associated_file_paths@[i]@, unit.path@)),
        r matches Ok(p) ==> {
            let e = p.0;
            let rh = p.1;
            &&& e.wf()
            &&& (fm.title matches Some(t) ==> e.title == t)
            &&& e.title@ == default_str(fm.title)
            &&& e.description@ == default_str(fm.description)
            &&& e.metadata.slug@ == (match fm.slug {
                Some(s) => s@,
                None => spec_file_stem(unit.name@),
            })
            &&& e.metadata.template_name@ == (match fm.template {
                Some(t) => t@,
                None => "blog_entry"@,
            })
            &&& (fm.tags matches Some(ts) ==> e.tags == ts)
            &&& (fm.tags is None ==> e.tags@ == Seq::<String>::empty())
            &&& (fm.created_at matches Some(t) ==> e.created_at == t)
            &&& (fm.created_at is None ==> e.created_at.secs as int == spec_clamp_secs(
                unit.fallback_created_at as int,
            ))
            &&& e.updated_at == fm.updated_at
            &&& e.comments_enabled == (match fm.comments_enabled {
                Some(b) => b,
                None => true,
            })
            &&& (fm.external_discussions matches Some(d) ==> e.external_discussions == d)
            &&& (fm.external_discussions is None ==> e.external_discussions@ == Seq::<
                ExternalDiscussion,
            >::empty())
            &&& e.metadata.source_file@ == spec_content_path(unit.path@)
            &&& assoc_views(e.metadata.associated_files@) == spec_assoc_pairs(
                str_views(unit.associated_file_paths@),
                unit.path@,
            )
            &&& e.metadata.html_content_file == rh.path
            &&& rh.path@ == spec_html_path(html_dir@, unit.name@)
            &&& rh.html@ == html_of(body@) + "\n"@
        },
{
    let mut content_path = unit.path.clone();
    content_path.append("/content.md");
    proof {
        assert(content_path@ =~= spec_content_path(unit.path@));
    }

    let rendered = render_content_html(html_dir, unit.name.as_str(), body);

    let associated_files = match collect_associated_files(
        &unit.associated_file_paths,
        unit.path.as_str(),
        &content_path,
    ) {
        Ok(fs) => fs,
        Err(e) => {
            return Err(e);
        },
    };

    let created_at = match fm.created_at {
        Some(t) => t,
        None => Timestamp::new(unit.fallback_created_at),
    };

    let slug = match fm.slug {
        Some(s) => s,
        None => default_slug_for_file(unit.name.as_str()),
    };
    let template_name = match fm.template {
        Some(t) => t,
        None => String::from_str("blog_entry"),
    };
    let html_path = rendered.path.clone();

    let metadata = PageMetadata {
        source_file: content_path,
        associated_files,
        html_content_file: html_path,
        slug,
        template_name,
    };

    let entry = BlogEntry {
        title: match fm.title {
            Some(t) => t,
            None => String::new(),
        },
        description: match fm.description {
            Some(d) => d,
            None => String::new(),
        },
        metadata,
        tags: match fm.tags {
            Some(ts) => ts,
            None => Vec::new(),
        },
        created_at,
        updated_at: fm.updated_at,
        comments_enabled: match fm.comments_enabled {
            Some(b) => b,
            None => true,
        },
        external_discussions: match fm.external_discussions {
            Some(d) => d,
            None => Vec::new(),
        },
    };
    Ok((entry, rendered))
}

/// Whether one content unit builds: its text is a well-formed delimited
/// document, its front-matter block deserializes, and every associated path
/// lies below the unit's directory.
pub open spec fn unit_ok(unit: ContentUnit) -> bool {
    &&& content_well_formed(unit.content@)
    &&& toml_fm_ok(spec_front_matter_text(unit.content@))
    &&& assoc_paths_ok(str_views(unit.associated_file_paths@), unit.path@)
}

/// The slug a unit resolves to: the front matter's, or the unit name's stem.
pub open spec fn unit_slug(unit: ContentUnit) -> Seq<char> {
    match toml_str_field(spec_front_matter_text(unit.content@), "slug"@) {
        Some(s) => s,
        None => spec_file_stem(unit.name@),
    }
}

/// The creation time a unit resolves to: the front matter's, or the clamped
/// filesystem fallback.
pub open spec fn unit_created_secs(unit: ContentUnit) -> int {
    match toml_datetime_field(spec_front_matter_text(unit.content@), "created_at"@) {
        Some(v) => v,
        None => spec_clamp_secs(unit.fallback_created_at as int),
    }
}

/// How a built entry relates to the unit it was built from: every field is
/// the named projection of the unit's front-matter text, with the documented
/// default where the field is absent.
pub open spec fn entry_of_unit(e: BlogEntry, unit: ContentUnit, html_dir: Seq<char>) -> bool {
    let t = spec_front_matter_text(unit.content@);
    &&& e.title@ == (match toml_str_field(t, "title"@) {
        Some(s) => s,
        None => Seq::<char>::empty(),
    })
    &&& e.description@ == (match toml_str_field(t, "description"@) {
        Some(s) => s,
        None => Seq::<char>::empty(),
    })
    &&& e.metadata.slug@ == unit_slug(unit)
    &&& e.metadata.template_name@ == (match toml_str_field(t, "template"@) {
        Some(s) => s,
        None => "blog_entry"@,
    })
    &&& str_views(e.tags@) == (if toml_has_key(t, "tags"@) {
        spec_tags_of(t)
    } else {
        Seq::<Seq<char>>::empty()
    })
    &&& e.created_at.secs as int == unit_created_secs(unit)
    &&& opt_ts_secs(e.updated_at) == toml_datetime_field(t, "updated_at"@)
    &&& e.comments_enabled == (match toml_bool_field(t, "comments_enabled"@) {
        Some(b) => b,
        None => true,
    })
    &&& disc_views(e.external_discussions@) == (if toml_has_key(t, "external_discussions"@) {
        spec_discussions_of(t)
    } else {
        Seq::<(Seq<char>, Seq<char>)>::empty()
    })
    &&& e.metadata.source_file@ == spec_content_path(unit.path@)
    &&& e.metadata.html_content_file@ == spec_html_path(html_dir, unit.name@)
    &&& assoc_views(e.metadata.associated_files@) == spec_assoc_pairs(
        str_views(unit.associated_file_paths@),
        unit.path@,
    )
    &&& e.wf()
}

/// Parses one content unit into a `BlogEntry` and its rendered HTML.
///
/// Succeeds exactly when the unit builds: the content text is a well-formed
/// delimited document, its front-matter block deserializes, and every
/// associated path lies below the unit's directory. On success the entry is
/// the named projection of the unit. A malformed text fails with
/// `MalformedContent`, a block that does not deserialize with
/// `InvalidFrontMatter`, both carrying the content file's path; a stray
/// associated path fails with `FilesystemError` carrying that path.
pub fn parse_entry_dir(unit: &ContentUnit, html_dir: &str) -> (r: Result<
    (BlogEntry, RenderedHtml),
    BuildError,
>)
    ensures
        r is Ok <==> unit_ok(*unit),
        r matches Err(e) && e is MalformedContent <==> !content_well_formed(unit.content@),
        r matches Err(e) ==> !(e is DuplicateSlug) && !(e is RenderIoError),
        !content_well_formed(unit.content@) ==> (r matches Err(
            BuildError::MalformedContent { path },
        ) && path@ == spec_content_path(unit.path@)),
        r matches Err(BuildError::InvalidFrontMatter { path, detail }) ==> content_well_formed(
            unit.content@,
        ) && !toml_fm_ok(spec_front_matter_text(unit.content@)) && path@ == spec_content_path(
            unit.path@,
        ),
        r matches Err(BuildError::FilesystemError { path, detail }) ==> exists|i: int|
            0 <= i < unit.associated_file_paths@.len() && (#[trigger] unit.associated_file_paths@[i])@
                == path@ && !(unit.associated_file_paths@[i]@ == spec_content_path(unit.path@)
                || under_dir(unit.associated_file_paths@[i]@, unit.path@)),
        r matches Ok(p) ==> {
            let e = p.0;
            let rh = p.1;
            &&& entry_of_unit(e, *unit, html_dir@)
            &&& e.metadata.html_content_file == rh.path
            &&& rh.path@ == spec_html_path(html_dir@, unit.name@)
            &&& rh.html@ == html_of(spec_body_text(unit.content@)) + "\n"@
        },
{
    let (front_matter_text, body) = match split_front_matter(unit.content.as_str()) {
        Some(p) => p,
        None => {
            let mut content_path = unit.path.clone();
            content_path.append("/content.md");
            proof {
                assert(content_path@ =~= spec_content_path(unit.path@));
            }
            return Err(BuildError::MalformedContent { path: content_path });
        },
    };

    let fm = match parse_front_matter(front_matter_text.as_str()) {
        Ok(fm) => fm,
        Err(detail) => {
            let mut content_path = unit.path.clone();
            content_path.append("/content.md");
            proof {
                assert(content_path@ =~= spec_content_path(unit.path@));
            }
            return Err(BuildError::InvalidFrontMatter { path: content_path, detail });
        },
    };

    let ghost t = spec_front_matter_text(unit.content@);
    let r = build_entry(fm, unit, html_dir, body.as_str());
    proof {
        if r is Ok {
            let e = r->Ok_0.0;
            assert(fm_matches_text(fm, t));
            if fm.tags is None {
                assert(str_views(e.tags@) =~= Seq::<Seq<char>>::empty());
            }
            if fm.external_discussions is None {
                assert(disc_views(e.external_discussions@) =~= Seq::<(Seq<char>, Seq<
                    char,
                >)>::empty());
            }
            assert(entry_of_unit(e, *unit, html_dir@));
        }
    }
    r
}

/// Determines the default slug for the provided file or directory name: its
/// stem, without the extension.
fn default_slug_for_file(name: &str) -> (r: String)
    ensures
        r@ == spec_file_stem(name@),
{
    crate::text::file_stem(name)
}

/// The entries of `s` created at time `k`, in their order in `s`.
pub open spec fn entries_with_key(s: Seq<BlogEntry>, k: i64) -> Seq<BlogEntry>
    decreases s.len(),
{
    if s.len() == 0 {
        Seq::<BlogEntry>::empty()
    } else {
        let rest = entries_with_key(s.drop_last(), k);
        if s.last().created_at.secs == k {
            rest.push(s.last())
        } else {
            rest
        }
    }
}

/// Sorted by creation time, newest first.
pub open spec fn sorted_by_created_desc(s: Seq<BlogEntry>) -> bool {
    forall|i: int, j: int|
        0 <= i < j < s.len() ==> s[i].created_at.secs >= s[j].created_at.secs
}

/// For every creation time, both sequences hold the same entries in the same
/// order: the reordering between them is stable.
pub open spec fn same_entries_per_key(a: Seq<BlogEntry>, b: Seq<BlogEntry>) -> bool {
    forall|k: i64| #[trigger] entries_with_key(a, k) == entries_with_key(b, k)
}

/// All slugs are pairwise distinct.
pub open spec fn unique_slugs(s: Seq<BlogEntry>) -> bool {
    forall|i: int, j: int|
        0 <= i < j < s.len() ==> s[i].metadata.slug@ != s[j].metadata.slug@
}

proof fn lemma_ewk_push(s: Seq<BlogEntry>, e: BlogEntry, k: i64)
    ensures
        entries_with_key(s.push(e), k) == (if e.created_at.secs == k {
            entries_with_key(s, k).push(e)
        } else {
            entries_with_key(s, k)
        }),
{
    assert(s.push(e).drop_last() =~= s);
    assert(s.push(e).last() == e);
}

proof fn lemma_ewk_add(a: Seq<BlogEntry>, b: Seq<BlogEntry>, k: i64)
    ensures
        entries_with_key(a + b, k) == entries_with_key(a, k) + entries_with_key(b, k),
    decreases b.len(),
{
    if b.len() == 0 {
        assert(a + b =~= a);
        assert(entries_with_key(b, k) =~= Seq::<BlogEntry>::empty());
        assert(entries_with_key(a, k) + entries_with_key(b, k) =~= entries_with_key(a, k));
    } else {
        lemma_ewk_add(a, b.drop_last(), k);
        assert((a + b).drop_last() =~= a + b.drop_last());
        assert((a + b).last() == b.last());
        if b.last().created_at.secs == k {
            assert(entries_with_key(a + b, k) =~= entries_with_key(a, k) + entries_with_key(
                b,
                k,
            )) by {
                assert(entries_with_key(b, k) == entries_with_key(b.drop_last(), k).push(
                    b.last(),
                ));
            }
        } else {
            assert(entries_with_key(b, k) == entries_with_key(b.drop_last(), k));
        }
    }
}

/// No entry of `s` is created at time `k`: nothing to pick out.
proof fn lemma_ewk_none(s: Seq<BlogEntry>, k: i64)
    requires
        forall|i: int| 0 <= i < s.len() ==> s[i].created_at.secs != k,
    ensures
        entries_with_key(s, k) == Seq::<BlogEntry>::empty(),
    decreases s.len(),
{
    if s.len() > 0 {
        lemma_ewk_none(s.drop_last(), k);
    }
}

/// Inserts an entry into a descending-sorted vector, after every entry whose
/// creation time is no older: a stable insertion.
fn insert_entry_sorted(sorted: &mut Vec<BlogEntry>, e: BlogEntry)
    requires
        sorted_by_created_desc(old(sorted)@),
    ensures
        sorted_by_created_desc(final(sorted)@),
        final(sorted)@.to_multiset() == old(sorted)@.push(e).to_multiset(),
        same_entries_per_key(final(sorted)@, old(sorted)@.push(e)),
        final(sorted)@.len() == old(sorted)@.len() + 1,
{
    let key = e.created_at.secs;
    let n = sorted.len();
    let mut p: usize = 0;
    while p < n && sorted[p].created_at.secs >= key
        invariant
            p <= n,
            n == sorted@.len(),
            key == e.created_at.secs,
            forall|i: int| 0 <= i < p ==> sorted@[i].created_at.secs >= key,
            sorted_by_created_desc(sorted@),
        decreases n - p,
    {
        p += 1;
    }
    let ghost before = sorted@;
    let ghost a = before.subrange(0, p as int);
    let ghost b = before.subrange(p as int, before.len() as int);
    proof {
        assert(forall|i: int| 0 <= i < b.len() ==> b[i].created_at.secs < key);
    }
    sorted.insert(p, e);
    proof {
        let after = sorted@;
        assert(after =~= a + (seq![e] + b));
        assert(before.push(e) =~= (a + b) + seq![e]);

        // The result is still sorted.
        assert forall|i: int, j: int| 0 <= i < j < after.len() implies after[i].created_at.secs
            >= after[j].created_at.secs by {
            assert(forall|i: int| 0 <= i < a.len() ==> after[i] == before[i]);
            assert(forall|i: int|
                p < i < after.len() ==> after[i] == before[i - 1]);
        }

        // Same multiset as appending the entry.
        vstd::seq_lib::lemma_multiset_commutative(a, seq![e] + b);
        vstd::seq_lib::lemma_multiset_commutative(seq![e], b);
        vstd::seq_lib::lemma_multiset_commutative(a + b, seq![e]);
        vstd::seq_lib::lemma_multiset_commutative(a, b);
        broadcast use vstd::multiset::group_multiset_axioms;

        assert(after.to_multiset() =~= before.push(e).to_multiset());

        // Same entries in the same order for every creation time.
        assert forall|k: i64| #[trigger] entries_with_key(after, k) == entries_with_key(
            before.push(e),
            k,
        ) by {
            lemma_ewk_add(a, seq![e] + b, k);
            lemma_ewk_add(seq![e], b, k);
            lemma_ewk_add(a + b, seq![e], k);
            lemma_ewk_add(a, b, k);
            if k == key {
                lemma_ewk_none(b, k);
                assert(entries_with_key(after, k) =~= entries_with_key(before.push(e), k));
            } else {
                lemma_ewk_none(seq![e], k);
                assert(entries_with_key(after, k) =~= entries_with_key(before.push(e), k));
            }
        }
    }
}

/// Sorts entries by creation time, newest first; entries with equal creation
/// times keep their input order, and nothing is added, dropped or changed.
pub fn sort_entries_by_created_at(entries: Vec<BlogEntry>) -> (r: Vec<BlogEntry>)
    ensures
        sorted_by_created_desc(r@),
        same_entries_per_key(r@, entries@),
        r@.to_multiset() == entries@.to_multiset(),
        r@.len() == entries@.len(),
{
    let ghost orig = entries@;
    let mut rest = entries;
    let mut sorted: Vec<BlogEntry> = Vec::new();
    proof {
        broadcast use vstd::seq_lib::group_to_multiset_ensures;

        assert(orig.subrange(0, 0) =~= Seq::<BlogEntry>::empty());
        assert(rest@ =~= orig.subrange(0, orig.len() as int));
        assert forall|k: i64| #[trigger] entries_with_key(sorted@, k) == entries_with_key(
            orig.subrange(0, 0),
            k,
        ) by {
            assert(entries_with_key(sorted@, k) == Seq::<BlogEntry>::empty());
            assert(entries_with_key(orig.subrange(0, 0), k) == Seq::<BlogEntry>::empty());
        }
        assert(sorted@.to_multiset() =~= orig.subrange(0, 0).to_multiset());
    }
    while rest.len() > 0
        invariant
            sorted_by_created_desc(sorted@),
            sorted@.len() + rest@.len() == orig.len(),
            rest@ == orig.subrange(
                orig.len() - rest@.len(),
                orig.len() as int,
            ),
            same_entries_per_key(sorted@, orig.subrange(0, orig.len() - rest@.len())),
            sorted@.to_multiset() == orig.subrange(0, orig.len() - rest@.len()).to_multiset(),
        decreases rest@.len(),
    {
        let ghost done = orig.len() - rest@.len();
        let e = rest.remove(0);
        let ghost prev = sorted@;
        insert_entry_sorted(&mut sorted, e);
        proof {
            broadcast use vstd::seq_lib::group_to_multiset_ensures;

            assert(e == orig[done]);
            assert(rest@ =~= orig.subrange(done + 1, orig.len() as int));
            assert(orig.subrange(0, done + 1) =~= orig.subrange(0, done).push(e));
            assert forall|k: i64| #[trigger] entries_with_key(sorted@, k) == entries_with_key(
                orig.subrange(0, done + 1),
                k,
            ) by {
                lemma_ewk_push(prev, e, k);
                lemma_ewk_push(orig.subrange(0, done), e, k);
                assert(entries_with_key(sorted@, k) == entries_with_key(prev.push(e), k));
            }
            assert(sorted@.to_multiset() =~= orig.subrange(0, done + 1).to_multiset());
        }
    }
    proof {
        assert(orig.subrange(0, orig.len() as int) =~= orig);
    }
    sorted
}

/// A reordering that keeps the entry multiset also keeps slugs pairwise
/// distinct.
proof fn lemma_unique_slugs_preserved(a: Seq<BlogEntry>, b: Seq<BlogEntry>)
    requires
        a.to_multiset() == b.to_multiset(),
        unique_slugs(a),
    ensures
        unique_slugs(b),
{
    broadcast use vstd::seq_lib::group_to_multiset_ensures;
    broadcast use vstd::multiset::group_multiset_axioms;

    assert(a.no_duplicates()) by {
        assert forall|i: int, j: int|
            0 <= i < a.len() && 0 <= j < a.len() && i != j implies a[i] != a[j] by {
            if a[i] == a[j] {
                assert(a[i].metadata.slug@ == a[j].metadata.slug@);
            }
        }
    }
    a.lemma_multiset_has_no_duplicates();
    assert(forall|x: BlogEntry|
        b.to_multiset().contains(x) ==> b.to_multiset().count(x) == 1);
    b.lemma_multiset_has_no_duplicates_conv();
    assert forall|i: int, j: int| 0 <= i < j < b.len() implies b[i].metadata.slug@
        != b[j].metadata.slug@ by {
        if b[i].metadata.slug@ == b[j].metadata.slug@ {
            assert(b[i] != b[j]);
            assert(b.contains(b[i]));
            assert(b.contains(b[j]));
            assert(b.to_multiset().count(b[i]) > 0);
            assert(b.to_multiset().count(b[j]) > 0);
            assert(a.to_multiset().count(b[i]) > 0);
            assert(a.to_multiset().count(b[j]) > 0);
            assert(a.contains(b[i]));
            assert(a.contains(b[j]));
            let k1 = a.lemma_contains_to_index(b[i]);
            let k2 = a.lemma_contains_to_index(b[j]);
            assert(k1 != k2);
            assert(false);
        }
    }
}

/// Every unit builds.
pub open spec fn units_ok(units: Seq<ContentUnit>) -> bool {
    forall|i: int| 0 <= i < units.len() ==> unit_ok(#[trigger] units[i])
}

/// All units resolve to pairwise distinct slugs.
pub open spec fn unit_slugs_distinct(units: Seq<ContentUnit>) -> bool {
    forall|i: int, j: int|
        0 <= i < j < units.len() ==> unit_slug(units[i]) != unit_slug(units[j])
}

/// The first index at or after `j` whose unit repeats an earlier unit's slug,
/// or the number of units when none does.
pub open spec fn first_dup_at(units: Seq<ContentUnit>, j: nat) -> nat
    decreases units.len() - j,
{
    if j >= units.len() {
        units.len()
    } else if exists|i: int| 0 <= i < j && unit_slug(units[i]) == unit_slug(units[j as int]) {
        j
    } else {
        first_dup_at(units, j + 1)
    }
}

proof fn lemma_first_dup_found(units: Seq<ContentUnit>, a: int, j: int)
    requires
        0 <= a <= j < units.len(),
        forall|x: int, y: int| 0 <= x < y < j ==> unit_slug(units[x]) != unit_slug(units[y]),
        exists|i: int| 0 <= i < j && unit_slug(units[i]) == unit_slug(units[j]),
    ensures
        first_dup_at(units, a as nat) == j,
    decreases j - a,
{
    if a < j {
        lemma_first_dup_found(units, a + 1, j);
    }
}

proof fn lemma_first_dup_none(units: Seq<ContentUnit>, a: int)
    requires
        0 <= a <= units.len(),
        unit_slugs_distinct(units),
    ensures
        first_dup_at(units, a as nat) == units.len(),
    decreases units.len() - a,
{
    if a < units.len() {
        lemma_first_dup_none(units, a + 1);
    }
}

/// The units whose creation time resolves to `k`, in scan order.
pub open spec fn units_with_key(us: Seq<ContentUnit>, k: i64) -> Seq<ContentUnit>
    decreases us.len(),
{
    if us.len() == 0 {
        Seq::<ContentUnit>::empty()
    } else {
        let rest = units_with_key(us.drop_last(), k);
        if unit_created_secs(us.last()) == k as int {
            rest.push(us.last())
        } else {
            rest
        }
    }
}

/// Entries pointwise built from units: same count, and the i-th entry is the
/// named projection of the i-th unit.
pub open spec fn entries_match_units(
    es: Seq<BlogEntry>,
    us: Seq<ContentUnit>,
    html_dir: Seq<char>,
) -> bool {
    &&& es.len() == us.len()
    &&& forall|i: int| 0 <= i < es.len() ==> entry_of_unit(#[trigger] es[i], us[i], html_dir)
}

/// Filtering matched entries and units by one creation time keeps them
/// matched, pair by pair.
proof fn lemma_match_filter(es: Seq<BlogEntry>, us: Seq<ContentUnit>, html_dir: Seq<char>, k: i64)
    requires
        entries_match_units(es, us, html_dir),
    ensures
        entries_match_units(entries_with_key(es, k), units_with_key(us, k), html_dir),
    decreases es.len(),
{
    if es.len() == 0 {
        assert(entries_with_key(es, k) =~= Seq::<BlogEntry>::empty());
        assert(units_with_key(us, k) =~= Seq::<ContentUnit>::empty());
    } else {
        let es1 = es.drop_last();
        let us1 = us.drop_last();
        assert(entries_match_units(es1, us1, html_dir)) by {
            assert forall|i: int| 0 <= i < es1.len() implies entry_of_unit(
                #[trigger] es1[i],
                us1[i],
                html_dir,
            ) by {
                assert(es1[i] == es[i]);
                assert(us1[i] == us[i]);
            }
        }
        lemma_match_filter(es1, us1, html_dir, k);
        assert(entry_of_unit(es.last(), us.last(), html_dir));
        let fe = entries_with_key(es1, k);
        let fu = units_with_key(us1, k);
        if es.last().created_at.secs == k {
            assert(unit_created_secs(us.last()) == k as int);
            assert(entries_with_key(es, k) == fe.push(es.last()));
            assert(units_with_key(us, k) == fu.push(us.last()));
            assert forall|i: int| 0 <= i < fe.push(es.last()).len() implies entry_of_unit(
                #[trigger] fe.push(es.last())[i],
                fu.push(us.last())[i],
                html_dir,
            ) by {
                if i < fe.len() {
                    assert(fe.push(es.last())[i] == fe[i]);
                    assert(fu.push(us.last())[i] == fu[i]);
                }
            }
        } else {
            assert(unit_created_secs(us.last()) != k as int);
            assert(entries_with_key(es, k) == fe);
            assert(units_with_key(us, k) == fu);
        }
    }
}


/// The entries picked out for a creation time all carry that time, and there
/// is one only where some entry carries it.
proof fn lemma_ewk_members(s: Seq<BlogEntry>, k: i64)
    ensures
        forall|i: int|
            0 <= i < entries_with_key(s, k).len() ==> (#[trigger] entries_with_key(
                s,
                k,
            )[i]).created_at.secs == k,
        entries_with_key(s, k).len() > 0 ==> exists|j: int|
            0 <= j < s.len() && (#[trigger] s[j]).created_at.secs == k,
    decreases s.len(),
{
    if s.len() > 0 {
        let s1 = s.drop_last();
        lemma_ewk_members(s1, k);
        let fe = entries_with_key(s1, k);
        if s.last().created_at.secs == k {
            assert(entries_with_key(s, k) == fe.push(s.last()));
            assert forall|i: int| 0 <= i < fe.push(s.last()).len() implies (#[trigger] fe.push(
                s.last(),
            )[i]).created_at.secs == k by {
                if i < fe.len() {
                    assert(fe.push(s.last())[i] == fe[i]);
                }
            }
            assert((#[trigger] s[s.len() - 1]).created_at.secs == k);
        } else {
            assert(entries_with_key(s, k) == fe);
            if fe.len() > 0 {
                let j = choose|j: int| 0 <= j < s1.len() && (#[trigger] s1[j]).created_at.secs
                    == k;
                assert((#[trigger] s[j]).created_at.secs == k);
            }
        }
    }
}

/// Whether two entries present the same data: every field that the site's
/// contracts speak of is equal between them.
pub open spec fn same_entry_data(x: BlogEntry, y: BlogEntry) -> bool {
    &&& x.title@ == y.title@
    &&& x.description@ == y.description@
    &&& x.metadata.slug@ == y.metadata.slug@
    &&& x.metadata.template_name@ == y.metadata.template_name@
    &&& x.metadata.source_file@ == y.metadata.source_file@
    &&& x.metadata.html_content_file@ == y.metadata.html_content_file@
    &&& assoc_views(x.metadata.associated_files@) == assoc_views(y.metadata.associated_files@)
    &&& str_views(x.tags@) == str_views(y.tags@)
    &&& x.created_at == y.created_at
    &&& opt_ts_secs(x.updated_at) == opt_ts_secs(y.updated_at)
    &&& x.comments_enabled == y.comments_enabled
    &&& disc_views(x.external_discussions@) == disc_views(y.external_discussions@)
}

/// Two entries built from the same unit present the same data: the unit's
/// named projections fix every field.
proof fn lemma_entry_of_unit_functional(
    x: BlogEntry,
    y: BlogEntry,
    unit: ContentUnit,
    html_dir: Seq<char>,
)
    requires
        entry_of_unit(x, unit, html_dir),
        entry_of_unit(y, unit, html_dir),
    ensures
        same_entry_data(x, y),
{
}

/// Sequences matched pair by pair.
pub open spec fn pairwise_same_data(xs: Seq<BlogEntry>, ys: Seq<BlogEntry>) -> bool {
    &&& xs.len() == ys.len()
    &&& forall|i: int| 0 <= i < xs.len() ==> same_entry_data(#[trigger] xs[i], ys[i])
}

/// Two newest-first sequences that agree, pair by pair, on the entries of
/// every creation time agree pair by pair as wholes: a stable descending
/// order has exactly one arrangement.
proof fn lemma_sorted_per_key_pointwise(a: Seq<BlogEntry>, b: Seq<BlogEntry>)
    requires
        sorted_by_created_desc(a),
        sorted_by_created_desc(b),
        forall|k: i64|
            #[trigger] pairwise_same_data(entries_with_key(a, k), entries_with_key(b, k)),
    ensures
        pairwise_same_data(a, b),
    decreases a.len(),
{
    if a.len() == 0 {
        if b.len() > 0 {
            let kb = b.last().created_at.secs;
            assert(entries_with_key(b, kb) == entries_with_key(b.drop_last(), kb).push(b.last()));
            assert(entries_with_key(a, kb) =~= Seq::<BlogEntry>::empty());
            assert(pairwise_same_data(entries_with_key(a, kb), entries_with_key(b, kb)));
            assert(false);
        }
    } else if b.len() == 0 {
        let ka = a.last().created_at.secs;
        assert(entries_with_key(a, ka) == entries_with_key(a.drop_last(), ka).push(a.last()));
        assert(entries_with_key(b, ka) =~= Seq::<BlogEntry>::empty());
        assert(pairwise_same_data(entries_with_key(a, ka), entries_with_key(b, ka)));
        assert(false);
    } else {
        let ka = a.last().created_at.secs;
        let kb = b.last().created_at.secs;
        assert(entries_with_key(a, ka) == entries_with_key(a.drop_last(), ka).push(a.last()));
        assert(entries_with_key(b, kb) == entries_with_key(b.drop_last(), kb).push(b.last()));
        assert(kb <= ka) by {
            assert(pairwise_same_data(entries_with_key(a, ka), entries_with_key(b, ka)));
            assert(entries_with_key(a, ka).len() > 0);
            assert(entries_with_key(b, ka).len() > 0);
            lemma_ewk_members(b, ka);
            let j = choose|j: int| 0 <= j < b.len() && (#[trigger] b[j]).created_at.secs == ka;
            assert(b[j].created_at.secs >= b[b.len() - 1].created_at.secs);
        }
        assert(ka <= kb) by {
            assert(pairwise_same_data(entries_with_key(a, kb), entries_with_key(b, kb)));
            assert(entries_with_key(b, kb).len() > 0);
            assert(entries_with_key(a, kb).len() > 0);
            lemma_ewk_members(a, kb);
            let j = choose|j: int| 0 <= j < a.len() && (#[trigger] a[j]).created_at.secs == kb;
            assert(a[j].created_at.secs >= a[a.len() - 1].created_at.secs);
        }
        assert(ka == kb);
        let fa = entries_with_key(a, ka);
        let fb = entries_with_key(b, ka);
        assert(pairwise_same_data(fa, fb));
        assert(fa.last() == a.last());
        assert(fb.last() == b.last());
        assert(same_entry_data(a.last(), b.last())) by {
            assert(same_entry_data(fa[fa.len() - 1], fb[fb.len() - 1]));
        }
        let a1 = a.drop_last();
        let b1 = b.drop_last();
        assert forall|k: i64| #[trigger] pairwise_same_data(
            entries_with_key(a1, k),
            entries_with_key(b1, k),
        ) by {
            assert(pairwise_same_data(entries_with_key(a, k), entries_with_key(b, k)));
            if k == ka {
                assert(entries_with_key(a1, ka) =~= entries_with_key(a, ka).drop_last());
                assert(entries_with_key(b1, ka) =~= entries_with_key(b, ka).drop_last());
                assert forall|i: int| 0 <= i < entries_with_key(a1, ka).len() implies
                    same_entry_data(
                    #[trigger] entries_with_key(a1, ka)[i],
                    entries_with_key(b1, ka)[i],
                ) by {
                    assert(entries_with_key(a1, ka)[i] == entries_with_key(a, ka)[i]);
                    assert(entries_with_key(b1, ka)[i] == entries_with_key(b, ka)[i]);
                }
            } else {
                assert(entries_with_key(a1, k) == entries_with_key(a, k));
                assert(entries_with_key(b1, k) == entries_with_key(b, k));
            }
        }
        lemma_sorted_per_key_pointwise(a1, b1);
        assert forall|i: int| 0 <= i < a.len() implies same_entry_data(
            #[trigger] a[i],
            b[i],
        ) by {
            if i < a.len() - 1 {
                assert(same_entry_data(a1[i], b1[i]));
                assert(a1[i] == a[i]);
                assert(b1[i] == b[i]);
            }
        }
    }
}

/// A rebuild is a deterministic function of the content tree: any two entry
/// sequences that the builder can return for one unit list are sorted the
/// same way and present the same entries, pair by pair. The hypotheses are
/// exactly what `Site::build` ensures of a successful build.
pub proof fn lemma_build_deterministic(
    a: Seq<BlogEntry>,
    b: Seq<BlogEntry>,
    units: Seq<ContentUnit>,
    html_dir: Seq<char>,
)
    requires
        sorted_by_created_desc(a),
        sorted_by_created_desc(b),
        forall|k: i64|
            #[trigger] entries_match_units(
                entries_with_key(a, k),
                units_with_key(units, k),
                html_dir,
            ),
        forall|k: i64|
            #[trigger] entries_match_units(
                entries_with_key(b, k),
                units_with_key(units, k),
                html_dir,
            ),
    ensures
        a.len() == b.len(),
        forall|i: int| 0 <= i < a.len() ==> same_entry_data(#[trigger] a[i], b[i]),
{
    assert forall|k: i64| #[trigger] pairwise_same_data(
        entries_with_key(a, k),
        entries_with_key(b, k),
    ) by {
        let ea = entries_with_key(a, k);
        let eb = entries_with_key(b, k);
        let uu = units_with_key(units, k);
        assert(entries_match_units(ea, uu, html_dir));
        assert(entries_match_units(eb, uu, html_dir));
        assert forall|i: int| 0 <= i < ea.len() implies same_entry_data(
            #[trigger] ea[i],
            eb[i],
        ) by {
            lemma_entry_of_unit_functional(ea[i], eb[i], uu[i], html_dir);
        }
    }
    lemma_sorted_per_key_pointwise(a, b);
}

/// An immutable snapshot of the whole site.
#[derive(Debug)]
pub struct Site {
    pub blog_entries: Vec<BlogEntry>,
}

impl Site {
    /// Entries are sorted newest first, slugs are pairwise distinct, and every
    /// entry's timestamps lie in the calendar range.
    pub open spec fn wf(self) -> bool {
        &&& sorted_by_created_desc(self.blog_entries@)
        &&& unique_slugs(self.blog_entries@)
        &&& forall|i: int| 0 <= i < self.blog_entries@.len() ==> self.blog_entries@[i].wf()
    }
}

/// Whether some rendered document stands under the given path.
pub open spec fn handle_in(rendered: Seq<RenderedHtml>, handle: Seq<char>) -> bool {
    exists|j: int| 0 <= j < rendered.len() && (#[trigger] rendered[j]).path@ == handle
}

/// Every entry's rendered-HTML handle names one of the rendered documents.
pub open spec fn handles_covered(entries: Seq<BlogEntry>, rendered: Seq<RenderedHtml>) -> bool {
    forall|i: int|
        0 <= i < entries.len() ==> handle_in(
            rendered,
            (#[trigger] entries[i]).metadata.html_content_file@,
        )
}

/// The result of a successful build: the site snapshot, and the rendered HTML
/// documents to be materialized, one per entry.
#[derive(Debug)]
pub struct BuildOutput {
    pub site: Site,
    pub rendered: Vec<RenderedHtml>,
}

/// Whether some accumulated entry already carries the given slug.
fn contains_slug(entries: &Vec<BlogEntry>, slug: &String) -> (b: bool)
    ensures
        b <==> exists|i: int|
            0 <= i < entries@.len() && entries@[i].metadata.slug@ == slug@,
{
    let mut i: usize = 0;
    while i < entries.len()
        invariant
            i <= entries@.len(),
            forall|j: int| 0 <= j < i ==> entries@[j].metadata.slug@ != slug@,
        decreases entries@.len() - i,
    {
        if entries[i].metadata.slug.eq(slug) {
            return true;
        }
        i += 1;
    }
    false
}

impl Site {
    /// Builds the site model from the given content units; rendered HTML
    /// documents are returned for materialization under the given directory.
    ///
    /// The build is all or nothing: the first malformed or mistyped content
    /// file, stray path or repeated slug rejects the whole build. The
    /// duplicate check is fail-fast, so the first repeated slug in scan order
    /// is the one reported. On success the entries are sorted by creation
    /// time, newest first, entries with equal creation times in scan order,
    /// and every entry's rendered HTML stands in the output.
    pub fn build(units: Vec<ContentUnit>, html_dir: &str) -> (r: Result<BuildOutput, BuildError>)
        ensures
            r is Ok <==> units_ok(units@) && unit_slugs_distinct(units@),
            r matches Ok(out) ==> out.site.wf(),
            r matches Ok(out) ==> out.site.blog_entries@.len() == units@.len(),
            r matches Ok(out) ==> out.rendered@.len() == units@.len(),
            r matches Ok(out) ==> handles_covered(out.site.blog_entries@, out.rendered@),
            r matches Ok(out) ==> forall|k: i64|
                #[trigger] entries_match_units(
                    entries_with_key(out.site.blog_entries@, k),
                    units_with_key(units@, k),
                    html_dir@,
                ),
            (units_ok(units@) && first_dup_at(units@, 0) < units@.len()) ==> (r matches Err(
                BuildError::DuplicateSlug { slug, path },
            ) && slug@ == unit_slug(units@[first_dup_at(units@, 0) as int]) && path@ == units@[
                first_dup_at(units@, 0) as int
            ].path@),
            (forall|u: int|
                0 <= u < units@.len() ==> content_well_formed(units@[u].content@)) ==> !(
            r matches Err(e) && e is MalformedContent),
            r matches Err(e) && e is MalformedContent ==> exists|u: int|
                0 <= u < units@.len() && !content_well_formed(#[trigger] units@[u].content@),
    {
        let mut entries: Vec<BlogEntry> = Vec::new();
        let mut rendered: Vec<RenderedHtml> = Vec::new();
        let mut u: usize = 0;
        while u < units.len()
            invariant
                u <= units@.len(),
                entries@.len() == u,
                rendered@.len() == u,
                forall|i: int| 0 <= i < u ==> unit_ok(#[trigger] units@[i]),
                forall|i: int|
                    0 <= i < u ==> entry_of_unit(#[trigger] entries@[i], units@[i], html_dir@),
                forall|i: int, j: int|
                    0 <= i < j < u ==> unit_slug(units@[i]) != unit_slug(units@[j]),
                unique_slugs(entries@),
                forall|i: int|
                    0 <= i < entries@.len() ==> (#[trigger] entries@[i]).metadata.html_content_file@
                        == rendered@[i].path@,
            decreases units@.len() - u,
        {
            match parse_entry_dir(&units[u], html_dir) {
                Ok((entry, rh)) => {
                    if contains_slug(&entries, &entry.metadata.slug) {
                        proof {
                            let i = choose|i: int|
                                0 <= i < entries@.len() && entries@[i].metadata.slug@
                                    == entry.metadata.slug@;
                            assert(unit_slug(units@[i]) == unit_slug(units@[u as int]));
                            lemma_first_dup_found(units@, 0, u as int);
                            assert(!unit_slugs_distinct(units@));
                        }
                        return Err(
                            BuildError::DuplicateSlug {
                                slug: entry.metadata.slug,
                                path: units[u].path.clone(),
                            },
                        );
                    }
                    proof {
                        assert(forall|i: int|
                            0 <= i < u ==> entries@[i].metadata.slug@ != entry.metadata.slug@);
                        assert(entry.metadata.slug@ == unit_slug(units@[u as int]));
                        assert forall|i: int| 0 <= i < u implies unit_slug(units@[i]) != unit_slug(
                            units@[u as int],
                        ) by {
                            assert(entry_of_unit(entries@[i], units@[i], html_dir@));
                            assert(entries@[i].metadata.slug@ == unit_slug(units@[i]));
                        }
                        assert(forall|i: int, j: int|
                            0 <= i < j < entries@.push(entry).len()
                                ==> entries@.push(entry)[i].metadata.slug@ != entries@.push(
                                entry,
                            )[j].metadata.slug@);
                    }
                    entries.push(entry);
                    rendered.push(rh);
                },
                Err(e) => {
                    proof {
                        assert(!unit_ok(units@[u as int]));
                        assert(!units_ok(units@));
                    }
                    return Err(e);
                },
            }
            u += 1;
        }
        let ghost unsorted = entries@;
        let sorted = sort_entries_by_created_at(entries);
        proof {
            broadcast use vstd::seq_lib::group_to_multiset_ensures;

            lemma_first_dup_none(units@, 0);
            assert(entries_match_units(unsorted, units@, html_dir@));
            assert forall|k: i64| #[trigger] entries_match_units(
                entries_with_key(sorted@, k),
                units_with_key(units@, k),
                html_dir@,
            ) by {
                lemma_match_filter(unsorted, units@, html_dir@, k);
                assert(entries_with_key(sorted@, k) == entries_with_key(unsorted, k));
            }
            lemma_unique_slugs_preserved(unsorted, sorted@);
            assert forall|i: int| 0 <= i < sorted@.len() implies (#[trigger] sorted@[i]).wf() by {
                assert(sorted@.contains(sorted@[i]));
                assert(sorted@.to_multiset().count(sorted@[i]) > 0);
                assert(unsorted.to_multiset().count(sorted@[i]) > 0);
                assert(unsorted.contains(sorted@[i]));
                let j = unsorted.lemma_contains_to_index(sorted@[i]);
            }
            assert forall|i: int| 0 <= i < sorted@.len() implies handle_in(
                rendered@,
                (#[trigger] sorted@[i]).metadata.html_content_file@,
            ) by {
                assert(sorted@.contains(sorted@[i]));
                assert(sorted@.to_multiset().count(sorted@[i]) > 0);
                assert(unsorted.to_multiset().count(sorted@[i]) > 0);
                assert(unsorted.contains(sorted@[i]));
                let j = unsorted.lemma_contains_to_index(sorted@[i]);
                assert(0 <= j < rendered@.len() && rendered@[j].path@
                    == sorted@[i].metadata.html_content_file@);
            }
            assert(handles_covered(sorted@, rendered@));
        }
        Ok(BuildOutput { site: Site { blog_entries: sorted }, rendered })
    }
}

/// The first index at or after `j` whose entry carries the given slug, or the
/// number of entries when none does.
pub open spec fn first_slug_index_at(s: Seq<BlogEntry>, slug: Seq<char>, j: nat) -> nat
    decreases s.len() - j,
{
    if j >= s.len() {
        s.len()
    } else if s[j as int].metadata.slug@ == slug {
        j
    } else {
        first_slug_index_at(s, slug, j + 1)
    }
}

/// The position of the entry with the given slug, or the number of entries
/// when no entry carries it.
pub open spec fn first_slug_index(s: Seq<BlogEntry>, slug: Seq<char>) -> nat {
    first_slug_index_at(s, slug, 0)
}

pub proof fn lemma_first_slug_found(s: Seq<BlogEntry>, slug: Seq<char>, a: int, j: int)
    requires
        0 <= a <= j < s.len(),
        s[j].metadata.slug@ == slug,
        forall|k: int| a <= k < j ==> s[k].metadata.slug@ != slug,
    ensures
        first_slug_index_at(s, slug, a as nat) == j,
    decreases j - a,
{
    if a < j {
        lemma_first_slug_found(s, slug, a + 1, j);
    }
}

pub proof fn lemma_first_slug_none(s: Seq<BlogEntry>, slug: Seq<char>, a: int)
    requires
        0 <= a <= s.len(),
        forall|k: int| a <= k < s.len() ==> s[k].metadata.slug@ != slug,
    ensures
        first_slug_index_at(s, slug, a as nat) == s.len(),
    decreases s.len() - a,
{
    if a < s.len() {
        lemma_first_slug_none(s, slug, a + 1);
    }
}

impl Site {
    /// Finds the entry carrying the given slug, if any; slugs are the
    /// entries' stable identifiers.
    pub fn entry_by_slug(&self, slug: &String) -> (r: Option<&BlogEntry>)
        ensures
            ({
                let idx = first_slug_index(self.blog_entries@, slug@) as int;
                &&& (r is Some <==> idx < self.blog_entries@.len())
                &&& (r matches Some(e) ==> *e == self.blog_entries@[idx])
            }),
    {
        let n = self.blog_entries.len();
        let mut i: usize = 0;
        while i < n
            invariant
                i <= n,
                n == self.blog_entries@.len(),
                forall|k: int| 0 <= k < i ==> self.blog_entries@[k].metadata.slug@ != slug@,
            decreases n - i,
        {
            if self.blog_entries[i].metadata.slug.eq(slug) {
                proof {
                    lemma_first_slug_found(self.blog_entries@, slug@, 0, i as int);
                }
                return Some(&self.blog_entries[i]);
            }
            i += 1;
        }
        proof {
            lemma_first_slug_none(self.blog_entries@, slug@, 0);
        }
        None
    }
}

/// The first index at or after `j` whose associated file stands under the
/// given relative path, or the number of files when none does.
pub open spec fn first_assoc_index_at(fs: Seq<AssociatedFile>, rel: Seq<char>, j: nat) -> nat
    decreases fs.len() - j,
{
    if j >= fs.len() {
        fs.len()
    } else if fs[j as int].relative_path@ == rel {
        j
    } else {
        first_assoc_index_at(fs, rel, j + 1)
    }
}

proof fn lemma_first_assoc_found(fs: Seq<AssociatedFile>, rel: Seq<char>, a: int, j: int)
    requires
        0 <= a <= j < fs.len(),
        fs[j].relative_path@ == rel,
        forall|k: int| a <= k < j ==> fs[k].relative_path@ != rel,
    ensures
        first_assoc_index_at(fs, rel, a as nat) == j,
    decreases j - a,
{
    if a < j {
        lemma_first_assoc_found(fs, rel, a + 1, j);
    }
}

proof fn lemma_first_assoc_none(fs: Seq<AssociatedFile>, rel: Seq<char>, a: int)
    requires
        0 <= a <= fs.len(),
        forall|k: int| a <= k < fs.len() ==> fs[k].relative_path@ != rel,
    ensures
        first_assoc_index_at(fs, rel, a as nat) == fs.len(),
    decreases fs.len() - a,
{
    if a < fs.len() {
        lemma_first_assoc_none(fs, rel, a + 1);
    }
}

impl PageMetadata {
    /// Finds the associated file stored under the given relative path, if any.
    pub fn associated_file_by_relative_path(&self, rel: &String) -> (r: Option<&AssociatedFile>)
        ensures
            ({
                let idx = first_assoc_index_at(self.associated_files@, rel@, 0) as int;
                &&& (r is Some <==> idx < self.associated_files@.len())
                &&& (r matches Some(f) ==> *f == self.associated_files@[idx])
            }),
    {
        let n = self.associated_files.len();
        let mut i: usize = 0;
        while i < n
            invariant
                i <= n,
                n == self.associated_files@.len(),
                forall|k: int| 0 <= k < i ==> self.associated_files@[k].relative_path@ != rel@,
            decreases n - i,
        {
            if self.associated_files[i].relative_path.eq(rel) {
                proof {
                    lemma_first_assoc_found(self.associated_files@, rel@, 0, i as int);
                }
                return Some(&self.associated_files[i]);
            }
            i += 1;
        }
        proof {
            lemma_first_assoc_none(self.associated_files@, rel@, 0);
        }
        None
    }
}

} // verus!
