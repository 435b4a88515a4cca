//! Presentation-ready projections of a `Site` snapshot: pagination math,
//! recent-entry lists, tag indexes and neighbor lookup.

use vstd::prelude::*;

use crate::datetime::{format_datetime, spec_format_datetime};
use crate::site::{first_slug_index, lemma_first_slug_found, lemma_first_slug_none, BlogEntry, Site};
use crate::text::{lemma_lex_trans, lemma_lex_trichotomy, lex_lt, str_lex_lt};

verus! {

/// Number of entries shown on one page of the blog index and of a tag view.
pub const PAGE_SIZE: usize = 10;

/// Number of entries shown on the front page.
pub const RECENT_BLOG_ENTRIES_LIMIT: usize = 5;

/// Page links surrounding a 1-based `current_page`: the previous page number
/// (`None` on the first page) and the next page number (`None` when no entry
/// lies beyond the current page).
pub fn calculate_pages(
    current_page: usize,
    start_index: usize,
    total_size: usize,
    page_size: usize,
) -> (r: (Option<usize>, Option<usize>))
    requires
        current_page >= 1,
        page_size >= 1,
        start_index as int == (current_page - 1) * page_size,
    ensures
        r.0 == (if current_page == 1 {
            None::<usize>
        } else {
            Some((current_page - 1) as usize)
        }),
        r.1 == (if total_size > start_index + page_size {
            Some((current_page + 1) as usize)
        } else {
            None::<usize>
        }),
{
    let previous_page = if current_page == 1 {
        None
    } else {
        Some(current_page - 1)
    };

    let next_page = match start_index.checked_add(page_size) {
        Some(end) => {
            if total_size > end {
                proof {
                    assert((current_page - 1) * page_size >= current_page - 1)
                        by (nonlinear_arith)
                        requires
                            page_size >= 1,
                            current_page >= 1,
                    ;
                }
                Some(current_page + 1)
            } else {
                None
            }
        },
        None => None,
    };

    (previous_page, next_page)
}

/// Copies a vector of strings, keeping every element's value.
fn clone_strings(v: &Vec<String>) -> (r: Vec<String>)
    ensures
        r@ == v@,
{
    let mut r: Vec<String> = Vec::new();
    let mut i: usize = 0;
    while i < v.len()
        invariant
            i <= v@.len(),
            r@ == v@.subrange(0, i as int),
        decreases v@.len() - i,
    {
        let s = v[i].clone();
        proof {
            assert(v@.subrange(0, i + 1) =~= v@.subrange(0, i as int).push(v@[i as int]));
        }
        r.push(s);
        i += 1;
    }
    proof {
        assert(v@.subrange(0, v@.len() as int) =~= v@);
    }
    r
}

/// A compact projection of one blog entry for lists of entries.
pub struct BlogEntryStub {
    pub title: String,
    pub tags: Vec<String>,
    pub url: String,
    pub created_at: String,
}

/// Whether a stub presents the given entry: same title and tags, the entry's
/// URL derived from its slug, and the creation date in its readable form.
pub open spec fn is_stub_of(s: BlogEntryStub, e: BlogEntry) -> bool {
    &&& s.title@ == e.title@
    &&& s.tags@ == e.tags@
    &&& s.url@ == "/blog/"@ + e.metadata.slug@
    &&& s.created_at@ == spec_format_datetime(e.created_at.secs as int)
}

impl BlogEntry {
    /// Builds a `BlogEntryStub` that represents this `BlogEntry`.
    fn to_stub(&self) -> (r: BlogEntryStub)
        requires
            self.wf(),
        ensures
            is_stub_of(r, *self),
    {
        let mut url = String::from_str("/blog/");
        url.append(self.metadata.slug.as_str());
        BlogEntryStub {
            title: self.title.clone(),
            tags: clone_strings(&self.tags),
            url,
            created_at: format_datetime(self.created_at),
        }
    }
}

/// Fields shared by the context of every page.
pub struct BaseContext {
    pub title: String,
    pub meta_description: String,
}

/// The context of the index page: the most recent entries.
pub struct IndexContext {
    pub base: BaseContext,
    pub recent_blog_entries: Vec<BlogEntryStub>,
}

impl Site {
    /// Builds the context for the index page: the first entries of the
    /// newest-first sequence, at most `RECENT_BLOG_ENTRIES_LIMIT` of them.
    pub fn build_index_context(&self) -> (r: IndexContext)
        requires
            self.wf(),
        ensures
            r.base.title@ == "The Rotoclone Zone"@,
            r.base.meta_description@ == "It's The Rotoclone Zone"@,
            r.recent_blog_entries@.len() == (if self.blog_entries@.len()
                < RECENT_BLOG_ENTRIES_LIMIT {
                self.blog_entries@.len() as int
            } else {
                RECENT_BLOG_ENTRIES_LIMIT as int
            }),
            forall|i: int|
                0 <= i < r.recent_blog_entries@.len() ==> is_stub_of(
                    #[trigger] r.recent_blog_entries@[i],
                    self.blog_entries@[i],
                ),
    {
        let mut recent_blog_entries: Vec<BlogEntryStub> = Vec::new();
        let n = self.blog_entries.len();
        let limit = if n < RECENT_BLOG_ENTRIES_LIMIT {
            n
        } else {
            RECENT_BLOG_ENTRIES_LIMIT
        };
        let mut i: usize = 0;
        while i < limit
            invariant
                i <= limit,
                limit <= self.blog_entries@.len(),
                self.wf(),
                recent_blog_entries@.len() == i,
                forall|k: int|
                    0 <= k < i ==> is_stub_of(
                        #[trigger] recent_blog_entries@[k],
                        self.blog_entries@[k],
                    ),
            decreases limit - i,
        {
            recent_blog_entries.push(self.blog_entries[i].to_stub());
            i += 1;
        }
        IndexContext {
            base: BaseContext {
                title: String::from_str("The Rotoclone Zone"),
                meta_description: String::from_str("It's The Rotoclone Zone"),
            },
            recent_blog_entries,
        }
    }
}

/// The context of the about page.
pub struct AboutContext {
    pub base: BaseContext,
}

impl Site {
    /// Builds the context for the about page.
    pub fn build_about_context(&self) -> (r: AboutContext)
        ensures
            r.base.title@ == "About The Rotoclone Zone"@,
            r.base.meta_description@ == "It's The Rotoclone Zone"@,
    {
        AboutContext {
            base: BaseContext {
                title: String::from_str("About The Rotoclone Zone"),
                meta_description: String::from_str("It's The Rotoclone Zone"),
            },
        }
    }
}

/// The context of one page of the blog index.
pub struct BlogIndexContext {
    pub base: BaseContext,
    pub entries: Vec<BlogEntryStub>,
    pub previous_page: Option<usize>,
    pub next_page: Option<usize>,
}

impl Site {
    /// Builds the context for the blog index page: the 1-based page `page` of
    /// the newest-first entries, `PAGE_SIZE` entries per page. A page beyond
    /// the end is empty, not an error.
    pub fn build_blog_index_context(&self, page: usize) -> (r: BlogIndexContext)
        requires
            self.wf(),
            page >= 1,
        ensures
            ({
                let src = self.blog_entries@;
                let start = (page - 1) * (PAGE_SIZE as int);
                &&& r.base.title@ == "The Rotoclone Zone Blog"@
                &&& r.base.meta_description@ == "It's The Rotoclone Zone Blog"@
                &&& r.entries@.len() == (if start >= src.len() {
                    0int
                } else if src.len() - start < PAGE_SIZE {
                    src.len() - start
                } else {
                    PAGE_SIZE as int
                })
                &&& (forall|i: int|
                    0 <= i < r.entries@.len() ==> is_stub_of(
                        #[trigger] r.entries@[i],
                        src[start + i],
                    ))
                &&& r.previous_page == (if page == 1 {
                    None::<usize>
                } else {
                    Some((page - 1) as usize)
                })
                &&& r.next_page == (if src.len() > start + PAGE_SIZE {
                    Some((page + 1) as usize)
                } else {
                    None::<usize>
                })
            }),
    {
        let base = BaseContext {
            title: String::from_str("The Rotoclone Zone Blog"),
            meta_description: String::from_str("It's The Rotoclone Zone Blog"),
        };
        let n = self.blog_entries.len();
        match (page - 1).checked_mul(PAGE_SIZE) {
            Some(start) => {
                let mut entries: Vec<BlogEntryStub> = Vec::new();
                let mut i: usize = start;
                while i < n && i - start < PAGE_SIZE
                    invariant
                        start <= i,
                        i <= n || i == start,
                        n == self.blog_entries@.len(),
                        i - start <= PAGE_SIZE,
                        i <= start + PAGE_SIZE,
                        self.wf(),
                        entries@.len() == i - start,
                        forall|k: int|
                            0 <= k < entries@.len() ==> is_stub_of(
                                #[trigger] entries@[k],
                                self.blog_entries@[start + k],
                            ),
                    decreases n + PAGE_SIZE - i,
                {
                    entries.push(self.blog_entries[i].to_stub());
                    i += 1;
                }
                let (previous_page, next_page) = calculate_pages(page, start, n, PAGE_SIZE);
                BlogIndexContext { base, entries, previous_page, next_page }
            },
            None => {
                // The page number is so large that even its start index
                // overflows: the slice is empty and nothing follows it.
                proof {
                    assert(page != 1);
                    assert((page - 1) * (PAGE_SIZE as int) >= page - 1) by (nonlinear_arith)
                        requires
                            page >= 1,
                    ;
                }
                BlogIndexContext {
                    base,
                    entries: Vec::new(),
                    previous_page: Some(page - 1),
                    next_page: None,
                }
            },
        }
    }
}

/// Builds stubs for the entries standing immediately before and after the
/// entry with the given slug in the newest-first sequence; the entry is found
/// by its slug, not by structural equality.
pub fn stubs_for_surrounding_entries(entries: &Vec<BlogEntry>, slug: &String) -> (r: (
    Option<BlogEntryStub>,
    Option<BlogEntryStub>,
))
    requires
        forall|i: int| 0 <= i < entries@.len() ==> (#[trigger] entries@[i]).wf(),
    ensures
        ({
            let idx = first_slug_index(entries@, slug@) as int;
            let n = entries@.len() as int;
            &&& (idx == n ==> r == (None::<BlogEntryStub>, None::<BlogEntryStub>))
            &&& (idx < n && idx == 0 ==> r.0 is None)
            &&& (idx < n && idx > 0 ==> (r.0 matches Some(s) && is_stub_of(s, entries@[idx - 1])))
            &&& (idx < n && idx == n - 1 ==> r.1 is None)
            &&& (idx < n && idx < n - 1 ==> (r.1 matches Some(s) && is_stub_of(
                s,
                entries@[idx + 1],
            )))
        }),
{
    let n = entries.len();
    let mut i: usize = 0;
    while i < n
        invariant
            i <= n,
            n == entries@.len(),
            forall|k: int| 0 <= k < entries@.len() ==> (#[trigger] entries@[k]).wf(),
            forall|k: int| 0 <= k < i ==> entries@[k].metadata.slug@ != slug@,
        decreases n - i,
    {
        if entries[i].metadata.slug.eq(slug) {
            proof {
                lemma_first_slug_found(entries@, slug@, 0, i as int);
            }
            let previous = if i == 0 {
                None
            } else {
                Some(entries[i - 1].to_stub())
            };
            let next = if i == n - 1 {
                None
            } else {
                Some(entries[i + 1].to_stub())
            };
            return (previous, next);
        }
        i += 1;
    }
    proof {
        lemma_first_slug_none(entries@, slug@, 0);
    }
    (None, None)
}

/// The context of one blog entry's page.
pub struct BlogEntryContext {
    pub base: BaseContext,
    pub tags: Vec<String>,
    pub created_at: String,
    pub updated_at: Option<String>,
    pub entry_content: String,
    pub previous_entry: Option<BlogEntryStub>,
    pub next_entry: Option<BlogEntryStub>,
}

impl Site {
    /// Builds the context for one blog entry's page from the entry and the
    /// text of its materialized HTML. The previous entry is the next older
    /// one (higher index in the newest-first sequence), the next entry the
    /// next newer one.
    pub fn build_blog_entry_context(&self, entry: &BlogEntry, entry_content: String) -> (r:
        BlogEntryContext)
        requires
            self.wf(),
            entry.wf(),
        ensures
            r.base.title@ == entry.title@,
            r.base.meta_description@ == entry.title@,
            r.tags@ == entry.tags@,
            r.created_at@ == spec_format_datetime(entry.created_at.secs as int),
            (entry.updated_at matches Some(t) ==> (r.updated_at matches Some(u) && u@
                == spec_format_datetime(t.secs as int))),
            entry.updated_at is None ==> r.updated_at is None,
            r.entry_content == entry_content,
            ({
                let idx = first_slug_index(self.blog_entries@, entry.metadata.slug@) as int;
                let n = self.blog_entries@.len() as int;
                &&& (idx == n ==> r.previous_entry is None && r.next_entry is None)
                &&& (idx < n && idx < n - 1 ==> (r.previous_entry matches Some(s) && is_stub_of(
                    s,
                    self.blog_entries@[idx + 1],
                )))
                &&& (idx < n && idx == n - 1 ==> r.previous_entry is None)
                &&& (idx < n && idx > 0 ==> (r.next_entry matches Some(s) && is_stub_of(
                    s,
                    self.blog_entries@[idx - 1],
                )))
                &&& (idx < n && idx == 0 ==> r.next_entry is None)
            }),
    {
        // The entries are sorted newest first, so the entry before this one in
        // the sequence is the next entry chronologically.
        let (next_entry, previous_entry) = stubs_for_surrounding_entries(
            &self.blog_entries,
            &entry.metadata.slug,
        );

        let updated_at = match &entry.updated_at {
            Some(t) => Some(format_datetime(*t)),
            None => None,
        };

        BlogEntryContext {
            base: BaseContext {
                title: entry.title.clone(),
                meta_description: entry.title.clone(),
            },
            tags: clone_strings(&entry.tags),
            created_at: format_datetime(entry.created_at),
            updated_at,
            entry_content,
            previous_entry,
            next_entry,
        }
    }
}

/// Whether the text stands among the given tags.
pub open spec fn in_tag_list(ts: Seq<String>, t: Seq<char>) -> bool {
    exists|k: int| 0 <= k < ts.len() && (#[trigger] ts[k])@ == t
}

/// Whether the entry carries the tag.
pub open spec fn has_tag(e: BlogEntry, t: Seq<char>) -> bool {
    in_tag_list(e.tags@, t)
}

/// Whether some entry carries the tag.
pub open spec fn site_has_tag(s: Seq<BlogEntry>, t: Seq<char>) -> bool {
    exists|i: int| 0 <= i < s.len() && has_tag(#[trigger] s[i], t)
}

/// Strictly ascending in lexicographic order; in particular free of
/// duplicates.
pub open spec fn strictly_sorted_tags(ts: Seq<String>) -> bool {
    forall|i: int, j: int| 0 <= i < j < ts.len() ==> lex_lt(ts[i]@, ts[j]@)
}

proof fn lemma_in_tag_list_push(ts: Seq<String>, y: String, x: Seq<char>)
    ensures
        in_tag_list(ts.push(y), x) <==> (in_tag_list(ts, x) || y@ == x),
{
    if in_tag_list(ts.push(y), x) {
        let k = choose|k: int| 0 <= k < ts.push(y).len() && ts.push(y)[k]@ == x;
        if k < ts.len() {
            assert(ts[k]@ == x);
        } else {
            assert(y@ == x);
        }
    }
    if in_tag_list(ts, x) {
        let k = choose|k: int| 0 <= k < ts.len() && ts[k]@ == x;
        assert(ts.push(y)[k]@ == x);
    }
    if y@ == x {
        assert(ts.push(y)[ts.len() as int]@ == x);
    }
}

proof fn lemma_site_has_tag_push(s: Seq<BlogEntry>, e: BlogEntry, x: Seq<char>)
    ensures
        site_has_tag(s.push(e), x) <==> (site_has_tag(s, x) || has_tag(e, x)),
{
    if site_has_tag(s.push(e), x) {
        let i = choose|i: int| 0 <= i < s.push(e).len() && has_tag(s.push(e)[i], x);
        if i < s.len() {
            assert(has_tag(s[i], x));
        }
    }
    if site_has_tag(s, x) {
        let i = choose|i: int| 0 <= i < s.len() && has_tag(s[i], x);
        assert(has_tag(s.push(e)[i], x));
    }
    if has_tag(e, x) {
        assert(has_tag(s.push(e)[s.len() as int], x));
    }
}

/// Inserts a tag into a strictly sorted list at its place, unless it is
/// already present.
fn insert_tag_sorted(tags: &mut Vec<String>, t: &String)
    requires
        strictly_sorted_tags(old(tags)@),
    ensures
        strictly_sorted_tags(final(tags)@),
        forall|x: Seq<char>|
            #[trigger] in_tag_list(final(tags)@, x) <==> (in_tag_list(old(tags)@, x) || x == t@),
{
    let n = tags.len();
    let mut p: usize = 0;
    while p < n && str_lex_lt(&tags[p], t)
        invariant
            p <= n,
            n == tags@.len(),
            strictly_sorted_tags(tags@),
            forall|k: int| 0 <= k < p ==> lex_lt(tags@[k]@, t@),
        decreases n - p,
    {
        p += 1;
    }
    if p < n && tags[p].eq(t) {
        // Already present: leave the list as it is.
        proof {
            assert forall|x: Seq<char>| #[trigger] in_tag_list(tags@, x) <==> (in_tag_list(
                tags@,
                x,
            ) || x == t@) by {
                if x == t@ {
                    assert(tags@[p as int]@ == x);
                }
            }
        }
    } else {
        let ghost before = tags@;
        proof {
            if p < n {
                lemma_lex_trichotomy(before[p as int]@, t@);
                assert(lex_lt(t@, before[p as int]@));
            }
        }
        tags.insert(p, t.clone());
        proof {
            let after = tags@;
            assert(after == before.insert(p as int, *t));
            before.insert_ensures(p as int, *t);
            assert forall|i: int, j: int| 0 <= i < j < after.len() implies lex_lt(
                after[i]@,
                after[j]@,
            ) by {
                if i < p && j == p {
                    assert(after[i] == before[i]);
                } else if i == p && j > p {
                    assert(after[j] == before[j - 1]);
                    if !lex_lt(before[p as int]@, before[j - 1]@) {
                        assert((p as int) <= j - 1);
                        if (p as int) < j - 1 {
                            assert(lex_lt(before[p as int]@, before[j - 1]@));
                        }
                    }
                    if (p as int) == j - 1 {
                        assert(lex_lt(t@, before[p as int]@));
                    } else {
                        lemma_lex_trans(t@, before[p as int]@, before[j - 1]@);
                    }
                } else if i < p && j > p {
                    assert(after[i] == before[i]);
                    assert(after[j] == before[j - 1]);
                } else if i > p && j > p {
                    assert(after[i] == before[i - 1]);
                    assert(after[j] == before[j - 1]);
                }
            }
            assert forall|x: Seq<char>| #[trigger] in_tag_list(after, x) <==> (in_tag_list(
                before,
                x,
            ) || x == t@) by {
                if in_tag_list(after, x) {
                    let k = choose|k: int| 0 <= k < after.len() && after[k]@ == x;
                    if k < p {
                        assert(before[k]@ == x);
                    } else if k == p {
                        assert(x == t@);
                    } else {
                        assert(before[k - 1]@ == x);
                    }
                }
                if in_tag_list(before, x) {
                    let k = choose|k: int| 0 <= k < before.len() && before[k]@ == x;
                    if k < p {
                        assert(after[k]@ == x);
                    } else {
                        assert(after[k + 1]@ == x);
                    }
                }
                if x == t@ {
                    assert(after[p as int]@ == x);
                }
            }
        }
    }
}

/// The entries of `s` carrying the tag, in their order in `s`.
pub open spec fn entries_with_tag(s: Seq<BlogEntry>, tag: Seq<char>) -> Seq<BlogEntry>
    decreases s.len(),
{
    if s.len() == 0 {
        Seq::<BlogEntry>::empty()
    } else {
        let rest = entries_with_tag(s.drop_last(), tag);
        if has_tag(s.last(), tag) {
            rest.push(s.last())
        } else {
            rest
        }
    }
}

/// Whether this entry carries the given tag.
fn entry_has_tag(e: &BlogEntry, tag: &String) -> (b: bool)
    ensures
        b == has_tag(*e, tag@),
{
    let mut i: usize = 0;
    while i < e.tags.len()
        invariant
            i <= e.tags@.len(),
            forall|k: int| 0 <= k < i ==> (#[trigger] e.tags@[k])@ != tag@,
        decreases e.tags@.len() - i,
    {
        if e.tags[i].eq(tag) {
            return true;
        }
        i += 1;
    }
    false
}

/// The context of one page of the entries carrying one tag.
pub struct BlogTagContext {
    pub base: BaseContext,
    pub tag: String,
    pub entries: Vec<BlogEntryStub>,
    pub previous_page: Option<usize>,
    pub next_page: Option<usize>,
}

impl Site {
    /// Builds the context for a blog tag page: the 1-based page `page` of the
    /// newest-first entries carrying the tag. Returns `None` exactly when no
    /// entry carries the tag; a page beyond the end of a known tag's entries
    /// is present but empty.
    pub fn build_blog_tag_context(&self, tag: String, page: usize) -> (r: Option<BlogTagContext>)
        requires
            self.wf(),
            page >= 1,
        ensures
            ({
                let matching = entries_with_tag(self.blog_entries@, tag@);
                let start = (page - 1) * (PAGE_SIZE as int);
                &&& (r is None <==> matching.len() == 0)
                &&& (r matches Some(c) ==> {
                    &&& c.base.title@ == "The Rotoclone Zone Blog - Posts Tagged "@ + tag@
                    &&& c.base.meta_description@ == "All the posts tagged "@ + tag@
                    &&& c.tag == tag
                    &&& c.entries@.len() == (if start >= matching.len() {
                        0int
                    } else if matching.len() - start < PAGE_SIZE {
                        matching.len() - start
                    } else {
                        PAGE_SIZE as int
                    })
                    &&& (forall|i: int|
                        0 <= i < c.entries@.len() ==> is_stub_of(
                            #[trigger] c.entries@[i],
                            matching[start + i],
                        ))
                    &&& c.previous_page == (if page == 1 {
                        None::<usize>
                    } else {
                        Some((page - 1) as usize)
                    })
                    &&& c.next_page == (if matching.len() > start + PAGE_SIZE {
                        Some((page + 1) as usize)
                    } else {
                        None::<usize>
                    })
                })
            }),
    {
        let ghost src = self.blog_entries@;
        let n = self.blog_entries.len();
        let mut sel: Vec<usize> = Vec::new();
        let mut i: usize = 0;
        proof {
            assert(src.subrange(0, 0) =~= Seq::<BlogEntry>::empty());
        }
        while i < n
            invariant
                i <= n,
                n == src.len(),
                src == self.blog_entries@,
                self.wf(),
                sel@.len() == entries_with_tag(src.subrange(0, i as int), tag@).len(),
                forall|k: int|
                    0 <= k < sel@.len() ==> (#[trigger] sel@[k]) < i && src[sel@[k] as int]
                        == entries_with_tag(src.subrange(0, i as int), tag@)[k],
            decreases n - i,
        {
            let ghost prefix = src.subrange(0, i as int);
            let ghost prefix1 = src.subrange(0, i + 1);
            proof {
                assert(prefix1.drop_last() =~= prefix);
                assert(prefix1.last() == src[i as int]);
            }
            if entry_has_tag(&self.blog_entries[i], &tag) {
                sel.push(i);
            }
            i += 1;
        }
        proof {
            assert(src.subrange(0, n as int) =~= src);
        }
        let ghost matching = entries_with_tag(src, tag@);

        let total = sel.len();
        if total == 0 {
            return None;
        }

        let base = BaseContext {
            title: {
                let mut t = String::from_str("The Rotoclone Zone Blog - Posts Tagged ");
                t.append(tag.as_str());
                t
            },
            meta_description: {
                let mut d = String::from_str("All the posts tagged ");
                d.append(tag.as_str());
                d
            },
        };

        match (page - 1).checked_mul(PAGE_SIZE) {
            Some(start) => {
                let mut entries: Vec<BlogEntryStub> = Vec::new();
                let mut k: usize = start;
                while k < total && k - start < PAGE_SIZE
                    invariant
                        start <= k,
                        k <= total || k == start,
                        k <= start + PAGE_SIZE,
                        total == sel@.len(),
                        n == src.len(),
                        src == self.blog_entries@,
                        self.wf(),
                        matching == entries_with_tag(src, tag@),
                        sel@.len() == matching.len(),
                        forall|q: int|
                            0 <= q < sel@.len() ==> (#[trigger] sel@[q]) < n && src[sel@[q] as int]
                                == matching[q],
                        entries@.len() == k - start,
                        forall|q: int|
                            0 <= q < entries@.len() ==> is_stub_of(
                                #[trigger] entries@[q],
                                matching[start + q],
                            ),
                    decreases total + PAGE_SIZE - k,
                {
                    let idx = sel[k];
                    entries.push(self.blog_entries[idx].to_stub());
                    k += 1;
                }
                let (previous_page, next_page) = calculate_pages(page, start, total, PAGE_SIZE);
                Some(BlogTagContext { base, tag, entries, previous_page, next_page })
            },
            None => {
                proof {
                    assert(page != 1);
                    assert((page - 1) * (PAGE_SIZE as int) >= page - 1) by (nonlinear_arith)
                        requires
                            page >= 1,
                    ;
                }
                Some(
                    BlogTagContext {
                        base,
                        tag,
                        entries: Vec::new(),
                        previous_page: Some(page - 1),
                        next_page: None,
                    },
                )
            },
        }
    }
}

/// The context of the page listing every tag.
pub struct BlogTagsContext {
    pub base: BaseContext,
    pub tags: Vec<String>,
}

impl Site {
    /// Builds the context for the page of all the blog tags: the union of the
    /// entries' tags, deduplicated and sorted ascending.
    pub fn build_blog_tags_context(&self) -> (r: BlogTagsContext)
        requires
            self.wf(),
        ensures
            r.base.title@ == "The Rotoclone Zone Blog - All Tags"@,
            r.base.meta_description@ == "All the tags"@,
            strictly_sorted_tags(r.tags@),
            forall|x: Seq<char>|
                #[trigger] in_tag_list(r.tags@, x) <==> site_has_tag(self.blog_entries@, x),
    {
        let mut tags: Vec<String> = Vec::new();
        let n = self.blog_entries.len();
        let mut i: usize = 0;
        proof {
            assert(self.blog_entries@.subrange(0, 0) =~= Seq::<BlogEntry>::empty());
            assert forall|x: Seq<char>| #[trigger] in_tag_list(tags@, x) <==> site_has_tag(
                self.blog_entries@.subrange(0, 0),
                x,
            ) by {
                assert(!in_tag_list(tags@, x));
                assert(!site_has_tag(self.blog_entries@.subrange(0, 0), x));
            }
        }
        while i < n
            invariant
                i <= n,
                n == self.blog_entries@.len(),
                strictly_sorted_tags(tags@),
                forall|x: Seq<char>|
                    #[trigger] in_tag_list(tags@, x) <==> site_has_tag(
                        self.blog_entries@.subrange(0, i as int),
                        x,
                    ),
            decreases n - i,
        {
            let entry_tags = &self.blog_entries[i].tags;
            let m = entry_tags.len();
            let mut j: usize = 0;
            while j < m
                invariant
                    j <= m,
                    i < n,
                    n == self.blog_entries@.len(),
                    m == entry_tags@.len(),
                    entry_tags == &self.blog_entries@[i as int].tags,
                    strictly_sorted_tags(tags@),
                    forall|x: Seq<char>|
                        #[trigger] in_tag_list(tags@, x) <==> (site_has_tag(
                            self.blog_entries@.subrange(0, i as int),
                            x,
                        ) || in_tag_list(entry_tags@.subrange(0, j as int), x)),
                decreases m - j,
            {
                let ghost tags_before = tags@;
                insert_tag_sorted(&mut tags, &entry_tags[j]);
                proof {
                    assert(entry_tags@.subrange(0, j + 1) =~= entry_tags@.subrange(
                        0,
                        j as int,
                    ).push(entry_tags@[j as int]));
                    assert forall|x: Seq<char>| #[trigger] in_tag_list(tags@, x) <==> (
                    site_has_tag(self.blog_entries@.subrange(0, i as int), x) || in_tag_list(
                        entry_tags@.subrange(0, j + 1),
                        x,
                    )) by {
                        lemma_in_tag_list_push(
                            entry_tags@.subrange(0, j as int),
                            entry_tags@[j as int],
                            x,
                        );
                        assert(in_tag_list(tags@, x) <==> (in_tag_list(tags_before, x) || x
                            == entry_tags@[j as int]@));
                    }
                }
                j += 1;
            }
            proof {
                assert(entry_tags@.subrange(0, m as int) =~= entry_tags@);
                assert(self.blog_entries@.subrange(0, i + 1) =~= self.blog_entries@.subrange(
                    0,
                    i as int,
                ).push(self.blog_entries@[i as int]));
                assert forall|x: Seq<char>| #[trigger] in_tag_list(tags@, x) <==> site_has_tag(
                    self.blog_entries@.subrange(0, i + 1),
                    x,
                ) by {
                    lemma_site_has_tag_push(
                        self.blog_entries@.subrange(0, i as int),
                        self.blog_entries@[i as int],
                        x,
                    );
                }
            }
            i += 1;
        }
        proof {
            assert(self.blog_entries@.subrange(0, n as int) =~= self.blog_entries@);
        }
        BlogTagsContext {
            base: BaseContext {
                title: String::from_str("The Rotoclone Zone Blog - All Tags"),
                meta_description: String::from_str("All the tags"),
            },
            tags,
        }
    }
}

/// The context of an error page.
pub struct ErrorContext {
    pub base: BaseContext,
    pub header: String,
    pub message: String,
}

} // verus!
