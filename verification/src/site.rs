//! The public page-markdown endpoint: the site, as an agent reads it.
//!
//! `GET /md/{section}/{slug}.md` returns a page's source markdown. The hub's
//! `fetch_site_page` tool builds URLs of exactly this shape, so what an agent
//! can reach is decided here, by what parses, rather than by whatever URL a
//! model composes. Anything outside the grammar is the same 404 a missing page
//! gets.
use vstd::prelude::*;

use crate::text::{chars_eq, chars_of, push_chars, push_str, split, split_chars, trim_end};

verus! {

/// The longest slug a path may name.
pub const MAX_SLUG: usize = 200;

/// The sections a path may name; everything else 404s, including sections
/// that exist in the store but are not meant to be listed here.
pub open spec fn is_section(s: Seq<char>) -> bool {
    s == "documentation"@ || s == "blog"@
}

pub open spec fn is_slug_char(c: char) -> bool {
    ('a' <= c && c <= 'z') || ('0' <= c && c <= '9') || c == '-'
}

/// One slug segment: lowercase ASCII letters, digits and hyphens, at least one.
pub open spec fn valid_segment_spec(segment: Seq<char>) -> bool {
    segment.len() > 0 && forall|i: int| 0 <= i < segment.len() ==> is_slug_char(#[trigger] segment[i])
}

/// The first occurrence of `c` at or after `i`.
pub open spec fn index_from(s: Seq<char>, c: char, i: int) -> Option<int>
    decreases s.len() - i,
{
    if i < 0 || i >= s.len() {
        None
    } else if s[i] == c {
        Some(i)
    } else {
        index_from(s, c, i + 1)
    }
}

/// A `{section}/{slug}.md` path split into its validated halves: the part
/// before the first `/` must be a listed section, and the rest a slug of at
/// most [`MAX_SLUG`] characters made of valid `/`-separated segments.
pub open spec fn md_path_spec(path: Seq<char>) -> Option<(Seq<char>, Seq<char>)> {
    if path.len() < 3 || path.skip(path.len() - 3) != ".md"@ {
        None
    } else {
        let p = path.take(path.len() - 3);
        match index_from(p, '/', 0) {
            None => None,
            Some(k) => {
                let section = p.take(k);
                let slug = p.skip(k + 1);
                if !is_section(section) {
                    None
                } else if slug.len() > MAX_SLUG || !(forall|i: int|
                    0 <= i < split(slug, '/').len() ==> valid_segment_spec(
                        #[trigger] split(slug, '/')[i],
                    )) {
                    None
                } else {
                    Some((section, slug))
                }
            },
        }
    }
}

proof fn lemma_index_from_props(s: Seq<char>, c: char, i: int)
    requires
        0 <= i,
    ensures
        match index_from(s, c, i) {
            Some(j) => i <= j < s.len() && s[j] == c && forall|t: int| i <= t < j ==> s[t] != c,
            None => forall|t: int| i <= t < s.len() ==> s[t] != c,
        },
    decreases s.len() - i,
{
    if i < s.len() && s[i] != c {
        lemma_index_from_props(s, c, i + 1);
    }
}

proof fn lemma_index_from_first(s: Seq<char>, c: char, i: int, j: int)
    requires
        0 <= i <= j < s.len(),
        s[j] == c,
        forall|t: int| i <= t < j ==> s[t] != c,
    ensures
        index_from(s, c, i) == Some(j),
    decreases j - i,
{
    if i < j {
        lemma_index_from_first(s, c, i + 1, j);
    }
}

/// Whether `section` and `slug` make a page path: a listed section, and a
/// slug of at most [`MAX_SLUG`] characters whose `/`-separated segments are
/// all valid.
pub open spec fn names_a_page(section: Seq<char>, slug: Seq<char>) -> bool {
    &&& is_section(section)
    &&& slug.len() <= MAX_SLUG
    &&& forall|i: int| 0 <= i < split(slug, '/').len() ==> valid_segment_spec(#[trigger] split(slug, '/')[i])
}

/// A path and the page it names go both ways: the path built from a valid
/// section and slug parses back to exactly them, and any path that parses is
/// exactly `{section}/{slug}.md` for a valid section and slug.
pub proof fn law_page_paths_round_trip(section: Seq<char>, slug: Seq<char>, path: Seq<char>)
    ensures
        names_a_page(section, slug) ==> md_path_spec(section + "/"@ + slug + ".md"@) == Some((section, slug)),
        md_path_spec(path) matches Some((s, g)) ==> path == s + "/"@ + g + ".md"@ && names_a_page(s, g),
{
    reveal_strlit(".md");
    reveal_strlit("/");
    reveal_strlit("documentation");
    reveal_strlit("blog");
    if names_a_page(section, slug) {
        let full = section + "/"@ + slug + ".md"@;
        let t = section + "/"@ + slug;
        assert(full.skip(full.len() - 3) =~= ".md"@);
        assert(full.take(full.len() - 3) =~= t);
        assert forall|x: int| 0 <= x < section.len() implies t[x] != '/' by {
            assert(t[x] == section[x]);
        }
        assert(t[section.len() as int] == '/');
        lemma_index_from_first(t, '/', 0, section.len() as int);
        assert(t.take(section.len() as int) =~= section);
        assert(t.skip(section.len() as int + 1) =~= slug);
    }
    if md_path_spec(path) is Some {
        let t = path.take(path.len() - 3);
        lemma_index_from_props(t, '/', 0);
        let k = index_from(t, '/', 0)->0;
        assert(t =~= t.take(k) + "/"@ + t.skip(k + 1));
        assert(path =~= t + path.skip(path.len() - 3));
    }
}

fn valid_segment(segment: &Vec<char>) -> (b: bool)
    ensures
        b == valid_segment_spec(segment@),
{
    if segment.len() == 0 {
        return false;
    }
    let mut i: usize = 0;
    while i < segment.len()
        invariant
            i <= segment.len(),
            forall|j: int| 0 <= j < i ==> is_slug_char(#[trigger] segment@[j]),
        decreases segment.len() - i,
    {
        let c = segment[i];
        if !(('a' <= c && c <= 'z') || ('0' <= c && c <= '9') || c == '-') {
            return false;
        }
        i = i + 1;
    }
    true
}

fn same_text(a: &Vec<char>, lit: &str) -> (b: bool)
    ensures
        b == (a@ == lit@),
{
    let l = chars_of(lit);
    chars_eq(a, &l)
}

/// The section and slug a `{section}/{slug}.md` path names, or `None` for
/// anything outside that grammar: `..`, absolute paths, uppercase, empty
/// segments, unknown sections.
pub fn parse_md_path<'a>(path: &'a str) -> (r: Option<(&'a str, &'a str)>)
    ensures
        match r {
            Some((section, slug)) => md_path_spec(path@) == Some((section@, slug@)),
            None => md_path_spec(path@) is None,
        },
{
    let cs = chars_of(path);
    let n = cs.len();
    if n < 3 || !(cs[n - 3] == '.' && cs[n - 2] == 'm' && cs[n - 1] == 'd') {
        proof {
            reveal_strlit(".md");
            if n >= 3 {
                assert(path@.skip(n - 3)[0] == cs@[n - 3]);
                assert(path@.skip(n - 3)[1] == cs@[n - 2]);
                assert(path@.skip(n - 3)[2] == cs@[n - 1]);
            }
        }
        return None;
    }
    proof {
        reveal_strlit(".md");
        assert(path@.skip(n - 3) =~= ".md"@);
    }
    let m = n - 3;
    let ghost p = path@.take(m as int);
    let mut k: usize = 0;
    while k < m && cs[k] != '/'
        invariant
            k <= m,
            m + 3 == n,
            n == cs.len(),
            cs@ == path@,
            p == path@.take(m as int),
            index_from(p, '/', 0) == index_from(p, '/', k as int),
        decreases m - k,
    {
        k = k + 1;
    }
    if k == m {
        return None;
    }
    let section = path.substring_char(0, k);
    let slug = path.substring_char(k + 1, m);
    assert(section@ =~= p.take(k as int));
    assert(slug@ =~= p.skip(k + 1));
    let sc = chars_of(section);
    if !(same_text(&sc, "documentation") || same_text(&sc, "blog")) {
        return None;
    }
    let gc = chars_of(slug);
    let segments = split_chars(&gc, '/');
    assert(index_from(p, '/', 0) == Some(k as int));
    assert(md_path_spec(path@) == (if slug@.len() > MAX_SLUG || !(forall|j: int|
        0 <= j < split(slug@, '/').len() ==> valid_segment_spec(#[trigger] split(slug@, '/')[j])) {
        None
    } else {
        Some((section@, slug@))
    }));
    let mut i: usize = 0;
    while i < segments.len()
        invariant
            i <= segments.len(),
            segments.len() == split(slug@, '/').len(),
            gc@ == slug@,
            md_path_spec(path@) == (if slug@.len() > MAX_SLUG || !(forall|j: int|
                0 <= j < split(slug@, '/').len() ==> valid_segment_spec(
                    #[trigger] split(slug@, '/')[j],
                )) {
                None
            } else {
                Some((section@, slug@))
            }),
            forall|j: int| 0 <= j < segments.len() ==> #[trigger] segments[j]@ == split(slug@, '/')[j],
            forall|j: int| 0 <= j < i ==> valid_segment_spec(#[trigger] split(slug@, '/')[j]),
        decreases segments.len() - i,
    {
        if !valid_segment(&segments[i]) {
            assert(!valid_segment_spec(split(slug@, '/')[i as int]));
            return None;
        }
        i = i + 1;
    }
    if gc.len() > MAX_SLUG {
        return None;
    }
    Some((section, slug))
}

/// One public page as the index lists it.
pub struct PageEntry {
    pub source_id: String,
    pub slug: String,
    pub title: String,
    pub description: String,
}

/// The index's opening lines.
pub open spec fn index_head() -> Seq<char> {
    "# systemprompt.io — page index\n\nEvery public page of this site, as source markdown. Fetch any entry at its listed path.\n"@
}

/// One page's line: its fetch path (twice, as link text and target), title
/// and description.
pub open spec fn page_line(p: PageEntry) -> Seq<char> {
    let path = "/md/"@ + p.source_id@ + "/"@ + p.slug@ + ".md"@;
    "- ["@ + path + "]("@ + path + ") — **"@ + p.title@ + "** — "@ + p.description@ + "\n"@
}

/// The pages' lines, each section opened by a heading where it differs from
/// the page before (the first page's, where it is not empty).
pub open spec fn index_lines(pages: Seq<PageEntry>) -> Seq<char>
    decreases pages.len(),
{
    if pages.len() == 0 {
        Seq::empty()
    } else {
        let before = pages.drop_last();
        let prev = if before.len() == 0 {
            Seq::<char>::empty()
        } else {
            before.last().source_id@
        };
        let section = pages.last().source_id@;
        index_lines(before) + (if section != prev {
            "\n## "@ + section + "\n\n"@
        } else {
            Seq::empty()
        }) + page_line(pages.last())
    }
}

fn push_string(out: &mut String, s: &String)
    ensures
        final(out)@ == old(out)@ + s@,
{
    let cs = chars_of(s.as_str());
    push_chars(out, &cs);
}

fn push_page_line(out: &mut String, page: &PageEntry)
    ensures
        final(out)@ == old(out)@ + page_line(*page),
{
    let mut path = String::from_str("/md/");
    push_string(&mut path, &page.source_id);
    push_str(&mut path, "/");
    push_string(&mut path, &page.slug);
    push_str(&mut path, ".md");
    let mut line = String::from_str("- [");
    push_string(&mut line, &path);
    push_str(&mut line, "](");
    push_string(&mut line, &path);
    push_str(&mut line, ") — **");
    push_string(&mut line, &page.title);
    push_str(&mut line, "** — ");
    push_string(&mut line, &page.description);
    push_str(&mut line, "\n");
    assert(line@ =~= page_line(*page));
    push_string(out, &line);
}

/// The page index: every public page, grouped by section in the order given,
/// as the exact path a fetcher should request next.
pub fn index_body(pages: &Vec<PageEntry>) -> (out: String)
    ensures
        out@ == index_head() + index_lines(pages@),
{
    let mut out = String::from_str(
        "# systemprompt.io — page index\n\nEvery public page of this site, as source markdown. Fetch any entry at its listed path.\n",
    );
    let mut i: usize = 0;
    while i < pages.len()
        invariant
            i <= pages.len(),
            out@ == index_head() + index_lines(pages@.take(i as int)),
        decreases pages.len() - i,
    {
        proof {
            let t = pages@.take(i + 1);
            assert(t.drop_last() =~= pages@.take(i as int));
            assert(t.last() == pages@[i as int]);
            if i > 0 {
                assert(pages@.take(i as int).last() == pages@[i - 1]);
            }
        }
        let ghost start = out@;
        let page = &pages[i];
        let sc = chars_of(page.source_id.as_str());
        let differs = if i == 0 {
            assert(sc@.len() == 0 ==> sc@ =~= Seq::<char>::empty());
            sc.len() != 0
        } else {
            let prev = chars_of(pages[i - 1].source_id.as_str());
            !chars_eq(&sc, &prev)
        };
        if differs {
            push_str(&mut out, "\n## ");
            push_chars(&mut out, &sc);
            push_str(&mut out, "\n\n");
        }
        let ghost mid = out@;
        push_page_line(&mut out, page);
        proof {
            let t = pages@.take(i + 1);
            let prev = if i == 0 {
                Seq::<char>::empty()
            } else {
                pages@[i - 1].source_id@
            };
            let hd = if page.source_id@ != prev {
                "\n## "@ + page.source_id@ + "\n\n"@
            } else {
                Seq::<char>::empty()
            };
            assert(differs == (page.source_id@ != prev));
            assert(mid =~= start + hd);
            assert(index_lines(t) == index_lines(pages@.take(i as int)) + hd + page_line(pages@[i as int]));
            assert(out@ =~= index_head() + index_lines(t));
        }
        i = i + 1;
    }
    assert(pages@.take(pages.len() as int) =~= pages@);
    out
}

/// A page served as markdown: its title as a heading, its description, and
/// its body without trailing white space.
pub open spec fn page_body_spec(title: Seq<char>, description: Seq<char>, body: Seq<char>) -> Seq<char> {
    "# "@ + title + "\n\n"@ + description + "\n\n"@ + trim_end(body) + "\n"@
}

/// The markdown served for one page.
pub fn page_body(title: &str, description: &str, body: &str) -> (out: String)
    ensures
        out@ == page_body_spec(title@, description@, body@),
{
    let mut out = String::from_str("# ");
    push_str(&mut out, title);
    push_str(&mut out, "\n\n");
    push_str(&mut out, description);
    push_str(&mut out, "\n\n");
    let cs = chars_of(body);
    let mut e = cs.len();
    while e > 0 && crate::text::is_whitespace(cs[e - 1])
        invariant
            e <= cs.len(),
            forall|j: int| e <= j < cs.len() ==> crate::text::is_ws(#[trigger] cs@[j]),
        decreases e,
    {
        e = e - 1;
    }
    proof {
        crate::text::lemma_trim_end_take(cs@, e as int);
    }
    let t = crate::text::string_of_range(&cs, 0, e);
    assert(t@ =~= cs@.take(e as int));
    push_string(&mut out, &t);
    push_str(&mut out, "\n");
    out
}

} // verus!
