//! Reading a skill's flat `config.yaml` and writing its `SKILL.md` frontmatter.
//!
//! The marketplace keeps a skill's metadata in configuration and its body in
//! a file beside it; a pi session reads the Agent Skills shape, a `SKILL.md`
//! whose frontmatter carries `name` and `description`. The frontmatter is
//! synthesised rather than stored twice, from a top-level scalar lookup that is
//! deliberately not a YAML parse: these files are flat by construction, and a
//! parser would give a malformed nested value the power to fail a spawn.
use vstd::prelude::*;

use crate::text::{
    chars_eq, chars_of, has_prefix, is_ws, lines, lines_of, push_char, push_str, string_of_range, trim,
    trim_bounds,
};

verus! {

/// What follows `prefix` on the first line that starts with it.
pub open spec fn after_first_prefix(ls: Seq<Seq<char>>, prefix: Seq<char>) -> Option<Seq<char>>
    decreases ls.len(),
{
    if ls.len() == 0 {
        None
    } else if prefix.is_prefix_of(ls[0]) {
        Some(ls[0].skip(prefix.len() as int))
    } else {
        after_first_prefix(ls.subrange(1, ls.len() as int), prefix)
    }
}

pub open spec fn is_quote(c: char) -> bool {
    c == '"' || c == '\''
}

/// `s` without leading quote characters.
pub open spec fn unquote_start(s: Seq<char>) -> Seq<char>
    decreases s.len(),
{
    if s.len() > 0 && is_quote(s[0]) {
        unquote_start(s.drop_first())
    } else {
        s
    }
}

/// `s` without trailing quote characters.
pub open spec fn unquote_end(s: Seq<char>) -> Seq<char>
    decreases s.len(),
{
    if s.len() > 0 && is_quote(s.last()) {
        unquote_end(s.drop_last())
    } else {
        s
    }
}

/// The value of the top-level `key:` in a flat config: the rest of the first
/// line starting with `key:`, trimmed of white space and then of surrounding
/// quotes; `None` when no line starts so, or what is left is empty.
pub open spec fn scalar_spec(raw: Seq<char>, key: Seq<char>) -> Option<Seq<char>> {
    match after_first_prefix(lines(raw), key + ":"@) {
        Some(rest) => {
            let v = unquote_end(unquote_start(trim(rest)));
            if v.len() > 0 {
                Some(v)
            } else {
                None
            }
        },
        None => None,
    }
}

proof fn lemma_unquote_start_skip(s: Seq<char>, a: int)
    requires
        0 <= a <= s.len(),
        forall|j: int| 0 <= j < a ==> is_quote(#[trigger] s[j]),
        a == s.len() || !is_quote(s[a]),
    ensures
        unquote_start(s) == s.skip(a),
    decreases a,
{
    if a == 0 {
        assert(s.skip(0) =~= s);
    } else {
        let t = s.drop_first();
        assert forall|j: int| 0 <= j < a - 1 implies is_quote(#[trigger] t[j]) by {
            assert(t[j] == s[j + 1]);
        }
        lemma_unquote_start_skip(t, a - 1);
        assert(t.skip(a - 1) =~= s.skip(a));
    }
}

proof fn lemma_unquote_end_take(s: Seq<char>, b: int)
    requires
        0 <= b <= s.len(),
        forall|j: int| b <= j < s.len() ==> is_quote(#[trigger] s[j]),
        b == 0 || !is_quote(s[b - 1]),
    ensures
        unquote_end(s) == s.take(b),
    decreases s.len() - b,
{
    if b == s.len() {
        assert(s.take(b) =~= s);
    } else {
        let t = s.drop_last();
        assert forall|j: int| b <= j < t.len() implies is_quote(#[trigger] t[j]) by {
            assert(t[j] == s[j]);
        }
        lemma_unquote_end_take(t, b);
        assert(t.take(b) =~= s.take(b));
    }
}

/// `s[from..to]` with quote characters removed from both ends.
fn unquote_bounds(s: &Vec<char>, from: usize, to: usize) -> (r: (usize, usize))
    requires
        from <= to <= s.len(),
    ensures
        from <= r.0 <= r.1 <= to,
        unquote_end(unquote_start(s@.subrange(from as int, to as int))) == s@.subrange(
            r.0 as int,
            r.1 as int,
        ),
{
    let ghost v = s@.subrange(from as int, to as int);
    let mut a = from;
    while a < to && (s[a] == '"' || s[a] == '\'')
        invariant
            from <= a <= to <= s.len(),
            v == s@.subrange(from as int, to as int),
            forall|j: int| 0 <= j < a - from ==> is_quote(#[trigger] v[j]),
        decreases to - a,
    {
        a = a + 1;
    }
    proof {
        lemma_unquote_start_skip(v, a - from);
    }
    let mut b = to;
    while b > a && (s[b - 1] == '"' || s[b - 1] == '\'')
        invariant
            from <= a <= b <= to <= s.len(),
            forall|j: int| b <= j < to ==> is_quote(#[trigger] s@[j]),
        decreases b,
    {
        b = b - 1;
    }
    proof {
        let t = v.skip(a - from);
        assert(t =~= s@.subrange(a as int, to as int));
        assert forall|j: int| (b - a) <= j < t.len() implies is_quote(#[trigger] t[j]) by {
            assert(t[j] == s@[j + a]);
        }
        if b > a {
            assert(t[b - a - 1] == s@[b - 1]);
        }
        lemma_unquote_end_take(t, b - a);
        assert(t.take(b - a) =~= s@.subrange(a as int, b as int));
    }
    (a, b)
}

/// One top-level scalar out of a flat skill `config.yaml`.
pub fn scalar(raw: &str, key: &str) -> (out: Option<String>)
    ensures
        match out {
            Some(v) => scalar_spec(raw@, key@) == Some(v@),
            None => scalar_spec(raw@, key@) is None,
        },
{
    let mut prefix = chars_of(key);
    prefix.push(':');
    proof {
        reveal_strlit(":");
        assert(prefix@ =~= key@ + ":"@);
    }
    let cs = chars_of(raw);
    let ls = lines_of(&cs);
    let ghost all = lines(raw@);
    let n = ls.len();
    let mut i: usize = 0;
    assert(all.subrange(0, n as int) =~= all);
    while i < n
        invariant
            n == ls.len(),
            n == all.len(),
            i <= n,
            prefix@ == key@ + ":"@,
            all == lines(raw@),
            forall|k: int| 0 <= k < n ==> #[trigger] ls[k]@ == all[k],
            after_first_prefix(all, prefix@) == after_first_prefix(
                all.subrange(i as int, n as int),
                prefix@,
            ),
        decreases n - i,
    {
        let ghost rest = all.subrange(i as int, n as int);
        assert(rest[0] == all[i as int]);
        assert(rest.subrange(1, rest.len() as int) =~= all.subrange(i + 1, n as int));
        let line = &ls[i];
        if has_prefix(line, &prefix) {
            let value = string_of_range(line, prefix.len(), line.len());
            let vc = chars_of(value.as_str());
            assert(vc@ =~= line@.skip(prefix@.len() as int));
            assert(after_first_prefix(all, prefix@) == Some(vc@));
            let (a, b) = trim_bounds(&vc);
            let (c, d) = unquote_bounds(&vc, a, b);
            assert(unquote_end(unquote_start(trim(vc@))) == vc@.subrange(c as int, d as int));
            if c == d {
                return None;
            }
            return Some(string_of_range(&vc, c, d));
        }
        i = i + 1;
    }
    None
}

/// `value` made safe inside a double-quoted YAML string: each backslash is
/// doubled and each double quote escaped.
pub open spec fn escape_spec(value: Seq<char>) -> Seq<char>
    decreases value.len(),
{
    if value.len() == 0 {
        Seq::empty()
    } else {
        let c = value.last();
        escape_spec(value.drop_last()) + (if c == '\\' {
            seq!['\\', '\\']
        } else if c == '"' {
            seq!['\\', '"']
        } else {
            seq![c]
        })
    }
}

/// `value` escaped for a double-quoted frontmatter string.
pub fn escape(value: &str) -> (out: String)
    ensures
        out@ == escape_spec(value@),
{
    let cs = chars_of(value);
    let mut out = String::new();
    let mut i: usize = 0;
    while i < cs.len()
        invariant
            i <= cs.len(),
            out@ == escape_spec(cs@.take(i as int)),
        decreases cs.len() - i,
    {
        proof {
            assert(cs@.take(i + 1).drop_last() =~= cs@.take(i as int));
        }
        let c = cs[i];
        if c == '\\' || c == '"' {
            push_char(&mut out, '\\');
        }
        push_char(&mut out, c);
        i = i + 1;
        assert(out@ =~= escape_spec(cs@.take(i as int)));
    }
    assert(cs@.take(cs.len() as int) =~= cs@);
    out
}

/// What a skill's `config.yaml` declares, as much as writing the skill out
/// needs.
pub struct SkillHeader {
    /// The skill's directory and `name:`: its `id` with each `_` as `-`.
    pub slug: String,
    pub description: String,
    /// The body's file beside the config: `file:`, or `SKILL.md`.
    pub file: String,
}

/// `s` with each underscore turned into a hyphen.
pub open spec fn dashed(s: Seq<char>) -> Seq<char> {
    s.map_values(|c: char| if c == '_' { '-' } else { c })
}

/// What a config declares: nothing for a skill switched off with
/// `enabled: false`, an error naming the first of `id` and `description` that
/// is missing, else the slug, the description and the body's file name.
pub open spec fn header_spec(raw: Seq<char>) -> Result<Option<(Seq<char>, Seq<char>, Seq<char>)>, Seq<char>> {
    if scalar_spec(raw, "enabled"@) == Some("false"@) {
        Ok(None)
    } else {
        match scalar_spec(raw, "id"@) {
            None => Err("no `id:`"@),
            Some(id) => match scalar_spec(raw, "description"@) {
                None => Err("no `description:`"@),
                Some(d) => Ok(
                    Some(
                        (
                            dashed(id),
                            d,
                            match scalar_spec(raw, "file"@) {
                                Some(f) => f,
                                None => "SKILL.md"@,
                            },
                        ),
                    ),
                ),
            },
        }
    }
}

fn dash(s: &str) -> (out: String)
    ensures
        out@ == dashed(s@),
{
    let cs = chars_of(s);
    let mut out = String::new();
    let mut i: usize = 0;
    while i < cs.len()
        invariant
            i <= cs.len(),
            out@ == dashed(cs@.take(i as int)),
        decreases cs.len() - i,
    {
        let c = if cs[i] == '_' {
            '-'
        } else {
            cs[i]
        };
        push_char(&mut out, c);
        i = i + 1;
        assert(out@ =~= dashed(cs@.take(i as int)));
    }
    assert(cs@.take(cs.len() as int) =~= cs@);
    out
}

/// Reads a skill's config: `Ok(None)` for a disabled skill, an error for one
/// that lacks its `id` or `description`.
pub fn read_header(raw: &str) -> (r: Result<Option<SkillHeader>, String>)
    ensures
        match (r, header_spec(raw@)) {
            (Ok(Some(h)), Ok(Some(t))) => (h.slug@, h.description@, h.file@) == t,
            (Ok(None), Ok(None)) => true,
            (Err(e), Err(m)) => e@ == m,
            _ => false,
        },
{
    if let Some(v) = scalar(raw, "enabled") {
        let vc = chars_of(v.as_str());
        let f = chars_of("false");
        if chars_eq(&vc, &f) {
            return Ok(None);
        }
    }
    let id = match scalar(raw, "id") {
        Some(id) => id,
        None => return Err(String::from_str("no `id:`")),
    };
    let description = match scalar(raw, "description") {
        Some(d) => d,
        None => return Err(String::from_str("no `description:`")),
    };
    let file = match scalar(raw, "file") {
        Some(f) => f,
        None => String::from_str("SKILL.md"),
    };
    Ok(Some(SkillHeader { slug: dash(id.as_str()), description, file }))
}

/// The `SKILL.md` written for a skill: the frontmatter pi reads, a blank
/// line, then the body.
pub open spec fn skill_file_spec(slug: Seq<char>, description: Seq<char>, body: Seq<char>) -> Seq<char> {
    "---\nname: \""@ + slug + "\"\ndescription: \""@ + escape_spec(description) + "\"\n---\n\n"@ + body
}

pub fn skill_file(slug: &str, description: &str, body: &str) -> (out: String)
    ensures
        out@ == skill_file_spec(slug@, description@, body@),
{
    let mut out = String::new();
    push_str(&mut out, "---\nname: \"");
    push_str(&mut out, slug);
    push_str(&mut out, "\"\ndescription: \"");
    let e = escape(description);
    push_str(&mut out, e.as_str());
    push_str(&mut out, "\"\n---\n\n");
    push_str(&mut out, body);
    out
}

/// The slash command that invokes a skill.
pub fn skill_command(slug: &str) -> (out: String)
    ensures
        out@ == "/skill:"@ + slug@,
{
    let mut out = String::new();
    push_str(&mut out, "/skill:");
    push_str(&mut out, slug);
    out
}

/// A skill as read from its directory.
pub struct Skill {
    pub slug: String,
    pub description: String,
    pub body: String,
}

pub type SkillV = (Seq<char>, Seq<char>, Seq<char>);

pub open spec fn skill_view(k: Skill) -> SkillV {
    (k.slug@, k.description@, k.body@)
}

pub open spec fn skills_view(ks: Seq<Skill>) -> Seq<SkillV> {
    ks.map_values(|k: Skill| skill_view(k))
}

/// Whether `a` sorts no later than `b`: code point by code point, a prefix
/// first. This is the order `str` compares in.
pub open spec fn text_le(a: Seq<char>, b: Seq<char>) -> bool
    decreases a.len(),
{
    if a.len() == 0 {
        true
    } else if b.len() == 0 {
        false
    } else if a[0] != b[0] {
        (a[0] as int) < (b[0] as int)
    } else {
        text_le(a.drop_first(), b.drop_first())
    }
}

proof fn lemma_text_le_total(a: Seq<char>, b: Seq<char>)
    ensures
        text_le(a, b) || text_le(b, a),
    decreases a.len(),
{
    if a.len() > 0 && b.len() > 0 && a[0] == b[0] {
        lemma_text_le_total(a.drop_first(), b.drop_first());
    }
}

proof fn lemma_text_le_trans(a: Seq<char>, b: Seq<char>, c: Seq<char>)
    requires
        text_le(a, b),
        text_le(b, c),
    ensures
        text_le(a, c),
    decreases a.len(),
{
    if a.len() > 0 && b.len() > 0 && c.len() > 0 && a[0] == b[0] && b[0] == c[0] {
        lemma_text_le_trans(a.drop_first(), b.drop_first(), c.drop_first());
    }
}

fn slug_le(a: &String, b: &String) -> (r: bool)
    ensures
        r == text_le(a@, b@),
{
    let x = chars_of(a.as_str());
    let y = chars_of(b.as_str());
    let mut i: usize = 0;
    assert(x@.skip(0) =~= x@);
    assert(y@.skip(0) =~= y@);
    while i < x.len() && i < y.len() && x[i] == y[i]
        invariant
            i <= x.len(),
            i <= y.len(),
            text_le(x@, y@) == text_le(x@.skip(i as int), y@.skip(i as int)),
        decreases x.len() - i,
    {
        assert(x@.skip(i as int).drop_first() =~= x@.skip(i + 1));
        assert(y@.skip(i as int).drop_first() =~= y@.skip(i + 1));
        i = i + 1;
    }
    if i == x.len() {
        assert(x@.skip(i as int).len() == 0);
        true
    } else if i == y.len() {
        assert(y@.skip(i as int).len() == 0);
        false
    } else {
        assert(x@.skip(i as int)[0] == x@[i as int]);
        assert(y@.skip(i as int)[0] == y@[i as int]);
        x[i] < y[i]
    }
}

/// Where `x` goes among `s`: after the leading entries that sort no later
/// than it.
pub open spec fn insert_pos(s: Seq<SkillV>, x: SkillV) -> int
    decreases s.len(),
{
    if s.len() == 0 {
        0
    } else if text_le(s[0].0, x.0) {
        1 + insert_pos(s.drop_first(), x)
    } else {
        0
    }
}

/// The skills ordered by slug, equal slugs keeping their order.
pub open spec fn by_slug(s: Seq<SkillV>) -> Seq<SkillV>
    decreases s.len(),
{
    if s.len() == 0 {
        s
    } else {
        let p = by_slug(s.drop_last());
        p.insert(insert_pos(p, s.last()), s.last())
    }
}

proof fn lemma_insert_pos(s: Seq<SkillV>, x: SkillV)
    ensures
        0 <= insert_pos(s, x) <= s.len(),
        forall|m: int| 0 <= m < insert_pos(s, x) ==> text_le(#[trigger] s[m].0, x.0),
        insert_pos(s, x) < s.len() ==> !text_le(s[insert_pos(s, x)].0, x.0),
    decreases s.len(),
{
    if s.len() > 0 && text_le(s[0].0, x.0) {
        let t = s.drop_first();
        lemma_insert_pos(t, x);
        assert forall|m: int| 0 <= m < insert_pos(s, x) implies text_le(#[trigger] s[m].0, x.0) by {
            if m > 0 {
                assert(s[m] == t[m - 1]);
            }
        }
    }
}

proof fn lemma_by_slug_len(s: Seq<SkillV>)
    ensures
        by_slug(s).len() == s.len(),
    decreases s.len(),
{
    if s.len() > 0 {
        lemma_by_slug_len(s.drop_last());
        lemma_insert_pos(by_slug(s.drop_last()), s.last());
    }
}

/// The skills in slug order: each sorts no later than the next, and they
/// are the same skills as before, each as often.
pub proof fn law_skills_come_out_in_slug_order(s: Seq<SkillV>)
    ensures
        forall|i: int, j: int|
            0 <= i < j < by_slug(s).len() ==> text_le(#[trigger] by_slug(s)[i].0, #[trigger] by_slug(s)[j].0),
        by_slug(s).to_multiset() == s.to_multiset(),
    decreases s.len(),
{
    if s.len() == 0 {
    } else {
        let q = s.drop_last();
        let x = s.last();
        law_skills_come_out_in_slug_order(q);
        let p = by_slug(q);
        lemma_by_slug_len(q);
        lemma_insert_pos(p, x);
        let k = insert_pos(p, x);
        let t = p.insert(k, x);
        assert(by_slug(s) == t);
        if k < p.len() {
            lemma_text_le_total(p[k].0, x.0);
        }
        assert forall|i: int, j: int| 0 <= i < j < t.len() implies text_le(#[trigger] t[i].0, #[trigger] t[j].0) by {
            if i < k && j < k {
                assert(t[i] == p[i] && t[j] == p[j]);
            } else if i < k && j == k {
                assert(t[i] == p[i]);
            } else if i < k {
                assert(t[i] == p[i] && t[j] == p[j - 1]);
                assert(text_le(p[i].0, p[j - 1].0));
            } else if i == k {
                assert(t[j] == p[j - 1]);
                if j - 1 > k {
                    assert(text_le(p[k].0, p[j - 1].0));
                    lemma_text_le_trans(x.0, p[k].0, p[j - 1].0);
                }
            } else {
                assert(t[i] == p[i - 1] && t[j] == p[j - 1]);
                assert(text_le(p[i - 1].0, p[j - 1].0));
            }
        }
        vstd::seq_lib::to_multiset_insert(p, k, x);
        assert(q.push(x) =~= s);
        vstd::seq_lib::to_multiset_build(q, x);
    }
}

fn slug_slot(out: &Vec<Skill>, x: &Skill) -> (pos: usize)
    ensures
        pos as int == insert_pos(skills_view(out@), skill_view(*x)),
{
    let ghost ov = skills_view(out@);
    let ghost xv = skill_view(*x);
    let mut pos: usize = 0;
    assert(ov.skip(0) =~= ov);
    while pos < out.len() && slug_le(&out[pos].slug, &x.slug)
        invariant
            pos <= out.len(),
            ov == skills_view(out@),
            ov.len() == out.len(),
            xv == skill_view(*x),
            insert_pos(ov, xv) == pos + insert_pos(ov.skip(pos as int), xv),
        decreases out.len() - pos,
    {
        assert(ov.skip(pos as int)[0] == ov[pos as int]);
        assert(ov.skip(pos as int).drop_first() =~= ov.skip(pos + 1));
        pos = pos + 1;
    }
    if pos < out.len() {
        assert(ov.skip(pos as int)[0] == ov[pos as int]);
    }
    pos
}

/// The skills ordered by slug, as the catalogue lists them and as they are
/// written into a workspace.
pub fn sort_by_slug(skills: Vec<Skill>) -> (out: Vec<Skill>)
    ensures
        skills_view(out@) == by_slug(skills_view(skills@)),
{
    let ghost input = skills_view(skills@);
    let mut rest = skills;
    let mut out: Vec<Skill> = Vec::new();
    let n = rest.len();
    let mut i: usize = 0;
    assert(skills_view(rest@) =~= input.skip(0));
    assert(input.take(0) =~= Seq::<SkillV>::empty());
    assert(skills_view(out@) =~= Seq::<SkillV>::empty());
    while i < n
        invariant
            i <= n,
            n == input.len(),
            rest.len() == n - i,
            skills_view(rest@) == input.skip(i as int),
            skills_view(out@) == by_slug(input.take(i as int)),
        decreases n - i,
    {
        let ghost rv = skills_view(rest@);
        let ghost old_rest = rest@;
        assert(rv[0] == skill_view(rest@[0]));
        let x = rest.remove(0);
        assert(skill_view(x) == rv[0]);
        assert(rest@ =~= old_rest.drop_first());
        assert forall|k: int| 0 <= k < rest.len() implies skills_view(rest@)[k] == input.skip(i + 1)[k] by {
            assert(rest@[k] == old_rest[k + 1]);
            assert(rv[k + 1] == skill_view(old_rest[k + 1]));
        }
        assert(skills_view(rest@) =~= input.skip(i + 1));
        assert(input.take(i + 1).drop_last() =~= input.take(i as int));
        assert(input.take(i + 1).last() == skill_view(x));
        let pos = slug_slot(&out, &x);
        proof {
            lemma_insert_pos(skills_view(out@), skill_view(x));
        }
        let ghost before = out@;
        out.insert(pos, x);
        assert(skills_view(out@) =~= skills_view(before).insert(pos as int, skill_view(x)));
        i = i + 1;
    }
    assert(input.take(n as int) =~= input);
    out
}

} // verus!
