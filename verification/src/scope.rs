//! Workspace confinement, checked before a human is ever asked.
//!
//! A tool call whose path argument leaves the session workspace is refused
//! here, lexically: `.` and `..` are collapsed without touching the
//! filesystem, and containment is a component-wise prefix test, so a sibling
//! directory whose name merely starts with the workspace's does not pass.
//! Whether an existing path resolves through a link to somewhere else is a
//! question only the filesystem can answer, and is asked by the caller.
use vstd::prelude::*;

use crate::text::{chars_eq, chars_of, split, split_chars, string_of_chars};

verus! {

/// One component of a path, as `std::path::Path::components` yields it.
pub enum PathPart {
    RootDir,
    CurDir,
    ParentDir,
    Normal(Seq<char>),
}

/// A component held at run time.
pub enum Component {
    RootDir,
    CurDir,
    ParentDir,
    Normal(Vec<char>),
}

impl View for Component {
    type V = PathPart;

    open spec fn view(&self) -> PathPart {
        match self {
            Component::RootDir => PathPart::RootDir,
            Component::CurDir => PathPart::CurDir,
            Component::ParentDir => PathPart::ParentDir,
            Component::Normal(n) => PathPart::Normal(n@),
        }
    }
}

pub open spec fn parts_of(v: Seq<Component>) -> Seq<PathPart> {
    v.map_values(|c: Component| c@)
}

proof fn lemma_parts_push(s: Seq<Component>, c: Component)
    ensures
        parts_of(s.push(c)) == parts_of(s).push(c@),
{
    assert(parts_of(s.push(c)) =~= parts_of(s).push(c@));
}

proof fn lemma_parts_drop_last(s: Seq<Component>)
    requires
        s.len() > 0,
    ensures
        parts_of(s.drop_last()) == parts_of(s).drop_last(),
{
    assert(parts_of(s.drop_last()) =~= parts_of(s).drop_last());
}

fn clone_chars(v: &Vec<char>) -> (r: Vec<char>)
    ensures
        r@ == v@,
{
    let mut r: Vec<char> = Vec::new();
    let mut i: usize = 0;
    while i < v.len()
        invariant
            i <= v.len(),
            r@ == v@.take(i as int),
        decreases v.len() - i,
    {
        r.push(v[i]);
        i = i + 1;
        assert(r@ =~= v@.take(i as int));
    }
    assert(v@.take(v.len() as int) =~= v@);
    r
}

pub open spec fn is_dot(g: Seq<char>) -> bool {
    g == seq!['.']
}

pub open spec fn is_dotdot(g: Seq<char>) -> bool {
    g == seq!['.', '.']
}

/// Components named by `/`-separated segments: empty segments and `.` vanish,
/// `..` is a parent step, anything else a name.
pub open spec fn segment_parts(gs: Seq<Seq<char>>) -> Seq<PathPart>
    decreases gs.len(),
{
    if gs.len() == 0 {
        seq![]
    } else {
        let p = segment_parts(gs.drop_last());
        let g = gs.last();
        if g.len() == 0 || is_dot(g) {
            p
        } else if is_dotdot(g) {
            p.push(PathPart::ParentDir)
        } else {
            p.push(PathPart::Normal(g))
        }
    }
}

/// Whether the path is absolute: it begins at the root.
pub open spec fn has_root(s: Seq<char>) -> bool {
    s.len() > 0 && s[0] == '/'
}

/// A relative path that begins with `.` keeps that `.` as its first component.
pub open spec fn leading_cur(s: Seq<char>) -> bool {
    !has_root(s) && is_dot(split(s, '/')[0])
}

/// The components of a Unix path.
pub open spec fn components(s: Seq<char>) -> Seq<PathPart> {
    (if has_root(s) {
        seq![PathPart::RootDir]
    } else {
        seq![]
    }) + (if leading_cur(s) {
        seq![PathPart::CurDir]
    } else {
        seq![]
    }) + segment_parts(split(s, '/'))
}

/// Collapse `.` and `..` lexically. `..` at the root leaves the root, so an
/// over-long `../` chain never wraps back inside anything.
pub open spec fn normalize(cs: Seq<PathPart>) -> Seq<PathPart>
    decreases cs.len(),
{
    if cs.len() == 0 {
        seq![]
    } else {
        let p = normalize(cs.drop_last());
        match cs.last() {
            PathPart::CurDir => p,
            PathPart::ParentDir => {
                if p.len() > 0 && p.last() is Normal {
                    p.drop_last()
                } else {
                    p
                }
            },
            PathPart::RootDir => seq![PathPart::RootDir],
            PathPart::Normal(n) => p.push(PathPart::Normal(n)),
        }
    }
}

/// Component-wise prefix, as `Path::starts_with` tests it.
pub open spec fn starts_with(path: Seq<PathPart>, base: Seq<PathPart>) -> bool {
    base.len() <= path.len() && path.take(base.len() as int) == base
}

/// How a path argument leaves the workspace.
#[derive(PartialEq, Eq, Structural, Clone, Copy, Debug)]
pub enum Escape {
    /// It names a home directory with `~`.
    Home,
    /// It is absolute and names somewhere else.
    Outside,
    /// It is relative and `..` climbs out.
    Traverses,
}

/// Where a path argument lands relative to the workspace, lexically.
pub open spec fn lexical_escape(workspace: Seq<char>, raw: Seq<char>) -> Option<Escape> {
    if raw.len() > 0 && raw[0] == '~' {
        Some(Escape::Home)
    } else if has_root(raw) {
        if starts_with(normalize(components(raw)), components(workspace)) {
            None
        } else {
            Some(Escape::Outside)
        }
    } else if starts_with(
        normalize(components(workspace) + components(raw)),
        components(workspace),
    ) {
        None
    } else {
        Some(Escape::Traverses)
    }
}

/// The sentence a refusal carries.
pub open spec fn escape_message(kind: Escape, raw: Seq<char>) -> Seq<char> {
    match kind {
        Escape::Home => "path `"@ + raw
            + "` refers to a home directory outside the session workspace"@,
        Escape::Outside => "path `"@ + raw + "` is outside the session workspace"@,
        Escape::Traverses => "path `"@ + raw + "` traverses out of the session workspace"@,
    }
}

proof fn lemma_segment_parts_no_root(gs: Seq<Seq<char>>)
    ensures
        forall|i: int|
            0 <= i < segment_parts(gs).len() ==> !(#[trigger] segment_parts(gs)[i] is RootDir),
    decreases gs.len(),
{
    if gs.len() > 0 {
        lemma_segment_parts_no_root(gs.drop_last());
    }
}

fn is_dot_exec(g: &Vec<char>) -> (r: bool)
    ensures
        r == is_dot(g@),
{
    if g.len() == 1 && g[0] == '.' {
        assert(g@ =~= seq!['.']);
        true
    } else {
        false
    }
}

fn is_dotdot_exec(g: &Vec<char>) -> (r: bool)
    ensures
        r == is_dotdot(g@),
{
    if g.len() == 2 && g[0] == '.' && g[1] == '.' {
        assert(g@ =~= seq!['.', '.']);
        true
    } else {
        false
    }
}

/// The components of a path, in order.
pub fn path_components(s: &Vec<char>) -> (out: Vec<Component>)
    ensures
        parts_of(out@) == components(s@),
{
    let segs = split_chars(s, '/');
    let ghost gs = split(s@, '/');
    proof {
        crate::text::lemma_split_nonempty(s@, '/');
    }
    let mut out: Vec<Component> = Vec::new();
    let root = s.len() > 0 && s[0] == '/';
    if root {
        out.push(Component::RootDir);
    }
    let cur = !root && is_dot_exec(&segs[0]);
    if cur {
        out.push(Component::CurDir);
    }
    let ghost head = parts_of(out@);
    assert(head =~= (if has_root(s@) {
        seq![PathPart::RootDir]
    } else {
        seq![]
    }) + (if leading_cur(s@) {
        seq![PathPart::CurDir]
    } else {
        seq![]
    }));
    let mut i: usize = 0;
    assert(gs.take(0) =~= Seq::<Seq<char>>::empty());
    while i < segs.len()
        invariant
            segs.len() == gs.len(),
            forall|k: int| 0 <= k < segs.len() ==> #[trigger] segs[k]@ == gs[k],
            i <= segs.len(),
            parts_of(out@) == head + segment_parts(gs.take(i as int)),
        decreases segs.len() - i,
    {
        let g = &segs[i];
        proof {
            assert(gs.take(i + 1).drop_last() =~= gs.take(i as int));
            assert(gs.take(i + 1).last() == g@);
        }
        if g.len() == 0 || is_dot_exec(g) {
        } else if is_dotdot_exec(g) {
            let ghost before = out@;
            out.push(Component::ParentDir);
            proof { lemma_parts_push(before, Component::ParentDir); }
            assert(parts_of(out@) =~= head + segment_parts(gs.take(i + 1)));
        } else {
            let ghost before = out@;
            let c = Component::Normal(clone_chars(g));
            let ghost cc = c;
            out.push(c);
            proof { lemma_parts_push(before, cc); }
            assert(parts_of(out@) =~= head + segment_parts(gs.take(i + 1)));
        }
        i = i + 1;
    }
    assert(gs.take(segs.len() as int) =~= gs);
    out
}

fn component_clone(c: &Component) -> (r: Component)
    ensures
        r@ == c@,
{
    match c {
        Component::RootDir => Component::RootDir,
        Component::CurDir => Component::CurDir,
        Component::ParentDir => Component::ParentDir,
        Component::Normal(n) => Component::Normal(clone_chars(n)),
    }
}

fn component_eq(a: &Component, b: &Component) -> (r: bool)
    ensures
        r == (a@ == b@),
{
    match (a, b) {
        (Component::RootDir, Component::RootDir) => true,
        (Component::CurDir, Component::CurDir) => true,
        (Component::ParentDir, Component::ParentDir) => true,
        (Component::Normal(x), Component::Normal(y)) => chars_eq(x, y),
        _ => false,
    }
}

/// The lexical normal form of a component list.
pub fn normalize_components(cs: &Vec<Component>) -> (out: Vec<Component>)
    ensures
        parts_of(out@) == normalize(parts_of(cs@)),
{
    let mut out: Vec<Component> = Vec::new();
    let mut i: usize = 0;
    let ghost ps = parts_of(cs@);
    assert(ps.take(0) =~= Seq::<PathPart>::empty());
    while i < cs.len()
        invariant
            i <= cs.len(),
            ps == parts_of(cs@),
            parts_of(out@) == normalize(ps.take(i as int)),
        decreases cs.len() - i,
    {
        proof {
            assert(ps.take(i + 1).drop_last() =~= ps.take(i as int));
            assert(ps.take(i + 1).last() == cs@[i as int]@);
        }
        match &cs[i] {
            Component::CurDir => {},
            Component::ParentDir => {
                let n = out.len();
                if n > 0 {
                    let is_name = match &out[n - 1] {
                        Component::Normal(_) => true,
                        _ => false,
                    };
                    if is_name {
                        let ghost before = out@;
                        out.pop();
                        proof { lemma_parts_drop_last(before); }
                        assert(parts_of(out@) =~= normalize(ps.take(i + 1)));
                    }
                }
            },
            Component::RootDir => {
                out = Vec::new();
                out.push(Component::RootDir);
                assert(parts_of(out@) =~= normalize(ps.take(i + 1)));
            },
            Component::Normal(n) => {
                let ghost before = out@;
                let c = Component::Normal(clone_chars(n));
                let ghost cc = c;
                out.push(c);
                proof { lemma_parts_push(before, cc); }
                assert(parts_of(out@) =~= normalize(ps.take(i + 1)));
            },
        }
        i = i + 1;
    }
    assert(ps.take(cs.len() as int) =~= ps);
    out
}

/// Whether `path` begins with every component of `base`.
pub fn components_start_with(path: &Vec<Component>, base: &Vec<Component>) -> (r: bool)
    ensures
        r == starts_with(parts_of(path@), parts_of(base@)),
{
    if base.len() > path.len() {
        return false;
    }
    let mut i: usize = 0;
    while i < base.len()
        invariant
            base.len() <= path.len(),
            i <= base.len(),
            forall|j: int| 0 <= j < i ==> path@[j]@ == base@[j]@,
        decreases base.len() - i,
    {
        if !component_eq(&path[i], &base[i]) {
            assert(parts_of(path@).take(base.len() as int)[i as int] != parts_of(base@)[i as int]);
            return false;
        }
        i = i + 1;
    }
    assert(parts_of(path@).take(base.len() as int) =~= parts_of(base@));
    true
}

fn append_components(a: &Vec<Component>, b: &Vec<Component>) -> (out: Vec<Component>)
    ensures
        parts_of(out@) == parts_of(a@) + parts_of(b@),
{
    let mut out: Vec<Component> = Vec::new();
    let mut i: usize = 0;
    while i < a.len()
        invariant
            i <= a.len(),
            parts_of(out@) == parts_of(a@).take(i as int),
        decreases a.len() - i,
    {
        let ghost before = out@;
        let c = component_clone(&a[i]);
        let ghost cc = c;
        out.push(c);
        proof { lemma_parts_push(before, cc); }
        i = i + 1;
        assert(parts_of(out@) =~= parts_of(a@).take(i as int));
    }
    let mut j: usize = 0;
    while j < b.len()
        invariant
            j <= b.len(),
            parts_of(out@) == parts_of(a@) + parts_of(b@).take(j as int),
        decreases b.len() - j,
    {
        let ghost before = out@;
        let c = component_clone(&b[j]);
        let ghost cc = c;
        out.push(c);
        proof { lemma_parts_push(before, cc); }
        j = j + 1;
        assert(parts_of(out@) =~= parts_of(a@) + parts_of(b@).take(j as int));
    }
    assert(parts_of(b@).take(b.len() as int) =~= parts_of(b@));
    assert(parts_of(a@).take(a.len() as int) =~= parts_of(a@));
    out
}

/// How `raw` leaves `workspace`, judged on the text alone, or `None` when it
/// stays inside.
pub fn lexical_escape_kind(workspace: &str, raw: &str) -> (r: Option<Escape>)
    ensures
        r == lexical_escape(workspace@, raw@),
{
    let ws = chars_of(workspace);
    let rs = chars_of(raw);
    if rs.len() > 0 && rs[0] == '~' {
        return Some(Escape::Home);
    }
    let ws_parts = path_components(&ws);
    let raw_parts = path_components(&rs);
    if rs.len() > 0 && rs[0] == '/' {
        let n = normalize_components(&raw_parts);
        if components_start_with(&n, &ws_parts) {
            None
        } else {
            Some(Escape::Outside)
        }
    } else {
        let joined = append_components(&ws_parts, &raw_parts);
        let n = normalize_components(&joined);
        if components_start_with(&n, &ws_parts) {
            None
        } else {
            Some(Escape::Traverses)
        }
    }
}

/// The refusal sentence for a path that escapes in the given way.
pub fn escape_message_text(kind: Escape, raw: &str) -> (out: String)
    ensures
        out@ == escape_message(kind, raw@),
{
    let mut out = String::from_str("path `");
    out.append(raw);
    match kind {
        Escape::Home => out.append("` refers to a home directory outside the session workspace"),
        Escape::Outside => out.append("` is outside the session workspace"),
        Escape::Traverses => out.append("` traverses out of the session workspace"),
    }
    out
}

/// Why a call whose path argument is `path_arg` would leave `workspace`, or
/// `None` when it stays inside — judged lexically.
///
/// A call carrying no path argument is not this check's business and passes.
pub fn escape_reason(workspace: &str, path_arg: Option<&str>) -> (r: Option<String>)
    ensures
        path_arg is None ==> r is None,
        path_arg matches Some(raw) ==> match lexical_escape(workspace@, raw@) {
            None => r is None,
            Some(kind) => r matches Some(m) && m@ == escape_message(kind, raw@),
        },
{
    match path_arg {
        None => None,
        Some(raw) => match lexical_escape_kind(workspace, raw) {
            None => None,
            Some(kind) => Some(escape_message_text(kind, raw)),
        },
    }
}

/// The refusal for a path that stays inside the workspace lexically but
/// resolves (through a link) to `target`, somewhere else.
pub open spec fn link_message(raw: Seq<char>, target: Seq<char>) -> Seq<char> {
    "path `"@ + raw + "` resolves through a link to "@ + target + ", outside the session workspace"@
}

/// Why a path argument whose target exists leaves `workspace` through a
/// link: `resolved` is where the filesystem resolves it to, `None` when it
/// does not resolve (a path that names nothing cannot be a link to
/// anywhere).
pub fn link_escape_reason(workspace: &str, raw: &str, resolved: Option<&str>) -> (r: Option<String>)
    ensures
        resolved is None ==> r is None,
        resolved matches Some(target) ==> if starts_with(components(target@), components(workspace@)) {
            r is None
        } else {
            r matches Some(m) && m@ == link_message(raw@, target@)
        },
{
    match resolved {
        None => None,
        Some(target) => {
            let ws = path_components(&chars_of(workspace));
            let rp = path_components(&chars_of(target));
            if components_start_with(&rp, &ws) {
                None
            } else {
                let mut out = String::from_str("path `");
                out.append(raw);
                out.append("` resolves through a link to ");
                out.append(target);
                out.append(", outside the session workspace");
                Some(out)
            }
        },
    }
}

/// The names in `cs`, with every `.` dropped.
pub open spec fn names_only(cs: Seq<PathPart>) -> Seq<PathPart>
    decreases cs.len(),
{
    if cs.len() == 0 {
        seq![]
    } else if cs.last() is CurDir {
        names_only(cs.drop_last())
    } else {
        names_only(cs.drop_last()).push(cs.last())
    }
}

proof fn lemma_normalize_append_names(a: Seq<PathPart>, b: Seq<PathPart>)
    requires
        forall|i: int| 0 <= i < b.len() ==> (#[trigger] b[i] is CurDir || b[i] is Normal),
    ensures
        normalize(a + b) == normalize(a) + names_only(b),
    decreases b.len(),
{
    if b.len() == 0 {
        assert(a + b =~= a);
        assert(normalize(a) + names_only(b) =~= normalize(a));
    } else {
        let b0 = b.drop_last();
        assert forall|i: int| 0 <= i < b0.len() implies (#[trigger] b0[i] is CurDir || b0[i] is Normal) by {
            assert(b0[i] == b[i]);
        }
        lemma_normalize_append_names(a, b0);
        assert((a + b).drop_last() =~= a + b0);
        assert((a + b).last() == b.last());
        assert(b[b.len() - 1] is CurDir || b[b.len() - 1] is Normal);
        if b.last() is CurDir {
        } else {
            assert(normalize(a) + names_only(b) =~= (normalize(a) + names_only(b0)).push(b.last()));
        }
    }
}

proof fn lemma_segment_parts_without_parent(gs: Seq<Seq<char>>)
    requires
        forall|i: int| 0 <= i < gs.len() ==> !is_dotdot(#[trigger] gs[i]),
    ensures
        forall|i: int| 0 <= i < segment_parts(gs).len() ==> (#[trigger] segment_parts(gs)[i] is Normal),
    decreases gs.len(),
{
    if gs.len() > 0 {
        let g0 = gs.drop_last();
        assert forall|i: int| 0 <= i < g0.len() implies !is_dotdot(#[trigger] g0[i]) by {
            assert(g0[i] == gs[i]);
        }
        lemma_segment_parts_without_parent(g0);
        assert(!is_dotdot(gs[gs.len() - 1]));
    }
}

/// Whether a component list is already in normal form.
pub open spec fn is_normal(cs: Seq<PathPart>) -> bool {
    normalize(cs) == cs
}

/// A relative path argument that does not start with `~` and has no `..`
/// segment never leaves a workspace that is written in normal form.
pub proof fn law_plain_relative_paths_stay_inside(workspace: Seq<char>, raw: Seq<char>)
    requires
        is_normal(components(workspace)),
        !has_root(raw),
        !(raw.len() > 0 && raw[0] == '~'),
        forall|i: int| 0 <= i < split(raw, '/').len() ==> !is_dotdot(#[trigger] split(raw, '/')[i]),
    ensures
        lexical_escape(workspace, raw) is None,
{
    let w = components(workspace);
    let gs = split(raw, '/');
    lemma_segment_parts_without_parent(gs);
    let r = components(raw);
    let head = if leading_cur(raw) {
        seq![PathPart::CurDir]
    } else {
        seq![]
    };
    assert(r =~= head + segment_parts(gs));
    assert forall|i: int| 0 <= i < r.len() implies (#[trigger] r[i] is CurDir || r[i] is Normal) by {
        if i < head.len() {
        } else {
            assert(r[i] == segment_parts(gs)[i - head.len()]);
        }
    }
    lemma_normalize_append_names(w, r);
    assert((w + names_only(r)).take(w.len() as int) =~= w);
}

proof fn lemma_normalize_shape(cs: Seq<PathPart>)
    ensures
        forall|i: int|
            0 <= i < normalize(cs).len() ==> (#[trigger] normalize(cs)[i] is Normal || (i == 0
                && normalize(cs)[i] is RootDir)),
    decreases cs.len(),
{
    if cs.len() > 0 {
        lemma_normalize_shape(cs.drop_last());
    }
}

/// The lexical normal form holds no `.` and no `..`, and a root only first.
pub proof fn law_normal_form_has_no_dots(cs: Seq<PathPart>)
    ensures
        forall|i: int|
            0 <= i < normalize(cs).len() ==> !(#[trigger] normalize(cs)[i] is CurDir)
                && !(normalize(cs)[i] is ParentDir) && (normalize(cs)[i] is RootDir ==> i == 0),
{
    lemma_normalize_shape(cs);
}

/// An absolute path argument is judged by where it lands, not by how it is
/// spelled: two absolute paths with the same lexical normal form get the
/// same verdict, so `/ws/../../etc/passwd` is judged as `/etc/passwd` is.
pub proof fn law_absolute_paths_are_judged_by_where_they_land(workspace: Seq<char>, a: Seq<char>, b: Seq<char>)
    requires
        has_root(a),
        has_root(b),
        normalize(components(a)) == normalize(components(b)),
    ensures
        lexical_escape(workspace, a) == lexical_escape(workspace, b),
{
}

/// An absolute path argument stays inside exactly when its lexical normal
/// form lies under the workspace, component by component; anything else is
/// reported as outside.
pub proof fn law_an_absolute_path_is_inside_iff_its_normal_form_is(workspace: Seq<char>, raw: Seq<char>)
    requires
        has_root(raw),
    ensures
        lexical_escape(workspace, raw) is None <==> starts_with(
            normalize(components(raw)),
            components(workspace),
        ),
        lexical_escape(workspace, raw) is Some ==> lexical_escape(workspace, raw) == Some(
            Escape::Outside,
        ),
{
}

proof fn lemma_split_parent_suffix(s: Seq<char>)
    ensures
        split(s + seq!['/', '.', '.'], '/') == split(s, '/').push(seq!['.', '.']),
{
    let t = s + seq!['/', '.', '.'];
    let t1 = s + seq!['/', '.'];
    let t0 = s + seq!['/'];
    assert(t.drop_last() =~= t1);
    assert(t1.drop_last() =~= t0);
    assert(t0.drop_last() =~= s);
    crate::text::lemma_split_nonempty(s, '/');
    let g = split(s, '/');
    assert(split(t0, '/') == g.push(Seq::<char>::empty()));
    assert(t0.last() == '/' && t1.last() == '.' && t.last() == '.');
    assert(Seq::<char>::empty().push('.') =~= seq!['.']);
    assert(split(t1, '/') =~= g.push(seq!['.']));
    assert(split(t1, '/').last() == seq!['.']);
    assert(seq!['.'].push('.') =~= seq!['.', '.']);
    assert(split(t, '/') =~= g.push(seq!['.', '.']));
}

/// Stepping up out of the workspace is caught however the path is written:
/// the workspace itself followed by `/..` names its parent, and is reported
/// as outside (for any workspace below the root, written in normal form).
pub proof fn law_climbing_out_of_the_workspace_is_outside(workspace: Seq<char>)
    requires
        has_root(workspace),
        is_normal(components(workspace)),
        components(workspace).len() >= 2,
    ensures
        lexical_escape(workspace, workspace + seq!['/', '.', '.']) == Some(Escape::Outside),
{
    let raw = workspace + seq!['/', '.', '.'];
    let w = components(workspace);
    assert(raw[0] == workspace[0]);
    assert(has_root(raw));
    lemma_split_parent_suffix(workspace);
    let gs = split(workspace, '/');
    assert(gs.push(seq!['.', '.']).drop_last() =~= gs);
    assert(is_dotdot(seq!['.', '.']));
    assert(seq!['.', '.'].len() == 2 && seq!['.'].len() == 1);
    assert(!is_dot(seq!['.', '.']));
    assert(gs.push(seq!['.', '.']).last() == seq!['.', '.']);
    assert(segment_parts(gs.push(seq!['.', '.'])) == segment_parts(gs).push(PathPart::ParentDir));
    assert(components(raw) =~= w.push(PathPart::ParentDir));
    law_normal_form_has_no_dots(w);
    assert(normalize(w) == w);
    let last = w.len() - 1;
    assert(!(normalize(w)[last] is CurDir) && !(normalize(w)[last] is ParentDir));
    assert(!(normalize(w)[last] is RootDir));
    assert(w.push(PathPart::ParentDir).drop_last() =~= w);
    assert(normalize(components(raw)) == w.drop_last());
}

/// A relative path argument is judged by where it lands once joined to the
/// workspace: two relative paths that land on the same normal form get the
/// same verdict.
pub proof fn law_relative_paths_are_judged_by_where_they_land(workspace: Seq<char>, a: Seq<char>, b: Seq<char>)
    requires
        !has_root(a) && !(a.len() > 0 && a[0] == '~'),
        !has_root(b) && !(b.len() > 0 && b[0] == '~'),
        normalize(components(workspace) + components(a)) == normalize(
            components(workspace) + components(b),
        ),
    ensures
        lexical_escape(workspace, a) == lexical_escape(workspace, b),
        lexical_escape(workspace, a) is Some ==> lexical_escape(workspace, a) == Some(Escape::Traverses),
{
}

/// `..` on its own climbs out of any workspace below the root that is
/// written in normal form, and is reported as traversing out of it.
pub proof fn law_a_parent_step_traverses_out(workspace: Seq<char>)
    requires
        is_normal(components(workspace)),
        components(workspace).len() >= 2,
    ensures
        lexical_escape(workspace, seq!['.', '.']) == Some(Escape::Traverses),
{
    let raw = seq!['.', '.'];
    let w = components(workspace);
    let e = Seq::<char>::empty();
    assert(raw.drop_last() =~= seq!['.']);
    assert(seq!['.'].drop_last() =~= e);
    assert(split(e, '/') == seq![e]);
    assert(e.push('.') =~= seq!['.']);
    assert(split(seq!['.'], '/') =~= seq![seq!['.']]);
    assert(seq!['.'].push('.') =~= raw);
    assert(split(raw, '/') =~= seq![raw]);
    assert(raw.len() == 2 && seq!['.'].len() == 1);
    assert(!is_dot(raw) && is_dotdot(raw));
    assert(!has_root(raw) && !leading_cur(raw));
    assert(seq![raw].drop_last() =~= Seq::<Seq<char>>::empty());
    assert(seq![raw].last() == raw);
    assert(segment_parts(Seq::<Seq<char>>::empty()) =~= Seq::<PathPart>::empty());
    assert(raw.len() != 0);
    assert(segment_parts(seq![raw]) == Seq::<PathPart>::empty().push(PathPart::ParentDir));
    assert(segment_parts(seq![raw]) =~= seq![PathPart::ParentDir]);
    assert(components(raw) =~= seq![PathPart::ParentDir]);
    assert(w + components(raw) =~= w.push(PathPart::ParentDir));
    law_normal_form_has_no_dots(w);
    let last = w.len() - 1;
    assert(!(normalize(w)[last] is CurDir) && !(normalize(w)[last] is ParentDir));
    assert(!(normalize(w)[last] is RootDir));
    assert(w.push(PathPart::ParentDir).drop_last() =~= w);
    assert(normalize(w + components(raw)) == w.drop_last());
}

/// A path argument beginning with `~` names a home directory, and is
/// refused as such whatever follows.
pub proof fn law_a_home_path_is_refused(workspace: Seq<char>, raw: Seq<char>)
    requires
        raw.len() > 0,
        raw[0] == '~',
    ensures
        lexical_escape(workspace, raw) == Some(Escape::Home),
{
}

/// The path a tool call names: the string under `path`, otherwise the
/// string under `file_path`.
pub open spec fn tool_path_spec(tool_input: Option<crate::json::Json>) -> Option<Seq<char>> {
    match tool_input {
        None => None,
        Some(v) => match crate::json::get_spec(v, "path"@) {
            Some(crate::json::Json::Str(s)) => Some(s@),
            _ => match crate::json::get_spec(v, "file_path"@) {
                Some(crate::json::Json::Str(s)) => Some(s@),
                _ => None,
            },
        },
    }
}

/// The path argument of a tool call's input.
pub fn tool_path(tool_input: Option<&crate::json::Json>) -> (r: Option<&String>)
    ensures
        match r {
            Some(s) => tool_path_spec(
                match tool_input {
                    Some(v) => Some(*v),
                    None => None,
                },
            ) == Some(s@),
            None => tool_path_spec(
                match tool_input {
                    Some(v) => Some(*v),
                    None => None,
                },
            ) is None,
        },
{
    let v = match tool_input {
        Some(v) => v,
        None => {
            return None;
        },
    };
    match crate::json::get(v, "path") {
        Some(crate::json::Json::Str(s)) => Some(s),
        _ => match crate::json::get(v, "file_path") {
            Some(crate::json::Json::Str(s)) => Some(s),
            _ => None,
        },
    }
}

/// Why a tool call would leave `workspace`, judged lexically from its input,
/// or `None` when it stays inside or names no path.
pub fn input_escape_reason(workspace: &str, tool_input: Option<&crate::json::Json>) -> (r: Option<
    String,
>)
    ensures
        match tool_path_spec(
            match tool_input {
                Some(v) => Some(*v),
                None => None,
            },
        ) {
            None => r is None,
            Some(raw) => match lexical_escape(workspace@, raw) {
                None => r is None,
                Some(kind) => r matches Some(m) && m@ == escape_message(kind, raw),
            },
        },
{
    match tool_path(tool_input) {
        None => None,
        Some(raw) => escape_reason(workspace, Some(raw.as_str())),
    }
}

} // verus!
