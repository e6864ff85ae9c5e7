//! Building the `sp-pi-jail` argv that wraps a pi child.
//!
//! The jail applies a Landlock ruleset to itself and then `exec`s pi, so the
//! argv names everything the child may touch: read-write on the session
//! workspace, read-execute on the listed directories, and `connect()` on the
//! gateway's port alone. Which directories exist on this host, and where pi's
//! package really lives, are filesystem questions the caller answers.
use vstd::prelude::*;

use crate::decimal::{decimal, parse_uint, parse_unsigned, u64_to_string};
use crate::text::chars_of;

verus! {

/// Whether `://` starts at `i`.
pub open spec fn scheme_sep_at(s: Seq<char>, i: int) -> bool {
    0 <= i && i + 3 <= s.len() && s[i] == ':' && s[i + 1] == '/' && s[i + 2] == '/'
}

/// The first `://` at or after `i`.
pub open spec fn scheme_sep_from(s: Seq<char>, i: int) -> Option<int>
    decreases s.len() - i,
{
    if i < 0 || i + 3 > s.len() {
        None
    } else if scheme_sep_at(s, i) {
        Some(i)
    } else {
        scheme_sep_from(s, i + 1)
    }
}

pub open spec fn is_authority_end(c: char) -> bool {
    c == '/' || c == '?' || c == '#'
}

/// Where the authority ends: the first `/`, `?` or `#` at or after `i`, or
/// the end.
pub open spec fn authority_end_from(s: Seq<char>, i: int) -> int
    decreases s.len() - i,
{
    if i < 0 || i >= s.len() {
        s.len() as int
    } else if is_authority_end(s[i]) {
        i
    } else {
        authority_end_from(s, i + 1)
    }
}

/// The last occurrence of `c`.
pub open spec fn last_index(s: Seq<char>, c: char) -> Option<int>
    decreases s.len(),
{
    if s.len() == 0 {
        None
    } else if s.last() == c {
        Some(s.len() - 1)
    } else {
        last_index(s.drop_last(), c)
    }
}

/// The port text a URL names explicitly, if it names one. An IPv6 literal is
/// full of colons, so its port is whatever follows the closing bracket.
pub open spec fn explicit_port(host_port: Seq<char>) -> Option<Seq<char>> {
    match last_index(host_port, ']') {
        Some(c) => {
            let after = host_port.skip(c + 1);
            if after.len() > 0 && after[0] == ':' {
                Some(after.drop_first())
            } else {
                None
            }
        },
        None => match last_index(host_port, ':') {
            Some(k) => Some(host_port.skip(k + 1)),
            None => None,
        },
    }
}

/// The port a child reaches the gateway on: an explicit port when one parses,
/// otherwise the scheme's default; `None` for an unknown scheme or no scheme.
pub open spec fn gateway_port_spec(url: Seq<char>) -> Option<u16> {
    match scheme_sep_from(url, 0) {
        None => None,
        Some(i) => {
            let scheme = url.take(i);
            let rest = url.skip(i + 3);
            let authority = rest.take(authority_end_from(rest, 0));
            let host_port = match last_index(authority, '@') {
                Some(k) => authority.skip(k + 1),
                None => authority,
            };
            match explicit_port(host_port) {
                Some(p) if parse_uint(p, 65535) is Some => Some(parse_uint(p, 65535)->0 as u16),
                _ => if scheme == "https"@ {
                    Some(443u16)
                } else if scheme == "http"@ {
                    Some(80u16)
                } else {
                    None
                },
            }
        },
    }
}

proof fn lemma_last_index_props(s: Seq<char>, c: char)
    ensures
        match last_index(s, c) {
            Some(k) => 0 <= k < s.len() && s[k] == c && forall|j: int|
                k < j < s.len() ==> #[trigger] s[j] != c,
            None => forall|j: int| 0 <= j < s.len() ==> #[trigger] s[j] != c,
        },
    decreases s.len(),
{
    if s.len() > 0 && s.last() != c {
        let t = s.drop_last();
        lemma_last_index_props(t, c);
        match last_index(t, c) {
            Some(k) => {
                assert(s[k] == t[k]);
                assert forall|j: int| k < j < s.len() implies #[trigger] s[j] != c by {
                    if j < t.len() {
                        assert(s[j] == t[j]);
                    }
                }
            },
            None => {
                assert forall|j: int| 0 <= j < s.len() implies #[trigger] s[j] != c by {
                    if j < t.len() {
                        assert(s[j] == t[j]);
                    }
                }
            },
        }
    }
}

fn find_last(s: &Vec<char>, c: char) -> (r: Option<usize>)
    ensures
        match r {
            Some(k) => last_index(s@, c) == Some(k as int),
            None => last_index(s@, c) is None,
        },
{
    let mut i = s.len();
    assert(s@.take(i as int) =~= s@);
    while i > 0
        invariant
            i <= s.len(),
            last_index(s@, c) == last_index(s@.take(i as int), c),
        decreases i,
    {
        proof {
            let t = s@.take(i as int);
            assert(t.drop_last() =~= s@.take(i - 1));
            assert(t.last() == s@[i - 1]);
        }
        if s[i - 1] == c {
            return Some(i - 1);
        }
        i = i - 1;
    }
    assert(s@.take(0) =~= Seq::<char>::empty());
    None
}

fn slice_chars(s: &Vec<char>, from: usize, to: usize) -> (out: Vec<char>)
    requires
        from <= to <= s.len(),
    ensures
        out@ == s@.subrange(from as int, to as int),
{
    let mut out: Vec<char> = Vec::new();
    let mut i = from;
    while i < to
        invariant
            from <= i <= to <= s.len(),
            out@ == s@.subrange(from as int, i as int),
        decreases to - i,
    {
        out.push(s[i]);
        i = i + 1;
        assert(out@ =~= s@.subrange(from as int, i as int));
    }
    out
}

fn is_literal(s: &Vec<char>, lit: &str) -> (b: bool)
    ensures
        b == (s@ == lit@),
{
    let l = chars_of(lit);
    crate::text::chars_eq(s, &l)
}

fn find_scheme_sep(u: &Vec<char>) -> (r: Option<usize>)
    ensures
        match r {
            Some(i) => scheme_sep_from(u@, 0) == Some(i as int) && i + 3 <= u.len(),
            None => scheme_sep_from(u@, 0) is None,
        },
{
    let n = u.len();
    let mut i: usize = 0;
    while i < n && n - i >= 3
        invariant
            n == u.len(),
            i <= n,
            scheme_sep_from(u@, 0) == scheme_sep_from(u@, i as int),
        decreases n - i,
    {
        if u[i] == ':' && u[i + 1] == '/' && u[i + 2] == '/' {
            return Some(i);
        }
        i = i + 1;
    }
    None
}

/// The port the child talks to the gateway on, so the jail grants exactly
/// one. An explicit port wins; otherwise it is the scheme's default.
pub fn gateway_port(base_url: &str) -> (r: Option<u16>)
    ensures
        r == gateway_port_spec(base_url@),
{
    let u = chars_of(base_url);
    let n = u.len();
    let i = match find_scheme_sep(&u) {
        Some(i) => i,
        None => return None,
    };
    assert(scheme_sep_from(u@, 0) == Some(i as int));
    let scheme = slice_chars(&u, 0, i);
    let rest = slice_chars(&u, i + 3, n);
    assert(scheme@ =~= u@.take(i as int));
    assert(rest@ =~= u@.skip(i + 3));
    let mut e: usize = 0;
    while e < rest.len() && !(rest[e] == '/' || rest[e] == '?' || rest[e] == '#')
        invariant
            e <= rest.len(),
            authority_end_from(rest@, 0) == authority_end_from(rest@, e as int),
        decreases rest.len() - e,
    {
        e = e + 1;
    }
    let authority = slice_chars(&rest, 0, e);
    assert(authority@ =~= rest@.take(authority_end_from(rest@, 0)));
    let host_port = match find_last(&authority, '@') {
        Some(k) => {
            proof {
                lemma_last_index_props(authority@, '@');
            }
            let hp = slice_chars(&authority, k + 1, authority.len());
            assert(hp@ =~= authority@.skip(k + 1));
            hp
        },
        None => authority,
    };
    let explicit: Option<Vec<char>> = match find_last(&host_port, ']') {
        Some(c) => {
            proof {
                lemma_last_index_props(host_port@, ']');
            }
            let after = slice_chars(&host_port, c + 1, host_port.len());
            assert(after@ =~= host_port@.skip(c + 1));
            if after.len() > 0 && after[0] == ':' {
                let p = slice_chars(&after, 1, after.len());
                assert(p@ =~= after@.drop_first());
                Some(p)
            } else {
                None
            }
        },
        None => match find_last(&host_port, ':') {
            Some(k) => {
                proof {
                    lemma_last_index_props(host_port@, ':');
                }
                let p = slice_chars(&host_port, k + 1, host_port.len());
                assert(p@ =~= host_port@.skip(k + 1));
                Some(p)
            },
            None => None,
        },
    };
    assert(match explicit {
        Some(p) => explicit_port(host_port@) == Some(p@),
        None => explicit_port(host_port@) is None,
    });
    match &explicit {
        Some(p) => match parse_unsigned(p, 65535) {
            Some(port) => {
                return Some(port as u16);
            },
            None => {},
        },
        None => {},
    }
    if is_literal(&scheme, "https") {
        Some(443)
    } else if is_literal(&scheme, "http") {
        Some(80)
    } else {
        None
    }
}

/// `--allow-read <path>` for each path, in order.
pub open spec fn allow_reads(paths: Seq<Seq<char>>) -> Seq<Seq<char>>
    decreases paths.len(),
{
    if paths.len() == 0 {
        seq![]
    } else {
        allow_reads(paths.drop_last()) + seq!["--allow-read"@, paths.last()]
    }
}

/// `sp-pi-jail --workspace … --allow-read … [--allow-connect-tcp <port>] --
/// <pi>`: the trailing `--` and pi's own path are included, so whatever the
/// caller appends lands as pi's arguments.
pub open spec fn wrap_args_spec(
    workspace: Seq<char>,
    read_paths: Seq<Seq<char>>,
    base_url: Seq<char>,
    binary: Seq<char>,
) -> Seq<Seq<char>> {
    seq!["--workspace"@, workspace] + allow_reads(read_paths) + (match gateway_port_spec(base_url) {
        Some(p) => seq!["--allow-connect-tcp"@, decimal(p as int)],
        None => seq![],
    }) + seq!["--"@, binary]
}

pub open spec fn strs_view(v: Seq<String>) -> Seq<Seq<char>> {
    v.map_values(|s: String| s@)
}

fn push_str(out: &mut Vec<String>, s: String)
    ensures
        strs_view(final(out)@) == strs_view(old(out)@).push(s@),
{
    let ghost before = out@;
    let ghost sv = s@;
    out.push(s);
    assert(strs_view(out@) =~= strs_view(before).push(sv));
}

/// The jail's arguments for a child working in `workspace`, allowed to read
/// `read_paths` (the configured directories, then pi's own), talking to the
/// gateway at `base_url`, and running `binary`.
pub fn wrap_args(workspace: &str, read_paths: &Vec<String>, base_url: &str, binary: &str) -> (out:
    Vec<String>)
    ensures
        strs_view(out@) == wrap_args_spec(workspace@, strs_view(read_paths@), base_url@, binary@),
{
    let mut out: Vec<String> = Vec::new();
    push_str(&mut out, String::from_str("--workspace"));
    push_str(&mut out, String::from_str(workspace));
    let ghost head = strs_view(out@);
    assert(head =~= seq!["--workspace"@, workspace@]);
    let ghost rp = strs_view(read_paths@);
    let mut i: usize = 0;
    assert(rp.take(0) =~= Seq::<Seq<char>>::empty());
    assert(head + allow_reads(rp.take(0)) =~= head);
    while i < read_paths.len()
        invariant
            rp == strs_view(read_paths@),
            i <= read_paths.len(),
            strs_view(out@) == head + allow_reads(rp.take(i as int)),
        decreases read_paths.len() - i,
    {
        proof {
            let t = rp.take(i + 1);
            assert(t.drop_last() =~= rp.take(i as int));
            assert(t.last() == read_paths@[i as int]@);
        }
        push_str(&mut out, String::from_str("--allow-read"));
        push_str(&mut out, read_paths[i].clone());
        i = i + 1;
        assert(strs_view(out@) =~= head + allow_reads(rp.take(i as int)));
    }
    assert(rp.take(read_paths.len() as int) =~= rp);
    let ghost mid = strs_view(out@);
    match gateway_port(base_url) {
        Some(port) => {
            push_str(&mut out, String::from_str("--allow-connect-tcp"));
            push_str(&mut out, u64_to_string(port as u64));
            assert(strs_view(out@) =~= mid + seq!["--allow-connect-tcp"@, decimal(port as int)]);
        },
        None => {
            assert(strs_view(out@) =~= mid + Seq::<Seq<char>>::empty());
        },
    }
    let ghost tail = strs_view(out@);
    push_str(&mut out, String::from_str("--"));
    push_str(&mut out, String::from_str(binary));
    assert(strs_view(out@) =~= tail + seq!["--"@, binary@]);
    assert(strs_view(out@) =~= wrap_args_spec(workspace@, rp, base_url@, binary@));
    out
}

/// Where a binary named without a `/` is looked for: each non-empty
/// directory of a `PATH`-style list, in order, joined with the name. A name
/// holding a `/` is a path already and is its own only candidate.
pub open spec fn locate_candidates_spec(binary: Seq<char>, child_path: Seq<char>) -> Seq<Seq<char>> {
    if binary.contains('/') {
        seq![binary]
    } else {
        joined_dirs(crate::text::split(child_path, ':'), binary)
    }
}

/// `dir` joined with `name` as `Path::join` does for a relative name: a
/// separator is added unless `dir` already ends in one.
pub open spec fn join_path(dir: Seq<char>, name: Seq<char>) -> Seq<char> {
    if dir.len() > 0 && dir.last() == '/' {
        dir + name
    } else {
        dir + seq!['/'] + name
    }
}

pub open spec fn joined_dirs(dirs: Seq<Seq<char>>, name: Seq<char>) -> Seq<Seq<char>>
    decreases dirs.len(),
{
    if dirs.len() == 0 {
        seq![]
    } else {
        let p = joined_dirs(dirs.drop_last(), name);
        if dirs.last().len() == 0 {
            p
        } else {
            p.push(join_path(dirs.last(), name))
        }
    }
}

/// The paths at which pi's binary may be found, in the order they are tried;
/// the first that exists is the one the child runs.
pub fn locate_candidates(binary: &str, child_path: &str) -> (out: Vec<String>)
    ensures
        strs_view(out@) == locate_candidates_spec(binary@, child_path@),
{
    let b = chars_of(binary);
    let mut has_slash = false;
    let mut i: usize = 0;
    while i < b.len()
        invariant
            i <= b.len(),
            has_slash == exists|j: int| 0 <= j < i && b@[j] == '/',
        decreases b.len() - i,
    {
        if b[i] == '/' {
            has_slash = true;
        }
        i = i + 1;
    }
    let mut out: Vec<String> = Vec::new();
    if has_slash {
        push_str(&mut out, String::from_str(binary));
        assert(strs_view(out@) =~= seq![binary@]);
        return out;
    }
    assert forall|j: int| 0 <= j < b@.len() implies b@[j] != '/' by {}
    assert(!binary@.contains('/'));
    let cp = chars_of(child_path);
    let dirs = crate::text::split_chars(&cp, ':');
    let ghost ds = crate::text::split(child_path@, ':');
    let mut k: usize = 0;
    assert(ds.take(0) =~= Seq::<Seq<char>>::empty());
    while k < dirs.len()
        invariant
            k <= dirs.len(),
            dirs.len() == ds.len(),
            b@ == binary@,
            forall|j: int| 0 <= j < dirs.len() ==> #[trigger] dirs[j]@ == ds[j],
            strs_view(out@) == joined_dirs(ds.take(k as int), binary@),
        decreases dirs.len() - k,
    {
        proof {
            let t = ds.take(k + 1);
            assert(t.drop_last() =~= ds.take(k as int));
            assert(t.last() == dirs[k as int]@);
        }
        let d = &dirs[k];
        if d.len() > 0 {
            let mut joined = crate::text::string_of_chars(d);
            if d[d.len() - 1] != '/' {
                crate::text::push_char(&mut joined, '/');
            }
            crate::text::push_chars(&mut joined, &b);
            assert(joined@ =~= join_path(d@, binary@));
            push_str(&mut out, joined);
        }
        k = k + 1;
    }
    assert(ds.take(dirs.len() as int) =~= ds);
    out
}

} // verus!
