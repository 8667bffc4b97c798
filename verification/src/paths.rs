//! Paths of a Unix file system, as texts.

use crate::text::{from_chars, opt_text, to_chars};
use vstd::prelude::*;

verus! {

/// Whether a path begins at the root.
pub open spec fn rooted(s: Seq<char>) -> bool {
    s.len() > 0 && s[0] == '/'
}

/// Whether a path begins with the current directory, written as a dot.
pub open spec fn dotted(s: Seq<char>) -> bool {
    s.len() > 0 && s[0] == '.' && (s.len() == 1 || s[1] == '/')
}

/// Where the components of a path begin: behind the root or the leading dot.
pub open spec fn body_start(s: Seq<char>) -> int {
    if rooted(s) || dotted(s) {
        1
    } else {
        0
    }
}

/// Where the last component begins: behind the last slash of the body.
pub open spec fn last_start(s: Seq<char>, lo: int) -> int
    decreases s.len(),
{
    if s.len() <= lo || lo < 0 {
        lo
    } else if s.last() == '/' {
        s.len() as int
    } else {
        last_start(s.drop_last(), lo)
    }
}

/// The path without its last component and the slash before that.
pub open spec fn cut_last(s: Seq<char>, lo: int) -> Seq<char> {
    let c = last_start(s, lo);
    if c > lo {
        s.take(c - 1)
    } else {
        s.take(lo)
    }
}

/// Whether the last component names nothing: it is empty, or a dot.
pub open spec fn idle_last(s: Seq<char>, lo: int) -> bool {
    let comp = s.skip(last_start(s, lo));
    comp.len() == 0 || (comp.len() == 1 && comp[0] == '.')
}

/// The path without the components at its end that name nothing.
pub open spec fn tidy_end(s: Seq<char>, lo: int) -> Seq<char>
    decreases s.len(),
{
    if lo < 0 || s.len() <= lo || !idle_last(s, lo) {
        s
    } else if cut_last(s, lo).len() < s.len() {
        tidy_end(cut_last(s, lo), lo)
    } else {
        s
    }
}

/// The path without its final component. There is none for the root and for the empty path;
/// a relative path of one component leaves the empty path.
pub open spec fn parent_path(s: Seq<char>) -> Option<Seq<char>> {
    let lo = body_start(s);
    let t = tidy_end(s, lo);
    if t.len() > lo {
        Some(tidy_end(cut_last(t, lo), lo))
    } else if dotted(s) {
        Some(Seq::empty())
    } else {
        None
    }
}

/// A path below another: a rooted one stands alone, any other is put behind a slash.
pub open spec fn joined_path(base: Seq<char>, rest: Seq<char>) -> Seq<char> {
    if rooted(rest) || base.len() == 0 {
        rest
    } else if base.last() == '/' {
        base + rest
    } else {
        base + seq!['/'] + rest
    }
}

/// A path below another.
pub fn join_paths(base: &str, rest: &str) -> (r: String)
    ensures
        r@ == joined_path(base@, rest@),
{
    let b = to_chars(base);
    let c = to_chars(rest);
    if b.len() == 0 || (c.len() > 0 && c[0] == '/') {
        return rest.to_owned();
    }
    let mut out = base.to_owned();
    if b[b.len() - 1] != '/' {
        out.push('/');
    }
    out.append(rest);
    assert(out@ =~= joined_path(base@, rest@));
    out
}

/// What `Path::strip_prefix` leaves of a path, where the path begins with the prefix.
pub uninterp spec fn path_below(path: Seq<char>, base: Seq<char>) -> Option<Seq<char>>;

/// `Path::strip_prefix` on paths of a Unix file system: a function of the two paths alone. It
/// gives `None` where the path does not begin with the components of the other.
#[verifier::external_body]
pub(crate) fn path_strip_prefix(path: &str, base: &str) -> (r: Option<String>)
    ensures
        opt_text(r) == path_below(path@, base@),
{
    let rest = std::path::Path::new(path).strip_prefix(base);
    rest.ok().map(|p| p.to_string_lossy().to_string())
}

/// Whether a path is another one, or lies under it.
pub fn lies_under(path: &str, base: &str) -> (r: bool)
    ensures
        r == (path_below(path@, base@) is Some),
{
    path_strip_prefix(path, base).is_some()
}

/// The last component begins in the body of the path.
proof fn lemma_last_start(s: Seq<char>, lo: int)
    requires
        0 <= lo <= s.len(),
    ensures
        lo <= last_start(s, lo) <= s.len(),
    decreases s.len(),
{
    if s.len() > lo && s.last() != '/' {
        lemma_last_start(s.drop_last(), lo);
    }
}

/// Where the last component of the first `len` characters begins.
fn find_last_start(cs: &Vec<char>, len: usize, lo: usize) -> (r: usize)
    requires
        lo <= len <= cs@.len(),
    ensures
        r == last_start(cs@.take(len as int), lo as int),
        lo <= r <= len,
{
    let mut k: usize = len;
    while k > lo && cs[k - 1] != '/'
        invariant
            lo <= k <= len,
            len <= cs@.len(),
            last_start(cs@.take(len as int), lo as int) == last_start(
                cs@.take(k as int),
                lo as int,
            ),
        decreases k,
    {
        assert(cs@.take(k as int).drop_last() =~= cs@.take(k - 1));
        k -= 1;
    }
    k
}

/// How much of the first `len` characters is left without the components at the end that name
/// nothing.
fn find_tidy_end(cs: &Vec<char>, len: usize, lo: usize) -> (r: usize)
    requires
        lo <= len <= cs@.len(),
    ensures
        lo <= r <= len,
        cs@.take(r as int) == tidy_end(cs@.take(len as int), lo as int),
{
    let mut n: usize = len;
    loop
        invariant
            lo <= n <= len,
            len <= cs@.len(),
            tidy_end(cs@.take(len as int), lo as int) == tidy_end(cs@.take(n as int), lo as int),
        decreases n,
    {
        if n == lo {
            return n;
        }
        let ghost s = cs@.take(n as int);
        let c = find_last_start(cs, n, lo);
        assert(s.skip(c as int).len() == n - c);
        if c < n {
            assert(s.skip(c as int)[0] == cs@[c as int]);
        }
        if !(c == n || (c + 1 == n && cs[c] == '.')) {
            return n;
        }
        let cut: usize = if c > lo {
            c - 1
        } else {
            lo
        };
        assert(s.take(cut as int) =~= cs@.take(cut as int));
        n = cut;
    }
}

/// The path without its final component.
pub fn parent(path: &str) -> (r: Option<String>)
    ensures
        opt_text(r) == parent_path(path@),
{
    let cs = to_chars(path);
    let n = cs.len();
    let dot = n > 0 && cs[0] == '.' && (n == 1 || cs[1] == '/');
    let root = n > 0 && cs[0] == '/';
    let lo: usize = if root || dot {
        1
    } else {
        0
    };
    assert(cs@.take(n as int) =~= cs@);
    let t = find_tidy_end(&cs, n, lo);
    if t > lo {
        let c = find_last_start(&cs, t, lo);
        let cut: usize = if c > lo {
            c - 1
        } else {
            lo
        };
        proof {
            lemma_last_start(cs@.take(t as int), lo as int);
            assert(cs@.take(t as int).take(cut as int) =~= cs@.take(cut as int));
        }
        let e = find_tidy_end(&cs, cut, lo);
        assert(cs@.subrange(0, e as int) =~= cs@.take(e as int));
        Some(from_chars(&cs, 0, e))
    } else if dot {
        Some(String::new())
    } else {
        None
    }
}

/// The name of the file or directory that a path leads to. There is none for the root, for the
/// empty path, and where the path ends in a step upwards.
pub open spec fn name_of_file(s: Seq<char>) -> Option<Seq<char>> {
    let lo = body_start(s);
    let t = tidy_end(s, lo);
    let name = t.skip(last_start(t, lo));
    if t.len() <= lo || (name.len() == 2 && name[0] == '.' && name[1] == '.') {
        None
    } else {
        Some(name)
    }
}

/// The name of the file or directory that a path leads to.
pub fn file_name(path: &str) -> (r: Option<String>)
    ensures
        opt_text(r) == name_of_file(path@),
{
    let cs = to_chars(path);
    let n = cs.len();
    let lo: usize = if n > 0 && (cs[0] == '/' || (cs[0] == '.' && (n == 1 || cs[1] == '/'))) {
        1
    } else {
        0
    };
    assert(cs@.take(n as int) =~= cs@);
    let t = find_tidy_end(&cs, n, lo);
    if t <= lo {
        return None;
    }
    let c = find_last_start(&cs, t, lo);
    assert(cs@.take(t as int).skip(c as int) =~= cs@.subrange(c as int, t as int));
    if t - c == 2 && cs[c] == '.' && cs[c + 1] == '.' {
        return None;
    }
    Some(from_chars(&cs, c, t))
}

/// The repository that a worktree belongs to. Worktrees stand at
/// `<repository>/.worktrees/<name>`, so that is two levels up.
pub fn find_repo_root(ws_path: &str) -> (r: Option<String>)
    ensures
        opt_text(r) == repo_root(ws_path@),
{
    match parent(ws_path) {
        Some(p) => parent(p.as_str()),
        None => None,
    }
}

/// The repository that a worktree belongs to.
pub open spec fn repo_root(ws_path: Seq<char>) -> Option<Seq<char>> {
    match parent_path(ws_path) {
        Some(p) => parent_path(p),
        None => None,
    }
}

/// Whether a text can be the name of one entry of a directory.
pub open spec fn is_entry(name: Seq<char>) -> bool {
    &&& name.len() > 0
    &&& forall|i: int| 0 <= i < name.len() ==> #[trigger] name[i] != '/'
    &&& !(name.len() == 1 && name[0] == '.')
}

/// The last component of a path with an entry at its end is that entry.
proof fn lemma_entry(dir: Seq<char>, name: Seq<char>, lo: int)
    requires
        0 <= lo <= dir.len(),
        forall|i: int| 0 <= i < name.len() ==> #[trigger] name[i] != '/',
    ensures
        last_start(dir + seq!['/'] + name, lo) == dir.len() + 1,
    decreases name.len(),
{
    let s = dir + seq!['/'] + name;
    if name.len() == 0 {
        assert(s =~= dir + seq!['/']);
        assert(s.last() == '/');
    } else {
        assert(s.last() == name.last());
        assert(name[name.len() - 1] != '/');
        let short = name.drop_last();
        assert(s.drop_last() =~= dir + seq!['/'] + short);
        assert forall|i: int| 0 <= i < short.len() implies #[trigger] short[i] != '/' by {
            assert(short[i] == name[i]);
        }
        lemma_entry(dir, short, lo);
    }
}

/// The parent of an entry of a directory is that directory, where its path ends in a component
/// that names something.
pub proof fn lemma_parent_of_entry(dir: Seq<char>, name: Seq<char>)
    requires
        is_entry(name),
        dir.len() > body_start(dir),
        !idle_last(dir, body_start(dir)),
    ensures
        parent_path(dir + seq!['/'] + name) == Some(dir),
{
    let s = dir + seq!['/'] + name;
    let lo = body_start(dir);
    assert(s[0] == dir[0]);
    if dir.len() >= 2 {
        assert(s[1] == dir[1]);
    } else {
        assert(s[1] == '/');
    }
    assert(body_start(s) == lo);
    lemma_entry(dir, name, lo);
    assert(s.skip(dir.len() as int + 1) =~= name);
    assert(!idle_last(s, lo));
    assert(tidy_end(s, lo) == s);
    assert(s.take(dir.len() as int) =~= dir);
    assert(cut_last(s, lo) == dir);
    assert(tidy_end(dir, lo) == dir);
}

/// The repository of `<repository>/.worktrees/<name>` is the repository.
pub proof fn law_worktree_of_repository(repo: Seq<char>, name: Seq<char>)
    requires
        is_entry(name),
        repo.len() > body_start(repo),
        !idle_last(repo, body_start(repo)),
    ensures
        repo_root(repo + "/.worktrees/"@ + name) == Some(repo),
{
    reveal_strlit("/.worktrees/");
    let mid = "/.worktrees/"@.subrange(1, 11);
    assert("/.worktrees/"@ =~= seq!['/'] + mid + seq!['/']);
    assert(mid[0] == '.' && mid.len() == 10);
    let dir = repo + seq!['/'] + mid;
    assert(repo + "/.worktrees/"@ + name =~= dir + seq!['/'] + name);
    assert(is_entry(mid));
    lemma_parent_of_entry(repo, mid);
    assert(dir[0] == repo[0]);
    if repo.len() >= 2 {
        assert(dir[1] == repo[1]);
    } else {
        assert(dir[1] == '/');
    }
    lemma_entry(repo, mid, body_start(repo));
    assert(dir.skip(repo.len() as int + 1) =~= mid);
    lemma_parent_of_entry(dir, name);
}

/// The name at the end of a path is that of the entry.
pub proof fn law_name_of_entry(dir: Seq<char>, name: Seq<char>)
    requires
        is_entry(name),
        name != seq!['.', '.'],
        dir.len() > 0,
    ensures
        name_of_file(dir + seq!['/'] + name) == Some(name),
{
    let s = dir + seq!['/'] + name;
    let lo = body_start(s);
    assert(s[0] == dir[0]);
    assert(0 <= lo <= dir.len());
    lemma_entry(dir, name, lo);
    assert(s.skip(dir.len() as int + 1) =~= name);
    assert(!idle_last(s, lo));
    assert(tidy_end(s, lo) == s);
    if name.len() == 2 && name[0] == '.' && name[1] == '.' {
        assert(name =~= seq!['.', '.']);
    }
}

/// A relative path is put below another with one slash between; a rooted one stands alone, and so
/// does a path below nothing.
pub proof fn law_joined_paths(base: Seq<char>, rest: Seq<char>)
    ensures
        joined_path(base, seq!['/'] + rest) == seq!['/'] + rest,
        joined_path(Seq::empty(), rest) == rest,
        base.len() > 0 && (rest.len() == 0 || rest[0] != '/') ==> joined_path(base, rest)
            == if base.last() == '/' {
            base + rest
        } else {
            base.push('/') + rest
        },
{
    assert(base + seq!['/'] =~= base.push('/'));
}

/// The parent of an entry of the root is the root, and of an entry of the current directory, or of
/// none, that directory; the root and the empty path have no parent.
pub proof fn law_parents(name: Seq<char>)
    requires
        is_entry(name),
    ensures
        parent_path(seq!['/'] + name) == Some(seq!['/']),
        parent_path(seq!['.', '/'] + name) == Some(seq!['.']),
        parent_path(name) == Some(Seq::<char>::empty()),
        parent_path(seq!['/']) is None,
        parent_path(Seq::empty()) is None,
        parent_path(seq!['.']) == Some(Seq::<char>::empty()),
{
    let none = Seq::<char>::empty();
    lemma_no_slash_start(name, 0);
    assert(name[0] != '/');
    assert(!rooted(name));
    assert(!dotted(name)) by {
        if dotted(name) {
            assert(name.len() >= 2 && name[1] == '/');
        }
    }
    assert(name.skip(0) =~= name);
    assert(!idle_last(name, 0));
    assert(tidy_end(name, 0) == name);
    assert(name.take(0) =~= none);
    assert(tidy_end(none, 0) == none);

    let r = seq!['/'] + name;
    assert(r[0] == '/');
    lemma_start_behind(seq!['/'], name);
    assert(r.skip(1) =~= name);
    assert(!idle_last(r, 1));
    assert(tidy_end(r, 1) == r);
    assert(r.take(1) =~= seq!['/']);
    assert(tidy_end(r.take(1), 1) == r.take(1));

    let d = seq!['.', '/'] + name;
    assert(d =~= seq!['.'] + seq!['/'] + name);
    assert(d[0] == '.' && d[1] == '/');
    lemma_entry(seq!['.'], name, 1);
    assert(d.skip(2) =~= name);
    assert(!idle_last(d, 1));
    assert(tidy_end(d, 1) == d);
    assert(d.take(1) =~= seq!['.']);
    assert(cut_last(d, 1) == d.take(1));
    assert(tidy_end(d.take(1), 1) == d.take(1));

    assert(body_start(seq!['/']) == 1 && body_start(seq!['.']) == 1);
    assert(tidy_end(seq!['/'], 1) == seq!['/']);
    assert(tidy_end(seq!['.'], 1) == seq!['.']);
}

/// A text without a slash is one component.
proof fn lemma_no_slash_start(s: Seq<char>, lo: int)
    requires
        lo >= 0,
        forall|i: int| 0 <= i < s.len() ==> #[trigger] s[i] != '/',
    ensures
        last_start(s, lo) == lo,
    decreases s.len(),
{
    if s.len() > lo {
        assert(s[s.len() - 1] != '/');
        let t = s.drop_last();
        assert forall|i: int| 0 <= i < t.len() implies #[trigger] t[i] != '/' by {
            assert(t[i] == s[i]);
        }
        lemma_no_slash_start(t, lo);
    }
}

/// A name behind what a path begins with is its one component.
proof fn lemma_start_behind(head: Seq<char>, name: Seq<char>)
    requires
        forall|i: int| 0 <= i < name.len() ==> #[trigger] name[i] != '/',
    ensures
        last_start(head + name, head.len() as int) == head.len(),
    decreases name.len(),
{
    let s = head + name;
    if name.len() > 0 {
        assert(s.last() == name[name.len() - 1]);
        let t = name.drop_last();
        assert forall|i: int| 0 <= i < t.len() implies #[trigger] t[i] != '/' by {
            assert(t[i] == name[i]);
        }
        assert(s.drop_last() =~= head + t);
        lemma_start_behind(head, t);
    }
}

} // verus!
