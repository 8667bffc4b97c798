//! File size scan: code files that have grown too long.

use crate::paths::{file_name, name_of_file};
use crate::text::{
    begins, contains, from_chars, line_list, lines, occurs, opt_text, same, starts_with, texts,
    to_chars, trim_matches, trimmed_of,
};
use vstd::prelude::*;

verus! {

/// How many lines a code file may have.
pub const MAX_LINES: usize = 300;

/// The directory that is scanned where none is named.
pub fn default_path() -> (r: String)
    ensures
        r@ == "."@,
{
    ".".to_owned()
}

/// Whether a directory may be scanned: its path is relative, and holds no pair of dots.
pub open spec fn scannable(path: Seq<char>) -> bool {
    !(path.len() > 0 && path[0] == '/') && !occurs(path, ".."@)
}

/// Whether a directory may be scanned.
pub fn may_scan(path: &str) -> (r: bool)
    ensures
        r == scannable(path@),
{
    let cs = to_chars(path);
    !(cs.len() > 0 && cs[0] == '/') && !contains(path, "..")
}

/// Whether a directory is left out: it is hidden, or holds what was built or fetched.
pub open spec fn skipped_dir(name: Seq<char>) -> bool {
    begins(name, "."@) || name == "target"@ || name == "node_modules"@
}

/// Whether a directory is left out.
pub fn is_skipped_dir(name: &str) -> (r: bool)
    ensures
        r == skipped_dir(name@),
{
    starts_with(name, ".") || same(name, "target") || same(name, "node_modules")
}

/// The place of the last dot.
pub open spec fn last_dot(s: Seq<char>) -> Option<int>
    decreases s.len(),
{
    if s.len() == 0 {
        None
    } else if s.last() == '.' {
        Some(s.len() - 1)
    } else {
        last_dot(s.drop_last())
    }
}

/// The extension of a file name: what stands behind its last dot, unless nothing stands before
/// that.
pub open spec fn extension_of_name(name: Seq<char>) -> Option<Seq<char>> {
    match last_dot(name) {
        Some(k) if k > 0 => Some(name.skip(k + 1)),
        _ => None,
    }
}

/// The extension of the file that a path leads to.
pub open spec fn extension(path: Seq<char>) -> Option<Seq<char>> {
    match name_of_file(path) {
        Some(name) => extension_of_name(name),
        None => None,
    }
}

/// The extensions of code files.
pub open spec fn is_code_extension(ext: Seq<char>) -> bool {
    ext == "rs"@ || ext == "ts"@ || ext == "js"@ || ext == "sh"@
}

/// Whether a path leads to a code file.
pub open spec fn code_file(path: Seq<char>) -> bool {
    match extension(path) {
        Some(ext) => is_code_extension(ext),
        None => false,
    }
}

/// The last dot is in the text.
proof fn lemma_last_dot(s: Seq<char>)
    ensures
        last_dot(s) matches Some(k) ==> 0 <= k < s.len(),
    decreases s.len(),
{
    if s.len() > 0 && s.last() != '.' {
        lemma_last_dot(s.drop_last());
    }
}

/// The extension of a file name.
fn name_extension(name: &str) -> (r: Option<String>)
    ensures
        opt_text(r) == extension_of_name(name@),
{
    let cs = to_chars(name);
    let mut k: usize = cs.len();
    assert(cs@.take(cs@.len() as int) =~= cs@);
    while k > 0 && cs[k - 1] != '.'
        invariant
            cs@ == name@,
            k <= cs@.len(),
            last_dot(cs@) == last_dot(cs@.take(k as int)),
        decreases k,
    {
        assert(cs@.take(k as int).drop_last() =~= cs@.take(k - 1));
        k -= 1;
    }
    if k <= 1 {
        return None;
    }
    let ext = from_chars(&cs, k, cs.len());
    assert(ext@ =~= name@.skip(k as int));
    Some(ext)
}

/// Whether a path leads to a code file.
pub fn is_code_file(path: &str) -> (r: bool)
    ensures
        r == code_file(path@),
{
    match file_name(path) {
        Some(name) => match name_extension(name.as_str()) {
            Some(ext) => same(ext.as_str(), "rs") || same(ext.as_str(), "ts") || same(
                ext.as_str(),
                "js",
            ) || same(ext.as_str(), "sh"),
            None => false,
        },
        None => false,
    }
}

/// The star.
pub open spec fn star() -> spec_fn(char) -> bool {
    |c: char| c == '*'
}

/// Whether a pattern leaves out a file: it is no comment, and the file's path holds it, apart
/// from stars at its ends.
pub open spec fn leaves_out(pattern: Seq<char>, file: Seq<char>) -> bool {
    !begins(pattern, "#"@) && pattern.len() > 0 && occurs(file, trimmed_of(pattern, star()))
}

/// Whether any pattern leaves out a file.
pub open spec fn left_out(file: Seq<char>, patterns: Seq<Seq<char>>) -> bool {
    exists|i: int| 0 <= i < patterns.len() && leaves_out(#[trigger] patterns[i], file)
}

/// Whether any pattern leaves out a file.
pub fn is_excluded(file: &str, patterns: &Vec<String>) -> (r: bool)
    ensures
        r == left_out(file@, texts(patterns@)),
{
    let ghost all = texts(patterns@);
    let mut i: usize = 0;
    while i < patterns.len()
        invariant
            i <= patterns@.len(),
            all == texts(patterns@),
            forall|k: int| 0 <= k < i ==> !leaves_out(#[trigger] all[k], file@),
        decreases patterns@.len() - i,
    {
        let pattern = patterns[i].as_str();
        assert(all[i as int] == pattern@);
        if !starts_with(pattern, "#") && !pattern.is_empty() {
            let bare = trim_matches(
                pattern,
                |c: char| -> (b: bool) ensures b == (c == '*') { c == '*' },
                Ghost(star()),
            );
            if contains(file, bare.as_str()) {
                assert(leaves_out(all[i as int], file@));
                return true;
            }
        }
        i += 1;
    }
    false
}

/// A file that has grown too long.
#[derive(Debug, Clone)]
pub struct Violation {
    pub file: String,
    pub lines: usize,
    pub over_by: usize,
}

/// The lines of the file in which patterns of files to leave out are written down.
pub fn exclude_patterns(text: &str) -> (r: Vec<String>)
    ensures
        texts(r@) == line_list(text@),
{
    lines(text)
}

/// Looks at one file: it has grown too long where it is a code file, no pattern leaves it out,
/// and it has more lines than it may have.
pub fn check_file(file: &str, content: &str, patterns: &Vec<String>) -> (r: Option<Violation>)
    ensures
        match r {
            Some(v) => {
                &&& code_file(file@)
                &&& !left_out(file@, texts(patterns@))
                &&& line_list(content@).len() > MAX_LINES
                &&& v.file@ == file@
                &&& v.lines == line_list(content@).len()
                &&& v.over_by == v.lines - MAX_LINES
            },
            None => !code_file(file@) || left_out(file@, texts(patterns@)) || line_list(
                content@,
            ).len() <= MAX_LINES,
        },
{
    if !is_code_file(file) || is_excluded(file, patterns) {
        return None;
    }
    let list = lines(content);
    assert(texts(list@).len() == list@.len());
    let n: usize = list.len();
    if n > MAX_LINES {
        Some(Violation { file: file.to_owned(), lines: n, over_by: n - MAX_LINES })
    } else {
        None
    }
}

/// The extension of a file is what stands behind the last dot of its name, where something stands
/// before that dot.
pub proof fn law_extension_of_name(stem: Seq<char>, ext: Seq<char>)
    requires
        forall|i: int| 0 <= i < ext.len() ==> #[trigger] ext[i] != '.',
    ensures
        extension_of_name(ext) is None,
        extension_of_name(stem.push('.') + ext) == if stem.len() > 0 {
            Some(ext)
        } else {
            None
        },
{
    lemma_last_dot_of(stem, ext);
    let s = stem.push('.') + ext;
    assert(s.skip(stem.len() as int + 1) =~= ext);
}

/// Where the last dot of a name stands.
proof fn lemma_last_dot_of(stem: Seq<char>, ext: Seq<char>)
    requires
        forall|i: int| 0 <= i < ext.len() ==> #[trigger] ext[i] != '.',
    ensures
        last_dot(ext) is None,
        last_dot(stem.push('.') + ext) == Some(stem.len() as int),
    decreases ext.len(),
{
    let s = stem.push('.') + ext;
    if ext.len() > 0 {
        let short = ext.drop_last();
        assert(ext[ext.len() - 1] != '.');
        assert forall|i: int| 0 <= i < short.len() implies #[trigger] short[i] != '.' by {
            assert(short[i] == ext[i]);
        }
        lemma_last_dot_of(stem, short);
        assert(s.drop_last() =~= stem.push('.') + short);
        assert(s.last() == ext.last());
    } else {
        assert(s =~= stem.push('.'));
    }
}

/// A file in a directory is code exactly where its extension is one of the four.
pub proof fn law_code_files(dir: Seq<char>, stem: Seq<char>, ext: Seq<char>)
    requires
        dir.len() > 0,
        stem.len() > 0,
        forall|i: int| 0 <= i < stem.len() ==> #[trigger] stem[i] != '/' && stem[i] != '.',
        forall|i: int| 0 <= i < ext.len() ==> #[trigger] ext[i] != '/' && ext[i] != '.',
    ensures
        code_file(dir + seq!['/'] + (stem.push('.') + ext)) <==> ext == "rs"@ || ext == "ts"@ || ext
            == "js"@ || ext == "sh"@,
{
    let name = stem.push('.') + ext;
    law_extension_of_name(stem, ext);
    assert forall|i: int| 0 <= i < name.len() implies #[trigger] name[i] != '/' by {
        if i < stem.len() {
            assert(name[i] == stem[i]);
        } else if i > stem.len() {
            assert(name[i] == ext[i - stem.len() - 1]);
        }
    }
    assert(name[0] == stem[0]);
    assert(name != seq!['.', '.']) by {
        assert(seq!['.', '.'][0] == '.');
    }
    crate::paths::law_name_of_entry(dir, name);
}

/// A directory is scanned exactly where its path is relative and holds no pair of dots, and within
/// it those are left out that are hidden, built or fetched. A file has at most 300 lines.
pub proof fn law_what_is_scanned(path: Seq<char>, name: Seq<char>)
    ensures
        scannable(path) <==> (path.len() == 0 || path[0] != '/') && !occurs(path, ".."@),
        skipped_dir(name) <==> name.len() > 0 && name[0] == '.' || name == "target"@ || name
            == "node_modules"@,
        MAX_LINES == 300,
{
    reveal_strlit(".");
    assert("."@ =~= seq!['.']);
    if name.len() > 0 {
        assert(name.subrange(0, 1)[0] == name[0]);
        if name[0] == '.' {
            assert(name.subrange(0, 1) =~= "."@);
        }
    }
}

/// A file is left out exactly where a pattern that is neither empty nor a comment stands in its
/// path, without the stars at the ends of the pattern.
pub proof fn law_patterns(file: Seq<char>, patterns: Seq<Seq<char>>)
    ensures
        left_out(file, patterns) <==> exists|i: int|
            0 <= i < patterns.len() && (#[trigger] patterns[i]).len() > 0 && patterns[i][0] != '#'
                && occurs(file, trimmed_of(patterns[i], |c: char| c == '*')),
{
    reveal_strlit("#");
    assert("#"@ =~= seq!['#']);
    assert(star() =~= (|c: char| c == '*'));
    assert forall|i: int| 0 <= i < patterns.len() implies (leaves_out(#[trigger] patterns[i], file)
        <==> patterns[i].len() > 0 && patterns[i][0] != '#' && occurs(
        file,
        trimmed_of(patterns[i], |c: char| c == '*'),
    )) by {
        let p = patterns[i];
        if p.len() > 0 {
            assert(p.subrange(0, 1)[0] == p[0]);
            if p[0] == '#' {
                assert(p.subrange(0, 1) =~= "#"@);
            }
        }
    }
}

} // verus!
