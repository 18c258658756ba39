//! Named workspaces of Markdown sources.
use vstd::prelude::*;
use crate::text::{chars_of, string_of};
use crate::search::same_text;
use crate::edits::append_chars;

verus! {

/// A workspace: its name, its task files (absolute paths, sorted and without
/// repeats when configured), and warnings about configured files.
#[derive(Debug, Clone, PartialEq, Eq)]
pub struct WorkspaceDefinition {
    pub name: String,
    pub files: Vec<String>,
    pub warnings: Vec<String>,
}

impl WorkspaceDefinition {
    /// A workspace of one file, already made absolute.
    pub fn single(name: String, file: String) -> (w: Self)
        ensures
            w.name@ == name@,
            w.files@.len() == 1,
            w.files@[0]@ == file@,
            w.warnings@.len() == 0,
    {
        let mut files = Vec::new();
        files.push(file);
        WorkspaceDefinition { name, files, warnings: Vec::new() }
    }
}

/// A configured path is a glob when it holds `*`, `?` or `[`.
pub open spec fn spec_contains_glob(path: Seq<char>) -> bool {
    exists|i: int| 0 <= i < path.len() && (#[trigger] path[i] == '*' || path[i] == '?' || path[i] == '[')
}

pub fn contains_glob(path: &str) -> (b: bool)
    ensures
        b == spec_contains_glob(path@),
{
    let p = chars_of(path);
    let mut i: usize = 0;
    while i < p.len()
        invariant
            i <= p@.len(),
            p@ == path@,
            forall|j: int| 0 <= j < i ==> !(#[trigger] p@[j] == '*' || p@[j] == '?' || p@[j] == '['),
        decreases p.len() - i,
    {
        if p[i] == '*' || p[i] == '?' || p[i] == '[' {
            return true;
        }
        i += 1;
    }
    false
}

/// The workspace to open first: the one with a file whose directory holds
/// the working directory most deeply. `depths[i]` is, for workspace `i`, the
/// largest number of path components of such a directory, or `None`. Among
/// equal depths the later workspace wins; with no candidate, the first.
pub open spec fn spec_deepest(depths: Seq<Option<usize>>, n: int) -> Option<(int, usize)>
    decreases n,
{
    if n <= 0 || n > depths.len() {
        None
    } else {
        let rest = spec_deepest(depths, n - 1);
        match depths[n - 1] {
            Some(d) => match rest {
                Some((i, best)) => if d >= best {
                    Some((n - 1, d))
                } else {
                    rest
                },
                None => Some((n - 1, d)),
            },
            None => rest,
        }
    }
}

pub fn initial_workspace_index(depths: &Vec<Option<usize>>) -> (r: usize)
    ensures
        r == match spec_deepest(depths@, depths@.len() as int) {
            Some((i, _)) => i,
            None => 0,
        },
{
    let mut best: Option<(usize, usize)> = None;
    let mut i: usize = 0;
    while i < depths.len()
        invariant
            i <= depths@.len(),
            match best {
                Some((a, b)) => spec_deepest(depths@, i as int) == Some((a as int, b)),
                None => spec_deepest(depths@, i as int) is None,
            },
        decreases depths.len() - i,
    {
        match depths[i] {
            Some(d) => {
                best = match best {
                    Some((a, b)) => if d >= b {
                        Some((i, d))
                    } else {
                        Some((a, b))
                    },
                    None => Some((i, d)),
                };
            },
            None => {},
        }
        i += 1;
    }
    match best {
        Some((a, _)) => a,
        None => 0,
    }
}


/// A file configured for a workspace: the name with `~` expanded, joined to
/// the directory of the configuration file unless that makes it absolute.
pub fn resolve_configured_path(configured: &str, home: Option<String>, base: &str) -> (r: String)
    ensures
        r@ == crate::config::spec_resolve_task_file(configured@, crate::models::opt_view(home), base@),
{
    crate::config::resolve_task_file(configured, home, base)
}


/// What `format!("{:?}", s)` gives for a string: the string in double quotes
/// with its special characters escaped.
pub uninterp spec fn debug_quoted(s: Seq<char>) -> Seq<char>;

/// Printable ASCII other than `"` and `\`, which the quoted form keeps as is.
pub open spec fn plain_ascii(s: Seq<char>) -> bool {
    forall|i: int| 0 <= i < s.len() ==> ' ' <= #[trigger] s[i] <= '~' && s[i] != '"' && s[i] != '\\'
}

/// Quotes a configured path as Rust's `Debug` for `str` does, with `format!`.
/// Claimed: the result is `debug_quoted` of the input, and a text of printable
/// ASCII without `"` or `\` comes back between two double quotes unchanged,
/// as the documentation of `char::escape_debug` describes.
#[verifier::external_body]
fn quoted(s: &str) -> (r: String)
    ensures
        r@ == debug_quoted(s@),
        plain_ascii(s@) ==> r@ == seq!['"'] + s@ + seq!['"'],
{
    format!("{s:?}")
}

/// One result of expanding a configured glob: a file (as an absolute path), a
/// path that is not a file (as displayed), or an entry that could not be read
/// (with the error's text).
#[derive(Debug, Clone, PartialEq, Eq)]
pub enum GlobEntry {
    File(String),
    NotFile(String),
    Unreadable(String),
}

/// A configured workspace file: a plain path (made absolute), or a glob with
/// the entries it expanded to.
#[derive(Debug, Clone, PartialEq, Eq)]
pub enum ConfiguredFile {
    Plain(String),
    Glob { pattern: String, entries: Vec<GlobEntry> },
}

pub open spec fn non_file_warning(q: Seq<char>, shown: Seq<char>) -> Seq<char> {
    "glob "@ + q + " ignored non-file "@ + shown
}

pub open spec fn unreadable_warning(q: Seq<char>, error: Seq<char>) -> Seq<char> {
    "glob "@ + q + " could not read an entry: "@ + error
}

pub open spec fn no_match_warning(q: Seq<char>) -> Seq<char> {
    "glob "@ + q + " matched no Markdown files"@
}

/// Index of the first `/` at or after `i`, or the length.
pub open spec fn slash_from(p: Seq<char>, i: int) -> int
    decreases p.len() - i,
{
    if 0 <= i < p.len() && p[i] != '/' {
        slash_from(p, i + 1)
    } else {
        i
    }
}

pub proof fn lemma_slash_from(p: Seq<char>, i: int)
    requires
        0 <= i <= p.len(),
    ensures
        i <= slash_from(p, i) <= p.len(),
    decreases p.len() - i,
{
    if i < p.len() && p[i] != '/' {
        lemma_slash_from(p, i + 1);
    }
}

/// The named components of `p[i..]`: the pieces between `/`, without the
/// empty ones and without `.`.
pub open spec fn named_parts(p: Seq<char>, i: int) -> Seq<Seq<char>>
    decreases p.len() - i,
{
    if 0 <= i <= p.len() {
        let e = slash_from(p, i);
        let seg = p.subrange(i, e);
        let keep = seg.len() > 0 && seg != seq!['.'];
        let rest = if e < p.len() {
            proof {
                lemma_slash_from(p, i);
            }
            named_parts(p, e + 1)
        } else {
            Seq::empty()
        };
        if keep {
            seq![seg] + rest
        } else {
            rest
        }
    } else {
        Seq::empty()
    }
}

/// What `Path` compares of a Unix path, its components: whether it has a
/// root, whether it starts with a `.` of its own, and its named components.
pub open spec fn path_key(p: Seq<char>) -> (bool, bool, Seq<Seq<char>>) {
    let rooted = p.len() > 0 && p[0] == '/';
    let cur = !rooted && p.len() > 0 && p[0] == '.' && (p.len() == 1 || p[1] == '/');
    (rooted, cur, named_parts(p, 0))
}

/// Some file of the list is the same path as `p`, component by component.
pub open spec fn has_same_path(files: Seq<Seq<char>>, p: Seq<char>) -> bool {
    exists|j: int| 0 <= j < files.len() && path_key(#[trigger] files[j]) == path_key(p)
}

/// A file joins the list unless the same path is already there.
pub open spec fn add_file(files: Seq<Seq<char>>, p: Seq<char>) -> Seq<Seq<char>> {
    if has_same_path(files, p) {
        files
    } else {
        files.push(p)
    }
}

fn parts_of(p: &[char]) -> (r: Vec<Vec<char>>)
    ensures
        r@.len() == named_parts(p@, 0).len(),
        forall|k: int| 0 <= k < r@.len() ==> (#[trigger] r@[k])@ == named_parts(p@, 0)[k],
{
    let mut r: Vec<Vec<char>> = Vec::new();
    let ghost mut acc: Seq<Seq<char>> = Seq::empty();
    let mut i: usize = 0;
    loop
        invariant
            i <= p@.len(),
            named_parts(p@, 0) == acc + named_parts(p@, i as int),
            r@.len() == acc.len(),
            forall|k: int| 0 <= k < r@.len() ==> (#[trigger] r@[k])@ == acc[k],
        decreases p@.len() - i,
    {
        let mut e = i;
        while e < p.len() && p[e] != '/'
            invariant
                i <= e <= p@.len(),
                slash_from(p@, i as int) == slash_from(p@, e as int),
            decreases p@.len() - e,
        {
            e += 1;
        }
        let seg = crate::grammar::copy_range(p, i, e);
        let keep = seg.len() > 0 && !(seg.len() == 1 && seg[0] == '.');
        proof {
            assert(keep == (seg@.len() > 0 && seg@ != seq!['.'])) by {
                if seg@.len() == 1 && seg@ != seq!['.'] {
                    assert(seg@ =~= seq![seg@[0]]);
                }
            }
        }
        if keep {
            proof {
                acc = acc.push(seg@);
            }
            r.push(seg);
        }
        if e >= p.len() {
            proof {
                assert(named_parts(p@, e as int) =~= Seq::<Seq<char>>::empty());
            }
            assert(named_parts(p@, 0) =~= acc);
            return r;
        }
        proof {
            assert(named_parts(p@, 0) =~= acc + named_parts(p@, e + 1));
        }
        i = e + 1;
    }
}

/// Whether two paths are the same path, component by component.
pub fn same_path(a: &str, b: &str) -> (r: bool)
    ensures
        r == (path_key(a@) == path_key(b@)),
{
    let pa = chars_of(a);
    let pb = chars_of(b);
    let ra = pa.len() > 0 && pa[0] == '/';
    let rb = pb.len() > 0 && pb[0] == '/';
    let ca = !ra && pa.len() > 0 && pa[0] == '.' && (pa.len() == 1 || pa[1] == '/');
    let cb = !rb && pb.len() > 0 && pb[0] == '.' && (pb.len() == 1 || pb[1] == '/');
    if ra != rb || ca != cb {
        return false;
    }
    let xa = parts_of(&pa);
    let xb = parts_of(&pb);
    let ghost na = named_parts(a@, 0);
    let ghost nb = named_parts(b@, 0);
    if xa.len() != xb.len() {
        return false;
    }
    let mut k: usize = 0;
    while k < xa.len()
        invariant
            k <= xa@.len(),
            xa@.len() == xb@.len(),
            xa@.len() == na.len(),
            xb@.len() == nb.len(),
            na == named_parts(a@, 0),
            nb == named_parts(b@, 0),
            pa@ == a@,
            pb@ == b@,
            forall|j: int| 0 <= j < xa@.len() ==> (#[trigger] xa@[j])@ == na[j],
            forall|j: int| 0 <= j < xb@.len() ==> (#[trigger] xb@[j])@ == nb[j],
            forall|j: int| 0 <= j < k ==> na[j] == nb[j],
        decreases xa.len() - k,
    {
        if !crate::body::is_word(&xa[k], &xb[k]) {
            assert(na[k as int] != nb[k as int]);
            return false;
        }
        k += 1;
    }
    assert(na =~= nb);
    true
}

/// Files, warnings and whether a file matched, after the first `n` entries of
/// a glob quoted as `q`.
pub open spec fn glob_fold(files: Seq<Seq<char>>, warnings: Seq<Seq<char>>, q: Seq<char>, entries: Seq<GlobEntry>, n: int) -> (Seq<Seq<char>>, Seq<Seq<char>>, bool)
    decreases n,
{
    if n <= 0 {
        (files, warnings, false)
    } else {
        let (f, w, matched) = glob_fold(files, warnings, q, entries, n - 1);
        match entries[n - 1] {
            GlobEntry::File(p) => (add_file(f, p@), w, true),
            GlobEntry::NotFile(shown) => (f, w.push(non_file_warning(q, shown@)), matched),
            GlobEntry::Unreadable(e) => (f, w.push(unreadable_warning(q, e@)), matched),
        }
    }
}

/// Files and warnings after the first `n` configured files of a workspace:
/// files in order of first appearance without repeats; a glob that matched no
/// file adds a warning.
pub open spec fn gather(cs: Seq<ConfiguredFile>, n: int) -> (Seq<Seq<char>>, Seq<Seq<char>>)
    decreases n,
{
    if n <= 0 {
        (Seq::empty(), Seq::empty())
    } else {
        let (f, w) = gather(cs, n - 1);
        match cs[n - 1] {
            ConfiguredFile::Plain(p) => (add_file(f, p@), w),
            ConfiguredFile::Glob { pattern, entries } => {
                let q = debug_quoted(pattern@);
                let (f2, w2, matched) = glob_fold(f, w, q, entries@, entries@.len() as int);
                (f2, if matched { w2 } else { w2.push(no_match_warning(q)) })
            },
        }
    }
}

fn known_file(files: &Vec<String>, p: &str) -> (b: bool)
    ensures
        b == has_same_path(crate::models::strings_view(files@), p@),
{
    let ghost s = crate::models::strings_view(files@);
    let mut i: usize = 0;
    while i < files.len()
        invariant
            i <= files@.len(),
            s == crate::models::strings_view(files@),
            forall|j: int| 0 <= j < i ==> path_key(#[trigger] s[j]) != path_key(p@),
        decreases files.len() - i,
    {
        if same_path(files[i].as_str(), p) {
            assert(path_key(s[i as int]) == path_key(p@));
            return true;
        }
        i += 1;
    }
    false
}

fn message3(a: &str, b: &str, c: &str) -> (s: String)
    ensures
        s@ == a@ + b@ + c@,
{
    let mut v = chars_of(a);
    append_chars(&mut v, &chars_of(b));
    append_chars(&mut v, &chars_of(c));
    string_of(&v)
}

fn message4(a: &str, b: &str, c: &str, d: &str) -> (s: String)
    ensures
        s@ == a@ + b@ + c@ + d@,
{
    let mut v = chars_of(a);
    append_chars(&mut v, &chars_of(b));
    append_chars(&mut v, &chars_of(c));
    append_chars(&mut v, &chars_of(d));
    string_of(&v)
}

fn push_warning(warnings: &mut Vec<String>, msg: String)
    ensures
        crate::models::strings_view(final(warnings)@) == crate::models::strings_view(old(warnings)@).push(msg@),
{
    warnings.push(msg);
    assert(crate::models::strings_view(warnings@) =~= crate::models::strings_view(old(warnings)@).push(msg@));
}

fn push_file(files: &mut Vec<String>, p: &String)
    ensures
        crate::models::strings_view(final(files)@) == add_file(crate::models::strings_view(old(files)@), p@),
{
    if !known_file(files, p.as_str()) {
        let copy = string_of(&chars_of(p.as_str()));
        files.push(copy);
        assert(crate::models::strings_view(files@) =~= crate::models::strings_view(old(files)@).push(p@));
    }
}

/// The files and warnings of a workspace named `name` from its configured
/// files, in order of first appearance; the caller sorts the files.
pub fn gather_workspace(name: String, configured: &Vec<ConfiguredFile>) -> (w: WorkspaceDefinition)
    ensures
        w.name@ == name@,
        (crate::models::strings_view(w.files@), crate::models::strings_view(w.warnings@)) == gather(
            configured@,
            configured@.len() as int,
        ),
{
    let mut files: Vec<String> = Vec::new();
    let mut warnings: Vec<String> = Vec::new();
    let mut i: usize = 0;
    while i < configured.len()
        invariant
            i <= configured@.len(),
            (crate::models::strings_view(files@), crate::models::strings_view(warnings@)) == gather(configured@, i as int),
        decreases configured.len() - i,
    {
        match &configured[i] {
            ConfiguredFile::Plain(p) => {
                push_file(&mut files, p);
            },
            ConfiguredFile::Glob { pattern, entries } => {
                let q = quoted(pattern.as_str());
                let ghost f0 = crate::models::strings_view(files@);
                let ghost w0 = crate::models::strings_view(warnings@);
                let mut matched = false;
                let mut k: usize = 0;
                while k < entries.len()
                    invariant
                        k <= entries@.len(),
                        q@ == debug_quoted(pattern@),
                        (crate::models::strings_view(files@), crate::models::strings_view(warnings@), matched)
                            == glob_fold(f0, w0, q@, entries@, k as int),
                    decreases entries.len() - k,
                {
                    match &entries[k] {
                        GlobEntry::File(p) => {
                            push_file(&mut files, p);
                            matched = true;
                        },
                        GlobEntry::NotFile(shown) => {
                            let msg = message4("glob ", q.as_str(), " ignored non-file ", shown.as_str());
                            proof {
                                reveal_strlit("glob ");
                                reveal_strlit(" ignored non-file ");
                            }
                            push_warning(&mut warnings, msg);
                        },
                        GlobEntry::Unreadable(e) => {
                            let msg = message4("glob ", q.as_str(), " could not read an entry: ", e.as_str());
                            proof {
                                reveal_strlit("glob ");
                                reveal_strlit(" could not read an entry: ");
                            }
                            push_warning(&mut warnings, msg);
                        },
                    }
                    k += 1;
                }
                if !matched {
                    let msg = message3("glob ", q.as_str(), " matched no Markdown files");
                    proof {
                        reveal_strlit("glob ");
                        reveal_strlit(" matched no Markdown files");
                    }
                    push_warning(&mut warnings, msg);
                }
            },
        }
        i += 1;
    }
    let name2 = name;
    WorkspaceDefinition { name: name2, files, warnings }
}

} // verus!
