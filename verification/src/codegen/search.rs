//! Finding the configuration file: the nearest `codegen.json` in an
//! ancestor of the generator's own directory.
use vstd::prelude::*;
use crate::codegen::error::CodegenError;

verus! {

/// The name of the configuration file.
pub const CONFIG_FILE: &'static str = "codegen.json";

/// A path text that every platform splits the same way: no `\` and no `:`
/// (so no Windows prefix), no leading `//` (a network path on Windows), and
/// no `.` component.
#[verifier::opaque]
pub open spec fn simple_path(p: Seq<char>) -> bool {
    &&& forall|i: int| 0 <= i < p.len() ==> #[trigger] p[i] != '\\' && p[i] != ':'
    &&& p.len() >= 2 ==> !(p[0] == '/' && p[1] == '/')
    &&& forall|i: int|
        0 <= i < p.len() && #[trigger] p[i] == '.' && (i == 0 || p[i - 1] == '/')
            ==> (i + 1 < p.len() && p[i + 1] != '/')
}

/// `p` without its trailing `/` characters, but the root `/` stays.
pub open spec fn trim_slashes(p: Seq<char>) -> Seq<char>
    decreases p.len(),
{
    if p.len() > 1 && p[p.len() - 1] == '/' {
        trim_slashes(p.drop_last())
    } else {
        p
    }
}

proof fn lemma_trim_slashes(p: Seq<char>)
    ensures
        trim_slashes(p).is_prefix_of(p),
        forall|j: int| trim_slashes(p).len() <= j < p.len() ==> #[trigger] p[j] == '/',
        trim_slashes(p).len() > 1 ==> trim_slashes(p)[trim_slashes(p).len() - 1] != '/',
        p.len() > 0 ==> trim_slashes(p).len() > 0,
    decreases p.len(),
{
    if p.len() > 1 && p[p.len() - 1] == '/' {
        lemma_trim_slashes(p.drop_last());
        assert forall|j: int| trim_slashes(p).len() <= j < p.len() implies #[trigger] p[j] == '/' by {
            if j < p.len() - 1 {
                assert(p.drop_last()[j] == p[j]);
            }
        }
    }
}

/// The position of the last `/` in `p`, or -1 when there is none.
pub open spec fn last_slash(p: Seq<char>) -> int
    decreases p.len(),
{
    if p.len() == 0 {
        -1
    } else if p[p.len() - 1] == '/' {
        p.len() - 1
    } else {
        last_slash(p.drop_last())
    }
}

proof fn lemma_last_slash(p: Seq<char>)
    ensures
        -1 <= last_slash(p) < p.len(),
        last_slash(p) >= 0 ==> p[last_slash(p)] == '/',
        forall|j: int| last_slash(p) < j < p.len() ==> #[trigger] p[j] != '/',
    decreases p.len(),
{
    if p.len() > 0 && p[p.len() - 1] != '/' {
        lemma_last_slash(p.drop_last());
        assert forall|j: int| last_slash(p) < j < p.len() implies #[trigger] p[j] != '/' by {
            if j < p.len() - 1 {
                assert(p.drop_last()[j] == p[j]);
            }
        }
    }
}

/// A text without a backslash whose last character is `/`.
pub open spec fn ends_with_slash(p: Seq<char>) -> bool {
    p.len() > 0 && p[p.len() - 1] == '/' && !p.contains('\\')
}

/// The parent of a simple path: its trailing `/` removed, then the text
/// before the last `/` with the `/` characters that end it removed (the root
/// `/` when nothing else is left, and the empty text when there is no `/`);
/// none for the empty text and for the root.
pub open spec fn simple_parent(p: Seq<char>) -> Option<Seq<char>> {
    let t = trim_slashes(p);
    if t.len() == 0 || t == seq!['/'] {
        None
    } else {
        let k = last_slash(t);
        if k < 0 {
            Some(Seq::empty())
        } else {
            Some(trim_slashes(t.take(k + 1)))
        }
    }
}

/// The directories above `p`, nearest first, for a simple path.
pub open spec fn ancestors(p: Seq<char>) -> Seq<Seq<char>>
    decreases p.len(),
{
    match simple_parent(p) {
        Some(q) => if q.len() < p.len() {
            seq![q] + ancestors(q)
        } else {
            Seq::empty()
        },
        None => Seq::empty(),
    }
}

/// The parent of a simple path is a shorter simple path, and a prefix of it.
pub proof fn lemma_simple_parent(p: Seq<char>)
    requires
        simple_path(p),
        simple_parent(p) is Some,
    ensures
        simple_path(simple_parent(p).unwrap()),
        simple_parent(p).unwrap().len() < p.len(),
        simple_parent(p).unwrap().is_prefix_of(p),
{
    reveal(simple_path);
    let t = trim_slashes(p);
    lemma_trim_slashes(p);
    lemma_last_slash(t);
    let k = last_slash(t);
    let q = simple_parent(p).unwrap();
    if k < 0 {
        assert(q =~= Seq::<char>::empty());
    } else {
        let u = t.take(k + 1);
        lemma_trim_slashes(u);
        assert(t.len() > 1) by {
            if t.len() == 1 {
                assert(t[0] == '/');
                assert(t =~= seq!['/']);
            }
        }
        assert(t[t.len() - 1] != '/');
        assert(k < t.len() - 1);
        assert forall|j: int| 0 <= j < q.len() implies q[j] == p[j] by {
            assert(q[j] == u[j]);
            assert(u[j] == t[j]);
            assert(t[j] == p[j]);
        }
        assert(q.len() <= u.len());
        assert forall|i: int| 0 <= i < q.len() implies #[trigger] q[i] != '\\' && q[i] != ':' by {
            assert(q[i] == p[i]);
        }
        if q.len() >= 2 {
            assert(q[0] == p[0] && q[1] == p[1]);
        }
        assert forall|i: int|
            0 <= i < q.len() && #[trigger] q[i] == '.' && (i == 0 || q[i - 1] == '/')
                implies (i + 1 < q.len() && q[i + 1] != '/') by {
            assert(p[i] == '.');
            if i > 0 {
                assert(p[i - 1] == q[i - 1]);
            }
            if i + 1 < q.len() {
                assert(q[i + 1] == p[i + 1]);
            } else {
                assert(i + 1 < u.len());
                assert(u[i + 1] == '/');
                assert(u[i + 1] == t[i + 1]);
                assert(t[i + 1] == p[i + 1]);
            }
        }
    }
}

/// `file` is the configuration file in `dir`: the name appended to `dir`
/// with one separator between (`/`, or `\` where that is the platform's),
/// none after an empty directory or one that ends with `/`.
pub open spec fn config_path_in(dir: Seq<char>, file: Seq<char>) -> bool {
    if dir.len() == 0 {
        file == CONFIG_FILE@
    } else if dir[dir.len() - 1] == '/' {
        file == dir + CONFIG_FILE@
    } else {
        file == dir + seq!['/'] + CONFIG_FILE@ || file == dir + seq!['\\'] + CONFIG_FILE@
    }
}

/// A separator on some platform: `/` or `\`.
pub open spec fn separator_char(c: char) -> bool {
    c == '/' || c == '\\'
}

/// A path that has a parent on every platform: it is not empty, its last
/// character is none of `/`, `\`, `:` and `.` (so it ends inside a final
/// component that is neither `.` nor `..` nor a drive prefix), and it does
/// not start with two separators (a Windows network or device prefix).
pub open spec fn surely_has_parent(p: Seq<char>) -> bool {
    &&& p.len() > 0
    &&& !separator_char(p[p.len() - 1]) && p[p.len() - 1] != ':' && p[p.len() - 1] != '.'
    &&& !(p.len() >= 2 && separator_char(p[0]) && separator_char(p[1]))
}

/// The parent of `path` (`std::path::Path::parent`), as text.
///
/// On every platform a parent is `path` without its final component: a
/// proper prefix. For a simple path (see [`simple_path`]) every platform
/// reads the same components, so the parent is [`simple_parent`], as the
/// documentation gives it: the path without its final component, and none
/// for the root or the empty path. A path that ends with `/` (and holds no
/// `\`, so no Windows verbatim prefix) ends with its final component and at
/// least that one separator, so its parent is at least two characters
/// shorter. A path that ends inside a final component, and starts with no
/// network or device prefix, has a parent on every platform (see
/// [`surely_has_parent`]). Which prefix other paths give is not stated: it
/// depends on the platform's separators and prefixes.
#[verifier::external_body]
fn path_parent(path: &str) -> (r: Option<String>)
    ensures
        r matches Some(p) ==> p@.len() < path@.len() && p@.is_prefix_of(path@),
        surely_has_parent(path@) ==> r is Some,
        ends_with_slash(path@) ==> (r matches Some(p) ==> p@.len() + 2 <= path@.len()),
        simple_path(path@) ==> (simple_parent(path@) is None <==> r is None),
        simple_path(path@) && simple_parent(path@) is Some ==> (r is Some && r.unwrap()@ == simple_parent(path@).unwrap()),
{
    match std::path::Path::new(path).parent() {
        Some(p) => Some(p.to_string_lossy().into_owned()),
        None => None,
    }
}

/// The path of [`CONFIG_FILE`] in directory `dir` (`std::path::Path::join`),
/// as text.
///
/// On every platform the relative name ends the result, with at most one
/// separator added. For a simple `dir` the result is [`config_path_in`]
/// `dir`: the platform's separator is added unless `dir` is empty or ends
/// with `/`. Other directories (such as Windows verbatim paths, which the
/// join rewrites) get no more than the first two facts.
#[verifier::external_body]
fn config_file_in(dir: &str) -> (r: String)
    ensures
        CONFIG_FILE@.is_suffix_of(r@),
        r@.len() <= dir@.len() + CONFIG_FILE@.len() + 1,
        simple_path(dir@) ==> config_path_in(dir@, r@),
{
    std::path::Path::new(dir).join(CONFIG_FILE).to_string_lossy().into_owned()
}

/// The texts of some strings.
pub open spec fn texts(strings: Seq<String>) -> Seq<Seq<char>> {
    strings.map_values(|s: String| s@)
}

/// `dirs` is a chain of ever shorter proper prefixes of `start`, and each
/// file of `files` is the configuration file of the directory at the same
/// position.
pub open spec fn upward_chain(start: Seq<char>, dirs: Seq<Seq<char>>, files: Seq<Seq<char>>) -> bool {
    &&& dirs.len() == files.len()
    &&& forall|i: int| 0 <= i < dirs.len() ==> (#[trigger] dirs[i]).is_prefix_of(start)
    &&& forall|i: int| 0 <= i < dirs.len() ==> #[trigger] dirs[i].len() < (if i == 0 { start.len() as int } else { dirs[i - 1].len() as int })
    &&& dirs.len() > 0 && ends_with_slash(start) ==> dirs[0].len() + 2 <= start.len()
    &&& forall|i: int| 0 <= i < files.len() ==> CONFIG_FILE@.is_suffix_of(#[trigger] files[i])
    &&& forall|i: int| 0 <= i < files.len() ==> (#[trigger] files[i]).len() <= dirs[i].len() + CONFIG_FILE@.len() + 1
    &&& forall|i: int| 0 <= i < files.len() && simple_path(dirs[i]) ==> config_path_in(dirs[i], #[trigger] files[i])
}

/// The walk stopped where there was no parent: the last directory (or the
/// start, when there is none) has no parent.
pub open spec fn chain_ends(start: Seq<char>, dirs: Seq<Seq<char>>) -> bool {
    &&& dirs.len() == 0 ==> !surely_has_parent(start)
    &&& dirs.len() > 0 ==> !surely_has_parent(dirs.last())
}

/// An upward chain from `start` that goes on until there is no parent, and
/// which for a simple `start` is exactly its ancestors.
pub open spec fn candidate_chain(start: Seq<char>, dirs: Seq<Seq<char>>, files: Seq<Seq<char>>) -> bool {
    &&& upward_chain(start, dirs, files)
    &&& chain_ends(start, dirs)
    &&& simple_path(start) ==> dirs == ancestors(start)
}

proof fn lemma_chain_step(start: Seq<char>, dirs: Seq<Seq<char>>, files: Seq<Seq<char>>, current: Seq<char>, parent: Seq<char>, file: Seq<char>)
    requires
        upward_chain(start, dirs, files),
        current.is_prefix_of(start),
        dirs.len() > 0 ==> current == dirs.last(),
        dirs.len() == 0 ==> current == start,
        parent.len() < current.len(),
        parent.is_prefix_of(current),
        dirs.len() == 0 && ends_with_slash(start) ==> parent.len() + 2 <= start.len(),
        CONFIG_FILE@.is_suffix_of(file),
        file.len() <= parent.len() + CONFIG_FILE@.len() + 1,
        simple_path(parent) ==> config_path_in(parent, file),
    ensures
        upward_chain(start, dirs.push(parent), files.push(file)),
        parent.is_prefix_of(start),
{
    let nd = dirs.push(parent);
    let nf = files.push(file);
    assert forall|k: int| 0 <= k < parent.len() implies parent[k] == start[k] by {
        assert(parent[k] == current[k]);
    }
    assert forall|i: int| 0 <= i < nd.len() implies (#[trigger] nd[i]).is_prefix_of(start) by {
        if i < dirs.len() {
            assert(nd[i] == dirs[i]);
        }
    }
    assert forall|i: int| 0 <= i < nd.len() implies #[trigger] nd[i].len() < (if i == 0 { start.len() as int } else { nd[i - 1].len() as int }) by {
        if i < dirs.len() {
            assert(nd[i] == dirs[i]);
            if i > 0 {
                assert(nd[i - 1] == dirs[i - 1]);
            }
        } else if i > 0 {
            assert(nd[i - 1] == dirs[i - 1]);
        }
    }
    assert forall|i: int| 0 <= i < nf.len() implies CONFIG_FILE@.is_suffix_of(#[trigger] nf[i]) by {
        if i < files.len() {
            assert(nf[i] == files[i]);
        }
    }
    assert forall|i: int| 0 <= i < nf.len() implies (#[trigger] nf[i]).len() <= nd[i].len() + CONFIG_FILE@.len() + 1 by {
        if i < files.len() {
            assert(nf[i] == files[i]);
            assert(nd[i] == dirs[i]);
        }
    }
    assert forall|i: int| 0 <= i < nf.len() && simple_path(nd[i]) implies config_path_in(nd[i], #[trigger] nf[i]) by {
        if i < files.len() {
            assert(nf[i] == files[i]);
            assert(nd[i] == dirs[i]);
        }
    }
}

/// The places to look for the configuration file, nearest first: the file
/// in the parent of `manifest_dir`, then in its parent, and so on up to the
/// root. `manifest_dir` itself is not among them.
pub fn config_candidates(manifest_dir: &str) -> (files: Vec<String>)
    ensures
        files@.len() <= manifest_dir@.len(),
        exists|dirs: Seq<Seq<char>>| #[trigger] candidate_chain(manifest_dir@, dirs, texts(files@)),
{
    let mut files: Vec<String> = Vec::new();
    let mut current: String = manifest_dir.to_owned();
    let ghost mut dirs: Seq<Seq<char>> = Seq::empty();
    assert(ancestors(manifest_dir@) =~= dirs + ancestors(manifest_dir@));
    assert(texts(files@) =~= Seq::<Seq<char>>::empty());
    loop
        invariant
            current@.is_prefix_of(manifest_dir@),
            files@.len() + current@.len() <= manifest_dir@.len(),
            dirs.len() > 0 ==> current@ == dirs.last(),
            dirs.len() == 0 ==> current@ == manifest_dir@,
            upward_chain(manifest_dir@, dirs, texts(files@)),
            simple_path(manifest_dir@) ==> simple_path(current@) && ancestors(manifest_dir@) == dirs + ancestors(current@),
        ensures
            upward_chain(manifest_dir@, dirs, texts(files@)),
            files@.len() <= manifest_dir@.len(),
            simple_path(manifest_dir@) ==> ancestors(manifest_dir@) == dirs,
            chain_ends(manifest_dir@, dirs),
        decreases current@.len(),
    {
        match path_parent(current.as_str()) {
            Some(parent) => {
                let file = config_file_in(parent.as_str());
                let ghost before = texts(files@);
                let ghost old_dirs = dirs;
                proof {
                    if simple_path(manifest_dir@) {
                        lemma_simple_parent(current@);
                    }
                    lemma_chain_step(manifest_dir@, dirs, before, current@, parent@, file@);
                }
                files.push(file);
                proof {
                    dirs = dirs.push(parent@);
                    assert(texts(files@) =~= before.push(file@));
                    if simple_path(manifest_dir@) {
                        assert(ancestors(current@) == seq![parent@] + ancestors(parent@));
                        assert(dirs + ancestors(parent@) =~= old_dirs + (seq![parent@] + ancestors(parent@)));
                    }
                }
                current = parent;
            },
            None => {
                proof {
                    if simple_path(manifest_dir@) {
                        assert(ancestors(current@) =~= Seq::<Seq<char>>::empty());
                        assert(dirs + ancestors(current@) =~= dirs);
                        assert(ancestors(manifest_dir@) == dirs);
                    }
                }
                break;
            },
        }
    }
    assert(candidate_chain(manifest_dir@, dirs, texts(files@)));
    files
}

/// The walk goes on while there is a parent: a start that has a parent on
/// every platform gets at least one candidate, and each directory that has
/// a parent is followed by the next one.
pub proof fn law_walk_continues_while_parent(start: Seq<char>, dirs: Seq<Seq<char>>, files: Seq<Seq<char>>)
    requires
        candidate_chain(start, dirs, files),
    ensures
        surely_has_parent(start) ==> files.len() > 0,
        forall|i: int| 0 <= i < files.len() && surely_has_parent(#[trigger] dirs[i]) ==> i + 1 < files.len(),
        forall|i: int| 0 <= i < files.len() ==> CONFIG_FILE@.is_suffix_of(#[trigger] files[i]),
{
    assert(upward_chain(start, dirs, files));
    assert(chain_ends(start, dirs));
    assert(dirs.len() == files.len());
    assert forall|i: int| 0 <= i < files.len() && surely_has_parent(#[trigger] dirs[i]) implies i + 1 < files.len() by {
        if i + 1 == files.len() {
            assert(dirs.last() == dirs[i]);
        }
    }
}

/// The directory where the search starts never has its own configuration
/// file among the candidates: only proper ancestors are searched. This holds
/// for every start without a backslash, and for any start that does not end
/// with `/`.
pub proof fn law_start_dir_not_searched(start: Seq<char>, dirs: Seq<Seq<char>>, files: Seq<Seq<char>>, own: Seq<char>, i: int)
    requires
        candidate_chain(start, dirs, files),
        !start.contains('\\') || start.len() == 0 || start[start.len() - 1] != '/',
        config_path_in(start, own),
        0 <= i < files.len(),
    ensures
        files[i] != own,
{
    if start.len() == 0 {
        reveal(simple_path);
        assert(simple_parent(start) is None);
        assert(ancestors(start) =~= Seq::<Seq<char>>::empty());
    } else if start[start.len() - 1] != '/' {
        lemma_chain_shrinks(start, dirs, files, i);
        assert(own.len() == start.len() + 1 + CONFIG_FILE@.len());
    } else {
        assert(ends_with_slash(start));
        lemma_chain_below_first(start, dirs, files, i);
        assert(own == start + CONFIG_FILE@);
        assert(own.len() == start.len() + CONFIG_FILE@.len());
    }
}

proof fn lemma_chain_shrinks(start: Seq<char>, dirs: Seq<Seq<char>>, files: Seq<Seq<char>>, j: int)
    requires
        upward_chain(start, dirs, files),
        0 <= j < dirs.len(),
    ensures
        dirs[j].len() <= start.len() - 1 - j,
    decreases j,
{
    if j > 0 {
        lemma_chain_shrinks(start, dirs, files, j - 1);
    }
}

proof fn lemma_chain_below_first(start: Seq<char>, dirs: Seq<Seq<char>>, files: Seq<Seq<char>>, j: int)
    requires
        upward_chain(start, dirs, files),
        0 <= j < dirs.len(),
    ensures
        dirs[j].len() <= dirs[0].len(),
    decreases j,
{
    if j > 0 {
        lemma_chain_below_first(start, dirs, files, j - 1);
    }
}

/// The next step of the search for the configuration file.
pub enum SearchStep {
    /// Look whether this candidate exists, and ask again with the answer added.
    Check(String),
    /// This is the configuration file.
    Found(String),
}

/// One step of the search through `candidates` (nearest first, as
/// [`config_candidates`] gives them), given whether each of the first ones
/// exists (`answers`, in the same order): the first candidate answered as
/// existing is the file; while none is, the next unanswered candidate is to
/// be checked; when all are answered and none exists,
/// [`CodegenError::ConfigNotFound`] names `manifest_dir`. So candidates are
/// checked one by one in order, each once, and none after the file is found.
pub fn find_config_file(manifest_dir: &str, candidates: &Vec<String>, answers: &Vec<bool>) -> (r: Result<SearchStep, CodegenError>)
    ensures
        match r {
            Ok(SearchStep::Found(file)) => exists|i: int|
                0 <= i < candidates@.len() && i < answers@.len() && #[trigger] answers@[i]
                    && (forall|j: int| 0 <= j < i ==> !#[trigger] answers@[j]) && file@ == candidates@[i]@,
            Ok(SearchStep::Check(next)) => (forall|j: int| 0 <= j < candidates@.len() && j < answers@.len() ==> !#[trigger] answers@[j])
                && answers@.len() < candidates@.len() && next@ == candidates@[answers@.len() as int]@,
            Err(e) => (forall|j: int| 0 <= j < candidates@.len() && j < answers@.len() ==> !#[trigger] answers@[j])
                && answers@.len() >= candidates@.len()
                && (e matches CodegenError::ConfigNotFound { searched_from } && searched_from@ == manifest_dir@),
        },
{
    let mut i: usize = 0;
    while i < candidates.len() && i < answers.len()
        invariant
            i <= candidates@.len(),
            i <= answers@.len(),
            forall|j: int| 0 <= j < i ==> !#[trigger] answers@[j],
        decreases candidates@.len() - i,
    {
        if answers[i] {
            return Ok(SearchStep::Found(candidates[i].clone()));
        }
        i = i + 1;
    }
    if answers.len() < candidates.len() {
        Ok(SearchStep::Check(candidates[answers.len()].clone()))
    } else {
        Err(CodegenError::ConfigNotFound { searched_from: manifest_dir.to_owned() })
    }
}

} // verus!
