//! Which output files a run generates.
use vstd::prelude::*;
use crate::order::key_less;
use crate::sorted_map::{SortedMap, strictly_sorted};
use crate::codegen::config::RenderContext;
use crate::codegen::error::CodegenError;

verus! {

/// The longest output path pattern, in characters, that a filter accepts.
/// globset parses nested `{` alternates to any depth and then turns them
/// into a regex by one recursive call per level, so a pattern nested deeply
/// enough exhausts the stack; at this length the nesting is at most 512
/// levels deep.
pub const MAX_GLOB_LEN: usize = 1024;

/// A character that globset reads as itself on every platform: an ASCII
/// letter or digit, `.`, `_`, `-` or `/`. None of them is a glob
/// metacharacter (`?`, `*`, `[`, `]`, `{`, `}`, `,`, `\\`), and none is a path
/// separator that a candidate path is rewritten from.
pub open spec fn plain_glob_char(c: char) -> bool {
    ||| ('a' <= c && c <= 'z')
    ||| ('A' <= c && c <= 'Z')
    ||| ('0' <= c && c <= '9')
    ||| c == '.'
    ||| c == '_'
    ||| c == '-'
    ||| c == '/'
}

/// Text made only of characters that a glob reads as themselves.
pub open spec fn plain_glob_text(s: Seq<char>) -> bool {
    forall|i: int| 0 <= i < s.len() ==> plain_glob_char(#[trigger] s[i])
}

/// Text without a backslash. globset reads such a pattern, and such a path,
/// the same way on every platform: only backslash escapes and backslash
/// separators differ between platforms.
pub open spec fn without_backslash(s: Seq<char>) -> bool {
    !s.contains('\\')
}

/// Whether globset accepts `pattern` with its default options
/// (`globset::Glob::new`, then `globset::GlobSet::new`).
pub uninterp spec fn glob_compiles(pattern: Seq<char>) -> bool;

/// Whether the glob set built from `pattern` matches `path`
/// (`globset::GlobSet::is_match`), and false where `pattern` is not accepted.
pub uninterp spec fn glob_matches(pattern: Seq<char>, path: Seq<char>) -> bool;

/// Parses `pattern` with globset's default options (`globset::Glob::new`)
/// and builds a one-pattern glob set from it (`globset::GlobSet::new`),
/// which reports a pattern too large to compile as an error.
///
/// For a pattern without a backslash the outcome is named
/// ([`glob_compiles`]); a pattern of plain characters is always accepted
/// (its tokens are all literals, matched as one literal string). Nothing is
/// stated of a pattern with a backslash: its reading depends on the platform.
#[verifier::external_body]
fn check_glob(pattern: &str) -> (r: Result<(), globset::Error>)
    requires
        pattern@.len() <= MAX_GLOB_LEN,
    ensures
        without_backslash(pattern@) ==> (r is Ok <==> glob_compiles(pattern@)),
        plain_glob_text(pattern@) ==> r is Ok,
{
    match globset::Glob::new(pattern) {
        Ok(glob) => match globset::GlobSet::new([glob]) {
            Ok(_) => Ok(()),
            Err(e) => Err(e),
        },
        Err(e) => Err(e),
    }
}

/// Whether the glob set built from `pattern` (`globset::Glob::new`,
/// `globset::GlobSet::new`) matches `path` (`globset::GlobSet::is_match`);
/// false when `pattern` is not accepted.
///
/// For a pattern and a path without a backslash the answer is named
/// ([`glob_matches`]). A non-empty pattern of plain characters is a literal
/// that globset compares with the whole path byte for byte, and the empty
/// pattern matches only the empty path, so a plain pattern matches a plain
/// path exactly when the two are the same text. Nothing is stated where a
/// backslash occurs: the answer then depends on the platform.
#[verifier::external_body]
fn glob_set_matches(pattern: &str, path: &str) -> (r: bool)
    requires
        pattern@.len() <= MAX_GLOB_LEN,
    ensures
        without_backslash(pattern@) && without_backslash(path@) ==> r == glob_matches(pattern@, path@),
        plain_glob_text(pattern@) && plain_glob_text(path@) ==> (r <==> path@ == pattern@),
{
    match globset::Glob::new(pattern) {
        Ok(glob) => match globset::GlobSet::new([glob]) {
            Ok(set) => set.is_match(path),
            Err(_) => false,
        },
        Err(_) => false,
    }
}

/// An output path pattern that globset accepts.
pub struct PathFilter {
    pattern: String,
}

impl PathFilter {
    #[verifier::type_invariant]
    closed spec fn bounded(&self) -> bool {
        self.pattern@.len() <= MAX_GLOB_LEN
    }
}

impl View for PathFilter {
    type V = Seq<char>;

    closed spec fn view(&self) -> Seq<char> {
        self.pattern@
    }
}

impl PathFilter {
    /// Checks `pattern` with globset; a pattern it refuses is
    /// [`CodegenError::InvalidGlob`]. A plain pattern is always accepted.
    pub fn new(pattern: String) -> (r: Result<PathFilter, CodegenError>)
        requires
            pattern@.len() <= MAX_GLOB_LEN,
        ensures
            r matches Ok(f) ==> f@ == pattern@,
            r matches Err(e) ==> e is InvalidGlob,
            without_backslash(pattern@) ==> (r is Ok <==> glob_compiles(pattern@)),
            plain_glob_text(pattern@) ==> r is Ok,
    {
        match check_glob(pattern.as_str()) {
            Ok(()) => Ok(PathFilter { pattern }),
            Err(e) => Err(CodegenError::InvalidGlob(e)),
        }
    }

    /// The pattern's text.
    pub fn pattern(&self) -> (p: &String)
        ensures
            p@ == self@,
    {
        &self.pattern
    }

    /// Whether the pattern matches `path`: for texts without a backslash,
    /// [`glob_matches`]; a pattern of plain characters (see
    /// [`plain_glob_text`]) matches a plain path exactly when the path is the
    /// pattern itself.
    pub fn is_match(&self, path: &str) -> (r: bool)
        ensures
            without_backslash(self@) && without_backslash(path@) ==> r == glob_matches(self@, path@),
            plain_glob_text(self@) && plain_glob_text(path@) ==> (r <==> path@ == self@),
    {
        proof {
            use_type_invariant(self);
        }
        glob_set_matches(self.pattern.as_str(), path)
    }
}

/// The selection of `keys` that a filter (by its pattern) makes: every key
/// without a filter; with one, each key that the pattern matches, wherever
/// neither holds a backslash.
pub open spec fn selected_by(pattern: Option<Seq<char>>, keys: Seq<Seq<char>>, selected: Seq<bool>) -> bool {
    &&& selected.len() == keys.len()
    &&& pattern is None ==> forall|j: int| 0 <= j < keys.len() ==> #[trigger] selected[j]
    &&& pattern matches Some(p) ==> forall|j: int|
        0 <= j < keys.len() && without_backslash(p) && without_backslash(keys[j])
            ==> #[trigger] selected[j] == glob_matches(p, keys[j])
    &&& pattern matches Some(p) ==> forall|j: int|
        0 <= j < keys.len() && plain_glob_text(p) && plain_glob_text(keys[j])
            ==> (#[trigger] selected[j] <==> keys[j] == p)
}

/// The pattern of a filter, if there is one.
pub open spec fn pattern_of(filter: Option<&PathFilter>) -> Option<Seq<char>> {
    match filter {
        Some(f) => Some(f@),
        None => None,
    }
}

/// The paths in `paths` whose flag in `selected` is set, in their order.
pub open spec fn kept(paths: Seq<Seq<char>>, selected: Seq<bool>) -> Seq<Seq<char>>
    decreases paths.len(),
{
    if paths.len() == 0 {
        Seq::empty()
    } else {
        let rest = kept(paths.drop_last(), selected);
        if selected[paths.len() - 1] {
            rest.push(paths.last())
        } else {
            rest
        }
    }
}

/// The paths whose flag is set, in their order; when a pattern selected them
/// and none is set, [`CodegenError::NoMatchingOutputs`] with that pattern.
pub fn keep_selected(paths: &Vec<String>, selected: &Vec<bool>, pattern: Option<&String>) -> (r: Result<Vec<String>, CodegenError>)
    requires
        selected@.len() == paths@.len(),
    ensures
        r matches Ok(kept_paths) ==> kept_paths@.map_values(|s: String| s@) == kept(paths@.map_values(|s: String| s@), selected@),
        r is Err <==> (pattern is Some && kept(paths@.map_values(|s: String| s@), selected@).len() == 0),
        r matches Err(e) ==> (e matches CodegenError::NoMatchingOutputs { pattern: p } && p@ == pattern.unwrap()@),
{
    let ghost views = paths@.map_values(|s: String| s@);
    let mut out: Vec<String> = Vec::new();
    let mut i: usize = 0;
    while i < paths.len()
        invariant
            selected@.len() == paths@.len(),
            views == paths@.map_values(|s: String| s@),
            i <= paths@.len(),
            out@.map_values(|s: String| s@) == kept(views.take(i as int), selected@),
        decreases paths@.len() - i,
    {
        let ghost before = out@;
        if selected[i] {
            out.push(paths[i].clone());
        }
        proof {
            assert(views.take(i + 1).drop_last() =~= views.take(i as int));
            assert(out@.map_values(|s: String| s@) =~= kept(views.take(i + 1), selected@)) by {
                if selected@[i as int] {
                    assert(out@.map_values(|s: String| s@) =~= before.map_values(|s: String| s@).push(views[i as int]));
                }
            }
        }
        i = i + 1;
    }
    assert(views.take(paths@.len() as int) =~= views);
    match pattern {
        Some(p) => {
            if out.len() == 0 {
                return Err(CodegenError::NoMatchingOutputs { pattern: p.clone() });
            }
        },
        None => {},
    }
    Ok(out)
}

/// The output paths that a run generates, in key order: all of them without
/// a filter, otherwise those the filter matches, and an error if it matches
/// none.
pub fn select_output_paths<'a>(pairs: &SortedMap<RenderContext<'a>>, filter: Option<&PathFilter>) -> (r: Result<Vec<String>, CodegenError>)
    ensures
        filter is None ==> (r matches Ok(paths) && paths@.map_values(|s: String| s@) == pairs.keys()),
        r matches Ok(paths) ==> strictly_sorted(paths@.map_values(|s: String| s@)),
        exists|selected: Seq<bool>| #[trigger] selected_by(pattern_of(filter), pairs.keys(), selected)
            && (r is Err <==> (filter is Some && kept(pairs.keys(), selected).len() == 0)) && match r {
            Ok(paths) => paths@.map_values(|s: String| s@) == kept(pairs.keys(), selected),
            Err(e) => filter is Some && kept(pairs.keys(), selected).len() == 0
                && (e matches CodegenError::NoMatchingOutputs { pattern: p } && p@ == filter.unwrap()@),
        },
{
    let n = pairs.len();
    let mut paths: Vec<String> = Vec::new();
    let mut selected: Vec<bool> = Vec::new();
    let ghost pattern = pattern_of(filter);
    let mut i: usize = 0;
    while i < n
        invariant
            n == pairs.keys().len(),
            pattern == pattern_of(filter),
            i <= n,
            paths@.len() == i,
            selected@.len() == i,
            forall|j: int| 0 <= j < i ==> #[trigger] paths@[j]@ == pairs.keys()[j],
            filter is None ==> forall|j: int| 0 <= j < i ==> #[trigger] selected@[j],
            pattern matches Some(p) ==> forall|j: int|
                0 <= j < i && without_backslash(p) && without_backslash(pairs.keys()[j])
                    ==> #[trigger] selected@[j] == glob_matches(p, pairs.keys()[j]),
            pattern matches Some(p) ==> forall|j: int|
                0 <= j < i && plain_glob_text(p) && plain_glob_text(pairs.keys()[j])
                    ==> (#[trigger] selected@[j] <==> pairs.keys()[j] == p),
        decreases n - i,
    {
        let key = pairs.key_at(i);
        let chosen = match filter {
            Some(f) => f.is_match(key.as_str()),
            None => true,
        };
        paths.push(key.clone());
        selected.push(chosen);
        i = i + 1;
    }
    assert(paths@.map_values(|s: String| s@) =~= pairs.keys());
    assert(selected_by(pattern, pairs.keys(), selected@));
    let pat = match filter {
        Some(f) => Some(f.pattern()),
        None => None,
    };
    let r = keep_selected(&paths, &selected, pat);
    proof {
        if filter is None {
            lemma_kept_all(pairs.keys(), selected@);
        }
        lemma_kept_sorted(pairs.keys(), selected@);
    }
    r
}

proof fn lemma_kept_from(paths: Seq<Seq<char>>, selected: Seq<bool>, i: int)
    requires
        0 <= i < kept(paths, selected).len(),
    ensures
        exists|k: int| 0 <= k < paths.len() && paths[k] == #[trigger] kept(paths, selected)[i],
    decreases paths.len(),
{
    if paths.len() > 0 {
        let rest = kept(paths.drop_last(), selected);
        if i < rest.len() {
            lemma_kept_from(paths.drop_last(), selected, i);
            let k = choose|k: int| 0 <= k < paths.drop_last().len() && paths.drop_last()[k] == #[trigger] rest[i];
            assert(paths[k] == kept(paths, selected)[i]);
        } else {
            assert(paths[paths.len() - 1] == kept(paths, selected)[i]);
        }
    }
}

/// Keeping some paths of a sorted list leaves them sorted.
pub proof fn lemma_kept_sorted(paths: Seq<Seq<char>>, selected: Seq<bool>)
    requires
        strictly_sorted(paths),
    ensures
        strictly_sorted(kept(paths, selected)),
    decreases paths.len(),
{
    if paths.len() > 0 {
        let rest = kept(paths.drop_last(), selected);
        assert(strictly_sorted(paths.drop_last()));
        lemma_kept_sorted(paths.drop_last(), selected);
        if selected[paths.len() - 1] {
            let ks = rest.push(paths.last());
            assert forall|i: int, j: int| 0 <= i < j < ks.len() implies key_less(#[trigger] ks[i], #[trigger] ks[j]) by {
                if j == ks.len() - 1 {
                    lemma_kept_from(paths.drop_last(), selected, i);
                    let k = choose|k: int| 0 <= k < paths.drop_last().len() && paths.drop_last()[k] == #[trigger] rest[i];
                    assert(paths[k] == ks[i]);
                    assert(key_less(paths[k], paths[paths.len() - 1]));
                } else {
                    assert(ks[i] == rest[i] && ks[j] == rest[j]);
                }
            }
        }
    }
}

proof fn lemma_kept_all(paths: Seq<Seq<char>>, selected: Seq<bool>)
    requires
        selected.len() >= paths.len(),
        forall|j: int| 0 <= j < paths.len() ==> #[trigger] selected[j],
    ensures
        kept(paths, selected) == paths,
    decreases paths.len(),
{
    if paths.len() > 0 {
        lemma_kept_all(paths.drop_last(), selected);
        assert(paths.drop_last().push(paths.last()) =~= paths);
    }
}

proof fn lemma_kept_members(paths: Seq<Seq<char>>, selected: Seq<bool>)
    requires
        selected.len() >= paths.len(),
        forall|a: int, b: int| 0 <= a < b < paths.len() ==> paths[a] != paths[b],
    ensures
        forall|j: int| 0 <= j < paths.len() ==> (kept(paths, selected).contains(#[trigger] paths[j]) <==> selected[j]),
        forall|x: Seq<char>| kept(paths, selected).contains(x) ==> exists|j: int| 0 <= j < paths.len() && paths[j] == x && #[trigger] selected[j],
        forall|a: int, b: int| 0 <= a < b < kept(paths, selected).len() ==> kept(paths, selected)[a] != kept(paths, selected)[b],
    decreases paths.len(),
{
    if paths.len() > 0 {
        let n = paths.len() - 1;
        let init = paths.drop_last();
        let rest = kept(init, selected);
        let last = paths[n];
        lemma_kept_members(init, selected);
        assert forall|j: int| 0 <= j < n implies #[trigger] init[j] == paths[j] by {}
        assert(!rest.contains(last)) by {
            if rest.contains(last) {
                let j = choose|j: int| 0 <= j < init.len() && init[j] == last && #[trigger] selected[j];
                assert(paths[j] == last);
            }
        }
        let ks = kept(paths, selected);
        assert forall|x: Seq<char>| ks.contains(x) implies exists|j: int| 0 <= j < paths.len() && paths[j] == x && #[trigger] selected[j] by {
            if rest.contains(x) {
                let j = choose|j: int| 0 <= j < init.len() && init[j] == x && #[trigger] selected[j];
                assert(paths[j] == x);
            } else {
                let i = choose|i: int| 0 <= i < ks.len() && ks[i] == x;
                if selected[n] {
                    assert(ks == rest.push(last));
                    if i < rest.len() {
                        assert(rest.contains(x));
                    }
                    assert(paths[n] == x);
                } else {
                    assert(rest.contains(x));
                }
            }
        }
        assert forall|j: int| 0 <= j < paths.len() implies (ks.contains(#[trigger] paths[j]) <==> selected[j]) by {
            if j < n {
                assert(init[j] == paths[j]);
                assert(paths[j] != last);
                if selected[n] {
                    if ks.contains(paths[j]) {
                        let i = choose|i: int| 0 <= i < ks.len() && ks[i] == paths[j];
                        assert(i < rest.len());
                        assert(rest.contains(paths[j]));
                    }
                    if rest.contains(paths[j]) {
                        let i = choose|i: int| 0 <= i < rest.len() && rest[i] == paths[j];
                        assert(ks[i] == paths[j]);
                    }
                }
            } else {
                if selected[n] {
                    assert(ks[rest.len() as int] == last);
                }
            }
        }
        if selected[n] {
            assert forall|a: int, b: int| 0 <= a < b < ks.len() implies ks[a] != ks[b] by {
                if b == rest.len() {
                    assert(ks[a] == rest[a]);
                    assert(rest.contains(rest[a]));
                } else {
                    assert(ks[a] == rest[a] && ks[b] == rest[b]);
                }
            }
        }
    }
}

/// Selecting keeps a path exactly when its own flag is set: for distinct
/// paths, every path whose flag is set is kept, no other is, and none is
/// kept twice. So a filter that matches one path gives exactly that path.
pub proof fn law_kept_exactly_selected(paths: Seq<Seq<char>>, selected: Seq<bool>)
    requires
        selected.len() == paths.len(),
        forall|a: int, b: int| 0 <= a < b < paths.len() ==> paths[a] != paths[b],
    ensures
        forall|j: int| 0 <= j < paths.len() ==> (kept(paths, selected).contains(#[trigger] paths[j]) <==> selected[j]),
        forall|x: Seq<char>| #[trigger] kept(paths, selected).contains(x) ==> paths.contains(x),
        forall|a: int, b: int| 0 <= a < b < kept(paths, selected).len() ==> kept(paths, selected)[a] != kept(paths, selected)[b],
        kept(paths, selected).len() <= paths.len(),
{
    lemma_kept_members(paths, selected);
    lemma_kept_len(paths, selected);
    assert forall|x: Seq<char>| #[trigger] kept(paths, selected).contains(x) implies paths.contains(x) by {
        let j = choose|j: int| 0 <= j < paths.len() && paths[j] == x && #[trigger] selected[j];
    }
}

proof fn lemma_kept_len(paths: Seq<Seq<char>>, selected: Seq<bool>)
    ensures
        kept(paths, selected).len() <= paths.len(),
    decreases paths.len(),
{
    if paths.len() > 0 {
        lemma_kept_len(paths.drop_last(), selected);
    }
}

/// With exactly one selected path, selecting gives that path alone.
pub proof fn law_single_match_is_kept_alone(paths: Seq<Seq<char>>, selected: Seq<bool>, j: int)
    requires
        selected.len() == paths.len(),
        forall|a: int, b: int| 0 <= a < b < paths.len() ==> paths[a] != paths[b],
        0 <= j < paths.len(),
        forall|i: int| 0 <= i < paths.len() ==> (#[trigger] selected[i] <==> i == j),
    ensures
        kept(paths, selected) == seq![paths[j]],
{
    law_kept_exactly_selected(paths, selected);
    lemma_kept_members(paths, selected);
    let ks = kept(paths, selected);
    assert(ks.contains(paths[j]));
    assert forall|a: int| 0 <= a < ks.len() implies ks[a] == paths[j] by {
        assert(ks.contains(ks[a]));
        let i = choose|i: int| 0 <= i < paths.len() && paths[i] == ks[a] && #[trigger] selected[i];
    }
    if ks.len() > 1 {
        assert(ks[0] != ks[1]);
    }
    assert(ks =~= seq![paths[j]]);
}

} // verus!
