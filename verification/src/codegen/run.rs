//! The decisions of a generation run: which files to check for local
//! changes, whether to format, where each generated file goes, and when the
//! run fails.
use vstd::prelude::*;
use crate::codegen::config::{ContextEntry, ContextValue, RenderContext, TEMPLATE_PATH_KEY};
use crate::codegen::error::CodegenError;
use crate::codegen::select::{glob_compiles, plain_glob_text, without_backslash, PathFilter, MAX_GLOB_LEN};

verus! {

/// The switches of a generation run.
pub struct RunOptions {
    /// Overwrite output files even when they have local changes.
    pub force: bool,
    /// Print the generated file instead of writing it.
    pub stdout: bool,
    /// Leave the generated text unformatted.
    pub nofmt: bool,
    /// Compare the generated files with those on disk instead of writing.
    pub check: bool,
    /// Also report the files that are unchanged.
    pub verbose: bool,
}

/// Where a generated file goes.
pub enum Delivery {
    /// Compared with the file on disk (check mode).
    Compare,
    /// Printed to standard output.
    Print,
    /// Written to its output path.
    Write,
}

/// How a generated file compares with the one on disk.
pub enum Comparison {
    Same,
    Different,
    Unreadable,
}

/// `r` is the filter of `pattern`, or the error for a pattern that globset
/// refuses: success exactly when globset accepts a pattern without a
/// backslash, and always for a plain pattern.
pub open spec fn filter_from(pattern: Seq<char>, r: Result<Option<PathFilter>, CodegenError>) -> bool {
    &&& match r {
        Ok(Some(f)) => f@ == pattern,
        Ok(None) => false,
        Err(e) => e is InvalidGlob,
    }
    &&& without_backslash(pattern) ==> (r is Ok <==> glob_compiles(pattern))
    &&& plain_glob_text(pattern) ==> r is Ok
}

impl RunOptions {
    /// Whether each file is announced before it is generated: not in check mode.
    pub fn announces_generation(&self) -> (b: bool)
        ensures
            b == !self.check,
    {
        !self.check
    }

    /// Whether an output file with local changes stops the run: only when
    /// the run would overwrite it without being forced.
    pub fn guards_local_changes(&self) -> (b: bool)
        ensures
            b == !(self.check || self.force || self.stdout),
    {
        !(self.check || self.force || self.stdout)
    }

    /// Whether the generated text is formatted: unless turned off, and
    /// always in check mode, so that it compares with the formatted files
    /// on disk.
    pub fn formats_output(&self) -> (b: bool)
        ensures
            b == (!self.nofmt || self.check),
    {
        !self.nofmt || self.check
    }

    /// Where generated files go: check mode compares, else printing, else writing.
    pub fn delivery(&self) -> (d: Delivery)
        ensures
            self.check ==> d is Compare,
            !self.check && self.stdout ==> d is Print,
            !self.check && !self.stdout ==> d is Write,
    {
        if self.check {
            Delivery::Compare
        } else if self.stdout {
            Delivery::Print
        } else {
            Delivery::Write
        }
    }

    /// Stops the run when `path` has local changes (`modified`) that this
    /// run would overwrite.
    pub fn check_local_changes(&self, path: &String, modified: bool) -> (r: Result<(), CodegenError>)
        ensures
            r is Err <==> (modified && !(self.check || self.force || self.stdout)),
            r matches Err(e) ==> (e matches CodegenError::AlreadyModified { path: p } && p@ == path@),
    {
        if self.guards_local_changes() && modified {
            Err(CodegenError::AlreadyModified { path: path.clone() })
        } else {
            Ok(())
        }
    }

    /// The filter that picks the files of this run: the pattern given on the
    /// command line, else the configuration's default, else none. Printing
    /// to standard output needs a pattern on the command line.
    pub fn resolve_filter(&self, glob: Option<String>, default_glob: &Option<String>) -> (r: Result<Option<PathFilter>, CodegenError>)
        requires
            glob matches Some(g) ==> g@.len() <= MAX_GLOB_LEN,
            glob is None && default_glob is Some ==> default_glob.unwrap()@.len() <= MAX_GLOB_LEN,
        ensures
            self.stdout && glob is None ==> (r matches Err(e) && e is StdoutNeedsSingleFile),
            !(self.stdout && glob is None) && glob is None && default_glob is None ==> (r matches Ok(f) && f is None),
            !(self.stdout && glob is None) && glob is Some ==> filter_from(glob.unwrap()@, r),
            !(self.stdout && glob is None) && glob is None && default_glob is Some ==> filter_from(default_glob.unwrap()@, r),
    {
        if self.stdout && glob.is_none() {
            return Err(CodegenError::StdoutNeedsSingleFile);
        }
        let pattern: Option<String> = match glob {
            Some(g) => Some(g),
            None => match default_glob {
                Some(d) => Some(d.clone()),
                None => None,
            },
        };
        match pattern {
            Some(p) => match PathFilter::new(p) {
                Ok(f) => Ok(Some(f)),
                Err(e) => Err(e),
            },
            None => Ok(None),
        }
    }
}

/// Compares a generated file with the file on disk (`None` when it could
/// not be read).
pub fn compare_with_existing(generated: &String, existing: &Option<String>) -> (c: Comparison)
    ensures
        existing is None ==> c is Unreadable,
        existing matches Some(e) ==> (c is Same <==> e@ == generated@),
        existing matches Some(e) ==> (c is Different <==> e@ != generated@),
{
    match existing {
        Some(e) => {
            if *generated == *e {
                Comparison::Same
            } else {
                Comparison::Different
            }
        },
        None => Comparison::Unreadable,
    }
}

/// The count of files that differ in a check run.
pub struct CheckTally {
    pub differences: usize,
}

impl CheckTally {
    /// No difference yet.
    pub fn new() -> (t: CheckTally)
        ensures
            t.differences == 0,
    {
        CheckTally { differences: 0 }
    }

    /// Counts one compared file: a file that differs or cannot be read is a
    /// difference.
    pub fn record(&mut self, c: &Comparison)
        requires
            old(self).differences < usize::MAX,
        ensures
            final(self).differences == old(self).differences + (if c is Same { 0int } else { 1int }),
    {
        match c {
            Comparison::Same => {},
            _ => {
                self.differences = self.differences + 1;
            },
        }
    }

    /// The end of the run: in check mode, any difference fails it.
    pub fn finish(&self, options: &RunOptions) -> (r: Result<(), CodegenError>)
        ensures
            r is Err <==> (options.check && self.differences > 0),
            r matches Err(e) ==> (e matches CodegenError::FilesDifferent { count } && count == self.differences),
    {
        if options.check && self.differences > 0 {
            Err(CodegenError::FilesDifferent { count: self.differences })
        } else {
            Ok(())
        }
    }
}

/// The text of a JSON string value, none for any other value.
pub uninterp spec fn json_text(value: serde_json::Value) -> Option<Seq<char>>;

/// `serde_json::Value::as_str`: the text of a string value, and none for
/// every other kind of value. Which values are strings is not stated (the
/// value is opaque here); the result is named [`json_text`] of the value.
#[verifier::external_body]
fn json_as_str(value: &serde_json::Value) -> (r: Option<&str>)
    ensures
        r matches Some(s) ==> json_text(*value) == Some(s@),
        r is None ==> json_text(*value) is None,
{
    value.as_str()
}

/// The text of a render context value: the text itself, or the text of a
/// JSON string value (see [`json_text`]).
pub open spec fn entry_text(entry: ContextEntry) -> Option<Seq<char>> {
    match entry {
        ContextEntry::Text(s) => Some(s),
        ContextEntry::Json(v) => json_text(v),
    }
}

/// The template path that a render context holds: its
/// [`TEMPLATE_PATH_KEY`] entry as text, which a property of that name can
/// replace with a JSON string. None when the entry is missing or is not
/// text.
pub fn template_path_of<'a, 'b>(context: &'b RenderContext<'a>) -> (r: Option<&'b str>)
    ensures
        r matches Some(s) ==> context@.contains_key(TEMPLATE_PATH_KEY@) && entry_text(context@[TEMPLATE_PATH_KEY@]) == Some(s@),
        r is None ==> !context@.contains_key(TEMPLATE_PATH_KEY@) || entry_text(context@[TEMPLATE_PATH_KEY@]) is None,
{
    match context.entries.get(TEMPLATE_PATH_KEY) {
        Some(ContextValue::Text(s)) => Some(s.as_str()),
        Some(ContextValue::Json(v)) => json_as_str(v),
        None => None,
    }
}

} // verus!
