//! Gitignore-style matching of source paths against the project's ignore
//! file. The matching itself is done by the `ignore` crate behind trusted
//! declarations; everything the library claims about a matcher is phrased
//! over the root and the pattern lines it was built from.
use crate::annotations::names_view;
use crate::errors::CoverageError;
use vstd::prelude::*;

verus! {

#[verifier::external_type_specification]
#[verifier::external_body]
pub struct ExGitignore(ignore::gitignore::Gitignore);

#[verifier::external_type_specification]
#[verifier::external_body]
pub struct ExGitignoreBuilder(ignore::gitignore::GitignoreBuilder);

#[verifier::external_type_specification]
#[verifier::external_body]
pub struct ExIgnoreError(ignore::Error);

/// What gitignore matching answers for a path, given the root directory the
/// patterns are relative to and the pattern lines, in order. The `ignore`
/// crate computes this from its three arguments and the `is_dir` flag alone.
pub uninterp spec fn ignored_by(
    root: Seq<char>,
    patterns: Seq<Seq<char>>,
    path: Seq<char>,
    is_dir: bool,
) -> bool;

/// Whether one pattern line parses as a gitignore glob. The `ignore` crate
/// decides this from the line's text alone: comment and blank lines are
/// accepted without adding a glob, every other line is parsed as one glob.
pub uninterp spec fn glob_parses(line: Seq<char>) -> bool;

/// Matches paths against the patterns of the project's coverage ignore file.
/// A matcher built from no patterns never ignores anything.
pub struct CairoCoverageIgnoreMatcher {
    inner: ignore::gitignore::Gitignore,
    root: String,
    patterns: Vec<String>,
}

/// Accumulates pattern lines before the matcher is compiled.
struct IgnoreMatcherBuilder {
    inner: ignore::gitignore::GitignoreBuilder,
    root: String,
    lines: Vec<String>,
}

/// Relies on ignore's `GitignoreBuilder::new`: starts an empty set of globs
/// that will be matched relative to `root`.
#[verifier::external_body]
fn builder_new(root: &str) -> (b: IgnoreMatcherBuilder)
    ensures
        b.root@ == root@,
        b.lines@ =~= Seq::<String>::empty(),
{
    IgnoreMatcherBuilder {
        inner: ignore::gitignore::GitignoreBuilder::new(root),
        root: root.to_owned(),
        lines: Vec::new(),
    }
}

/// Relies on ignore's `GitignoreBuilder::add_line`: parses one gitignore
/// glob and succeeds exactly when the line's text parses, or reports that the
/// line is malformed.
#[verifier::external_body]
fn builder_add_line(b: &mut IgnoreMatcherBuilder, line: &str) -> (r: Result<(), ignore::Error>)
    ensures
        r is Ok <==> glob_parses(line@),
        r is Ok ==> {
            &&& final(b).root@ == old(b).root@
            &&& final(b).lines@.len() == old(b).lines@.len() + 1
            &&& forall|i: int|
                0 <= i < old(b).lines@.len() ==> final(b).lines@[i]@ == old(b).lines@[i]@
            &&& final(b).lines@.last()@ == line@
        },
{
    match b.inner.add_line(None, line) {
        Ok(_) => {
            b.lines.push(line.to_owned());
            Ok(())
        },
        Err(e) => Err(e),
    }
}

/// Relies on ignore's `GitignoreBuilder::build`: compiles the collected globs
/// into a matcher, or reports a glob set it cannot compile; with no lines
/// there are no globs and the compilation always succeeds.
#[verifier::external_body]
fn builder_build(b: &IgnoreMatcherBuilder) -> (r: Result<
    CairoCoverageIgnoreMatcher,
    ignore::Error,
>)
    ensures
        r matches Ok(m) ==> m.spec_root() == b.root@ && m.spec_patterns() =~= names_view(
            b.lines@,
        ),
        b.lines@.len() == 0 ==> r is Ok,
{
    match b.inner.build() {
        Ok(gitignore) => Ok(
            CairoCoverageIgnoreMatcher {
                inner: gitignore,
                root: b.root.clone(),
                patterns: b.lines.clone(),
            },
        ),
        Err(e) => Err(e),
    }
}

/// Relies on ignore's `Gitignore::matched`: whether any glob ignores the
/// path. The answer is a function of the root, the pattern lines, the path
/// and the directory flag alone; a matcher with no globs matches nothing.
#[verifier::external_body]
fn matched_ignore(m: &CairoCoverageIgnoreMatcher, path: &str, is_dir: bool) -> (r: bool)
    ensures
        r == ignored_by(m.spec_root(), m.spec_patterns(), path@, is_dir),
        m.spec_patterns().len() == 0 ==> r == false,
{
    matches!(m.inner.matched(path, is_dir), ignore::Match::Ignore(_))
}

impl CairoCoverageIgnoreMatcher {
    /// The root directory the patterns are matched relative to.
    pub closed spec fn spec_root(&self) -> Seq<char> {
        self.root@
    }

    /// The pattern lines the matcher was built from.
    pub closed spec fn spec_patterns(&self) -> Seq<Seq<char>> {
        names_view(self.patterns@)
    }

    /// Build a matcher for the project rooted at `root` from the lines of its
    /// ignore file. An empty list of lines, for a project without an ignore
    /// file, always succeeds and yields a matcher that never ignores
    /// anything. A malformed pattern line fails the construction.
    pub fn new(root: &str, patterns: &Vec<String>) -> (r: Result<
        CairoCoverageIgnoreMatcher,
        CoverageError,
    >)
        ensures
            r matches Ok(m) ==> {
                &&& m.spec_root() == root@
                &&& m.spec_patterns() =~= names_view(patterns@)
            },
            r matches Err(e) ==> e is InvalidIgnoreFile,
            patterns@.len() == 0 ==> r is Ok,
            r is Ok ==> forall|i: int|
                0 <= i < patterns@.len() ==> glob_parses(#[trigger] patterns@[i]@),
            (exists|i: int| 0 <= i < patterns@.len() && !glob_parses(#[trigger] patterns@[i]@))
                ==> r is Err,
    {
        let mut builder = builder_new(root);
        let n = patterns.len();
        let mut i: usize = 0;
        while i < n
            invariant
                i <= n,
                n == patterns@.len(),
                builder.root@ == root@,
                names_view(builder.lines@) =~= names_view(patterns@.take(i as int)),
                builder.lines@.len() == i,
                forall|j: int| 0 <= j < i ==> glob_parses(#[trigger] patterns@[j]@),
            decreases n - i,
        {
            let ghost prev_lines = builder.lines@;
            let added = builder_add_line(&mut builder, patterns[i].as_str());
            match added {
                Ok(_) => {},
                Err(_) => {
                    return Err(CoverageError::InvalidIgnoreFile);
                },
            }
            proof {
                let lv = names_view(builder.lines@);
                let pv = names_view(patterns@.take(i + 1));
                assert(names_view(prev_lines).len() == prev_lines.len());
                assert(lv.len() == pv.len());
                assert forall|j: int| 0 <= j < lv.len() implies lv[j] == pv[j] by {
                    assert(pv[j] == patterns@.take(i + 1)[j]@);
                    assert(patterns@.take(i + 1)[j] == patterns@[j]);
                    assert(lv[j] == builder.lines@[j]@);
                    if j < i {
                        assert(builder.lines@[j]@ == prev_lines[j]@);
                        assert(names_view(prev_lines)[j] == prev_lines[j]@);
                        assert(names_view(patterns@.take(i as int))[j] == patterns@.take(
                            i as int,
                        )[j]@);
                        assert(patterns@.take(i as int)[j] == patterns@[j]);
                    } else {
                        assert(builder.lines@[j] == builder.lines@.last());
                    }
                }
                assert(lv =~= pv);
            }
            i = i + 1;
        }
        proof {
            assert(patterns@.take(n as int) =~= patterns@);
        }
        let built = builder_build(&builder);
        match built {
            Ok(matcher) => Ok(matcher),
            Err(_) => {
                proof {
                    assert(patterns@.len() > 0);
                }
                Err(CoverageError::InvalidIgnoreFile)
            },
        }
    }

    /// Relies on ignore's `Gitignore` being cloneable: a copy of a matcher
    /// matches exactly like the original.
    #[verifier::external_body]
    pub(crate) fn duplicate(&self) -> (r: CairoCoverageIgnoreMatcher)
        ensures
            r.spec_root() == self.spec_root(),
            r.spec_patterns() == self.spec_patterns(),
    {
        CairoCoverageIgnoreMatcher {
            inner: self.inner.clone(),
            root: self.root.clone(),
            patterns: self.patterns.clone(),
        }
    }

    /// Check if the given path is ignored. Coverage paths always name source
    /// files, never directories.
    pub fn is_ignored(&self, path: &str) -> (r: bool)
        ensures
            r == ignored_by(self.spec_root(), self.spec_patterns(), path@, false),
            self.spec_patterns().len() == 0 ==> r == false,
    {
        matched_ignore(self, path, false)
    }
}

} // verus!
