//! Serialization of the merged coverage into the standard line-coverage text
//! format. The output is fully determined: files in path order, functions in
//! name order, lines in line order, counts rendered in decimal.
use crate::file_coverage::afile_flatten;
use crate::file_coverage::afile_hit_count;
use crate::file_coverage::AFile;
use crate::file_coverage::FileCoverage;
use crate::function_coverage::count_hit;
use crate::function_coverage::first_key;
use crate::function_coverage::max_count;
use crate::project_coverage::AProject;
use crate::project_coverage::ProjectCoverage;
use crate::text::append_u64;
use crate::text::dec_str;
use vstd::prelude::*;

verus! {

/// The line-data section: one `DA` entry per known line, in line order.
pub open spec fn lcov_da_lines(flat: Seq<(u64, u64)>) -> Seq<char>
    decreases flat.len(),
{
    if flat.len() == 0 {
        Seq::empty()
    } else {
        lcov_da_lines(flat.drop_last()) + "DA:"@ + dec_str(flat.last().0 as int) + ","@ + dec_str(
            flat.last().1 as int,
        ) + "\n"@
    }
}

/// The function section: per function, the line it starts at and how often it
/// was executed, where a function's execution count is the greatest count
/// among its lines.
pub open spec fn lcov_fn_lines(f: AFile) -> Seq<char>
    decreases f.len(),
{
    if f.len() == 0 {
        Seq::empty()
    } else {
        lcov_fn_lines(f.drop_last()) + "FN:"@ + dec_str(first_key(f.last().1) as int) + ","@
            + f.last().0 + "\n"@ + "FNDA:"@ + dec_str(max_count(f.last().1) as int) + ","@
            + f.last().0 + "\n"@
    }
}

/// One file's whole record.
pub open spec fn lcov_file_block(path: Seq<char>, f: AFile) -> Seq<char> {
    let flat = afile_flatten(f);
    "TN:\n"@ + "SF:"@ + path + "\n"@ + lcov_fn_lines(f) + "FNF:"@ + dec_str(f.len() as int) + "\n"@
        + "FNH:"@ + dec_str(afile_hit_count(f) as int) + "\n"@ + lcov_da_lines(flat) + "LF:"@
        + dec_str(flat.len() as int) + "\n"@ + "LH:"@ + dec_str(count_hit(flat) as int) + "\n"@
        + "end_of_record\n"@
}

/// The whole report: one record per file, in path order.
pub open spec fn lcov_project(p: AProject) -> Seq<char>
    decreases p.len(),
{
    if p.len() == 0 {
        Seq::empty()
    } else {
        lcov_project(p.drop_last()) + lcov_file_block(p.last().0, p.last().1)
    }
}

/// Accumulates the coverage report in the LCOV text format.
pub struct LcovFormatter {
    pub out: String,
}

impl LcovFormatter {
    /// A formatter with nothing written yet.
    pub fn new() -> (r: LcovFormatter)
        ensures
            r.out@ =~= Seq::<char>::empty(),
    {
        LcovFormatter { out: String::new() }
    }

    /// Write the general information of one file: the test-name marker, which
    /// the format accepts empty, and the source-file marker.
    fn general_information(&mut self, source_file_full_path: &str)
        ensures
            final(self).out@ == old(self).out@ + "TN:\n"@ + "SF:"@ + source_file_full_path@
                + "\n"@,
    {
        proof {
            reveal_strlit("TN:\n");
            reveal_strlit("SF:");
            reveal_strlit("\n");
        }
        self.out.append("TN:\n");
        self.out.append("SF:");
        self.out.append(source_file_full_path);
        self.out.append("\n");
    }

    /// Write the function details of one file: for every function, the line
    /// it starts at and how often it was executed.
    fn function_details(&mut self, file_coverage: &FileCoverage)
        requires
            file_coverage.wf(),
        ensures
            final(self).out@ == old(self).out@ + lcov_fn_lines(file_coverage.abs()),
    {
        proof {
            reveal_strlit("FN:");
            reveal_strlit("FNDA:");
            reveal_strlit(",");
            reveal_strlit("\n");
        }
        let ghost f = file_coverage.abs();
        let n = file_coverage.entries.len();
        let mut i: usize = 0;
        proof {
            assert(lcov_fn_lines(f.take(0int)) =~= Seq::<char>::empty());
            assert(self.out@ =~= old(self).out@ + lcov_fn_lines(f.take(0int)));
        }
        while i < n
            invariant
                i <= n,
                n == file_coverage.entries@.len(),
                n == f.len(),
                f == file_coverage.abs(),
                file_coverage.wf(),
                self.out@ == old(self).out@ + lcov_fn_lines(f.take(i as int)),
            decreases n - i,
        {
            proof {
                assert(f.take(i + 1).drop_last() =~= f.take(i as int));
                assert(f.take(i + 1).last() == f[i as int]);
                assert(f[i as int].0 == file_coverage.entries@[i as int].0@);
                assert(f[i as int].1 == file_coverage.entries@[i as int].1.entries@);
            }
            let name = &file_coverage.entries[i].0;
            let starts_at = file_coverage.entries[i].1.starts_at();
            let hit_count = file_coverage.entries[i].1.max_execution_count();
            self.out.append("FN:");
            append_u64(&mut self.out, starts_at);
            self.out.append(",");
            self.out.append(name.as_str());
            self.out.append("\n");
            self.out.append("FNDA:");
            append_u64(&mut self.out, hit_count);
            self.out.append(",");
            self.out.append(name.as_str());
            self.out.append("\n");
            proof {
                assert(self.out@ =~= old(self).out@ + lcov_fn_lines(f.take(i + 1)));
            }
            i = i + 1;
        }
        proof {
            assert(f.take(n as int) =~= f);
        }
    }

    /// Write the function summary of one file: how many functions were found
    /// and how many were executed.
    fn function_summary(&mut self, file_coverage: &FileCoverage)
        ensures
            final(self).out@ == old(self).out@ + "FNF:"@ + dec_str(
                file_coverage.abs().len() as int,
            ) + "\n"@ + "FNH:"@ + dec_str(afile_hit_count(file_coverage.abs()) as int) + "\n"@,
    {
        proof {
            reveal_strlit("FNF:");
            reveal_strlit("FNH:");
            reveal_strlit("\n");
        }
        let found = file_coverage.functions_found();
        let hit = file_coverage.executed_functions();
        self.out.append("FNF:");
        append_u64(&mut self.out, found as u64);
        self.out.append("\n");
        self.out.append("FNH:");
        append_u64(&mut self.out, hit as u64);
        self.out.append("\n");
    }

    /// Write the line execution of one file: one entry per known line with
    /// its count, then how many lines were found and how many were hit.
    fn line_execution(&mut self, file_coverage: &FileCoverage)
        requires
            file_coverage.wf(),
        ensures
            final(self).out@ == old(self).out@ + lcov_da_lines(afile_flatten(file_coverage.abs()))
                + "LF:"@ + dec_str(afile_flatten(file_coverage.abs()).len() as int) + "\n"@ + "LH:"@
                + dec_str(count_hit(afile_flatten(file_coverage.abs())) as int) + "\n"@,
    {
        proof {
            reveal_strlit("DA:");
            reveal_strlit("LF:");
            reveal_strlit("LH:");
            reveal_strlit(",");
            reveal_strlit("\n");
        }
        let flat = file_coverage.flatten();
        let ghost fl = afile_flatten(file_coverage.abs());
        proof {
            assert(flat.entries@ =~= fl);
        }
        let n = flat.entries.len();
        let mut i: usize = 0;
        proof {
            assert(lcov_da_lines(fl.take(0int)) =~= Seq::<char>::empty());
            assert(self.out@ =~= old(self).out@ + lcov_da_lines(fl.take(0int)));
        }
        while i < n
            invariant
                i <= n,
                n == flat.entries@.len(),
                flat.entries@ == fl,
                self.out@ == old(self).out@ + lcov_da_lines(fl.take(i as int)),
            decreases n - i,
        {
            proof {
                assert(fl.take(i + 1).drop_last() =~= fl.take(i as int));
                assert(fl.take(i + 1).last() == fl[i as int]);
            }
            let (line, count) = flat.entries[i];
            self.out.append("DA:");
            append_u64(&mut self.out, line);
            self.out.append(",");
            append_u64(&mut self.out, count);
            self.out.append("\n");
            proof {
                assert(self.out@ =~= old(self).out@ + lcov_da_lines(fl.take(i + 1)));
            }
            i = i + 1;
        }
        proof {
            assert(fl.take(n as int) =~= fl);
        }
        let lines_found = flat.entries.len();
        let lines_hit = flat.executed_lines();
        self.out.append("LF:");
        append_u64(&mut self.out, lines_found as u64);
        self.out.append("\n");
        self.out.append("LH:");
        append_u64(&mut self.out, lines_hit as u64);
        self.out.append("\n");
    }

    /// Write the end-of-record marker.
    pub fn end_of_record(&mut self)
        ensures
            final(self).out@ == old(self).out@ + "end_of_record\n"@,
    {
        proof {
            reveal_strlit("end_of_record\n");
        }
        self.out.append("end_of_record\n");
    }

    /// Write one file's whole record.
    fn file_block(&mut self, path: &str, file: &FileCoverage)
        requires
            file.wf(),
        ensures
            final(self).out@ == old(self).out@ + lcov_file_block(path@, file.abs()),
    {
        self.general_information(path);
        self.function_details(file);
        self.function_summary(file);
        self.line_execution(file);
        self.end_of_record();
        proof {
            assert(self.out@ =~= old(self).out@ + lcov_file_block(path@, file.abs()));
        }
    }

    /// Write the whole report, one record per file in path order.
    fn fmt(&mut self, project_coverage: &ProjectCoverage)
        requires
            project_coverage.wf(),
        ensures
            final(self).out@ == old(self).out@ + lcov_project(project_coverage.abs()),
    {
        let ghost p = project_coverage.abs();
        let n = project_coverage.entries.len();
        let mut i: usize = 0;
        proof {
            assert(lcov_project(p.take(0int)) =~= Seq::<char>::empty());
            assert(self.out@ =~= old(self).out@ + lcov_project(p.take(0int)));
        }
        while i < n
            invariant
                i <= n,
                n == project_coverage.entries@.len(),
                n == p.len(),
                p == project_coverage.abs(),
                project_coverage.wf(),
                self.out@ == old(self).out@ + lcov_project(p.take(i as int)),
            decreases n - i,
        {
            proof {
                assert(p.take(i + 1).drop_last() =~= p.take(i as int));
                assert(p.take(i + 1).last() == p[i as int]);
                assert(p[i as int].0 == project_coverage.entries@[i as int].0@);
                assert(p[i as int].1 == project_coverage.entries@[i as int].1.abs());
                assert(afile_sorted_of_project(p, i as int));
            }
            let path = &project_coverage.entries[i].0;
            let file = &project_coverage.entries[i].1;
            self.file_block(path.as_str(), file);
            proof {
                assert(self.out@ =~= old(self).out@ + lcov_project(p.take(i + 1)));
            }
            i = i + 1;
        }
        proof {
            assert(p.take(n as int) =~= p);
        }
    }
}

/// The file at one position of well-formed project entries is well formed.
spec fn afile_sorted_of_project(p: AProject, i: int) -> bool {
    0 <= i < p.len() ==> crate::file_coverage::afile_sorted(p[i].1)
}

/// Format coverage data in the LCOV format as a string.
pub fn fmt_string(project_coverage: &ProjectCoverage) -> (r: String)
    requires
        project_coverage.wf(),
    ensures
        r@ == lcov_project(project_coverage.abs()),
{
    let mut formatter = LcovFormatter::new();
    formatter.fmt(project_coverage);
    proof {
        assert(formatter.out@ =~= lcov_project(project_coverage.abs()));
    }
    formatter.out
}

} // verus!
