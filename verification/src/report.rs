//! Diagnostics detached from the compile that produced them.
//!
//! A [`DiagnosticReport`] keeps a copy of every file its diagnostics point
//! into, so a renderer can show the offending lines long after the compile is
//! gone. Files are interned by name — one compile serves one text per name —
//! and every span indexes the report's own file list.

use vstd::prelude::*;
use core::ops::Range;
use crate::text::str_eq;

verus! {

/// How loud one diagnostic is.
#[derive(Debug, Clone, Copy, PartialEq, Eq)]
pub enum Severity {
    Error,
    Warning,
}

/// A source file a diagnostic points into.
#[derive(Debug)]
pub struct SourceFile {
    /// Display name, project-relative (or `@pkg/name:ver/path` for a package).
    pub name: String,
    pub text: String,
    /// True when this is Typst rheo generated rather than a file the project
    /// can open and edit.
    pub generated: bool,
}

/// A byte range in one of the report's [`SourceFile`]s.
#[derive(Debug)]
pub struct Span {
    /// Index into [`DiagnosticReport::files`].
    pub file: usize,
    pub range: Range<usize>,
}

/// One step of a diagnostic's trace.
#[derive(Debug)]
pub struct TracePoint {
    pub message: String,
    pub span: Option<Span>,
}

/// One diagnostic: what went wrong, where, and what to try instead.
#[derive(Debug)]
pub struct Diagnostic {
    pub severity: Severity,
    pub message: String,
    pub hints: Vec<String>,
    pub span: Option<Span>,
    pub trace: Vec<TracePoint>,
}

/// A span not yet interned: the file it points into, by value.
#[derive(Debug)]
pub struct ResolvedSpan {
    pub file: SourceFile,
    pub range: Range<usize>,
}

/// Everything one or more compiles reported, plus the sources needed to
/// render it.
#[derive(Debug)]
pub struct DiagnosticReport {
    files: Vec<SourceFile>,
    diagnostics: Vec<Diagnostic>,
}

impl Default for DiagnosticReport {
    /// A report with no files and no diagnostics.
    fn default() -> (r: Self)
        ensures
            r.files_spec().len() == 0,
            r.diagnostics_spec().len() == 0,
    {
        DiagnosticReport { files: Vec::new(), diagnostics: Vec::new() }
    }
}

// ─── Specifications ─────────────────────────────────────────────────────────

/// The names of a file list.
pub open spec fn names(files: Seq<SourceFile>) -> Seq<Seq<char>> {
    files.map_values(|f: SourceFile| f.name@)
}

/// No two files share a name.
pub open spec fn names_unique(files: Seq<SourceFile>) -> bool {
    forall|i: int, j: int| 0 <= i < j < files.len() ==> files[i].name@ != files[j].name@
}

/// A span that indexes a list of `n` files.
pub open spec fn span_ok(s: Option<Span>, n: nat) -> bool {
    match s {
        Some(sp) => sp.file < n,
        None => true,
    }
}

/// Every span of `d` indexes a list of `n` files.
pub open spec fn diagnostic_ok(d: Diagnostic, n: nat) -> bool {
    span_ok(d.span, n) && forall|k: int| 0 <= k < d.trace@.len() ==> span_ok(#[trigger] d.trace@[k].span, n)
}

/// The index of the file named `name` in `files`, if any.
pub open spec fn index_of_name(files: Seq<SourceFile>, name: Seq<char>) -> Option<int> {
    if exists|i: int| 0 <= i < files.len() && files[i].name@ == name {
        Some(choose|i: int| 0 <= i < files.len() && files[i].name@ == name)
    } else {
        None
    }
}

/// A span's file name, looked up in `files`.
pub open spec fn span_file_name(s: Option<Span>, files: Seq<SourceFile>) -> Option<Seq<char>> {
    match s {
        Some(sp) => Some(files[sp.file as int].name@),
        None => None,
    }
}

/// A span's range.
pub open spec fn span_range(s: Option<Span>) -> Option<(usize, usize)> {
    match s {
        Some(sp) => Some((sp.range.start, sp.range.end)),
        None => None,
    }
}

/// `d2` says what `d1` says, with every span pointing at a file of the same
/// name (looked up in `f2` and `f1` respectively) and the same range.
pub open spec fn same_diagnostic(d1: Diagnostic, f1: Seq<SourceFile>, d2: Diagnostic, f2: Seq<SourceFile>) -> bool {
    &&& d2.severity == d1.severity
    &&& d2.message@ == d1.message@
    &&& d2.hints@ == d1.hints@
    &&& span_file_name(d2.span, f2) == span_file_name(d1.span, f1)
    &&& span_range(d2.span) == span_range(d1.span)
    &&& d2.trace@.len() == d1.trace@.len()
    &&& forall|k: int| 0 <= k < d1.trace@.len() ==> {
        &&& #[trigger] d2.trace@[k].message@ == d1.trace@[k].message@
        &&& span_file_name(d2.trace@[k].span, f2) == span_file_name(d1.trace@[k].span, f1)
        &&& span_range(d2.trace@[k].span) == span_range(d1.trace@[k].span)
    }
}

impl DiagnosticReport {
    #[verifier::type_invariant]
    spec fn inv(self) -> bool {
        &&& names_unique(self.files@)
        &&& forall|i: int| 0 <= i < self.diagnostics@.len() ==> diagnostic_ok(
            #[trigger] self.diagnostics@[i],
            self.files@.len(),
        )
    }

    /// The files diagnostics point into.
    pub closed spec fn files_spec(self) -> Seq<SourceFile> {
        self.files@
    }

    /// The diagnostics, in the order they were reported.
    pub closed spec fn diagnostics_spec(self) -> Seq<Diagnostic> {
        self.diagnostics@
    }

    /// A report with nothing in it.
    pub fn new() -> (r: DiagnosticReport)
        ensures
            r.files_spec().len() == 0,
            r.diagnostics_spec().len() == 0,
    {
        DiagnosticReport { files: Vec::new(), diagnostics: Vec::new() }
    }

    /// The files diagnostics point into, in the order [`Span::file`] indexes them.
    pub fn files(&self) -> (r: &[SourceFile])
        ensures
            r@ == self.files_spec(),
            names_unique(r@),
    {
        proof {
            use_type_invariant(self);
        }
        self.files.as_slice()
    }

    /// The diagnostics, each of whose spans indexes [`Self::files`].
    pub fn diagnostics(&self) -> (r: &[Diagnostic])
        ensures
            r@ == self.diagnostics_spec(),
            forall|i: int| 0 <= i < r@.len() ==> diagnostic_ok(#[trigger] r@[i], self.files_spec().len()),
    {
        proof {
            use_type_invariant(self);
        }
        self.diagnostics.as_slice()
    }

    /// Whether nothing was reported.
    pub fn is_empty(&self) -> (b: bool)
        ensures
            b == (self.diagnostics_spec().len() == 0),
    {
        self.diagnostics.len() == 0
    }

    /// The index of `file` in this report, adding it when no file of that
    /// name is here yet: files are identified by name, since one compile
    /// serves one text per name.
    pub fn intern(&mut self, file: SourceFile) -> (idx: usize)
        ensures
            match index_of_name(old(self).files_spec(), file.name@) {
                Some(i) => idx == i && final(self).files_spec() == old(self).files_spec(),
                None => idx == old(self).files_spec().len() && final(self).files_spec()
                    == old(self).files_spec().push(file),
            },
            final(self).diagnostics_spec() == old(self).diagnostics_spec(),
    {
        proof {
            use_type_invariant(&*self);
        }
        let mut mine = DiagnosticReport::new();
        core::mem::swap(&mut mine, self);
        let DiagnosticReport { files: mut files, diagnostics } = mine;
        let ghost before = files@;
        let idx = Self::intern_into(&mut files, file);
        proof {
            assert forall|i: int| 0 <= i < diagnostics@.len() implies diagnostic_ok(
                #[trigger] diagnostics@[i],
                files@.len(),
            ) by {
                assert(diagnostic_ok(diagnostics@[i], before.len()));
                let d = diagnostics@[i];
                assert forall|k: int| 0 <= k < d.trace@.len() implies span_ok(
                    #[trigger] d.trace@[k].span,
                    files@.len() as nat,
                ) by {
                    assert(span_ok(d.trace@[k].span, before.len() as nat));
                }
            }
        }
        *self = DiagnosticReport { files, diagnostics };
        idx
    }

    /// The index of `file` in `files`, adding it when no file of that name
    /// is there yet.
    fn intern_into(files: &mut Vec<SourceFile>, file: SourceFile) -> (idx: usize)
        requires
            names_unique(old(files)@),
        ensures
            names_unique(final(files)@),
            idx < final(files)@.len(),
            final(files)@[idx as int].name@ == file.name@,
            final(files)@.len() >= old(files)@.len(),
            forall|i: int| 0 <= i < old(files)@.len() ==> #[trigger] final(files)@[i] == old(files)@[i],
            match index_of_name(old(files)@, file.name@) {
                Some(i) => idx == i && final(files)@ == old(files)@,
                None => idx == old(files)@.len() && final(files)@ == old(files)@.push(file),
            },
    {
        let mut i: usize = 0;
        while i < files.len()
            invariant
                i <= files@.len(),
                files@ == old(files)@,
                names_unique(files@),
                forall|j: int| 0 <= j < i ==> files@[j].name@ != file.name@,
            decreases files@.len() - i,
        {
            if str_eq(files[i].name.as_str(), file.name.as_str()) {
                proof {
                    let c = choose|c: int| 0 <= c < files@.len() && files@[c].name@ == file.name@;
                    assert(c == i) by {
                        if c < i {
                            assert(files@[c].name@ != file.name@);
                        } else if c > i {
                            assert(files@[i as int].name@ != files@[c].name@);
                        }
                    }
                }
                return i;
            }
            i += 1;
        }
        files.push(file);
        files.len() - 1
    }

    /// Moves `s` onto the file list through `remap`.
    fn shift(s: Option<Span>, remap: &Vec<usize>) -> (r: Option<Span>)
        requires
            span_ok(s, remap@.len() as nat),
        ensures
            match s {
                Some(sp) => r matches Some(rp) && rp.file == remap@[sp.file as int] && rp.range == sp.range,
                None => r is None,
            },
    {
        match s {
            Some(sp) => Some(Span { file: remap[sp.file], range: sp.range }),
            None => None,
        }
    }

    /// Absorb `other`, remapping its spans onto this report's file list.
    /// Each of `other`'s files is added unless one of the same name is
    /// already here; each of its diagnostics follows this report's own, with
    /// every span pointing at the file of the same name.
    pub fn extend(&mut self, other: DiagnosticReport)
        ensures
            final(self).files_spec().len() >= old(self).files_spec().len(),
            forall|i: int| 0 <= i < old(self).files_spec().len() ==> #[trigger] final(self).files_spec()[i]
                == old(self).files_spec()[i],
            forall|k: int| 0 <= k < final(self).files_spec().len() ==> (k < old(self).files_spec().len()
                || other.files_spec().contains(#[trigger] final(self).files_spec()[k])),
            forall|j: int| 0 <= j < other.files_spec().len() ==> #[trigger] index_of_name(
                final(self).files_spec(),
                other.files_spec()[j].name@,
            ) is Some,
            final(self).diagnostics_spec().len() == old(self).diagnostics_spec().len()
                + other.diagnostics_spec().len(),
            forall|i: int| 0 <= i < old(self).diagnostics_spec().len() ==> #[trigger] final(self).diagnostics_spec()[i]
                == old(self).diagnostics_spec()[i],
            forall|i: int| 0 <= i < other.diagnostics_spec().len() ==> same_diagnostic(
                #[trigger] other.diagnostics_spec()[i],
                other.files_spec(),
                final(self).diagnostics_spec()[old(self).diagnostics_spec().len() + i],
                final(self).files_spec(),
            ),
    {
        proof {
            use_type_invariant(&*self);
            use_type_invariant(&other);
        }
        let ghost other_files = other.files@;
        let ghost other_diags = other.diagnostics@;
        let ghost old_files = self.files@;
        let ghost old_diags = self.diagnostics@;
        let mut mine = DiagnosticReport::new();
        core::mem::swap(&mut mine, self);
        let DiagnosticReport { files: mut files, diagnostics: mut diagnostics } = mine;
        let DiagnosticReport { files: mut incoming, diagnostics: mut others } = other;

        // Intern every incoming file, recording where each landed.
        let mut remap: Vec<usize> = Vec::new();
        while incoming.len() > 0
            invariant
                names_unique(files@),
                remap@.len() + incoming@.len() == other_files.len(),
                incoming@ == other_files.subrange(remap@.len() as int, other_files.len() as int),
                files@.len() >= old_files.len(),
                forall|i: int| 0 <= i < old_files.len() ==> #[trigger] files@[i] == old_files[i],
                forall|k: int| 0 <= k < files@.len() ==> (k < old_files.len() || other_files.contains(
                    #[trigger] files@[k],
                )),
                forall|j: int| 0 <= j < remap@.len() ==> #[trigger] remap@[j] < files@.len()
                    && files@[remap@[j] as int].name@ == other_files[j].name@,
            decreases incoming@.len(),
        {
            let f = incoming.remove(0);
            let ghost j = remap@.len();
            proof {
                assert(f == other_files[j as int]);
            }
            let ghost before = files@;
            let idx = Self::intern_into(&mut files, f);
            remap.push(idx);
            proof {
                assert forall|k: int| 0 <= k < files@.len() implies (k < old_files.len() || other_files.contains(
                    #[trigger] files@[k],
                )) by {
                    if k >= before.len() {
                        assert(files@[k] == other_files[j as int]);
                    } else {
                        assert(files@[k] == before[k]);
                    }
                }
                assert(incoming@ =~= other_files.subrange(remap@.len() as int, other_files.len() as int));
            }
        }

        // Move every incoming diagnostic over, its spans remapped.
        let n_old = diagnostics.len();
        while others.len() > 0
            invariant
                remap@.len() == other_files.len(),
                forall|j: int| 0 <= j < remap@.len() ==> #[trigger] remap@[j] < files@.len()
                    && files@[remap@[j] as int].name@ == other_files[j].name@,
                names_unique(files@),
                files@.len() >= old_files.len(),
                forall|i: int| 0 <= i < old_files.len() ==> #[trigger] files@[i] == old_files[i],
                forall|k: int| 0 <= k < files@.len() ==> (k < old_files.len() || other_files.contains(
                    #[trigger] files@[k],
                )),
                n_old == old_diags.len(),
                others@.len() <= other_diags.len(),
                diagnostics@.len() == n_old + (other_diags.len() - others@.len()),
                others@ == other_diags.subrange(other_diags.len() - others@.len(), other_diags.len() as int),
                forall|i: int| 0 <= i < old_diags.len() ==> #[trigger] diagnostics@[i] == old_diags[i],
                forall|i: int| 0 <= i < diagnostics@.len() ==> diagnostic_ok(#[trigger] diagnostics@[i], files@.len()),
                forall|i: int| 0 <= i < other_diags.len() ==> diagnostic_ok(#[trigger] other_diags[i], other_files.len()),
                forall|i: int| 0 <= i < diagnostics@.len() - n_old ==> same_diagnostic(
                    #[trigger] other_diags[i],
                    other_files,
                    diagnostics@[n_old + i],
                    files@,
                ),
            decreases others@.len(),
        {
            let ghost idx = other_diags.len() - others@.len();
            let d = others.remove(0);
            proof {
                assert(d == other_diags[idx]);
                assert(diagnostic_ok(d, other_files.len()));
            }
            let Diagnostic { severity, message, hints, span, trace: mut points } = d;
            let new_span = Self::shift(span, &remap);
            let ghost d_trace = points@;
            let mut new_trace: Vec<TracePoint> = Vec::new();
            while points.len() > 0
                invariant
                    remap@.len() == other_files.len(),
                    forall|j: int| 0 <= j < remap@.len() ==> #[trigger] remap@[j] < files@.len()
                        && files@[remap@[j] as int].name@ == other_files[j].name@,
                    forall|k: int| 0 <= k < d_trace.len() ==> span_ok(#[trigger] d_trace[k].span, other_files.len()),
                    new_trace@.len() + points@.len() == d_trace.len(),
                    points@ == d_trace.subrange(new_trace@.len() as int, d_trace.len() as int),
                    forall|k: int| #![trigger new_trace@[k]] 0 <= k < new_trace@.len() ==> {
                        &&& new_trace@[k].message@ == d_trace[k].message@
                        &&& span_file_name(new_trace@[k].span, files@) == span_file_name(d_trace[k].span, other_files)
                        &&& span_range(new_trace@[k].span) == span_range(d_trace[k].span)
                        &&& span_ok(new_trace@[k].span, files@.len())
                    },
                decreases points@.len(),
            {
                let ghost k = new_trace@.len();
                let p = points.remove(0);
                proof {
                    assert(p == d_trace[k as int]);
                }
                let TracePoint { message: pm, span: ps } = p;
                let shifted = Self::shift(ps, &remap);
                let ghost prev = new_trace@;
                new_trace.push(TracePoint { message: pm, span: shifted });
                proof {
                    assert forall|k2: int| 0 <= k2 < prev.len() implies #[trigger] new_trace@[k2] == prev[k2] by {}
                    assert(points@ =~= d_trace.subrange(new_trace@.len() as int, d_trace.len() as int));
                }
            }
            diagnostics.push(Diagnostic { severity, message, hints, span: new_span, trace: new_trace });
            proof {
                assert(others@ =~= other_diags.subrange(other_diags.len() - others@.len(), other_diags.len() as int));
                let nd = diagnostics@[diagnostics@.len() - 1];
                assert forall|k: int| 0 <= k < nd.trace@.len() implies span_ok(#[trigger] nd.trace@[k].span, files@.len()) by {
                    assert(nd.trace@[k] == new_trace@[k]);
                }
                assert(diagnostic_ok(nd, files@.len()));
                assert(same_diagnostic(other_diags[idx], other_files, nd, files@));
            }
        }
        proof {
            assert forall|j: int| 0 <= j < other_files.len() implies #[trigger] index_of_name(
                files@,
                other_files[j].name@,
            ) is Some by {
                assert(files@[remap@[j] as int].name@ == other_files[j].name@);
            }
        }
        *self = DiagnosticReport { files, diagnostics };
    }

    /// Adds one diagnostic whose spans carry their files by value, interning
    /// each file by name.
    pub fn push_resolved(
        &mut self,
        severity: Severity,
        message: String,
        hints: Vec<String>,
        span: Option<ResolvedSpan>,
        trace: Vec<(String, Option<ResolvedSpan>)>,
    )
        ensures
            final(self).diagnostics_spec().len() == old(self).diagnostics_spec().len() + 1,
            forall|i: int| 0 <= i < old(self).diagnostics_spec().len() ==> #[trigger] final(self).diagnostics_spec()[i]
                == old(self).diagnostics_spec()[i],
            forall|i: int| 0 <= i < old(self).files_spec().len() ==> #[trigger] final(self).files_spec()[i]
                == old(self).files_spec()[i],
            ({
                let d = final(self).diagnostics_spec()[old(self).diagnostics_spec().len() as int];
                &&& d.severity == severity
                &&& d.message == message
                &&& d.hints == hints
                &&& d.trace@.len() == trace@.len()
                &&& span_file_name(d.span, final(self).files_spec()) == (match span {
                    Some(s) => Some(s.file.name@),
                    None => None,
                })
                &&& forall|k: int| 0 <= k < trace@.len() ==> {
                    &&& #[trigger] d.trace@[k].message == trace@[k].0
                    &&& span_file_name(d.trace@[k].span, final(self).files_spec()) == (match trace@[k].1 {
                        Some(s) => Some(s.file.name@),
                        None => None,
                    })
                }
            }),
    {
        proof {
            use_type_invariant(&*self);
        }
        let mut mine = DiagnosticReport::new();
        core::mem::swap(&mut mine, self);
        let DiagnosticReport { files: mut files, diagnostics: mut diagnostics } = mine;
        let ghost old_files = files@;
        let ghost old_diags = diagnostics@;
        let new_span = match span {
            Some(rs) => {
                let ResolvedSpan { file, range } = rs;
                let idx = Self::intern_into(&mut files, file);
                Some(Span { file: idx, range })
            },
            None => None,
        };
        let ghost trace_in = trace@;
        let mut points = trace;
        let mut new_trace: Vec<TracePoint> = Vec::new();
        while points.len() > 0
            invariant
                names_unique(files@),
                files@.len() >= old_files.len(),
                forall|i: int| 0 <= i < old_files.len() ==> #[trigger] files@[i] == old_files[i],
                span_ok(new_span, files@.len()),
                span_file_name(new_span, files@) == (match span {
                    Some(s) => Some(s.file.name@),
                    None => None,
                }),
                new_trace@.len() + points@.len() == trace_in.len(),
                points@ == trace_in.subrange(new_trace@.len() as int, trace_in.len() as int),
                forall|k: int| #![trigger new_trace@[k]] 0 <= k < new_trace@.len() ==> {
                    &&& new_trace@[k].message == trace_in[k].0
                    &&& span_ok(new_trace@[k].span, files@.len())
                    &&& span_file_name(new_trace@[k].span, files@) == (match trace_in[k].1 {
                        Some(s) => Some(s.file.name@),
                        None => None,
                    })
                },
            decreases points@.len(),
        {
            let ghost k = new_trace@.len();
            let (pm, ps) = points.remove(0);
            proof {
                assert((pm, ps) == trace_in[k as int]);
            }
            let ghost before = files@;
            let shifted = match ps {
                Some(rs) => {
                    let ResolvedSpan { file, range } = rs;
                    let idx = Self::intern_into(&mut files, file);
                    Some(Span { file: idx, range })
                },
                None => None,
            };
            proof {
                assert forall|k2: int| 0 <= k2 < new_trace@.len() implies span_file_name(
                    #[trigger] new_trace@[k2].span,
                    files@,
                ) == span_file_name(new_trace@[k2].span, before) by {
                    if new_trace@[k2].span is Some {
                        let f = new_trace@[k2].span->0.file;
                        assert(files@[f as int] == before[f as int]);
                    }
                }
                if new_span is Some {
                    let f = new_span->0.file;
                    assert(files@[f as int] == before[f as int]);
                }
            }
            let ghost prev = new_trace@;
            new_trace.push(TracePoint { message: pm, span: shifted });
            proof {
                assert forall|k2: int| 0 <= k2 < prev.len() implies #[trigger] new_trace@[k2] == prev[k2] by {}
                assert(points@ =~= trace_in.subrange(new_trace@.len() as int, trace_in.len() as int));
            }
        }
        let ghost dl = diagnostics@.len();
        proof {
            assert(old_diags == old(self).diagnostics@);
            assert(old_files == old(self).files@);
        }
        diagnostics.push(Diagnostic { severity, message, hints, span: new_span, trace: new_trace });
        proof {
            assert forall|i: int| 0 <= i < diagnostics@.len() implies diagnostic_ok(
                #[trigger] diagnostics@[i],
                files@.len(),
            ) by {
                if i < dl {
                    let d = diagnostics@[i];
                    assert(old_diags[i] == d);
                    assert(old(self).diagnostics@[i] == d);
                    assert(diagnostic_ok(d, old_files.len()));
                    assert forall|k: int| 0 <= k < d.trace@.len() implies span_ok(#[trigger] d.trace@[k].span, files@.len()) by {
                        assert(span_ok(d.trace@[k].span, old_files.len()));
                    }
                }
            }
        }
        *self = DiagnosticReport { files, diagnostics };
    }
}

} // verus!
