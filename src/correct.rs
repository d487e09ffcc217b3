//! The build self-correction rules.
//!
//! A build of the instrumented program reports diagnostics. The errors among
//! them that carry a code and a primary span are grouped by file; in each
//! file, every generated capture statement whose byte range holds an error's
//! primary span is deleted, and the build runs again. An error that no
//! generated statement holds cannot be corrected: the tool never changes
//! code that it did not write.

use vstd::prelude::*;
use crate::text::str_eq;

verus! {

/// A half-open byte range `[start, end)` of a source file.
#[derive(Clone, Copy, Debug, PartialEq, Eq, Structural)]
pub struct Span {
    pub start: usize,
    pub end: usize,
}

/// One span of a diagnostic as the build reports it.
pub struct DiagnosticSpan {
    pub file_name: String,
    pub byte_start: usize,
    pub byte_end: usize,
    pub is_primary: bool,
}

/// A diagnostic as the build reports it.
pub struct Diagnostic {
    pub is_error: bool,
    pub code: Option<String>,
    pub spans: Vec<DiagnosticSpan>,
    pub rendered: Option<String>,
}

/// A compile error that the correction can act on.
pub struct CompileError {
    pub file_path: String,
    pub error_code: String,
    pub primary_span: Span,
    pub source_spans: Vec<Span>,
    pub error_message: String,
}

/// The errors of one file, in the order reported.
pub struct FileErrors {
    pub file_path: String,
    pub errors: Vec<CompileError>,
}

/// Why a build session stops.
#[derive(Clone, Copy, Debug, PartialEq, Eq, Structural)]
pub enum BuildError {
    /// The build failed without reporting any error to correct.
    BuildInvocationError,
    /// An error that no generated statement holds.
    UncorrectableCompileError,
}

/// What the build loop does next.
pub enum BuildAction {
    /// The build succeeded.
    Done,
    /// Correct these files and build again.
    Correct(Vec<FileErrors>),
    /// Stop the session.
    Fail(BuildError),
}

/// The model of a compile error.
pub struct ErrorView {
    pub file: Seq<char>,
    pub code: Seq<char>,
    pub primary: Span,
    pub spans: Seq<Span>,
    pub message: Seq<char>,
}

pub open spec fn error_view(e: CompileError) -> ErrorView {
    ErrorView {
        file: e.file_path@,
        code: e.error_code@,
        primary: e.primary_span,
        spans: e.source_spans@,
        message: e.error_message@,
    }
}

pub open spec fn errors_view(v: Seq<CompileError>) -> Seq<ErrorView>
    decreases v.len(),
{
    if v.len() == 0 {
        seq![]
    } else {
        errors_view(v.drop_last()).push(error_view(v.last()))
    }
}

// ---------------------------------------------------------------------------
// Which diagnostics count

/// The index of the first primary span, if any.
pub open spec fn first_primary(v: Seq<DiagnosticSpan>) -> Option<int>
    decreases v.len(),
{
    if v.len() == 0 {
        None
    } else {
        match first_primary(v.drop_last()) {
            Some(i) => Some(i),
            None => if v.last().is_primary { Some(v.len() - 1) } else { None },
        }
    }
}

/// A diagnostic counts if it is an error with a code and a primary span.
pub open spec fn counts(d: Diagnostic) -> bool {
    d.is_error && d.code is Some && first_primary(d.spans@) is Some
}

/// The byte ranges of a diagnostic's spans, in order.
pub open spec fn byte_ranges(v: Seq<DiagnosticSpan>) -> Seq<Span>
    decreases v.len(),
{
    if v.len() == 0 {
        seq![]
    } else {
        byte_ranges(v.drop_last()).push(Span { start: v.last().byte_start, end: v.last().byte_end })
    }
}

/// The error that a counted diagnostic gives: the primary span's file, the
/// code, the primary span, every span's byte range, and the rendered text
/// (`N/A` if there is none).
pub open spec fn error_of(d: Diagnostic) -> ErrorView {
    let p = d.spans@[first_primary(d.spans@)->Some_0];
    ErrorView {
        file: p.file_name@,
        code: d.code->Some_0@,
        primary: Span { start: p.byte_start, end: p.byte_end },
        spans: byte_ranges(d.spans@),
        message: match d.rendered {
            Some(m) => m@,
            None => "N/A"@,
        },
    }
}

/// The errors of the diagnostics that count, in order.
pub open spec fn counted_errors(v: Seq<Diagnostic>) -> Seq<ErrorView>
    decreases v.len(),
{
    if v.len() == 0 {
        seq![]
    } else if counts(v.last()) {
        counted_errors(v.drop_last()).push(error_of(v.last()))
    } else {
        counted_errors(v.drop_last())
    }
}

/// The first primary span of a diagnostic.
fn find_primary(spans: &Vec<DiagnosticSpan>) -> (r: Option<usize>)
    ensures
        r matches Some(i) ==> first_primary(spans@) == Some(i as int) && i < spans@.len(),
        r is None ==> first_primary(spans@) is None,
{
    let mut i: usize = 0;
    while i < spans.len()
        invariant
            i <= spans@.len(),
            first_primary(spans@.subrange(0, i as int)) is None,
        decreases spans@.len() - i,
    {
        assert(spans@.subrange(0, i + 1).drop_last() =~= spans@.subrange(0, i as int));
        if spans[i].is_primary {
            proof { lemma_first_primary_prefix(spans@, i as int); }
            return Some(i);
        }
        i += 1;
    }
    assert(spans@.subrange(0, spans@.len() as int) =~= spans@);
    None
}

proof fn lemma_first_primary_prefix(v: Seq<DiagnosticSpan>, i: int)
    requires
        0 <= i < v.len(),
        first_primary(v.subrange(0, i)) is None,
        v[i].is_primary,
    ensures
        first_primary(v) == Some(i),
    decreases v.len(),
{
    if v.len() - 1 > i {
        assert(v.drop_last().subrange(0, i) =~= v.subrange(0, i));
        lemma_first_primary_prefix(v.drop_last(), i);
    } else {
        assert(v.drop_last() =~= v.subrange(0, i));
    }
}

/// The compile errors among a build's diagnostics: errors with a code and a
/// primary span; the error's file is the primary span's file.
pub fn compile_errors(diags: &Vec<Diagnostic>) -> (r: Vec<CompileError>)
    ensures
        errors_view(r@) == counted_errors(diags@),
{
    let mut r: Vec<CompileError> = Vec::new();
    let mut i: usize = 0;
    assert(errors_view(r@) =~= counted_errors(diags@.subrange(0, 0)));
    while i < diags.len()
        invariant
            i <= diags@.len(),
            errors_view(r@) == counted_errors(diags@.subrange(0, i as int)),
        decreases diags@.len() - i,
    {
        let d = &diags[i];
        let ghost sub1 = diags@.subrange(0, i + 1);
        assert(sub1.drop_last() =~= diags@.subrange(0, i as int));
        assert(sub1.last() == *d);
        if d.is_error {
            if let Some(code) = &d.code {
                if let Some(k) = find_primary(&d.spans) {
                    let p = &d.spans[k];
                    let mut source_spans: Vec<Span> = Vec::new();
                    let mut j: usize = 0;
                    assert(source_spans@ =~= byte_ranges(d.spans@.subrange(0, 0)));
                    while j < d.spans.len()
                        invariant
                            j <= d.spans@.len(),
                            source_spans@ == byte_ranges(d.spans@.subrange(0, j as int)),
                        decreases d.spans@.len() - j,
                    {
                        assert(d.spans@.subrange(0, j + 1).drop_last() =~= d.spans@.subrange(0, j as int));
                        source_spans.push(Span { start: d.spans[j].byte_start, end: d.spans[j].byte_end });
                        j += 1;
                    }
                    assert(d.spans@.subrange(0, d.spans@.len() as int) =~= d.spans@);
                    let message = match &d.rendered {
                        Some(m) => m.clone(),
                        None => String::from_str("N/A"),
                    };
                    let e = CompileError {
                        file_path: p.file_name.clone(),
                        error_code: code.clone(),
                        primary_span: Span { start: p.byte_start, end: p.byte_end },
                        source_spans,
                        error_message: message,
                    };
                    let ghost prev = r@;
                    r.push(e);
                    assert(r@.drop_last() =~= prev);
                }
            }
        }
        i += 1;
    }
    assert(diags@.subrange(0, diags@.len() as int) =~= diags@);
    r
}

/// What the build loop does after a build: stop when it succeeded, fail when
/// it failed with nothing to correct, else correct the errors file by file.
pub fn next_action(errors: Vec<CompileError>, success: bool) -> (r: BuildAction)
    ensures
        errors@.len() == 0 && success ==> r is Done,
        errors@.len() == 0 && !success ==> r == BuildAction::Fail(BuildError::BuildInvocationError),
        errors@.len() > 0 ==> (r matches BuildAction::Correct(g) && groups_view(g@) == group_by_file(errors_view(errors@))),
{
    if errors.len() == 0 {
        if success {
            BuildAction::Done
        } else {
            BuildAction::Fail(BuildError::BuildInvocationError)
        }
    } else {
        BuildAction::Correct(files_to_errors(errors))
    }
}

// ---------------------------------------------------------------------------
// Grouping by file

/// The model of a file's errors.
pub struct GroupView {
    pub file: Seq<char>,
    pub errors: Seq<ErrorView>,
}

pub open spec fn groups_view(v: Seq<FileErrors>) -> Seq<GroupView>
    decreases v.len(),
{
    if v.len() == 0 {
        seq![]
    } else {
        groups_view(v.drop_last()).push(GroupView { file: v.last().file_path@, errors: errors_view(v.last().errors@) })
    }
}

/// The group of file `f`, if there is one.
pub open spec fn group_index(g: Seq<GroupView>, f: Seq<char>) -> Option<int>
    decreases g.len(),
{
    if g.len() == 0 {
        None
    } else if g.last().file == f {
        Some(g.len() - 1)
    } else {
        group_index(g.drop_last(), f)
    }
}

/// Errors grouped by file: one group per file, in the order in which files
/// first appear; each group's errors in the order reported.
pub open spec fn group_by_file(v: Seq<ErrorView>) -> Seq<GroupView>
    decreases v.len(),
{
    if v.len() == 0 {
        seq![]
    } else {
        let g = group_by_file(v.drop_last());
        let e = v.last();
        match group_index(g, e.file) {
            Some(i) => g.update(i, GroupView { file: g[i].file, errors: g[i].errors.push(e) }),
            None => g.push(GroupView { file: e.file, errors: seq![e] }),
        }
    }
}

proof fn lemma_group_index_bound(g: Seq<GroupView>, f: Seq<char>)
    ensures
        group_index(g, f) matches Some(i) ==> 0 <= i < g.len() && g[i].file == f,
    decreases g.len(),
{
    if g.len() > 0 {
        lemma_group_index_bound(g.drop_last(), f);
    }
}

/// The position of file `f` among the groups.
fn find_group(groups: &Vec<FileErrors>, f: &str) -> (r: Option<usize>)
    ensures
        r matches Some(i) ==> group_index(groups_view(groups@), f@) == Some(i as int),
        r is None ==> group_index(groups_view(groups@), f@) is None,
{
    let mut i: usize = groups.len();
    assert(groups@.subrange(0, i as int) =~= groups@);
    while i > 0
        invariant
            i <= groups@.len(),
            group_index(groups_view(groups@), f@) == group_index(groups_view(groups@.subrange(0, i as int)), f@),
        decreases i,
    {
        let ghost sub = groups@.subrange(0, i as int);
        assert(sub.drop_last() =~= groups@.subrange(0, i - 1));
        assert(groups_view(sub).drop_last() =~= groups_view(sub.drop_last()));
        proof { lemma_groups_view_len(sub); }
        if str_eq(groups[i - 1].file_path.as_str(), f) {
            return Some(i - 1);
        }
        i -= 1;
    }
    assert(groups_view(groups@.subrange(0, 0)) =~= Seq::<GroupView>::empty());
    None
}

proof fn lemma_groups_view_len(v: Seq<FileErrors>)
    ensures
        groups_view(v).len() == v.len(),
        forall|i: int| 0 <= i < v.len() ==> #[trigger] groups_view(v)[i] == (GroupView { file: v[i].file_path@, errors: errors_view(v[i].errors@) }),
    decreases v.len(),
{
    if v.len() > 0 {
        lemma_groups_view_len(v.drop_last());
        assert forall|i: int| 0 <= i < v.len() implies #[trigger] groups_view(v)[i] == (GroupView { file: v[i].file_path@, errors: errors_view(v[i].errors@) }) by {
            if i < v.len() - 1 {
                assert(v.drop_last()[i] == v[i]);
            }
        }
    }
}

/// The errors grouped by file: one group per file, in the order in which
/// files first appear, each with its errors in the order reported.
pub fn files_to_errors(errs: Vec<CompileError>) -> (r: Vec<FileErrors>)
    ensures
        groups_view(r@) == group_by_file(errors_view(errs@)),
{
    let ghost ev = errors_view(errs@);
    let ghost all = errs@;
    let n = errs.len();
    let mut rest = errs;
    let mut result: Vec<FileErrors> = Vec::new();
    let mut k: usize = 0;
    assert(groups_view(result@) =~= group_by_file(errors_view(all.subrange(0, 0))));
    while k < n
        invariant
            k <= n,
            n == all.len(),
            rest@ == all.subrange(k as int, n as int),
            groups_view(result@) == group_by_file(errors_view(all.subrange(0, k as int))),
        decreases n - k,
    {
        let e = rest.remove(0);
        assert(e == all[k as int]);
        let ghost sub = all.subrange(0, k as int);
        let ghost sub1 = all.subrange(0, k + 1);
        assert(sub1.drop_last() =~= sub);
        assert(errors_view(sub1).drop_last() =~= errors_view(sub));
        let ghost g = groups_view(result@);
        let ghost ee = error_view(e);
        proof { lemma_groups_view_len(result@); }
        match find_group(&result, e.file_path.as_str()) {
            Some(i) => {
                proof { lemma_group_index_bound(g, ee.file); }
                let mut grp = result.remove(i);
                let ghost old_errs = grp.errors@;
                grp.errors.push(e);
                assert(grp.errors@.drop_last() =~= old_errs);
                result.insert(i, grp);
                proof {
                    lemma_groups_view_len(result@);
                    assert(groups_view(result@) =~= g.update(i as int, GroupView { file: g[i as int].file, errors: g[i as int].errors.push(ee) }));
                }
            },
            None => {
                let f = e.file_path.clone();
                let mut v: Vec<CompileError> = Vec::new();
                v.push(e);
                assert(errors_view(v@) =~= seq![ee]) by {
                    assert(v@.drop_last() =~= Seq::<CompileError>::empty());
                    assert(errors_view(Seq::<CompileError>::empty()) =~= Seq::<ErrorView>::empty());
                }
                let ghost prev = result@;
                result.push(FileErrors { file_path: f, errors: v });
                assert(result@.drop_last() =~= prev);
            },
        }
        assert(rest@ =~= all.subrange(k + 1, n as int));
        k += 1;
    }
    assert(all.subrange(0, n as int) =~= all);
    result
}

// ---------------------------------------------------------------------------
// Deleting generated statements

/// A statement's byte range holds an error's primary span.
pub open spec fn covers(s: Span, e: ErrorView) -> bool {
    s.start <= e.primary.start && e.primary.end <= s.end
}

/// Whether a statement holds one of the errors.
pub open spec fn any_covered(errs: Seq<ErrorView>, s: Span) -> bool {
    exists|i: int| 0 <= i < errs.len() && covers(s, #[trigger] errs[i])
}

/// The errors that a statement does not hold, in order.
pub open spec fn uncovered_by(errs: Seq<ErrorView>, s: Span) -> Seq<ErrorView>
    decreases errs.len(),
{
    if errs.len() == 0 {
        seq![]
    } else if covers(s, errs.last()) {
        uncovered_by(errs.drop_last(), s)
    } else {
        uncovered_by(errs.drop_last(), s).push(errs.last())
    }
}

/// The correction of one file: the generated statements, in source order,
/// are taken in turn; a statement that holds one of the errors still open is
/// deleted, and the errors it holds are closed. The result says which
/// statements are deleted and which errors stay open.
pub open spec fn plan(stmts: Seq<Span>, errs: Seq<ErrorView>) -> (Seq<bool>, Seq<ErrorView>)
    decreases stmts.len(),
{
    if stmts.len() == 0 {
        (seq![], errs)
    } else {
        let (d, rem) = plan(stmts.drop_last(), errs);
        (d.push(any_covered(rem, stmts.last())), uncovered_by(rem, stmts.last()))
    }
}

/// Which generated statements of a file to delete (by position among them,
/// in source order) to remove the file's errors; fails if an error is left
/// that no generated statement holds. Only a file with errors is corrected.
pub fn plan_correction(stmts: &Vec<Span>, errors: Vec<CompileError>) -> (r: Result<Vec<bool>, BuildError>)
    requires
        errors@.len() > 0,
    ensures
        r matches Ok(d) ==> d@ == plan(stmts@, errors_view(errors@)).0 && plan(stmts@, errors_view(errors@)).1.len() == 0,
        r is Err ==> r == Err::<Vec<bool>, BuildError>(BuildError::UncorrectableCompileError)
            && plan(stmts@, errors_view(errors@)).1.len() > 0,
{
    let ghost ev = errors_view(errors@);
    let mut remaining = errors;
    let mut delete: Vec<bool> = Vec::new();
    let mut i: usize = 0;
    assert(stmts@.subrange(0, 0) =~= Seq::<Span>::empty());
    while i < stmts.len()
        invariant
            i <= stmts@.len(),
            delete@ == plan(stmts@.subrange(0, i as int), ev).0,
            errors_view(remaining@) == plan(stmts@.subrange(0, i as int), ev).1,
        decreases stmts@.len() - i,
    {
        let s = stmts[i];
        let ghost sub1 = stmts@.subrange(0, i + 1);
        assert(sub1.drop_last() =~= stmts@.subrange(0, i as int));
        let ghost rv = errors_view(remaining@);
        let ghost all = remaining@;
        let n = remaining.len();
        let mut rest = remaining;
        let mut kept: Vec<CompileError> = Vec::new();
        let mut hit = false;
        let mut k: usize = 0;
        assert(errors_view(all.subrange(0, 0)) =~= Seq::<ErrorView>::empty());
        assert(errors_view(kept@) =~= Seq::<ErrorView>::empty());
        while k < n
            invariant
                k <= n,
                n == all.len(),
                rv == errors_view(all),
                rest@ == all.subrange(k as int, n as int),
                errors_view(kept@) == uncovered_by(errors_view(all.subrange(0, k as int)), s),
                hit == any_covered(errors_view(all.subrange(0, k as int)), s),
            decreases n - k,
        {
            let e = rest.remove(0);
            assert(e == all[k as int]);
            let ghost sub = all.subrange(0, k as int);
            let ghost sub2 = all.subrange(0, k + 1);
            assert(sub2.drop_last() =~= sub);
            assert(errors_view(sub2) == errors_view(sub).push(error_view(e)));
            assert(errors_view(sub2).drop_last() =~= errors_view(sub));
            proof { lemma_errors_view_index(sub2); }
            if s.start <= e.primary_span.start && e.primary_span.end <= s.end {
                hit = true;
                assert(errors_view(sub2)[k as int] == error_view(e));
            } else {
                let ghost prev = kept@;
                kept.push(e);
                assert(kept@.drop_last() =~= prev);
                if !hit {
                    assert forall|j: int| 0 <= j < errors_view(sub2).len() implies !covers(s, #[trigger] errors_view(sub2)[j]) by {
                        if j < k {
                            assert(errors_view(sub2)[j] == errors_view(sub)[j]);
                        }
                    }
                }
            }
            if hit {
                assert(any_covered(errors_view(sub2), s)) by {
                    if !covers(s, error_view(e)) {
                        let j = choose|j: int| 0 <= j < errors_view(sub).len() && covers(s, #[trigger] errors_view(sub)[j]);
                        assert(errors_view(sub2)[j] == errors_view(sub)[j]);
                    }
                }
            }
            assert(rest@ =~= all.subrange(k + 1, n as int));
            k += 1;
        }
        assert(all.subrange(0, n as int) =~= all);
        delete.push(hit);
        remaining = kept;
        i += 1;
    }
    assert(stmts@.subrange(0, stmts@.len() as int) =~= stmts@);
    if remaining.len() > 0 {
        Err(BuildError::UncorrectableCompileError)
    } else {
        Ok(delete)
    }
}

proof fn lemma_errors_view_index(v: Seq<CompileError>)
    ensures
        errors_view(v).len() == v.len(),
        forall|i: int| 0 <= i < v.len() ==> #[trigger] errors_view(v)[i] == error_view(v[i]),
    decreases v.len(),
{
    if v.len() > 0 {
        lemma_errors_view_index(v.drop_last());
        assert forall|i: int| 0 <= i < v.len() implies #[trigger] errors_view(v)[i] == error_view(v[i]) by {
            if i < v.len() - 1 {
                assert(v.drop_last()[i] == v[i]);
            }
        }
    }
}

// ---------------------------------------------------------------------------
// Laws

proof fn lemma_uncovered_by_nothing(errs: Seq<ErrorView>, s: Span)
    requires
        !any_covered(errs, s),
    ensures
        uncovered_by(errs, s) == errs,
    decreases errs.len(),
{
    if errs.len() > 0 {
        assert(!covers(s, errs[errs.len() - 1]));
        assert(!any_covered(errs.drop_last(), s)) by {
            if any_covered(errs.drop_last(), s) {
                let j = choose|j: int| 0 <= j < errs.drop_last().len() && covers(s, #[trigger] errs.drop_last()[j]);
                assert(errs[j] == errs.drop_last()[j]);
            }
        }
        lemma_uncovered_by_nothing(errs.drop_last(), s);
        assert(errs.drop_last().push(errs.last()) =~= errs);
    }
}

proof fn lemma_uncovered_by_all(errs: Seq<ErrorView>, s: Span)
    requires
        forall|i: int| 0 <= i < errs.len() ==> covers(s, #[trigger] errs[i]),
    ensures
        uncovered_by(errs, s).len() == 0,
    decreases errs.len(),
{
    if errs.len() > 0 {
        assert(covers(s, errs[errs.len() - 1]));
        assert forall|i: int| 0 <= i < errs.drop_last().len() implies covers(s, #[trigger] errs.drop_last()[i]) by {
            assert(errs[i] == errs.drop_last()[i]);
        }
        lemma_uncovered_by_all(errs.drop_last(), s);
    }
}

proof fn lemma_uncovered_keeps(errs: Seq<ErrorView>, s: Span, e: ErrorView)
    requires
        errs.contains(e),
        !covers(s, e),
    ensures
        uncovered_by(errs, s).contains(e),
    decreases errs.len(),
{
    if errs.last() == e {
        assert(uncovered_by(errs, s).last() == e);
    } else {
        let j = choose|j: int| 0 <= j < errs.len() && errs[j] == e;
        assert(errs.drop_last()[j] == e);
        lemma_uncovered_keeps(errs.drop_last(), s, e);
        let u = uncovered_by(errs.drop_last(), s);
        let w = choose|w: int| 0 <= w < u.len() && u[w] == e;
        if !covers(s, errs.last()) {
            assert(uncovered_by(errs, s)[w] == e);
        }
    }
}

/// Exact removal: when the only error of a file lies in generated statement
/// `i` and in no other, one correction round deletes exactly that statement
/// and leaves no error open.
pub proof fn lemma_removes_exactly_culprit(stmts: Seq<Span>, e: ErrorView, i: int)
    requires
        0 <= i < stmts.len(),
        covers(stmts[i], e),
        forall|j: int| 0 <= j < stmts.len() && j != i ==> !covers(#[trigger] stmts[j], e),
    ensures
        plan(stmts, seq![e]).0 == Seq::new(stmts.len(), |j: int| j == i),
        plan(stmts, seq![e]).1.len() == 0,
    decreases stmts.len(),
{
    lemma_plan_single(stmts, e, i, stmts.len() as int);
    assert(stmts.subrange(0, stmts.len() as int) =~= stmts);
}

proof fn lemma_plan_single(stmts: Seq<Span>, e: ErrorView, i: int, k: int)
    requires
        0 <= i < stmts.len(),
        0 <= k <= stmts.len(),
        covers(stmts[i], e),
        forall|j: int| 0 <= j < stmts.len() && j != i ==> !covers(#[trigger] stmts[j], e),
    ensures
        plan(stmts.subrange(0, k), seq![e]).0 == Seq::new(k as nat, |j: int| j == i),
        k <= i ==> plan(stmts.subrange(0, k), seq![e]).1 == seq![e],
        k > i ==> plan(stmts.subrange(0, k), seq![e]).1.len() == 0,
    decreases k,
{
    let sub = stmts.subrange(0, k);
    if k == 0 {
        assert(plan(sub, seq![e]).0 =~= Seq::new(0, |j: int| j == i));
    } else {
        lemma_plan_single(stmts, e, i, k - 1);
        assert(sub.drop_last() =~= stmts.subrange(0, k - 1));
        assert(sub.last() == stmts[k - 1]);
        let rem = plan(stmts.subrange(0, k - 1), seq![e]).1;
        if k - 1 < i {
            assert(!covers(stmts[k - 1], e));
            assert(!any_covered(rem, stmts[k - 1])) by {
                assert(rem =~= seq![e]);
            }
            lemma_uncovered_by_nothing(rem, stmts[k - 1]);
        } else if k - 1 == i {
            assert(rem =~= seq![e]);
            assert(covers(stmts[k - 1], rem[0]));
            lemma_uncovered_by_all(rem, stmts[k - 1]);
        } else {
            assert(rem.len() == 0);
            assert(uncovered_by(rem, stmts[k - 1]) =~= Seq::<ErrorView>::empty());
        }
        assert(plan(sub, seq![e]).0 =~= Seq::new(k as nat, |j: int| j == i));
    }
}

/// No silent change: an error that no generated statement holds stays open,
/// so the first correction round already reports it as uncorrectable.
pub proof fn lemma_foreign_error_uncorrectable(stmts: Seq<Span>, errs: Seq<ErrorView>, e: ErrorView)
    requires
        errs.contains(e),
        forall|j: int| 0 <= j < stmts.len() ==> !covers(#[trigger] stmts[j], e),
    ensures
        plan(stmts, errs).1.contains(e),
        plan(stmts, errs).1.len() > 0,
    decreases stmts.len(),
{
    if stmts.len() > 0 {
        assert forall|j: int| 0 <= j < stmts.drop_last().len() implies !covers(#[trigger] stmts.drop_last()[j], e) by {
            assert(stmts.drop_last()[j] == stmts[j]);
        }
        lemma_foreign_error_uncorrectable(stmts.drop_last(), errs, e);
        assert(!covers(stmts[stmts.len() - 1], e));
        lemma_uncovered_keeps(plan(stmts.drop_last(), errs).1, stmts.last(), e);
    }
}

/// Progress: a round that leaves no error open while there were errors
/// deletes at least one generated statement, so correction rounds cannot go
/// on forever.
pub proof fn lemma_round_deletes(stmts: Seq<Span>, errs: Seq<ErrorView>)
    requires
        errs.len() > 0,
        plan(stmts, errs).1.len() == 0,
    ensures
        exists|j: int| 0 <= j < stmts.len() && #[trigger] plan(stmts, errs).0[j],
    decreases stmts.len(),
{
    if stmts.len() == 0 {
        assert(false);
    } else {
        let (d, rem) = plan(stmts.drop_last(), errs);
        lemma_plan_len(stmts.drop_last(), errs);
        if any_covered(rem, stmts.last()) {
            assert(plan(stmts, errs).0[stmts.len() - 1]);
        } else {
            lemma_uncovered_by_nothing(rem, stmts.last());
            lemma_round_deletes(stmts.drop_last(), errs);
            let j = choose|j: int| 0 <= j < stmts.drop_last().len() && #[trigger] plan(stmts.drop_last(), errs).0[j];
            assert(plan(stmts, errs).0[j] == d[j]);
        }
    }
}

proof fn lemma_plan_len(stmts: Seq<Span>, errs: Seq<ErrorView>)
    ensures
        plan(stmts, errs).0.len() == stmts.len(),
    decreases stmts.len(),
{
    if stmts.len() > 0 {
        lemma_plan_len(stmts.drop_last(), errs);
    }
}

} // verus!
