//! Rendering `audit providers` output.
//!
//! The engine streams per-target results in pattern order: a success
//! line for each target to stdout, a failure diagnostic to stderr,
//! and an overall error when any target's providers could not be
//! evaluated. Diagnostics and rendered provider bodies are carried as
//! lines; indentation prefixes each non-empty line.

use vstd::prelude::*;

use crate::bytes::lemma_comps_deep_view;
use crate::bytes::lex_le;

verus! {

/// The providers one target evaluated to: their names, and the
/// rendered bodies used by the default and debug output modes.
#[derive(Debug)]
pub struct ProviderCollection {
    pub names: Vec<Vec<u8>>,
    pub rendered: Vec<Vec<u8>>,
    pub rendered_debug: Vec<Vec<u8>>,
}

/// Mathematical image of a provider collection.
#[verifier::ext_equal]
pub struct ProviderCollectionV {
    pub names: Seq<Seq<u8>>,
    pub rendered: Seq<Seq<u8>>,
    pub rendered_debug: Seq<Seq<u8>>,
}

impl View for ProviderCollection {
    type V = ProviderCollectionV;

    open spec fn view(&self) -> ProviderCollectionV {
        ProviderCollectionV {
            names: self.names.deep_view(),
            rendered: self.rendered.deep_view(),
            rendered_debug: self.rendered_debug.deep_view(),
        }
    }
}

/// One target's outcome, in pattern order.
#[derive(Debug)]
pub struct TargetEntry {
    pub label: Vec<u8>,
    pub outcome: Result<ProviderCollection, Vec<Vec<u8>>>,
}

/// Mathematical image of one target's outcome.
#[verifier::ext_equal]
pub struct TargetEntryV {
    pub label: Seq<u8>,
    pub outcome: Result<ProviderCollectionV, Seq<Seq<u8>>>,
}

impl View for TargetEntry {
    type V = TargetEntryV;

    open spec fn view(&self) -> TargetEntryV {
        TargetEntryV {
            label: self.label@,
            outcome: match &self.outcome {
                Result::Ok(p) => Result::Ok(p@),
                Result::Err(d) => Result::Err(d.deep_view()),
            },
        }
    }
}

impl DeepView for TargetEntry {
    type V = TargetEntryV;

    open spec fn deep_view(&self) -> TargetEntryV {
        self@
    }
}

/// The deep view of the entry list, elementwise.
pub proof fn lemma_targets_deep_view(v: Vec<TargetEntry>)
    ensures
        v.deep_view().len() == v@.len(),
        forall|i: int| 0 <= i < v@.len() ==> v.deep_view()[i] == v@[i]@,
{
}

/// The display flags of the command.
#[derive(Clone, Copy, Debug, PartialEq, Eq, Structural)]
pub struct AuditFlags {
    pub quiet: bool,
    pub list: bool,
    pub print_debug: bool,
}

/// The command-level failure: at least one target's providers could
/// not be evaluated.
#[derive(Clone, Copy, Debug, PartialEq, Eq, Structural)]
pub enum AuditError {
    AtLeastOneFailed,
}

/// The two-space indentation prefix.
pub open spec fn spec_indent_prefix() -> Seq<u8> {
    seq![32u8, 32u8]
}

/// One rendered line: the prefix, the line, and a newline; an empty
/// line stays a bare newline.
pub open spec fn spec_indent_line(prefix: Seq<u8>, line: Seq<u8>) -> Seq<u8> {
    if line.len() == 0 {
        seq![10u8]
    } else {
        prefix + line + seq![10u8]
    }
}

/// Lines each indented by the prefix, in order.
pub open spec fn spec_indent_lines(prefix: Seq<u8>, lines: Seq<Seq<u8>>) -> Seq<u8>
    decreases lines.len(),
{
    if lines.len() == 0 {
        Seq::empty()
    } else {
        spec_indent_lines(prefix, lines.drop_last()) + spec_indent_line(prefix, lines.last())
    }
}

/// Provider names as list-mode lines: a dash and a space before each.
pub open spec fn spec_dash_lines(names: Seq<Seq<u8>>) -> Seq<Seq<u8>> {
    Seq::new(names.len(), |i: int| seq![45u8, 32u8] + names[i])
}

/// The stdout contribution of one target.
pub open spec fn spec_entry_stdout(flags: AuditFlags, e: TargetEntryV) -> Seq<u8> {
    match e.outcome {
        Result::Ok(p) => {
            if flags.quiet {
                e.label + seq![10u8]
            } else if flags.list {
                e.label + seq![58u8, 10u8] + spec_indent_lines(
                    spec_indent_prefix(),
                    spec_dash_lines(p.names.sort_by(|a: Seq<u8>, b: Seq<u8>| lex_le(a, b))),
                )
            } else if flags.print_debug {
                e.label + seq![58u8, 10u8] + spec_indent_lines(
                    spec_indent_prefix(),
                    p.rendered_debug,
                )
            } else {
                e.label + seq![58u8, 10u8] + spec_indent_lines(spec_indent_prefix(), p.rendered)
            }
        },
        Result::Err(_) => Seq::empty(),
    }
}

/// The stderr contribution of one target.
pub open spec fn spec_entry_stderr(e: TargetEntryV) -> Seq<u8> {
    match e.outcome {
        Result::Ok(_) => Seq::empty(),
        Result::Err(diag) => e.label + seq![58u8, 32u8, 102u8, 97u8, 105u8, 108u8, 101u8, 100u8, 58u8, 10u8]
            + spec_indent_lines(spec_indent_prefix(), diag),
    }
}

/// The whole stdout stream, entries in pattern order.
pub open spec fn spec_audit_stdout(flags: AuditFlags, entries: Seq<TargetEntryV>) -> Seq<u8>
    decreases entries.len(),
{
    if entries.len() == 0 {
        Seq::empty()
    } else {
        spec_audit_stdout(flags, entries.drop_last()) + spec_entry_stdout(flags, entries.last())
    }
}

/// The whole stderr stream, entries in pattern order.
pub open spec fn spec_audit_stderr(entries: Seq<TargetEntryV>) -> Seq<u8>
    decreases entries.len(),
{
    if entries.len() == 0 {
        Seq::empty()
    } else {
        spec_audit_stderr(entries.drop_last()) + spec_entry_stderr(entries.last())
    }
}

/// Appends bytes to a stream.
fn append_bytes(out: &mut Vec<u8>, s: &Vec<u8>)
    ensures
        final(out)@ == old(out)@ + s@,
{
    let ghost out0 = out@;
    let n: usize = s.len();
    let mut i: usize = 0;
    while i < n
        invariant
            n == s@.len(),
            0 <= i <= n,
            out@ == out0 + s@.take(i as int),
        decreases n - i,
    {
        out.push(s[i]);
        proof {
            assert(out@ =~= out0 + s@.take(i + 1));
        }
        i = i + 1;
    }
    proof {
        assert(out0 + s@.take(n as int) =~= out0 + s@);
    }
}

/// Appends one indented line to a stream.
fn append_indent_line(out: &mut Vec<u8>, line: &Vec<u8>)
    ensures
        final(out)@ == old(out)@ + spec_indent_line(spec_indent_prefix(), line@),
{
    let ghost out0 = out@;
    if line.len() == 0 {
        out.push(10u8);
        proof {
            assert(out@ =~= out0 + spec_indent_line(spec_indent_prefix(), line@));
        }
    } else {
        out.push(32u8);
        out.push(32u8);
        append_bytes(out, line);
        out.push(10u8);
        proof {
            assert(out@ =~= out0 + spec_indent_line(spec_indent_prefix(), line@));
        }
    }
}

/// Appends indented lines to a stream.
fn append_indent_lines(out: &mut Vec<u8>, lines: &Vec<Vec<u8>>)
    ensures
        final(out)@ == old(out)@ + spec_indent_lines(spec_indent_prefix(), lines.deep_view()),
{
    let ghost out0 = out@;
    let n: usize = lines.len();
    let mut i: usize = 0;
    proof {
        lemma_comps_deep_view(*lines);
        assert(out@ =~= out0 + spec_indent_lines(
            spec_indent_prefix(),
            lines.deep_view().take(0),
        ));
    }
    while i < n
        invariant
            n == lines@.len(),
            lines.deep_view().len() == n,
            forall|j: int| 0 <= j < n ==> lines.deep_view()[j] == lines@[j]@,
            0 <= i <= n,
            out@ == out0 + spec_indent_lines(spec_indent_prefix(), lines.deep_view().take(i as int)),
        decreases n - i,
    {
        proof {
            assert(lines.deep_view().take(i + 1).drop_last() =~= lines.deep_view().take(i as int));
            assert(lines.deep_view().take(i + 1).last() == lines.deep_view()[i as int]);
        }
        append_indent_line(out, &lines[i]);
        proof {
            assert(out@ =~= out0 + spec_indent_lines(
                spec_indent_prefix(),
                lines.deep_view().take(i + 1),
            ));
        }
        i = i + 1;
    }
    proof {
        assert(lines.deep_view().take(n as int) =~= lines.deep_view());
    }
}

/// Sorts provider names into lexicographic order.
pub fn sort_names(v: Vec<Vec<u8>>) -> (r: Vec<Vec<u8>>)
    ensures
        r.deep_view() == v.deep_view().sort_by(|a: Seq<u8>, b: Seq<u8>| lex_le(a, b)),
{
    broadcast use vstd::seq_lib::group_to_multiset_ensures;

    let ghost leq = |a: Seq<u8>, b: Seq<u8>| lex_le(a, b);
    let ghost orig = v.deep_view();
    let mut v = v;
    let mut r: Vec<Vec<u8>> = Vec::new();
    proof {
        crate::bytes::lemma_lex_le_total_ordering();
        lemma_comps_deep_view(r);
        assert(r.deep_view().to_multiset().add(v.deep_view().to_multiset()) =~= orig.to_multiset());
    }
    loop
        invariant
            vstd::relations::total_ordering(leq),
            leq == (|a: Seq<u8>, b: Seq<u8>| lex_le(a, b)),
            vstd::relations::sorted_by(r.deep_view(), leq),
            r.deep_view().to_multiset().add(v.deep_view().to_multiset()) == orig.to_multiset(),
        ensures
            v@.len() == 0,
        decreases v@.len(),
    {
        let ghost v_deep_before = v.deep_view();
        let x = match v.pop() {
            Option::Some(x) => x,
            Option::None => {
                break;
            },
        };
        proof {
            lemma_comps_deep_view(v);
            assert(v.deep_view() =~= v_deep_before.drop_last());
            assert(v_deep_before =~~= v.deep_view().push(x@));
            vstd::seq_lib::to_multiset_build(v.deep_view(), x@);
            assert(v_deep_before.to_multiset() == v.deep_view().to_multiset().insert(x@));
        }
        let rl: usize = r.len();
        let mut j: usize = 0;
        while j < rl
            invariant
                rl == r@.len(),
                r.deep_view().len() == rl,
                forall|t: int| 0 <= t < rl ==> r.deep_view()[t] == r@[t]@,
                0 <= j <= rl,
                forall|t: int| 0 <= t < j ==> leq(r.deep_view()[t], x@),
                leq == (|a: Seq<u8>, b: Seq<u8>| lex_le(a, b)),
            ensures
                0 <= j <= rl,
                forall|t: int| 0 <= t < j ==> leq(r.deep_view()[t], x@),
                j == rl || !leq(r.deep_view()[j as int], x@),
            decreases rl - j,
        {
            if !crate::bytes::bytes_le(&r[j], &x) {
                break;
            }
            j = j + 1;
        }
        let ghost r_deep_before = r.deep_view();
        let ghost jj = j as int;
        r.insert(j, x);
        proof {
            lemma_comps_deep_view(r);
            r_deep_before.insert_ensures(jj, x@);
            assert(r.deep_view() =~~= r_deep_before.insert(jj, x@));
            vstd::seq_lib::to_multiset_insert(r_deep_before, jj, x@);
            assert(r.deep_view().to_multiset() == r_deep_before.to_multiset().insert(x@));
            let rd = r.deep_view();
            assert forall|i1: int, i2: int| 0 <= i1 < i2 < rd.len() implies #[trigger] leq(
                rd[i1],
                rd[i2],
            ) by {
                if i1 < jj && i2 < jj {
                    assert(rd[i1] == r_deep_before[i1]);
                    assert(rd[i2] == r_deep_before[i2]);
                } else if i1 < jj && i2 == jj {
                    assert(rd[i1] == r_deep_before[i1]);
                    assert(leq(r_deep_before[i1], x@));
                } else if i1 < jj && i2 > jj {
                    assert(rd[i1] == r_deep_before[i1]);
                    assert(rd[i2] == r_deep_before[i2 - 1]);
                    assert(!leq(r_deep_before[jj], x@));
                    assert(leq(x@, r_deep_before[jj]));
                    if jj < i2 - 1 {
                        assert(leq(r_deep_before[jj], r_deep_before[i2 - 1]));
                    }
                    assert(leq(x@, r_deep_before[i2 - 1]));
                    assert(leq(rd[i1], rd[i2]));
                } else if i1 == jj {
                    assert(rd[i1] == x@);
                    assert(rd[i2] == r_deep_before[i2 - 1]);
                    assert(!leq(r_deep_before[jj], x@));
                    assert(leq(x@, r_deep_before[jj]));
                    if jj < i2 - 1 {
                        assert(leq(r_deep_before[jj], r_deep_before[i2 - 1]));
                    }
                    assert(leq(rd[i1], rd[i2]));
                } else {
                    assert(rd[i1] == r_deep_before[i1 - 1]);
                    assert(rd[i2] == r_deep_before[i2 - 1]);
                }
            }
            assert(r.deep_view().to_multiset().add(v.deep_view().to_multiset())
                =~= orig.to_multiset());
        }
    }
    proof {
        assert(v.deep_view().len() == 0);
        assert(v.deep_view() =~= Seq::<Seq<u8>>::empty());
        assert(v.deep_view().to_multiset() =~= vstd::multiset::Multiset::empty());
        assert(r.deep_view().to_multiset() =~= orig.to_multiset());
        orig.lemma_sort_by_ensures(leq);
        vstd::seq_lib::lemma_sorted_unique(r.deep_view(), orig.sort_by(leq), leq);
        assert(r.deep_view() =~= orig.sort_by(leq));
    }
    r
}

/// What the command produced: the two streams and the overall result.
#[derive(Debug)]
pub struct AuditOutput {
    pub stdout: Vec<u8>,
    pub stderr: Vec<u8>,
    pub result: Result<(), AuditError>,
}

/// Renders per-target results, in pattern order: success lines to
/// stdout, failure diagnostics to stderr, and the overall error when
/// any target failed.
pub fn render_audit_providers(entries: &Vec<TargetEntry>, flags: AuditFlags) -> (r: AuditOutput)
    ensures
        r.stdout@ == spec_audit_stdout(flags, entries.deep_view()),
        r.stderr@ == spec_audit_stderr(entries.deep_view()),
        r.result is Err <==> (exists|i: int|
            0 <= i < entries.deep_view().len() && (#[trigger] entries.deep_view()[i]).outcome
                is Err),
        r.result is Err ==> r.result == Result::<(), AuditError>::Err(AuditError::AtLeastOneFailed),
{
    let n: usize = entries.len();
    let mut stdout: Vec<u8> = Vec::new();
    let mut stderr: Vec<u8> = Vec::new();
    let mut at_least_one_error = false;
    let mut i: usize = 0;
    proof {
        lemma_targets_deep_view(*entries);
        assert(stdout@ =~= spec_audit_stdout(flags, entries.deep_view().take(0)));
        assert(stderr@ =~= spec_audit_stderr(entries.deep_view().take(0)));
    }
    while i < n
        invariant
            n == entries@.len(),
            entries.deep_view().len() == n,
            forall|j: int| 0 <= j < n ==> entries.deep_view()[j] == entries@[j]@,
            0 <= i <= n,
            stdout@ == spec_audit_stdout(flags, entries.deep_view().take(i as int)),
            stderr@ == spec_audit_stderr(entries.deep_view().take(i as int)),
            at_least_one_error <==> (exists|j: int|
                0 <= j < i && (#[trigger] entries.deep_view()[j]).outcome is Err),
        decreases n - i,
    {
        proof {
            assert(entries.deep_view().take(i + 1).drop_last() =~= entries.deep_view().take(
                i as int,
            ));
            assert(entries.deep_view().take(i + 1).last() == entries.deep_view()[i as int]);
        }
        let entry = &entries[i];
        let ghost ev = entries.deep_view()[i as int];
        match &entry.outcome {
            Result::Ok(p) => {
                append_bytes(&mut stdout, &entry.label);
                if flags.quiet {
                    stdout.push(10u8);
                } else {
                    stdout.push(58u8);
                    stdout.push(10u8);
                    if flags.list {
                        // A deterministic output: names in
                        // lexicographic order, one dash line each.
                        let sorted = sort_names(crate::bytes::comps_clone(&p.names));
                        let m: usize = sorted.len();
                        let mut dash: Vec<Vec<u8>> = Vec::new();
                        let mut t: usize = 0;
                        proof {
                            lemma_comps_deep_view(sorted);
                        }
                        while t < m
                            invariant
                                m == sorted@.len(),
                                sorted.deep_view().len() == m,
                                forall|u: int|
                                    0 <= u < m ==> sorted.deep_view()[u] == sorted@[u]@,
                                0 <= t <= m,
                                dash@.len() == t,
                                forall|u: int|
                                    0 <= u < t ==> dash@[u]@ == seq![45u8, 32u8]
                                        + sorted.deep_view()[u],
                            decreases m - t,
                        {
                            let mut line: Vec<u8> = Vec::new();
                            line.push(45u8);
                            line.push(32u8);
                            append_bytes(&mut line, &sorted[t]);
                            proof {
                                assert(line@ =~= seq![45u8, 32u8] + sorted.deep_view()[t as int]);
                            }
                            dash.push(line);
                            t = t + 1;
                        }
                        proof {
                            lemma_comps_deep_view(dash);
                            assert(ev.outcome == Result::<ProviderCollectionV, Seq<Seq<u8>>>::Ok(
                                p@,
                            ));
                            assert(dash.deep_view() =~~= spec_dash_lines(
                                p@.names.sort_by(|a: Seq<u8>, b: Seq<u8>| lex_le(a, b)),
                            ));
                        }
                        append_indent_lines(&mut stdout, &dash);
                    } else if flags.print_debug {
                        append_indent_lines(&mut stdout, &p.rendered_debug);
                    } else {
                        append_indent_lines(&mut stdout, &p.rendered);
                    }
                }
                proof {
                    assert(stdout@ =~= spec_audit_stdout(flags, entries.deep_view().take(i + 1)));
                    assert(stderr@ =~= spec_audit_stderr(entries.deep_view().take(i + 1)));
                }
            },
            Result::Err(diag) => {
                append_bytes(&mut stderr, &entry.label);
                let tail: Vec<u8> = vec![
                    58u8,
                    32u8,
                    102u8,
                    97u8,
                    105u8,
                    108u8,
                    101u8,
                    100u8,
                    58u8,
                    10u8,
                ];
                append_bytes(&mut stderr, &tail);
                append_indent_lines(&mut stderr, diag);
                at_least_one_error = true;
                proof {
                    assert(stdout@ =~= spec_audit_stdout(flags, entries.deep_view().take(i + 1)));
                    assert(stderr@ =~= spec_audit_stderr(entries.deep_view().take(i + 1)));
                    assert((entries.deep_view()[i as int]).outcome is Err);
                }
            },
        }
        i = i + 1;
    }
    proof {
        assert(entries.deep_view().take(n as int) =~= entries.deep_view());
    }
    let result: Result<(), AuditError> = if at_least_one_error {
        Result::Err(AuditError::AtLeastOneFailed)
    } else {
        Result::Ok(())
    };
    AuditOutput { stdout, stderr, result }
}

} // verus!
