use vstd::prelude::*;
use vstd::seq_lib::group_seq_properties;
use itertools::Itertools;

use crate::strutil::{
    join_with, keep_non_empty, lemma_join_split_round_trip, lemma_non_empty_parts_identity,
    non_empty_parts, split_by, split_str,
};

verus! {

/// The change set held by a record text: its lines, empty lines discarded.
pub open spec fn record_lines(text: Seq<char>) -> Seq<Seq<char>> {
    non_empty_parts(split_by(text, '\n'))
}

/// The union of previous and current paths in order of first occurrence:
/// what reconciliation returns.
pub open spec fn reconciled(previous: Seq<Seq<char>>, current: Seq<Seq<char>>) -> Seq<Seq<char>> {
    (previous + current).remove_duplicates(Seq::<Seq<char>>::empty())
}

/// Parses a persisted record text into the change set it holds: one path per
/// line, empty lines discarded.
pub fn parse_record(text: &str) -> (r: Vec<String>)
    ensures
        r.deep_view() == record_lines(text@),
{
    keep_non_empty(split_str(text, '\n'))
}

/// Renders a change set as a record text: the paths joined by newlines.
pub fn render_record(paths: &Vec<String>) -> (r: String)
    ensures
        r@ == join_with(paths.deep_view(), '\n'),
{
    let mut acc = String::new();
    let mut i: usize = 0;
    proof {
        assert(paths.deep_view().take(0) =~= Seq::<Seq<char>>::empty());
    }
    while i < paths.len()
        invariant
            i <= paths.len(),
            acc@ == join_with(paths.deep_view().take(i as int), '\n'),
        decreases paths.len() - i,
    {
        let ghost taken = paths.deep_view().take(i + 1);
        proof {
            assert(taken.drop_last() =~= paths.deep_view().take(i as int));
            assert(taken.last() == paths.deep_view()[i as int]);
        }
        if i > 0 {
            let sep = "\n";
            proof {
                reveal_strlit("\n");
                assert(sep@ =~= seq!['\n']);
            }
            acc.append(sep);
        }
        acc.append(paths[i].as_str());
        proof {
            if i == 0 {
                assert(taken.len() == 1);
                assert(acc@ =~= join_with(taken, '\n'));
            } else {
                assert(acc@ =~= join_with(taken.drop_last(), '\n').push('\n') + taken.last());
            }
        }
        i = i + 1;
    }
    proof {
        assert(paths.deep_view().take(paths.len() as int) =~= paths.deep_view());
    }
    acc
}

/// The two change sets concatenated, previous paths first.
fn concat_paths(a: &Vec<String>, b: &Vec<String>) -> (r: Vec<String>)
    ensures
        r.deep_view() == a.deep_view() + b.deep_view(),
{
    let mut out: Vec<String> = Vec::new();
    let mut i: usize = 0;
    proof {
        assert(out.deep_view() =~= a.deep_view().take(0));
    }
    while i < a.len()
        invariant
            i <= a.len(),
            out.deep_view() == a.deep_view().take(i as int),
        decreases a.len() - i,
    {
        let ghost prev = out.deep_view();
        out.push(a[i].clone());
        proof {
            assert(out.deep_view() =~= prev.push(a.deep_view()[i as int]));
            assert(out.deep_view() =~= a.deep_view().take(i + 1));
        }
        i = i + 1;
    }
    let mut j: usize = 0;
    proof {
        assert(a.deep_view().take(a.len() as int) =~= a.deep_view());
        assert(out.deep_view() =~= a.deep_view() + b.deep_view().take(0));
    }
    while j < b.len()
        invariant
            j <= b.len(),
            out.deep_view() == a.deep_view() + b.deep_view().take(j as int),
        decreases b.len() - j,
    {
        let ghost prev = out.deep_view();
        out.push(b[j].clone());
        proof {
            assert(out.deep_view() =~= prev.push(b.deep_view()[j as int]));
            assert(out.deep_view() =~= a.deep_view() + b.deep_view().take(j + 1));
        }
        j = j + 1;
    }
    proof {
        assert(b.deep_view().take(b.len() as int) =~= b.deep_view());
    }
    out
}

/// Relies on itertools' `Itertools::unique`: it yields the elements of the
/// iterator in order, skipping every element equal to one it has already
/// yielded, so exactly the first occurrence of each path is kept.
#[verifier::external_body]
fn unique_paths(v: Vec<String>) -> (r: Vec<String>)
    ensures
        r.deep_view() == v.deep_view().remove_duplicates(Seq::<Seq<char>>::empty()),
{
    v.into_iter().unique().collect()
}

/// Appending one fresh element to a duplicate-free sequence keeps it
/// duplicate-free.
proof fn lemma_push_fresh_no_duplicates(s: Seq<Seq<char>>, x: Seq<char>)
    requires
        s.no_duplicates(),
        !s.contains(x),
    ensures
        (s + seq![x]).no_duplicates(),
{
    let t = s + seq![x];
    assert forall|i: int, j: int|
        0 <= i < t.len() && 0 <= j < t.len() && i != j implies t[i] != t[j] by {
        if i < s.len() && j < s.len() {
        } else if i < s.len() && j == s.len() {
            assert(s.contains(s[i]));
        } else if j < s.len() && i == s.len() {
            assert(s.contains(s[j]));
        }
    }
}

/// Removing duplicates, starting from a duplicate-free seen prefix, yields a
/// duplicate-free sequence.
proof fn lemma_remove_duplicates_no_duplicates(s: Seq<Seq<char>>, seen: Seq<Seq<char>>)
    requires
        seen.no_duplicates(),
    ensures
        s.remove_duplicates(seen).no_duplicates(),
    decreases s.len(),
{
    if s.len() == 0 {
    } else if seen.contains(s[0]) {
        lemma_remove_duplicates_no_duplicates(s.skip(1), seen);
    } else {
        lemma_push_fresh_no_duplicates(seen, s[0]);
        lemma_remove_duplicates_no_duplicates(s.skip(1), seen + seq![s[0]]);
    }
}

/// The reconciled sequence is duplicate-free and holds exactly the union of
/// the previous and the current change set.
pub proof fn lemma_reconciled_is_union(previous: Seq<Seq<char>>, current: Seq<Seq<char>>)
    ensures
        reconciled(previous, current).no_duplicates(),
        reconciled(previous, current).to_set() == previous.to_set().union(current.to_set()),
{
    broadcast use group_seq_properties;

    let both = previous + current;
    let empty = Seq::<Seq<char>>::empty();
    lemma_remove_duplicates_no_duplicates(both, empty);
    both.lemma_remove_duplicates_properties(empty);
    assert(reconciled(previous, current).to_set() =~= previous.to_set().union(current.to_set()))
        by {
        assert(forall|x: Seq<char>|
            #[trigger] both.contains(x) <==> previous.contains(x) || current.contains(x));
        assert(forall|x: Seq<char>| (both + empty).contains(x) <==> both.contains(x));
    }
}

/// Writing a change set to the record and reading it back yields the same
/// change set: parsing the rendered record text returns exactly the paths
/// that were rendered, provided each path is non-empty and free of newlines.
pub proof fn lemma_record_round_trip(paths: Seq<Seq<char>>)
    requires
        forall|i: int|
            0 <= i < paths.len() ==> (#[trigger] paths[i]).len() > 0 && !paths[i].contains('\n'),
    ensures
        record_lines(join_with(paths, '\n')) == paths,
{
    if paths.len() == 0 {
        reveal_with_fuel(Seq::filter, 2);
        let empty_line = Seq::<char>::empty();
        assert(join_with(paths, '\n') == empty_line);
        assert(split_by(empty_line, '\n') == seq![empty_line]);
        assert(seq![empty_line].drop_last() =~= Seq::<Seq<char>>::empty());
        assert(non_empty_parts(Seq::<Seq<char>>::empty()) =~= Seq::<Seq<char>>::empty());
        assert(non_empty_parts(seq![empty_line]) =~= Seq::<Seq<char>>::empty());
        assert(record_lines(empty_line) =~= paths);
    } else {
        lemma_join_split_round_trip(paths, '\n');
        lemma_non_empty_parts_identity(paths);
    }
}

/// The in-memory image of the persisted record: the change set the previous
/// run saw as its live diff.
///
/// The record file itself is read and written by the caller; this type owns
/// the reconciliation protocol on its contents.
pub struct ChangeLog {
    record: Vec<String>,
}

impl View for ChangeLog {
    type V = Seq<Seq<char>>;

    closed spec fn view(&self) -> Seq<Seq<char>> {
        self.record.deep_view()
    }
}

impl ChangeLog {
    /// A log whose record is empty: the state after the record file is first
    /// created, or when it is absent.
    pub fn new() -> (r: ChangeLog)
        ensures
            r@ == Seq::<Seq<char>>::empty(),
    {
        let record: Vec<String> = Vec::new();
        proof {
            assert(record.deep_view() =~= Seq::<Seq<char>>::empty());
        }
        ChangeLog { record }
    }

    /// A log read back from a persisted record text.
    pub fn from_record_text(text: &str) -> (r: ChangeLog)
        ensures
            r@ == record_lines(text@),
    {
        ChangeLog { record: parse_record(text) }
    }

    /// The record as it is persisted: one path per line.
    pub fn render(&self) -> (r: String)
        ensures
            r@ == join_with(self@, '\n'),
    {
        render_record(&self.record)
    }

    /// The paths currently on record.
    pub fn paths(&self) -> (r: &Vec<String>)
        ensures
            r.deep_view() == self@,
    {
        &self.record
    }

    /// Reconciles the record with the current change set.
    ///
    /// The record is replaced wholesale by `current` — a single generation of
    /// lookback, never an accumulation — and the returned sync set is the
    /// union of the previous record and `current`, deduplicated, previous
    /// paths first, each path at its first occurrence.
    pub fn reconcile(&mut self, current: Vec<String>) -> (r: Vec<String>)
        ensures
            final (self)@ == current.deep_view(),
            r.deep_view() == reconciled(old(self)@, current.deep_view()),
            r.deep_view().no_duplicates(),
            r.deep_view().to_set() == old(self)@.to_set().union(current.deep_view().to_set()),
    {
        let both = concat_paths(&self.record, &current);
        proof {
            lemma_reconciled_is_union(old(self)@, current.deep_view());
        }
        let merged = unique_paths(both);
        self.record = current;
        merged
    }
}

} // verus!
