use vstd::prelude::*;

use crate::strutil::{keep_non_empty, lemma_split_by_len, non_empty_parts, split_by, split_str};

verus! {

/// The trailing space-delimited token of a status line: the path, whatever
/// the width of the status-code prefix before it.
pub open spec fn last_token(line: Seq<char>) -> Seq<char> {
    split_by(line, ' ').last()
}

/// The paths a status report names: the trailing token of each report line,
/// lines whose token is empty discarded.
pub open spec fn status_paths(report: Seq<char>) -> Seq<Seq<char>> {
    non_empty_parts(split_by(report, '\n').map_values(|l: Seq<char>| last_token(l)))
}

/// The trailing space-delimited token of each line, in order.
fn last_tokens(lines: &Vec<String>) -> (r: Vec<String>)
    ensures
        r.deep_view() == lines.deep_view().map_values(|l: Seq<char>| last_token(l)),
{
    let mut out: Vec<String> = Vec::new();
    let mut i: usize = 0;
    proof {
        assert(out.deep_view() =~= lines.deep_view().take(0).map_values(
            |l: Seq<char>| last_token(l),
        ));
    }
    while i < lines.len()
        invariant
            i <= lines.len(),
            out.deep_view() == lines.deep_view().take(i as int).map_values(
                |l: Seq<char>| last_token(l),
            ),
        decreases lines.len() - i,
    {
        let ghost prev = out.deep_view();
        let tokens = split_str(lines[i].as_str(), ' ');
        proof {
            lemma_split_by_len(lines.deep_view()[i as int], ' ');
        }
        let tok = &tokens[tokens.len() - 1];
        out.push(tok.clone());
        proof {
            assert(tok@ == last_token(lines.deep_view()[i as int]));
            assert(out.deep_view() =~= prev.push(last_token(lines.deep_view()[i as int])));
            assert(out.deep_view() =~= lines.deep_view().take(i + 1).map_values(
                |l: Seq<char>| last_token(l),
            ));
        }
        i = i + 1;
    }
    proof {
        assert(lines.deep_view().take(lines.len() as int) =~= lines.deep_view());
    }
    out
}

/// Extracts the changed paths from a version-control status report: one line
/// per entry, the trailing space-delimited token of each line is its path,
/// and lines that yield an empty token are discarded. Report order is kept.
pub fn parse_status(report: &str) -> (r: Vec<String>)
    ensures
        r.deep_view() == status_paths(report@),
{
    let lines = split_str(report, '\n');
    let tokens = last_tokens(&lines);
    keep_non_empty(tokens)
}

} // verus!
