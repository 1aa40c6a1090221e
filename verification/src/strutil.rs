use vstd::prelude::*;

verus! {

/// The parts of `s` delimited by `sep`, in order, empty parts included:
/// the mathematical counterpart of `str::split` with a one-character pattern.
/// The result always has at least one part; splitting the empty string
/// yields one empty part.
pub open spec fn split_by(s: Seq<char>, sep: char) -> Seq<Seq<char>>
    decreases s.len(),
{
    if s.len() == 0 {
        seq![Seq::<char>::empty()]
    } else if s.last() == sep {
        split_by(s.drop_last(), sep).push(Seq::<char>::empty())
    } else {
        let rest = split_by(s.drop_last(), sep);
        rest.update(rest.len() - 1, rest.last().push(s.last()))
    }
}

/// The parts joined back into one string with `sep` between consecutive parts.
pub open spec fn join_with(parts: Seq<Seq<char>>, sep: char) -> Seq<char>
    decreases parts.len(),
{
    if parts.len() == 0 {
        Seq::<char>::empty()
    } else if parts.len() == 1 {
        parts[0]
    } else {
        join_with(parts.drop_last(), sep).push(sep) + parts.last()
    }
}

/// The parts of non-zero length, in order.
pub open spec fn non_empty_parts(parts: Seq<Seq<char>>) -> Seq<Seq<char>> {
    parts.filter(|l: Seq<char>| l.len() > 0)
}

pub proof fn lemma_split_by_len(s: Seq<char>, sep: char)
    ensures
        split_by(s, sep).len() >= 1,
    decreases s.len(),
{
    if s.len() > 0 {
        lemma_split_by_len(s.drop_last(), sep);
    }
}

/// A string without the separator splits into the single part that is the
/// whole string.
pub proof fn lemma_split_no_sep(s: Seq<char>, sep: char)
    requires
        !s.contains(sep),
    ensures
        split_by(s, sep) == seq![s],
    decreases s.len(),
{
    if s.len() == 0 {
        assert(s =~= Seq::<char>::empty());
    } else {
        assert(s.last() != sep) by {
            if s.last() == sep {
                assert(s.contains(sep));
            }
        }
        assert(!s.drop_last().contains(sep)) by {
            if s.drop_last().contains(sep) {
                let i = choose|i: int| 0 <= i < s.drop_last().len() && s.drop_last()[i] == sep;
                assert(s[i] == sep);
                assert(s.contains(sep));
            }
        }
        lemma_split_no_sep(s.drop_last(), sep);
        assert(split_by(s, sep) =~= seq![s.drop_last().push(s.last())]);
        assert(s.drop_last().push(s.last()) =~= s);
        assert(split_by(s, sep) =~= seq![s]);
    }
}

/// Splitting distributes over a separator placed between two strings.
pub proof fn lemma_split_mid_sep(a: Seq<char>, b: Seq<char>, sep: char)
    ensures
        split_by(a + seq![sep] + b, sep) == split_by(a, sep) + split_by(b, sep),
    decreases b.len(),
{
    lemma_split_by_len(a, sep);
    lemma_split_by_len(b, sep);
    let s = a + seq![sep] + b;
    if b.len() == 0 {
        assert(s =~= a.push(sep));
        assert(s.last() == sep);
        assert(s.drop_last() =~= a);
        assert(split_by(s, sep) == split_by(a, sep).push(Seq::<char>::empty()));
        assert(split_by(b, sep) =~= seq![Seq::<char>::empty()]) by {
            assert(b =~= Seq::<char>::empty());
        }
        assert(split_by(a, sep).push(Seq::<char>::empty()) =~= split_by(a, sep) + split_by(
            b,
            sep,
        ));
    } else {
        let b0 = b.drop_last();
        lemma_split_by_len(b0, sep);
        lemma_split_mid_sep(a, b0, sep);
        let s0 = a + seq![sep] + b0;
        assert(s.len() > 0);
        assert(s.last() == b.last());
        assert(s.drop_last() =~= s0);
        let left = split_by(a, sep);
        let right0 = split_by(b0, sep);
        assert(split_by(s0, sep) == left + right0);
        if b.last() == sep {
            assert(split_by(s, sep) == (left + right0).push(Seq::<char>::empty()));
            assert(split_by(b, sep) == right0.push(Seq::<char>::empty()));
            assert((left + right0).push(Seq::<char>::empty()) =~= left + right0.push(
                Seq::<char>::empty(),
            ));
        } else {
            let r = left + right0;
            assert(split_by(s, sep) == r.update(r.len() - 1, r.last().push(s.last())));
            assert(r.last() == right0.last());
            assert(split_by(b, sep) == right0.update(
                right0.len() - 1,
                right0.last().push(b.last()),
            ));
            assert(r.update(r.len() - 1, r.last().push(s.last())) =~= left + right0.update(
                right0.len() - 1,
                right0.last().push(b.last()),
            ));
        }
    }
}

/// Joining parts that are free of the separator and splitting again gives the
/// parts back unchanged.
pub proof fn lemma_join_split_round_trip(parts: Seq<Seq<char>>, sep: char)
    requires
        parts.len() >= 1,
        forall|i: int| 0 <= i < parts.len() ==> !(#[trigger] parts[i]).contains(sep),
    ensures
        split_by(join_with(parts, sep), sep) == parts,
    decreases parts.len(),
{
    if parts.len() == 1 {
        lemma_split_no_sep(parts[0], sep);
        assert(seq![parts[0]] =~= parts);
    } else {
        let front = parts.drop_last();
        lemma_join_split_round_trip(front, sep);
        let j0 = join_with(front, sep);
        assert(join_with(parts, sep) =~= j0 + seq![sep] + parts.last());
        lemma_split_mid_sep(j0, parts.last(), sep);
        lemma_split_no_sep(parts.last(), sep);
        assert(split_by(join_with(parts, sep), sep) =~= front + seq![parts.last()]);
        assert(front + seq![parts.last()] =~= parts);
    }
}

/// Filtering for non-empty parts keeps a sequence of non-empty parts whole.
pub proof fn lemma_non_empty_parts_identity(parts: Seq<Seq<char>>)
    requires
        forall|i: int| 0 <= i < parts.len() ==> (#[trigger] parts[i]).len() > 0,
    ensures
        non_empty_parts(parts) == parts,
    decreases parts.len(),
{
    reveal(Seq::filter);
    if parts.len() > 0 {
        lemma_non_empty_parts_identity(parts.drop_last());
        assert(non_empty_parts(parts) =~= parts);
    } else {
        assert(non_empty_parts(parts) =~= parts);
    }
}

/// Splits `s` at every occurrence of `sep`, as `str::split` with a character
/// pattern does: empty parts are kept.
pub fn split_str(s: &str, sep: char) -> (r: Vec<String>)
    ensures
        r.deep_view() == split_by(s@, sep),
{
    let n = s.unicode_len();
    let mut out: Vec<String> = Vec::new();
    let mut start: usize = 0;
    let mut i: usize = 0;
    proof {
        assert(out.deep_view() =~= Seq::<Seq<char>>::empty());
        assert(s@.take(0) =~= Seq::<char>::empty());
        assert(s@.subrange(0, 0) =~= Seq::<char>::empty());
        assert(out.deep_view().push(s@.subrange(0, 0)) =~= seq![Seq::<char>::empty()]);
    }
    while i < n
        invariant
            n == s@.len(),
            0 <= start <= i <= n,
            out.deep_view().push(s@.subrange(start as int, i as int)) == split_by(
                s@.take(i as int),
                sep,
            ),
        decreases n - i,
    {
        let c = s.get_char(i);
        proof {
            assert(s@.take(i + 1).drop_last() =~= s@.take(i as int));
            assert(s@.take(i + 1).last() == s@[i as int]);
            lemma_split_by_len(s@.take(i as int), sep);
        }
        if c == sep {
            let part = s.substring_char(start, i).to_owned();
            let ghost prev = out.deep_view();
            out.push(part);
            proof {
                assert(out.deep_view() =~= prev.push(s@.subrange(start as int, i as int)));
                assert(split_by(s@.take(i + 1), sep) == split_by(s@.take(i as int), sep).push(
                    Seq::<char>::empty(),
                ));
                assert(s@.subrange(i + 1, i + 1) =~= Seq::<char>::empty());
                assert(out.deep_view().push(s@.subrange(i + 1, i + 1)) =~= split_by(
                    s@.take(i + 1),
                    sep,
                ));
            }
            start = i + 1;
        } else {
            proof {
                let r0 = split_by(s@.take(i as int), sep);
                assert(split_by(s@.take(i + 1), sep) == r0.update(
                    r0.len() - 1,
                    r0.last().push(s@[i as int]),
                ));
                assert(r0.last() == s@.subrange(start as int, i as int));
                assert(s@.subrange(start as int, i as int).push(s@[i as int]) =~= s@.subrange(
                    start as int,
                    i + 1,
                ));
                assert(out.deep_view().push(s@.subrange(start as int, i + 1)) =~= r0.update(
                    r0.len() - 1,
                    r0.last().push(s@[i as int]),
                ));
            }
        }
        i = i + 1;
    }
    let last_part = s.substring_char(start, n).to_owned();
    let ghost prev = out.deep_view();
    out.push(last_part);
    proof {
        assert(s@.take(n as int) =~= s@);
        assert(out.deep_view() =~= prev.push(s@.subrange(start as int, n as int)));
    }
    out
}

/// Keeps the non-empty strings of `v`, in order.
pub fn keep_non_empty(v: Vec<String>) -> (r: Vec<String>)
    ensures
        r.deep_view() == non_empty_parts(v.deep_view()),
{
    let mut out: Vec<String> = Vec::new();
    let mut i: usize = 0;
    proof {
        reveal(Seq::filter);
        assert(out.deep_view() =~= non_empty_parts(v.deep_view().take(0)));
    }
    while i < v.len()
        invariant
            i <= v.len(),
            out.deep_view() == non_empty_parts(v.deep_view().take(i as int)),
        decreases v.len() - i,
    {
        let ghost prev = out.deep_view();
        let s = &v[i];
        if s.as_str().unicode_len() > 0 {
            out.push(s.clone());
        }
        proof {
            reveal(Seq::filter);
            let taken = v.deep_view().take(i + 1);
            assert(taken.drop_last() =~= v.deep_view().take(i as int));
            assert(taken.last() == v.deep_view()[i as int]);
            if v.deep_view()[i as int].len() > 0 {
                assert(out.deep_view() =~= prev.push(v.deep_view()[i as int]));
            }
            assert(out.deep_view() =~= non_empty_parts(taken));
        }
        i = i + 1;
    }
    proof {
        assert(v.deep_view().take(v.len() as int) =~= v.deep_view());
    }
    out
}

/// The position of the last occurrence of `sep` in `s`, as `str::rfind` with
/// a character pattern reports it.
pub fn rfind_char(s: &str, sep: char) -> (r: Option<usize>)
    ensures
        r is Some <==> s@.contains(sep),
        r is Some ==> s@.index_of_last(sep) == Some(r->0 as int),
{
    let n = s.unicode_len();
    let mut i: usize = n;
    while i > 0
        invariant
            n == s@.len(),
            i <= n,
            forall|j: int| i <= j < n ==> s@[j] != sep,
        decreases i,
    {
        i = i - 1;
        let c = s.get_char(i);
        if c == sep {
            proof {
                s@.index_of_last_ensures(sep);
                assert(s@.contains(sep));
            }
            return Some(i);
        }
    }
    proof {
        s@.index_of_last_ensures(sep);
        assert(!s@.contains(sep)) by {
            if s@.contains(sep) {
                let k = choose|k: int| 0 <= k < s@.len() && s@[k] == sep;
                assert(s@[k] != sep);
            }
        }
    }
    None
}

} // verus!
