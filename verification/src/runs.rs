//! Run-length encoding of one puzzle line into its clue numbers.

use vstd::prelude::*;

verus! {

/// The clue entries still to be produced from `line`, given that a run of
/// `curr` filled cells ends immediately before `line` begins.
pub open spec fn runs_from(line: Seq<bool>, curr: int) -> Seq<int>
    decreases line.len(),
{
    if line.len() == 0 {
        if curr > 0 {
            seq![curr]
        } else {
            Seq::empty()
        }
    } else if line[0] {
        runs_from(line.drop_first(), curr + 1)
    } else if curr > 0 {
        seq![curr] + runs_from(line.drop_first(), 0)
    } else {
        runs_from(line.drop_first(), 0)
    }
}

/// The lengths of the maximal contiguous runs of `true` in `line`, in
/// left-to-right order.
pub open spec fn run_lengths(line: Seq<bool>) -> Seq<int> {
    runs_from(line, 0)
}

/// The clue for one line: its run lengths, or the single entry `0` when the
/// line holds no filled cell.
pub open spec fn clue(line: Seq<bool>) -> Seq<int> {
    if run_lengths(line).len() == 0 {
        seq![0]
    } else {
        run_lengths(line)
    }
}

/// A sequence of clue entries as mathematical integers.
pub open spec fn to_ints(entries: Seq<usize>) -> Seq<int> {
    entries.map_values(|e: usize| e as int)
}

/// The sum of the entries of a clue.
pub open spec fn clue_sum(s: Seq<int>) -> int
    decreases s.len(),
{
    if s.len() == 0 {
        0
    } else {
        s[0] + clue_sum(s.drop_first())
    }
}

proof fn lemma_runs_from_packing(line: Seq<bool>, curr: int)
    requires
        curr >= 0,
    ensures
        runs_from(line, curr).len() > 0 ==> clue_sum(runs_from(line, curr)) + runs_from(
            line,
            curr,
        ).len() - 1 <= line.len() + curr,
    decreases line.len(),
{
    assert(clue_sum(Seq::<int>::empty()) == 0);
    if line.len() == 0 {
        if curr > 0 {
            let s = seq![curr];
            assert(s.drop_first() =~= Seq::<int>::empty());
            assert(clue_sum(s) == s[0] + clue_sum(s.drop_first()));
            assert(clue_sum(s) == curr);
        }
    } else if line[0] {
        lemma_runs_from_packing(line.drop_first(), curr + 1);
        assert(runs_from(line, curr) == runs_from(line.drop_first(), curr + 1));
    } else if curr > 0 {
        lemma_runs_from_packing(line.drop_first(), 0);
        let rest = runs_from(line.drop_first(), 0);
        let whole = seq![curr] + rest;
        assert(runs_from(line, curr) == whole);
        assert(whole[0] == curr);
        assert(whole.drop_first() =~= rest);
        assert(clue_sum(whole) == whole[0] + clue_sum(whole.drop_first()));
        assert(clue_sum(whole) == curr + clue_sum(rest));
        if rest.len() == 0 {
            assert(clue_sum(rest) == 0);
        }
    } else {
        lemma_runs_from_packing(line.drop_first(), 0);
        assert(runs_from(line, curr) == runs_from(line.drop_first(), 0));
    }
}

proof fn lemma_runs_from_positive(line: Seq<bool>, curr: int)
    requires
        curr >= 0,
    ensures
        forall|k: int|
            0 <= k < runs_from(line, curr).len() ==> #[trigger] runs_from(line, curr)[k] > 0,
    decreases line.len(),
{
    if line.len() == 0 {
        if curr > 0 {
            assert(runs_from(line, curr) == seq![curr]);
            assert forall|k: int| 0 <= k < runs_from(line, curr).len() implies #[trigger] runs_from(
                line,
                curr,
            )[k] > 0 by {
                assert(runs_from(line, curr)[k] == curr);
            }
        }
    } else if line[0] {
        lemma_runs_from_positive(line.drop_first(), curr + 1);
        assert(runs_from(line, curr) == runs_from(line.drop_first(), curr + 1));
    } else if curr > 0 {
        lemma_runs_from_positive(line.drop_first(), 0);
        let rest = runs_from(line.drop_first(), 0);
        let whole = seq![curr] + rest;
        assert(runs_from(line, curr) == whole);
        assert forall|k: int| 0 <= k < whole.len() implies #[trigger] whole[k] > 0 by {
            if k == 0 {
                assert(whole[0] == curr);
            } else {
                assert(whole[k] == rest[k - 1]);
            }
        }
    } else {
        lemma_runs_from_positive(line.drop_first(), 0);
        assert(runs_from(line, curr) == runs_from(line.drop_first(), 0));
    }
}

/// A clue always has at least one entry, every entry is non-negative, and on
/// a line that holds a filled cell every entry is positive: a gap is never
/// emitted as an entry of its own.
pub proof fn lemma_clue_entries(line: Seq<bool>)
    ensures
        clue(line).len() >= 1,
        forall|k: int| 0 <= k < clue(line).len() ==> #[trigger] clue(line)[k] >= 0,
        run_lengths(line).len() > 0 ==> forall|k: int|
            0 <= k < clue(line).len() ==> #[trigger] clue(line)[k] > 0,
{
    lemma_runs_from_positive(line, 0);
}

/// Packing feasibility: the sum of a line's clue entries, plus one cell of
/// gap between each adjacent pair of entries, never exceeds the length of
/// the line the clue was derived from.
pub proof fn lemma_clue_packing(line: Seq<bool>)
    ensures
        clue_sum(clue(line)) + clue(line).len() - 1 <= line.len(),
{
    lemma_runs_from_packing(line, 0);
    if run_lengths(line).len() == 0 {
        assert(clue(line) =~= seq![0int]);
        assert(clue(line).drop_first() =~= Seq::<int>::empty());
        assert(clue_sum(Seq::<int>::empty()) == 0);
        assert(clue_sum(clue(line)) == clue(line)[0] + clue_sum(clue(line).drop_first()));
    }
}

proof fn lemma_skip_step(line: Seq<bool>, i: int)
    requires
        0 <= i < line.len(),
    ensures
        line.skip(i).len() == line.len() - i,
        line.skip(i)[0] == line[i],
        line.skip(i).drop_first() == line.skip(i + 1),
{
    assert(line.skip(i).drop_first() =~= line.skip(i + 1));
}

/// Encodes one row or column of a solution into its clue numbers: one entry
/// per maximal run of `true` values, or the single entry `0` for a line with
/// no `true` at all.
pub fn count_runs(line: &Vec<bool>) -> (runs: Vec<usize>)
    ensures
        to_ints(runs@) == clue(line@),
{
    let mut out: Vec<usize> = Vec::new();
    let mut curr: usize = 0;
    let mut i: usize = 0;
    proof {
        assert(line@.skip(0) =~= line@);
        assert(to_ints(out@) =~= Seq::<int>::empty());
        assert(Seq::<int>::empty() + runs_from(line@, 0) =~= runs_from(line@, 0));
    }
    while i < line.len()
        invariant
            i <= line@.len(),
            curr <= i,
            run_lengths(line@) == to_ints(out@) + runs_from(
                line@.skip(i as int),
                curr as int,
            ),
        decreases line@.len() - i,
    {
        proof {
            lemma_skip_step(line@, i as int);
        }
        if line[i] {
            curr = curr + 1;
        } else if curr > 0 {
            let ghost prev = to_ints(out@);
            out.push(curr);
            proof {
                assert(to_ints(out@) =~= prev + seq![curr as int]);
                assert((prev + seq![curr as int]) + runs_from(line@.skip(i + 1), 0) =~= prev + (
                seq![curr as int] + runs_from(line@.skip(i + 1), 0)));
            }
            curr = 0;
        }
        i = i + 1;
    }
    proof {
        assert(line@.skip(i as int) =~= Seq::<bool>::empty());
    }
    if curr > 0 {
        let ghost prev = to_ints(out@);
        out.push(curr);
        proof {
            assert(to_ints(out@) =~= prev + seq![curr as int]);
        }
    } else {
        proof {
            assert(to_ints(out@) + Seq::<int>::empty() =~= to_ints(out@));
        }
    }
    if out.len() == 0 {
        out.push(0);
        proof {
            assert(to_ints(out@) =~= seq![0int]);
        }
    }
    out
}

} // verus!
