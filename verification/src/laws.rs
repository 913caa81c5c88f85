//! Laws of the configuration language, stated and proved once for all
//! inputs.

use vstd::prelude::*;

use crate::chars::dec_str;
use crate::chars::digits_val;
use crate::chars::is_digit;
use crate::chars::lemma_dec_str_digits;
use crate::chars::lemma_find_characterization;
use crate::chars::match_at;
use crate::chars::spec_find;
use crate::chars::spec_parse_usize;
use crate::chars::spec_split;
use crate::chars::spec_split_nth;
use crate::chars::spec_substring;
use crate::config::ItemV;
use crate::config::spec_parse_item;
use crate::errors::ConfigErrV;
use crate::filter::FilterV;
use crate::filter::spec_apply_filters;
use crate::filter::spec_filter_run;

verus! {

/// The text of a plain cell reference: `<cell` then the decimal number
/// then `>`.
pub open spec fn cell_ref_text(n: nat) -> Seq<char> {
    "<cell"@ + dec_str(n) + ">"@
}

/// Reading any plain cell reference `<cellN>` with `N` at least one yields
/// the cell item with zero-based index `N - 1` and no filters.
pub proof fn lemma_parse_cell_ref(n: usize)
    requires
        n >= 1,
    ensures
        spec_parse_item(cell_ref_text(n as nat)) == Ok::<_, ConfigErrV>(
            (ItemV::Cell((n - 1) as nat, None::<Seq<FilterV>>), Seq::<Seq<char>>::empty()),
        ),
{
    reveal_strlit("<cell");
    reveal_strlit(">");
    reveal_strlit(":IF ");
    let s = cell_ref_text(n as nat);
    let d = dec_str(n as nat);
    lemma_dec_str_digits(n as nat);
    assert(s.len() == 5 + d.len() + 1);
    assert(s.subrange(0, 5) =~= "<cell"@);
    assert(crate::chars::has_prefix(s, "<cell"@));
    assert(s.last() == '>');
    let cell_str = s.subrange(5, s.len() - 1);
    assert(cell_str =~= d);
    assert forall|j: int| !match_at(d, seq![' '], j) by {
        if match_at(d, seq![' '], j) {
            assert(d.subrange(j, j + 1)[0] == d[j]);
            assert(d[j] == ' ');
            assert(is_digit(d[j]));
        }
    }
    lemma_find_characterization(d, seq![' ']);
    assert(spec_find(d, seq![' ']) is None);
    assert(d[0] != '+') by {
        assert(is_digit(d[0]));
    }
    assert(spec_parse_usize(d) == Some(n)) by {
        assert(digits_val(d) == n <= usize::MAX);
    }
}

/// Applying a two-filter chain is applying the first filter and then the
/// second: chains act left to right.
pub proof fn lemma_filter_chain_left_to_right(f1: FilterV, f2: FilterV, s: Seq<char>)
    ensures
        spec_apply_filters(seq![f1, f2], s) == spec_filter_run(f2, spec_filter_run(f1, s)),
{
    let fs = seq![f1, f2];
    assert(fs.drop_first() =~= seq![f2]);
    assert(seq![f2].drop_first() =~= Seq::<FilterV>::empty());
    assert(spec_apply_filters(seq![f2], spec_filter_run(f1, s)) == spec_apply_filters(
        Seq::<FilterV>::empty(),
        spec_filter_run(f2, spec_filter_run(f1, s)),
    ));
}

/// Taking a substring from the start of the string with no length limit
/// gives the string back.
pub proof fn lemma_substring_zero_round_trip(s: Seq<char>)
    ensures
        spec_substring(s, 0, None) == s,
{
    if s.len() > 0 {
        assert(s.subrange(0, s.len() as int) =~= s);
    } else {
        assert(spec_substring(s, 0, None) =~= s);
    }
}

/// Taking a substring from a positive start twice is not the same as
/// taking it once: for every positive start there is a string on which the
/// second application changes the value. Only a start of zero is
/// idempotent on every string.
pub proof fn lemma_substring_positive_start_not_idempotent(start: nat)
    requires
        start >= 1,
    ensures
        exists|s: Seq<char>|
            spec_substring(spec_substring(s, start, None), start, None) != spec_substring(
                s,
                start,
                None,
            ),
{
    let w = Seq::<char>::new(2 * start, |i: int| 'a');
    let once = spec_substring(w, start, None);
    assert(once == w.subrange(start as int, w.len() as int));
    assert(once.len() == start);
    let twice = spec_substring(once, start, None);
    assert(twice.len() == 0);
    assert(spec_substring(spec_substring(w, start, None), start, None) != spec_substring(
        w,
        start,
        None,
    ));
}

/// Splitting yields the empty string for any segment index at or past the
/// number of segments: a string with fewer than `i + 1` segments has an
/// empty `i`-th segment.
pub proof fn lemma_split_nth_past_end(s: Seq<char>, d: Seq<char>, i: nat)
    requires
        spec_split(s, d).len() <= i,
    ensures
        spec_split_nth(s, d, i) == Seq::<char>::empty(),
{
}

} // verus!
