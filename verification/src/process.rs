//! Turning one input row into output rows.
//!
//! Every template of the configuration is resolved against the input row in
//! order. A template whose resolved cells include the sentinel value
//! `SKIP_LINE` contributes no output row; the other templates contribute
//! one row each, in template order.

use vstd::prelude::*;

use crate::config::ItemV;
use crate::config::Item;
use crate::config::OutputConfig;
use crate::config::Condition;
use crate::config::spec_cond_run;
use crate::config::spec_get_val;
use crate::errors::EvalErrV;
use crate::errors::EvalError;

verus! {

/// What a template item resolves to against a row: a conditional selects
/// and resolves its branch; anything else resolves directly.
pub open spec fn spec_resolve_item(item: ItemV, row: Seq<Seq<char>>) -> Result<
    Seq<char>,
    EvalErrV,
> {
    match item {
        ItemV::If(c, t, e) => spec_cond_run(
            c,
            *t,
            (match e {
                Some(b) => Some(*b),
                None => None,
            }),
            row,
        ),
        _ => spec_get_val(item, row),
    }
}

/// The resolved cells of one template, in order, after those in `acc`; or
/// the first fault.
pub open spec fn spec_eval_line(
    items: Seq<ItemV>,
    row: Seq<Seq<char>>,
    acc: Seq<Seq<char>>,
) -> Result<Seq<Seq<char>>, EvalErrV>
    decreases items.len(),
{
    if items.len() == 0 {
        Ok(acc)
    } else {
        match spec_resolve_item(items[0], row) {
            Err(e) => Err(e),
            Ok(v) => spec_eval_line(items.drop_first(), row, acc.push(v)),
        }
    }
}

/// Whether a resolved template asks for its row to be suppressed: some
/// cell resolved to exactly the sentinel value.
pub open spec fn line_skipped(vals: Seq<Seq<char>>) -> bool {
    exists|i: int| 0 <= i < vals.len() && vals[i] == "SKIP_LINE"@
}

/// The output rows for the templates, in order, after those in `acc`:
/// each template resolves to one row unless some cell of it resolved to
/// the sentinel value; or the first fault.
pub open spec fn spec_run(
    lines: Seq<Seq<ItemV>>,
    row: Seq<Seq<char>>,
    acc: Seq<Seq<Seq<char>>>,
) -> Result<Seq<Seq<Seq<char>>>, EvalErrV>
    decreases lines.len(),
{
    if lines.len() == 0 {
        Ok(acc)
    } else {
        match spec_eval_line(lines[0], row, Seq::empty()) {
            Err(e) => Err(e),
            Ok(vals) => spec_run(
                lines.drop_first(),
                row,
                if line_skipped(vals) {
                    acc
                } else {
                    acc.push(vals)
                },
            ),
        }
    }
}

/// Resolves one template against a row.
fn eval_line(items: &Vec<Item>, input_line: &Vec<String>) -> (r: Result<Vec<String>, EvalError>)
    ensures
        match r {
            Ok(vals) => spec_eval_line(items.deep_view(), input_line.deep_view(), Seq::empty())
                == Ok::<_, EvalErrV>(vals.deep_view()),
            Err(e) => spec_eval_line(items.deep_view(), input_line.deep_view(), Seq::empty())
                == Err::<Seq<Seq<char>>, _>(e@),
        },
{
    let ghost all = items.deep_view();
    let ghost row = input_line.deep_view();
    let mut vals: Vec<String> = Vec::new();
    let n = items.len();
    let mut i: usize = 0;
    proof {
        assert(all.skip(0) =~= all);
        assert(vals.deep_view() =~~= Seq::<Seq<char>>::empty());
    }
    while i < n
        invariant
            i <= n,
            n == items@.len(),
            all == items.deep_view(),
            row == input_line.deep_view(),
            spec_eval_line(all, row, Seq::empty()) == spec_eval_line(
                all.skip(i as int),
                row,
                vals.deep_view(),
            ),
        decreases n - i,
    {
        let ghost rest = all.skip(i as int);
        proof {
            assert(rest[0] == all[i as int]);
            assert(rest.drop_first() =~= all.skip(i + 1 as int));
            assert(all[i as int] == items@[i as int].deep_view());
        }
        let ghost old_vals = vals.deep_view();
        let item = &items[i];
        let v = match item {
            Item::If(condition, then_item, else_item) => {
                match condition.run(then_item, else_item, input_line) {
                    Err(e) => {
                        return Err(e);
                    },
                    Ok(v) => v,
                }
            },
            _ => {
                match Condition::get_val_from_item(item, input_line) {
                    Err(e) => {
                        return Err(e);
                    },
                    Ok(v) => v,
                }
            },
        };
        vals.push(v);
        proof {
            assert(vals.deep_view() =~~= old_vals.push(vals@[vals@.len() - 1]@));
        }
        i = i + 1;
    }
    proof {
        assert(all.skip(n as int) =~= Seq::<ItemV>::empty());
    }
    Ok(vals)
}

/// Whether some resolved cell equals the sentinel value.
fn any_skip(vals: &Vec<String>) -> (r: bool)
    ensures
        r == line_skipped(vals.deep_view()),
{
    let n = vals.len();
    let mut i: usize = 0;
    while i < n
        invariant
            i <= n,
            n == vals@.len(),
            forall|j: int| 0 <= j < i ==> vals.deep_view()[j] != "SKIP_LINE"@,
        decreases n - i,
    {
        if crate::chars::str_eq(vals[i].as_str(), "SKIP_LINE") {
            proof {
                assert(vals.deep_view()[i as int] == "SKIP_LINE"@);
            }
            return true;
        }
        proof {
            assert(vals.deep_view()[i as int] == vals@[i as int]@);
        }
        i = i + 1;
    }
    false
}

/// Resolves every template of the configuration against one input row and
/// collects the output rows in template order, leaving out each template
/// whose resolved cells include the sentinel value.
pub fn run(input_line: &Vec<String>, output_config: &OutputConfig) -> (r: Result<
    Vec<Vec<String>>,
    EvalError,
>)
    ensures
        match r {
            Ok(rows) => spec_run(output_config@.lines, input_line.deep_view(), Seq::empty())
                == Ok::<_, EvalErrV>(rows.deep_view()),
            Err(e) => spec_run(output_config@.lines, input_line.deep_view(), Seq::empty())
                == Err::<Seq<Seq<Seq<char>>>, _>(e@),
        },
{
    let ghost all = output_config@.lines;
    let ghost row = input_line.deep_view();
    let mut new_lines: Vec<Vec<String>> = Vec::new();
    let n = output_config.lines.len();
    let mut i: usize = 0;
    proof {
        assert(all.skip(0) =~= all);
        assert(new_lines.deep_view() =~~= Seq::<Seq<Seq<char>>>::empty());
    }
    while i < n
        invariant
            i <= n,
            n == output_config.lines@.len(),
            all == output_config@.lines,
            row == input_line.deep_view(),
            spec_run(all, row, Seq::empty()) == spec_run(
                all.skip(i as int),
                row,
                new_lines.deep_view(),
            ),
        decreases n - i,
    {
        let ghost rest = all.skip(i as int);
        proof {
            assert(rest[0] == all[i as int]);
            assert(rest.drop_first() =~= all.skip(i + 1 as int));
            assert(all[i as int] == output_config.lines@[i as int].deep_view());
        }
        let ghost old_rows = new_lines.deep_view();
        match eval_line(&output_config.lines[i], input_line) {
            Err(e) => {
                return Err(e);
            },
            Ok(vals) => {
                if !any_skip(&vals) {
                    let ghost vdv = vals.deep_view();
                    new_lines.push(vals);
                    proof {
                        assert(new_lines.deep_view() =~~= old_rows.push(vdv));
                    }
                }
            },
        }
        i = i + 1;
    }
    proof {
        assert(all.skip(n as int) =~= Seq::<Seq<ItemV>>::empty());
    }
    Ok(new_lines)
}

/// The rendered rows of the templates that are kept: each template's
/// resolved cells, in template order, leaving out every template whose
/// cells include the sentinel value.
pub open spec fn spec_kept_rows(lines: Seq<Seq<ItemV>>, row: Seq<Seq<char>>) -> Seq<
    Seq<Seq<char>>,
>
    decreases lines.len(),
{
    if lines.len() == 0 {
        Seq::empty()
    } else {
        let vals = spec_eval_line(lines[0], row, Seq::empty())->Ok_0;
        let rest = spec_kept_rows(lines.drop_first(), row);
        if line_skipped(vals) {
            rest
        } else {
            seq![vals] + rest
        }
    }
}

proof fn lemma_run_kept_rows(lines: Seq<Seq<ItemV>>, row: Seq<Seq<char>>, acc: Seq<Seq<Seq<char>>>)
    requires
        forall|k: int|
            0 <= k < lines.len() ==> #[trigger] spec_eval_line(lines[k], row, Seq::empty()) is Ok,
    ensures
        spec_run(lines, row, acc) == Ok::<_, EvalErrV>(acc + spec_kept_rows(lines, row)),
    decreases lines.len(),
{
    if lines.len() == 0 {
        assert(acc + spec_kept_rows(lines, row) =~= acc);
    } else {
        let rest = lines.drop_first();
        assert(forall|k: int|
            0 <= k < rest.len() ==> #[trigger] spec_eval_line(rest[k], row, Seq::empty())
                == spec_eval_line(lines[k + 1], row, Seq::empty()));
        let vals = spec_eval_line(lines[0], row, Seq::empty())->Ok_0;
        if line_skipped(vals) {
            lemma_run_kept_rows(rest, row, acc);
        } else {
            lemma_run_kept_rows(rest, row, acc.push(vals));
            assert(acc.push(vals) + spec_kept_rows(rest, row) =~= acc + (seq![vals]
                + spec_kept_rows(rest, row)));
        }
    }
}

/// A template whose cells resolve to the sentinel value leaves no row in
/// the output, while every other template still contributes its row: when
/// every template resolves without fault, the run yields exactly the
/// rendered rows of the templates that are kept, in template order.
pub proof fn lemma_skip_line_suppresses_only_its_row(lines: Seq<Seq<ItemV>>, row: Seq<Seq<char>>)
    requires
        forall|k: int|
            0 <= k < lines.len() ==> #[trigger] spec_eval_line(lines[k], row, Seq::empty()) is Ok,
    ensures
        spec_run(lines, row, Seq::empty()) == Ok::<_, EvalErrV>(spec_kept_rows(lines, row)),
{
    lemma_run_kept_rows(lines, row, Seq::empty());
    assert(Seq::<Seq<Seq<char>>>::empty() + spec_kept_rows(lines, row) =~= spec_kept_rows(
        lines,
        row,
    ));
}

} // verus!
