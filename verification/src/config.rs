//! The output-configuration language: items, conditions and their parser.
//!
//! An item produces one output cell: a literal, a reference to an input
//! cell piped through filters, or a conditional that selects between two
//! items. A condition tests one or two items; its operands may not
//! themselves be conditionals. Parsing is a quote- and escape-aware scan;
//! every fault carries the offending fragment.

use vstd::prelude::*;

use crate::chars::has_prefix;
use crate::chars::lemma_trim_le;
use crate::chars::spec_find;
use crate::chars::spec_parse_usize;
use crate::chars::spec_replace;
use crate::chars::spec_trim;
use crate::errors::ConfigErrV;
use crate::errors::ConfigError;
use crate::errors::EvalErrV;
use crate::errors::EvalError;
use crate::filter::Filter;
use crate::filter::FilterV;
use crate::filter::spec_parse_filters;
use crate::num::NumV;
use crate::num::Number;
use crate::num::spec_parse_number;

verus! {

/// The mathematical content of an [`Item`].
pub enum ItemV {
    Value(Seq<char>),
    If(CondV, Box<ItemV>, Option<Box<ItemV>>),
    Cell(nat, Option<Seq<FilterV>>),
}

/// The mathematical content of a [`Condition`].
pub enum CondV {
    IsEmpty(Box<ItemV>),
    IsNotEmpty(Box<ItemV>),
    IsNumeric(Box<ItemV>),
    StartesWith(Seq<char>, Box<ItemV>),
    EndsWith(Seq<char>, Box<ItemV>),
    Contains(Seq<char>, Box<ItemV>),
    Equals(Box<ItemV>, Box<ItemV>),
    NotEquals(Box<ItemV>, Box<ItemV>),
    GreaterThan(Box<ItemV>, Box<ItemV>),
    LessThan(Box<ItemV>, Box<ItemV>),
    Modulo(NumV, NumV, Box<ItemV>),
}

/// A predicate over one or two items, selecting between a then item and an
/// optional else item.
#[derive(Debug, PartialEq)]
pub enum Condition {
    /// The subject resolves to the empty string.
    IsEmpty(Box<Item>),
    /// The subject resolves to a non-empty string.
    IsNotEmpty(Box<Item>),
    /// The subject resolves to a number.
    IsNumeric(Box<Item>),
    /// The subject starts with the needle.
    StartesWith(String, Box<Item>),
    /// The subject ends with the needle.
    EndsWith(String, Box<Item>),
    /// The subject contains the needle.
    Contains(String, Box<Item>),
    /// The operand and the subject resolve to equal strings.
    Equals(Box<Item>, Box<Item>),
    /// The operand and the subject resolve to different strings.
    NotEquals(Box<Item>, Box<Item>),
    /// The subject exceeds the operand numerically.
    GreaterThan(Box<Item>, Box<Item>),
    /// The subject is below the operand numerically.
    LessThan(Box<Item>, Box<Item>),
    /// The subject's remainder modulo the divisor equals the given
    /// remainder.
    Modulo(Number, Number, Box<Item>),
}

/// A value-producing expression: one output cell of one template.
#[derive(Debug, PartialEq)]
pub enum Item {
    /// A literal.
    Value(String),
    /// A conditional: the condition selects the then item or the else
    /// item; a missing else item resolves to the empty string.
    If(Condition, Box<Item>, Option<Box<Item>>),
    /// A zero-based input cell reference with an optional filter chain.
    Cell(usize, Option<Vec<Filter>>),
}

/// The mathematical content of an [`Item`].
pub open spec fn view_item(i: Item) -> ItemV
    decreases i,
{
    match i {
        Item::Value(s) => ItemV::Value(s@),
        Item::If(c, t, e) => ItemV::If(
            view_cond(c),
            Box::new(view_item(*t)),
            match e {
                Some(b) => Some(Box::new(view_item(*b))),
                None => None,
            },
        ),
        Item::Cell(n, f) => ItemV::Cell(
            n as nat,
            match f {
                Some(fs) => Some(fs.deep_view()),
                None => None,
            },
        ),
    }
}

/// The mathematical content of a [`Condition`].
pub open spec fn view_cond(c: Condition) -> CondV
    decreases c,
{
    match c {
        Condition::IsEmpty(i) => CondV::IsEmpty(Box::new(view_item(*i))),
        Condition::IsNotEmpty(i) => CondV::IsNotEmpty(Box::new(view_item(*i))),
        Condition::IsNumeric(i) => CondV::IsNumeric(Box::new(view_item(*i))),
        Condition::StartesWith(n, i) => CondV::StartesWith(n@, Box::new(view_item(*i))),
        Condition::EndsWith(n, i) => CondV::EndsWith(n@, Box::new(view_item(*i))),
        Condition::Contains(n, i) => CondV::Contains(n@, Box::new(view_item(*i))),
        Condition::Equals(a, b) => CondV::Equals(
            Box::new(view_item(*a)),
            Box::new(view_item(*b)),
        ),
        Condition::NotEquals(a, b) => CondV::NotEquals(
            Box::new(view_item(*a)),
            Box::new(view_item(*b)),
        ),
        Condition::GreaterThan(a, b) => CondV::GreaterThan(
            Box::new(view_item(*a)),
            Box::new(view_item(*b)),
        ),
        Condition::LessThan(a, b) => CondV::LessThan(
            Box::new(view_item(*a)),
            Box::new(view_item(*b)),
        ),
        Condition::Modulo(d, r, i) => CondV::Modulo(d@, r@, Box::new(view_item(*i))),
    }
}

impl View for Item {
    type V = ItemV;

    open spec fn view(&self) -> ItemV {
        view_item(*self)
    }
}

impl DeepView for Item {
    type V = ItemV;

    open spec fn deep_view(&self) -> ItemV {
        view_item(*self)
    }
}

impl View for Condition {
    type V = CondV;

    open spec fn view(&self) -> CondV {
        view_cond(*self)
    }
}

/// The scanner state while reading a conditional clause.
pub struct CondScanV {
    /// The operator text, captured at the first unquoted `(`.
    pub cond: Option<Seq<char>>,
    /// The subject cell reference, captured at the first unquoted `>`.
    pub subject: Option<Seq<char>>,
    /// The then clause.
    pub then_t: Option<Seq<char>>,
    /// The else clause.
    pub else_t: Option<Seq<char>>,
    pub in_quotes: bool,
    pub in_cond: bool,
    pub escaped: bool,
    pub buffer: Seq<char>,
}

/// The scanner state before any character.
pub open spec fn cond_scan_init() -> CondScanV {
    CondScanV {
        cond: None,
        subject: None,
        then_t: None,
        else_t: None,
        in_quotes: false,
        in_cond: false,
        escaped: false,
        buffer: Seq::empty(),
    }
}

/// One step of the clause scanner. Quotes toggle quoted mode and a
/// backslash escapes the next quote or backslash. Outside quotes: the
/// first `>` closes the subject; a later `>` closes the then or else
/// clause when the operator text is already closed, and is otherwise kept
/// as part of the operator's comparison text; `(` closes the operator
/// text; `)` closes the then clause, then the else clause.
pub open spec fn cond_scan_step(st: CondScanV, c: char) -> CondScanV {
    if c == '\'' {
        if st.escaped {
            CondScanV { buffer: st.buffer.push('\''), escaped: false, ..st }
        } else {
            CondScanV { in_quotes: !st.in_quotes, ..st }
        }
    } else if c == '\\' {
        if st.escaped {
            CondScanV { buffer: st.buffer.push('\\'), escaped: false, ..st }
        } else {
            CondScanV { escaped: true, ..st }
        }
    } else if c == '>' {
        let b = st.buffer.push('>');
        if !st.in_quotes {
            if st.subject is None {
                CondScanV {
                    subject: Some(spec_trim(b)),
                    in_cond: true,
                    buffer: Seq::empty(),
                    ..st
                }
            } else if st.then_t is None {
                if !st.in_cond {
                    CondScanV { then_t: Some(spec_trim(b)), buffer: Seq::empty(), ..st }
                } else {
                    CondScanV { buffer: b, ..st }
                }
            } else {
                if !st.in_cond {
                    CondScanV { else_t: Some(spec_trim(b)), buffer: Seq::empty(), ..st }
                } else {
                    CondScanV { buffer: Seq::empty(), ..st }
                }
            }
        } else {
            CondScanV { buffer: b, escaped: false, ..st }
        }
    } else if c == '(' {
        if !st.in_quotes {
            if st.cond is None {
                CondScanV {
                    in_cond: false,
                    cond: Some(spec_trim(st.buffer)),
                    buffer: Seq::empty(),
                    ..st
                }
            } else {
                CondScanV { in_cond: false, buffer: Seq::empty(), ..st }
            }
        } else {
            CondScanV { buffer: st.buffer.push('('), ..st }
        }
    } else if c == ')' {
        if !st.in_quotes {
            if st.then_t is None {
                CondScanV { then_t: Some(spec_trim(st.buffer)), buffer: Seq::empty(), ..st }
            } else if st.else_t is None && st.buffer.len() > 0 {
                CondScanV { else_t: Some(spec_trim(st.buffer)), buffer: Seq::empty(), ..st }
            } else {
                CondScanV { buffer: Seq::empty(), ..st }
            }
        } else {
            CondScanV { buffer: st.buffer.push(')'), ..st }
        }
    } else {
        CondScanV { escaped: false, buffer: st.buffer.push(c), ..st }
    }
}

/// The scanner state after all of `s`.
pub open spec fn cond_scan(s: Seq<char>) -> CondScanV
    decreases s.len(),
{
    if s.len() == 0 {
        cond_scan_init()
    } else {
        cond_scan_step(cond_scan(s.drop_last()), s.last())
    }
}

/// A bound on a captured clause: shorter than the scanned text, or as long
/// but then only because the text ends in `>`.
pub open spec fn scan_text_bound(t: Option<Seq<char>>, s: Seq<char>) -> bool {
    match t {
        None => true,
        Some(x) => x.len() < s.len() || (x.len() == s.len() && s.len() > 0 && s.last() == '>'),
    }
}

/// Every clause the scanner captures is bounded by the text scanned so
/// far, and the operator text is strictly shorter.
pub proof fn lemma_cond_scan_bounds(s: Seq<char>)
    ensures
        cond_scan(s).buffer.len() <= s.len(),
        scan_text_bound(cond_scan(s).subject, s),
        scan_text_bound(cond_scan(s).then_t, s),
        scan_text_bound(cond_scan(s).else_t, s),
        match cond_scan(s).cond {
            None => true,
            Some(x) => x.len() < s.len(),
        },
    decreases s.len(),
{
    if s.len() > 0 {
        let p = s.drop_last();
        let c = s.last();
        lemma_cond_scan_bounds(p);
        let st = cond_scan(p);
        lemma_trim_le(st.buffer.push(c));
        lemma_trim_le(st.buffer);
    }
}

/// In text that ends with `)`, every captured clause is strictly shorter
/// than the text.
pub proof fn lemma_cond_texts_lt(s: Seq<char>)
    requires
        s.len() > 0,
        s.last() == ')',
    ensures
        match cond_scan(s).subject {
            None => true,
            Some(x) => x.len() < s.len(),
        },
        match cond_scan(s).then_t {
            None => true,
            Some(x) => x.len() < s.len(),
        },
        match cond_scan(s).else_t {
            None => true,
            Some(x) => x.len() < s.len(),
        },
        match cond_scan(s).cond {
            None => true,
            Some(x) => x.len() < s.len(),
        },
{
    lemma_cond_scan_bounds(s);
}

/// Wraps an optional item for embedding in a conditional.
pub open spec fn box_opt(o: Option<ItemV>) -> Option<Box<ItemV>> {
    match o {
        Some(x) => Some(Box::new(x)),
        None => None,
    }
}

/// What a single configuration cell's text means: the item it denotes and
/// the unrecognized filter tokens that were dropped, or the first fault.
///
/// Text shaped `<cellN ...>` is a cell reference: the one-based number
/// before the first space, the filter text after it. Text starting
/// `:IF ` is a conditional clause. Anything else is a literal.
pub open spec fn spec_parse_item(s: Seq<char>) -> Result<(ItemV, Seq<Seq<char>>), ConfigErrV>
    decreases s.len(), 1int
        via spec_parse_item_decreases
{
    if has_prefix(s, "<cell"@) && s.len() > 0 && s.last() == '>' {
        let cell_str = s.subrange(5, s.len() - 1);
        let num_str = match spec_find(cell_str, seq![' ']) {
            Some(i) => cell_str.subrange(0, i as int),
            None => cell_str,
        };
        let fil = match spec_find(cell_str, seq![' ']) {
            Some(i) => Some(cell_str.subrange(i + 1 as int, cell_str.len() as int)),
            None => None,
        };
        match fil {
            Some(ft) => match spec_parse_filters(ft) {
                Err(e) => Err(e),
                Ok((fs, ws)) => match spec_parse_usize(num_str) {
                    Some(n) => if n > 0 {
                        Ok((ItemV::Cell((n - 1) as nat, Some(fs)), ws))
                    } else {
                        Err(ConfigErrV::CellNumberZero(s))
                    },
                    None => Err(ConfigErrV::InvalidCellNumber(s)),
                },
            },
            None => match spec_parse_usize(num_str) {
                Some(n) => if n > 0 {
                    Ok((ItemV::Cell((n - 1) as nat, None), Seq::empty()))
                } else {
                    Err(ConfigErrV::CellNumberZero(s))
                },
                None => Err(ConfigErrV::InvalidCellNumber(s)),
            },
        }
    } else if has_prefix(s, ":IF "@) {
        spec_parse_condition(s.subrange(4, s.len() as int))
    } else {
        Ok((ItemV::Value(s), Seq::empty()))
    }
}

#[via_fn]
proof fn spec_parse_item_decreases(s: Seq<char>) {
    reveal_strlit(":IF ");
    reveal_strlit("<cell");
}

/// What a conditional clause means: the `If` item it denotes and the
/// unrecognized filter tokens that were dropped, or the first fault.
///
/// The clause must start with a cell reference and end with a
/// parenthesized clause. The scan captures the subject, the operator text,
/// the then clause and the else clause; the subject, then and else texts
/// are read as items in that order, then the operator text is matched
/// against the operator vocabulary.
pub open spec fn spec_parse_condition(s: Seq<char>) -> Result<
    (ItemV, Seq<Seq<char>>),
    ConfigErrV,
>
    decreases s.len(), 0int
        via spec_parse_condition_decreases
{
    if !has_prefix(s, "<cell"@) {
        Err(ConfigErrV::ConditionStart(s))
    } else if !(s.len() > 0 && s.last() == ')') {
        Err(ConfigErrV::ConditionEnd(s))
    } else {
        let st = cond_scan(s);
        let sub_r: Result<Option<(ItemV, Seq<Seq<char>>)>, ConfigErrV> = match st.subject {
            None => Ok(None),
            Some(t) => match spec_parse_item(t) {
                Err(e) => Err(e),
                Ok(p) => Ok(Some(p)),
            },
        };
        match sub_r {
            Err(e) => Err(e),
            Ok(sub_o) => {
                let then_r: Result<Option<(ItemV, Seq<Seq<char>>)>, ConfigErrV> = match st.then_t {
                    None => Ok(None),
                    Some(t) => match spec_parse_item(t) {
                        Err(e) => Err(e),
                        Ok(p) => Ok(Some(p)),
                    },
                };
                match then_r {
                    Err(e) => Err(e),
                    Ok(then_o) => {
                        let else_r: Result<Option<(ItemV, Seq<Seq<char>>)>, ConfigErrV> = match st
                            .else_t {
                            None => Ok(None),
                            Some(t) => match spec_parse_item(t) {
                                Err(e) => Err(e),
                                Ok(p) => Ok(Some(p)),
                            },
                        };
                        match else_r {
                            Err(e) => Err(e),
                            Ok(else_o) => match st.cond {
                                None => Err(ConfigErrV::ConditionNotFound(s)),
                                Some(c) => match sub_o {
                                    None => Err(ConfigErrV::ConditionItemNotFound(s)),
                                    Some((subject, ws1)) => match then_o {
                                        None => Err(ConfigErrV::ThenItemNotFound(s)),
                                        Some((then_i, ws2)) => {
                                            let els_i: Option<ItemV> = match else_o {
                                                None => None,
                                                Some((e_i, w)) => Some(e_i),
                                            };
                                            let ws3: Seq<Seq<char>> = match else_o {
                                                None => Seq::empty(),
                                                Some((e_i, w)) => w,
                                            };
                                            let ws = ws1 + ws2 + ws3;
                                            spec_parse_operator_result(
                                                c,
                                                subject,
                                                then_i,
                                                els_i,
                                                ws,
                                            )
                                        },
                                    },
                                },
                            },
                        }
                    },
                }
            },
        }
    }
}

#[via_fn]
proof fn spec_parse_condition_decreases(s: Seq<char>) {
    reveal_strlit("<cell");
    if has_prefix(s, "<cell"@) && s.len() > 0 && s.last() == ')' {
        lemma_cond_texts_lt(s);
    }
}

/// What the operator text of a conditional means, joined with the already
/// parsed subject, then and else items.
pub open spec fn spec_parse_operator_result(
    c: Seq<char>,
    subject: ItemV,
    then_i: ItemV,
    els_i: Option<ItemV>,
    ws: Seq<Seq<char>>,
) -> Result<(ItemV, Seq<Seq<char>>), ConfigErrV>
    decreases c.len(), 2int
        via spec_parse_operator_decreases
{
    if has_prefix(c, "IS_EMPTY"@) {
        Ok(
            (
                ItemV::If(
                    CondV::IsEmpty(Box::new(subject)),
                    Box::new(then_i),
                    box_opt(els_i),
                ),
                ws,
            ),
        )
    } else if has_prefix(c, "IS_NOT_EMPTY"@) {
        Ok(
            (
                ItemV::If(
                    CondV::IsNotEmpty(Box::new(subject)),
                    Box::new(then_i),
                    box_opt(els_i),
                ),
                ws,
            ),
        )
    } else if has_prefix(c, "IS_NUMERIC"@) {
        Ok(
            (
                ItemV::If(
                    CondV::IsNumeric(Box::new(subject)),
                    Box::new(then_i),
                    box_opt(els_i),
                ),
                ws,
            ),
        )
    } else if has_prefix(c, "STARTS_WITH"@) {
        match spec_find(c, seq!['|']) {
            None => Err(ConfigErrV::NeedleMissing(c)),
            Some(i) => Ok(
                (
                    ItemV::If(
                        CondV::StartesWith(
                            c.subrange(i + 1 as int, c.len() as int),
                            Box::new(subject),
                        ),
                        Box::new(then_i),
                        box_opt(els_i),
                    ),
                    ws,
                ),
            ),
        }
    } else if has_prefix(c, "ENDS_WITH"@) {
        match spec_find(c, seq!['|']) {
            None => Err(ConfigErrV::NeedleMissing(c)),
            Some(i) => Ok(
                (
                    ItemV::If(
                        CondV::EndsWith(
                            c.subrange(i + 1 as int, c.len() as int),
                            Box::new(subject),
                        ),
                        Box::new(then_i),
                        box_opt(els_i),
                    ),
                    ws,
                ),
            ),
        }
    } else if has_prefix(c, "CONTAINS"@) {
        match spec_find(c, seq!['|']) {
            None => Err(ConfigErrV::NeedleMissing(c)),
            Some(i) => Ok(
                (
                    ItemV::If(
                        CondV::Contains(
                            c.subrange(i + 1 as int, c.len() as int),
                            Box::new(subject),
                        ),
                        Box::new(then_i),
                        box_opt(els_i),
                    ),
                    ws,
                ),
            ),
        }
    } else if has_prefix(c, "=="@) {
        if c.len() < 3 {
            Err(ConfigErrV::ComparisonMissing(c))
        } else {
            let op_t = if c[2] == ' ' {
                c.subrange(3, c.len() as int)
            } else {
                c.subrange(2, c.len() as int)
            };
            match spec_parse_item(op_t) {
                Err(e) => Err(e),
                Ok((op, ws4)) => Ok(
                    (
                        ItemV::If(
                            CondV::Equals(Box::new(op), Box::new(subject)),
                            Box::new(then_i),
                            box_opt(els_i),
                        ),
                        ws + ws4,
                    ),
                ),
            }
        }
    } else if has_prefix(c, "!="@) {
        if c.len() < 3 {
            Err(ConfigErrV::ComparisonMissing(c))
        } else {
            let op_t = if c[2] == ' ' {
                c.subrange(3, c.len() as int)
            } else {
                c.subrange(2, c.len() as int)
            };
            match spec_parse_item(op_t) {
                Err(e) => Err(e),
                Ok((op, ws4)) => Ok(
                    (
                        ItemV::If(
                            CondV::NotEquals(Box::new(op), Box::new(subject)),
                            Box::new(then_i),
                            box_opt(els_i),
                        ),
                        ws + ws4,
                    ),
                ),
            }
        }
    } else if has_prefix(c, ">"@) {
        let op_t = spec_trim(c.subrange(1, c.len() as int));
        match spec_parse_item(op_t) {
            Err(e) => Err(e),
            Ok((op, ws4)) => Ok(
                (
                    ItemV::If(
                        CondV::GreaterThan(Box::new(op), Box::new(subject)),
                        Box::new(then_i),
                        box_opt(els_i),
                    ),
                    ws + ws4,
                ),
            ),
        }
    } else if has_prefix(c, "<"@) {
        let op_t = spec_trim(c.subrange(1, c.len() as int));
        match spec_parse_item(op_t) {
            Err(e) => Err(e),
            Ok((op, ws4)) => Ok(
                (
                    ItemV::If(
                        CondV::LessThan(Box::new(op), Box::new(subject)),
                        Box::new(then_i),
                        box_opt(els_i),
                    ),
                    ws + ws4,
                ),
            ),
        }
    } else if has_prefix(c, "%"@) {
        let m = spec_replace(spec_replace(c, seq!['%'], Seq::empty()), seq![' ', ' '], seq![' ']);
        match spec_find(m, seq!['=']) {
            None => Err(ConfigErrV::ModuloUsage(m)),
            Some(i) => {
                let left = spec_trim(m.subrange(0, i as int));
                let right = spec_trim(m.subrange(i + 1 as int, m.len() as int));
                match spec_parse_number(left) {
                    None => Err(ConfigErrV::ModuloDivisor(left)),
                    Some(d) => match spec_parse_number(right) {
                        None => Err(ConfigErrV::ModuloRemainder(right)),
                        Some(r) => Ok(
                            (
                                ItemV::If(
                                    CondV::Modulo(d, r, Box::new(subject)),
                                    Box::new(then_i),
                                    box_opt(els_i),
                                ),
                                ws,
                            ),
                        ),
                    },
                }
            },
        }
    } else {
        Err(ConfigErrV::UnknownOperator(c))
    }
}

#[via_fn]
proof fn spec_parse_operator_decreases(
    c: Seq<char>,
    subject: ItemV,
    then_i: ItemV,
    els_i: Option<ItemV>,
    ws: Seq<Seq<char>>,
) {
    reveal_strlit(">");
    reveal_strlit("<");
    if c.len() >= 1 {
        lemma_trim_le(c.subrange(1, c.len() as int));
    }
}

/// The view of an optional character vector.
pub open spec fn opt_chars(o: Option<Vec<char>>) -> Option<Seq<char>> {
    match o {
        Some(v) => Some(v@),
        None => None,
    }
}

/// The captured clauses of a conditional, after the scan.
struct ScanOut {
    cond: Option<Vec<char>>,
    subject: Option<Vec<char>>,
    then_t: Option<Vec<char>>,
    else_t: Option<Vec<char>>,
}

/// Runs the clause scanner over the whole input.
fn cond_scan_exec(v: &Vec<char>) -> (r: ScanOut)
    ensures
        opt_chars(r.cond) == cond_scan(v@).cond,
        opt_chars(r.subject) == cond_scan(v@).subject,
        opt_chars(r.then_t) == cond_scan(v@).then_t,
        opt_chars(r.else_t) == cond_scan(v@).else_t,
{
    let mut cond: Option<Vec<char>> = None;
    let mut subject: Option<Vec<char>> = None;
    let mut then_t: Option<Vec<char>> = None;
    let mut else_t: Option<Vec<char>> = None;
    let mut in_quotes = false;
    let mut in_cond = false;
    let mut escaped = false;
    let mut buffer: Vec<char> = Vec::new();
    let n = v.len();
    let mut i: usize = 0;
    proof {
        assert(v@.take(0) =~= Seq::<char>::empty());
    }
    while i < n
        invariant
            i <= n,
            n == v@.len(),
            cond_scan(v@.take(i as int)) == (CondScanV {
                cond: opt_chars(cond),
                subject: opt_chars(subject),
                then_t: opt_chars(then_t),
                else_t: opt_chars(else_t),
                in_quotes,
                in_cond,
                escaped,
                buffer: buffer@,
            }),
        decreases n - i,
    {
        let ghost st = cond_scan(v@.take(i as int));
        let c = v[i];
        proof {
            assert(v@.take(i + 1 as int).drop_last() =~= v@.take(i as int));
            assert(v@.take(i + 1 as int).last() == c);
        }
        if c == '\'' {
            if escaped {
                buffer.push('\'');
                escaped = false;
            } else {
                in_quotes = !in_quotes;
            }
        } else if c == '\\' {
            if escaped {
                buffer.push('\\');
                escaped = false;
            } else {
                escaped = true;
            }
        } else if c == '>' {
            buffer.push('>');
            if !in_quotes {
                if subject.is_none() {
                    subject = Some(crate::chars::trim_chars(&buffer));
                    in_cond = true;
                    buffer = Vec::new();
                } else if then_t.is_none() {
                    if !in_cond {
                        then_t = Some(crate::chars::trim_chars(&buffer));
                        buffer = Vec::new();
                    }
                } else {
                    if !in_cond {
                        else_t = Some(crate::chars::trim_chars(&buffer));
                    }
                    buffer = Vec::new();
                }
            } else {
                escaped = false;
            }
        } else if c == '(' {
            if !in_quotes {
                in_cond = false;
                if cond.is_none() {
                    cond = Some(crate::chars::trim_chars(&buffer));
                }
                buffer = Vec::new();
            } else {
                buffer.push('(');
            }
        } else if c == ')' {
            if !in_quotes {
                if then_t.is_none() {
                    then_t = Some(crate::chars::trim_chars(&buffer));
                } else if else_t.is_none() && buffer.len() > 0 {
                    else_t = Some(crate::chars::trim_chars(&buffer));
                }
                buffer = Vec::new();
            } else {
                buffer.push(')');
            }
        } else {
            escaped = false;
            buffer.push(c);
        }
        proof {
            assert(cond_scan(v@.take(i + 1 as int)) == cond_scan_step(st, c));
        }
        i = i + 1;
    }
    proof {
        assert(v@.take(n as int) =~= v@);
    }
    ScanOut { cond, subject, then_t, else_t }
}

impl Item {
    /// Reads one configuration cell's text into the item it denotes,
    /// together with the unrecognized filter tokens that were dropped.
    ///
    /// Text shaped `<cellN ...>` is a cell reference with an optional
    /// filter chain; text starting `:IF ` is a conditional clause; anything
    /// else is a literal.
    pub fn parse(input: String) -> (r: Result<(Item, Vec<String>), ConfigError>)
        ensures
            match r {
                Ok(p) => spec_parse_item(input@) == Ok::<_, ConfigErrV>((p.0@, p.1.deep_view())),
                Err(e) => spec_parse_item(input@) == Err::<(ItemV, Seq<Seq<char>>), _>(e@),
            },
        decreases input@.len(), 1int,
    {
        let v = crate::chars::str_to_chars(input.as_str());
        let cell_pre = crate::chars::str_to_chars("<cell");
        let if_pre = crate::chars::str_to_chars(":IF ");
        let is_cell = crate::chars::has_prefix_exec(&v, &cell_pre) && v.len() > 0 && v[v.len()
            - 1] == '>';
        if is_cell {
            proof {
                reveal_strlit("<cell");
                assert(v@.len() >= 5);
                if v@.len() == 5 {
                    assert(v@.subrange(0, 5)[4] == v@[4]);
                    assert("<cell"@[4] == 'l');
                    assert(v@[4] == '>');
                }
                assert(v@.len() >= 6);
            }
            let cell_str = crate::chars::subrange_chars(&v, 5, v.len() - 1);
            let mut space: Vec<char> = Vec::new();
            space.push(' ');
            proof {
                assert(space@ =~= seq![' ']);
            }
            match crate::chars::find_sub(&cell_str, &space) {
                Some(i) => {
                    proof {
                        crate::chars::lemma_find_characterization(cell_str@, space@);
                        assert(crate::chars::match_at(cell_str@, space@, i as int));
                    }
                    let num_str = crate::chars::subrange_chars(&cell_str, 0, i);
                    let ft = crate::chars::subrange_chars(&cell_str, i + 1, cell_str.len());
                    let fts = crate::chars::chars_to_string(&ft);
                    match Filter::parse(fts.as_str()) {
                        Err(e) => Err(e),
                        Ok((fs, ws)) => match crate::chars::parse_usize_chars(&num_str) {
                            Some(n) => {
                                if n > 0 {
                                    Ok((Item::Cell(n - 1, Some(fs)), ws))
                                } else {
                                    Err(ConfigError::CellNumberZero(input))
                                }
                            },
                            None => Err(ConfigError::InvalidCellNumber(input)),
                        },
                    }
                },
                None => {
                    match crate::chars::parse_usize_chars(&cell_str) {
                        Some(n) => {
                            if n > 0 {
                                let ws_empty: Vec<String> = Vec::new();
                                proof {
                                    assert(ws_empty.deep_view() =~~= Seq::<Seq<char>>::empty());
                                }
                                Ok((Item::Cell(n - 1, None), ws_empty))
                            } else {
                                Err(ConfigError::CellNumberZero(input))
                            }
                        },
                        None => Err(ConfigError::InvalidCellNumber(input)),
                    }
                },
            }
        } else if crate::chars::has_prefix_exec(&v, &if_pre) {
            proof {
                reveal_strlit(":IF ");
                assert(v@.len() >= 4);
            }
            let rest = crate::chars::subrange_chars(&v, 4, v.len());
            let rs = crate::chars::chars_to_string(&rest);
            Condition::parse(rs.as_str())
        } else {
            let ws_empty: Vec<String> = Vec::new();
            proof {
                assert(ws_empty.deep_view() =~~= Seq::<Seq<char>>::empty());
            }
            Ok((Item::Value(input), ws_empty))
        }
    }
}

impl Condition {
    /// Reads a conditional clause into the `If` item it denotes, together
    /// with the unrecognized filter tokens that were dropped.
    pub fn parse(condition_str: &str) -> (r: Result<(Item, Vec<String>), ConfigError>)
        ensures
            match r {
                Ok(p) => spec_parse_condition(condition_str@) == Ok::<_, ConfigErrV>(
                    (p.0@, p.1.deep_view()),
                ),
                Err(e) => spec_parse_condition(condition_str@) == Err::<
                    (ItemV, Seq<Seq<char>>),
                    _,
                >(e@),
            },
        decreases condition_str@.len(), 0int,
    {
        let ghost s = condition_str@;
        let v = crate::chars::str_to_chars(condition_str);
        let cell_pre = crate::chars::str_to_chars("<cell");
        if !crate::chars::has_prefix_exec(&v, &cell_pre) {
            return Err(ConfigError::ConditionStart(condition_str.to_owned()));
        }
        if !(v.len() > 0 && v[v.len() - 1] == ')') {
            return Err(ConfigError::ConditionEnd(condition_str.to_owned()));
        }
        proof {
            lemma_cond_texts_lt(s);
        }
        let sc = cond_scan_exec(&v);
        let ghost stv = cond_scan(s);
        let mut warnings: Vec<String> = Vec::new();
        proof {
            assert(warnings.deep_view() =~~= Seq::<Seq<char>>::empty());
        }
        let subject_p: Option<Item> = match sc.subject {
            None => None,
            Some(t) => {
                proof {
                    assert(stv.subject == Some(t@));
                    assert(t@.len() < s.len());
                }
                let ts = crate::chars::chars_to_string(&t);
                match Item::parse(ts) {
                    Err(e) => {
                        return Err(e);
                    },
                    Ok((it, ws)) => {
                        crate::chars::append_strings(&mut warnings, &ws);
                        proof {
                            assert(warnings.deep_view() =~~= Seq::<Seq<char>>::empty()
                                + ws.deep_view());
                        }
                        Some(it)
                    },
                }
            },
        };
        let ghost ws1: Seq<Seq<char>> = warnings.deep_view();
        let then_p: Option<Item> = match sc.then_t {
            None => None,
            Some(t) => {
                proof {
                    assert(stv.then_t == Some(t@));
                    assert(t@.len() < s.len());
                }
                let ts = crate::chars::chars_to_string(&t);
                match Item::parse(ts) {
                    Err(e) => {
                        return Err(e);
                    },
                    Ok((it, ws)) => {
                        crate::chars::append_strings(&mut warnings, &ws);
                        proof {
                            assert(warnings.deep_view() =~~= ws1 + ws.deep_view());
                        }
                        Some(it)
                    },
                }
            },
        };
        let ghost ws12: Seq<Seq<char>> = warnings.deep_view();
        let else_p: Option<Item> = match sc.else_t {
            None => None,
            Some(t) => {
                proof {
                    assert(stv.else_t == Some(t@));
                    assert(t@.len() < s.len());
                }
                let ts = crate::chars::chars_to_string(&t);
                match Item::parse(ts) {
                    Err(e) => {
                        return Err(e);
                    },
                    Ok((it, ws)) => {
                        crate::chars::append_strings(&mut warnings, &ws);
                        proof {
                            assert(warnings.deep_view() =~~= ws12 + ws.deep_view());
                        }
                        Some(it)
                    },
                }
            },
        };
        let c: Vec<char> = match sc.cond {
            None => {
                return Err(ConfigError::ConditionNotFound(condition_str.to_owned()));
            },
            Some(c) => c,
        };
        let subject: Item = match subject_p {
            None => {
                return Err(ConfigError::ConditionItemNotFound(condition_str.to_owned()));
            },
            Some(x) => x,
        };
        let then_i: Item = match then_p {
            None => {
                return Err(ConfigError::ThenItemNotFound(condition_str.to_owned()));
            },
            Some(x) => x,
        };
        proof {
            assert(stv.cond == Some(c@));
            assert(c@.len() < s.len());
            let els_iv: Option<ItemV> = match &else_p {
                Some(e) => Some(e@),
                None => None,
            };
            assert(spec_parse_condition(s) == spec_parse_operator_result(
                c@,
                subject@,
                then_i@,
                els_iv,
                warnings.deep_view(),
            ));
        }
        parse_operator(c, subject, then_i, else_p, warnings)
    }
}

/// Matches the operator text of a conditional against the operator
/// vocabulary and builds the `If` item.
#[verifier::rlimit(100)]
fn parse_operator(
    c: Vec<char>,
    subject: Item,
    then_i: Item,
    else_p: Option<Item>,
    warnings: Vec<String>,
) -> (r: Result<(Item, Vec<String>), ConfigError>)
    ensures
        match r {
            Ok(p) => spec_parse_operator_result(
                c@,
                subject@,
                then_i@,
                (match else_p {
                    Some(e) => Some(e@),
                    None => None,
                }),
                warnings.deep_view(),
            ) == Ok::<_, ConfigErrV>((p.0@, p.1.deep_view())),
            Err(e) => spec_parse_operator_result(
                c@,
                subject@,
                then_i@,
                (match else_p {
                    Some(e) => Some(e@),
                    None => None,
                }),
                warnings.deep_view(),
            ) == Err::<(ItemV, Seq<Seq<char>>), _>(e@),
        },
    decreases c@.len(), 2int,
{
    let ghost els_iv: Option<ItemV> = match &else_p {
        Some(e) => Some(e@),
        None => None,
    };
    let else_b: Option<Box<Item>> = match else_p {
        Some(e) => Some(Box::new(e)),
        None => None,
    };
    proof {
        reveal_with_fuel(view_item, 3);
        reveal_with_fuel(view_cond, 3);
        assert(box_opt(els_iv) == (match else_b {
            Some(b) => Some(Box::new(view_item(*b))),
            None => None,
        }));
    }
    if crate::chars::has_prefix_exec(&c, &crate::chars::str_to_chars("IS_EMPTY")) {
        return Ok((Item::If(Condition::IsEmpty(Box::new(subject)), Box::new(then_i), else_b), warnings));
    }
    if crate::chars::has_prefix_exec(&c, &crate::chars::str_to_chars("IS_NOT_EMPTY")) {
        return Ok((Item::If(Condition::IsNotEmpty(Box::new(subject)), Box::new(then_i), else_b), warnings));
    }
    if crate::chars::has_prefix_exec(&c, &crate::chars::str_to_chars("IS_NUMERIC")) {
        return Ok((Item::If(Condition::IsNumeric(Box::new(subject)), Box::new(then_i), else_b), warnings));
    }
    let mut pipe: Vec<char> = Vec::new();
    pipe.push('|');
    proof {
        assert(pipe@ =~= seq!['|']);
    }
    if crate::chars::has_prefix_exec(&c, &crate::chars::str_to_chars("STARTS_WITH")) {
        match crate::chars::find_sub(&c, &pipe) {
            None => {
                return Err(ConfigError::NeedleMissing(crate::chars::chars_to_string(&c)));
            },
            Some(i) => {
                proof {
                    crate::chars::lemma_find_characterization(c@, pipe@);
                    assert(crate::chars::match_at(c@, pipe@, i as int));
                }
                let cl = c.len();
                proof {
                    assert(i + 1 <= cl);
                }
                let needle = crate::chars::subrange_chars(&c, i + 1, cl);
                return Ok(
                    (
                        Item::If(
                            Condition::StartesWith(
                                crate::chars::chars_to_string(&needle),
                                Box::new(subject),
                            ),
                            Box::new(then_i),
                            else_b,
                        ),
                        warnings,
                    ),
                );
            },
        }
    }
    if crate::chars::has_prefix_exec(&c, &crate::chars::str_to_chars("ENDS_WITH")) {
        match crate::chars::find_sub(&c, &pipe) {
            None => {
                return Err(ConfigError::NeedleMissing(crate::chars::chars_to_string(&c)));
            },
            Some(i) => {
                proof {
                    crate::chars::lemma_find_characterization(c@, pipe@);
                    assert(crate::chars::match_at(c@, pipe@, i as int));
                }
                let cl = c.len();
                proof {
                    assert(i + 1 <= cl);
                }
                let needle = crate::chars::subrange_chars(&c, i + 1, cl);
                return Ok(
                    (
                        Item::If(
                            Condition::EndsWith(
                                crate::chars::chars_to_string(&needle),
                                Box::new(subject),
                            ),
                            Box::new(then_i),
                            else_b,
                        ),
                        warnings,
                    ),
                );
            },
        }
    }
    if crate::chars::has_prefix_exec(&c, &crate::chars::str_to_chars("CONTAINS")) {
        match crate::chars::find_sub(&c, &pipe) {
            None => {
                return Err(ConfigError::NeedleMissing(crate::chars::chars_to_string(&c)));
            },
            Some(i) => {
                proof {
                    crate::chars::lemma_find_characterization(c@, pipe@);
                    assert(crate::chars::match_at(c@, pipe@, i as int));
                }
                let cl = c.len();
                proof {
                    assert(i + 1 <= cl);
                }
                let needle = crate::chars::subrange_chars(&c, i + 1, cl);
                return Ok(
                    (
                        Item::If(
                            Condition::Contains(
                                crate::chars::chars_to_string(&needle),
                                Box::new(subject),
                            ),
                            Box::new(then_i),
                            else_b,
                        ),
                        warnings,
                    ),
                );
            },
        }
    }
    proof {
        assert((match else_b {
            Some(b) => Some(view_item(*b)),
            None => None,
        }) == els_iv);
    }
    parse_operator_cmp(c, subject, then_i, else_b, warnings)
}

/// Matches the comparison operators of a conditional.
#[verifier::rlimit(100)]
fn parse_operator_cmp(
    c: Vec<char>,
    subject: Item,
    then_i: Item,
    else_b: Option<Box<Item>>,
    warnings: Vec<String>,
) -> (r: Result<(Item, Vec<String>), ConfigError>)
    requires
        !has_prefix(c@, "IS_EMPTY"@),
        !has_prefix(c@, "IS_NOT_EMPTY"@),
        !has_prefix(c@, "IS_NUMERIC"@),
        !has_prefix(c@, "STARTS_WITH"@),
        !has_prefix(c@, "ENDS_WITH"@),
        !has_prefix(c@, "CONTAINS"@),
    ensures
        match r {
            Ok(p) => spec_parse_operator_result(
                c@,
                subject@,
                then_i@,
                (match else_b {
                    Some(b) => Some(view_item(*b)),
                    None => None,
                }),
                warnings.deep_view(),
            ) == Ok::<_, ConfigErrV>((p.0@, p.1.deep_view())),
            Err(e) => spec_parse_operator_result(
                c@,
                subject@,
                then_i@,
                (match else_b {
                    Some(b) => Some(view_item(*b)),
                    None => None,
                }),
                warnings.deep_view(),
            ) == Err::<(ItemV, Seq<Seq<char>>), _>(e@),
        },
    decreases c@.len(), 1int,
{
    let ghost els_iv: Option<ItemV> = match &else_b {
        Some(b) => Some(view_item(**b)),
        None => None,
    };
    proof {
        reveal_with_fuel(view_item, 3);
        reveal_with_fuel(view_cond, 3);
        assert(box_opt(els_iv) == (match else_b {
            Some(b) => Some(Box::new(view_item(*b))),
            None => None,
        }));
    }
    if crate::chars::has_prefix_exec(&c, &crate::chars::str_to_chars("==")) {
        proof {
            reveal_strlit("==");
        }
        if c.len() < 3 {
            return Err(ConfigError::ComparisonMissing(crate::chars::chars_to_string(&c)));
        }
        let op_t = if c[2] == ' ' {
            crate::chars::subrange_chars(&c, 3, c.len())
        } else {
            crate::chars::subrange_chars(&c, 2, c.len())
        };
        match Item::parse(crate::chars::chars_to_string(&op_t)) {
            Err(e) => {
                return Err(e);
            },
            Ok((op, ws4)) => {
                let mut warnings = warnings;
                let ghost ws0 = warnings.deep_view();
                crate::chars::append_strings(&mut warnings, &ws4);
                proof {
                    assert(warnings.deep_view() =~~= ws0 + ws4.deep_view());
                }
                return Ok(
                    (
                        Item::If(
                            Condition::Equals(Box::new(op), Box::new(subject)),
                            Box::new(then_i),
                            else_b,
                        ),
                        warnings,
                    ),
                );
            },
        }
    }
    if crate::chars::has_prefix_exec(&c, &crate::chars::str_to_chars("!=")) {
        proof {
            reveal_strlit("!=");
        }
        if c.len() < 3 {
            return Err(ConfigError::ComparisonMissing(crate::chars::chars_to_string(&c)));
        }
        let op_t = if c[2] == ' ' {
            crate::chars::subrange_chars(&c, 3, c.len())
        } else {
            crate::chars::subrange_chars(&c, 2, c.len())
        };
        match Item::parse(crate::chars::chars_to_string(&op_t)) {
            Err(e) => {
                return Err(e);
            },
            Ok((op, ws4)) => {
                let mut warnings = warnings;
                let ghost ws0 = warnings.deep_view();
                crate::chars::append_strings(&mut warnings, &ws4);
                proof {
                    assert(warnings.deep_view() =~~= ws0 + ws4.deep_view());
                }
                return Ok(
                    (
                        Item::If(
                            Condition::NotEquals(Box::new(op), Box::new(subject)),
                            Box::new(then_i),
                            else_b,
                        ),
                        warnings,
                    ),
                );
            },
        }
    }
    if crate::chars::has_prefix_exec(&c, &crate::chars::str_to_chars(">")) {
        proof {
            reveal_strlit(">");
            lemma_trim_le(c@.subrange(1, c@.len() as int));
        }
        let tail = crate::chars::subrange_chars(&c, 1, c.len());
        let op_t = crate::chars::trim_chars(&tail);
        match Item::parse(crate::chars::chars_to_string(&op_t)) {
            Err(e) => {
                return Err(e);
            },
            Ok((op, ws4)) => {
                let mut warnings = warnings;
                let ghost ws0 = warnings.deep_view();
                crate::chars::append_strings(&mut warnings, &ws4);
                proof {
                    assert(warnings.deep_view() =~~= ws0 + ws4.deep_view());
                }
                return Ok(
                    (
                        Item::If(
                            Condition::GreaterThan(Box::new(op), Box::new(subject)),
                            Box::new(then_i),
                            else_b,
                        ),
                        warnings,
                    ),
                );
            },
        }
    }
    if crate::chars::has_prefix_exec(&c, &crate::chars::str_to_chars("<")) {
        proof {
            reveal_strlit("<");
            lemma_trim_le(c@.subrange(1, c@.len() as int));
        }
        let tail = crate::chars::subrange_chars(&c, 1, c.len());
        let op_t = crate::chars::trim_chars(&tail);
        match Item::parse(crate::chars::chars_to_string(&op_t)) {
            Err(e) => {
                return Err(e);
            },
            Ok((op, ws4)) => {
                let mut warnings = warnings;
                let ghost ws0 = warnings.deep_view();
                crate::chars::append_strings(&mut warnings, &ws4);
                proof {
                    assert(warnings.deep_view() =~~= ws0 + ws4.deep_view());
                }
                return Ok(
                    (
                        Item::If(
                            Condition::LessThan(Box::new(op), Box::new(subject)),
                            Box::new(then_i),
                            else_b,
                        ),
                        warnings,
                    ),
                );
            },
        }
    }
    parse_operator_rest(c, subject, then_i, else_b, warnings)
}

/// Matches the modulo operator of a conditional; anything else is an
/// unknown operator.
#[verifier::rlimit(100)]
fn parse_operator_rest(
    c: Vec<char>,
    subject: Item,
    then_i: Item,
    else_b: Option<Box<Item>>,
    warnings: Vec<String>,
) -> (r: Result<(Item, Vec<String>), ConfigError>)
    requires
        !has_prefix(c@, "IS_EMPTY"@),
        !has_prefix(c@, "IS_NOT_EMPTY"@),
        !has_prefix(c@, "IS_NUMERIC"@),
        !has_prefix(c@, "STARTS_WITH"@),
        !has_prefix(c@, "ENDS_WITH"@),
        !has_prefix(c@, "CONTAINS"@),
        !has_prefix(c@, "=="@),
        !has_prefix(c@, "!="@),
        !has_prefix(c@, ">"@),
        !has_prefix(c@, "<"@),
    ensures
        match r {
            Ok(p) => spec_parse_operator_result(
                c@,
                subject@,
                then_i@,
                (match else_b {
                    Some(b) => Some(view_item(*b)),
                    None => None,
                }),
                warnings.deep_view(),
            ) == Ok::<_, ConfigErrV>((p.0@, p.1.deep_view())),
            Err(e) => spec_parse_operator_result(
                c@,
                subject@,
                then_i@,
                (match else_b {
                    Some(b) => Some(view_item(*b)),
                    None => None,
                }),
                warnings.deep_view(),
            ) == Err::<(ItemV, Seq<Seq<char>>), _>(e@),
        },
{
    let ghost els_iv: Option<ItemV> = match &else_b {
        Some(b) => Some(view_item(**b)),
        None => None,
    };
    proof {
        reveal_with_fuel(view_item, 3);
        reveal_with_fuel(view_cond, 3);
        assert(box_opt(els_iv) == (match else_b {
            Some(b) => Some(Box::new(view_item(*b))),
            None => None,
        }));
    }
    if crate::chars::has_prefix_exec(&c, &crate::chars::str_to_chars("%")) {
        let mut pct: Vec<char> = Vec::new();
        pct.push('%');
        let empty: Vec<char> = Vec::new();
        let mut two_sp: Vec<char> = Vec::new();
        two_sp.push(' ');
        two_sp.push(' ');
        let mut one_sp: Vec<char> = Vec::new();
        one_sp.push(' ');
        proof {
            assert(pct@ =~= seq!['%']);
            assert(empty@ =~= Seq::<char>::empty());
            assert(two_sp@ =~= seq![' ', ' ']);
            assert(one_sp@ =~= seq![' ']);
        }
        let stripped = crate::chars::replace_chars(&c, &pct, &empty);
        let m = crate::chars::replace_chars(&stripped, &two_sp, &one_sp);
        let mut eq_c: Vec<char> = Vec::new();
        eq_c.push('=');
        proof {
            assert(eq_c@ =~= seq!['=']);
        }
        match crate::chars::find_sub(&m, &eq_c) {
            None => {
                return Err(ConfigError::ModuloUsage(crate::chars::chars_to_string(&m)));
            },
            Some(i) => {
                proof {
                    crate::chars::lemma_find_characterization(m@, eq_c@);
                    assert(crate::chars::match_at(m@, eq_c@, i as int));
                }
                let ml = m.len();
                proof {
                    assert(i + 1 <= ml);
                }
                let left_raw = crate::chars::subrange_chars(&m, 0, i);
                let right_raw = crate::chars::subrange_chars(&m, i + 1, ml);
                let left = crate::chars::trim_chars(&left_raw);
                let right = crate::chars::trim_chars(&right_raw);
                match Number::from_chars(&left) {
                    None => {
                        return Err(ConfigError::ModuloDivisor(crate::chars::chars_to_string(&left)));
                    },
                    Some(d) => {
                        match Number::from_chars(&right) {
                            None => {
                                return Err(
                                    ConfigError::ModuloRemainder(
                                        crate::chars::chars_to_string(&right),
                                    ),
                                );
                            },
                            Some(rr) => {
                                return Ok(
                                    (
                                        Item::If(
                                            Condition::Modulo(d, rr, Box::new(subject)),
                                            Box::new(then_i),
                                            else_b,
                                        ),
                                        warnings,
                                    ),
                                );
                            },
                        }
                    },
                }
            },
        }
    }
    Err(ConfigError::UnknownOperator(crate::chars::chars_to_string(&c)))
}

/// What an item resolves to against a row, when it stands as a condition
/// operand or a plain template cell: a literal is itself, a cell reference
/// is the indexed field piped through its filters, and a conditional is a
/// fault here.
pub open spec fn spec_get_val(item: ItemV, row: Seq<Seq<char>>) -> Result<Seq<char>, EvalErrV> {
    match item {
        ItemV::Value(v) => Ok(v),
        ItemV::Cell(i, fopt) => if i < row.len() {
            match fopt {
                None => Ok(row[i as int]),
                Some(fs) => Ok(crate::filter::spec_apply_filters(fs, row[i as int])),
            }
        } else {
            Err(EvalErrV::CellNotFound(i))
        },
        ItemV::If(c, t, e) => Err(EvalErrV::NestedIf),
    }
}

/// Whether a condition holds against a row, or the fault its evaluation
/// raises. Subjects and operands resolve through [`spec_get_val`]; the
/// ordered comparisons and the modulo test read their operands in the
/// decimal grammar and fail on anything else.
pub open spec fn spec_cond_test(c: CondV, row: Seq<Seq<char>>) -> Result<bool, EvalErrV> {
    match c {
        CondV::IsEmpty(it) => match spec_get_val(*it, row) {
            Err(e) => Err(e),
            Ok(v) => Ok(v.len() == 0),
        },
        CondV::IsNotEmpty(it) => match spec_get_val(*it, row) {
            Err(e) => Err(e),
            Ok(v) => Ok(v.len() != 0),
        },
        CondV::IsNumeric(it) => match spec_get_val(*it, row) {
            Err(e) => Err(e),
            Ok(v) => Ok(crate::num::is_numeric_str(v)),
        },
        CondV::StartesWith(needle, it) => match spec_get_val(*it, row) {
            Err(e) => Err(e),
            Ok(v) => Ok(has_prefix(v, needle)),
        },
        CondV::EndsWith(needle, it) => match spec_get_val(*it, row) {
            Err(e) => Err(e),
            Ok(v) => Ok(crate::chars::has_suffix(v, needle)),
        },
        CondV::Contains(needle, it) => match spec_get_val(*it, row) {
            Err(e) => Err(e),
            Ok(v) => Ok(crate::chars::seq_contains(v, needle)),
        },
        CondV::Equals(a, b) => match spec_get_val(*a, row) {
            Err(e) => Err(e),
            Ok(va) => match spec_get_val(*b, row) {
                Err(e) => Err(e),
                Ok(vb) => Ok(va == vb),
            },
        },
        CondV::NotEquals(a, b) => match spec_get_val(*a, row) {
            Err(e) => Err(e),
            Ok(va) => match spec_get_val(*b, row) {
                Err(e) => Err(e),
                Ok(vb) => Ok(va != vb),
            },
        },
        CondV::GreaterThan(b, a) => match spec_get_val(*a, row) {
            Err(e) => Err(e),
            Ok(va) => match spec_get_val(*b, row) {
                Err(e) => Err(e),
                Ok(vb) => match spec_parse_number(va) {
                    None => Err(EvalErrV::GreaterLeftNotNumeric(va)),
                    Some(na) => match spec_parse_number(vb) {
                        None => Err(EvalErrV::GreaterRightNotNumeric(vb)),
                        Some(nb) => Ok(crate::num::num_lt(nb, na)),
                    },
                },
            },
        },
        CondV::LessThan(b, a) => match spec_get_val(*a, row) {
            Err(e) => Err(e),
            Ok(va) => match spec_get_val(*b, row) {
                Err(e) => Err(e),
                Ok(vb) => match spec_parse_number(va) {
                    None => Err(EvalErrV::LessLeftNotNumeric(va)),
                    Some(na) => match spec_parse_number(vb) {
                        None => Err(EvalErrV::LessRightNotNumeric(vb)),
                        Some(nb) => Ok(crate::num::num_lt(na, nb)),
                    },
                },
            },
        },
        CondV::Modulo(d, r, it) => match spec_get_val(*it, row) {
            Err(e) => Err(e),
            Ok(v) => match spec_parse_number(v) {
                None => Err(EvalErrV::ModuloNotNumeric(v)),
                Some(n) => Ok(crate::num::num_mod_eq(n, d, r)),
            },
        },
    }
}

/// What a conditional yields against a row: the then item's value when the
/// condition holds, otherwise the else item's value, or the empty string
/// when there is no else item.
pub open spec fn spec_cond_run(
    c: CondV,
    then_i: ItemV,
    els: Option<ItemV>,
    row: Seq<Seq<char>>,
) -> Result<Seq<char>, EvalErrV> {
    match spec_cond_test(c, row) {
        Err(e) => Err(e),
        Ok(true) => spec_get_val(then_i, row),
        Ok(false) => match els {
            None => Ok(Seq::empty()),
            Some(e) => spec_get_val(e, row),
        },
    }
}

impl Condition {
    /// Resolves a condition operand or a plain template cell against a
    /// row.
    pub fn get_val_from_item(item: &Item, input_line: &Vec<String>) -> (r: Result<
        String,
        EvalError,
    >)
        ensures
            match r {
                Ok(v) => spec_get_val(item@, input_line.deep_view()) == Ok::<_, EvalErrV>(v@),
                Err(e) => spec_get_val(item@, input_line.deep_view()) == Err::<Seq<char>, _>(e@),
            },
    {
        match item {
            Item::Value(v) => Ok(v.clone()),
            Item::Cell(i, filters) => {
                if *i < input_line.len() {
                    let base = input_line[*i].clone();
                    proof {
                        assert(input_line.deep_view()[*i as int] =~~= input_line@[*i as int]@);
                    }
                    match filters {
                        None => Ok(base),
                        Some(fs) => Ok(crate::filter::apply_filters(fs, base)),
                    }
                } else {
                    Err(EvalError::CellNotFound(*i))
                }
            },
            Item::If(_, _, _) => Err(EvalError::NestedIf),
        }
    }

    /// Evaluates this condition against a row and yields the then item's
    /// value when it holds, otherwise the else item's value, or the empty
    /// string when there is no else item.
    pub fn run(
        &self,
        then_item: &Item,
        else_item: &Option<Box<Item>>,
        input_line: &Vec<String>,
    ) -> (r: Result<String, EvalError>)
        ensures
            match r {
                Ok(v) => spec_cond_run(
                    self@,
                    then_item@,
                    (match else_item {
                        Some(b) => Some((**b)@),
                        None => None,
                    }),
                    input_line.deep_view(),
                ) == Ok::<_, EvalErrV>(v@),
                Err(e) => spec_cond_run(
                    self@,
                    then_item@,
                    (match else_item {
                        Some(b) => Some((**b)@),
                        None => None,
                    }),
                    input_line.deep_view(),
                ) == Err::<Seq<char>, _>(e@),
            },
    {
        proof {
            reveal_with_fuel(view_item, 2);
            reveal_with_fuel(view_cond, 2);
        }
        let test: bool = match self {
            Condition::IsEmpty(cell) => {
                match Self::get_val_from_item(cell, input_line) {
                    Err(e) => {
                        return Err(e);
                    },
                    Ok(v) => v.as_str().unicode_len() == 0,
                }
            },
            Condition::IsNotEmpty(cell) => {
                match Self::get_val_from_item(cell, input_line) {
                    Err(e) => {
                        return Err(e);
                    },
                    Ok(v) => v.as_str().unicode_len() != 0,
                }
            },
            Condition::IsNumeric(cell) => {
                match Self::get_val_from_item(cell, input_line) {
                    Err(e) => {
                        return Err(e);
                    },
                    Ok(v) => Number::from_decimal_str(v.as_str()).is_some(),
                }
            },
            Condition::StartesWith(needle, cell) => {
                match Self::get_val_from_item(cell, input_line) {
                    Err(e) => {
                        return Err(e);
                    },
                    Ok(v) => {
                        let vc = crate::chars::str_to_chars(v.as_str());
                        let nc = crate::chars::str_to_chars(needle.as_str());
                        crate::chars::has_prefix_exec(&vc, &nc)
                    },
                }
            },
            Condition::EndsWith(needle, cell) => {
                match Self::get_val_from_item(cell, input_line) {
                    Err(e) => {
                        return Err(e);
                    },
                    Ok(v) => {
                        let vc = crate::chars::str_to_chars(v.as_str());
                        let nc = crate::chars::str_to_chars(needle.as_str());
                        crate::chars::has_suffix_exec(&vc, &nc)
                    },
                }
            },
            Condition::Contains(needle, cell) => {
                match Self::get_val_from_item(cell, input_line) {
                    Err(e) => {
                        return Err(e);
                    },
                    Ok(v) => {
                        let vc = crate::chars::str_to_chars(v.as_str());
                        let nc = crate::chars::str_to_chars(needle.as_str());
                        crate::chars::contains_sub(&vc, &nc)
                    },
                }
            },
            Condition::Equals(cell_a, cell_b) => {
                let va = match Self::get_val_from_item(cell_a, input_line) {
                    Err(e) => {
                        return Err(e);
                    },
                    Ok(v) => v,
                };
                let vb = match Self::get_val_from_item(cell_b, input_line) {
                    Err(e) => {
                        return Err(e);
                    },
                    Ok(v) => v,
                };
                crate::chars::str_eq(va.as_str(), vb.as_str())
            },
            Condition::NotEquals(cell_a, cell_b) => {
                let va = match Self::get_val_from_item(cell_a, input_line) {
                    Err(e) => {
                        return Err(e);
                    },
                    Ok(v) => v,
                };
                let vb = match Self::get_val_from_item(cell_b, input_line) {
                    Err(e) => {
                        return Err(e);
                    },
                    Ok(v) => v,
                };
                !crate::chars::str_eq(va.as_str(), vb.as_str())
            },
            Condition::GreaterThan(cell_b, cell_a) => {
                let va = match Self::get_val_from_item(cell_a, input_line) {
                    Err(e) => {
                        return Err(e);
                    },
                    Ok(v) => v,
                };
                let vb = match Self::get_val_from_item(cell_b, input_line) {
                    Err(e) => {
                        return Err(e);
                    },
                    Ok(v) => v,
                };
                let na = match Number::from_decimal_str(va.as_str()) {
                    None => {
                        return Err(EvalError::GreaterLeftNotNumeric(va));
                    },
                    Some(n) => n,
                };
                let nb = match Number::from_decimal_str(vb.as_str()) {
                    None => {
                        return Err(EvalError::GreaterRightNotNumeric(vb));
                    },
                    Some(n) => n,
                };
                na.gt(&nb)
            },
            Condition::LessThan(cell_b, cell_a) => {
                let va = match Self::get_val_from_item(cell_a, input_line) {
                    Err(e) => {
                        return Err(e);
                    },
                    Ok(v) => v,
                };
                let vb = match Self::get_val_from_item(cell_b, input_line) {
                    Err(e) => {
                        return Err(e);
                    },
                    Ok(v) => v,
                };
                let na = match Number::from_decimal_str(va.as_str()) {
                    None => {
                        return Err(EvalError::LessLeftNotNumeric(va));
                    },
                    Some(n) => n,
                };
                let nb = match Number::from_decimal_str(vb.as_str()) {
                    None => {
                        return Err(EvalError::LessRightNotNumeric(vb));
                    },
                    Some(n) => n,
                };
                na.lt(&nb)
            },
            Condition::Modulo(divisor, remainder, cell) => {
                let v = match Self::get_val_from_item(cell, input_line) {
                    Err(e) => {
                        return Err(e);
                    },
                    Ok(v) => v,
                };
                let n = match Number::from_decimal_str(v.as_str()) {
                    None => {
                        return Err(EvalError::ModuloNotNumeric(v));
                    },
                    Some(n) => n,
                };
                n.mod_eq(divisor, remainder)
            },
        };
        if test {
            Self::get_val_from_item(then_item, input_line)
        } else {
            match else_item {
                None => {
                    let r = String::new();
                    Ok(r)
                },
                Some(e) => Self::get_val_from_item(&**e, input_line),
            }
        }
    }
}

/// The mathematical content of an [`OutputConfig`].
pub struct OutputConfigV {
    pub heading: Seq<char>,
    pub lines: Seq<Seq<ItemV>>,
}

/// The items of one template row, read from its cells in order, with the
/// warnings gathered so far; or the first fault.
pub open spec fn spec_parse_row_items(
    cells: Seq<Seq<char>>,
    items: Seq<ItemV>,
    ws: Seq<Seq<char>>,
) -> Result<(Seq<ItemV>, Seq<Seq<char>>), ConfigErrV>
    decreases cells.len(),
{
    if cells.len() == 0 {
        Ok((items, ws))
    } else {
        match spec_parse_item(cells[0]) {
            Err(e) => Err(e),
            Ok((it, w)) => spec_parse_row_items(cells.drop_first(), items.push(it), ws + w),
        }
    }
}

/// The templates read from configuration rows in order, with the warnings
/// gathered so far; or the first fault.
pub open spec fn spec_parse_config_lines(
    rows: Seq<Seq<Seq<char>>>,
    lines: Seq<Seq<ItemV>>,
    ws: Seq<Seq<char>>,
) -> Result<(Seq<Seq<ItemV>>, Seq<Seq<char>>), ConfigErrV>
    decreases rows.len(),
{
    if rows.len() == 0 {
        Ok((lines, ws))
    } else {
        match spec_parse_row_items(rows[0], Seq::empty(), Seq::empty()) {
            Err(e) => Err(e),
            Ok((items, w)) => spec_parse_config_lines(rows.drop_first(), lines.push(items), ws + w),
        }
    }
}

/// What configuration rows mean: the first row, written back as one line
/// of comma-separated text and trimmed, is the output heading; every later
/// row is one output-row template whose cells are items.
pub open spec fn spec_output_config(rows: Seq<Seq<Seq<char>>>) -> Result<
    (OutputConfigV, Seq<Seq<char>>),
    ConfigErrV,
> {
    if rows.len() == 0 {
        Ok((OutputConfigV { heading: Seq::empty(), lines: Seq::empty() }, Seq::empty()))
    } else {
        let heading = spec_trim(crate::csv::spec_export(seq![rows[0]]));
        match spec_parse_config_lines(rows.subrange(1, rows.len() as int), Seq::empty(), Seq::empty()) {
            Err(e) => Err(e),
            Ok((lines, ws)) => Ok((OutputConfigV { heading, lines }, ws)),
        }
    }
}

/// A parsed output configuration: the heading line and the output-row
/// templates, built once from configuration rows and read-only thereafter.
#[derive(Debug, PartialEq)]
pub struct OutputConfig {
    /// The output header line, already comma-separated and trimmed.
    pub heading: String,
    /// The output-row templates, one ordered sequence of items per output
    /// row.
    pub lines: Vec<Vec<Item>>,
}

impl View for OutputConfig {
    type V = OutputConfigV;

    open spec fn view(&self) -> OutputConfigV {
        OutputConfigV { heading: self.heading@, lines: self.lines.deep_view() }
    }
}

/// Clones a row of fields.
fn clone_strings(v: &Vec<String>) -> (r: Vec<String>)
    ensures
        r@ == v@,
{
    let mut r: Vec<String> = Vec::new();
    let mut i: usize = 0;
    while i < v.len()
        invariant
            i <= v@.len(),
            r@ =~= v@.take(i as int),
        decreases v@.len() - i,
    {
        r.push(v[i].clone());
        proof {
            assert(r@ =~= v@.take(i + 1 as int));
        }
        i = i + 1;
    }
    proof {
        assert(v@.take(v@.len() as int) =~= v@);
    }
    r
}

impl OutputConfig {
    /// Builds the configuration from its rows: the first row becomes the
    /// heading, every later row one template. Returns the unrecognized
    /// filter tokens that were dropped along the way, or the first fault.
    pub fn new(rows: Vec<Vec<String>>) -> (r: Result<(OutputConfig, Vec<String>), ConfigError>)
        ensures
            match r {
                Ok(p) => spec_output_config(rows.deep_view()) == Ok::<_, ConfigErrV>(
                    (p.0@, p.1.deep_view()),
                ),
                Err(e) => spec_output_config(rows.deep_view()) == Err::<
                    (OutputConfigV, Seq<Seq<char>>),
                    _,
                >(e@),
            },
    {
        let ghost all = rows.deep_view();
        if rows.len() == 0 {
            let cfg = OutputConfig { heading: String::new(), lines: Vec::new() };
            let ws: Vec<String> = Vec::new();
            proof {
                assert(cfg@.lines =~~= Seq::<Seq<ItemV>>::empty());
                assert(ws.deep_view() =~~= Seq::<Seq<char>>::empty());
            }
            return Ok((cfg, ws));
        }
        let mut first: Vec<Vec<String>> = Vec::new();
        first.push(clone_strings(&rows[0]));
        proof {
            assert(first.deep_view() =~~= seq![all[0]]);
        }
        let mut heading = String::new();
        crate::csv::export(&first, &mut heading);
        let hv = crate::chars::str_to_chars(heading.as_str());
        let ht = crate::chars::trim_chars(&hv);
        let heading = crate::chars::chars_to_string(&ht);
        let ghost goal = spec_parse_config_lines(
            all.subrange(1, all.len() as int),
            Seq::empty(),
            Seq::empty(),
        );
        let mut lines: Vec<Vec<Item>> = Vec::new();
        let mut warnings: Vec<String> = Vec::new();
        let n = rows.len();
        let mut i: usize = 1;
        proof {
            assert(all.subrange(1, all.len() as int).skip(0) =~= all.subrange(
                1,
                all.len() as int,
            ));
            assert(lines.deep_view() =~~= Seq::<Seq<ItemV>>::empty());
            assert(warnings.deep_view() =~~= Seq::<Seq<char>>::empty());
        }
        while i < n
            invariant
                1 <= i <= n,
                n == rows@.len(),
                all == rows.deep_view(),
                goal == spec_parse_config_lines(
                    all.subrange(1, all.len() as int),
                    Seq::empty(),
                    Seq::empty(),
                ),
                goal == spec_parse_config_lines(
                    all.subrange(i as int, all.len() as int),
                    lines.deep_view(),
                    warnings.deep_view(),
                ),
            decreases n - i,
        {
            let ghost rest = all.subrange(i as int, all.len() as int);
            proof {
                assert(rest[0] == all[i as int]);
                assert(rest.drop_first() =~= all.subrange(i + 1 as int, all.len() as int));
                assert(all[i as int] =~~= rows@[i as int].deep_view());
            }
            let ghost old_lines = lines.deep_view();
            let ghost old_warnings = warnings.deep_view();
            match parse_row_items(&rows[i]) {
                Err(e) => {
                    return Err(e);
                },
                Ok((items, row_ws)) => {
                    lines.push(items);
                    crate::chars::append_strings(&mut warnings, &row_ws);
                    proof {
                        assert(lines.deep_view() =~~= old_lines.push(
                            spec_parse_row_items(all[i as int], Seq::empty(), Seq::empty())->Ok_0.0,
                        ));
                        assert(warnings.deep_view() =~~= old_warnings + spec_parse_row_items(
                            all[i as int],
                            Seq::empty(),
                            Seq::empty(),
                        )->Ok_0.1);
                    }
                },
            }
            i = i + 1;
        }
        proof {
            assert(all.subrange(n as int, all.len() as int) =~= Seq::<Seq<Seq<char>>>::empty());
        }
        Ok((OutputConfig { heading, lines }, warnings))
    }
}

/// Reads the cells of one template row into items, in order, together with
/// the unrecognized filter tokens that were dropped.
fn parse_row_items(row: &Vec<String>) -> (r: Result<(Vec<Item>, Vec<String>), ConfigError>)
    ensures
        match r {
            Ok(p) => spec_parse_row_items(row.deep_view(), Seq::empty(), Seq::empty()) == Ok::<
                _,
                ConfigErrV,
            >((p.0.deep_view(), p.1.deep_view())),
            Err(e) => spec_parse_row_items(row.deep_view(), Seq::empty(), Seq::empty()) == Err::<
                (Seq<ItemV>, Seq<Seq<char>>),
                _,
            >(e@),
        },
{
    let ghost cells = row.deep_view();
    let m = row.len();
    let mut items: Vec<Item> = Vec::new();
    let mut row_ws: Vec<String> = Vec::new();
    let mut k: usize = 0;
    proof {
        assert(cells.skip(0) =~= cells);
        assert(items.deep_view() =~~= Seq::<ItemV>::empty());
        assert(row_ws.deep_view() =~~= Seq::<Seq<char>>::empty());
    }
    while k < m
        invariant
            k <= m,
            m == row@.len(),
            cells == row.deep_view(),
            spec_parse_row_items(cells, Seq::empty(), Seq::empty()) == spec_parse_row_items(
                cells.skip(k as int),
                items.deep_view(),
                row_ws.deep_view(),
            ),
        decreases m - k,
    {
        let ghost crest = cells.skip(k as int);
        proof {
            assert(crest[0] == cells[k as int]);
            assert(crest.drop_first() =~= cells.skip(k + 1 as int));
            assert(cells[k as int] =~~= row@[k as int]@);
        }
        let ghost old_items = items.deep_view();
        let ghost old_ws = row_ws.deep_view();
        match Item::parse(row[k].clone()) {
            Err(e) => {
                return Err(e);
            },
            Ok((it, ws)) => {
                items.push(it);
                crate::chars::append_strings(&mut row_ws, &ws);
                proof {
                    assert(items.deep_view() =~~= old_items.push(it@));
                    assert(row_ws.deep_view() =~~= old_ws + ws.deep_view());
                }
            },
        }
        k = k + 1;
    }
    proof {
        assert(cells.skip(m as int) =~= Seq::<Seq<char>>::empty());
    }
    Ok((items, row_ws))
}


} // verus!
