//! String filters: named transforms piped onto a cell reference.
//!
//! Filter text such as `UPPER_CASE REPLACE|'a'|'b'` is tokenized on spaces
//! that stand outside single quotes (a backslash escapes the next quote or
//! backslash), and each token names one filter with its pipe-delimited
//! arguments. Unrecognized tokens are not an error: they are returned to
//! the caller and dropped from the chain.

use vstd::prelude::*;

use crate::chars::chars_to_string;
use crate::chars::dec_str;
use crate::chars::has_prefix;
use crate::chars::has_prefix_exec;
use crate::chars::lemma_find_characterization;
use crate::chars::match_at;
use crate::chars::parse_usize_chars;
use crate::chars::replace_chars;
use crate::chars::spec_parse_usize;
use crate::chars::spec_replace;
use crate::chars::spec_split;
use crate::chars::spec_split_nth;
use crate::chars::spec_substring;
use crate::chars::spec_trim;
use crate::chars::spec_trim_end;
use crate::chars::spec_trim_start;
use crate::chars::split_nth_chars;
use crate::chars::str_eq;
use crate::chars::str_to_chars;
use crate::chars::subrange_chars;
use crate::chars::substring_chars;
use crate::chars::trim_chars;
use crate::chars::trim_end_chars;
use crate::chars::trim_start_chars;
use crate::chars::upper_of;
use crate::chars::lower_of;
use crate::chars::upper_case;
use crate::chars::lower_case;
use crate::chars::usize_to_chars;
use crate::errors::ConfigErrV;
use crate::errors::ConfigError;

verus! {

/// The mathematical content of a [`Filter`].
pub enum FilterV {
    UpperCase,
    LowerCase,
    Length,
    Trim,
    TrimStart,
    TrimEnd,
    Replace(Seq<char>, Seq<char>),
    Append(Seq<char>),
    Prepend(Seq<char>),
    Split(Seq<char>, nat),
    SubString(nat, Option<nat>),
}

/// A pure string transform, applied to a cell value.
#[derive(Debug, Clone, PartialEq, Eq)]
pub enum Filter {
    /// Unicode uppercase mapping.
    UpperCase,
    /// Unicode lowercase mapping.
    LowerCase,
    /// The decimal character count.
    Length,
    /// Strips whitespace at both ends.
    Trim,
    /// Strips leading whitespace.
    TrimStart,
    /// Strips trailing whitespace.
    TrimEnd,
    /// Replaces every occurrence of the first text by the second.
    Replace(String, String),
    /// Concatenates the text after the value.
    Append(String),
    /// Concatenates the text before the value.
    Prepend(String),
    /// Splits on the text and keeps the zero-based indexed segment.
    Split(String, usize),
    /// Keeps the characters from a start position, optionally limited in
    /// length.
    SubString(usize, Option<usize>),
}

impl View for Filter {
    type V = FilterV;

    open spec fn view(&self) -> FilterV {
        match self {
            Filter::UpperCase => FilterV::UpperCase,
            Filter::LowerCase => FilterV::LowerCase,
            Filter::Length => FilterV::Length,
            Filter::Trim => FilterV::Trim,
            Filter::TrimStart => FilterV::TrimStart,
            Filter::TrimEnd => FilterV::TrimEnd,
            Filter::Replace(a, b) => FilterV::Replace(a@, b@),
            Filter::Append(a) => FilterV::Append(a@),
            Filter::Prepend(a) => FilterV::Prepend(a@),
            Filter::Split(d, i) => FilterV::Split(d@, *i as nat),
            Filter::SubString(s, l) => FilterV::SubString(
                *s as nat,
                match l {
                    Some(n) => Some(*n as nat),
                    None => None,
                },
            ),
        }
    }
}

impl DeepView for Filter {
    type V = FilterV;

    open spec fn deep_view(&self) -> FilterV {
        self.view()
    }
}

/// What one filter makes of a value.
pub open spec fn spec_filter_run(f: FilterV, s: Seq<char>) -> Seq<char> {
    match f {
        FilterV::UpperCase => upper_of(s),
        FilterV::LowerCase => lower_of(s),
        FilterV::Length => dec_str(s.len()),
        FilterV::Trim => spec_trim(s),
        FilterV::TrimStart => spec_trim_start(s),
        FilterV::TrimEnd => spec_trim_end(s),
        FilterV::Replace(a, b) => spec_replace(s, a, b),
        FilterV::Append(x) => s + x,
        FilterV::Prepend(x) => x + s,
        FilterV::Split(d, i) => spec_split_nth(s, d, i),
        FilterV::SubString(st, l) => spec_substring(s, st, l),
    }
}

/// What a chain of filters makes of a value, applied left to right.
pub open spec fn spec_apply_filters(fs: Seq<FilterV>, s: Seq<char>) -> Seq<char>
    decreases fs.len(),
{
    if fs.len() == 0 {
        s
    } else {
        spec_apply_filters(fs.drop_first(), spec_filter_run(fs[0], s))
    }
}

/// The scanner state while tokenizing filter text.
pub struct FiltScanV {
    pub in_quotes: bool,
    pub escaped: bool,
    pub buffer: Seq<char>,
    pub tokens: Seq<Seq<char>>,
}

/// The scanner state before any character.
pub open spec fn filt_scan_init() -> FiltScanV {
    FiltScanV { in_quotes: false, escaped: false, buffer: Seq::empty(), tokens: Seq::empty() }
}

/// One step of the filter tokenizer: quotes toggle, a backslash escapes the
/// next quote or backslash, and an unquoted space closes a token.
pub open spec fn filt_scan_step(st: FiltScanV, c: char) -> FiltScanV {
    if c == '\'' {
        if st.escaped {
            FiltScanV { buffer: st.buffer.push('\''), escaped: false, ..st }
        } else {
            FiltScanV { in_quotes: !st.in_quotes, ..st }
        }
    } else if c == '\\' {
        if st.escaped {
            FiltScanV { buffer: st.buffer.push('\\'), escaped: false, ..st }
        } else {
            FiltScanV { escaped: true, ..st }
        }
    } else if c == ' ' {
        if st.in_quotes {
            FiltScanV { buffer: st.buffer.push(' '), ..st }
        } else {
            FiltScanV {
                tokens: st.tokens.push(st.buffer),
                buffer: Seq::empty(),
                escaped: false,
                ..st
            }
        }
    } else {
        FiltScanV { escaped: false, buffer: st.buffer.push(c), ..st }
    }
}

/// The scanner state after all of `s`.
pub open spec fn filt_scan(s: Seq<char>) -> FiltScanV
    decreases s.len(),
{
    if s.len() == 0 {
        filt_scan_init()
    } else {
        filt_scan_step(filt_scan(s.drop_last()), s.last())
    }
}

/// The tokens of trimmed filter text, the pending buffer included.
pub open spec fn spec_tokenize(s: Seq<char>) -> Seq<Seq<char>> {
    let st = filt_scan(spec_trim(s));
    st.tokens.push(st.buffer)
}

/// Runs the filter tokenizer over already-trimmed text.
fn tokenize_filters(trimmed: &Vec<char>) -> (r: Vec<Vec<char>>)
    ensures
        r.deep_view() == filt_scan(trimmed@).tokens.push(filt_scan(trimmed@).buffer),
{
    let mut in_quotes = false;
    let mut escaped = false;
    let mut buffer: Vec<char> = Vec::new();
    let mut tokens: Vec<Vec<char>> = Vec::new();
    let n = trimmed.len();
    let mut i: usize = 0;
    proof {
        assert(trimmed@.take(0) =~= Seq::<char>::empty());
        assert(tokens.deep_view() =~~= Seq::<Seq<char>>::empty());
        assert(filt_scan(trimmed@.take(0)) == filt_scan_init());
    }
    while i < n
        invariant
            i <= n,
            n == trimmed@.len(),
            filt_scan(trimmed@.take(i as int)) == (FiltScanV {
                in_quotes,
                escaped,
                buffer: buffer@,
                tokens: tokens.deep_view(),
            }),
        decreases n - i,
    {
        let ghost st = filt_scan(trimmed@.take(i as int));
        let c = trimmed[i];
        proof {
            assert(trimmed@.take(i + 1 as int).drop_last() =~= trimmed@.take(i as int));
            assert(trimmed@.take(i + 1 as int).last() == c);
        }
        let ghost old_tokens = tokens.deep_view();
        if c == '\'' {
            if escaped {
                buffer.push('\'');
                escaped = false;
            } else {
                in_quotes = !in_quotes;
            }
        } else if c == '\\' {
            if escaped {
                buffer.push('\\');
                escaped = false;
            } else {
                escaped = true;
            }
        } else if c == ' ' {
            if in_quotes {
                buffer.push(' ');
            } else {
                tokens.push(buffer);
                buffer = Vec::new();
                escaped = false;
                proof {
                    assert(tokens.deep_view() =~~= filt_scan_step(st, c).tokens);
                }
            }
        } else {
            escaped = false;
            buffer.push(c);
        }
        proof {
            assert(filt_scan(trimmed@.take(i + 1 as int)) == filt_scan_step(st, c));
            assert(tokens.deep_view() =~~= filt_scan_step(st, c).tokens);
        }
        i = i + 1;
    }
    proof {
        assert(trimmed@.take(n as int) =~= trimmed@);
    }
    tokens.push(buffer);
    proof {
        assert(tokens.deep_view() =~~= filt_scan(trimmed@).tokens.push(filt_scan(trimmed@).buffer));
    }
    tokens
}

/// What one token of filter text means: a filter, `None` for an
/// unrecognized token, or a fault in the token's arguments.
pub open spec fn spec_parse_filter_token(t: Seq<char>) -> Result<Option<FilterV>, ConfigErrV> {
    if t == "UPPER_CASE"@ {
        Ok(Some(FilterV::UpperCase))
    } else if t == "LOWER_CASE"@ {
        Ok(Some(FilterV::LowerCase))
    } else if t == "LENGTH"@ {
        Ok(Some(FilterV::Length))
    } else if t == "TRIM"@ {
        Ok(Some(FilterV::Trim))
    } else if t == "TRIM_START"@ {
        Ok(Some(FilterV::TrimStart))
    } else if t == "TRIM_END"@ {
        Ok(Some(FilterV::TrimEnd))
    } else if has_prefix(t, "REPLACE"@) {
        let parts = spec_split(t, seq!['|']);
        if parts.len() != 3 {
            Err(ConfigErrV::ReplaceUsage(t))
        } else {
            Ok(Some(FilterV::Replace(parts[1], parts[2])))
        }
    } else if has_prefix(t, "APPEND"@) {
        let parts = spec_split(t, seq!['|']);
        if parts.len() != 2 {
            Err(ConfigErrV::AppendUsage(t))
        } else {
            Ok(Some(FilterV::Append(parts[1])))
        }
    } else if has_prefix(t, "PREPEND"@) {
        let parts = spec_split(t, seq!['|']);
        if parts.len() != 2 {
            Err(ConfigErrV::PrependUsage(t))
        } else {
            Ok(Some(FilterV::Prepend(parts[1])))
        }
    } else if has_prefix(t, "SPLIT"@) {
        let parts = spec_split(t, seq!['|']);
        if parts.len() != 3 {
            Err(ConfigErrV::SplitUsage(t))
        } else {
            match spec_parse_usize(parts[2]) {
                Some(n) => Ok(Some(FilterV::Split(parts[1], n as nat))),
                None => Err(ConfigErrV::SplitIndex(parts[2])),
            }
        }
    } else if has_prefix(t, "SUB_STRING"@) {
        let parts = spec_split(t, seq!['|']);
        if parts.len() != 2 && parts.len() != 3 {
            Err(ConfigErrV::SubStringUsage(t))
        } else {
            match spec_parse_usize(parts[1]) {
                None => Err(ConfigErrV::SubStringNumber(parts[1])),
                Some(st) => if parts.len() == 3 {
                    match spec_parse_usize(parts[2]) {
                        None => Err(ConfigErrV::SubStringNumber(parts[1])),
                        Some(l) => Ok(Some(FilterV::SubString(st as nat, Some(l as nat)))),
                    }
                } else {
                    Ok(Some(FilterV::SubString(st as nat, None)))
                },
            }
        }
    } else {
        Ok(None)
    }
}

/// What a token list means: the filters in order and the unrecognized
/// tokens in order, or the first fault.
pub open spec fn spec_parse_tokens(
    ts: Seq<Seq<char>>,
    fs: Seq<FilterV>,
    ws: Seq<Seq<char>>,
) -> Result<(Seq<FilterV>, Seq<Seq<char>>), ConfigErrV>
    decreases ts.len(),
{
    if ts.len() == 0 {
        Ok((fs, ws))
    } else {
        match spec_parse_filter_token(ts[0]) {
            Err(e) => Err(e),
            Ok(Some(f)) => spec_parse_tokens(ts.drop_first(), fs.push(f), ws),
            Ok(None) => spec_parse_tokens(ts.drop_first(), fs, ws.push(ts[0])),
        }
    }
}

/// What filter text means: the filters named by its tokens in order,
/// together with the unrecognized tokens, or the first fault.
pub open spec fn spec_parse_filters(s: Seq<char>) -> Result<
    (Seq<FilterV>, Seq<Seq<char>>),
    ConfigErrV,
> {
    spec_parse_tokens(spec_tokenize(s), Seq::empty(), Seq::empty())
}

/// Splits `s` into all its segments delimited by `d`.
fn split_all(s: &Vec<char>, d: &Vec<char>) -> (r: Vec<Vec<char>>)
    requires
        d@.len() > 0,
    ensures
        r.deep_view() == spec_split(s@, d@),
{
    let mut parts: Vec<Vec<char>> = Vec::new();
    let mut rem: Vec<char> = subrange_chars(s, 0, s.len());
    proof {
        assert(s@.subrange(0, s@.len() as int) =~= s@);
        assert(parts.deep_view() =~= Seq::<Seq<char>>::empty());
        assert(Seq::<Seq<char>>::empty() + spec_split(rem@, d@) =~= spec_split(rem@, d@));
    }
    loop
        invariant
            d@.len() > 0,
            spec_split(s@, d@) == parts.deep_view() + spec_split(rem@, d@),
        decreases rem@.len(),
    {
        let ghost old_parts = parts.deep_view();
        match crate::chars::find_sub(&rem, d) {
            Some(i) => {
                proof {
                    lemma_find_characterization(rem@, d@);
                    assert(match_at(rem@, d@, i as int));
                }
                let rl = rem.len();
                proof {
                    assert(i + d@.len() <= rl);
                }
                let seg = subrange_chars(&rem, 0, i);
                let next = subrange_chars(&rem, i + d.len(), rl);
                parts.push(seg);
                proof {
                    assert(parts.deep_view() =~~= old_parts.push(rem@.subrange(0, i as int)));
                    assert(spec_split(rem@, d@) == seq![rem@.subrange(0, i as int)] + spec_split(
                        next@,
                        d@,
                    ));
                    assert(spec_split(s@, d@) =~~= parts.deep_view() + spec_split(next@, d@));
                }
                rem = next;
            },
            None => {
                parts.push(rem);
                proof {
                    assert(parts.deep_view() =~~= old_parts.push(rem@));
                    assert(parts.deep_view() =~~= spec_split(s@, d@));
                }
                return parts;
            },
        }
    }
}

/// Reads one token as a filter, as an unrecognized token, or as a fault.
fn parse_filter_token(t: &Vec<char>) -> (r: Result<Option<Filter>, ConfigError>)
    ensures
        match r {
            Ok(Some(f)) => spec_parse_filter_token(t@) == Ok::<_, ConfigErrV>(Some(f@)),
            Ok(None) => spec_parse_filter_token(t@) == Ok::<Option<FilterV>, ConfigErrV>(None),
            Err(e) => spec_parse_filter_token(t@) == Err::<Option<FilterV>, _>(e@),
        },
{
    let ts = chars_to_string(t);
    if str_eq(ts.as_str(), "UPPER_CASE") {
        return Ok(Some(Filter::UpperCase));
    }
    if str_eq(ts.as_str(), "LOWER_CASE") {
        return Ok(Some(Filter::LowerCase));
    }
    if str_eq(ts.as_str(), "LENGTH") {
        return Ok(Some(Filter::Length));
    }
    if str_eq(ts.as_str(), "TRIM") {
        return Ok(Some(Filter::Trim));
    }
    if str_eq(ts.as_str(), "TRIM_START") {
        return Ok(Some(Filter::TrimStart));
    }
    if str_eq(ts.as_str(), "TRIM_END") {
        return Ok(Some(Filter::TrimEnd));
    }
    let mut pipe: Vec<char> = Vec::new();
    pipe.push('|');
    proof {
        assert(pipe@ =~= seq!['|']);
    }
    if has_prefix_exec(t, &str_to_chars("REPLACE")) {
        let parts = split_all(t, &pipe);
        if parts.len() != 3 {
            return Err(ConfigError::ReplaceUsage(ts));
        }
        proof {
            assert(parts.deep_view()[1] == parts@[1]@);
            assert(parts.deep_view()[2] == parts@[2]@);
        }
        return Ok(Some(Filter::Replace(chars_to_string(&parts[1]), chars_to_string(&parts[2]))));
    }
    if has_prefix_exec(t, &str_to_chars("APPEND")) {
        let parts = split_all(t, &pipe);
        if parts.len() != 2 {
            return Err(ConfigError::AppendUsage(ts));
        }
        proof {
            assert(parts.deep_view()[1] == parts@[1]@);
        }
        return Ok(Some(Filter::Append(chars_to_string(&parts[1]))));
    }
    if has_prefix_exec(t, &str_to_chars("PREPEND")) {
        let parts = split_all(t, &pipe);
        if parts.len() != 2 {
            return Err(ConfigError::PrependUsage(ts));
        }
        proof {
            assert(parts.deep_view()[1] == parts@[1]@);
        }
        return Ok(Some(Filter::Prepend(chars_to_string(&parts[1]))));
    }
    if has_prefix_exec(t, &str_to_chars("SPLIT")) {
        let parts = split_all(t, &pipe);
        if parts.len() != 3 {
            return Err(ConfigError::SplitUsage(ts));
        }
        proof {
            assert(parts.deep_view()[1] == parts@[1]@);
            assert(parts.deep_view()[2] == parts@[2]@);
        }
        match parse_usize_chars(&parts[2]) {
            Some(n) => {
                return Ok(Some(Filter::Split(chars_to_string(&parts[1]), n)));
            },
            None => {
                return Err(ConfigError::SplitIndex(chars_to_string(&parts[2])));
            },
        }
    }
    if has_prefix_exec(t, &str_to_chars("SUB_STRING")) {
        let parts = split_all(t, &pipe);
        if parts.len() != 2 && parts.len() != 3 {
            return Err(ConfigError::SubStringUsage(ts));
        }
        proof {
            assert(parts.deep_view()[1] == parts@[1]@);
            if parts@.len() == 3 {
                assert(parts.deep_view()[2] == parts@[2]@);
            }
        }
        match parse_usize_chars(&parts[1]) {
            None => {
                return Err(ConfigError::SubStringNumber(chars_to_string(&parts[1])));
            },
            Some(st) => {
                if parts.len() == 3 {
                    match parse_usize_chars(&parts[2]) {
                        None => {
                            return Err(ConfigError::SubStringNumber(chars_to_string(&parts[1])));
                        },
                        Some(l) => {
                            return Ok(Some(Filter::SubString(st, Some(l))));
                        },
                    }
                } else {
                    return Ok(Some(Filter::SubString(st, None)));
                }
            },
        }
    }
    Ok(None)
}

impl Filter {
    /// Reads filter text into the chain of filters it names, in order of
    /// appearance, together with the unrecognized tokens that were dropped.
    /// A token with malformed arguments is a fault.
    pub fn parse(filter_str: &str) -> (r: Result<(Vec<Filter>, Vec<String>), ConfigError>)
        ensures
            match r {
                Ok((fs, ws)) => spec_parse_filters(filter_str@) == Ok::<_, ConfigErrV>(
                    (fs.deep_view(), ws.deep_view()),
                ),
                Err(e) => spec_parse_filters(filter_str@) == Err::<
                    (Seq<FilterV>, Seq<Seq<char>>),
                    _,
                >(e@),
            },
    {
        let vc = str_to_chars(filter_str);
        let trimmed = trim_chars(&vc);
        let tokens = tokenize_filters(&trimmed);
        let ghost all = tokens.deep_view();
        let mut filters: Vec<Filter> = Vec::new();
        let mut warned: Vec<String> = Vec::new();
        let mut i: usize = 0;
        let n = tokens.len();
        proof {
            assert(all.skip(0) =~= all);
            assert(spec_parse_filters(filter_str@) == spec_parse_tokens(
                all,
                Seq::empty(),
                Seq::empty(),
            ));
            assert(filters.deep_view() =~= Seq::<FilterV>::empty());
            assert(warned.deep_view() =~= Seq::<Seq<char>>::empty());
        }
        while i < n
            invariant
                i <= n,
                n == tokens@.len(),
                all == tokens.deep_view(),
                spec_parse_filters(filter_str@) == spec_parse_tokens(
                    all.skip(i as int),
                    filters.deep_view(),
                    warned.deep_view(),
                ),
            decreases n - i,
        {
            let ghost rest = all.skip(i as int);
            proof {
                assert(rest[0] == all[i as int]);
                assert(rest.drop_first() =~= all.skip(i + 1 as int));
                assert(all[i as int] == tokens@[i as int]@);
            }
            let ghost old_filters = filters.deep_view();
            let ghost old_warned = warned.deep_view();
            match parse_filter_token(&tokens[i]) {
                Ok(Some(f)) => {
                    filters.push(f);
                    proof {
                        assert(filters.deep_view() =~= old_filters.push(f@));
                    }
                },
                Ok(None) => {
                    warned.push(chars_to_string(&tokens[i]));
                    proof {
                        assert(warned.deep_view() =~= old_warned.push(all[i as int]));
                    }
                },
                Err(e) => {
                    return Err(e);
                },
            }
            i = i + 1;
        }
        proof {
            assert(all.skip(n as int) =~= Seq::<Seq<char>>::empty());
        }
        Ok((filters, warned))
    }

    /// What this filter makes of `input`.
    pub fn run(&self, input: &str) -> (r: String)
        ensures
            r@ == spec_filter_run(self@, input@),
    {
        match self {
            Filter::UpperCase => upper_case(input),
            Filter::LowerCase => lower_case(input),
            Filter::Length => {
                let v = str_to_chars(input);
                let d = usize_to_chars(v.len());
                chars_to_string(&d)
            },
            Filter::Trim => {
                let v = str_to_chars(input);
                let t = trim_chars(&v);
                chars_to_string(&t)
            },
            Filter::TrimStart => {
                let v = str_to_chars(input);
                let t = trim_start_chars(&v);
                chars_to_string(&t)
            },
            Filter::TrimEnd => {
                let v = str_to_chars(input);
                let t = trim_end_chars(&v);
                chars_to_string(&t)
            },
            Filter::Replace(a, b) => {
                let v = str_to_chars(input);
                let fa = str_to_chars(a.as_str());
                let fb = str_to_chars(b.as_str());
                let t = replace_chars(&v, &fa, &fb);
                chars_to_string(&t)
            },
            Filter::Append(x) => {
                let mut s = input.to_owned();
                s.append(x.as_str());
                s
            },
            Filter::Prepend(x) => {
                let mut s = x.clone();
                s.append(input);
                s
            },
            Filter::Split(d, i) => {
                let v = str_to_chars(input);
                let fd = str_to_chars(d.as_str());
                let t = split_nth_chars(&v, &fd, *i);
                chars_to_string(&t)
            },
            Filter::SubString(st, l) => {
                let v = str_to_chars(input);
                let t = substring_chars(&v, *st, l);
                chars_to_string(&t)
            },
        }
    }
}

/// Applies a chain of filters to a value, left to right.
pub fn apply_filters(filters: &Vec<Filter>, value: String) -> (r: String)
    ensures
        r@ == spec_apply_filters(filters.deep_view(), value@),
{
    let ghost all = filters.deep_view();
    let mut cur = value;
    let mut i: usize = 0;
    let n = filters.len();
    proof {
        assert(all.skip(0) =~= all);
    }
    while i < n
        invariant
            i <= n,
            n == filters@.len(),
            all == filters.deep_view(),
            spec_apply_filters(all, value@) == spec_apply_filters(all.skip(i as int), cur@),
        decreases n - i,
    {
        let ghost rest = all.skip(i as int);
        proof {
            assert(rest[0] == all[i as int]);
            assert(rest.drop_first() =~= all.skip(i + 1 as int));
            assert(all[i as int] == filters@[i as int]@);
        }
        cur = filters[i].run(cur.as_str());
        i = i + 1;
    }
    proof {
        assert(all.skip(n as int) =~= Seq::<FilterV>::empty());
    }
    cur
}

} // verus!
