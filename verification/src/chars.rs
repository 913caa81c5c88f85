//! Character-sequence utilities shared by the parsers and filters.
//!
//! All string logic in this crate works over `Seq<char>` in specifications
//! and over `Vec<char>` in executable code; `String` appears only at the
//! public boundary. The few places where the standard library's Unicode
//! tables are needed (case mapping, the whitespace property) are named
//! specification functions backed by trusted wrappers.

use vstd::prelude::*;

verus! {

/// The Unicode uppercase mapping of a character sequence, as
/// `str::to_uppercase` computes it.
pub uninterp spec fn upper_of(s: Seq<char>) -> Seq<char>;

/// The Unicode lowercase mapping of a character sequence, as
/// `str::to_lowercase` computes it.
pub uninterp spec fn lower_of(s: Seq<char>) -> Seq<char>;

/// Whether a character has the Unicode whitespace property, as
/// `char::is_whitespace` reports it.
pub uninterp spec fn is_space(c: char) -> bool;

/// Relies on str::to_uppercase: the result depends on the characters alone.
#[verifier::external_body]
pub(crate) fn upper_case(s: &str) -> (r: String)
    ensures
        r@ == upper_of(s@),
{
    s.to_uppercase()
}

/// Relies on str::to_lowercase: the result depends on the characters alone.
#[verifier::external_body]
pub(crate) fn lower_case(s: &str) -> (r: String)
    ensures
        r@ == lower_of(s@),
{
    s.to_lowercase()
}

/// Relies on char::is_whitespace: the Unicode whitespace property of a
/// character depends on the character alone.
#[verifier::external_body]
pub(crate) fn char_is_space(c: char) -> (r: bool)
    ensures
        r == is_space(c),
{
    c.is_whitespace()
}

/// Relies on String's FromIterator over char: collecting an iterator of
/// characters yields the string of exactly those characters in order.
#[verifier::external_body]
pub(crate) fn chars_to_string(v: &Vec<char>) -> (r: String)
    ensures
        r@ == v@,
{
    v.iter().collect()
}

/// Collects the characters of a string slice into a vector.
pub(crate) fn str_to_chars(s: &str) -> (r: Vec<char>)
    ensures
        r@ == s@,
{
    let n = s.unicode_len();
    let mut v: Vec<char> = Vec::new();
    let mut i: usize = 0;
    while i < n
        invariant
            i <= n,
            n == s@.len(),
            v@ =~= s@.take(i as int),
        decreases n - i,
    {
        v.push(s.get_char(i));
        proof {
            assert(v@ =~= s@.take(i + 1 as int));
        }
        i = i + 1;
    }
    proof {
        assert(s@.take(n as int) =~= s@);
    }
    v
}

/// A sequence with the longest run of leading whitespace removed.
pub open spec fn spec_trim_start(s: Seq<char>) -> Seq<char>
    decreases s.len(),
{
    if s.len() == 0 {
        s
    } else if is_space(s[0]) {
        spec_trim_start(s.subrange(1, s.len() as int))
    } else {
        s
    }
}

/// A sequence with the longest run of trailing whitespace removed.
pub open spec fn spec_trim_end(s: Seq<char>) -> Seq<char>
    decreases s.len(),
{
    if s.len() == 0 {
        s
    } else if is_space(s[s.len() - 1]) {
        spec_trim_end(s.subrange(0, s.len() - 1))
    } else {
        s
    }
}

/// A sequence with leading and trailing whitespace removed.
pub open spec fn spec_trim(s: Seq<char>) -> Seq<char> {
    spec_trim_end(spec_trim_start(s))
}

/// Trimming never lengthens a sequence.
pub proof fn lemma_trim_le(s: Seq<char>)
    ensures
        spec_trim_start(s).len() <= s.len(),
        spec_trim_end(s).len() <= s.len(),
        spec_trim(s).len() <= s.len(),
    decreases s.len(),
{
    if s.len() > 0 {
        if is_space(s[0]) {
            lemma_trim_le(s.subrange(1, s.len() as int));
        }
        if is_space(s[s.len() - 1]) {
            lemma_trim_le(s.subrange(0, s.len() - 1));
        }
    }
    lemma_trim_end_le(spec_trim_start(s));
}

proof fn lemma_trim_end_le(s: Seq<char>)
    ensures
        spec_trim_end(s).len() <= s.len(),
    decreases s.len(),
{
    if s.len() > 0 && is_space(s[s.len() - 1]) {
        lemma_trim_end_le(s.subrange(0, s.len() - 1));
    }
}

proof fn lemma_trim_start_at(s: Seq<char>, i: int)
    requires
        0 <= i <= s.len(),
        forall|j: int| 0 <= j < i ==> is_space(s[j]),
        i < s.len() ==> !is_space(s[i]),
    ensures
        spec_trim_start(s) == s.subrange(i, s.len() as int),
    decreases i,
{
    if i == 0 {
        assert(s.subrange(0, s.len() as int) =~= s);
    } else {
        let t = s.subrange(1, s.len() as int);
        lemma_trim_start_at(t, i - 1);
        assert(t.subrange(i - 1, t.len() as int) =~= s.subrange(i, s.len() as int));
    }
}

proof fn lemma_trim_end_at(s: Seq<char>, i: int)
    requires
        0 <= i <= s.len(),
        forall|j: int| i <= j < s.len() ==> is_space(s[j]),
        i > 0 ==> !is_space(s[i - 1]),
    ensures
        spec_trim_end(s) == s.subrange(0, i),
    decreases s.len(),
{
    if i == s.len() {
        assert(s.subrange(0, s.len() as int) =~= s);
    } else {
        let t = s.subrange(0, s.len() - 1);
        lemma_trim_end_at(t, i);
        assert(t.subrange(0, i) =~= s.subrange(0, i));
    }
}

/// Copies the characters of `v` in positions `from..to`.
pub(crate) fn subrange_chars(v: &Vec<char>, from: usize, to: usize) -> (r: Vec<char>)
    requires
        from <= to <= v@.len(),
    ensures
        r@ == v@.subrange(from as int, to as int),
{
    let mut r: Vec<char> = Vec::new();
    let mut i: usize = from;
    while i < to
        invariant
            from <= i <= to <= v@.len(),
            r@ =~= v@.subrange(from as int, i as int),
        decreases to - i,
    {
        r.push(v[i]);
        proof {
            assert(r@ =~= v@.subrange(from as int, i + 1 as int));
        }
        i = i + 1;
    }
    r
}

/// Removes leading and trailing whitespace from a character vector.
pub(crate) fn trim_chars(v: &Vec<char>) -> (r: Vec<char>)
    ensures
        r@ == spec_trim(v@),
{
    let n = v.len();
    let mut start: usize = 0;
    while start < n && char_is_space(v[start])
        invariant
            start <= n,
            n == v@.len(),
            forall|j: int| 0 <= j < start ==> is_space(v@[j]),
        decreases n - start,
    {
        start = start + 1;
    }
    proof {
        lemma_trim_start_at(v@, start as int);
    }
    let ghost t = v@.subrange(start as int, n as int);
    let mut end: usize = n;
    while end > start && char_is_space(v[end - 1])
        invariant
            start <= end <= n,
            n == v@.len(),
            forall|j: int| end <= j < n ==> is_space(v@[j]),
        decreases end,
    {
        end = end - 1;
    }
    proof {
        assert(forall|j: int| end - start <= j < t.len() ==> is_space(t[j]));
        lemma_trim_end_at(t, end - start);
        assert(t.subrange(0, end - start) =~= v@.subrange(start as int, end as int));
    }
    subrange_chars(v, start, end)
}

/// Removes leading whitespace from a character vector.
pub(crate) fn trim_start_chars(v: &Vec<char>) -> (r: Vec<char>)
    ensures
        r@ == spec_trim_start(v@),
{
    let n = v.len();
    let mut start: usize = 0;
    while start < n && char_is_space(v[start])
        invariant
            start <= n,
            n == v@.len(),
            forall|j: int| 0 <= j < start ==> is_space(v@[j]),
        decreases n - start,
    {
        start = start + 1;
    }
    proof {
        lemma_trim_start_at(v@, start as int);
    }
    subrange_chars(v, start, n)
}

/// Removes trailing whitespace from a character vector.
pub(crate) fn trim_end_chars(v: &Vec<char>) -> (r: Vec<char>)
    ensures
        r@ == spec_trim_end(v@),
{
    let n = v.len();
    let mut end: usize = n;
    while end > 0 && char_is_space(v[end - 1])
        invariant
            end <= n,
            n == v@.len(),
            forall|j: int| end <= j < n ==> is_space(v@[j]),
        decreases end,
    {
        end = end - 1;
    }
    proof {
        lemma_trim_end_at(v@, end as int);
    }
    subrange_chars(v, 0, end)
}

/// Compares two string slices character by character.
pub(crate) fn str_eq(a: &str, b: &str) -> (r: bool)
    ensures
        r == (a@ == b@),
{
    let na = a.unicode_len();
    let nb = b.unicode_len();
    if na != nb {
        proof {
            assert(a@ != b@);
        }
        return false;
    }
    let mut i: usize = 0;
    while i < na
        invariant
            i <= na,
            na == a@.len(),
            na == b@.len(),
            forall|j: int| 0 <= j < i ==> a@[j] == b@[j],
        decreases na - i,
    {
        if a.get_char(i) != b.get_char(i) {
            return false;
        }
        i = i + 1;
    }
    proof {
        assert(a@ =~= b@);
    }
    true
}

/// Whether `p` is a prefix of `s`.
pub open spec fn has_prefix(s: Seq<char>, p: Seq<char>) -> bool {
    p.len() <= s.len() && s.subrange(0, p.len() as int) == p
}

/// Whether `p` is a suffix of `s`.
pub open spec fn has_suffix(s: Seq<char>, p: Seq<char>) -> bool {
    p.len() <= s.len() && s.subrange(s.len() - p.len(), s.len() as int) == p
}

/// Whether `p` occurs in `s` starting at position `i`.
pub open spec fn match_at(s: Seq<char>, p: Seq<char>, i: int) -> bool {
    0 <= i && i + p.len() <= s.len() && s.subrange(i, i + p.len()) == p
}

/// Whether `p` occurs anywhere in `s`.
pub open spec fn seq_contains(s: Seq<char>, p: Seq<char>) -> bool {
    exists|i: int| match_at(s, p, i)
}

/// The position of the first occurrence of `p` in `s`, if any.
pub open spec fn spec_find(s: Seq<char>, p: Seq<char>) -> Option<nat>
    decreases s.len(),
{
    if has_prefix(s, p) {
        Some(0nat)
    } else if s.len() == 0 {
        None
    } else {
        match spec_find(s.subrange(1, s.len() as int), p) {
            Some(i) => Some((i + 1) as nat),
            None => None,
        }
    }
}

proof fn lemma_match_at_shift(s: Seq<char>, p: Seq<char>, i: int)
    requires
        s.len() > 0,
        1 <= i,
    ensures
        match_at(s, p, i) == match_at(s.subrange(1, s.len() as int), p, i - 1),
{
    let t = s.subrange(1, s.len() as int);
    if match_at(s, p, i) {
        assert(t.subrange(i - 1, i - 1 + p.len()) =~= s.subrange(i, i + p.len()));
    }
    if match_at(t, p, i - 1) {
        assert(s.subrange(i, i + p.len()) =~= t.subrange(i - 1, i - 1 + p.len()));
    }
}

/// `spec_find` returns the first match position, and `None` exactly when
/// there is no match.
pub proof fn lemma_find_characterization(s: Seq<char>, p: Seq<char>)
    ensures
        match spec_find(s, p) {
            Some(i) => match_at(s, p, i as int) && forall|j: int| 0 <= j < i ==> !match_at(s, p, j),
            None => forall|j: int| !match_at(s, p, j),
        },
    decreases s.len(),
{
    if has_prefix(s, p) {
        assert(match_at(s, p, 0));
    } else if s.len() == 0 {
        assert forall|j: int| !match_at(s, p, j) by {
            if match_at(s, p, j) {
                assert(s.subrange(j, j + p.len()) =~= p);
            }
        }
    } else {
        let t = s.subrange(1, s.len() as int);
        lemma_find_characterization(t, p);
        assert(!match_at(s, p, 0)) by {
            if match_at(s, p, 0) {
                assert(has_prefix(s, p));
            }
        }
        match spec_find(t, p) {
            Some(i) => {
                lemma_match_at_shift(s, p, i + 1 as int);
                assert forall|j: int| 0 <= j < i + 1 implies !match_at(s, p, j) by {
                    if j >= 1 {
                        lemma_match_at_shift(s, p, j);
                    }
                }
            },
            None => {
                assert forall|j: int| !match_at(s, p, j) by {
                    if j >= 1 {
                        lemma_match_at_shift(s, p, j);
                    }
                }
            },
        }
    }
}

/// A match position with no earlier match pins down `spec_find`.
pub proof fn lemma_find_is(s: Seq<char>, p: Seq<char>, i: int)
    requires
        match_at(s, p, i),
        forall|j: int| 0 <= j < i ==> !match_at(s, p, j),
    ensures
        spec_find(s, p) == Some(i as nat),
{
    lemma_find_characterization(s, p);
    match spec_find(s, p) {
        Some(k) => {
            if k < i {
                assert(match_at(s, p, k as int));
            } else if i < k {
                assert(!match_at(s, p, i));
            }
        },
        None => {
            assert(!match_at(s, p, i));
        },
    }
}

/// Whether `p` occurs at position `i` of `s`, checked character by character.
pub(crate) fn match_at_exec(s: &Vec<char>, p: &Vec<char>, i: usize) -> (r: bool)
    requires
        i + p@.len() <= s@.len(),
    ensures
        r == match_at(s@, p@, i as int),
{
    let sl = s.len();
    let mut k: usize = 0;
    while k < p.len()
        invariant
            k <= p@.len(),
            i + p@.len() <= sl,
            sl == s@.len(),
            forall|j: int| 0 <= j < k ==> s@[i + j] == p@[j],
        decreases p@.len() - k,
    {
        if s[i + k] != p[k] {
            proof {
                if match_at(s@, p@, i as int) {
                    assert(s@.subrange(i as int, i + p@.len())[k as int] == p@[k as int]);
                }
            }
            return false;
        }
        k = k + 1;
    }
    proof {
        assert(s@.subrange(i as int, i + p@.len()) =~= p@);
    }
    true
}

/// The first occurrence of `p` in `s`, if any.
pub(crate) fn find_sub(s: &Vec<char>, p: &Vec<char>) -> (r: Option<usize>)
    ensures
        match r {
            Some(i) => spec_find(s@, p@) == Some(i as nat),
            None => spec_find(s@, p@) is None,
        },
{
    if p.len() > s.len() {
        proof {
            lemma_find_characterization(s@, p@);
            match spec_find(s@, p@) {
                Some(i) => {
                    assert(match_at(s@, p@, i as int));
                },
                None => {},
            }
        }
        return None;
    }
    let bound = s.len() - p.len();
    let mut i: usize = 0;
    loop
        invariant
            i <= bound,
            bound == s@.len() - p@.len(),
            p@.len() <= s@.len(),
            forall|j: int| 0 <= j < i ==> !match_at(s@, p@, j),
        decreases bound - i,
    {
        if match_at_exec(s, p, i) {
            proof {
                lemma_find_is(s@, p@, i as int);
            }
            return Some(i);
        }
        if i == bound {
            proof {
                lemma_find_characterization(s@, p@);
                match spec_find(s@, p@) {
                    Some(k) => {
                        assert(match_at(s@, p@, k as int));
                        assert(k <= bound);
                    },
                    None => {},
                }
            }
            return None;
        }
        i = i + 1;
    }
}

/// Whether `p` occurs anywhere in `s`.
pub(crate) fn contains_sub(s: &Vec<char>, p: &Vec<char>) -> (r: bool)
    ensures
        r == seq_contains(s@, p@),
{
    proof {
        lemma_find_characterization(s@, p@);
    }
    match find_sub(s, p) {
        Some(i) => {
            proof {
                assert(match_at(s@, p@, i as int));
            }
            true
        },
        None => false,
    }
}

/// Whether `p` is a prefix of `s`, checked character by character.
pub(crate) fn has_prefix_exec(s: &Vec<char>, p: &Vec<char>) -> (r: bool)
    ensures
        r == has_prefix(s@, p@),
{
    if p.len() > s.len() {
        return false;
    }
    match_at_exec(s, p, 0)
}

/// Whether `p` is a suffix of `s`, checked character by character.
pub(crate) fn has_suffix_exec(s: &Vec<char>, p: &Vec<char>) -> (r: bool)
    ensures
        r == has_suffix(s@, p@),
{
    if p.len() > s.len() {
        return false;
    }
    let r = match_at_exec(s, p, s.len() - p.len());
    proof {
        assert(match_at(s@, p@, s@.len() - p@.len()) == has_suffix(s@, p@));
    }
    r
}

/// `s` with every non-overlapping occurrence of `from` replaced by `to`,
/// scanning left to right. An empty `from` matches at every character
/// boundary, including both ends.
pub open spec fn spec_replace(s: Seq<char>, from: Seq<char>, to: Seq<char>) -> Seq<char>
    decreases s.len(),
{
    if from.len() == 0 {
        if s.len() == 0 {
            to
        } else {
            to + seq![s[0]] + spec_replace(s.subrange(1, s.len() as int), from, to)
        }
    } else {
        match spec_find(s, from) {
            Some(i) => if i + from.len() <= s.len() {
                s.subrange(0, i as int) + to + spec_replace(
                    s.subrange((i + from.len()) as int, s.len() as int),
                    from,
                    to,
                )
            } else {
                s
            },
            None => s,
        }
    }
}

/// Appends all characters of `src` to `dst`.
pub(crate) fn push_all(dst: &mut Vec<char>, src: &Vec<char>)
    ensures
        final(dst)@ == old(dst)@ + src@,
{
    let mut i: usize = 0;
    while i < src.len()
        invariant
            i <= src@.len(),
            dst@ =~= old(dst)@ + src@.take(i as int),
        decreases src@.len() - i,
    {
        dst.push(src[i]);
        proof {
            assert(old(dst)@ + src@.take(i + 1 as int) =~= (old(dst)@ + src@.take(i as int)).push(
                src@[i as int],
            ));
        }
        i = i + 1;
    }
    proof {
        assert(src@.take(src@.len() as int) =~= src@);
    }
}

/// Replaces every non-overlapping occurrence of `from` in `s` by `to`.
pub(crate) fn replace_chars(s: &Vec<char>, from: &Vec<char>, to: &Vec<char>) -> (r: Vec<char>)
    ensures
        r@ == spec_replace(s@, from@, to@),
{
    let ghost goal = spec_replace(s@, from@, to@);
    let mut out: Vec<char> = Vec::new();
    proof {
        assert(s@.subrange(0, s@.len() as int) =~= s@);
    }
    if from.len() == 0 {
        let mut i: usize = 0;
        while i < s.len()
            invariant
                i <= s@.len(),
                from@.len() == 0,
                goal == spec_replace(s@, from@, to@),
                goal == out@ + spec_replace(s@.subrange(i as int, s@.len() as int), from@, to@),
            decreases s@.len() - i,
        {
            let ghost rem = s@.subrange(i as int, s@.len() as int);
            let ghost out0 = out@;
            push_all(&mut out, to);
            out.push(s[i]);
            proof {
                assert(rem.subrange(1, rem.len() as int) =~= s@.subrange(
                    i + 1 as int,
                    s@.len() as int,
                ));
                assert(rem[0] == s@[i as int]);
                assert(spec_replace(rem, from@, to@) == to@ + seq![rem[0]] + spec_replace(
                    rem.subrange(1, rem.len() as int),
                    from@,
                    to@,
                ));
                assert(goal =~= out@ + spec_replace(
                    s@.subrange(i + 1 as int, s@.len() as int),
                    from@,
                    to@,
                ));
            }
            i = i + 1;
        }
        push_all(&mut out, to);
        proof {
            assert(s@.subrange(s@.len() as int, s@.len() as int) =~= Seq::<char>::empty());
        }
        return out;
    }
    let mut rem: Vec<char> = subrange_chars(s, 0, s.len());
    proof {
        assert(s@.subrange(0, s@.len() as int) =~= s@);
    }
    loop
        invariant
            from@.len() > 0,
            goal == spec_replace(s@, from@, to@),
            goal == out@ + spec_replace(rem@, from@, to@),
        decreases rem@.len(),
    {
        match find_sub(&rem, from) {
            Some(i) => {
                proof {
                    lemma_find_characterization(rem@, from@);
                    assert(match_at(rem@, from@, i as int));
                }
                let ghost old_rem = rem@;
                let rl = rem.len();
                proof {
                    assert(i + from@.len() <= rl);
                }
                let pre = subrange_chars(&rem, 0, i);
                push_all(&mut out, &pre);
                push_all(&mut out, to);
                let next = subrange_chars(&rem, i + from.len(), rl);
                rem = next;
                proof {
                    assert(spec_replace(old_rem, from@, to@) == old_rem.subrange(0, i as int)
                        + to@ + spec_replace(rem@, from@, to@));
                }
            },
            None => {
                push_all(&mut out, &rem);
                return out;
            },
        }
    }
}

/// The segments of `s` delimited by `d`, as the standard library's `split`
/// yields them. An empty delimiter yields an empty segment, each character
/// as a segment, and a final empty segment.
pub open spec fn spec_split(s: Seq<char>, d: Seq<char>) -> Seq<Seq<char>>
    decreases s.len(),
{
    if d.len() == 0 {
        seq![Seq::<char>::empty()] + s.map_values(|c: char| seq![c]) + seq![Seq::<char>::empty()]
    } else {
        match spec_find(s, d) {
            Some(i) => if i + d.len() <= s.len() {
                seq![s.subrange(0, i as int)] + spec_split(
                    s.subrange((i + d.len()) as int, s.len() as int),
                    d,
                )
            } else {
                seq![s]
            },
            None => seq![s],
        }
    }
}

/// The `i`-th segment of `s` split on `d`, or the empty sequence when there
/// is no such segment.
pub open spec fn spec_split_nth(s: Seq<char>, d: Seq<char>, i: nat) -> Seq<char> {
    let parts = spec_split(s, d);
    if i < parts.len() {
        parts[i as int]
    } else {
        Seq::empty()
    }
}

/// Returns the `idx`-th segment of `s` split on `d`, or an empty vector.
pub(crate) fn split_nth_chars(s: &Vec<char>, d: &Vec<char>, idx: usize) -> (r: Vec<char>)
    ensures
        r@ == spec_split_nth(s@, d@, idx as nat),
{
    if d.len() == 0 {
        let ghost parts = spec_split(s@, d@);
        proof {
            assert(parts.len() == s@.len() + 2);
        }
        if idx == 0 {
            return Vec::new();
        } else if idx <= s.len() {
            let mut r: Vec<char> = Vec::new();
            r.push(s[idx - 1]);
            proof {
                assert(parts[idx as int] == s@.map_values(|c: char| seq![c])[idx - 1]);
                assert(r@ =~= seq![s@[idx - 1]]);
            }
            return r;
        } else {
            proof {
                if idx as int == s@.len() + 1 {
                    assert(parts[idx as int] =~= Seq::<char>::empty());
                }
            }
            return Vec::new();
        }
    }
    let mut rem: Vec<char> = subrange_chars(s, 0, s.len());
    proof {
        assert(s@.subrange(0, s@.len() as int) =~= s@);
    }
    let ghost full = spec_split(s@, d@);
    let mut k: usize = 0;
    let ghost pre = Seq::<Seq<char>>::empty();
    loop
        invariant
            d@.len() > 0,
            full == spec_split(s@, d@),
            full == pre + spec_split(rem@, d@),
            pre.len() == k,
            k <= idx,
        decreases rem@.len(),
    {
        match find_sub(&rem, d) {
            Some(i) => {
                proof {
                    lemma_find_characterization(rem@, d@);
                    assert(match_at(rem@, d@, i as int));
                }
                if k == idx {
                    let seg = subrange_chars(&rem, 0, i);
                    proof {
                        assert(full[idx as int] == rem@.subrange(0, i as int));
                    }
                    return seg;
                }
                let rl = rem.len();
                proof {
                    assert(i + d@.len() <= rl);
                }
                let next = subrange_chars(&rem, i + d.len(), rl);
                proof {
                    pre = pre + seq![rem@.subrange(0, i as int)];
                    assert(full =~= pre + spec_split(next@, d@));
                }
                rem = next;
                k = k + 1;
            },
            None => {
                if k == idx {
                    proof {
                        assert(full[idx as int] == rem@);
                    }
                    return rem;
                } else {
                    proof {
                        assert(full.len() == k + 1);
                    }
                    return Vec::new();
                }
            },
        }
    }
}

/// The characters of `s` from position `start`, limited to `length`
/// characters when a length is given. A start at or past the end yields the
/// empty sequence; a zero length yields the empty sequence; a length past
/// the end is clamped.
pub open spec fn spec_substring(s: Seq<char>, start: nat, length: Option<nat>) -> Seq<char> {
    if start >= s.len() {
        Seq::empty()
    } else {
        match length {
            None => s.subrange(start as int, s.len() as int),
            Some(l) => if l == 0 {
                Seq::empty()
            } else if start + l >= s.len() {
                s.subrange(start as int, s.len() as int)
            } else {
                s.subrange(start as int, (start + l) as int)
            },
        }
    }
}

/// Copies the character-indexed substring of `v`.
pub(crate) fn substring_chars(v: &Vec<char>, start: usize, length: &Option<usize>) -> (r: Vec<
    char,
>)
    ensures
        r@ == spec_substring(
            v@,
            start as nat,
            match length {
                Some(l) => Some(*l as nat),
                None => None,
            },
        ),
{
    if start >= v.len() {
        return Vec::new();
    }
    match length {
        None => subrange_chars(v, start, v.len()),
        Some(l) => {
            if *l == 0 {
                Vec::new()
            } else if *l >= v.len() - start {
                subrange_chars(v, start, v.len())
            } else {
                subrange_chars(v, start, start + *l)
            }
        },
    }
}

/// Appends clones of all strings of `src` to `dst`.
pub(crate) fn append_strings(dst: &mut Vec<String>, src: &Vec<String>)
    ensures
        final(dst)@ == old(dst)@ + src@,
{
    let mut i: usize = 0;
    while i < src.len()
        invariant
            i <= src@.len(),
            dst@ =~= old(dst)@ + src@.take(i as int),
        decreases src@.len() - i,
    {
        dst.push(src[i].clone());
        proof {
            assert(old(dst)@ + src@.take(i + 1 as int) =~= (old(dst)@ + src@.take(i as int)).push(
                src@[i as int],
            ));
        }
        i = i + 1;
    }
    proof {
        assert(src@.take(src@.len() as int) =~= src@);
    }
}

/// Whether `c` is an ASCII decimal digit.
pub open spec fn is_digit(c: char) -> bool {
    48 <= c as u32 <= 57
}

/// The numeric value of an ASCII decimal digit.
pub open spec fn digit_val(c: char) -> nat {
    (c as u32 - 48) as nat
}

/// Whether every character of `s` is an ASCII decimal digit.
pub open spec fn all_digits(s: Seq<char>) -> bool {
    forall|i: int| 0 <= i < s.len() ==> is_digit(s[i])
}

/// The value of a sequence of decimal digits, most significant first.
pub open spec fn digits_val(s: Seq<char>) -> nat
    decreases s.len(),
{
    if s.len() == 0 {
        0
    } else {
        digits_val(s.drop_last()) * 10 + digit_val(s.last())
    }
}

/// The unsigned integer denoted by `s`: an optional leading `+`, then at
/// least one decimal digit, with a value that fits in `usize`.
pub open spec fn spec_parse_usize(s: Seq<char>) -> Option<usize> {
    let body = if s.len() > 0 && s[0] == '+' {
        s.subrange(1, s.len() as int)
    } else {
        s
    };
    if body.len() > 0 && all_digits(body) && digits_val(body) <= usize::MAX {
        Some(digits_val(body) as usize)
    } else {
        None
    }
}

proof fn lemma_digits_val_take_le(s: Seq<char>, i: int)
    requires
        0 <= i <= s.len(),
    ensures
        digits_val(s.take(i)) <= digits_val(s),
    decreases s.len(),
{
    if i < s.len() {
        let t = s.drop_last();
        assert(s.take(i) =~= t.take(i));
        lemma_digits_val_take_le(t, i);
        assert(digits_val(t) * 10 >= digits_val(t)) by (nonlinear_arith);
    } else {
        assert(s.take(i) =~= s);
    }
}

/// Whether `c` is an ASCII decimal digit.
pub(crate) fn is_digit_exec(c: char) -> (r: bool)
    ensures
        r == is_digit(c),
{
    let u = c as u32;
    48 <= u && u <= 57
}

/// The numeric value of an ASCII decimal digit.
pub(crate) fn digit_val_exec(c: char) -> (r: u64)
    requires
        is_digit(c),
    ensures
        r == digit_val(c),
{
    (c as u32 - 48) as u64
}

/// The value of the digit run `s[from..to]`, or `None` when some character
/// is not a digit or the value does not fit in `u64`.
pub(crate) fn digits_to_u64(s: &Vec<char>, from: usize, to: usize) -> (r: Option<u64>)
    requires
        from <= to <= s@.len(),
    ensures
        match r {
            Some(x) => all_digits(s@.subrange(from as int, to as int)) && x == digits_val(
                s@.subrange(from as int, to as int),
            ),
            None => !(all_digits(s@.subrange(from as int, to as int)) && digits_val(
                s@.subrange(from as int, to as int),
            ) <= u64::MAX),
        },
{
    let ghost body = s@.subrange(from as int, to as int);
    let mut acc: u64 = 0;
    let mut i: usize = from;
    while i < to
        invariant
            from <= i <= to <= s@.len(),
            body == s@.subrange(from as int, to as int),
            all_digits(body.take(i - from)),
            acc == digits_val(body.take(i - from)),
        decreases to - i,
    {
        let c = s[i];
        proof {
            assert(body[i - from] == s@[i as int]);
        }
        if !is_digit_exec(c) {
            proof {
                assert(!all_digits(body));
            }
            return None;
        }
        let d = digit_val_exec(c);
        let step = match acc.checked_mul(10) {
            Some(m) => m.checked_add(d),
            None => None,
        };
        match step {
            Some(next) => {
                acc = next;
                proof {
                    assert(body.take(i + 1 - from).drop_last() =~= body.take(i - from));
                }
                i = i + 1;
            },
            None => {
                proof {
                    let t = body.take(i + 1 - from);
                    assert(t.drop_last() =~= body.take(i - from));
                    assert(digits_val(t) > u64::MAX);
                    lemma_digits_val_take_le(body, i + 1 - from);
                    assert(body.take(body.len() as int) =~= body);
                }
                return None;
            },
        }
    }
    proof {
        assert(body.take(body.len() as int) =~= body);
    }
    Some(acc)
}

/// Parses an unsigned integer: an optional leading `+`, then decimal digits.
pub(crate) fn parse_usize_chars(v: &Vec<char>) -> (r: Option<usize>)
    ensures
        r == spec_parse_usize(v@),
{
    let ghost body = if v@.len() > 0 && v@[0] == '+' {
        v@.subrange(1, v@.len() as int)
    } else {
        v@
    };
    let start: usize = if v.len() > 0 && v[0] == '+' {
        1
    } else {
        0
    };
    proof {
        if start == 0 {
            assert(v@.subrange(0, v@.len() as int) =~= v@);
        }
    }
    if v.len() == start {
        return None;
    }
    let mut acc: usize = 0;
    let mut i: usize = start;
    let n = v.len();
    while i < n
        invariant
            start <= i <= n,
            n == v@.len(),
            start == 1 ==> (v@.len() > 0 && v@[0] == '+'),
            start == 0 ==> !(v@.len() > 0 && v@[0] == '+'),
            body == (if v@.len() > 0 && v@[0] == '+' {
                v@.subrange(1, v@.len() as int)
            } else {
                v@
            }),
            body.len() == n - start,
            all_digits(body.take(i - start)),
            acc == digits_val(body.take(i - start)),
        decreases n - i,
    {
        let c = v[i];
        proof {
            assert(body[i - start] == v@[i as int]);
        }
        if !is_digit_exec(c) {
            proof {
                assert(!is_digit(body[i - start]));
                assert(!all_digits(body));
            }
            return None;
        }
        proof {
            assert(48 <= c as u32 <= 57);
        }
        let d = (c as u32 - 48) as usize;
        proof {
            assert(d == digit_val(c));
        }
        let step = match acc.checked_mul(10) {
            Some(m) => m.checked_add(d),
            None => None,
        };
        match step {
            Some(next) => {
                acc = next;
                proof {
                    assert(body.take(i + 1 - start).drop_last() =~= body.take(i - start));
                }
                i = i + 1;
            },
            None => {
                proof {
                    let t = body.take(i + 1 - start);
                    assert(t.drop_last() =~= body.take(i - start));
                    assert(digits_val(t) > usize::MAX);
                    lemma_digits_val_take_le(body, i + 1 - start);
                    assert(body.take(body.len() as int) =~= body);
                }
                return None;
            },
        }
    }
    proof {
        assert(body.take(body.len() as int) =~= body);
    }
    Some(acc)
}

/// The decimal digit character for a value below ten.
pub open spec fn digit_char(d: nat) -> char {
    if d == 0 {
        '0'
    } else if d == 1 {
        '1'
    } else if d == 2 {
        '2'
    } else if d == 3 {
        '3'
    } else if d == 4 {
        '4'
    } else if d == 5 {
        '5'
    } else if d == 6 {
        '6'
    } else if d == 7 {
        '7'
    } else if d == 8 {
        '8'
    } else {
        '9'
    }
}

/// The decimal notation of `n`, most significant digit first.
pub open spec fn dec_str(n: nat) -> Seq<char>
    decreases n,
{
    if n < 10 {
        seq![digit_char(n)]
    } else {
        dec_str(n / 10).push(digit_char(n % 10))
    }
}

/// Every character of a decimal notation is a digit, and reading the
/// notation back yields the number.
pub proof fn lemma_dec_str_digits(n: nat)
    ensures
        dec_str(n).len() >= 1,
        all_digits(dec_str(n)),
        digits_val(dec_str(n)) == n,
    decreases n,
{
    if n < 10 {
        let s = seq![digit_char(n)];
        assert(s.drop_last() =~= Seq::<char>::empty());
        assert(digits_val(s) == digits_val(s.drop_last()) * 10 + digit_val(s.last()));
        assert(digit_val(digit_char(n)) == n);
    } else {
        lemma_dec_str_digits(n / 10);
        let s = dec_str(n);
        assert(s.drop_last() =~= dec_str(n / 10));
        assert(digits_val(s) == (n / 10) * 10 + digit_val(digit_char(n % 10)));
        assert(digit_val(digit_char(n % 10)) == n % 10);
        assert((n / 10) * 10 + n % 10 == n) by (nonlinear_arith);
        assert forall|i: int| 0 <= i < s.len() implies is_digit(s[i]) by {
            if i < s.len() - 1 {
                assert(s[i] == dec_str(n / 10)[i]);
            }
        }
    }
}

/// Writes `n` in decimal notation.
pub(crate) fn usize_to_chars(n: usize) -> (r: Vec<char>)
    ensures
        r@ == dec_str(n as nat),
    decreases n,
{
    let d = n % 10;
    let c: char = if d == 0 {
        '0'
    } else if d == 1 {
        '1'
    } else if d == 2 {
        '2'
    } else if d == 3 {
        '3'
    } else if d == 4 {
        '4'
    } else if d == 5 {
        '5'
    } else if d == 6 {
        '6'
    } else if d == 7 {
        '7'
    } else if d == 8 {
        '8'
    } else {
        '9'
    };
    if n < 10 {
        proof {
            assert(digit_char(n as nat) == c);
        }
        let mut r: Vec<char> = Vec::new();
        r.push(c);
        proof {
            assert(r@ =~= seq![digit_char(n as nat)]);
        }
        r
    } else {
        let mut r = usize_to_chars(n / 10);
        proof {
            assert(digit_char((n % 10) as nat) == c);
        }
        r.push(c);
        r
    }
}

} // verus!
