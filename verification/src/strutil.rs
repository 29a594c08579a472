//! Character-sequence utilities shared by the parsing modules.
//!
//! Every exec function here is specified against a small set of spec
//! functions over `Seq<char>`; the parsing modules state their contracts in
//! terms of these same spec functions.

use vstd::prelude::*;

verus! {

/// `p` occurs in `s` starting at index `i`.
pub open spec fn match_at(s: Seq<char>, p: Seq<char>, i: int) -> bool {
    0 <= i && i + p.len() <= s.len() && s.subrange(i, i + p.len() as int) == p
}

/// `p` occurs somewhere in `s`.
pub open spec fn contains_seq(s: Seq<char>, p: Seq<char>) -> bool {
    exists|i: int| match_at(s, p, i)
}

/// Index of the first occurrence of `p` in `s` at or after `from`, or -1.
pub open spec fn find_seq_from(s: Seq<char>, p: Seq<char>, from: int) -> int
    decreases s.len() - from when 0 <= from
{
    if from + p.len() > s.len() {
        -1
    } else if p.len() == 0 || match_at(s, p, from) {
        from
    } else {
        find_seq_from(s, p, from + 1)
    }
}

/// What `find_seq_from` returns: the first match position, or -1 when none.
pub proof fn lemma_find_seq_from(s: Seq<char>, p: Seq<char>, from: int)
    requires
        0 <= from,
    ensures
        find_seq_from(s, p, from) == -1 ==> forall|i: int| from <= i ==> !match_at(s, p, i),
        find_seq_from(s, p, from) >= 0 ==> {
            let r = find_seq_from(s, p, from);
            &&& from <= r
            &&& match_at(s, p, r)
            &&& forall|i: int| from <= i < r ==> !match_at(s, p, i)
        },
    decreases s.len() - from,
{
    if from + p.len() > s.len() {
    } else if p.len() == 0 {
        assert(s.subrange(from, from) =~= p);
        assert(match_at(s, p, from));
    } else if match_at(s, p, from) {
    } else {
        lemma_find_seq_from(s, p, from + 1);
    }
}

/// If no match occurs in [from, i), the search from `from` is decided at `i`.
proof fn lemma_find_stops(s: Seq<char>, p: Seq<char>, from: int, i: int)
    requires
        0 <= from <= i,
        forall|k: int| from <= k < i ==> !match_at(s, p, k),
    ensures
        i + p.len() > s.len() ==> find_seq_from(s, p, from) == -1,
        i + p.len() <= s.len() && match_at(s, p, i) ==> find_seq_from(s, p, from) == i,
    decreases i - from,
{
    if from < i {
        assert(!match_at(s, p, from));
        if p.len() == 0 {
            if from <= s.len() {
                assert(s.subrange(from, from) =~= p);
                assert(false);
            }
        } else {
            lemma_find_stops(s, p, from + 1, i);
        }
    }
}

/// Exec counterpart of `find_seq_from`.
pub fn find_sub_from(s: &str, p: &str, from: usize) -> (r: Option<usize>)
    ensures
        match r {
            Some(i) => from <= i && i == find_seq_from(s@, p@, from as int),
            None => find_seq_from(s@, p@, from as int) == -1,
        },
{
    let s_len = s.unicode_len();
    let p_len = p.unicode_len();
    let mut i = from;
    loop
        invariant
            from <= i,
            s_len == s@.len(),
            p_len == p@.len(),
            forall|k: int| from <= k < i ==> !match_at(s@, p@, k),
        decreases s@.len() + 1 - i,
    {
        if i > s_len || s_len - i < p_len {
            proof {
                lemma_find_stops(s@, p@, from as int, i as int);
            }
            return None;
        }
        let mut j: usize = 0;
        let mut all_match = true;
        while j < p_len
            invariant
                0 <= j <= p_len,
                i + p_len <= s@.len(),
                p_len == p@.len(),
                s_len == s@.len(),
                all_match ==> forall|k: int| 0 <= k < j ==> s@[i + k] == p@[k],
                !all_match ==> !match_at(s@, p@, i as int) && p_len > 0,
            decreases p_len - j,
        {
            if s.get_char(i + j) != p.get_char(j) {
                proof {
                    let ii = i as int;
                    if match_at(s@, p@, ii) {
                        assert(s@.subrange(ii, ii + p@.len() as int)[j as int] == p@[j as int]);
                    }
                }
                all_match = false;
                j = p_len;
            } else {
                j = j + 1;
            }
        }
        if all_match {
            proof {
                let ii = i as int;
                assert(s@.subrange(ii, ii + p@.len() as int) =~= p@);
                lemma_find_stops(s@, p@, from as int, i as int);
            }
            return Some(i);
        }
        i = i + 1;
    }
}

/// Exec substring containment test.
pub fn str_contains(s: &str, p: &str) -> (b: bool)
    ensures
        b == contains_seq(s@, p@),
{
    match find_sub_from(s, p, 0) {
        Some(i) => {
            proof {
                lemma_find_seq_from(s@, p@, 0);
                assert(match_at(s@, p@, i as int));
            }
            true
        },
        None => {
            proof {
                lemma_find_seq_from(s@, p@, 0);
                assert forall|i: int| !match_at(s@, p@, i) by {
                    if i >= 0 {
                        assert(!match_at(s@, p@, i));
                    }
                }
            }
            false
        },
    }
}

/// Splitting `s` at every non-overlapping occurrence of `sep`, left to right.
pub open spec fn split_seq(s: Seq<char>, sep: Seq<char>) -> Seq<Seq<char>>
    decreases s.len() when sep.len() > 0 via split_seq_decreases
{
    let i = find_seq_from(s, sep, 0);
    if i < 0 {
        seq![s]
    } else {
        seq![s.subrange(0, i)] + split_seq(s.subrange(i + sep.len(), s.len() as int), sep)
    }
}

#[via_fn]
proof fn split_seq_decreases(s: Seq<char>, sep: Seq<char>) {
    lemma_find_seq_from(s, sep, 0);
}

/// Exec counterpart of `split_seq`.
pub fn split_str(s: &str, sep: &str) -> (v: Vec<String>)
    requires
        sep@.len() > 0,
    ensures
        v.deep_view() == split_seq(s@, sep@),
{
    let mut v: Vec<String> = Vec::new();
    let mut rest: String = s.to_owned();
    let sep_len = sep.unicode_len();
    loop
        invariant
            sep_len == sep@.len(),
            sep@.len() > 0,
            split_seq(s@, sep@) =~= v.deep_view() + split_seq(rest@, sep@),
        decreases rest@.len(),
    {
        proof {
            lemma_find_seq_from(rest@, sep@, 0);
        }
        let ghost prev = v.deep_view();
        match find_sub_from(rest.as_str(), sep, 0) {
            Some(i) => {
                let rest_len = rest.as_str().unicode_len();
                let piece = rest.as_str().substring_char(0, i).to_owned();
                let new_rest = rest.as_str().substring_char(i + sep_len, rest_len).to_owned();
                v.push(piece);
                proof {
                    assert(v.deep_view() =~= prev.push(rest@.subrange(0, i as int)));
                    assert(v.deep_view() + split_seq(new_rest@, sep@) =~= prev + split_seq(
                        rest@,
                        sep@,
                    ));
                }
                rest = new_rest;
            },
            None => {
                v.push(rest);
                proof {
                    assert(v.deep_view() =~= prev.push(split_seq(s@, sep@).last()));
                    assert(v.deep_view() =~= split_seq(s@, sep@));
                }
                return v;
            },
        }
    }
}

/// ASCII whitespace, the only kind this library trims.
pub open spec fn is_space(c: char) -> bool {
    c == ' ' || c == '\t' || c == '\r' || c == '\n'
}

pub open spec fn trim_start_seq(s: Seq<char>) -> Seq<char>
    decreases s.len(),
{
    if s.len() > 0 && is_space(s[0]) {
        trim_start_seq(s.skip(1))
    } else {
        s
    }
}

pub open spec fn trim_end_seq(s: Seq<char>) -> Seq<char>
    decreases s.len(),
{
    if s.len() > 0 && is_space(s.last()) {
        trim_end_seq(s.drop_last())
    } else {
        s
    }
}

/// `s` without leading and trailing ASCII whitespace.
pub open spec fn trim_seq(s: Seq<char>) -> Seq<char> {
    trim_end_seq(trim_start_seq(s))
}

pub fn is_space_char(c: char) -> (b: bool)
    ensures
        b == is_space(c),
{
    c == ' ' || c == '\t' || c == '\r' || c == '\n'
}

/// Exec counterpart of `trim_seq`.
pub fn trim_str<'a>(s: &'a str) -> (r: &'a str)
    ensures
        r@ == trim_seq(s@),
{
    let len = s.unicode_len();
    let mut start: usize = 0;
    proof {
        assert(s@.skip(0) =~= s@);
    }
    while start < len && is_space_char(s.get_char(start))
        invariant
            0 <= start <= len,
            len == s@.len(),
            trim_start_seq(s@) == trim_start_seq(s@.skip(start as int)),
        decreases len - start,
    {
        proof {
            assert(s@.skip(start as int).skip(1) =~= s@.skip(start as int + 1));
        }
        start = start + 1;
    }
    let ghost t = s@.skip(start as int);
    proof {
        assert(trim_start_seq(t) == t);
        assert(t =~= s@.subrange(start as int, len as int));
    }
    let mut end: usize = len;
    while end > start && is_space_char(s.get_char(end - 1))
        invariant
            start <= end <= len,
            len == s@.len(),
            trim_end_seq(t) == trim_end_seq(s@.subrange(start as int, end as int)),
        decreases end,
    {
        proof {
            assert(s@.subrange(start as int, end as int).drop_last() =~= s@.subrange(
                start as int,
                end as int - 1,
            ));
        }
        end = end - 1;
    }
    proof {
        assert(trim_end_seq(s@.subrange(start as int, end as int)) == s@.subrange(
            start as int,
            end as int,
        ));
    }
    s.substring_char(start, end)
}

/// Exec prefix test.
pub fn str_starts_with(s: &str, p: &str) -> (b: bool)
    ensures
        b == p@.is_prefix_of(s@),
{
    let s_len = s.unicode_len();
    let p_len = p.unicode_len();
    if p_len > s_len {
        return false;
    }
    let mut j: usize = 0;
    while j < p_len
        invariant
            0 <= j <= p_len,
            p_len == p@.len(),
            s_len == s@.len(),
            p_len <= s_len,
            forall|k: int| 0 <= k < j ==> s@[k] == p@[k],
        decreases p_len - j,
    {
        if s.get_char(j) != p.get_char(j) {
            proof {
                if p@.is_prefix_of(s@) {
                    assert(s@.subrange(0, p@.len() as int)[j as int] == p@[j as int]);
                }
            }
            return false;
        }
        j = j + 1;
    }
    proof {
        assert(s@.subrange(0, p@.len() as int) =~= p@);
    }
    true
}

/// Exec suffix test.
pub fn str_ends_with(s: &str, p: &str) -> (b: bool)
    ensures
        b == p@.is_suffix_of(s@),
{
    let s_len = s.unicode_len();
    let p_len = p.unicode_len();
    if p_len > s_len {
        return false;
    }
    let off = s_len - p_len;
    let mut j: usize = 0;
    while j < p_len
        invariant
            0 <= j <= p_len,
            p_len == p@.len(),
            s_len == s@.len(),
            off == s_len - p_len,
            forall|k: int| 0 <= k < j ==> s@[off + k] == p@[k],
        decreases p_len - j,
    {
        if s.get_char(off + j) != p.get_char(j) {
            proof {
                if p@.is_suffix_of(s@) {
                    assert(s@.subrange(off as int, s@.len() as int)[j as int] == p@[j as int]);
                }
            }
            return false;
        }
        j = j + 1;
    }
    proof {
        assert(s@.subrange(off as int, s@.len() as int) =~= p@);
    }
    true
}

/// Exec string equality by view.
pub fn str_eq(a: &str, b: &str) -> (r: bool)
    ensures
        r == (a@ == b@),
{
    let a_len = a.unicode_len();
    let b_len = b.unicode_len();
    if a_len != b_len {
        return false;
    }
    let mut j: usize = 0;
    while j < a_len
        invariant
            0 <= j <= a_len,
            a_len == a@.len(),
            b_len == b@.len(),
            a_len == b_len,
            forall|k: int| 0 <= k < j ==> a@[k] == b@[k],
        decreases a_len - j,
    {
        if a.get_char(j) != b.get_char(j) {
            return false;
        }
        j = j + 1;
    }
    proof {
        assert(a@ =~= b@);
    }
    true
}

/// A line with one trailing carriage return removed.
pub open spec fn strip_cr(l: Seq<char>) -> Seq<char> {
    if l.len() > 0 && l.last() == '\r' {
        l.drop_last()
    } else {
        l
    }
}

/// Line-oriented split: pieces between newlines, tolerant of CRLF endings,
/// without a final empty piece.
pub open spec fn lines_seq(s: Seq<char>) -> Seq<Seq<char>> {
    let raw = split_seq(s, seq!['\n']);
    let kept = if raw.len() > 0 && raw.last().len() == 0 {
        raw.drop_last()
    } else {
        raw
    };
    kept.map_values(|l: Seq<char>| strip_cr(l))
}

/// Exec counterpart of `lines_seq`.
pub fn split_lines(s: &str) -> (v: Vec<String>)
    ensures
        v.deep_view() == lines_seq(s@),
{
    proof {
        reveal_strlit("\n");
        assert("\n"@ =~= seq!['\n']);
    }
    let mut raw = split_str(s, "\n");
    let raw_len = raw.len();
    if raw_len > 0 && raw[raw_len - 1].as_str().unicode_len() == 0 {
        raw.pop();
    }
    let ghost kept = raw.deep_view();
    let mut out: Vec<String> = Vec::new();
    let n = raw.len();
    let mut idx: usize = 0;
    while idx < n
        invariant
            0 <= idx <= n,
            n == raw@.len(),
            kept == raw.deep_view(),
            out.deep_view().len() == idx,
            forall|k: int| 0 <= k < idx ==> out.deep_view()[k] == strip_cr(kept[k]),
        decreases n - idx,
    {
        let llen = raw[idx].as_str().unicode_len();
        let ghost prev = out.deep_view();
        if llen > 0 && raw[idx].as_str().get_char(llen - 1) == '\r' {
            let stripped = raw[idx].as_str().substring_char(0, llen - 1).to_owned();
            proof {
                assert(stripped@ =~= kept[idx as int].drop_last());
            }
            out.push(stripped);
        } else {
            let copy = raw[idx].clone();
            out.push(copy);
        }
        proof {
            assert(out.deep_view() =~= prev.push(strip_cr(kept[idx as int])));
        }
        idx = idx + 1;
    }
    proof {
        assert(out.deep_view() =~= kept.map_values(|l: Seq<char>| strip_cr(l)));
    }
    out
}

/// Length of the leading run of non-space characters.
pub open spec fn token_len(s: Seq<char>) -> int
    decreases s.len(),
{
    if s.len() == 0 || is_space(s[0]) {
        0
    } else {
        1 + token_len(s.skip(1))
    }
}

pub proof fn lemma_token_len(s: Seq<char>)
    ensures
        0 <= token_len(s) <= s.len(),
    decreases s.len(),
{
    if s.len() > 0 && !is_space(s[0]) {
        lemma_token_len(s.skip(1));
    }
}

/// Whitespace-separated tokens of `s`, in order, without empties.
pub open spec fn fields_seq(s: Seq<char>) -> Seq<Seq<char>>
    decreases s.len() via fields_seq_decreases
{
    if s.len() == 0 {
        Seq::empty()
    } else if is_space(s[0]) {
        fields_seq(s.skip(1))
    } else {
        seq![s.take(token_len(s))] + fields_seq(s.skip(token_len(s)))
    }
}

#[via_fn]
proof fn fields_seq_decreases(s: Seq<char>) {
    lemma_token_len(s);
    if s.len() > 0 && !is_space(s[0]) {
        lemma_token_len(s.skip(1));
    }
}

/// Exec counterpart of `fields_seq`.
pub fn split_fields(s: &str) -> (v: Vec<String>)
    ensures
        v.deep_view() == fields_seq(s@),
{
    let mut v: Vec<String> = Vec::new();
    let mut rest: String = s.to_owned();
    loop
        invariant
            fields_seq(s@) =~= v.deep_view() + fields_seq(rest@),
        decreases rest@.len(),
    {
        let rlen = rest.as_str().unicode_len();
        if rlen == 0 {
            proof {
                assert(fields_seq(rest@) =~= Seq::<Seq<char>>::empty());
                assert(v.deep_view() + fields_seq(rest@) =~= v.deep_view());
            }
            return v;
        }
        if is_space_char(rest.as_str().get_char(0)) {
            let nr = rest.as_str().substring_char(1, rlen).to_owned();
            proof {
                assert(nr@ =~= rest@.skip(1));
            }
            rest = nr;
        } else {
            let mut j: usize = 1;
            proof {
                assert(rest@.skip(0) =~= rest@);
                assert(token_len(rest@) == 1 + token_len(rest@.skip(1)));
            }
            while j < rlen && !is_space_char(rest.as_str().get_char(j))
                invariant
                    1 <= j <= rlen,
                    rlen == rest@.len(),
                    token_len(rest@) == j + token_len(rest@.skip(j as int)),
                decreases rlen - j,
            {
                proof {
                    assert(rest@.skip(j as int).skip(1) =~= rest@.skip(j as int + 1));
                }
                j = j + 1;
            }
            proof {
                assert(token_len(rest@.skip(j as int)) == 0);
                assert(token_len(rest@) == j);
            }
            let piece = rest.as_str().substring_char(0, j).to_owned();
            let nr = rest.as_str().substring_char(j, rlen).to_owned();
            let ghost prev = v.deep_view();
            v.push(piece);
            proof {
                assert(piece@ =~= rest@.take(token_len(rest@)));
                assert(nr@ =~= rest@.skip(token_len(rest@)));
                assert(v.deep_view() =~= prev.push(rest@.take(token_len(rest@))));
                assert(v.deep_view() + fields_seq(nr@) =~= prev + fields_seq(rest@));
            }
            rest = nr;
            proof {
                lemma_token_len(rest@);
            }
        }
    }
}

/// ASCII digit.
pub open spec fn is_digit(c: char) -> bool {
    48 <= c as u32 && c as u32 <= 57
}

pub open spec fn digit_val(c: char) -> int {
    c as u32 - 48
}

pub open spec fn all_digits(s: Seq<char>) -> bool {
    forall|i: int| 0 <= i < s.len() ==> is_digit(s[i])
}

/// Numeric value of a digit string, most significant digit first.
pub open spec fn digits_val(s: Seq<char>) -> int
    decreases s.len(),
{
    if s.len() == 0 {
        0
    } else {
        digits_val(s.drop_last()) * 10 + digit_val(s.last())
    }
}

pub proof fn lemma_digits_val_nonneg(s: Seq<char>)
    requires
        all_digits(s),
    ensures
        digits_val(s) >= 0,
    decreases s.len(),
{
    if s.len() > 0 {
        assert(all_digits(s.drop_last()));
        lemma_digits_val_nonneg(s.drop_last());
    }
}

/// A digit string is worth at least any of its prefixes.
pub proof fn lemma_digits_val_prefix(s: Seq<char>, k: int)
    requires
        all_digits(s),
        0 <= k <= s.len(),
    ensures
        digits_val(s.take(k)) <= digits_val(s),
    decreases s.len() - k,
{
    if k < s.len() {
        lemma_digits_val_prefix(s, k + 1);
        assert(s.take(k + 1).drop_last() =~= s.take(k));
        assert(all_digits(s.take(k)));
        lemma_digits_val_nonneg(s.take(k));
        assert(digits_val(s.take(k + 1)) == digits_val(s.take(k)) * 10 + digit_val(s.take(k + 1).last()));
    } else {
        assert(s.take(k) =~= s);
    }
}

/// The value of a non-empty all-digit string when it fits in a `u32`.
pub open spec fn parse_u32_seq(s: Seq<char>) -> Option<u32> {
    if s.len() > 0 && all_digits(s) && digits_val(s) <= u32::MAX {
        Some(digits_val(s) as u32)
    } else {
        None
    }
}

/// Exec counterpart of `parse_u32_seq`.
pub fn parse_u32_str(s: &str) -> (r: Option<u32>)
    ensures
        r == parse_u32_seq(s@),
{
    let len = s.unicode_len();
    if len == 0 {
        return None;
    }
    let mut acc: u32 = 0;
    let mut i: usize = 0;
    while i < len
        invariant
            0 <= i <= len,
            len == s@.len(),
            all_digits(s@.take(i as int)),
            acc as int == digits_val(s@.take(i as int)),
        decreases len - i,
    {
        let c = s.get_char(i);
        let cu = c as u32;
        if cu < 48 || cu > 57 {
            proof {
                assert(!is_digit(s@[i as int]));
            }
            return None;
        }
        let d = cu - 48;
        proof {
            assert(s@.take(i as int + 1).drop_last() =~= s@.take(i as int));
            assert(s@.take(i as int + 1).last() == s@[i as int]);
            assert(all_digits(s@.take(i as int + 1)));
        }
        if acc > (u32::MAX - d) / 10 {
            proof {
                assert(acc as int * 10 + d > u32::MAX) by (nonlinear_arith)
                    requires
                        acc > ((u32::MAX - d) / 10),
                        0 <= d <= 9,
                        acc <= u32::MAX,
                {}
                assert(digits_val(s@.take(i as int + 1)) > u32::MAX);
                if all_digits(s@) {
                    lemma_digits_val_prefix(s@, i as int + 1);
                }
            }
            return None;
        }
        acc = acc * 10 + d;
        i = i + 1;
    }
    proof {
        assert(s@.take(len as int) =~= s@);
    }
    Some(acc)
}

/// `s` with every occurrence of `pat` replaced by `to`, left to right.
pub open spec fn replace_seq(s: Seq<char>, pat: Seq<char>, to: Seq<char>) -> Seq<char>
    decreases s.len() when pat.len() > 0 via replace_seq_decreases
{
    let i = find_seq_from(s, pat, 0);
    if i < 0 {
        s
    } else {
        s.subrange(0, i) + to + replace_seq(s.subrange(i + pat.len(), s.len() as int), pat, to)
    }
}

#[via_fn]
proof fn replace_seq_decreases(s: Seq<char>, pat: Seq<char>, to: Seq<char>) {
    lemma_find_seq_from(s, pat, 0);
}

/// Exec counterpart of `replace_seq`.
pub fn replace_str(s: &str, pat: &str, to: &str) -> (r: String)
    requires
        pat@.len() > 0,
    ensures
        r@ == replace_seq(s@, pat@, to@),
{
    let mut out: String = String::new();
    let mut rest: String = s.to_owned();
    let pat_len = pat.unicode_len();
    loop
        invariant
            pat_len == pat@.len(),
            pat@.len() > 0,
            replace_seq(s@, pat@, to@) =~= out@ + replace_seq(rest@, pat@, to@),
        decreases rest@.len(),
    {
        proof {
            lemma_find_seq_from(rest@, pat@, 0);
        }
        match find_sub_from(rest.as_str(), pat, 0) {
            Some(i) => {
                let rest_len = rest.as_str().unicode_len();
                let pre = rest.as_str().substring_char(0, i);
                out.append(pre);
                out.append(to);
                let new_rest = rest.as_str().substring_char(i + pat_len, rest_len).to_owned();
                proof {
                    assert(out@ + replace_seq(new_rest@, pat@, to@) =~= replace_seq(s@, pat@, to@));
                }
                rest = new_rest;
            },
            None => {
                out.append(rest.as_str());
                proof {
                    assert(out@ =~= replace_seq(s@, pat@, to@));
                }
                return out;
            },
        }
    }
}

/// Lower-cased code of an ASCII character; other characters unchanged.
pub open spec fn lower_code(c: char) -> int {
    if 65 <= c as u32 && c as u32 <= 90 {
        c as u32 + 32
    } else {
        c as u32 as int
    }
}

/// `p` (already lower case) is a prefix of `s` compared ASCII-case-insensitively.
pub open spec fn ci_prefix(s: Seq<char>, p: Seq<char>) -> bool {
    p.len() <= s.len() && forall|j: int| 0 <= j < p.len() ==> lower_code(s[j]) == p[j] as u32
}

/// Exec counterpart of `ci_prefix`.
pub fn starts_with_ci(s: &str, p: &str) -> (b: bool)
    ensures
        b == ci_prefix(s@, p@),
{
    let s_len = s.unicode_len();
    let p_len = p.unicode_len();
    if p_len > s_len {
        return false;
    }
    let mut j: usize = 0;
    while j < p_len
        invariant
            0 <= j <= p_len,
            p_len == p@.len(),
            s_len == s@.len(),
            p_len <= s_len,
            forall|k: int| 0 <= k < j ==> lower_code(s@[k]) == p@[k] as u32,
        decreases p_len - j,
    {
        let cu = s.get_char(j) as u32;
        let lc = if cu >= 65 && cu <= 90 {
            cu + 32
        } else {
            cu
        };
        if lc != p.get_char(j) as u32 {
            return false;
        }
        j = j + 1;
    }
    true
}

} // verus!
