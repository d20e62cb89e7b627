//! Verified text utilities: conversion between strings and character
//! vectors, trimming, splitting, ASCII case folding and equality.

use vstd::prelude::*;

verus! {

/// Relies on String::push: appends one character to the string.
#[verifier::external_body]
pub fn push_char(s: &mut String, c: char)
    ensures
        final(s)@ == old(s)@.push(c),
{
    s.push(c);
}

/// The characters of `s`, in order.
pub fn str_chars(s: &str) -> (r: Vec<char>)
    ensures
        r@ == s@,
{
    let n = s.unicode_len();
    let mut out: Vec<char> = Vec::new();
    let mut i: usize = 0;
    while i < n
        invariant
            n == s@.len(),
            i <= n,
            out@ =~= s@.subrange(0, i as int),
        decreases n - i,
    {
        out.push(s.get_char(i));
        i += 1;
    }
    assert(out@ =~= s@);
    out
}

/// The string holding exactly the characters of `v`.
pub fn chars_to_string(v: &Vec<char>) -> (r: String)
    ensures
        r@ == v@,
{
    let mut out = String::new();
    let mut i: usize = 0;
    while i < v.len()
        invariant
            i <= v@.len(),
            out@ =~= v@.subrange(0, i as int),
        decreases v@.len() - i,
    {
        push_char(&mut out, v[i]);
        i += 1;
    }
    assert(out@ =~= v@);
    out
}

/// Whether `c` has the Unicode `White_Space` property.
pub open spec fn is_space_char(c: char) -> bool {
    c == ' ' || c == '\t' || c == '\n' || c == '\r' || c == '\u{0B}' || c == '\u{0C}'
        || c == '\u{85}' || c == '\u{A0}' || c == '\u{1680}'
        || ('\u{2000}' <= c && c <= '\u{200A}') || c == '\u{2028}' || c == '\u{2029}'
        || c == '\u{202F}' || c == '\u{205F}' || c == '\u{3000}'
}

/// Whether `c` has the Unicode `White_Space` property.
#[verifier::when_used_as_spec(is_space_char)]
pub fn is_space(c: char) -> (r: bool)
    ensures
        r == is_space_char(c),
{
    c == ' ' || c == '\t' || c == '\n' || c == '\r' || c == '\u{0B}' || c == '\u{0C}'
        || c == '\u{85}' || c == '\u{A0}' || c == '\u{1680}'
        || ('\u{2000}' <= c && c <= '\u{200A}') || c == '\u{2028}' || c == '\u{2029}'
        || c == '\u{202F}' || c == '\u{205F}' || c == '\u{3000}'
}

/// `s` without leading whitespace.
pub open spec fn trim_front_spec(s: Seq<char>) -> Seq<char>
    decreases s.len(),
{
    if s.len() > 0 && is_space_char(s[0]) {
        trim_front_spec(s.drop_first())
    } else {
        s
    }
}

/// `s` without trailing whitespace.
pub open spec fn trim_back_spec(s: Seq<char>) -> Seq<char>
    decreases s.len(),
{
    if s.len() > 0 && is_space_char(s.last()) {
        trim_back_spec(s.drop_last())
    } else {
        s
    }
}

/// `s` without leading or trailing whitespace.
pub open spec fn trim_spec(s: Seq<char>) -> Seq<char> {
    trim_back_spec(trim_front_spec(s))
}

proof fn lemma_trim_front_range(s: Seq<char>, k: int)
    requires
        0 <= k <= s.len(),
        forall|j: int| 0 <= j < k ==> is_space_char(s[j]),
        k == s.len() || !is_space_char(s[k]),
    ensures
        trim_front_spec(s) =~= s.subrange(k, s.len() as int),
    decreases s.len(),
{
    if s.len() > 0 && is_space_char(s[0]) {
        assert(k > 0) by {
            if k == 0 {
                assert(!is_space_char(s[0]));
            }
        }
        let t = s.drop_first();
        assert(forall|j: int| 0 <= j < k - 1 ==> is_space_char(t[j]));
        lemma_trim_front_range(t, k - 1);
        assert(t.subrange(k - 1, t.len() as int) =~= s.subrange(k, s.len() as int));
    } else {
        assert(k == 0) by {
            if k > 0 {
                assert(is_space_char(s[0]));
            }
        }
        assert(s.subrange(0, s.len() as int) =~= s);
    }
}

proof fn lemma_trim_back_range(s: Seq<char>, k: int)
    requires
        0 <= k <= s.len(),
        forall|j: int| k <= j < s.len() ==> is_space_char(s[j]),
        k == 0 || !is_space_char(s[k - 1]),
    ensures
        trim_back_spec(s) =~= s.subrange(0, k),
    decreases s.len(),
{
    if s.len() > 0 && is_space_char(s.last()) {
        assert(k < s.len()) by {
            if k == s.len() {
                assert(!is_space_char(s[k - 1]));
            }
        }
        let t = s.drop_last();
        lemma_trim_back_range(t, k);
        assert(t.subrange(0, k) =~= s.subrange(0, k));
    } else {
        assert(k == s.len()) by {
            if k < s.len() {
                assert(is_space_char(s[s.len() - 1]));
            }
        }
        assert(s.subrange(0, s.len() as int) =~= s);
    }
}

/// The characters of `v` without leading or trailing whitespace.
pub fn trim_chars(v: &Vec<char>) -> (r: Vec<char>)
    ensures
        r@ == trim_spec(v@),
{
    let n = v.len();
    let mut start: usize = 0;
    while start < n && is_space(v[start])
        invariant
            n == v@.len(),
            start <= n,
            forall|j: int| 0 <= j < start ==> is_space_char(v@[j]),
        decreases n - start,
    {
        start += 1;
    }
    let mut end: usize = n;
    while end > start && is_space(v[end - 1])
        invariant
            n == v@.len(),
            start <= end <= n,
            forall|j: int| end <= j < n ==> is_space_char(v@[j]),
            forall|j: int| 0 <= j < start ==> is_space_char(v@[j]),
            start == n || !is_space_char(v@[start as int]),
        decreases end,
    {
        end -= 1;
    }
    proof {
        lemma_trim_front_range(v@, start as int);
        let f = v@.subrange(start as int, n as int);
        if end > start {
            lemma_trim_back_range(f, end - start);
        } else {
            lemma_trim_back_range(f, 0);
        }
    }
    let mut out: Vec<char> = Vec::new();
    let mut i: usize = start;
    while i < end
        invariant
            n == v@.len(),
            start <= i <= end <= n,
            out@ =~= v@.subrange(start as int, i as int),
        decreases end - i,
    {
        out.push(v[i]);
        i += 1;
    }
    assert(out@ =~= v@.subrange(start as int, n as int).subrange(0, (end - start) as int));
    out
}

/// Tokenization on a single-character separator, defined left to right:
/// a separator always ends the current token and opens a new one, so the
/// result always holds one more token than there are separators.
pub open spec fn split_step(parts: Seq<Seq<char>>, c: char, sep: char) -> Seq<Seq<char>>
    recommends
        parts.len() > 0,
{
    if c == sep {
        parts.push(Seq::empty())
    } else {
        parts.update(parts.len() - 1, parts.last().push(c))
    }
}

/// The tokens of `s` split on `sep`.
pub open spec fn split_text(s: Seq<char>, sep: char) -> Seq<Seq<char>>
    decreases s.len(),
{
    if s.len() == 0 {
        seq![Seq::empty()]
    } else {
        split_step(split_text(s.drop_last(), sep), s.last(), sep)
    }
}

/// `split_text` always yields at least one token.
pub proof fn lemma_split_text_len(s: Seq<char>, sep: char)
    ensures
        split_text(s, sep).len() >= 1,
    decreases s.len(),
{
    if s.len() > 0 {
        lemma_split_text_len(s.drop_last(), sep);
    }
}

/// The models of a vector of strings, in order.
pub open spec fn strs_view(v: Seq<String>) -> Seq<Seq<char>> {
    v.map_values(|t: String| t@)
}

/// The tokens of `v` split on `sep`, as strings.
pub fn split_on_char(v: &Vec<char>, sep: char) -> (r: Vec<String>)
    ensures
        strs_view(r@) =~= split_text(v@, sep),
        r@.len() >= 1,
{
    let mut out: Vec<String> = Vec::new();
    let mut cur: Vec<char> = Vec::new();
    let mut i: usize = 0;
    while i < v.len()
        invariant
            i <= v@.len(),
            split_text(v@.subrange(0, i as int), sep).len() >= 1,
            strs_view(out@).push(cur@) =~= split_text(v@.subrange(0, i as int), sep),
        decreases v@.len() - i,
    {
        proof {
            assert(v@.subrange(0, i + 1).drop_last() =~= v@.subrange(0, i as int));
            lemma_split_text_len(v@.subrange(0, i + 1), sep);
        }
        if v[i] == sep {
            let done = chars_to_string(&cur);
            out.push(done);
            cur = Vec::new();
        } else {
            push_char_vec(&mut cur, v[i]);
        }
        i += 1;
    }
    let done = chars_to_string(&cur);
    out.push(done);
    proof {
        assert(v@.subrange(0, v@.len() as int) =~= v@);
    }
    out
}

fn push_char_vec(v: &mut Vec<char>, c: char)
    ensures
        final(v)@ == old(v)@.push(c),
{
    v.push(c);
}

/// The position of the first occurrence of the (nonempty) `sep` in `s`,
/// if any.
pub open spec fn find_sub(s: Seq<char>, sep: Seq<char>) -> Option<int>
    decreases s.len(),
{
    if sep.len() == 0 {
        Some(0)
    } else if s.len() < sep.len() {
        None
    } else if s.subrange(0, sep.len() as int) == sep {
        Some(0)
    } else {
        match find_sub(s.drop_first(), sep) {
            Some(i) => Some(i + 1),
            None => None,
        }
    }
}

/// The tokens of `s` split on the substring `sep`, left to right and
/// non-overlapping.
pub open spec fn split_sub_text(s: Seq<char>, sep: Seq<char>) -> Seq<Seq<char>>
    recommends
        sep.len() > 0,
    decreases s.len(),
{
    match find_sub(s, sep) {
        Some(i) => if sep.len() > 0 && 0 <= i && i + sep.len() <= s.len() {
            seq![s.take(i)] + split_sub_text(s.skip(i + sep.len() as int), sep)
        } else {
            seq![s]
        },
        None => seq![s],
    }
}

/// Where `find_sub` finds: the first position where `sep` occurs.
pub proof fn lemma_find_sub(s: Seq<char>, sep: Seq<char>)
    requires
        sep.len() > 0,
    ensures
        match find_sub(s, sep) {
            Some(i) => 0 <= i && i + sep.len() <= s.len() && s.subrange(i, i + sep.len() as int)
                =~= sep && forall|j: int| 0 <= j < i ==> #[trigger] s.subrange(
                j,
                j + sep.len() as int,
            ) != sep,
            None => forall|j: int| 0 <= j && j + sep.len() <= s.len() ==> #[trigger] s.subrange(
                j,
                j + sep.len() as int,
            ) != sep,
        },
    decreases s.len(),
{
    if s.len() < sep.len() {
    } else if s.subrange(0, sep.len() as int) == sep {
    } else {
        lemma_find_sub(s.drop_first(), sep);
        let t = s.drop_first();
        assert forall|j: int| 0 <= j && j + sep.len() <= t.len() implies #[trigger] t.subrange(
            j,
            j + sep.len() as int,
        ) =~= s.subrange(j + 1, j + 1 + sep.len() as int) by {}
        match find_sub(t, sep) {
            Some(i) => {
                assert(t.subrange(i, i + sep.len() as int) =~= sep);
                assert(s.subrange(i + 1, i + 1 + sep.len() as int) =~= t.subrange(
                    i,
                    i + sep.len() as int,
                ));
                assert forall|j: int| 0 <= j < i + 1 implies #[trigger] s.subrange(
                    j,
                    j + sep.len() as int,
                ) != sep by {
                    if j > 0 {
                        assert(t.subrange(j - 1, j - 1 + sep.len() as int) =~= s.subrange(
                            j,
                            j + sep.len() as int,
                        ));
                        assert(t.subrange(j - 1, j - 1 + sep.len() as int) != sep);
                    }
                }
            },
            None => {
                assert forall|j: int| 0 <= j && j + sep.len() <= s.len() implies
                    #[trigger] s.subrange(j, j + sep.len() as int) != sep by {
                    if j > 0 {
                        assert(t.subrange(j - 1, j - 1 + sep.len() as int) =~= s.subrange(
                            j,
                            j + sep.len() as int,
                        ));
                        assert(t.subrange(j - 1, j - 1 + sep.len() as int) != sep);
                    }
                }
            },
        }
    }
}

/// Finds the first occurrence of `sep` at or after `from`, per `find_sub`
/// on the suffix.
pub fn find_sub_chars(v: &Vec<char>, from: usize, sep: &Vec<char>) -> (r: Option<usize>)
    requires
        from <= v@.len(),
        sep@.len() > 0,
    ensures
        match r {
            Some(i) => from <= i && find_sub(v@.skip(from as int), sep@) == Some(
                i as int - from as int,
            ),
            None => find_sub(v@.skip(from as int), sep@) is None,
        },
{
    let ghost s = v@.skip(from as int);
    let n = v.len();
    let m = sep.len();
    if m > n || from > n - m {
        proof {
            lemma_find_sub(s, sep@);
            if find_sub(s, sep@) is Some {
                let f = find_sub(s, sep@)->Some_0;
                assert(f + m <= s.len());
            }
        }
        return None;
    }
    let mut i: usize = from;
    while i <= n - m
        invariant
            s == v@.skip(from as int),
            from <= i,
            i <= n - m + 1,
            m <= n,
            from <= n - m,
            n == v@.len(),
            m == sep@.len(),
            m > 0,
            forall|j: int| 0 <= j < i as int - from ==> #[trigger] s.subrange(j, j + m) != sep@,
        decreases n - i,
    {
        let mut k: usize = 0;
        let mut matches_here = true;
        while k < m && matches_here
            invariant
                s == v@.skip(from as int),
                from <= i,
                i + m <= n,
                n == v@.len(),
                m == sep@.len(),
                k <= m,
                matches_here ==> (forall|q: int| 0 <= q < k ==> s[i as int - from + q]
                    == #[trigger] sep@[q]),
                !matches_here ==> (exists|q: int| 0 <= q < m && s[i as int - from + q]
                    != #[trigger] sep@[q]),
            decreases m - k + (if matches_here { 1int } else { 0int }),
        {
            proof {
                assert(s[i as int - from + k] == v@[i + k]);
            }
            if v[i + k] != sep[k] {
                matches_here = false;
                proof {
                    assert(s[i as int - from + k] != sep@[k as int]);
                }
            } else {
                proof {
                    assert forall|q: int| 0 <= q < k + 1 implies s[i as int - from + q]
                        == #[trigger] sep@[q] by {}
                }
                k += 1;
            }
        }
        if matches_here {
            proof {
                assert(k == m);
                assert(s.subrange(i as int - from, i as int - from + m) =~= sep@);
                lemma_find_sub(s, sep@);
                assert(find_sub(s, sep@) is Some) by {
                    if find_sub(s, sep@) is None {
                        assert(s.subrange(i as int - from, i as int - from + m) != sep@);
                    }
                }
                let f = find_sub(s, sep@)->Some_0;
                assert(f == i as int - from) by {
                    if f < i as int - from {
                        assert(s.subrange(f, f + m) =~= sep@);
                    }
                    if f > i as int - from {
                        assert(s.subrange(i as int - from, i as int - from + m) != sep@);
                    }
                }
            }
            return Some(i);
        }
        proof {
            assert(s.subrange(i as int - from, i as int - from + m) != sep@) by {
                let q = choose|q: int| 0 <= q < m && s[i as int - from + q] != sep@[q];
                if s.subrange(i as int - from, i as int - from + m) =~= sep@ {
                    assert(s.subrange(i as int - from, i as int - from + m)[q] == s[i as int - from
                        + q]);
                }
            }
            assert forall|j: int| 0 <= j < i as int + 1 - from implies #[trigger] s.subrange(
                j,
                j + m,
            ) != sep@ by {}
        }
        i += 1;
    }
    proof {
        lemma_find_sub(s, sep@);
        if find_sub(s, sep@) is Some {
            let f = find_sub(s, sep@)->Some_0;
            assert(s.subrange(f, f + m) =~= sep@);
            assert(f + m <= s.len());
            assert(s.subrange(f, f + m) != sep@);
        }
    }
    None
}

/// The tokens of `v` split on the substring `sep`, per `split_sub_text`.
pub fn split_on_str(v: &Vec<char>, sep: &Vec<char>) -> (r: Vec<String>)
    requires
        sep@.len() > 0,
    ensures
        strs_view(r@) =~= split_sub_text(v@, sep@),
{
    let mut out: Vec<String> = Vec::new();
    let mut start: usize = 0;
    let ghost whole = v@;
    proof {
        assert(v@.skip(0) =~= whole);
        assert(strs_view(out@) + split_sub_text(whole, sep@) =~= split_sub_text(whole, sep@));
    }
    while start <= v.len()
        invariant
            whole == v@,
            sep@.len() > 0,
            start <= v@.len() + 1,
            split_sub_text(whole, sep@) =~= strs_view(out@) + split_sub_text(
                v@.skip(start as int),
                sep@,
            ),
            start <= v@.len(),
        decreases v@.len() - start,
    {
        match find_sub_chars(v, start, sep) {
            Some(i) => {
                proof {
                    lemma_find_sub(v@.skip(start as int), sep@);
                    assert(i as int - start + sep@.len() <= v@.skip(start as int).len());
                    assert(v@.subrange(start as int, start as int) =~= Seq::<char>::empty());
                }
                let mut tok: Vec<char> = Vec::new();
                let mut j: usize = start;
                while j < i
                    invariant
                        start <= j <= i,
                        i <= v@.len(),
                        tok@ =~= v@.subrange(start as int, j as int),
                    decreases i - j,
                {
                    tok.push(v[j]);
                    j += 1;
                }
                let ts = chars_to_string(&tok);
                out.push(ts);
                let next = i + sep.len();
                proof {
                    let s = v@.skip(start as int);
                    assert(s.take(i as int - start) =~= v@.subrange(start as int, i as int));
                    assert(s.skip(i as int - start + sep@.len()) =~= v@.skip(next as int));
                    assert(strs_view(out@) =~= strs_view(out@.drop_last()) + seq![
                        v@.subrange(start as int, i as int),
                    ]);
                    assert(split_sub_text(s, sep@) =~= seq![s.take(i as int - start)]
                        + split_sub_text(v@.skip(next as int), sep@));
                    assert(strs_view(out@) + split_sub_text(v@.skip(next as int), sep@)
                        =~= strs_view(out@.drop_last()) + split_sub_text(s, sep@));
                }
                start = next;
            },
            None => {
                proof {
                    assert(v@.subrange(start as int, start as int) =~= Seq::<char>::empty());
                }
                let mut tok: Vec<char> = Vec::new();
                let mut j: usize = start;
                while j < v.len()
                    invariant
                        start <= j <= v@.len(),
                        tok@ =~= v@.subrange(start as int, j as int),
                    decreases v@.len() - j,
                {
                    tok.push(v[j]);
                    j += 1;
                }
                let ts = chars_to_string(&tok);
                out.push(ts);
                proof {
                    assert(v@.subrange(start as int, v@.len() as int) =~= v@.skip(start as int));
                    assert(strs_view(out@) =~= strs_view(out@.drop_last()) + seq![
                        v@.skip(start as int),
                    ]);
                    assert(split_sub_text(v@.skip(start as int), sep@) =~= seq![
                        v@.skip(start as int),
                    ]);
                    assert(strs_view(out@) =~= split_sub_text(whole, sep@));
                }
                return out;
            },
        }
    }
    proof {
        assert(false);
    }
    out
}

/// ASCII upper-case letters folded to lower case; all else unchanged.
pub open spec fn lower_char(c: char) -> char {
    if 'A' <= c && c <= 'Z' {
        ((c as u8) + 32) as char
    } else {
        c
    }
}

/// `s` with every ASCII upper-case letter folded to lower case.
pub open spec fn lower_text(s: Seq<char>) -> Seq<char> {
    s.map_values(|c: char| lower_char(c))
}

/// The characters of `v` with ASCII letters folded to lower case.
pub fn lower_chars(v: &Vec<char>) -> (r: Vec<char>)
    ensures
        r@ =~= lower_text(v@),
{
    let mut out: Vec<char> = Vec::new();
    let mut i: usize = 0;
    while i < v.len()
        invariant
            i <= v@.len(),
            out@ =~= lower_text(v@.subrange(0, i as int)),
        decreases v@.len() - i,
    {
        let c = v[i];
        if 'A' <= c && c <= 'Z' {
            out.push(((c as u8) + 32) as char);
        } else {
            out.push(c);
        }
        i += 1;
    }
    assert(v@.subrange(0, v@.len() as int) =~= v@);
    out
}

/// Whether two string slices hold the same characters.
pub fn str_eq(a: &str, b: &str) -> (r: bool)
    ensures
        r == (a@ == b@),
{
    let na = a.unicode_len();
    let nb = b.unicode_len();
    if na != nb {
        proof {
            assert(a@ =~= b@ ==> a@.len() == b@.len());
        }
        return false;
    }
    let mut i: usize = 0;
    while i < na
        invariant
            na == a@.len(),
            na == b@.len(),
            i <= na,
            forall|j: int| 0 <= j < i ==> a@[j] == b@[j],
        decreases na - i,
    {
        if a.get_char(i) != b.get_char(i) {
            proof {
                assert(a@[i as int] != b@[i as int]);
            }
            return false;
        }
        i += 1;
    }
    proof {
        assert(a@ =~= b@);
    }
    true
}

/// Whether the characters of `v` are exactly those of `s`.
pub fn chars_eq_str(v: &Vec<char>, s: &str) -> (r: bool)
    ensures
        r == (v@ == s@),
{
    let n = s.unicode_len();
    if v.len() != n {
        proof {
            assert(v@ =~= s@ ==> v@.len() == s@.len());
        }
        return false;
    }
    let mut i: usize = 0;
    while i < n
        invariant
            n == s@.len(),
            n == v@.len(),
            i <= n,
            forall|j: int| 0 <= j < i ==> v@[j] == s@[j],
        decreases n - i,
    {
        if v[i] != s.get_char(i) {
            proof {
                assert(v@[i as int] != s@[i as int]);
            }
            return false;
        }
        i += 1;
    }
    proof {
        assert(v@ =~= s@);
    }
    true
}

} // verus!
