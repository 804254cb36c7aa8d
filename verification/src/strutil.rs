//! Verified building blocks for line-oriented text processing: trimming,
//! substring search, tokenizing, splitting and joining, and decimal parsing.
//! Every executable function is specified against a recursive spec function
//! over `Seq<char>`.

use vstd::prelude::*;

verus! {

/// The whitespace characters recognised by trimming and tokenizing.
pub open spec fn is_space_char(c: char) -> bool {
    c == ' ' || c == '\t' || c == '\n' || c == '\r' || c == '\u{b}' || c == '\u{c}'
}

/// `s` with trailing whitespace removed.
pub open spec fn rtrim_spec(s: Seq<char>) -> Seq<char>
    decreases s.len(),
{
    if s.len() > 0 && is_space_char(s.last()) {
        rtrim_spec(s.drop_last())
    } else {
        s
    }
}

/// `s` with leading and trailing whitespace removed.
pub open spec fn trim_spec(s: Seq<char>) -> Seq<char>
    decreases s.len(),
{
    if s.len() > 0 && is_space_char(s.first()) {
        trim_spec(s.drop_first())
    } else {
        rtrim_spec(s)
    }
}

/// `pat` occurs in `s` at position `i`.
pub open spec fn occurs_at(s: Seq<char>, pat: Seq<char>, i: int) -> bool {
    0 <= i && i + pat.len() <= s.len() && s.subrange(i, i + pat.len()) == pat
}

/// Position of the first occurrence of `pat` in `s` at or after `from`.
pub open spec fn find_from(s: Seq<char>, pat: Seq<char>, from: int) -> Option<int>
    decreases s.len() + 1 - from,
    when 0 <= from
{
    if from + pat.len() > s.len() {
        None
    } else if occurs_at(s, pat, from) {
        Some(from)
    } else {
        find_from(s, pat, from + 1)
    }
}

/// Position of the first occurrence of `pat` in `s`, if any.
pub open spec fn find_spec(s: Seq<char>, pat: Seq<char>) -> Option<int> {
    find_from(s, pat, 0)
}

/// `pat` occurs somewhere in `s`.
pub open spec fn contains_sub(s: Seq<char>, pat: Seq<char>) -> bool {
    exists|i: int| occurs_at(s, pat, i)
}

pub proof fn lemma_find_from_correct(s: Seq<char>, pat: Seq<char>, from: int)
    requires
        0 <= from,
    ensures
        match find_from(s, pat, from) {
            Some(i) => occurs_at(s, pat, i) && from <= i && forall|j: int|
                from <= j < i ==> !occurs_at(s, pat, j),
            None => forall|j: int| from <= j ==> !occurs_at(s, pat, j),
        },
    decreases s.len() + 1 - from,
{
    if from + pat.len() > s.len() {
    } else if occurs_at(s, pat, from) {
    } else {
        lemma_find_from_correct(s, pat, from + 1);
    }
}

/// Trims leading and trailing whitespace from a string slice.
pub fn trim_str(s: &str) -> (r: &str)
    ensures
        r@ == trim_spec(s@),
{
    let n = s.unicode_len();
    let mut i: usize = 0;
    proof {
        assert(s@.skip(0) =~= s@);
    }
    while i < n && is_space_exec(s.get_char(i))
        invariant
            0 <= i <= n,
            n == s@.len(),
            trim_spec(s@) == trim_spec(s@.skip(i as int)),
        decreases n - i,
    {
        proof {
            assert(s@.skip(i as int).drop_first() =~= s@.skip(i + 1));
        }
        i += 1;
    }
    proof {
        assert(s@.skip(i as int).len() == n - i);
    }
    if i == n {
        proof {
            assert(s@.skip(i as int) =~= Seq::<char>::empty());
            assert(trim_spec(s@) =~= Seq::<char>::empty());
        }
        let r = s.substring_char(0, 0);
        proof {
            assert(r@ =~= trim_spec(s@));
        }
        return r;
    }
    proof {
        assert(s@.skip(i as int).first() == s@[i as int]);
        assert(trim_spec(s@.skip(i as int)) == rtrim_spec(s@.skip(i as int)));
        assert(s@.subrange(i as int, n as int) =~= s@.skip(i as int));
    }
    let mut j: usize = n;
    while j > i && is_space_exec(s.get_char(j - 1))
        invariant
            i <= j <= n,
            n == s@.len(),
            i < n,
            !is_space_char(s@[i as int]),
            trim_spec(s@) == rtrim_spec(s@.subrange(i as int, j as int)),
        decreases j,
    {
        proof {
            let t = s@.subrange(i as int, j as int);
            assert(t.last() == s@[j - 1]);
            assert(t.drop_last() =~= s@.subrange(i as int, j - 1));
        }
        j -= 1;
    }
    proof {
        let t = s@.subrange(i as int, j as int);
        if j > i {
            assert(t.last() == s@[j - 1]);
            assert(rtrim_spec(t) == t);
        } else {
            assert(t =~= Seq::<char>::empty());
            assert(rtrim_spec(t) == t);
        }
    }
    let r = s.substring_char(i, j);
    r
}

/// Executable test for the whitespace set.
pub fn is_space_exec(c: char) -> (r: bool)
    ensures
        r == is_space_char(c),
{
    c == ' ' || c == '\t' || c == '\n' || c == '\r' || c == '\u{b}' || c == '\u{c}'
}

/// Character-wise equality of two string slices.
pub fn str_eq(a: &str, b: &str) -> (r: bool)
    ensures
        r == (a@ == b@),
{
    let na = a.unicode_len();
    let nb = b.unicode_len();
    if na != nb {
        proof {
            assert(a@ != b@);
        }
        return false;
    }
    let mut i: usize = 0;
    while i < na
        invariant
            0 <= i <= na,
            na == a@.len(),
            na == b@.len(),
            forall|k: int| 0 <= k < i ==> a@[k] == b@[k],
        decreases na - i,
    {
        if a.get_char(i) != b.get_char(i) {
            proof {
                assert(a@[i as int] != b@[i as int]);
            }
            return false;
        }
        i += 1;
    }
    proof {
        assert(a@ =~= b@);
    }
    true
}

/// Does `s` begin with `pre`?
pub fn starts_with_str(s: &str, pre: &str) -> (r: bool)
    ensures
        r == (pre@.len() <= s@.len() && s@.take(pre@.len() as int) == pre@),
{
    let n = s.unicode_len();
    let m = pre.unicode_len();
    if m > n {
        return false;
    }
    let mut i: usize = 0;
    while i < m
        invariant
            0 <= i <= m,
            m <= n,
            n == s@.len(),
            m == pre@.len(),
            forall|k: int| 0 <= k < i ==> s@[k] == pre@[k],
        decreases m - i,
    {
        if s.get_char(i) != pre.get_char(i) {
            proof {
                assert(s@.take(m as int)[i as int] != pre@[i as int]);
            }
            return false;
        }
        i += 1;
    }
    proof {
        assert(s@.take(m as int) =~= pre@);
    }
    true
}

/// Does `s` end with `suf`?
pub fn ends_with_str(s: &str, suf: &str) -> (r: bool)
    ensures
        r == (suf@.len() <= s@.len() && s@.skip(s@.len() - suf@.len()) == suf@),
{
    let n = s.unicode_len();
    let m = suf.unicode_len();
    if m > n {
        return false;
    }
    let mut i: usize = 0;
    while i < m
        invariant
            0 <= i <= m,
            m <= n,
            n == s@.len(),
            m == suf@.len(),
            forall|k: int| 0 <= k < i ==> s@[n - m + k] == suf@[k],
        decreases m - i,
    {
        if s.get_char(n - m + i) != suf.get_char(i) {
            proof {
                assert(s@.skip(n - m)[i as int] != suf@[i as int]);
            }
            return false;
        }
        i += 1;
    }
    proof {
        assert(s@.skip(n - m) =~= suf@);
    }
    true
}

/// First occurrence of `pat` in `s`, as `find_spec` describes it.
pub fn find_str(s: &str, pat: &str) -> (r: Option<usize>)
    ensures
        match r {
            Some(i) => find_spec(s@, pat@) == Some(i as int) && occurs_at(s@, pat@, i as int),
            None => find_spec(s@, pat@) is None,
        },
{
    proof {
        lemma_find_from_correct(s@, pat@, 0);
    }
    let n = s.unicode_len();
    let m = pat.unicode_len();
    if m > n {
        return None;
    }
    if m == 0 {
        proof {
            assert(s@.subrange(0, 0) =~= pat@);
            assert(occurs_at(s@, pat@, 0));
        }
        return Some(0);
    }
    let mut i: usize = 0;
    while i <= n - m
        invariant
            0 <= i <= n - m + 1,
            1 <= m <= n,
            n == s@.len(),
            m == pat@.len(),
            find_from(s@, pat@, 0) == find_from(s@, pat@, i as int),
        decreases n - i,
    {
        let mut k: usize = 0;
        let mut matched = true;
        while k < m
            invariant
                0 <= k <= m,
                i + m <= n,
                n == s@.len(),
                m == pat@.len(),
                matched ==> forall|t: int| 0 <= t < k ==> s@[i + t] == pat@[t],
                !matched ==> !occurs_at(s@, pat@, i as int),
            decreases m - k,
        {
            if s.get_char(i + k) != pat.get_char(k) {
                proof {
                    assert(s@.subrange(i as int, i + m)[k as int] != pat@[k as int]);
                }
                matched = false;
                k = m;
            } else {
                k += 1;
            }
        }
        if matched {
            proof {
                assert(s@.subrange(i as int, i + m) =~= pat@);
                assert(occurs_at(s@, pat@, i as int));
            }
            return Some(i);
        }
        i += 1;
    }
    proof {
        assert(find_from(s@, pat@, i as int) is None);
    }
    None
}

/// The whitespace-separated tokens of `s`: maximal runs of non-whitespace
/// characters, in order.
pub open spec fn tokens_spec(s: Seq<char>) -> Seq<Seq<char>>
    decreases s.len(),
{
    if s.len() == 0 {
        Seq::empty()
    } else if is_space_char(s[0]) {
        tokens_spec(s.drop_first())
    } else {
        let rest = tokens_spec(s.drop_first());
        if s.len() >= 2 && !is_space_char(s[1]) {
            seq![seq![s[0]] + rest[0]] + rest.skip(1)
        } else {
            seq![seq![s[0]]] + rest
        }
    }
}

/// Peeling one whole token off the front of a string that starts with it.
proof fn lemma_tokens_run(s: Seq<char>, k: int)
    requires
        1 <= k <= s.len(),
        forall|j: int| 0 <= j < k ==> !is_space_char(s[j]),
        k < s.len() ==> is_space_char(s[k]),
    ensures
        tokens_spec(s) == seq![s.take(k)] + tokens_spec(s.skip(k)),
    decreases k,
{
    let rest = tokens_spec(s.drop_first());
    if k == 1 {
        if s.len() == 1 {
            assert(s.take(1) =~= seq![s[0]]);
            assert(s.skip(1) =~= s.drop_first());
            assert(tokens_spec(s) =~= seq![s.take(k)] + tokens_spec(s.skip(k)));
        } else {
            assert(is_space_char(s[1]));
            assert(s.take(1) =~= seq![s[0]]);
            assert(s.skip(1) =~= s.drop_first());
            assert(tokens_spec(s) =~= seq![s.take(k)] + tokens_spec(s.skip(k)));
        }
    } else {
        assert(!is_space_char(s[1]));
        let t = s.drop_first();
        assert(forall|j: int| 0 <= j < k - 1 ==> !is_space_char(#[trigger] t[j]));
        lemma_tokens_run(t, k - 1);
        assert(rest[0] == t.take(k - 1));
        assert(rest.skip(1) =~= tokens_spec(t.skip(k - 1)));
        assert(seq![s[0]] + t.take(k - 1) =~= s.take(k));
        assert(t.skip(k - 1) =~= s.skip(k));
        assert(tokens_spec(s) =~= seq![s.take(k)] + tokens_spec(s.skip(k)));
    }
}

/// Splits `s` into its whitespace-separated tokens.
pub fn split_tokens(s: &str) -> (r: Vec<String>)
    ensures
        r.deep_view() == tokens_spec(s@),
{
    let n = s.unicode_len();
    let mut out: Vec<String> = Vec::new();
    let mut i: usize = 0;
    proof {
        assert(s@.skip(0) =~= s@);
        assert(tokens_spec(s@) =~= out.deep_view() + tokens_spec(s@.skip(0)));
    }
    while i < n
        invariant
            0 <= i <= n,
            n == s@.len(),
            tokens_spec(s@) == out.deep_view() + tokens_spec(s@.skip(i as int)),
        decreases n - i,
    {
        if is_space_exec(s.get_char(i)) {
            proof {
                assert(s@.skip(i as int).drop_first() =~= s@.skip(i + 1));
            }
            i += 1;
        } else {
            let start = i;
            i += 1;
            while i < n && !is_space_exec(s.get_char(i))
                invariant
                    start < i <= n,
                    n == s@.len(),
                    forall|j: int| start <= j < i ==> !is_space_char(s@[j]),
                decreases n - i,
            {
                i += 1;
            }
            let tok = s.substring_char(start, i).to_owned();
            proof {
                let t = s@.skip(start as int);
                let k = i - start;
                assert(forall|j: int| 0 <= j < k ==> t[j] == s@[start + j]);
                lemma_tokens_run(t, k);
                assert(t.take(k) =~= s@.subrange(start as int, i as int));
                assert(t.skip(k) =~= s@.skip(i as int));
                assert(out.deep_view().push(tok@) =~= out.deep_view() + seq![tok@]);
            }
            let ghost old_out = out.deep_view();
            out.push(tok);
            proof {
                assert(out.deep_view() =~= old_out.push(tok@));
                assert(tokens_spec(s@) =~= out.deep_view() + tokens_spec(s@.skip(i as int)));
            }
        }
    }
    proof {
        assert(s@.skip(i as int) =~= Seq::<char>::empty());
        assert(out.deep_view() =~= tokens_spec(s@));
    }
    out
}

/// Splits `s` at every occurrence of the character `c`; the result always has
/// one more element than there are separators.
pub open spec fn split_char_spec(s: Seq<char>, c: char) -> Seq<Seq<char>>
    decreases s.len(),
{
    if s.len() == 0 {
        seq![Seq::<char>::empty()]
    } else if s[0] == c {
        seq![Seq::<char>::empty()] + split_char_spec(s.drop_first(), c)
    } else {
        let rest = split_char_spec(s.drop_first(), c);
        seq![seq![s[0]] + rest[0]] + rest.skip(1)
    }
}

pub proof fn lemma_split_char_len(s: Seq<char>, c: char)
    ensures
        split_char_spec(s, c).len() >= 1,
    decreases s.len(),
{
    if s.len() == 0 {
    } else {
        lemma_split_char_len(s.drop_first(), c);
    }
}

/// Peeling the first piece off the front of the split.
proof fn lemma_split_char_cut(s: Seq<char>, c: char, k: int)
    requires
        0 <= k <= s.len(),
        forall|j: int| 0 <= j < k ==> s[j] != c,
        k < s.len() ==> s[k] == c,
    ensures
        k == s.len() ==> split_char_spec(s, c) == seq![s],
        k < s.len() ==> split_char_spec(s, c) == seq![s.take(k)] + split_char_spec(
            s.skip(k + 1),
            c,
        ),
    decreases k,
{
    if k == 0 {
        if 0 == s.len() {
            assert(s =~= Seq::<char>::empty());
        } else {
            assert(s[0] == c);
            assert(s.take(0) =~= Seq::<char>::empty());
            assert(s.skip(1) =~= s.drop_first());
            assert(split_char_spec(s, c) =~= seq![s.take(0)] + split_char_spec(s.skip(1), c));
        }
    } else {
        let t = s.drop_first();
        assert(forall|j: int| 0 <= j < k - 1 ==> t[j] != c);
        lemma_split_char_cut(t, c, k - 1);
        let rest = split_char_spec(t, c);
        lemma_split_char_len(t, c);
        if k == s.len() {
            assert(rest == seq![t]);
            assert(rest[0] == t);
            assert(seq![s[0]] + t =~= s);
            assert(rest.skip(1) =~= Seq::<Seq<char>>::empty());
            assert(split_char_spec(s, c) =~= seq![s]);
        } else {
            assert(rest[0] == t.take(k - 1));
            assert(seq![s[0]] + t.take(k - 1) =~= s.take(k));
            assert(rest.skip(1) =~= split_char_spec(t.skip(k), c));
            assert(t.skip(k) =~= s.skip(k + 1));
            assert(split_char_spec(s, c) =~= seq![s.take(k)] + split_char_spec(s.skip(k + 1), c));
        }
    }
}

/// Splits `s` at every occurrence of `c`.
pub fn split_char(s: &str, c: char) -> (r: Vec<String>)
    ensures
        r.deep_view() == split_char_spec(s@, c),
{
    let n = s.unicode_len();
    let mut out: Vec<String> = Vec::new();
    let mut start: usize = 0;
    let mut i: usize = 0;
    proof {
        assert(s@.skip(0) =~= s@);
    }
    while i < n
        invariant
            0 <= start <= i <= n,
            n == s@.len(),
            forall|j: int| start <= j < i ==> s@[j] != c,
            split_char_spec(s@, c) == out.deep_view() + split_char_spec(s@.skip(start as int), c),
        decreases n - i,
    {
        if s.get_char(i) == c {
            let piece = s.substring_char(start, i).to_owned();
            proof {
                let t = s@.skip(start as int);
                let k = i - start;
                assert(forall|j: int| 0 <= j < k ==> t[j] == s@[start + j]);
                assert(t[k] == c);
                lemma_split_char_cut(t, c, k);
                assert(t.take(k) =~= s@.subrange(start as int, i as int));
                assert(t.skip(k + 1) =~= s@.skip(i + 1));
            }
            let ghost old_out = out.deep_view();
            out.push(piece);
            proof {
                assert(out.deep_view() =~= old_out + seq![s@.subrange(start as int, i as int)]);
                assert(split_char_spec(s@, c) =~= out.deep_view() + split_char_spec(
                    s@.skip(i + 1),
                    c,
                ));
            }
            i += 1;
            start = i;
        } else {
            i += 1;
        }
    }
    let piece = s.substring_char(start, n).to_owned();
    proof {
        let t = s@.skip(start as int);
        assert(forall|j: int| 0 <= j < t.len() ==> t[j] == s@[start + j]);
        lemma_split_char_cut(t, c, t.len() as int);
        assert(t =~= s@.subrange(start as int, n as int));
    }
    let ghost old_out = out.deep_view();
    out.push(piece);
    proof {
        assert(out.deep_view() =~= old_out + seq![s@.subrange(start as int, n as int)]);
        assert(out.deep_view() =~= split_char_spec(s@, c));
    }
    out
}

/// A line with one trailing carriage return removed.
pub open spec fn chomp_cr(l: Seq<char>) -> Seq<char> {
    if l.len() > 0 && l.last() == '\r' {
        l.drop_last()
    } else {
        l
    }
}

/// The lines of `s`: pieces between newline characters, without a final empty
/// piece after a trailing newline, each with one trailing carriage return
/// removed.
pub open spec fn lines_spec(s: Seq<char>) -> Seq<Seq<char>> {
    let parts = split_char_spec(s, '\n');
    let cut = if parts.len() > 0 && parts.last().len() == 0 {
        parts.drop_last()
    } else {
        parts
    };
    cut.map_values(|l: Seq<char>| chomp_cr(l))
}

/// Splits `s` into lines as `lines_spec` describes them.
pub fn split_lines(s: &str) -> (r: Vec<String>)
    ensures
        r.deep_view() == lines_spec(s@),
{
    let mut parts = split_char(s, '\n');
    proof {
        lemma_split_char_len(s@, '\n');
    }
    let last_empty = match parts.last() {
        Some(l) => l.as_str().is_empty(),
        None => false,
    };
    if last_empty {
        let ghost before = parts.deep_view();
        parts.pop();
        proof {
            assert(parts.deep_view() =~= before.drop_last());
        }
    }
    let mut out: Vec<String> = Vec::new();
    let mut i: usize = 0;
    let n = parts.len();
    while i < n
        invariant
            0 <= i <= n,
            n == parts.len(),
            out.len() == i,
            forall|j: int| 0 <= j < i ==> out.deep_view()[j] == chomp_cr(parts.deep_view()[j]),
        decreases n - i,
    {
        let p = &parts[i];
        let pl = p.as_str().unicode_len();
        let piece = if pl > 0 && p.as_str().get_char(pl - 1) == '\r' {
            let q = p.as_str().substring_char(0, pl - 1).to_owned();
            proof {
                assert(q@ =~= chomp_cr(parts.deep_view()[i as int]));
            }
            q
        } else {
            let q = p.clone();
            proof {
                assert(q@ =~= chomp_cr(parts.deep_view()[i as int]));
            }
            q
        };
        let ghost before = out.deep_view();
        let ghost pv = piece@;
        out.push(piece);
        proof {
            assert(out.deep_view() =~= before.push(pv));
        }
        i += 1;
    }
    proof {
        assert(out.deep_view() =~= parts.deep_view().map_values(|l: Seq<char>| chomp_cr(l)));
        assert(out.deep_view() =~= lines_spec(s@));
    }
    out
}

/// The pieces joined with `sep` between consecutive pieces.
pub open spec fn join_spec(parts: Seq<Seq<char>>, sep: Seq<char>) -> Seq<char>
    decreases parts.len(),
{
    if parts.len() == 0 {
        Seq::empty()
    } else if parts.len() == 1 {
        parts[0]
    } else {
        parts[0] + sep + join_spec(parts.drop_first(), sep)
    }
}

proof fn lemma_join_push(parts: Seq<Seq<char>>, sep: Seq<char>, x: Seq<char>)
    requires
        parts.len() >= 1,
    ensures
        join_spec(parts.push(x), sep) == join_spec(parts, sep) + sep + x,
    decreases parts.len(),
{
    if parts.len() == 1 {
        assert(parts.push(x).drop_first() =~= seq![x]);
        assert(parts.push(x)[0] == parts[0]);
        assert(join_spec(seq![x], sep) == x);
        assert(join_spec(parts.push(x), sep) =~= parts[0] + sep + x);
    } else {
        lemma_join_push(parts.drop_first(), sep, x);
        assert(parts.push(x).drop_first() =~= parts.drop_first().push(x));
        assert(join_spec(parts.push(x), sep) =~= join_spec(parts, sep) + sep + x);
    }
}

/// Joins the strings of `v` with `sep` between consecutive elements.
pub fn join_strs(v: &Vec<String>, sep: &str) -> (r: String)
    ensures
        r@ == join_spec(v.deep_view(), sep@),
{
    let mut out = String::new();
    let n = v.len();
    let mut i: usize = 0;
    while i < n
        invariant
            0 <= i <= n,
            n == v.len(),
            out@ == join_spec(v.deep_view().take(i as int), sep@),
        decreases n - i,
    {
        if i > 0 {
            out.append(sep);
        }
        out.append(v[i].as_str());
        proof {
            let pre = v.deep_view().take(i as int);
            assert(v.deep_view().take(i + 1) =~= pre.push(v.deep_view()[i as int]));
            if i > 0 {
                lemma_join_push(pre, sep@, v.deep_view()[i as int]);
            } else {
                assert(v.deep_view().take(1) =~= seq![v.deep_view()[0]]);
            }
        }
        i += 1;
    }
    proof {
        assert(v.deep_view().take(n as int) =~= v.deep_view());
    }
    out
}

/// A decimal digit.
pub open spec fn is_digit(c: char) -> bool {
    '0' <= c && c <= '9'
}

pub open spec fn all_digits(s: Seq<char>) -> bool {
    forall|i: int| 0 <= i < s.len() ==> is_digit(#[trigger] s[i])
}

/// The numeric value of a digit string, most significant digit first.
pub open spec fn digits_val(s: Seq<char>) -> int
    decreases s.len(),
{
    if s.len() == 0 {
        0
    } else {
        digits_val(s.drop_last()) * 10 + (s.last() as u32 - '0' as u32)
    }
}

proof fn lemma_digits_val_nonneg(s: Seq<char>)
    requires
        all_digits(s),
    ensures
        digits_val(s) >= 0,
    decreases s.len(),
{
    if s.len() > 0 {
        assert(all_digits(s.drop_last())) by {
            assert(forall|i: int| 0 <= i < s.len() - 1 ==> s.drop_last()[i] == s[i]);
        }
        lemma_digits_val_nonneg(s.drop_last());
    }
}

proof fn lemma_digits_val_monotone(s: Seq<char>, i: int)
    requires
        all_digits(s),
        0 <= i <= s.len(),
    ensures
        digits_val(s) >= digits_val(s.take(i)),
    decreases s.len() - i,
{
    if i < s.len() {
        assert(all_digits(s.take(i + 1))) by {
            assert(forall|k: int| 0 <= k < i + 1 ==> s.take(i + 1)[k] == s[k]);
        }
        assert(s.take(i + 1).drop_last() =~= s.take(i));
        lemma_digits_val_nonneg(s.take(i + 1));
        lemma_digits_val_nonneg(s.take(i));
        assert(digits_val(s.take(i + 1)) == digits_val(s.take(i)) * 10 + (s[i] as u32
            - '0' as u32));
        lemma_digits_val_monotone(s, i + 1);
    } else {
        assert(s.take(i) =~= s);
    }
}

/// Parses a non-empty all-digit string as a `usize`; anything else, and any
/// value that does not fit, is `None`.
pub fn parse_usize(s: &str) -> (r: Option<usize>)
    ensures
        match r {
            Some(v) => s@.len() > 0 && all_digits(s@) && digits_val(s@) == v,
            None => s@.len() == 0 || !all_digits(s@) || digits_val(s@) > usize::MAX,
        },
{
    let n = s.unicode_len();
    if n == 0 {
        return None;
    }
    let mut acc: usize = 0;
    let mut i: usize = 0;
    proof {
        assert(s@.take(0) =~= Seq::<char>::empty());
    }
    while i < n
        invariant
            0 <= i <= n,
            n == s@.len(),
            all_digits(s@.take(i as int)),
            acc == digits_val(s@.take(i as int)),
        decreases n - i,
    {
        let c = s.get_char(i);
        let cu = c as u32;
        if cu < '0' as u32 || cu > '9' as u32 {
            proof {
                assert(!is_digit(s@[i as int]));
            }
            return None;
        }
        let d = (cu - '0' as u32) as usize;
        proof {
            assert(s@.take(i + 1).drop_last() =~= s@.take(i as int));
            assert(s@.take(i + 1).last() == s@[i as int]);
            assert(forall|k: int| 0 <= k < i + 1 ==> s@.take(i + 1)[k] == s@[k]);
        }
        let m10 = acc.checked_mul(10);
        let step = if let Some(m) = m10 {
            m.checked_add(d)
        } else {
            None
        };
        match step {
            Some(v) => {
                acc = v;
            },
            None => {
                proof {
                    assert(acc * 10 + d > usize::MAX);
                    assert(digits_val(s@.take(i + 1)) > usize::MAX);
                    if all_digits(s@) {
                        lemma_digits_val_monotone(s@, i + 1);
                        assert(digits_val(s@) > usize::MAX);
                    }
                }
                return None;
            },
        }
        i += 1;
    }
    proof {
        assert(s@.take(n as int) =~= s@);
    }
    Some(acc)
}

/// A string of `n` spaces.
pub fn spaces(n: usize) -> (r: String)
    ensures
        r@.len() == n,
        forall|i: int| 0 <= i < n ==> r@[i] == ' ',
{
    let mut out = String::new();
    let mut i: usize = 0;
    while i < n
        invariant
            0 <= i <= n,
            out@.len() == i,
            forall|k: int| 0 <= k < i ==> out@[k] == ' ',
        decreases n - i,
    {
        out.append(" ");
        proof {
            reveal_strlit(" ");
        }
        i += 1;
    }
    out
}

/// Case-insensitive equality of two characters, folding only the ASCII
/// letters.
pub open spec fn eq_ci(a: char, b: char) -> bool {
    a == b || ('A' <= a && a <= 'Z' && b as u32 == a as u32 + 32) || ('A' <= b && b <= 'Z'
        && a as u32 == b as u32 + 32)
}

/// Does `s` begin with `pre`, comparing ASCII letters case-insensitively?
pub fn starts_with_ci(s: &str, pre: &str) -> (r: bool)
    ensures
        r == (pre@.len() <= s@.len() && forall|i: int|
            0 <= i < pre@.len() ==> eq_ci(s@[i], pre@[i])),
{
    let n = s.unicode_len();
    let m = pre.unicode_len();
    if m > n {
        return false;
    }
    let mut i: usize = 0;
    while i < m
        invariant
            0 <= i <= m,
            m <= n,
            n == s@.len(),
            m == pre@.len(),
            forall|k: int| 0 <= k < i ==> eq_ci(s@[k], pre@[k]),
        decreases m - i,
    {
        let a = s.get_char(i) as u32;
        let b = pre.get_char(i) as u32;
        let fa = if 'A' as u32 <= a && a <= 'Z' as u32 {
            a + 32
        } else {
            a
        };
        let fb = if 'A' as u32 <= b && b <= 'Z' as u32 {
            b + 32
        } else {
            b
        };
        if fa != fb {
            proof {
                assert(!eq_ci(s@[i as int], pre@[i as int]));
            }
            return false;
        }
        i += 1;
    }
    true
}

/// Does `pat` occur anywhere in `s`?
pub fn contains_str(s: &str, pat: &str) -> (r: bool)
    ensures
        r == contains_sub(s@, pat@),
{
    let f = find_str(s, pat);
    proof {
        lemma_find_from_correct(s@, pat@, 0);
        if find_spec(s@, pat@) is Some {
            assert(occurs_at(s@, pat@, find_spec(s@, pat@).unwrap()));
        }
    }
    f.is_some()
}

} // verus!
