//! Verified building blocks for the wire-text processing: character search,
//! splitting, trimming, whitespace tokenization and decimal rendering, each
//! specified over the `Seq<char>` view of the strings involved.
use vstd::prelude::*;

verus! {

/// The ASCII whitespace characters that separate request-line tokens and that
/// trimming removes from the ends of a header name or value.
pub open spec fn is_space(c: char) -> bool {
    c == ' ' || c == '\t' || c == '\n' || c == '\r' || c == '\u{B}' || c == '\u{C}'
}

/// Index of the first occurrence of `c` in `s`, or `s.len()` if absent.
pub open spec fn find_ch(s: Seq<char>, c: char) -> nat
    decreases s.len(),
{
    if s.len() == 0 {
        0
    } else if s[0] == c {
        0
    } else {
        1 + find_ch(s.subrange(1, s.len() as int), c)
    }
}

pub proof fn lemma_find_ch(s: Seq<char>, c: char)
    ensures
        find_ch(s, c) <= s.len(),
        forall|j: int| 0 <= j < find_ch(s, c) ==> s[j] != c,
        find_ch(s, c) < s.len() ==> s[find_ch(s, c) as int] == c,
    decreases s.len(),
{
    if s.len() == 0 {
    } else if s[0] == c {
    } else {
        let rest = s.subrange(1, s.len() as int);
        lemma_find_ch(rest, c);
        assert forall|j: int| 0 <= j < find_ch(s, c) implies s[j] != c by {
            if j > 0 {
                assert(rest[j - 1] != c);
            }
        }
    }
}

/// `find_ch` is the unique index with no `c` before it and `c` at it (or the
/// length when `c` is absent).
pub proof fn lemma_find_ch_is(s: Seq<char>, c: char, i: int)
    requires
        0 <= i <= s.len(),
        forall|j: int| 0 <= j < i ==> s[j] != c,
        i < s.len() ==> s[i] == c,
    ensures
        find_ch(s, c) == i,
{
    lemma_find_ch(s, c);
    let f = find_ch(s, c) as int;
    if f < i {
        assert(s[f] != c);
        assert(s[f] == c);
    } else if i < f {
        assert(s[i] != c);
        assert(s[i] == c);
    }
}

/// Index of the first whitespace character in `s`, or `s.len()` if absent.
pub open spec fn find_sp(s: Seq<char>) -> nat
    decreases s.len(),
{
    if s.len() == 0 {
        0
    } else if is_space(s[0]) {
        0
    } else {
        1 + find_sp(s.subrange(1, s.len() as int))
    }
}

pub proof fn lemma_find_sp(s: Seq<char>)
    ensures
        find_sp(s) <= s.len(),
        forall|j: int| 0 <= j < find_sp(s) ==> !is_space(s[j]),
        find_sp(s) < s.len() ==> is_space(s[find_sp(s) as int]),
    decreases s.len(),
{
    if s.len() == 0 {
    } else if is_space(s[0]) {
    } else {
        let rest = s.subrange(1, s.len() as int);
        lemma_find_sp(rest);
        assert forall|j: int| 0 <= j < find_sp(s) implies !is_space(s[j]) by {
            if j > 0 {
                assert(!is_space(rest[j - 1]));
            }
        }
    }
}

pub proof fn lemma_find_sp_is(s: Seq<char>, i: int)
    requires
        0 <= i <= s.len(),
        forall|j: int| 0 <= j < i ==> !is_space(s[j]),
        i < s.len() ==> is_space(s[i]),
    ensures
        find_sp(s) == i,
{
    lemma_find_sp(s);
    let f = find_sp(s) as int;
    if f < i {
        assert(!is_space(s[f]));
        assert(is_space(s[f]));
    } else if i < f {
        assert(!is_space(s[i]));
        assert(is_space(s[i]));
    }
}

/// The pieces of `s` between occurrences of the separator `c`; always at least
/// one piece, and one more piece than separators.
pub open spec fn split_ch(s: Seq<char>, c: char) -> Seq<Seq<char>>
    decreases s.len(),
{
    let i = find_ch(s, c);
    if i >= s.len() {
        seq![s]
    } else {
        seq![s.subrange(0, i as int)] + split_ch(s.subrange(i as int + 1, s.len() as int), c)
    }
}

pub proof fn lemma_split_ch_len(s: Seq<char>, c: char)
    ensures
        split_ch(s, c).len() >= 1,
    decreases s.len(),
{
    let i = find_ch(s, c);
    if i < s.len() {
        lemma_split_ch_len(s.subrange(i as int + 1, s.len() as int), c);
    }
}

/// A split has a second piece exactly when the separator occurs at all.
pub proof fn lemma_split_ch_pieces(s: Seq<char>, c: char)
    ensures
        split_ch(s, c).len() >= 2 <==> find_ch(s, c) < s.len(),
{
    lemma_find_ch(s, c);
    if find_ch(s, c) < s.len() {
        lemma_split_ch_len(s.subrange(find_ch(s, c) as int + 1, s.len() as int), c);
    }
}

/// The views of the strings in `v`.
pub open spec fn views_of(v: Seq<String>) -> Seq<Seq<char>> {
    v.map_values(|t: String| t@)
}

/// Character equality of two string slices.
pub fn str_eq(a: &str, b: &str) -> (r: bool)
    ensures
        r == (a@ == b@),
{
    let sa = a.to_owned();
    let sb = b.to_owned();
    sa == sb
}

/// Splits `s` at every occurrence of `c`, as `str::split` does.
pub fn split_str(s: &str, c: char) -> (r: Vec<String>)
    ensures
        views_of(r@) == split_ch(s@, c),
{
    let n = s.unicode_len();
    let mut parts: Vec<String> = Vec::new();
    let mut start: usize = 0;
    let mut i: usize = 0;
    proof {
        assert(views_of(parts@) =~= Seq::<Seq<char>>::empty());
        assert(s@.subrange(0, n as int) =~= s@);
        assert(views_of(parts@) + split_ch(s@, c) =~= split_ch(s@, c));
    }
    while i < n
        invariant
            s@.len() == n,
            0 <= start <= i <= n,
            forall|j: int| start <= j < i ==> s@[j] != c,
            split_ch(s@, c) == views_of(parts@) + split_ch(
                s@.subrange(start as int, n as int),
                c,
            ),
        decreases n - i,
    {
        if s.get_char(i) == c {
            let piece = s.substring_char(start, i).to_owned();
            proof {
                let suffix = s@.subrange(start as int, n as int);
                assert forall|j: int| 0 <= j < i - start implies suffix[j] != c by {
                    assert(suffix[j] == s@[start + j]);
                }
                lemma_find_ch_is(suffix, c, i - start);
                assert(suffix.subrange(0, i - start) =~= s@.subrange(start as int, i as int));
                assert(suffix.subrange(i - start + 1, suffix.len() as int) =~= s@.subrange(
                    i as int + 1,
                    n as int,
                ));
                assert(views_of(parts@.push(piece)) =~= views_of(parts@) + seq![piece@]);
            }
            parts.push(piece);
            start = i + 1;
        }
        i = i + 1;
    }
    let piece = s.substring_char(start, n).to_owned();
    proof {
        let suffix = s@.subrange(start as int, n as int);
        assert forall|j: int| 0 <= j < suffix.len() implies suffix[j] != c by {
            assert(suffix[j] == s@[start + j]);
        }
        lemma_find_ch_is(suffix, c, suffix.len() as int);
        assert(suffix =~= piece@);
        assert(views_of(parts@.push(piece)) =~= views_of(parts@) + seq![piece@]);
        assert(views_of(parts@.push(piece)) =~= views_of(parts@) + split_ch(suffix, c));
    }
    parts.push(piece);
    parts
}

/// Index of the first occurrence of `c` in the slice, or its length if absent.
pub fn find_char_in(s: &str, c: char) -> (r: usize)
    ensures
        r == find_ch(s@, c),
{
    let n = s.unicode_len();
    let mut i: usize = 0;
    while i < n
        invariant
            s@.len() == n,
            0 <= i <= n,
            forall|j: int| 0 <= j < i ==> s@[j] != c,
        decreases n - i,
    {
        if s.get_char(i) == c {
            proof {
                lemma_find_ch_is(s@, c, i as int);
            }
            return i;
        }
        i = i + 1;
    }
    proof {
        lemma_find_ch_is(s@, c, n as int);
    }
    n
}

/// Removes leading whitespace.
pub open spec fn trim_l(s: Seq<char>) -> Seq<char>
    decreases s.len(),
{
    if s.len() > 0 && is_space(s[0]) {
        trim_l(s.subrange(1, s.len() as int))
    } else {
        s
    }
}

/// Removes trailing whitespace.
pub open spec fn trim_r(s: Seq<char>) -> Seq<char>
    decreases s.len(),
{
    if s.len() > 0 && is_space(s[s.len() - 1]) {
        trim_r(s.drop_last())
    } else {
        s
    }
}

/// Removes whitespace from both ends, as `str::trim` does on ASCII input.
pub open spec fn spec_trim(s: Seq<char>) -> Seq<char> {
    trim_r(trim_l(s))
}

proof fn lemma_trim_l_idx(s: Seq<char>, a: int)
    requires
        0 <= a <= s.len(),
        forall|j: int| 0 <= j < a ==> is_space(s[j]),
        a < s.len() ==> !is_space(s[a]),
    ensures
        trim_l(s) == s.subrange(a, s.len() as int),
    decreases s.len(),
{
    if a == 0 {
        assert(s.subrange(0, s.len() as int) =~= s);
    } else {
        let rest = s.subrange(1, s.len() as int);
        lemma_trim_l_idx(rest, a - 1);
        assert(rest.subrange(a - 1, rest.len() as int) =~= s.subrange(a, s.len() as int));
    }
}

proof fn lemma_trim_r_idx(s: Seq<char>, b: int)
    requires
        0 <= b <= s.len(),
        forall|j: int| b <= j < s.len() ==> is_space(s[j]),
        b > 0 ==> !is_space(s[b - 1]),
    ensures
        trim_r(s) == s.subrange(0, b),
    decreases s.len(),
{
    if b == s.len() {
        assert(s.subrange(0, s.len() as int) =~= s);
        if s.len() > 0 {
            assert(!is_space(s[s.len() - 1]));
        }
    } else {
        assert(is_space(s[s.len() - 1]));
        lemma_trim_r_idx(s.drop_last(), b);
        assert(s.drop_last().subrange(0, b) =~= s.subrange(0, b));
    }
}

/// Trims ASCII whitespace from both ends of `s`.
pub fn trim_str(s: &str) -> (r: String)
    ensures
        r@ == spec_trim(s@),
{
    let n = s.unicode_len();
    let mut a: usize = 0;
    while a < n && is_space_exec(s.get_char(a))
        invariant
            s@.len() == n,
            0 <= a <= n,
            forall|j: int| 0 <= j < a ==> is_space(s@[j]),
        decreases n - a,
    {
        a = a + 1;
    }
    let mut b: usize = n;
    while b > a && is_space_exec(s.get_char(b - 1))
        invariant
            a <= b <= n,
            s@.len() == n,
            forall|j: int| b <= j < n ==> is_space(s@[j]),
        decreases b,
    {
        b = b - 1;
    }
    proof {
        lemma_trim_l_idx(s@, a as int);
        let t = s@.subrange(a as int, n as int);
        assert forall|j: int| b - a <= j < t.len() implies is_space(t[j]) by {
            assert(t[j] == s@[a + j]);
        }
        if b > a {
            assert(t[b - a - 1] == s@[b - 1]);
        }
        lemma_trim_r_idx(t, b - a);
        assert(t.subrange(0, b - a) =~= s@.subrange(a as int, b as int));
    }
    s.substring_char(a, b).to_owned()
}

/// Executable check of `is_space`.
pub fn is_space_exec(c: char) -> (r: bool)
    ensures
        r == is_space(c),
{
    c == ' ' || c == '\t' || c == '\n' || c == '\r' || c == '\u{B}' || c == '\u{C}'
}

/// The maximal non-whitespace runs of `s`, in order, as `str::split_whitespace`
/// does on ASCII whitespace.
pub open spec fn spec_tokens(s: Seq<char>) -> Seq<Seq<char>>
    decreases s.len(),
{
    if s.len() == 0 {
        seq![]
    } else if is_space(s[0]) {
        spec_tokens(s.subrange(1, s.len() as int))
    } else {
        let i = find_sp(s);
        // `find_sp` never exceeds the length; the guard keeps the subranges
        // below well-formed without appealing to that lemma here.
        if i > s.len() {
            seq![]
        } else {
            seq![s.subrange(0, i as int)] + spec_tokens(s.subrange(i as int, s.len() as int))
        }
    }
}

/// Splits `s` into its whitespace-separated tokens.
pub fn tokens_of(s: &str) -> (r: Vec<String>)
    ensures
        views_of(r@) == spec_tokens(s@),
{
    let n = s.unicode_len();
    let mut toks: Vec<String> = Vec::new();
    let mut i: usize = 0;
    proof {
        assert(views_of(toks@) =~= Seq::<Seq<char>>::empty());
        assert(s@.subrange(0, n as int) =~= s@);
    }
    while i < n
        invariant
            s@.len() == n,
            0 <= i <= n,
            spec_tokens(s@) == views_of(toks@) + spec_tokens(s@.subrange(i as int, n as int)),
        decreases n - i,
    {
        let ghost suffix = s@.subrange(i as int, n as int);
        if is_space_exec(s.get_char(i)) {
            proof {
                assert(suffix[0] == s@[i as int]);
                assert(suffix.subrange(1, suffix.len() as int) =~= s@.subrange(
                    i as int + 1,
                    n as int,
                ));
            }
            i = i + 1;
        } else {
            let mut j: usize = i;
            while j < n && !is_space_exec(s.get_char(j))
                invariant
                    s@.len() == n,
                    i <= j <= n,
                    forall|k: int| i <= k < j ==> !is_space(s@[k]),
                decreases n - j,
            {
                j = j + 1;
            }
            let piece = s.substring_char(i, j).to_owned();
            proof {
                assert(suffix[0] == s@[i as int]);
                assert forall|k: int| 0 <= k < j - i implies !is_space(suffix[k]) by {
                    assert(suffix[k] == s@[i + k]);
                }
                if j < n {
                    assert(suffix[j - i] == s@[j as int]);
                }
                lemma_find_sp_is(suffix, j - i);
                assert(suffix.subrange(0, j - i) =~= s@.subrange(i as int, j as int));
                assert(suffix.subrange(j - i, suffix.len() as int) =~= s@.subrange(
                    j as int,
                    n as int,
                ));
                assert(views_of(toks@.push(piece)) =~= views_of(toks@) + seq![piece@]);
            }
            toks.push(piece);
            i = j;
        }
    }
    proof {
        assert(s@.subrange(n as int, n as int) =~= Seq::<char>::empty());
        assert(views_of(toks@) + spec_tokens(Seq::<char>::empty()) =~= views_of(toks@));
    }
    toks
}

/// True when `s` ends with `suf`.
pub open spec fn spec_ends_with(s: Seq<char>, suf: Seq<char>) -> bool {
    s.len() >= suf.len() && s.subrange(s.len() - suf.len(), s.len() as int) == suf
}

/// Executable suffix test, as `str::ends_with` does.
pub fn str_ends_with(s: &str, suf: &str) -> (r: bool)
    ensures
        r == spec_ends_with(s@, suf@),
{
    let n = s.unicode_len();
    let m = suf.unicode_len();
    if m > n {
        false
    } else {
        str_eq(s.substring_char(n - m, n), suf)
    }
}

/// The decimal digit character for `d`.
pub open spec fn spec_digit(d: nat) -> char {
    if d == 0 {
        '0'
    } else if d == 1 {
        '1'
    } else if d == 2 {
        '2'
    } else if d == 3 {
        '3'
    } else if d == 4 {
        '4'
    } else if d == 5 {
        '5'
    } else if d == 6 {
        '6'
    } else if d == 7 {
        '7'
    } else if d == 8 {
        '8'
    } else {
        '9'
    }
}

/// The decimal representation of `n`, without a sign and without leading
/// zeros (except for zero itself).
pub open spec fn dec_rep(n: nat) -> Seq<char>
    decreases n,
{
    if n < 10 {
        seq![spec_digit(n)]
    } else {
        dec_rep(n / 10) + seq![spec_digit(n % 10)]
    }
}

/// The decimal representation of `n`, with a leading minus sign when negative.
pub open spec fn dec_rep_i(n: int) -> Seq<char> {
    if n < 0 {
        seq!['-'] + dec_rep((-n) as nat)
    } else {
        dec_rep(n as nat)
    }
}

fn digit_str(d: u64) -> (r: &'static str)
    requires
        d < 10,
    ensures
        r@ == seq![spec_digit(d as nat)],
{
    proof {
        reveal_strlit("0");
        reveal_strlit("1");
        reveal_strlit("2");
        reveal_strlit("3");
        reveal_strlit("4");
        reveal_strlit("5");
        reveal_strlit("6");
        reveal_strlit("7");
        reveal_strlit("8");
        reveal_strlit("9");
    }
    match d {
        0 => "0",
        1 => "1",
        2 => "2",
        3 => "3",
        4 => "4",
        5 => "5",
        6 => "6",
        7 => "7",
        8 => "8",
        _ => "9",
    }
}

/// Renders `n` in decimal.
pub fn u64_to_string(n: u64) -> (r: String)
    ensures
        r@ == dec_rep(n as nat),
    decreases n,
{
    if n < 10 {
        digit_str(n).to_owned()
    } else {
        let mut r = u64_to_string(n / 10);
        r.append(digit_str(n % 10));
        r
    }
}

/// Renders `n` in decimal, with a minus sign when negative.
pub fn i32_to_string(n: i32) -> (r: String)
    ensures
        r@ == dec_rep_i(n as int),
{
    if n >= 0 {
        u64_to_string(n as u64)
    } else {
        proof {
            reveal_strlit("-");
        }
        let mut r = "-".to_owned();
        let m: i64 = -(n as i64);
        r.append(u64_to_string(m as u64).as_str());
        assert(r@ =~= dec_rep_i(n as int));
        r
    }
}

} // verus!
