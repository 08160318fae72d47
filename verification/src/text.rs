//! Character-level text operations that the message pipeline is built on:
//! trimming, prefix stripping, substring search, replacement and decimal
//! rendering, each stated over the character sequence of the text.

use vstd::prelude::*;

verus! {

/// The Unicode `White_Space` property, as `char::is_whitespace` defines it.
pub open spec fn is_ws(c: char) -> bool {
    let u = c as u32;
    ||| 0x09 <= u <= 0x0d
    ||| u == 0x20
    ||| u == 0x85
    ||| u == 0xa0
    ||| u == 0x1680
    ||| 0x2000 <= u <= 0x200a
    ||| u == 0x2028
    ||| u == 0x2029
    ||| u == 0x202f
    ||| u == 0x205f
    ||| u == 0x3000
}

/// Number of whitespace characters at the start of `s`.
pub open spec fn leading_ws(s: Seq<char>) -> nat
    decreases s.len(),
{
    if s.len() > 0 && is_ws(s[0]) {
        1 + leading_ws(s.drop_first())
    } else {
        0
    }
}

/// Number of whitespace characters at the end of `s`.
pub open spec fn trailing_ws(s: Seq<char>) -> nat
    decreases s.len(),
{
    if s.len() > 0 && is_ws(s.last()) {
        1 + trailing_ws(s.drop_last())
    } else {
        0
    }
}

/// `s` without its leading and trailing whitespace.
pub open spec fn trimmed(s: Seq<char>) -> Seq<char> {
    let t = s.skip(leading_ws(s) as int);
    t.take(t.len() - trailing_ws(t))
}

/// Whether `c` is whitespace.
pub fn is_whitespace(c: char) -> (b: bool)
    ensures
        b == is_ws(c),
{
    let u: u32 = c as u32;
    (0x09 <= u && u <= 0x0d) || u == 0x20 || u == 0x85 || u == 0xa0 || u == 0x1680 || (0x2000
        <= u && u <= 0x200a) || u == 0x2028 || u == 0x2029 || u == 0x202f || u == 0x205f || u
        == 0x3000
}

/// The text with leading and trailing whitespace removed.
pub fn trim(s: &str) -> (r: &str)
    ensures
        r@ == trimmed(s@),
{
    let n: usize = s.unicode_len();
    let mut i: usize = 0;
    assert(s@.skip(0) =~= s@);
    while i < n && is_whitespace(s.get_char(i))
        invariant
            n == s@.len(),
            i <= n,
            leading_ws(s@) == i + leading_ws(s@.skip(i as int)),
        decreases n - i,
    {
        assert(s@.skip(i as int).drop_first() =~= s@.skip(i + 1));
        i = i + 1;
    }
    assert(leading_ws(s@.skip(i as int)) == 0);
    let mut j: usize = n;
    while j > i && is_whitespace(s.get_char(j - 1))
        invariant
            n == s@.len(),
            i <= j <= n,
            trailing_ws(s@.subrange(i as int, n as int)) == (n - j) + trailing_ws(
                s@.subrange(i as int, j as int),
            ),
        decreases j - i,
    {
        assert(s@.subrange(i as int, j as int).drop_last() =~= s@.subrange(i as int, j - 1));
        j = j - 1;
    }
    assert(trailing_ws(s@.subrange(i as int, j as int)) == 0);
    proof {
        let t = s@.skip(leading_ws(s@) as int);
        assert(t =~= s@.subrange(i as int, n as int));
        assert(t.take(t.len() - trailing_ws(t)) =~= s@.subrange(i as int, j as int));
    }
    s.substring_char(i, j)
}


/// Whether `p` is a prefix of `s`.
pub open spec fn starts_with(s: Seq<char>, p: Seq<char>) -> bool {
    p.len() <= s.len() && s.take(p.len() as int) == p
}

/// Whether `p` occurs in `h` starting at position `i`.
pub open spec fn occurs_at(h: Seq<char>, p: Seq<char>, i: int) -> bool {
    0 <= i && i + p.len() <= h.len() && h.subrange(i, i + p.len()) == p
}

/// The first position at or after `i` where `p` occurs in `h`.
pub open spec fn find_from(h: Seq<char>, p: Seq<char>, i: int) -> Option<int>
    decreases h.len() - i,
{
    if i < 0 || i + p.len() > h.len() {
        None
    } else if occurs_at(h, p, i) {
        Some(i)
    } else if i >= h.len() {
        None
    } else {
        find_from(h, p, i + 1)
    }
}

/// What `find_from` finds is an occurrence, at or after `i`, and `p` occurs
/// nowhere between `i` and it.
pub proof fn lemma_find_from_found(h: Seq<char>, p: Seq<char>, i: int)
    ensures
        find_from(h, p, i) matches Some(k) ==> {
            &&& i <= k
            &&& occurs_at(h, p, k)
            &&& forall|j: int| i <= j < k ==> !occurs_at(h, p, j)
        },
    decreases h.len() - i,
{
    if !(i < 0 || i + p.len() > h.len()) && !occurs_at(h, p, i) && i < h.len() {
        lemma_find_from_found(h, p, i + 1);
    }
}

/// The first position where `p` occurs in `h`, as `str::find` gives it
/// (counted in characters).
pub open spec fn first_occurrence(h: Seq<char>, p: Seq<char>) -> Option<int> {
    find_from(h, p, 0)
}

/// Whether `p` occurs anywhere in `h`, as `str::contains` decides it.
pub open spec fn has_substring(h: Seq<char>, p: Seq<char>) -> bool {
    first_occurrence(h, p) is Some
}

/// `s` with `to` before each character and after the last one: what
/// `str::replace` makes of an empty pattern.
pub open spec fn interleaved(s: Seq<char>, to: Seq<char>) -> Seq<char>
    decreases s.len(),
{
    if s.len() == 0 {
        to
    } else {
        to + seq![s[0]] + interleaved(s.drop_first(), to)
    }
}

/// `s` with every occurrence of `from` replaced by `to`, the occurrences taken
/// from left to right without overlap, as `str::replace` does.
pub open spec fn replaced(s: Seq<char>, from: Seq<char>, to: Seq<char>) -> Seq<char>
    decreases s.len(),
{
    if from.len() == 0 {
        interleaved(s, to)
    } else if s.len() == 0 {
        s
    } else if starts_with(s, from) {
        to + replaced(s.skip(from.len() as int), from, to)
    } else {
        seq![s[0]] + replaced(s.drop_first(), from, to)
    }
}

proof fn lemma_find_shift(s: Seq<char>, p: Seq<char>, i: int)
    requires
        s.len() > 0,
        i >= 0,
    ensures
        (find_from(s, p, i + 1) is None) == (find_from(s.drop_first(), p, i) is None),
    decreases s.len() - i,
{
    let t = s.drop_first();
    if i + p.len() <= t.len() {
        assert(s.subrange(i + 1, i + 1 + p.len()) =~= t.subrange(i, i + p.len()));
        if !occurs_at(t, p, i) && i < t.len() {
            lemma_find_shift(s, p, i + 1);
        }
    }
}

/// Where the pattern does not occur, replacing it changes nothing.
pub proof fn replace_absent_is_identity(s: Seq<char>, from: Seq<char>, to: Seq<char>)
    requires
        from.len() > 0,
        !has_substring(s, from),
    ensures
        replaced(s, from, to) == s,
    decreases s.len(),
{
    if s.len() > 0 {
        if starts_with(s, from) {
            assert(s.subrange(0, from.len() as int) =~= s.take(from.len() as int));
            assert(occurs_at(s, from, 0));
        }
        assert(!occurs_at(s, from, 0));
        assert(find_from(s, from, 1) is None);
        lemma_find_shift(s, from, 0);
        replace_absent_is_identity(s.drop_first(), from, to);
        assert(seq![s[0]] + s.drop_first() =~= s);
    }
}

/// `n` copies of `p`, one after another.
pub open spec fn repeated(p: Seq<char>, n: nat) -> Seq<char>
    decreases n,
{
    if n == 0 {
        Seq::empty()
    } else {
        p + repeated(p, (n - 1) as nat)
    }
}

/// Every occurrence is replaced, not only the first: `n` copies of the
/// pattern become `n` copies of the replacement.
pub proof fn replace_takes_every_occurrence(p: Seq<char>, to: Seq<char>, n: nat)
    requires
        p.len() > 0,
    ensures
        replaced(repeated(p, n), p, to) == repeated(to, n),
    decreases n,
{
    if n > 0 {
        let s = repeated(p, n);
        let rest = repeated(p, (n - 1) as nat);
        assert(s.take(p.len() as int) =~= p);
        assert(s.skip(p.len() as int) =~= rest);
        replace_takes_every_occurrence(p, to, (n - 1) as nat);
    }
}

/// The characters of `s`, one by one.
pub fn chars_of(s: &str) -> (v: Vec<char>)
    ensures
        v@ == s@,
{
    let n: usize = s.unicode_len();
    let mut v: Vec<char> = Vec::new();
    let mut i: usize = 0;
    while i < n
        invariant
            n == s@.len(),
            i <= n,
            v@ == s@.take(i as int),
        decreases n - i,
    {
        v.push(s.get_char(i));
        i = i + 1;
        assert(v@ =~= s@.take(i as int));
    }
    assert(s@.take(n as int) =~= s@);
    v
}

/// Whether `p` occurs in `h` at position `i`.
fn matches_at(h: &Vec<char>, p: &Vec<char>, i: usize) -> (b: bool)
    ensures
        b == occurs_at(h@, p@, i as int),
{
    let m: usize = p.len();
    let hl: usize = h.len();
    if i > hl || m > hl - i {
        return false;
    }
    let mut k: usize = 0;
    while k < m
        invariant
            m == p@.len(),
            hl == h@.len(),
            i + m <= h@.len(),
            k <= m,
            forall|j: int| 0 <= j < k ==> h@[i + j] == p@[j],
        decreases m - k,
    {
        if h[i + k] != p[k] {
            assert(h@.subrange(i as int, i + m)[k as int] != p@[k as int]);
            return false;
        }
        k = k + 1;
    }
    assert(h@.subrange(i as int, i + m) =~= p@);
    true
}

/// The character position of the first occurrence of `p` in `h`.
pub fn find(h: &str, p: &str) -> (r: Option<usize>)
    ensures
        r matches Some(i) ==> first_occurrence(h@, p@) == Some(i as int),
        r is None ==> first_occurrence(h@, p@) is None,
{
    let hv = chars_of(h);
    let pv = chars_of(p);
    let n: usize = hv.len();
    let m: usize = pv.len();
    if m > n {
        return None;
    }
    let mut i: usize = 0;
    loop
        invariant
            hv@ == h@,
            pv@ == p@,
            n == h@.len(),
            m == p@.len(),
            m <= n,
            i <= n - m,
            first_occurrence(h@, p@) == find_from(h@, p@, i as int),
        decreases n - m - i,
    {
        if matches_at(&hv, &pv, i) {
            return Some(i);
        }
        if i == n - m {
            assert(find_from(h@, p@, i + 1) is None);
            return None;
        }
        i = i + 1;
    }
}

/// Whether `p` occurs in `h`.
pub fn contains(h: &str, p: &str) -> (b: bool)
    ensures
        b == has_substring(h@, p@),
{
    find(h, p).is_some()
}

/// The text after `p`, where the text starts with `p`.
pub fn strip_prefix<'a>(s: &'a str, p: &str) -> (r: Option<&'a str>)
    ensures
        r is Some <==> starts_with(s@, p@),
        r matches Some(t) ==> t@ == s@.skip(p@.len() as int),
{
    let sv = chars_of(s);
    let pv = chars_of(p);
    if matches_at(&sv, &pv, 0) {
        assert(s@.subrange(0, p@.len() as int) =~= s@.take(p@.len() as int));
        Some(s.substring_char(pv.len(), sv.len()))
    } else {
        proof {
            if starts_with(s@, p@) {
                assert(s@.subrange(0, p@.len() as int) =~= s@.take(p@.len() as int));
            }
        }
        None
    }
}

/// `s` with every occurrence of `from` replaced by `to`.
pub fn replace(s: &str, from: &str, to: &str) -> (r: String)
    ensures
        r@ == replaced(s@, from@, to@),
{
    let sv = chars_of(s);
    let fv = chars_of(from);
    let n: usize = sv.len();
    let m: usize = fv.len();
    let mut r = String::new();
    let mut i: usize = 0;
    assert(s@.skip(0) =~= s@);
    if m == 0 {
        while i < n
            invariant
                sv@ == s@,
                n == s@.len(),
                m == from@.len(),
                m == 0,
                i <= n,
                r@ + interleaved(s@.skip(i as int), to@) == replaced(s@, from@, to@),
            decreases n - i,
        {
            let ghost before = r@;
            r.append(to);
            r.append(s.substring_char(i, i + 1));
            proof {
                let t = s@.skip(i as int);
                assert(t.drop_first() =~= s@.skip(i + 1));
                assert(s@.subrange(i as int, i + 1) =~= seq![t[0]]);
                assert(r@ =~= before + (to@ + seq![t[0]]));
                assert(interleaved(t, to@) =~= (to@ + seq![t[0]]) + interleaved(
                    s@.skip(i + 1),
                    to@,
                ));
            }
            i = i + 1;
        }
        r.append(to);
        proof {
            assert(s@.skip(n as int) =~= Seq::<char>::empty());
        }
        r
    } else {
        while i < n
            invariant
                sv@ == s@,
                fv@ == from@,
                n == s@.len(),
                m == from@.len(),
                m > 0,
                i <= n,
                r@ + replaced(s@.skip(i as int), from@, to@) == replaced(s@, from@, to@),
            decreases n - i,
        {
            let ghost before = r@;
            let ghost t = s@.skip(i as int);
            if matches_at(&sv, &fv, i) {
                r.append(to);
                proof {
                    assert(t.take(m as int) =~= s@.subrange(i as int, i + m));
                    assert(t.skip(m as int) =~= s@.skip(i + m));
                }
                i = i + m;
            } else {
                r.append(s.substring_char(i, i + 1));
                proof {
                    if starts_with(t, from@) {
                        assert(t.take(m as int) =~= s@.subrange(i as int, i + m));
                    }
                    assert(t.drop_first() =~= s@.skip(i + 1));
                    assert(s@.subrange(i as int, i + 1) =~= seq![t[0]]);
                }
                i = i + 1;
            }
        }
        proof {
            assert(s@.skip(n as int) =~= Seq::<char>::empty());
            assert(r@ + Seq::<char>::empty() =~= r@);
        }
        r
    }
}


/// The character of decimal digit `d`.
pub open spec fn digit_char(d: nat) -> char {
    if d == 0 { '0' }
    else if d == 1 { '1' }
    else if d == 2 { '2' }
    else if d == 3 { '3' }
    else if d == 4 { '4' }
    else if d == 5 { '5' }
    else if d == 6 { '6' }
    else if d == 7 { '7' }
    else if d == 8 { '8' }
    else { '9' }
}

/// The decimal notation of `n`, without sign or leading zeros, as
/// `to_string` writes an unsigned integer.
pub open spec fn decimal(n: nat) -> Seq<char>
    decreases n,
{
    if n < 10 {
        seq![digit_char(n)]
    } else {
        decimal(n / 10) + seq![digit_char(n % 10)]
    }
}

fn digit_str(d: u64) -> (r: &'static str)
    requires
        d < 10,
    ensures
        r@ == seq![digit_char(d as nat)],
{
    proof {
        reveal_strlit("0");
        reveal_strlit("1");
        reveal_strlit("2");
        reveal_strlit("3");
        reveal_strlit("4");
        reveal_strlit("5");
        reveal_strlit("6");
        reveal_strlit("7");
        reveal_strlit("8");
        reveal_strlit("9");
    }
    let r = if d == 0 {
        "0"
    } else if d == 1 {
        "1"
    } else if d == 2 {
        "2"
    } else if d == 3 {
        "3"
    } else if d == 4 {
        "4"
    } else if d == 5 {
        "5"
    } else if d == 6 {
        "6"
    } else if d == 7 {
        "7"
    } else if d == 8 {
        "8"
    } else {
        "9"
    };
    assert(r@ =~= seq![digit_char(d as nat)]);
    r
}

/// The decimal notation of `n`.
pub fn decimal_string(n: u64) -> (r: String)
    ensures
        r@ == decimal(n as nat),
    decreases n,
{
    if n < 10 {
        String::from_str(digit_str(n))
    } else {
        let mut r = decimal_string(n / 10);
        r.append(digit_str(n % 10));
        r
    }
}


/// The number of bytes `c` takes in UTF-8, as `char::len_utf8` gives it.
pub open spec fn char_utf8_len(c: char) -> nat {
    let u = c as u32;
    if u <= 0x7f {
        1
    } else if u <= 0x7ff {
        2
    } else if u <= 0xffff {
        3
    } else {
        4
    }
}

/// The number of bytes `s` takes in UTF-8.
pub open spec fn utf8_len(s: Seq<char>) -> nat
    decreases s.len(),
{
    if s.len() == 0 {
        0
    } else {
        char_utf8_len(s[0]) + utf8_len(s.drop_first())
    }
}

/// The byte count is the length of vstd's UTF-8 encoding.
pub proof fn lemma_utf8_len_is_encoding_len(s: Seq<char>)
    ensures
        utf8_len(s) == vstd::utf8::encode_utf8(s).len(),
    decreases s.len(),
{
    if s.len() > 0 {
        lemma_utf8_len_is_encoding_len(s.drop_first());
        vstd::utf8::char_is_scalar(s[0]);
    }
}

proof fn lemma_utf8_len_push(s: Seq<char>, c: char)
    ensures
        utf8_len(s.push(c)) == utf8_len(s) + char_utf8_len(c),
    decreases s.len(),
{
    if s.len() == 0 {
        assert(s.push(c)[0] == c);
        assert(s.push(c).drop_first() =~= Seq::<char>::empty());
        assert(utf8_len(s.push(c)) == char_utf8_len(c) + utf8_len(s.push(c).drop_first()));
        assert(utf8_len(Seq::<char>::empty()) == 0);
    } else {
        lemma_utf8_len_push(s.drop_first(), c);
        assert(s.push(c)[0] == s[0]);
        assert(s.push(c).drop_first() =~= s.drop_first().push(c));
        assert(utf8_len(s.push(c)) == char_utf8_len(s[0]) + utf8_len(s.push(c).drop_first()));
    }
}

fn char_len_utf8(c: char) -> (n: usize)
    ensures
        n == char_utf8_len(c),
{
    let u: u32 = c as u32;
    if u <= 0x7f {
        1
    } else if u <= 0x7ff {
        2
    } else if u <= 0xffff {
        3
    } else {
        4
    }
}

/// Whether the first `k` characters of `s` take fewer than `limit` bytes in
/// UTF-8.
pub fn utf8_prefix_shorter_than(s: &Vec<char>, k: usize, limit: usize) -> (b: bool)
    requires
        k <= s@.len(),
    ensures
        b == (utf8_len(s@.take(k as int)) < limit),
{
    if limit == 0 {
        return false;
    }
    let mut acc: usize = 0;
    let mut i: usize = 0;
    assert(s@.take(0) =~= Seq::<char>::empty());
    while i < k
        invariant
            k <= s@.len(),
            i <= k,
            acc == utf8_len(s@.take(i as int)),
            acc < limit,
        decreases k - i,
    {
        let w: usize = char_len_utf8(s[i]);
        proof {
            assert(s@.take(i + 1) =~= s@.take(i as int).push(s@[i as int]));
            lemma_utf8_len_push(s@.take(i as int), s@[i as int]);
        }
        if w >= limit - acc {
            proof {
                lemma_utf8_len_take_mono(s@, i + 1, k as int);
            }
            return false;
        }
        acc = acc + w;
        i = i + 1;
    }
    true
}

proof fn lemma_utf8_len_take_mono(s: Seq<char>, i: int, j: int)
    requires
        0 <= i <= j <= s.len(),
    ensures
        utf8_len(s.take(i)) <= utf8_len(s.take(j)),
    decreases j - i,
{
    if i < j {
        lemma_utf8_len_take_mono(s, i, j - 1);
        assert(s.take(j) =~= s.take(j - 1).push(s[j - 1]));
        lemma_utf8_len_push(s.take(j - 1), s[j - 1]);
    }
}

} // verus!
