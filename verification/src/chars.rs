use vstd::prelude::*;
use vstd::string::StrSliceExecFns;

verus! {

// ---------------------------------------------------------------------------
// Text as sequences of characters: what `str`'s searching, splitting and
// trimming methods compute, and functions on character vectors that compute
// the same.
// ---------------------------------------------------------------------------

/// A character with the Unicode `White_Space` property, as `char::is_whitespace` tests it.
pub open spec fn is_space(c: char) -> bool {
    let n = c as u32;
    ||| 9 <= n <= 13
    ||| n == 32
    ||| n == 0x85
    ||| n == 0xA0
    ||| n == 0x1680
    ||| 0x2000 <= n <= 0x200A
    ||| n == 0x2028
    ||| n == 0x2029
    ||| n == 0x202F
    ||| n == 0x205F
    ||| n == 0x3000
}

/// `s` without its leading whitespace.
pub open spec fn trim_start(s: Seq<char>) -> Seq<char>
    decreases s.len(),
{
    if s.len() > 0 && is_space(s[0]) {
        trim_start(s.drop_first())
    } else {
        s
    }
}

/// `s` without its trailing whitespace.
pub open spec fn trim_end(s: Seq<char>) -> Seq<char>
    decreases s.len(),
{
    if s.len() > 0 && is_space(s.last()) {
        trim_end(s.drop_last())
    } else {
        s
    }
}

/// `s` without leading and trailing whitespace, as `str::trim` gives it.
pub open spec fn trim(s: Seq<char>) -> Seq<char> {
    trim_end(trim_start(s))
}

/// `s` without the copies of `c` at its end, as `str::trim_end_matches` gives it.
pub open spec fn trim_end_char(s: Seq<char>, c: char) -> Seq<char>
    decreases s.len(),
{
    if s.len() > 0 && s.last() == c {
        trim_end_char(s.drop_last(), c)
    } else {
        s
    }
}

pub open spec fn starts_with(s: Seq<char>, p: Seq<char>) -> bool {
    p.len() <= s.len() && s.subrange(0, p.len() as int) == p
}

pub open spec fn ends_with(s: Seq<char>, p: Seq<char>) -> bool {
    p.len() <= s.len() && s.subrange(s.len() - p.len(), s.len() as int) == p
}

/// The first position at or after `from` where `p` occurs in `s`.
pub open spec fn find_from(s: Seq<char>, p: Seq<char>, from: int) -> Option<int>
    decreases s.len() + 1 - from,
{
    if from < 0 || from + p.len() > s.len() {
        None
    } else if s.subrange(from, from + p.len()) == p {
        Some(from)
    } else {
        find_from(s, p, from + 1)
    }
}

pub open spec fn contains_char(s: Seq<char>, c: char) -> bool {
    find_from(s, seq![c], 0) is Some
}

/// The pieces of `s[from..]` between the copies of `c`, as `str::split` gives them.
pub open spec fn split_from(s: Seq<char>, c: char, from: int) -> Seq<Seq<char>>
    decreases s.len() - from,
{
    match find_from(s, seq![c], from) {
        Some(j) => {
            proof {
                lemma_find_from_found(s, seq![c], from);
            }
            seq![s.subrange(from, j)] + split_from(s, c, j + 1)
        },
        None => seq![s.subrange(from, s.len() as int)],
    }
}

pub open spec fn split(s: Seq<char>, c: char) -> Seq<Seq<char>> {
    split_from(s, c, 0)
}

/// A line without the carriage return before its line feed.
pub open spec fn strip_cr(l: Seq<char>) -> Seq<char> {
    if l.len() > 0 && l.last() == '\r' {
        l.drop_last()
    } else {
        l
    }
}

/// The lines of `s[from..]`, as `str::lines` gives them: split after each
/// line feed, a line feed and a carriage return before it dropped, and no
/// empty line after a final line feed.
pub open spec fn lines_from(s: Seq<char>, from: int) -> Seq<Seq<char>>
    decreases s.len() - from,
{
    if from < 0 || from >= s.len() {
        seq![]
    } else {
        match find_from(s, seq!['\n'], from) {
            Some(j) => {
                proof {
                    lemma_find_from_found(s, seq!['\n'], from);
                }
                seq![strip_cr(s.subrange(from, j))] + lines_from(s, j + 1)
            },
            None => seq![s.subrange(from, s.len() as int)],
        }
    }
}

pub open spec fn lines(s: Seq<char>) -> Seq<Seq<char>> {
    lines_from(s, 0)
}

pub open spec fn is_digit(c: char) -> bool {
    '0' <= c <= '9'
}

/// The number that the decimal digits `s` spell.
pub open spec fn digits_value(s: Seq<char>) -> nat
    decreases s.len(),
{
    if s.len() == 0 {
        0
    } else {
        digits_value(s.drop_last()) * 10 + (s.last() as nat - '0' as nat) as nat
    }
}

/// An unsigned number read as `str::parse` reads it for an unsigned type
/// whose largest value is `max`: an optional `+`, then one or more decimal
/// digits, of value at most `max`.
pub open spec fn parse_unsigned(s: Seq<char>, max: nat) -> Option<nat> {
    let d = without_plus(s);
    if d.len() > 0 && all_digits(d) && digits_value(d) <= max {
        Some(digits_value(d))
    } else {
        None
    }
}

/// `s` without a leading `+`.
pub open spec fn without_plus(s: Seq<char>) -> Seq<char> {
    if s.len() > 0 && s[0] == '+' {
        s.drop_first()
    } else {
        s
    }
}

pub open spec fn all_digits(d: Seq<char>) -> bool {
    forall|i: int| 0 <= i < d.len() ==> is_digit(#[trigger] d[i])
}

// ---------------------------------------------------------------------------
// Computing them
// ---------------------------------------------------------------------------

/// Appends `c` with `String::push`.
#[verifier::external_body]
pub(crate) fn push_char(s: &mut String, c: char)
    ensures
        final(s)@ == old(s)@.push(c),
{
    s.push(c);
}

/// The characters of `s`.
pub fn chars_of(s: &str) -> (r: Vec<char>)
    ensures
        r@ == s@,
{
    let n = s.unicode_len();
    let mut v: Vec<char> = Vec::new();
    let mut i: usize = 0;
    while i < n
        invariant
            i <= n,
            n == s@.len(),
            v@ == s@.take(i as int),
        decreases n - i,
    {
        v.push(s.get_char(i));
        i = i + 1;
        proof {
            assert(v@ =~= s@.take(i as int));
        }
    }
    proof {
        assert(s@.take(n as int) =~= s@);
    }
    v
}

/// The text of `v[from..to]`.
pub fn string_of(v: &[char], from: usize, to: usize) -> (r: String)
    requires
        from <= to <= v@.len(),
    ensures
        r@ == v@.subrange(from as int, to as int),
{
    let mut s = String::new();
    let mut i = from;
    while i < to
        invariant
            from <= i <= to,
            to <= v@.len(),
            s@ == v@.subrange(from as int, i as int),
        decreases to - i,
    {
        push_char(&mut s, v[i]);
        i = i + 1;
        proof {
            assert(s@ =~= v@.subrange(from as int, i as int));
        }
    }
    s
}

/// A copy of `v[from..to]`.
pub fn sub_chars(v: &[char], from: usize, to: usize) -> (r: Vec<char>)
    requires
        from <= to <= v@.len(),
    ensures
        r@ == v@.subrange(from as int, to as int),
{
    let mut out: Vec<char> = Vec::new();
    let mut i = from;
    while i < to
        invariant
            from <= i <= to,
            to <= v@.len(),
            out@ == v@.subrange(from as int, i as int),
        decreases to - i,
    {
        out.push(v[i]);
        i = i + 1;
        proof {
            assert(out@ =~= v@.subrange(from as int, i as int));
        }
    }
    out
}

/// Whether `v` and `w` hold the same characters.
pub fn same_chars(v: &[char], w: &[char]) -> (r: bool)
    ensures
        r == (v@ == w@),
{
    if v.len() != w.len() {
        return false;
    }
    let mut i: usize = 0;
    while i < v.len()
        invariant
            i <= v@.len(),
            v@.len() == w@.len(),
            forall|j: int| 0 <= j < i ==> v@[j] == w@[j],
        decreases v@.len() - i,
    {
        if v[i] != w[i] {
            return false;
        }
        i = i + 1;
    }
    proof {
        assert(v@ =~= w@);
    }
    true
}

pub fn is_space_char(c: char) -> (r: bool)
    ensures
        r == is_space(c),
{
    let n = c as u32;
    (9 <= n && n <= 13) || n == 32 || n == 0x85 || n == 0xA0 || n == 0x1680 || (0x2000 <= n && n <= 0x200A) || n == 0x2028
        || n == 0x2029 || n == 0x202F || n == 0x205F || n == 0x3000
}

proof fn lemma_trim_start_skip(s: Seq<char>, i: int)
    requires
        0 <= i < s.len(),
        is_space(s[i]),
    ensures
        trim_start(s.subrange(i, s.len() as int)) == trim_start(s.subrange(i + 1, s.len() as int)),
{
    assert(s.subrange(i, s.len() as int).drop_first() =~= s.subrange(i + 1, s.len() as int));
}

proof fn lemma_trim_end_skip(s: Seq<char>, j: int)
    requires
        0 < j <= s.len(),
        is_space(s[j - 1]),
    ensures
        trim_end(s.subrange(0, j)) == trim_end(s.subrange(0, j - 1)),
{
    assert(s.subrange(0, j).drop_last() =~= s.subrange(0, j - 1));
}

/// `v` without leading and trailing whitespace.
pub fn trim_chars(v: &[char]) -> (r: Vec<char>)
    ensures
        r@ == trim(v@),
{
    let n = v.len();
    let mut i: usize = 0;
    proof {
        assert(v@.subrange(0, n as int) =~= v@);
    }
    while i < n && is_space_char(v[i])
        invariant
            i <= n,
            n == v@.len(),
            trim_start(v@) == trim_start(v@.subrange(i as int, n as int)),
        decreases n - i,
    {
        proof {
            lemma_trim_start_skip(v@, i as int);
        }
        i = i + 1;
    }
    let ghost t = v@.subrange(i as int, n as int);
    proof {
        assert(trim_start(v@) == t);
        assert(t.subrange(0, t.len() as int) =~= t);
    }
    let mut j: usize = n;
    while j > i && is_space_char(v[j - 1])
        invariant
            i <= j <= n,
            n == v@.len(),
            t == v@.subrange(i as int, n as int),
            trim_end(t) == trim_end(t.subrange(0, j - i)),
        decreases j,
    {
        proof {
            assert(t[j - i - 1] == v@[j - 1]);
            lemma_trim_end_skip(t, j - i);
        }
        j = j - 1;
    }
    proof {
        assert(t.subrange(0, j - i) =~= v@.subrange(i as int, j as int));
    }
    sub_chars(v, i, j)
}

proof fn lemma_trim_end_char_skip(s: Seq<char>, c: char, j: int)
    requires
        0 < j <= s.len(),
        s[j - 1] == c,
    ensures
        trim_end_char(s.subrange(0, j), c) == trim_end_char(s.subrange(0, j - 1), c),
{
    assert(s.subrange(0, j).drop_last() =~= s.subrange(0, j - 1));
}

/// `v` without the copies of `c` at its end.
pub fn trim_end_char_chars(v: &[char], c: char) -> (r: Vec<char>)
    ensures
        r@ == trim_end_char(v@, c),
{
    let n = v.len();
    let mut j: usize = n;
    proof {
        assert(v@.subrange(0, n as int) =~= v@);
    }
    while j > 0 && v[j - 1] == c
        invariant
            j <= n,
            n == v@.len(),
            trim_end_char(v@, c) == trim_end_char(v@.subrange(0, j as int), c),
        decreases j,
    {
        proof {
            lemma_trim_end_char_skip(v@, c, j as int);
        }
        j = j - 1;
    }
    sub_chars(v, 0, j)
}

/// Whether `v` starts with `p`.
pub fn starts_with_chars(v: &[char], p: &[char]) -> (r: bool)
    ensures
        r == starts_with(v@, p@),
{
    if p.len() > v.len() {
        return false;
    }
    let head = sub_chars(v, 0, p.len());
    same_chars(head.as_slice(), p)
}

/// Whether `v` ends with `p`.
pub fn ends_with_chars(v: &[char], p: &[char]) -> (r: bool)
    ensures
        r == ends_with(v@, p@),
{
    if p.len() > v.len() {
        return false;
    }
    let tail = sub_chars(v, v.len() - p.len(), v.len());
    same_chars(tail.as_slice(), p)
}

/// The first position at or after `from` where `p` occurs in `v`.
pub fn find_chars(v: &[char], p: &[char], from: usize) -> (r: Option<usize>)
    ensures
        r matches Some(j) ==> find_from(v@, p@, from as int) == Some(j as int),
        r is None ==> find_from(v@, p@, from as int) is None,
{
    let n = v.len();
    let m = p.len();
    if m > n {
        proof {
            lemma_find_from_none(v@, p@, from as int);
        }
        return None;
    }
    if m == 0 {
        if from <= n {
            proof {
                assert(v@.subrange(from as int, from as int) =~= p@);
            }
            return Some(from);
        }
        return None;
    }
    let mut i = from;
    while i <= n - m
        invariant
            from <= i,
            1 <= m <= n,
            n == v@.len(),
            m == p@.len(),
            find_from(v@, p@, from as int) == find_from(v@, p@, i as int),
        decreases n - i,
    {
        let window = sub_chars(v, i, i + m);
        if same_chars(window.as_slice(), p) {
            return Some(i);
        }
        i = i + 1;
    }
    None
}

proof fn lemma_find_from_none(s: Seq<char>, p: Seq<char>, from: int)
    requires
        p.len() > s.len(),
    ensures
        find_from(s, p, from) is None,
{
}

/// A found position lies at or after the start of the search, with the
/// pattern there.
pub proof fn lemma_find_from_found(s: Seq<char>, p: Seq<char>, from: int)
    requires
        find_from(s, p, from) is Some,
    ensures
        from <= find_from(s, p, from)->0,
        find_from(s, p, from)->0 + p.len() <= s.len(),
        s.subrange(find_from(s, p, from)->0, find_from(s, p, from)->0 + p.len()) == p,
    decreases s.len() + 1 - from,
{
    if !(from < 0 || from + p.len() > s.len()) && s.subrange(from, from + p.len()) != p {
        lemma_find_from_found(s, p, from + 1);
    }
}

/// The first position at or after `from` where `c` stands in `v`.
pub fn find_char(v: &[char], c: char, from: usize) -> (r: Option<usize>)
    ensures
        r matches Some(j) ==> find_from(v@, seq![c], from as int) == Some(j as int),
        r is None ==> find_from(v@, seq![c], from as int) is None,
{
    let pat: Vec<char> = vec![c];
    proof {
        assert(pat@ =~= seq![c]);
    }
    find_chars(v, pat.as_slice(), from)
}

/// The pieces of `v` between the copies of `c`.
pub fn split_chars(v: &[char], c: char) -> (r: Vec<Vec<char>>)
    ensures
        r@.len() == split(v@, c).len(),
        forall|i: int| 0 <= i < r@.len() ==> #[trigger] r@[i]@ == split(v@, c)[i],
{
    let mut out: Vec<Vec<char>> = Vec::new();
    let mut from: usize = 0;
    let n = v.len();
    let ghost done: Seq<Seq<char>> = seq![];
    loop
        invariant
            n == v@.len(),
            from <= v@.len(),
            out@.len() == done.len(),
            forall|i: int| 0 <= i < out@.len() ==> #[trigger] out@[i]@ == done[i],
            split(v@, c) == done + split_from(v@, c, from as int),
        decreases v@.len() - from,
    {
        match find_char(v, c, from) {
            Some(j) => {
                proof {
                    lemma_find_from_found(v@, seq![c], from as int);
                    assert(seq![c].len() == 1);
                }
                let piece = sub_chars(v, from, j);
                proof {
                    assert(split_from(v@, c, from as int) == seq![v@.subrange(from as int, j as int)] + split_from(v@, c, j + 1));
                    done = done.push(v@.subrange(from as int, j as int));
                    assert(split(v@, c) =~= done + split_from(v@, c, j + 1));
                }
                out.push(piece);
                from = j + 1;
            },
            None => {
                let piece = sub_chars(v, from, v.len());
                proof {
                    done = done.push(v@.subrange(from as int, v@.len() as int));
                    assert(split(v@, c) =~= done);
                }
                out.push(piece);
                return out;
            },
        }
    }
}

/// `l` without a carriage return at its end.
fn strip_cr_chars(l: Vec<char>) -> (r: Vec<char>)
    ensures
        r@ == strip_cr(l@),
{
    if l.len() > 0 && l[l.len() - 1] == '\r' {
        sub_chars(l.as_slice(), 0, l.len() - 1)
    } else {
        l
    }
}

/// The lines of `v`.
pub fn lines_chars(v: &[char]) -> (r: Vec<Vec<char>>)
    ensures
        r@.len() == lines(v@).len(),
        forall|i: int| 0 <= i < r@.len() ==> #[trigger] r@[i]@ == lines(v@)[i],
{
    let mut out: Vec<Vec<char>> = Vec::new();
    let mut from: usize = 0;
    let ghost done: Seq<Seq<char>> = seq![];
    while from < v.len()
        invariant
            from <= v@.len(),
            out@.len() == done.len(),
            forall|i: int| 0 <= i < out@.len() ==> #[trigger] out@[i]@ == done[i],
            lines(v@) == done + lines_from(v@, from as int),
        decreases v@.len() - from,
    {
        match find_char(v, '\n', from) {
            Some(j) => {
                proof {
                    lemma_find_from_found(v@, seq!['\n'], from as int);
                    assert(seq!['\n'].len() == 1);
                }
                let piece = strip_cr_chars(sub_chars(v, from, j));
                proof {
                    done = done.push(strip_cr(v@.subrange(from as int, j as int)));
                    assert(lines(v@) =~= done + lines_from(v@, j + 1));
                }
                out.push(piece);
                from = j + 1;
            },
            None => {
                let piece = sub_chars(v, from, v.len());
                proof {
                    done = done.push(v@.subrange(from as int, v@.len() as int));
                    assert(lines(v@) =~= done);
                }
                out.push(piece);
                return out;
            },
        }
    }
    proof {
        assert(lines(v@) =~= done);
    }
    out
}

proof fn lemma_digits_step(s: Seq<char>, i: int)
    requires
        0 <= i < s.len(),
    ensures
        digits_value(s.take(i + 1)) == digits_value(s.take(i)) * 10 + (s[i] as nat - '0' as nat) as nat,
{
    assert(s.take(i + 1).drop_last() =~= s.take(i));
}

proof fn lemma_digits_mono(s: Seq<char>, i: int)
    requires
        0 <= i <= s.len(),
        forall|k: int| 0 <= k < s.len() ==> is_digit(#[trigger] s[k]),
    ensures
        digits_value(s.take(i)) <= digits_value(s),
    decreases s.len() - i,
{
    if i == s.len() {
        assert(s.take(i) =~= s);
    } else {
        lemma_digits_step(s, i);
        lemma_digits_mono(s, i + 1);
    }
}

/// Reads an unsigned number of value at most `max`; see `parse_unsigned`.
pub fn parse_unsigned_chars(v: &[char], max: u64) -> (r: Option<u64>)
    ensures
        r matches Some(x) ==> parse_unsigned(v@, max as nat) == Some(x as nat),
        r is None ==> parse_unsigned(v@, max as nat) is None,
{
    let start: usize = if v.len() > 0 && v[0] == '+' { 1 } else { 0 };
    let ghost d = without_plus(v@);
    proof {
        assert(d =~= v@.subrange(start as int, v@.len() as int));
    }
    if start >= v.len() {
        return None;
    }
    let mut i = start;
    while i < v.len()
        invariant
            start <= i <= v@.len(),
            d == without_plus(v@),
            d == v@.subrange(start as int, v@.len() as int),
            forall|k: int| 0 <= k < i - start ==> is_digit(#[trigger] d[k]),
        decreases v@.len() - i,
    {
        if !('0' <= v[i] && v[i] <= '9') {
            proof {
                assert(!is_digit(d[i - start]));
            }
            return None;
        }
        i = i + 1;
    }
    let mut acc: u64 = 0;
    let mut k = start;
    while k < v.len()
        invariant
            start <= k <= v@.len(),
            d == without_plus(v@),
            d == v@.subrange(start as int, v@.len() as int),
            forall|q: int| 0 <= q < d.len() ==> is_digit(#[trigger] d[q]),
            acc == digits_value(d.take(k - start)),
            acc <= max,
        decreases v@.len() - k,
    {
        proof {
            lemma_digits_step(d, k - start);
            assert(d[k - start] == v@[k as int]);
        }
        let digit = (v[k] as u32 - '0' as u32) as u64;
        if digit > max || acc > (max - digit) / 10 {
            proof {
                if digit <= max {
                    assert(acc * 10 + digit > max) by (nonlinear_arith)
                        requires
                            acc > (max - digit) / 10,
                            digit <= max,
                    ;
                }
                lemma_digits_mono(d, k - start + 1);
            }
            return None;
        }
        proof {
            assert(acc * 10 + digit <= max) by (nonlinear_arith)
                requires
                    acc <= (max - digit) / 10,
                    digit <= max,
            ;
        }
        acc = acc * 10 + digit;
        k = k + 1;
    }
    proof {
        assert(d.take(d.len() as int) =~= d);
    }
    Some(acc)
}

} // verus!
