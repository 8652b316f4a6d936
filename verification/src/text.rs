//! Character-level helpers on strings: trimming, path segments, decimal and
//! hexadecimal digits.

use vstd::prelude::*;

verus! {

/// The characters of `s`.
pub fn chars_of(s: &str) -> (r: Vec<char>)
    ensures
        r@ == s@,
{
    let mut r: Vec<char> = Vec::new();
    for c in it: s.chars()
        invariant
            r@ == it.seq().take(it.index() as int),
    {
        r.push(c);
    }
    r
}

/// `String::from_iter` of std over characters: the string made of `chars`.
#[verifier::external_body]
pub(crate) fn string_from_chars(chars: Vec<char>) -> (r: String)
    ensures
        r@ == chars@,
{
    String::from_iter(chars)
}

// ---------------------------------------------------------------------------
// White space and trimming
// ---------------------------------------------------------------------------

/// The characters with the Unicode `White_Space` property (those that
/// `char::is_whitespace` and `str::trim` treat as white space).
pub open spec fn is_white_space(c: char) -> bool {
    let u = c as u32;
    ||| 0x09 <= u <= 0x0D
    ||| u == 0x20
    ||| u == 0x85
    ||| u == 0xA0
    ||| u == 0x1680
    ||| 0x2000 <= u <= 0x200A
    ||| u == 0x2028
    ||| u == 0x2029
    ||| u == 0x202F
    ||| u == 0x205F
    ||| u == 0x3000
}

/// Whether `c` is white space.
pub fn is_white_space_char(c: char) -> (r: bool)
    ensures
        r == is_white_space(c),
{
    let u = c as u32;
    (0x09 <= u && u <= 0x0D) || u == 0x20 || u == 0x85 || u == 0xA0 || u == 0x1680 || (0x2000
        <= u && u <= 0x200A) || u == 0x2028 || u == 0x2029 || u == 0x202F || u == 0x205F || u
        == 0x3000
}

/// `s` without its leading white space.
pub open spec fn trim_start(s: Seq<char>) -> Seq<char>
    decreases s.len(),
{
    if s.len() > 0 && is_white_space(s[0]) {
        trim_start(s.drop_first())
    } else {
        s
    }
}

/// `s` without its trailing white space.
pub open spec fn trim_end(s: Seq<char>) -> Seq<char>
    decreases s.len(),
{
    if s.len() > 0 && is_white_space(s.last()) {
        trim_end(s.drop_last())
    } else {
        s
    }
}

/// `s` without leading and trailing white space.
pub open spec fn trim(s: Seq<char>) -> Seq<char> {
    trim_end(trim_start(s))
}

proof fn lemma_trim_start_skip(s: Seq<char>, i: nat)
    requires
        i <= s.len(),
        forall|k: int| 0 <= k < i ==> is_white_space(s[k]),
    ensures
        trim_start(s) == trim_start(s.skip(i as int)),
    decreases i,
{
    if i == 0 {
        assert(s.skip(0) =~= s);
    } else {
        lemma_trim_start_skip(s.drop_first(), (i - 1) as nat);
        assert(s.drop_first().skip(i - 1) =~= s.skip(i as int));
    }
}

proof fn lemma_trim_end_take(s: Seq<char>, j: nat)
    requires
        j <= s.len(),
        forall|k: int| j <= k < s.len() ==> is_white_space(s[k]),
    ensures
        trim_end(s) == trim_end(s.take(j as int)),
    decreases s.len() - j,
{
    if j == s.len() {
        assert(s.take(j as int) =~= s);
    } else {
        lemma_trim_end_take(s.drop_last(), j);
        assert(s.drop_last().take(j as int) =~= s.take(j as int));
    }
}

proof fn lemma_trim_start_shape(s: Seq<char>) -> (i: int)
    ensures
        0 <= i <= s.len(),
        trim_start(s) == s.skip(i),
        trim_start(s).len() > 0 ==> !is_white_space(trim_start(s)[0]),
    decreases s.len(),
{
    if s.len() > 0 && is_white_space(s[0]) {
        let i = lemma_trim_start_shape(s.drop_first());
        assert(s.drop_first().skip(i) =~= s.skip(i + 1));
        i + 1
    } else {
        assert(s.skip(0) =~= s);
        0
    }
}

proof fn lemma_trim_end_shape(s: Seq<char>) -> (j: int)
    ensures
        0 <= j <= s.len(),
        trim_end(s) == s.take(j),
        trim_end(s).len() > 0 ==> !is_white_space(trim_end(s).last()),
    decreases s.len(),
{
    if s.len() > 0 && is_white_space(s.last()) {
        let j = lemma_trim_end_shape(s.drop_last());
        assert(s.drop_last().take(j) =~= s.take(j));
        j
    } else {
        assert(s.take(s.len() as int) =~= s);
        s.len() as int
    }
}

/// A text that neither starts nor ends with white space is its own trim.
pub proof fn lemma_trim_fixed(s: Seq<char>)
    requires
        s.len() > 0 ==> !is_white_space(s[0]) && !is_white_space(s.last()),
    ensures
        trim(s) == s,
{
    assert(trim_start(s) == s);
    assert(trim_end(s) == s);
}

/// The trim of `s` is made of characters of `s`, neither starts nor ends with
/// white space, and is its own trim.
pub proof fn lemma_trim(s: Seq<char>)
    ensures
        forall|x: char| trim(s).contains(x) ==> s.contains(x),
        trim(s).len() > 0 ==> !is_white_space(trim(s)[0]) && !is_white_space(trim(s).last()),
        trim(trim(s)) == trim(s),
{
    let i = lemma_trim_start_shape(s);
    let t = trim_start(s);
    let j = lemma_trim_end_shape(t);
    let u = trim_end(t);
    assert forall|x: char| u.contains(x) implies s.contains(x) by {
        let k = choose|k: int| 0 <= k < u.len() && u[k] == x;
        assert(s[i + k] == x);
    }
    if u.len() > 0 {
        assert(u[0] == t[0]);
    }
    lemma_trim_fixed(u);
}

/// A text without `c` is its own part after the last `c`.
pub proof fn lemma_after_last_absent(s: Seq<char>, c: char)
    requires
        !s.contains(c),
    ensures
        after_last(s, c) == s,
    decreases s.len(),
{
    if s.len() > 0 {
        assert(s.last() != c) by {
            if s.last() == c {
                assert(s[s.len() - 1] == c);
            }
        }
        assert(!s.drop_last().contains(c)) by {
            if s.drop_last().contains(c) {
                let k = choose|k: int| 0 <= k < s.drop_last().len() && s.drop_last()[k] == c;
                assert(s[k] == c);
            }
        }
        lemma_after_last_absent(s.drop_last(), c);
        assert(s.drop_last().push(s.last()) =~= s);
    }
}

/// The characters of `v` without leading and trailing white space.
pub fn trim_chars(v: &Vec<char>) -> (r: Vec<char>)
    ensures
        r@ == trim(v@),
{
    let n = v.len();
    let mut i: usize = 0;
    while i < n && is_white_space_char(v[i])
        invariant
            i <= n,
            n == v@.len(),
            forall|k: int| 0 <= k < i ==> is_white_space(v@[k]),
        decreases n - i,
    {
        i = i + 1;
    }
    proof {
        lemma_trim_start_skip(v@, i as nat);
    }
    let ghost t = v@.skip(i as int);
    assert(trim_start(t) == t);
    let mut j: usize = n;
    while j > i && is_white_space_char(v[j - 1])
        invariant
            i <= j <= n,
            n == v@.len(),
            t == v@.skip(i as int),
            forall|k: int| j <= k < n ==> is_white_space(v@[k]),
        decreases j,
    {
        j = j - 1;
    }
    proof {
        lemma_trim_end_take(t, (j - i) as nat);
        let u = t.take((j - i) as int);
        if u.len() > 0 {
            assert(u.last() == v@[j - 1]);
        }
        assert(trim_end(u) == u);
    }
    let mut r: Vec<char> = Vec::new();
    let mut k = i;
    while k < j
        invariant
            i <= k <= j <= n,
            n == v@.len(),
            r@ == v@.subrange(i as int, k as int),
        decreases j - k,
    {
        r.push(v[k]);
        assert(v@.subrange(i as int, k + 1) =~= v@.subrange(i as int, k as int).push(v@[k as int]));
        k = k + 1;
    }
    assert(r@ =~= t.take((j - i) as int));
    r
}

// ---------------------------------------------------------------------------
// The part after the last separator
// ---------------------------------------------------------------------------

/// The part of `s` after the last `c` (all of `s` when `c` does not occur).
pub open spec fn after_last(s: Seq<char>, c: char) -> Seq<char>
    decreases s.len(),
{
    if s.len() == 0 {
        s
    } else if s.last() == c {
        Seq::empty()
    } else {
        after_last(s.drop_last(), c).push(s.last())
    }
}

/// The part of `s` after the last `c` holds no `c`, and is a part of `s`.
pub proof fn lemma_after_last(s: Seq<char>, c: char)
    ensures
        !after_last(s, c).contains(c),
        forall|x: char| after_last(s, c).contains(x) ==> s.contains(x),
    decreases s.len(),
{
    if s.len() > 0 && s.last() != c {
        lemma_after_last(s.drop_last(), c);
        let a = after_last(s.drop_last(), c);
        assert forall|x: char| a.push(s.last()).contains(x) implies s.contains(x) by {
            if x != s.last() {
                let k = choose|k: int| 0 <= k < a.push(s.last()).len() && a.push(s.last())[k] == x;
                assert(a.contains(x));
                assert(s.drop_last().contains(x));
                let k2 = choose|k2: int| 0 <= k2 < s.drop_last().len() && s.drop_last()[k2] == x;
                assert(s[k2] == x);
            } else {
                assert(s[s.len() - 1] == x);
            }
        }
        assert(!a.push(s.last()).contains(c)) by {
            if a.push(s.last()).contains(c) {
                let k = choose|k: int| 0 <= k < a.push(s.last()).len() && a.push(s.last())[k] == c;
                if k < a.len() {
                    assert(a[k] == c);
                }
            }
        }
    }
}

/// Where the part of `v[..end]` after its last `c` starts.
pub fn segment_start(v: &Vec<char>, end: usize, c: char) -> (st: usize)
    requires
        end <= v@.len(),
    ensures
        st <= end,
        after_last(v@.take(end as int), c) == v@.subrange(st as int, end as int),
        st > 0 ==> v@[st - 1] == c,
{
    let mut j: usize = end;
    let ghost p0 = v@.take(end as int);
    assert(p0.take(end as int) =~= p0);
    assert(p0.skip(end as int) =~= Seq::<char>::empty());
    while j > 0 && v[j - 1] != c
        invariant
            j <= end <= v@.len(),
            p0 == v@.take(end as int),
            after_last(p0, c) == after_last(p0.take(j as int), c) + p0.skip(j as int),
        decreases j,
    {
        let ghost p = p0.take(j as int);
        assert(p.drop_last() =~= p0.take(j - 1));
        assert(p.last() == v@[j - 1]);
        assert(after_last(p, c) == after_last(p0.take(j - 1), c).push(v@[j - 1]));
        assert(p0.skip(j - 1) =~= seq![v@[j - 1]] + p0.skip(j as int));
        assert(after_last(p0.take(j - 1), c).push(v@[j - 1]) + p0.skip(j as int) =~= after_last(
            p0.take(j - 1),
            c,
        ) + p0.skip(j - 1));
        j = j - 1;
    }
    proof {
        let p = p0.take(j as int);
        if j > 0 {
            assert(p.last() == v@[j - 1]);
        }
        assert(after_last(p, c) =~= Seq::<char>::empty());
        assert(p0.skip(j as int) =~= v@.subrange(j as int, end as int));
    }
    j
}

/// The characters `v[a..b]`.
pub fn copy_chars(v: &Vec<char>, a: usize, b: usize) -> (r: Vec<char>)
    requires
        a <= b <= v@.len(),
    ensures
        r@ == v@.subrange(a as int, b as int),
{
    let mut r: Vec<char> = Vec::new();
    let mut k = a;
    while k < b
        invariant
            a <= k <= b <= v@.len(),
            r@ == v@.subrange(a as int, k as int),
        decreases b - k,
    {
        r.push(v[k]);
        assert(v@.subrange(a as int, k + 1) =~= v@.subrange(a as int, k as int).push(v@[k as int]));
        k = k + 1;
    }
    r
}

/// The characters of `v` after the last `c`.
pub fn after_last_char(v: &Vec<char>, c: char) -> (r: Vec<char>)
    ensures
        r@ == after_last(v@, c),
{
    let n = v.len();
    let st = segment_start(v, n, c);
    assert(v@.take(n as int) =~= v@);
    copy_chars(v, st, n)
}

// ---------------------------------------------------------------------------
// Digits
// ---------------------------------------------------------------------------

/// The character of a digit below 16 (lower-case for 10 to 15).
pub open spec fn digit_char(d: nat) -> char {
    if d == 0 {
        '0'
    } else if d == 1 {
        '1'
    } else if d == 2 {
        '2'
    } else if d == 3 {
        '3'
    } else if d == 4 {
        '4'
    } else if d == 5 {
        '5'
    } else if d == 6 {
        '6'
    } else if d == 7 {
        '7'
    } else if d == 8 {
        '8'
    } else if d == 9 {
        '9'
    } else if d == 10 {
        'a'
    } else if d == 11 {
        'b'
    } else if d == 12 {
        'c'
    } else if d == 13 {
        'd'
    } else if d == 14 {
        'e'
    } else {
        'f'
    }
}

fn digit(d: u32) -> (r: char)
    requires
        d < 16,
    ensures
        r == digit_char(d as nat),
{
    if d == 0 {
        '0'
    } else if d == 1 {
        '1'
    } else if d == 2 {
        '2'
    } else if d == 3 {
        '3'
    } else if d == 4 {
        '4'
    } else if d == 5 {
        '5'
    } else if d == 6 {
        '6'
    } else if d == 7 {
        '7'
    } else if d == 8 {
        '8'
    } else if d == 9 {
        '9'
    } else if d == 10 {
        'a'
    } else if d == 11 {
        'b'
    } else if d == 12 {
        'c'
    } else if d == 13 {
        'd'
    } else if d == 14 {
        'e'
    } else {
        'f'
    }
}

/// The decimal digits of `n`, most significant first, without leading zeros.
pub open spec fn decimal(n: nat) -> Seq<char>
    decreases n,
{
    if n < 10 {
        seq![digit_char(n)]
    } else {
        decimal(n / 10).push(digit_char(n % 10))
    }
}

/// Appends the decimal digits of `n`.
pub fn push_decimal(n: u32, out: &mut Vec<char>)
    ensures
        final(out)@ == old(out)@ + decimal(n as nat),
    decreases n,
{
    if n >= 10 {
        push_decimal(n / 10, out);
    }
    out.push(digit(n % 10));
    proof {
        if n >= 10 {
            assert(decimal(n as nat) == decimal((n / 10) as nat).push(digit_char((n % 10) as nat)));
        }
    }
    assert(final(out)@ =~= old(out)@ + decimal(n as nat)) by {
        if n < 10 {
            assert(decimal(n as nat) == seq![digit_char(n as nat)]);
        }
    }
}

/// Two lower-case hexadecimal digits per byte, most significant first.
pub open spec fn hex_lower(b: Seq<u8>) -> Seq<char>
    decreases b.len(),
{
    if b.len() == 0 {
        Seq::empty()
    } else {
        hex_lower(b.drop_last()).push(digit_char((b.last() / 16) as nat)).push(
            digit_char((b.last() % 16) as nat),
        )
    }
}

/// The lower-case hexadecimal digits of `b`.
pub fn hex_lower_chars(b: &[u8]) -> (r: Vec<char>)
    ensures
        r@ == hex_lower(b@),
{
    let mut r: Vec<char> = Vec::new();
    let n = b.len();
    let mut i: usize = 0;
    assert(b@.take(0) =~= Seq::<u8>::empty());
    while i < n
        invariant
            i <= n,
            n == b@.len(),
            r@ == hex_lower(b@.take(i as int)),
        decreases n - i,
    {
        let x = b[i];
        r.push(digit((x / 16) as u32));
        r.push(digit((x % 16) as u32));
        assert(b@.take(i + 1).drop_last() =~= b@.take(i as int));
        assert(b@.take(i + 1).last() == x);
        i = i + 1;
    }
    assert(b@.take(n as int) =~= b@);
    r
}

} // verus!
