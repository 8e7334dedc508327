//! Character-level helpers shared by the parser and the error reporting.
use vstd::prelude::*;
use vstd::string::StringSliceAdditionalSpecFns;

verus! {

/// The characters of a string slice, in order (their UTF-8 bytes fit in
/// memory, so their byte length fits in a `usize`).
pub fn str_to_chars(s: &str) -> (r: Vec<char>)
    ensures
        r@ == s@,
        utf8_len(s@) <= usize::MAX,
{
    let bytes = s.as_bytes();
    let n: usize = bytes.len();
    proof {
        lemma_str_utf8_len(s);
        assert(bytes@.len() == n);
    }
    let mut r: Vec<char> = Vec::new();
    for c in it: s.chars()
        invariant
            r@ == it.seq().take(it.index() as int),
            it.seq() == s@,
    {
        r.push(c);
    }
    r
}

/// Builds a `String` from a sequence of characters (`FromIterator<char>` of std).
#[verifier::external_body]
pub fn string_from_chars(v: &[char]) -> (s: String)
    ensures
        s@ == v@,
{
    v.iter().collect()
}

/// The character of a decimal digit.
pub open spec fn digit_char(d: nat) -> char {
    (48 + d) as char
}

/// The decimal representation of a natural number, most significant digit first.
pub open spec fn decimal(n: nat) -> Seq<char>
    decreases n,
{
    if n < 10 {
        seq![digit_char(n)]
    } else {
        decimal(n / 10).push(digit_char(n % 10))
    }
}

/// A larger number has at least as many digits.
pub proof fn lemma_decimal_len_mono(a: nat, b: nat)
    requires
        a <= b,
    ensures
        decimal(a).len() <= decimal(b).len(),
    decreases b,
{
    if b >= 10 && a >= 10 {
        lemma_decimal_len_mono(a / 10, b / 10);
    } else if b >= 10 {
        lemma_decimal_len_pos(b);
    }
}

pub proof fn lemma_decimal_len_pos(n: nat)
    ensures
        decimal(n).len() >= 1,
    decreases n,
{
    if n >= 10 {
        lemma_decimal_len_pos(n / 10);
    }
}

/// `10` to the power `k`.
pub open spec fn pow10(k: nat) -> nat
    decreases k,
{
    if k == 0 {
        1
    } else {
        10 * pow10((k - 1) as nat)
    }
}

/// A number below `10^k` has at most `k` digits.
pub proof fn lemma_decimal_len_bound(n: nat, k: nat)
    requires
        1 <= k,
        n < pow10(k),
    ensures
        decimal(n).len() <= k,
    decreases k,
{
    if n >= 10 {
        let p = pow10((k - 1) as nat);
        assert(n < 10 * p);
        assert(n / 10 < p) by (nonlinear_arith)
            requires
                n < 10 * p,
        ;
        if k == 1 {
            assert(p == 1);
        }
        lemma_decimal_len_bound(n / 10, (k - 1) as nat);
    }
}

/// A machine integer has at most twenty digits.
pub proof fn lemma_usize_digits(n: usize)
    ensures
        decimal(n as nat).len() <= 20,
{
    reveal_with_fuel(pow10, 21);
    assert(pow10(20) == 100000000000000000000nat);
    lemma_decimal_len_bound(n as nat, 20);
}

fn digit(d: usize) -> (c: char)
    requires
        d < 10,
    ensures
        c == digit_char(d as nat),
{
    let b: u8 = 48u8 + d as u8;
    b as char
}

/// The decimal digits of `n`.
pub fn decimal_chars(n: usize) -> (r: Vec<char>)
    ensures
        r@ == decimal(n as nat),
    decreases n,
{
    if n < 10 {
        let mut r: Vec<char> = Vec::new();
        r.push(digit(n));
        r
    } else {
        let mut r = decimal_chars(n / 10);
        r.push(digit(n % 10));
        r
    }
}

/// Appends the characters of `s` to `v`.
pub fn extend_chars(v: &mut Vec<char>, s: &str)
    ensures
        final(v)@ == old(v)@ + s@,
{
    let ghost start = v@;
    for c in it: s.chars()
        invariant
            v@ == start + it.seq().take(it.index() as int),
            it.seq() == s@,
    {
        v.push(c);
    }
}

/// Appends the characters of `w` to `v`.
pub fn extend_vec(v: &mut Vec<char>, w: &Vec<char>)
    ensures
        final(v)@ == old(v)@ + w@,
{
    let ghost start = v@;
    let mut i: usize = 0;
    while i < w.len()
        invariant
            i <= w.len(),
            v@ == start + w@.take(i as int),
        decreases w.len() - i,
    {
        v.push(w[i]);
        i = i + 1;
        assert(w@.take(i as int) == w@.take(i - 1).push(w@[i - 1]));
    }
    assert(w@.take(w.len() as int) == w@);
}


/// How many bytes `s` takes in UTF-8, as `str::len` counts them.
#[verifier::opaque]
pub open spec fn utf8_len(s: Seq<char>) -> nat {
    vstd::utf8::encode_utf8(s).len()
}

/// The UTF-8 encoding of two sequences one after the other is the one
/// encoding followed by the other.
pub proof fn lemma_encode_concat(a: Seq<char>, b: Seq<char>)
    ensures
        vstd::utf8::encode_utf8(a + b) == vstd::utf8::encode_utf8(a) + vstd::utf8::encode_utf8(b),
    decreases a.len(),
{
    if a.len() == 0 {
        assert(a + b =~= b);
        assert(vstd::utf8::encode_utf8(a) =~= Seq::<u8>::empty());
        assert(vstd::utf8::encode_utf8(a) + vstd::utf8::encode_utf8(b) =~= vstd::utf8::encode_utf8(b));
    } else {
        assert((a + b).drop_first() =~= a.drop_first() + b);
        assert((a + b)[0] == a[0]);
        lemma_encode_concat(a.drop_first(), b);
        assert(vstd::utf8::encode_utf8(a + b) =~= vstd::utf8::encode_utf8(a) + vstd::utf8::encode_utf8(b));
    }
}

/// The byte length of two sequences one after the other.
pub proof fn lemma_utf8_len_concat(a: Seq<char>, b: Seq<char>)
    ensures
        utf8_len(a + b) == utf8_len(a) + utf8_len(b),
{
    reveal(utf8_len);
    lemma_encode_concat(a, b);
}

/// How many bytes `c` takes in UTF-8.
pub fn utf8_width(c: char) -> (r: usize)
    ensures
        r == utf8_len(seq![c]),
{
    reveal(utf8_len);
    let v = c as u32;
    assert(seq![c].drop_first() =~= Seq::<char>::empty());
    assert(vstd::utf8::encode_utf8(Seq::<char>::empty()) =~= Seq::<u8>::empty());
    assert(vstd::utf8::encode_utf8(seq![c]) =~= vstd::utf8::encode_scalar(v));
    if v < 0x80 {
        1
    } else if v < 0x800 {
        2
    } else if v < 0x10000 {
        3
    } else {
        4
    }
}

/// The byte length of a string slice is that of its characters.
pub proof fn lemma_str_utf8_len(s: &str)
    ensures
        utf8_len(s@) == s.spec_bytes().len(),
{
    reveal(utf8_len);
}

/// How many bytes the characters `v[from..to]` take in UTF-8.
pub fn utf8_len_of(v: &Vec<char>, from: usize, to: usize) -> (r: usize)
    requires
        from <= to <= v@.len(),
        utf8_len(v@.subrange(from as int, to as int)) <= usize::MAX,
    ensures
        r == utf8_len(v@.subrange(from as int, to as int)),
{
    proof {
        reveal(utf8_len);
        assert(vstd::utf8::encode_utf8(v@.subrange(from as int, from as int)) =~= Seq::<u8>::empty());
    }
    let mut n: usize = 0;
    let mut k: usize = from;
    while k < to
        invariant
            from <= k <= to <= v@.len(),
            utf8_len(v@.subrange(from as int, to as int)) <= usize::MAX,
            n == utf8_len(v@.subrange(from as int, k as int)),
        decreases to - k,
    {
        let w = utf8_width(v[k]);
        proof {
            let a = v@.subrange(from as int, k as int);
            assert(v@.subrange(from as int, k + 1) =~= a + seq![v@[k as int]]);
            lemma_utf8_len_concat(a, seq![v@[k as int]]);
            let b = v@.subrange(from as int, k + 1);
            assert(v@.subrange(from as int, to as int) =~= b + v@.subrange(k + 1, to as int));
            lemma_utf8_len_concat(b, v@.subrange(k + 1, to as int));
        }
        n = n + w;
        k = k + 1;
    }
    n
}

/// One character takes one to four bytes, one where it is ASCII.
pub proof fn lemma_char_utf8_len(c: char)
    ensures
        1 <= utf8_len(seq![c]) <= 4,
        (c as u32) < 0x80 ==> utf8_len(seq![c]) == 1,
{
    reveal(utf8_len);
    assert(seq![c].drop_first() =~= Seq::<char>::empty());
    assert(vstd::utf8::encode_utf8(Seq::<char>::empty()) =~= Seq::<u8>::empty());
    assert(vstd::utf8::encode_utf8(seq![c]) =~= vstd::utf8::encode_scalar(c as u32));
}

/// Appending a character adds its bytes.
pub proof fn lemma_utf8_len_push(s: Seq<char>, c: char)
    ensures
        utf8_len(s.push(c)) == utf8_len(s) + utf8_len(seq![c]),
        utf8_len(s.push(c)) > utf8_len(s),
{
    assert(s.push(c) =~= s + seq![c]);
    lemma_utf8_len_concat(s, seq![c]);
    lemma_char_utf8_len(c);
}

/// A longer prefix takes more bytes.
pub proof fn lemma_utf8_len_take_increasing(s: Seq<char>, a: int, b: int)
    requires
        0 <= a < b <= s.len(),
    ensures
        utf8_len(s.take(a)) < utf8_len(s.take(b)),
    decreases b - a,
{
    assert(s.take(b) =~= s.take(b - 1).push(s[b - 1]));
    lemma_utf8_len_push(s.take(b - 1), s[b - 1]);
    if a < b - 1 {
        lemma_utf8_len_take_increasing(s, a, b - 1);
    }
}

/// `n` spaces take `n` bytes.
pub proof fn lemma_utf8_len_spaces(n: nat)
    ensures
        utf8_len(Seq::new(n, |i: int| ' ')) == n,
    decreases n,
{
    if n == 0 {
        reveal(utf8_len);
        assert(Seq::new(n, |i: int| ' ') =~= Seq::<char>::empty());
        assert(vstd::utf8::encode_utf8(Seq::<char>::empty()) =~= Seq::<u8>::empty());
    } else {
        let m = (n - 1) as nat;
        lemma_utf8_len_spaces(m);
        assert(Seq::new(n, |i: int| ' ') =~= Seq::new(m, |i: int| ' ').push(' '));
        lemma_utf8_len_push(Seq::new(m, |i: int| ' '), ' ');
        lemma_char_utf8_len(' ');
    }
}

/// The byte offset `b` of `s` falls between two characters (or at an end).
pub open spec fn byte_boundary(s: Seq<char>, b: nat) -> bool {
    exists|k: int| 0 <= k <= s.len() && utf8_len(#[trigger] s.take(k)) == b
}

/// The number of characters before the byte offset `b` of `s`, where it
/// falls between two characters.
pub open spec fn char_index(s: Seq<char>, b: nat) -> int {
    choose|k: int| 0 <= k <= s.len() && utf8_len(#[trigger] s.take(k)) == b
}

/// Walks `v` from its start while the bytes passed stay within `target`:
/// the number of characters passed and the bytes they take. Where
/// `target` falls between two characters, that is exactly where it stops.
pub fn walk_bytes(v: &Vec<char>, target: usize) -> (r: (usize, usize))
    ensures
        r.0 <= v@.len(),
        r.1 == utf8_len(v@.take(r.0 as int)),
        r.1 <= target,
        r.0 < v@.len() ==> utf8_len(v@.take(r.0 + 1)) > target,
        byte_boundary(v@, target as nat) ==> r.1 == target && char_index(v@, target as nat) == r.0,
{
    let mut k: usize = 0;
    let mut n: usize = 0;
    proof {
        reveal(utf8_len);
        assert(v@.take(0) =~= Seq::<char>::empty());
        assert(vstd::utf8::encode_utf8(Seq::<char>::empty()) =~= Seq::<u8>::empty());
    }
    while k < v.len()
        invariant
            k <= v@.len(),
            n == utf8_len(v@.take(k as int)),
            n <= target,
        ensures
            k <= v@.len(),
            n == utf8_len(v@.take(k as int)),
            n <= target,
            k < v@.len() ==> utf8_len(v@.take(k + 1)) > target,
        decreases v.len() - k,
    {
        let w = utf8_width(v[k]);
        proof {
            assert(v@.take(k + 1) =~= v@.take(k as int).push(v@[k as int]));
            lemma_utf8_len_push(v@.take(k as int), v@[k as int]);
        }
        if w > target - n {
            break;
        }
        n = n + w;
        k = k + 1;
    }
    proof {
        if byte_boundary(v@, target as nat) {
            let j = choose|j: int| 0 <= j <= v@.len() && utf8_len(#[trigger] v@.take(j)) == target;
            if j < k {
                lemma_utf8_len_take_increasing(v@, j, k as int);
            } else if j > k {
                if j > k + 1 {
                    lemma_utf8_len_take_increasing(v@, k + 1, j);
                }
            }
            assert(j == k);
            let c = char_index(v@, target as nat);
            if c < k {
                lemma_utf8_len_take_increasing(v@, c, k as int);
            } else if c > k {
                lemma_utf8_len_take_increasing(v@, k as int, c);
            }
        }
    }
    (k, n)
}

/// The character sequences of a list of character vectors.
pub open spec fn vecs_view(v: Seq<Vec<char>>) -> Seq<Seq<char>> {
    Seq::new(v.len(), |i: int| v[i]@)
}

/// The items of `list` with `sep` between each two neighbours.
pub open spec fn seq_join(list: Seq<Seq<char>>, sep: Seq<char>) -> Seq<char>
    decreases list.len(),
{
    if list.len() == 0 {
        seq![]
    } else if list.len() == 1 {
        list[0]
    } else {
        seq_join(list.drop_last(), sep) + sep + list.last()
    }
}

/// The first `n` items of `list` joined by `sep`.
pub fn join_chars(list: &Vec<Vec<char>>, n: usize, sep: &Vec<char>) -> (r: Vec<char>)
    requires
        n <= list.len(),
    ensures
        r@ == seq_join(vecs_view(list@).take(n as int), sep@),
{
    let ghost lv = vecs_view(list@);
    let mut r: Vec<char> = Vec::new();
    let mut i: usize = 0;
    while i < n
        invariant
            i <= n <= list.len(),
            lv == vecs_view(list@),
            r@ == seq_join(lv.take(i as int), sep@),
        decreases n - i,
    {
        if i > 0 {
            extend_vec(&mut r, sep);
        }
        extend_vec(&mut r, &list[i]);
        assert(lv.take(i + 1).drop_last() =~= lv.take(i as int));
        i = i + 1;
    }
    r
}

/// Different numbers have different decimal representations.
pub proof fn lemma_decimal_injective(n: nat, m: nat)
    requires
        decimal(n) == decimal(m),
    ensures
        n == m,
    decreases n,
{
    if n < 10 && m < 10 {
        assert(decimal(n)[0] == digit_char(n));
        assert(decimal(m)[0] == digit_char(m));
    } else if n < 10 {
        lemma_decimal_len_pos(m / 10);
        assert(decimal(m).len() >= 2);
    } else if m < 10 {
        lemma_decimal_len_pos(n / 10);
        assert(decimal(n).len() >= 2);
    } else {
        let dn = decimal(n);
        let dm = decimal(m);
        assert(dn.last() == digit_char(n % 10));
        assert(dm.last() == digit_char(m % 10));
        assert(n % 10 == m % 10);
        assert(dn.drop_last() =~= decimal(n / 10));
        assert(dm.drop_last() =~= decimal(m / 10));
        lemma_decimal_injective(n / 10, m / 10);
    }
}

} // verus!
