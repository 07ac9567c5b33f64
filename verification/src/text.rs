//! Text primitives shared by the codec and the command parser: decimal
//! numerals, comparison of strings, and scanning for white space.

use vstd::prelude::*;
use vstd::string::*;

verus! {

/// Whether `c` has the Unicode property `White_Space`.
pub open spec fn is_space(c: char) -> bool {
    let u = c as u32;
    ||| 0x09 <= u <= 0x0D
    ||| u == 0x20
    ||| u == 0x85
    ||| u == 0xA0
    ||| u == 0x1680
    ||| 0x2000 <= u <= 0x200A
    ||| u == 0x2028
    ||| u == 0x2029
    ||| u == 0x202F
    ||| u == 0x205F
    ||| u == 0x3000
}

/// Whether `c` is white space.
pub fn is_whitespace(c: char) -> (r: bool)
    ensures
        r == is_space(c),
{
    let u: u32 = c as u32;
    (0x09 <= u && u <= 0x0D) || u == 0x20 || u == 0x85 || u == 0xA0 || u == 0x1680 || (0x2000 <= u
        && u <= 0x200A) || u == 0x2028 || u == 0x2029 || u == 0x202F || u == 0x205F || u == 0x3000
}

/// The length of the longest prefix of `s` whose characters all satisfy `p`.
pub open spec fn prefix_len(s: Seq<char>, p: spec_fn(char) -> bool) -> nat
    decreases s.len(),
{
    if s.len() > 0 && p(s.first()) {
        1 + prefix_len(s.drop_first(), p)
    } else {
        0
    }
}

/// The length of the longest suffix of `s` whose characters all satisfy `p`.
pub open spec fn suffix_len(s: Seq<char>, p: spec_fn(char) -> bool) -> nat
    decreases s.len(),
{
    if s.len() > 0 && p(s.last()) {
        1 + suffix_len(s.drop_last(), p)
    } else {
        0
    }
}

/// `prefix_len` is the one index that ends a run of `p` at the front of `s`.
pub proof fn lemma_prefix_len(s: Seq<char>, p: spec_fn(char) -> bool, k: int)
    requires
        0 <= k <= s.len(),
        forall|i: int| 0 <= i < k ==> p(#[trigger] s[i]),
        k < s.len() ==> !p(s[k]),
    ensures
        prefix_len(s, p) == k,
    decreases s.len(),
{
    if k > 0 {
        let t = s.drop_first();
        assert forall|i: int| 0 <= i < k - 1 implies p(#[trigger] t[i]) by {
            assert(t[i] == s[i + 1]);
        }
        assert(p(s[0]));
        lemma_prefix_len(t, p, k - 1);
    }
}

/// `suffix_len` is the one length that ends a run of `p` at the back of `s`.
pub proof fn lemma_suffix_len(s: Seq<char>, p: spec_fn(char) -> bool, k: int)
    requires
        0 <= k <= s.len(),
        forall|i: int| s.len() - k <= i < s.len() ==> p(#[trigger] s[i]),
        k < s.len() ==> !p(s[s.len() - k - 1]),
    ensures
        suffix_len(s, p) == k,
    decreases s.len(),
{
    if k > 0 {
        let t = s.drop_last();
        assert forall|i: int| t.len() - (k - 1) <= i < t.len() implies p(#[trigger] t[i]) by {
            assert(t[i] == s[i]);
        }
        assert(p(s[s.len() - 1]));
        lemma_suffix_len(t, p, k - 1);
    }
}

/// What the prefix that `prefix_len` measures looks like.
pub proof fn lemma_prefix_len_run(s: Seq<char>, p: spec_fn(char) -> bool)
    ensures
        prefix_len(s, p) <= s.len(),
        forall|i: int| 0 <= i < prefix_len(s, p) ==> p(#[trigger] s[i]),
        prefix_len(s, p) < s.len() ==> !p(s[prefix_len(s, p) as int]),
    decreases s.len(),
{
    if s.len() > 0 && p(s.first()) {
        let t = s.drop_first();
        lemma_prefix_len_run(t, p);
        assert forall|i: int| 0 <= i < prefix_len(s, p) implies p(#[trigger] s[i]) by {
            if i > 0 {
                assert(s[i] == t[i - 1]);
            }
        }
        if prefix_len(s, p) < s.len() {
            assert(s[prefix_len(s, p) as int] == t[prefix_len(t, p) as int]);
        }
    }
}

/// `s` without the white space at its two ends.
pub open spec fn trimmed(s: Seq<char>) -> Seq<char> {
    let t = s.skip(prefix_len(s, |c: char| is_space(c)) as int);
    t.take(t.len() - suffix_len(t, |c: char| is_space(c)))
}

/// The position of the first white space in `s`, or its length where it has none.
pub open spec fn first_space(s: Seq<char>) -> nat {
    prefix_len(s, |c: char| !is_space(c))
}

/// Whether a character is another than `c`.
pub open spec fn other_than_char(c: char) -> spec_fn(char) -> bool {
    |x: char| x != c
}

/// The position of the first `c` in `s`, or its length where it has none.
pub open spec fn first_of(s: Seq<char>, c: char) -> nat {
    prefix_len(s, other_than_char(c))
}

/// The position of the first line feed in `s`, or its length where it has none.
pub open spec fn first_newline(s: Seq<char>) -> nat {
    first_of(s, '\n')
}

/// The characters of `s`, one by one.
pub fn chars_of(s: &str) -> (r: Vec<char>)
    ensures
        r@ == s@,
{
    let mut r: Vec<char> = Vec::new();
    for c in it: s.chars()
        invariant
            it.seq() == s@,
            r@ == s@.take(it.index() as int),
    {
        assert(s@.take(it.index() as int).push(c) =~= s@.take(it.index() + 1));
        r.push(c);
    }
    assert(s@.take(s@.len() as int) =~= s@);
    r
}

/// The bounds of `trimmed(chars@)` within `chars`.
pub fn trim_bounds(chars: &Vec<char>) -> (r: (usize, usize))
    ensures
        r.0 <= r.1 <= chars.len(),
        chars@.subrange(r.0 as int, r.1 as int) == trimmed(chars@),
{
    let n = chars.len();
    let ghost sp = |c: char| is_space(c);
    let mut a: usize = 0;
    while a < n && is_whitespace(chars[a])
        invariant
            n == chars.len(),
            a <= n,
            forall|i: int| 0 <= i < a ==> is_space(#[trigger] chars@[i]),
        decreases n - a,
    {
        a += 1;
    }
    let ghost t = chars@.skip(a as int);
    let mut b: usize = n;
    while b > a && is_whitespace(chars[b - 1])
        invariant
            n == chars.len(),
            a <= b <= n,
            forall|i: int| b <= i < n ==> is_space(#[trigger] chars@[i]),
        decreases b,
    {
        b -= 1;
    }
    proof {
        assert forall|i: int| 0 <= i < a implies sp(#[trigger] chars@[i]) by {}
        lemma_prefix_len(chars@, sp, a as int);
        assert forall|i: int| t.len() - (n - b) <= i < t.len() implies sp(#[trigger] t[i]) by {
            assert(t[i] == chars@[i + a]);
        }
        if n - b < t.len() {
            assert(t[t.len() - (n - b) - 1] == chars@[b - 1]);
        }
        lemma_suffix_len(t, sp, n - b);
        assert(chars@.subrange(a as int, b as int) =~= t.take(t.len() - (n - b)));
    }
    (a, b)
}

/// Where the first white space stands in `chars` from `from` on, or `to`.
pub fn find_space(chars: &Vec<char>, from: usize, to: usize) -> (r: usize)
    requires
        from <= to <= chars.len(),
    ensures
        r == from + first_space(chars@.subrange(from as int, to as int)),
        from <= r <= to,
{
    let ghost s = chars@.subrange(from as int, to as int);
    let mut i: usize = from;
    while i < to && !is_whitespace(chars[i])
        invariant
            from <= i <= to <= chars.len(),
            s == chars@.subrange(from as int, to as int),
            forall|j: int| 0 <= j < i - from ==> !is_space(#[trigger] s[j]),
        decreases to - i,
    {
        assert(s[i - from] == chars@[i as int]);
        i += 1;
    }
    proof {
        let p = |c: char| !is_space(c);
        if i < to {
            assert(s[i - from] == chars@[i as int]);
        }
        assert forall|j: int| 0 <= j < i - from implies p(#[trigger] s[j]) by {}
        lemma_prefix_len(s, p, i - from);
    }
    i
}

/// Where the first `c` stands in `chars` from `from` on, or `to`.
pub fn find_char(chars: &Vec<char>, from: usize, to: usize, c: char) -> (r: usize)
    requires
        from <= to <= chars.len(),
    ensures
        r == from + first_of(chars@.subrange(from as int, to as int), c),
        from <= r <= to,
{
    let ghost s = chars@.subrange(from as int, to as int);
    let mut i: usize = from;
    while i < to && chars[i] != c
        invariant
            from <= i <= to <= chars.len(),
            s == chars@.subrange(from as int, to as int),
            forall|j: int| 0 <= j < i - from ==> #[trigger] s[j] != c,
        decreases to - i,
    {
        assert(s[i - from] == chars@[i as int]);
        i += 1;
    }
    proof {
        let p = other_than_char(c);
        if i < to {
            assert(s[i - from] == chars@[i as int]);
        }
        assert forall|j: int| 0 <= j < i - from implies p(#[trigger] s[j]) by {}
        lemma_prefix_len(s, p, i - from);
    }
    i
}

/// Where the first line feed stands in `chars` from `from` on, or `to`.
pub fn find_newline(chars: &Vec<char>, from: usize, to: usize) -> (r: usize)
    requires
        from <= to <= chars.len(),
    ensures
        r == from + first_newline(chars@.subrange(from as int, to as int)),
        from <= r <= to,
{
    find_char(chars, from, to, '\n')
}

/// Whether two strings hold the same characters.
pub fn same_text(a: &str, b: &str) -> (r: bool)
    ensures
        r == (a@ == b@),
{
    let x = a.as_bytes();
    let y = b.as_bytes();
    proof {
        vstd::utf8::encode_utf8_decode_utf8(a@);
        vstd::utf8::encode_utf8_decode_utf8(b@);
    }
    if x.len() != y.len() {
        return false;
    }
    let n = x.len();
    let mut i: usize = 0;
    while i < n
        invariant
            n == x@.len(),
            n == y@.len(),
            x@ == a.spec_bytes(),
            y@ == b.spec_bytes(),
            i <= n,
            forall|j: int| 0 <= j < i ==> x@[j] == y@[j],
        decreases n - i,
    {
        if x[i] != y[i] {
            return false;
        }
        i += 1;
    }
    assert(x@ =~= y@);
    true
}

/// The character that stands for the digit `d`.
pub open spec fn digit(d: nat) -> char
    recommends
        d < 10,
{
    if d == 0 {
        '0'
    } else if d == 1 {
        '1'
    } else if d == 2 {
        '2'
    } else if d == 3 {
        '3'
    } else if d == 4 {
        '4'
    } else if d == 5 {
        '5'
    } else if d == 6 {
        '6'
    } else if d == 7 {
        '7'
    } else if d == 8 {
        '8'
    } else {
        '9'
    }
}

/// The decimal numeral of `n`, without leading zeros.
pub open spec fn decimal(n: nat) -> Seq<char>
    decreases n,
{
    if n < 10 {
        seq![digit(n)]
    } else {
        decimal(n / 10).push(digit(n % 10))
    }
}

/// The decimal numeral of `i`, with a minus sign where it is negative.
pub open spec fn signed_decimal(i: int) -> Seq<char> {
    if i < 0 {
        seq!['-'] + decimal((-i) as nat)
    } else {
        decimal(i as nat)
    }
}

fn digit_text(d: u64) -> (r: &'static str)
    requires
        d < 10,
    ensures
        r@ == seq![digit(d as nat)],
{
    let r = if d == 0 {
        "0"
    } else if d == 1 {
        "1"
    } else if d == 2 {
        "2"
    } else if d == 3 {
        "3"
    } else if d == 4 {
        "4"
    } else if d == 5 {
        "5"
    } else if d == 6 {
        "6"
    } else if d == 7 {
        "7"
    } else if d == 8 {
        "8"
    } else {
        "9"
    };
    proof {
        reveal_strlit("0");
        reveal_strlit("1");
        reveal_strlit("2");
        reveal_strlit("3");
        reveal_strlit("4");
        reveal_strlit("5");
        reveal_strlit("6");
        reveal_strlit("7");
        reveal_strlit("8");
        reveal_strlit("9");
        assert(r@ =~= seq![digit(d as nat)]);
    }
    r
}

/// Writes `n` in decimal.
pub fn decimal_u64(n: u64) -> (r: String)
    ensures
        r@ == decimal(n as nat),
    decreases n,
{
    if n < 10 {
        String::from_str(digit_text(n))
    } else {
        let mut r = decimal_u64(n / 10);
        r.append(digit_text(n % 10));
        assert(r@ =~= decimal((n / 10) as nat).push(digit((n % 10) as nat)));
        r
    }
}

/// Writes a session id, or any other `usize`, in decimal.
pub fn decimal_usize(n: usize) -> (r: String)
    ensures
        r@ == decimal(n as nat),
{
    decimal_u64(n as u64)
}

/// Writes `n` in decimal, with a minus sign where it is negative.
pub fn decimal_i32(n: i32) -> (r: String)
    ensures
        r@ == signed_decimal(n as int),
{
    if n < 0 {
        let m: u64 = (0 - (n as i64)) as u64;
        let mut r = String::from_str("-");
        let digits = decimal_u64(m);
        r.append(digits.as_str());
        proof {
            reveal_strlit("-");
            assert(r@ =~= seq!['-'] + decimal((-(n as int)) as nat));
        }
        r
    } else {
        decimal_u64(n as u64)
    }
}

/// Whether `c` is a decimal digit.
pub open spec fn is_digit(c: char) -> bool {
    48 <= c as u32 <= 57
}

/// The number that the digit `c` stands for.
pub open spec fn digit_value(c: char) -> nat
    recommends
        is_digit(c),
{
    (c as u32 - 48) as nat
}

/// Whether `s` is the decimal numeral of a number: digits, at least one, and
/// no zero in front of another digit.
pub open spec fn is_numeral(s: Seq<char>) -> bool {
    &&& s.len() > 0
    &&& forall|i: int| 0 <= i < s.len() ==> is_digit(#[trigger] s[i])
    &&& s.len() > 1 ==> s[0] != '0'
}

/// The number that the digits `s` write.
pub open spec fn numeral_value(s: Seq<char>) -> nat
    decreases s.len(),
{
    if s.len() == 0 {
        0
    } else {
        10 * numeral_value(s.drop_last()) + digit_value(s.last())
    }
}

/// A digit is the character of the number that it stands for, and stands
/// for zero only where it is `0`.
pub proof fn lemma_digit_of_value(c: char)
    requires
        is_digit(c),
    ensures
        digit(digit_value(c)) == c,
        c == '0' <==> digit_value(c) == 0,
{
    let d = digit(digit_value(c));
    assert(d as u32 == c as u32);
    assert((d as u32) as char == d);
    assert((c as u32) as char == c);
}

/// The digits of a beginning of `s` write no more than those of `s`.
pub proof fn lemma_numeral_value_grows(s: Seq<char>, k: int)
    requires
        0 <= k <= s.len(),
    ensures
        numeral_value(s.take(k)) <= numeral_value(s),
    decreases s.len() - k,
{
    if k < s.len() {
        lemma_numeral_value_grows(s, k + 1);
        assert(s.take(k + 1).drop_last() =~= s.take(k));
    } else {
        assert(s.take(k) =~= s);
    }
}

/// Digits that do not begin with a zero write a number that is not zero.
pub proof fn lemma_numeral_value_positive(s: Seq<char>)
    requires
        s.len() > 0,
        is_digit(s[0]),
        s[0] != '0',
    ensures
        numeral_value(s) >= 1,
    decreases s.len(),
{
    if s.len() == 1 {
        assert(s.drop_last().len() == 0);
        assert(numeral_value(s.drop_last()) == 0);
        lemma_digit_of_value(s[0]);
    } else {
        assert(s.drop_last()[0] == s[0]);
        lemma_numeral_value_positive(s.drop_last());
    }
}

/// The decimal numeral of `n` is a numeral, and writes `n`.
pub proof fn lemma_decimal_is_numeral(n: nat)
    ensures
        is_numeral(decimal(n)),
        numeral_value(decimal(n)) == n,
    decreases n,
{
    let s = decimal(n);
    if n < 10 {
        assert(s.drop_last() =~= Seq::<char>::empty());
        assert(numeral_value(s.drop_last()) == 0);
    } else {
        let init = decimal(n / 10);
        lemma_decimal_is_numeral(n / 10);
        assert(s.drop_last() =~= init);
        assert(s[0] == init[0]);
        assert forall|i: int| 0 <= i < s.len() implies is_digit(#[trigger] s[i]) by {
            if i < init.len() {
                assert(s[i] == init[i]);
            }
        }
        if init.len() == 1 {
            assert(init.drop_last() =~= Seq::<char>::empty());
            assert(numeral_value(init.drop_last()) == 0);
        }
    }
}

/// A numeral is the decimal numeral of the number that it writes.
pub proof fn lemma_numeral_is_decimal(s: Seq<char>)
    requires
        is_numeral(s),
    ensures
        decimal(numeral_value(s)) == s,
    decreases s.len(),
{
    let init = s.drop_last();
    let d = digit_value(s.last());
    assert(is_digit(s[s.len() - 1]));
    lemma_digit_of_value(s.last());
    if s.len() == 1 {
        assert(init.len() == 0);
        assert(numeral_value(init) == 0);
        assert(decimal(d) =~= s);
    } else {
        assert(init[0] == s[0]);
        assert(is_digit(s[0]));
        assert forall|i: int| 0 <= i < init.len() implies is_digit(#[trigger] init[i]) by {
            assert(init[i] == s[i]);
        }
        lemma_numeral_value_positive(init);
        lemma_numeral_is_decimal(init);
        let v = numeral_value(s);
        assert(v == 10 * numeral_value(init) + d);
        assert(v / 10 == numeral_value(init) && v % 10 == d);
        assert(init.push(s.last()) =~= s);
    }
}

/// Two numbers with one decimal numeral are one number.
pub proof fn lemma_decimal_injective(a: nat, b: nat)
    requires
        decimal(a) == decimal(b),
    ensures
        a == b,
{
    lemma_decimal_is_numeral(a);
    lemma_decimal_is_numeral(b);
}

/// Two numbers with one signed decimal numeral are one number.
pub proof fn lemma_signed_decimal_injective(a: int, b: int)
    requires
        signed_decimal(a) == signed_decimal(b),
    ensures
        a == b,
{
    let sa = signed_decimal(a);
    let sb = signed_decimal(b);
    lemma_decimal_is_numeral(if a < 0 { (-a) as nat } else { a as nat });
    lemma_decimal_is_numeral(if b < 0 { (-b) as nat } else { b as nat });
    if a < 0 {
        assert(sa[0] == '-');
        if b >= 0 {
            assert(is_digit(sb[0]));
        } else {
            assert(sa.skip(1) =~= decimal((-a) as nat));
            assert(sb.skip(1) =~= decimal((-b) as nat));
            lemma_decimal_injective((-a) as nat, (-b) as nat);
        }
    } else {
        assert(is_digit(sa[0]));
        if b < 0 {
            assert(sb[0] == '-');
        } else {
            lemma_decimal_injective(a as nat, b as nat);
        }
    }
}

/// Reads the decimal numeral that stands in `chars` from `from` to `to`, if
/// it is one and the number fits.
pub fn parse_decimal(chars: &Vec<char>, from: usize, to: usize) -> (r: Option<u64>)
    requires
        from <= to <= chars.len(),
    ensures
        match r {
            Some(n) => chars@.subrange(from as int, to as int) == decimal(n as nat),
            None => forall|n: u64| chars@.subrange(from as int, to as int) != decimal(n as nat),
        },
{
    let ghost s = chars@.subrange(from as int, to as int);
    assert forall|n: u64| s == decimal(n as nat) implies is_numeral(s) && numeral_value(s) == n by {
        lemma_decimal_is_numeral(n as nat);
    }
    if from == to {
        return None;
    }
    assert(s[0] == chars@[from as int]);
    if to - from > 1 && chars[from] == '0' {
        return None;
    }
    let mut acc: u64 = 0;
    let mut i: usize = from;
    assert(s.take(0) =~= Seq::<char>::empty());
    while i < to
        invariant
            from <= i <= to <= chars.len(),
            s == chars@.subrange(from as int, to as int),
            forall|j: int| 0 <= j < i - from ==> is_digit(#[trigger] s[j]),
            acc == numeral_value(s.take(i - from)),
            forall|n: u64| s == decimal(n as nat) ==> is_numeral(s) && numeral_value(s) == n,
        decreases to - i,
    {
        let u: u32 = chars[i] as u32;
        assert(s[i - from] == chars@[i as int]);
        if u < 48 || u > 57 {
            return None;
        }
        let d: u64 = (u - 48) as u64;
        proof {
            assert(s.take(i - from + 1).drop_last() =~= s.take(i - from));
            assert(s.take(i - from + 1).last() == s[i - from]);
            lemma_numeral_value_grows(s, i - from + 1);
        }
        if acc > (u64::MAX - d) / 10 {
            return None;
        }
        acc = acc * 10 + d;
        i += 1;
    }
    proof {
        assert(s.take(to - from) =~= s);
        assert(is_numeral(s));
        lemma_numeral_is_decimal(s);
    }
    Some(acc)
}

/// Reads the signed decimal numeral that stands in `chars` from `from` to
/// `to`, if it is one and the number fits.
pub fn parse_i32(chars: &Vec<char>, from: usize, to: usize) -> (r: Option<i32>)
    requires
        from <= to <= chars.len(),
    ensures
        match r {
            Some(n) => chars@.subrange(from as int, to as int) == signed_decimal(n as int),
            None => forall|n: i32|
                chars@.subrange(from as int, to as int) != signed_decimal(n as int),
        },
{
    let ghost s = chars@.subrange(from as int, to as int);
    assert forall|n: i32| s == signed_decimal(n as int) implies if n < 0 {
        s[0] == '-' && s.skip(1) == decimal((-n) as nat)
    } else {
        s.len() > 0 && is_digit(s[0]) && s == decimal(n as nat)
    } by {
        if n < 0 {
            assert(s.skip(1) =~= decimal((-n) as nat));
        } else {
            lemma_decimal_is_numeral(n as nat);
        }
    }
    if from < to && chars[from] == '-' {
        assert(s[0] == chars@[from as int]);
        assert(s.skip(1) =~= chars@.subrange(from + 1, to as int));
        match parse_decimal(chars, from + 1, to) {
            Some(m) => {
                if m == 0 || m > 2147483648 {
                    proof {
                        assert forall|n: i32| s != signed_decimal(n as int) by {
                            if s == signed_decimal(n as int) {
                                lemma_decimal_injective(m as nat, (-n) as nat);
                            }
                        }
                    }
                    None
                } else {
                    let n: i32 = (0 - (m as i64)) as i32;
                    assert(s =~= signed_decimal(n as int));
                    Some(n)
                }
            },
            None => {
                proof {
                    assert forall|n: i32| s != signed_decimal(n as int) by {
                        if s == signed_decimal(n as int) {
                            assert(s.skip(1) == decimal(((-n) as u64) as nat));
                        }
                    }
                }
                None
            },
        }
    } else {
        if from < to {
            assert(s[0] == chars@[from as int]);
        }
        match parse_decimal(chars, from, to) {
            Some(m) => {
                if m > 2147483647 {
                    proof {
                        assert forall|n: i32| s != signed_decimal(n as int) by {
                            if s == signed_decimal(n as int) {
                                lemma_decimal_injective(m as nat, n as nat);
                            }
                        }
                    }
                    None
                } else {
                    Some(m as i32)
                }
            },
            None => {
                proof {
                    assert forall|n: i32| s != signed_decimal(n as int) by {
                        if s == signed_decimal(n as int) {
                            assert(s == decimal((n as u64) as nat));
                        }
                    }
                }
                None
            },
        }
    }
}

} // verus!
