use vstd::prelude::*;
use vstd::string::StrSliceExecFns;
use vstd::string::StringExecFns;

verus! {

/// Whether `c` is an ASCII decimal digit.
pub open spec fn is_digit(c: char) -> bool {
    '0' <= c && c <= '9'
}

/// The value of a decimal digit character.
pub open spec fn digit_value(c: char) -> nat {
    ((c as int) - ('0' as int)) as nat
}

/// The character of a decimal digit.
pub open spec fn digit_char(d: nat) -> char {
    if d == 0 {
        '0'
    } else if d == 1 {
        '1'
    } else if d == 2 {
        '2'
    } else if d == 3 {
        '3'
    } else if d == 4 {
        '4'
    } else if d == 5 {
        '5'
    } else if d == 6 {
        '6'
    } else if d == 7 {
        '7'
    } else if d == 8 {
        '8'
    } else {
        '9'
    }
}

/// Whether every character of `s` is a decimal digit.
pub open spec fn all_digits(s: Seq<char>) -> bool {
    forall|i: int| 0 <= i < s.len() ==> is_digit(#[trigger] s[i])
}

/// The number that a string of decimal digits denotes.
pub open spec fn digits_value(s: Seq<char>) -> nat
    decreases s.len(),
{
    if s.len() == 0 {
        0
    } else {
        digits_value(s.drop_last()) * 10 + digit_value(s.last())
    }
}

/// The digits that the standard integer parser reads: the text after an optional leading `+`.
pub open spec fn unsigned_body(s: Seq<char>) -> Seq<char> {
    if s.len() > 0 && s[0] == '+' {
        s.drop_first()
    } else {
        s
    }
}

/// What parsing `s` as an unsigned integer no larger than `max` gives: an optional `+`, then
/// at least one decimal digit and nothing else, with a value no larger than `max`.
pub open spec fn parse_unsigned(s: Seq<char>, max: nat) -> Option<nat> {
    let body = unsigned_body(s);
    if body.len() > 0 && all_digits(body) && digits_value(body) <= max {
        Some(digits_value(body))
    } else {
        None
    }
}

/// The decimal text of `n`, without leading zeros.
pub open spec fn decimal(n: nat) -> Seq<char>
    decreases n,
{
    if n < 10 {
        seq![digit_char(n)]
    } else {
        decimal(n / 10) + seq![digit_char(n % 10)]
    }
}

/// The lowercase hexadecimal digit of a nibble.
pub open spec fn hex_char(d: nat) -> char {
    if d < 10 {
        digit_char(d)
    } else if d == 10 {
        'a'
    } else if d == 11 {
        'b'
    } else if d == 12 {
        'c'
    } else if d == 13 {
        'd'
    } else if d == 14 {
        'e'
    } else {
        'f'
    }
}

/// The sixteen lowercase hexadecimal digits of `x`, most significant first, zero padded.
pub open spec fn hex16(x: u64) -> Seq<char> {
    Seq::new(16, |i: int| hex_char(((x >> ((4 * (15 - i)) as u64)) & 0xf) as nat))
}

proof fn lemma_digits_value_prefix(s: Seq<char>, i: int)
    requires
        0 <= i <= s.len(),
    ensures
        digits_value(s.take(i)) <= digits_value(s),
    decreases s.len(),
{
    if i < s.len() {
        assert(s.drop_last().take(i) =~= s.take(i));
        lemma_digits_value_prefix(s.drop_last(), i);
    } else {
        assert(s.take(i) =~= s);
    }
}

proof fn lemma_digits_value_push(s: Seq<char>, i: int)
    requires
        0 <= i < s.len(),
    ensures
        digits_value(s.take(i + 1)) == digits_value(s.take(i)) * 10 + digit_value(s[i]),
{
    assert(s.take(i + 1).drop_last() =~= s.take(i));
}

/// The text of a single decimal digit.
fn digit_text(d: u64) -> (r: &'static str)
    requires
        d < 10,
    ensures
        r@ == seq![digit_char(d as nat)],
{
    proof {
        reveal_strlit("0");
        reveal_strlit("1");
        reveal_strlit("2");
        reveal_strlit("3");
        reveal_strlit("4");
        reveal_strlit("5");
        reveal_strlit("6");
        reveal_strlit("7");
        reveal_strlit("8");
        reveal_strlit("9");
    }
    if d == 0 {
        "0"
    } else if d == 1 {
        "1"
    } else if d == 2 {
        "2"
    } else if d == 3 {
        "3"
    } else if d == 4 {
        "4"
    } else if d == 5 {
        "5"
    } else if d == 6 {
        "6"
    } else if d == 7 {
        "7"
    } else if d == 8 {
        "8"
    } else {
        "9"
    }
}

/// The text of a single lowercase hexadecimal digit.
fn hex_text(d: u64) -> (r: &'static str)
    requires
        d < 16,
    ensures
        r@ == seq![hex_char(d as nat)],
{
    if d < 10 {
        digit_text(d)
    } else {
        proof {
            reveal_strlit("a");
            reveal_strlit("b");
            reveal_strlit("c");
            reveal_strlit("d");
            reveal_strlit("e");
            reveal_strlit("f");
        }
        if d == 10 {
            "a"
        } else if d == 11 {
            "b"
        } else if d == 12 {
            "c"
        } else if d == 13 {
            "d"
        } else if d == 14 {
            "e"
        } else {
            "f"
        }
    }
}

/// Appends the decimal text of `n` to `out`.
pub fn push_decimal(out: &mut String, n: u64)
    ensures
        final(out)@ == old(out)@ + decimal(n as nat),
{
    // Digits of `n`, least significant first.
    let mut digits: Vec<u64> = Vec::new();
    let mut m: u64 = n;
    while m >= 10
        invariant
            1 <= m || n == 0,
            m <= n,
            forall|k: int| 0 <= k < digits@.len() ==> #[trigger] digits@[k] < 10,
            decimal(n as nat) == decimal(m as nat) + Seq::new(
                digits@.len(),
                |k: int| digit_char(digits@[digits@.len() - 1 - k] as nat),
            ),
        decreases m,
    {
        let ghost old_tail = Seq::new(
            digits@.len(),
            |k: int| digit_char(digits@[digits@.len() - 1 - k] as nat),
        );
        digits.push(m % 10);
        let ghost new_tail = Seq::new(
            digits@.len(),
            |k: int| digit_char(digits@[digits@.len() - 1 - k] as nat),
        );
        assert(new_tail =~= seq![digit_char((m % 10) as nat)] + old_tail);
        assert(decimal(m as nat) == decimal((m / 10) as nat) + seq![digit_char((m % 10) as nat)]);
        m = m / 10;
    }
    let ghost base = out@;
    out.append(digit_text(m));
    let mut j: usize = digits.len();
    while j > 0
        invariant
            j <= digits@.len(),
            forall|k: int| 0 <= k < digits@.len() ==> #[trigger] digits@[k] < 10,
            m < 10,
            decimal(n as nat) == seq![digit_char(m as nat)] + Seq::new(
                digits@.len(),
                |k: int| digit_char(digits@[digits@.len() - 1 - k] as nat),
            ),
            out@ == base + seq![digit_char(m as nat)] + Seq::new(
                (digits@.len() - j) as nat,
                |k: int| digit_char(digits@[digits@.len() - 1 - k] as nat),
            ),
        decreases j,
    {
        let ghost before = out@;
        j = j - 1;
        out.append(digit_text(digits[j]));
        assert(out@ =~= base + seq![digit_char(m as nat)] + Seq::new(
            (digits@.len() - j) as nat,
            |k: int| digit_char(digits@[digits@.len() - 1 - k] as nat),
        ));
    }
    assert(Seq::new(
        (digits@.len() - j) as nat,
        |k: int| digit_char(digits@[digits@.len() - 1 - k] as nat),
    ) =~= Seq::new(
        digits@.len(),
        |k: int| digit_char(digits@[digits@.len() - 1 - k] as nat),
    ));
    assert(out@ =~= base + decimal(n as nat));
}

/// Appends the sixteen lowercase hexadecimal digits of `x` to `out`.
pub fn push_hex16(out: &mut String, x: u64)
    ensures
        final(out)@ == old(out)@ + hex16(x),
{
    let ghost base = out@;
    let mut i: u64 = 0;
    while i < 16
        invariant
            i <= 16,
            out@ == base + hex16(x).take(i as int),
        decreases 16 - i,
    {
        let shift: u64 = 4 * (15 - i);
        let nibble = (x >> shift) & 0xf;
        assert(nibble < 16) by (bit_vector)
            requires
                nibble == (x >> shift) & 0xf,
        ;
        out.append(hex_text(nibble));
        assert(hex16(x).take(i + 1) =~= hex16(x).take(i as int) + seq![hex16(x)[i as int]]);
        i = i + 1;
    }
    assert(hex16(x).take(16) =~= hex16(x));
}

/// Parses `s` as the standard library parses an unsigned integer, rejecting values above `max`.
pub fn parse_decimal(s: &str, max: u64) -> (r: Option<u64>)
    ensures
        r matches Some(v) ==> parse_unsigned(s@, max as nat) == Some(v as nat),
        r is None ==> parse_unsigned(s@, max as nat) is None,
{
    let len = s.unicode_len();
    let mut start: usize = 0;
    if len > 0 && s.get_char(0) == '+' {
        start = 1;
    }
    let ghost body = unsigned_body(s@);
    assert(body =~= s@.skip(start as int));
    if start == len {
        return None;
    }
    let mut value: u64 = 0;
    let mut i: usize = start;
    while i < len
        invariant
            start <= i <= len,
            len == s@.len(),
            start < len,
            body == s@.skip(start as int),
            body == unsigned_body(s@),
            all_digits(body.take(i - start)),
            value as nat == digits_value(body.take(i - start)),
            value <= max,
        decreases len - i,
    {
        let c = s.get_char(i);
        let ghost k = i - start;
        assert(body[k] == c);
        if !('0' <= c && c <= '9') {
            assert(!is_digit(body[k]));
            assert(!all_digits(body));
            return None;
        }
        proof {
            lemma_digits_value_push(body, k);
        }
        let d = (c as u32 - '0' as u32) as u64;
        let next = value.checked_mul(10);
        match next {
            None => {
                proof {
                    lemma_digits_value_prefix(body, k + 1);
                    assert(digits_value(body.take(k + 1)) == value * 10 + digit_value(c));
                    assert(value * 10 > u64::MAX);
                    assert(digits_value(body) > max);
                }
                return None;
            },
            Some(t) => {
                let sum = t.checked_add(d);
                match sum {
                    None => {
                        proof {
                            lemma_digits_value_prefix(body, k + 1);
                        }
                        return None;
                    },
                    Some(v) => {
                        if v > max {
                            proof {
                                lemma_digits_value_prefix(body, k + 1);
                            }
                            return None;
                        }
                        value = v;
                    },
                }
            },
        }
        assert(all_digits(body.take(k + 1))) by {
            assert forall|j: int| 0 <= j < body.take(k + 1).len() implies is_digit(
                #[trigger] body.take(k + 1)[j],
            ) by {
                if j < k {
                    assert(body.take(k + 1)[j] == body.take(k)[j]);
                }
            }
        }
        i = i + 1;
    }
    assert(body.take(i - start) =~= body);
    Some(value)
}

proof fn lemma_digit_char(d: nat)
    requires
        d < 10,
    ensures
        is_digit(digit_char(d)),
        digit_value(digit_char(d)) == d,
        digit_char(d) != '+',
{
}

/// The decimal text of a number is a non-empty run of digits without a sign, and it denotes
/// the number.
pub proof fn lemma_decimal(n: nat)
    ensures
        decimal(n).len() >= 1,
        all_digits(decimal(n)),
        decimal(n)[0] != '+',
        digits_value(decimal(n)) == n,
    decreases n,
{
    if n < 10 {
        lemma_digit_char(n);
        assert(decimal(n).drop_last() =~= Seq::<char>::empty());
        assert(digits_value(Seq::<char>::empty()) == 0);
        assert(decimal(n).last() == digit_char(n));
        assert(digits_value(decimal(n)) == digits_value(decimal(n).drop_last()) * 10 + digit_value(
            decimal(n).last(),
        ));
    } else {
        lemma_decimal(n / 10);
        lemma_digit_char(n % 10);
        let s = decimal(n / 10);
        let t = s + seq![digit_char(n % 10)];
        assert(decimal(n) == t);
        assert(t.drop_last() =~= s);
        assert(t.last() == digit_char(n % 10));
        assert(digits_value(t) == digits_value(s) * 10 + digit_value(digit_char(n % 10)));
        assert(n == (n / 10) * 10 + n % 10);
        assert(t[0] == s[0]);
        assert forall|i: int| 0 <= i < t.len() implies is_digit(#[trigger] t[i]) by {
            if i < s.len() {
                assert(t[i] == s[i]);
            }
        }
    }
}

/// Reading back the decimal text of a number gives the number.
pub proof fn parse_decimal_roundtrip(n: nat, max: nat)
    requires
        n <= max,
    ensures
        parse_unsigned(decimal(n), max) == Some(n),
{
    lemma_decimal(n);
    assert(unsigned_body(decimal(n)) == decimal(n));
}

/// Different nibbles have different hexadecimal digits.
proof fn lemma_hex_char_injective(d: nat, e: nat)
    requires
        d < 16,
        e < 16,
        hex_char(d) == hex_char(e),
    ensures
        d == e,
{
}

/// Equal hexadecimal texts have equal nibbles at each place.
proof fn lemma_hex16_nibble(a: u64, b: u64, i: int)
    requires
        hex16(a) == hex16(b),
        0 <= i < 16,
    ensures
        (a >> ((4 * (15 - i)) as u64)) & 0xf == (b >> ((4 * (15 - i)) as u64)) & 0xf,
{
    let s = (4 * (15 - i)) as u64;
    assert((a >> s) & 0xf <= 15 && (b >> s) & 0xf <= 15) by (bit_vector);
    assert(hex16(a)[i] == hex_char(((a >> s) & 0xf) as nat));
    assert(hex16(b)[i] == hex_char(((b >> s) & 0xf) as nat));
    lemma_hex_char_injective(((a >> s) & 0xf) as nat, ((b >> s) & 0xf) as nat);
}

/// Different numbers have different sixteen-digit hexadecimal texts.
pub proof fn hex16_injective(a: u64, b: u64)
    requires
        hex16(a) == hex16(b),
    ensures
        a == b,
{
    lemma_hex16_nibble(a, b, 0);
    lemma_hex16_nibble(a, b, 1);
    lemma_hex16_nibble(a, b, 2);
    lemma_hex16_nibble(a, b, 3);
    lemma_hex16_nibble(a, b, 4);
    lemma_hex16_nibble(a, b, 5);
    lemma_hex16_nibble(a, b, 6);
    lemma_hex16_nibble(a, b, 7);
    lemma_hex16_nibble(a, b, 8);
    lemma_hex16_nibble(a, b, 9);
    lemma_hex16_nibble(a, b, 10);
    lemma_hex16_nibble(a, b, 11);
    lemma_hex16_nibble(a, b, 12);
    lemma_hex16_nibble(a, b, 13);
    lemma_hex16_nibble(a, b, 14);
    lemma_hex16_nibble(a, b, 15);
    assert(((a >> 60u64) & 0xf) == ((b >> 60u64) & 0xf) && ((a >> 56u64) & 0xf) == ((b >> 56u64)
        & 0xf) && ((a >> 52u64) & 0xf) == ((b >> 52u64) & 0xf) && ((a >> 48u64) & 0xf) == ((b
        >> 48u64) & 0xf) && ((a >> 44u64) & 0xf) == ((b >> 44u64) & 0xf) && ((a >> 40u64) & 0xf)
        == ((b >> 40u64) & 0xf) && ((a >> 36u64) & 0xf) == ((b >> 36u64) & 0xf) && ((a >> 32u64)
        & 0xf) == ((b >> 32u64) & 0xf) && ((a >> 28u64) & 0xf) == ((b >> 28u64) & 0xf) && ((a
        >> 24u64) & 0xf) == ((b >> 24u64) & 0xf) && ((a >> 20u64) & 0xf) == ((b >> 20u64) & 0xf)
        && ((a >> 16u64) & 0xf) == ((b >> 16u64) & 0xf) && ((a >> 12u64) & 0xf) == ((b >> 12u64)
        & 0xf) && ((a >> 8u64) & 0xf) == ((b >> 8u64) & 0xf) && ((a >> 4u64) & 0xf) == ((b
        >> 4u64) & 0xf) && ((a >> 0u64) & 0xf) == ((b >> 0u64) & 0xf) ==> a == b) by (bit_vector);
}

} // verus!
