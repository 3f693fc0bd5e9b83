//! Character-level helpers for the textual parts of the message database:
//! comparing keys, suffix handling, decimal parsing and number formatting.
use vstd::prelude::*;

verus! {

// ---------------------------------------------------------------------------
// Specifications
// ---------------------------------------------------------------------------

/// `c` is an ASCII decimal digit.
pub open spec fn is_digit(c: char) -> bool {
    '0' <= c && c <= '9'
}

/// Numeric value of an ASCII decimal digit.
pub open spec fn digit_value(c: char) -> int {
    c as int - '0' as int
}

/// Every character of `s` is an ASCII decimal digit.
pub open spec fn all_digits(s: Seq<char>) -> bool {
    forall|i: int| 0 <= i < s.len() ==> is_digit(#[trigger] s[i])
}

/// The number written by the decimal digits `s` (most significant first).
pub open spec fn digits_value(s: Seq<char>) -> int
    decreases s.len(),
{
    if s.len() == 0 {
        0
    } else {
        digits_value(s.drop_last()) * 10 + digit_value(s.last())
    }
}

/// What `<i64 as FromStr>::from_str` accepts: an optional `+` or `-` sign followed by
/// at least one ASCII digit and nothing else, denoting a value in the range of `i64`.
pub open spec fn parse_i64_spec(s: Seq<char>) -> Option<i64> {
    let signed = s.len() > 0 && (s[0] == '-' || s[0] == '+');
    let body = if signed { s.drop_first() } else { s };
    let magnitude = digits_value(body);
    let value = if s.len() > 0 && s[0] == '-' { -magnitude } else { magnitude };
    if body.len() == 0 || !all_digits(body) {
        None
    } else if i64::MIN <= value <= i64::MAX {
        Some(value as i64)
    } else {
        None
    }
}

/// `s` ends with `suffix`.
pub open spec fn ends_with_spec(s: Seq<char>, suffix: Seq<char>) -> bool {
    suffix.len() <= s.len() && s.subrange(s.len() - suffix.len(), s.len() as int) == suffix
}

/// `s` with every trailing repetition of the non-empty `suffix` removed
/// (what `str::trim_end_matches` does with a string pattern).
pub open spec fn trim_end_spec(s: Seq<char>, suffix: Seq<char>) -> Seq<char>
    decreases s.len(),
{
    if suffix.len() > 0 && ends_with_spec(s, suffix) {
        trim_end_spec(s.subrange(0, s.len() - suffix.len()), suffix)
    } else {
        s
    }
}

/// The character for a digit value below 16: `0`-`9`, then `A`-`F`.
pub open spec fn digit_char(d: nat) -> char {
    if d < 10 {
        (d + 48) as char
    } else {
        (d + 55) as char
    }
}

/// Decimal digits of `n`, most significant first, without leading zeros.
pub open spec fn decimal_digits(n: nat) -> Seq<char>
    decreases n,
{
    if n < 10 {
        seq![digit_char(n)]
    } else {
        decimal_digits(n / 10).push(digit_char(n % 10))
    }
}

/// Upper-case hexadecimal digits of `n`, most significant first, without leading zeros.
pub open spec fn hex_digits(n: nat) -> Seq<char>
    decreases n,
{
    if n < 16 {
        seq![digit_char(n)]
    } else {
        hex_digits(n / 16).push(digit_char(n % 16))
    }
}

/// Decimal text of an integer, with a leading `-` when negative (as `{}` prints it).
pub open spec fn int_text(v: int) -> Seq<char> {
    if v < 0 {
        seq!['-'] + decimal_digits((-v) as nat)
    } else {
        decimal_digits(v as nat)
    }
}

/// The 64-bit two's complement pattern of `v`, read as an unsigned number
/// (what `{:X}` prints for an `i64`).
pub open spec fn twos_complement(v: i64) -> nat {
    if v < 0 {
        (v + 0x1_0000_0000_0000_0000) as nat
    } else {
        v as nat
    }
}

/// `s` right-aligned in a field of `width` characters, padded with spaces on the left
/// (as `{: >width}` does); never truncated.
pub open spec fn pad_left(s: Seq<char>, width: nat) -> Seq<char> {
    if s.len() >= width {
        s
    } else {
        Seq::new((width - s.len()) as nat, |i: int| ' ') + s
    }
}

/// Lexicographic order on character sequences (code point by code point; a proper
/// prefix comes first). This is the order of `str` and `String`, since UTF-8 keeps
/// code point order byte-wise.
pub open spec fn seq_lt(a: Seq<char>, b: Seq<char>) -> bool
    decreases a.len(),
{
    if a.len() == 0 {
        b.len() > 0
    } else if b.len() == 0 {
        false
    } else if a[0] != b[0] {
        a[0] < b[0]
    } else {
        seq_lt(a.drop_first(), b.drop_first())
    }
}

// ---------------------------------------------------------------------------
// Lemmas
// ---------------------------------------------------------------------------

/// Lexicographic order is irreflexive.
pub proof fn lemma_seq_lt_irreflexive(a: Seq<char>)
    ensures
        !seq_lt(a, a),
    decreases a.len(),
{
    if a.len() > 0 {
        lemma_seq_lt_irreflexive(a.drop_first());
    }
}

/// Lexicographic order is transitive.
pub proof fn lemma_seq_lt_transitive(a: Seq<char>, b: Seq<char>, c: Seq<char>)
    requires
        seq_lt(a, b),
        seq_lt(b, c),
    ensures
        seq_lt(a, c),
    decreases a.len(),
{
    if a.len() > 0 && b.len() > 0 && c.len() > 0 {
        if a[0] == b[0] && b[0] == c[0] {
            lemma_seq_lt_transitive(a.drop_first(), b.drop_first(), c.drop_first());
        }
    }
}

/// Lexicographic order is total: two sequences are equal or one comes first.
pub proof fn lemma_seq_lt_total(a: Seq<char>, b: Seq<char>)
    ensures
        a == b || seq_lt(a, b) || seq_lt(b, a),
    decreases a.len(),
{
    if a.len() > 0 && b.len() > 0 && a[0] == b[0] {
        lemma_seq_lt_total(a.drop_first(), b.drop_first());
        if a.drop_first() == b.drop_first() {
            assert(a =~= seq![a[0]] + a.drop_first());
            assert(b =~= seq![b[0]] + b.drop_first());
        }
    }
    if a.len() == 0 && b.len() == 0 {
        assert(a =~= b);
    }
}

proof fn lemma_digits_value_nonneg(s: Seq<char>)
    requires
        all_digits(s),
    ensures
        digits_value(s) >= 0,
    decreases s.len(),
{
    if s.len() > 0 {
        assert(is_digit(s[s.len() - 1]));
        lemma_digits_value_nonneg(s.drop_last());
    }
}

// ---------------------------------------------------------------------------
// Executable helpers
// ---------------------------------------------------------------------------

/// The characters of a string slice, in order.
pub fn chars_of(s: &str) -> (r: Vec<char>)
    ensures
        r@ == s@,
{
    let mut r: Vec<char> = Vec::new();
    for c in it: s.chars()
        invariant
            r@ == it.seq().take(it.index() as int),
    {
        r.push(c);
    }
    r
}

/// Collects characters into a `String` (std's `FromIterator<char> for String`):
/// the result holds exactly the given characters, in order.
#[verifier::external_body]
pub fn string_from_chars(v: &Vec<char>) -> (s: String)
    ensures
        s@ == v@,
{
    v.iter().collect()
}

/// Whether a string equals a given text.
pub fn str_is(s: &str, text: &str) -> (b: bool)
    ensures
        b == (s@ == text@),
{
    let a: String = s.to_owned();
    let t: String = text.to_owned();
    a == t
}

/// Whether `s` ends with `suffix`.
pub fn ends_with(s: &Vec<char>, suffix: &Vec<char>) -> (b: bool)
    ensures
        b == ends_with_spec(s@, suffix@),
{
    if suffix.len() > s.len() {
        return false;
    }
    let start = s.len() - suffix.len();
    let mut i: usize = 0;
    while i < suffix.len()
        invariant
            start == s.len() - suffix.len(),
            i <= suffix.len(),
            forall|j: int| 0 <= j < i ==> s@[start + j] == suffix@[j],
        decreases suffix.len() - i,
    {
        if s[start + i] != suffix[i] {
            assert(s@.subrange(start as int, s.len() as int)[i as int] != suffix@[i as int]);
            return false;
        }
        i = i + 1;
    }
    assert(s@.subrange(start as int, s.len() as int) =~= suffix@);
    true
}

/// `s` with every trailing repetition of the non-empty `suffix` removed.
pub fn trim_end(s: &Vec<char>, suffix: &Vec<char>) -> (r: Vec<char>)
    requires
        suffix.len() > 0,
    ensures
        r@ == trim_end_spec(s@, suffix@),
{
    let mut r: Vec<char> = s.clone();
    while ends_with(&r, suffix)
        invariant
            suffix.len() > 0,
            trim_end_spec(r@, suffix@) == trim_end_spec(s@, suffix@),
        decreases r.len(),
    {
        let keep = r.len() - suffix.len();
        r.truncate(keep);
    }
    r
}

/// Parses a decimal `i64` as `<i64 as FromStr>::from_str` does; `None` where it fails.
pub fn parse_i64(s: &Vec<char>) -> (r: Option<i64>)
    ensures
        r == parse_i64_spec(s@),
{
    let n = s.len();
    let neg = n > 0 && s[0] == '-';
    let start: usize = if n > 0 && (s[0] == '-' || s[0] == '+') { 1 } else { 0 };
    let ghost body = if start == 1 { s@.drop_first() } else { s@ };
    assert(body =~= s@.subrange(start as int, n as int));
    assert(body == (if s@.len() > 0 && (s@[0] == '-' || s@[0] == '+') { s@.drop_first() } else { s@ }));
    if start == n {
        return None;
    }
    let bound: u64 = if neg { 0x8000_0000_0000_0000 } else { 0x7fff_ffff_ffff_ffff };
    let mut acc: u64 = 0;
    let mut too_big = false;
    let mut i: usize = start;
    while i < n
        invariant
            start <= i <= n,
            n == s.len(),
            body == s@.subrange(start as int, n as int),
            body == (if s@.len() > 0 && (s@[0] == '-' || s@[0] == '+') { s@.drop_first() } else { s@ }),
            all_digits(body.take(i - start)),
            !too_big ==> acc == digits_value(body.take(i - start)),
            !too_big ==> acc <= bound,
            too_big ==> digits_value(body.take(i - start)) > bound,
            0x7fff_ffff_ffff_ffff <= bound <= 0x8000_0000_0000_0000,
        decreases n - i,
    {
        let c = s[i];
        if !('0' <= c && c <= '9') {
            assert(body[i - start] == c);
            assert(!is_digit(body[i - start]));
            assert(!all_digits(body));
            return None;
        }
        let ghost k = i - start;
        assert(body.take(k + 1).drop_last() =~= body.take(k));
        assert(body.take(k + 1).last() == c);
        assert(all_digits(body.take(k + 1))) by {
            assert forall|j: int| 0 <= j < k + 1 implies is_digit(#[trigger] body.take(k + 1)[j]) by {
                if j < k {
                    assert(body.take(k + 1)[j] == body.take(k)[j]);
                }
            }
        }
        proof {
            lemma_digits_value_nonneg(body.take(k));
        }
        let d: u64 = (c as u32 - '0' as u32) as u64;
        if !too_big {
            if acc > (bound - d) / 10 {
                too_big = true;
                assert(acc * 10 + d > bound) by (nonlinear_arith)
                    requires
                        acc > (bound - d) / 10,
                        d <= bound,
                ;
            } else {
                assert(acc * 10 + d <= bound) by (nonlinear_arith)
                    requires
                        acc <= (bound - d) / 10,
                        d <= bound,
                ;
                acc = acc * 10 + d;
            }
        } else {
            assert(digits_value(body.take(k)) * 10 + d > bound) by (nonlinear_arith)
                requires
                    digits_value(body.take(k)) > bound,
                    d >= 0,
            ;
        }
        i = i + 1;
    }
    assert(body.take(n - start) =~= body);
    if too_big {
        return None;
    }
    if neg {
        if acc == 0x8000_0000_0000_0000 {
            Some(i64::MIN)
        } else {
            let a = acc as i64;
            Some(-a)
        }
    } else {
        Some(acc as i64)
    }
}

/// Appends the decimal digits of `n` to `out`.
fn push_decimal_digits(n: u64, out: &mut Vec<char>)
    ensures
        final(out)@ == old(out)@ + decimal_digits(n as nat),
    decreases n,
{
    if n >= 10 {
        push_decimal_digits(n / 10, out);
    }
    let d: u8 = (n % 10) as u8;
    out.push((d + 48) as char);
    proof {
        assert(old(out)@ + decimal_digits(n as nat) =~= if n >= 10 {
            (old(out)@ + decimal_digits((n / 10) as nat)).push(digit_char((n % 10) as nat))
        } else {
            old(out)@.push(digit_char(n as nat))
        });
    }
}

/// Appends the upper-case hexadecimal digits of `n` to `out`.
fn push_hex_digits(n: u64, out: &mut Vec<char>)
    ensures
        final(out)@ == old(out)@ + hex_digits(n as nat),
    decreases n,
{
    if n >= 16 {
        push_hex_digits(n / 16, out);
    }
    let d: u8 = (n % 16) as u8;
    if d < 10 {
        out.push((d + 48) as char);
    } else {
        out.push((d + 55) as char);
    }
    proof {
        assert(old(out)@ + hex_digits(n as nat) =~= if n >= 16 {
            (old(out)@ + hex_digits((n / 16) as nat)).push(digit_char((n % 16) as nat))
        } else {
            old(out)@.push(digit_char(n as nat))
        });
    }
}

/// Decimal text of an `i64`, as `format!("{}", v)` writes it.
pub fn i64_text(v: i64) -> (r: Vec<char>)
    ensures
        r@ == int_text(v as int),
{
    let mut out: Vec<char> = Vec::new();
    if v < 0 {
        out.push('-');
        let m: u64 = ((-(v + 1)) as u64) + 1;
        push_decimal_digits(m, &mut out);
        assert(out@ =~= seq!['-'] + decimal_digits((-v) as nat));
    } else {
        push_decimal_digits(v as u64, &mut out);
        assert(out@ =~= decimal_digits(v as nat));
    }
    out
}

/// Upper-case hexadecimal text of the two's complement bits of an `i64`,
/// as `format!("{:X}", v)` writes it.
pub fn i64_hex_text(v: i64) -> (r: Vec<char>)
    ensures
        r@ == hex_digits(twos_complement(v)),
{
    let n: u64 = if v < 0 {
        0xffff_ffff_ffff_ffff - ((-(v + 1)) as u64)
    } else {
        v as u64
    };
    let mut out: Vec<char> = Vec::new();
    push_hex_digits(n, &mut out);
    assert(out@ =~= hex_digits(twos_complement(v)));
    out
}

/// `s` right-aligned in a field of `width` characters, padded with spaces on the left.
pub fn pad_left_chars(s: &Vec<char>, width: usize) -> (r: Vec<char>)
    ensures
        r@ == pad_left(s@, width as nat),
{
    let mut out: Vec<char> = Vec::new();
    if s.len() < width {
        let pad = width - s.len();
        let mut i: usize = 0;
        while i < pad
            invariant
                i <= pad,
                out@ == Seq::new(i as nat, |j: int| ' '),
            decreases pad - i,
        {
            out.push(' ');
            i = i + 1;
            assert(out@ =~= Seq::new(i as nat, |j: int| ' '));
        }
    }
    let mut i: usize = 0;
    let ghost prefix = out@;
    while i < s.len()
        invariant
            i <= s.len(),
            out@ == prefix + s@.take(i as int),
        decreases s.len() - i,
    {
        out.push(s[i]);
        i = i + 1;
        assert(out@ =~= prefix + s@.take(i as int));
    }
    assert(s@.take(s.len() as int) =~= s@);
    proof {
        if s.len() >= width {
            assert(prefix =~= Seq::<char>::empty());
            assert(out@ =~= s@);
        }
    }
    out
}

/// Lexicographic comparison of two character sequences: `a` comes strictly before `b`.
pub fn chars_lt(a: &Vec<char>, b: &Vec<char>) -> (r: bool)
    ensures
        r == seq_lt(a@, b@),
{
    let mut i: usize = 0;
    assert(a@.skip(0) =~= a@);
    assert(b@.skip(0) =~= b@);
    while i < a.len() && i < b.len()
        invariant
            i <= a.len(),
            i <= b.len(),
            a@.take(i as int) == b@.take(i as int),
            seq_lt(a@, b@) == seq_lt(a@.skip(i as int), b@.skip(i as int)),
        decreases a.len() - i,
    {
        if a[i] != b[i] {
            assert(a@.skip(i as int)[0] == a@[i as int]);
            assert(b@.skip(i as int)[0] == b@[i as int]);
            return a[i] < b[i];
        }
        assert(a@.skip(i as int).drop_first() =~= a@.skip(i + 1));
        assert(b@.skip(i as int).drop_first() =~= b@.skip(i + 1));
        assert(a@.take(i + 1) =~= a@.take(i as int).push(a@[i as int]));
        assert(b@.take(i + 1) =~= b@.take(i as int).push(b@[i as int]));
        i = i + 1;
    }
    i < b.len()
}

/// The decimal digits of a number are digits, at least one, and denote the number.
pub proof fn lemma_decimal_digits(k: nat)
    ensures
        decimal_digits(k).len() > 0,
        all_digits(decimal_digits(k)),
        digits_value(decimal_digits(k)) == k,
        is_digit(decimal_digits(k).last()),
    decreases k,
{
    let d = decimal_digits(k);
    assert(((k % 10 + 48) as char) as int == k % 10 + 48);
    assert(digit_value(digit_char(k % 10)) == k % 10);
    if k < 10 {
        assert(d.drop_last() =~= Seq::<char>::empty());
        assert(digits_value(Seq::<char>::empty()) == 0);
        assert(d.last() == digit_char(k));
    } else {
        lemma_decimal_digits(k / 10);
        let r = decimal_digits(k / 10);
        assert(d.drop_last() =~= r);
        assert(d.last() == digit_char(k % 10));
        assert(digits_value(d) == digits_value(r) * 10 + digit_value(d.last()));
        assert forall|i: int| 0 <= i < d.len() implies is_digit(#[trigger] d[i]) by {
            if i < r.len() {
                assert(d[i] == r[i]);
            }
        }
    }
}

/// The decimal text of an `i64` reads back as that `i64`.
pub proof fn lemma_parse_int_text(n: i64)
    ensures
        parse_i64_spec(int_text(n as int)) == Some(n),
        int_text(n as int).len() > 0,
        is_digit(int_text(n as int).last()),
{
    let t = int_text(n as int);
    if n < 0 {
        lemma_decimal_digits((-n) as nat);
        assert(t.drop_first() =~= decimal_digits((-n) as nat));
        assert(t.last() == decimal_digits((-n) as nat).last());
    } else {
        lemma_decimal_digits(n as nat);
        assert(is_digit(t[0]));
    }
}

/// Ten to the power `d`.
pub open spec fn pow10(d: nat) -> nat
    decreases d,
{
    if d == 0 {
        1
    } else {
        10 * pow10((d - 1) as nat)
    }
}

/// A number below ten to the power `d` (at least one) has at most `d` decimal digits.
pub proof fn lemma_decimal_digits_len(k: nat, d: nat)
    requires
        d >= 1,
        k < pow10(d),
    ensures
        decimal_digits(k).len() <= d,
    decreases d,
{
    if k >= 10 {
        assert(d >= 2) by {
            if d == 1 {
                assert(pow10(0) == 1);
            }
        }
        assert(pow10(d) == 10 * pow10((d - 1) as nat));
        assert(k / 10 < pow10((d - 1) as nat));
        lemma_decimal_digits_len(k / 10, (d - 1) as nat);
    }
}

/// `a` comes before `b` in text order: at the first position where they differ, `a`'s
/// character has the smaller code point, or `a` is a proper prefix of `b`.
pub open spec fn text_before(a: Seq<char>, b: Seq<char>) -> bool {
    ||| exists|k: int|
        0 <= k < a.len() && k < b.len() && a.take(k) == b.take(k) && #[trigger] a[k] < #[trigger] b[k]
    ||| a.len() < b.len() && a == b.take(a.len() as int)
}

/// The lexicographic order is text order: decided at the first differing character by code
/// point, with a proper prefix first.
pub proof fn lemma_seq_lt_is_text_order(a: Seq<char>, b: Seq<char>)
    ensures
        seq_lt(a, b) == text_before(a, b),
    decreases a.len(),
{
    if a.len() == 0 {
        if b.len() > 0 {
            assert(a =~= b.take(0));
        }
    } else if b.len() == 0 {
    } else if a[0] != b[0] {
        if a[0] < b[0] {
            assert(a.take(0) =~= b.take(0));
            assert(a[0] < b[0]);
        } else {
            // no witness: the first characters already differ the other way
            if text_before(a, b) {
                if a.len() < b.len() && a == b.take(a.len() as int) {
                    assert(a[0] == b.take(a.len() as int)[0]);
                } else {
                    let k = choose|k: int|
                        0 <= k < a.len() && k < b.len() && a.take(k) == b.take(k) && #[trigger] a[k] < #[trigger] b[k];
                    if k > 0 {
                        assert(a.take(k)[0] == b.take(k)[0]);
                    }
                }
            }
        }
    } else {
        let a1 = a.drop_first();
        let b1 = b.drop_first();
        lemma_seq_lt_is_text_order(a1, b1);
        if text_before(a1, b1) {
            if a1.len() < b1.len() && a1 == b1.take(a1.len() as int) {
                assert forall|j: int| 0 <= j < a.len() implies #[trigger] a[j] == b.take(a.len() as int)[j] by {
                    if j > 0 {
                        assert(a[j] == a1[j - 1]);
                        assert(a1[j - 1] == b1.take(a1.len() as int)[j - 1]);
                    }
                }
                assert(a =~= b.take(a.len() as int));
            } else {
                let k = choose|k: int|
                    0 <= k < a1.len() && k < b1.len() && a1.take(k) == b1.take(k) && #[trigger] a1[k] < #[trigger] b1[k];
                assert forall|j: int| 0 <= j < k + 1 implies #[trigger] a.take(k + 1)[j] == b.take(k + 1)[j] by {
                    if j > 0 {
                        assert(a1.take(k)[j - 1] == b1.take(k)[j - 1]);
                    }
                }
                assert(a.take(k + 1) =~= b.take(k + 1));
                assert(a[k + 1] == a1[k]);
                assert(b[k + 1] == b1[k]);
            }
        }
        if text_before(a, b) {
            if a.len() < b.len() && a == b.take(a.len() as int) {
                assert(a1 =~= b1.take(a1.len() as int));
            } else {
                let k = choose|k: int|
                    0 <= k < a.len() && k < b.len() && a.take(k) == b.take(k) && #[trigger] a[k] < #[trigger] b[k];
                assert(k != 0);
                assert(a1.take(k - 1) =~= b1.take(k - 1)) by {
                    assert forall|j: int| 0 <= j < k - 1 implies #[trigger] a1.take(k - 1)[j] == b1.take(k - 1)[j] by {
                        assert(a.take(k)[j + 1] == b.take(k)[j + 1]);
                    }
                }
                assert(a1[k - 1] == a[k]);
                assert(b1[k - 1] == b[k]);
            }
        }
    }
}

} // verus!
