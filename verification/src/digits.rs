//! Decimal digit strings: validation, parsing into `i64`, printing of `i64`,
//! and exact rendering of a smallest-unit integer amount at a given number of
//! decimal places.

use vstd::prelude::*;

verus! {

/// A decimal digit character.
pub open spec fn is_dec_digit(c: char) -> bool {
    '0' <= c && c <= '9'
}

/// Every character of the sequence is a decimal digit.
pub open spec fn is_digit_seq(s: Seq<char>) -> bool {
    forall|i: int| 0 <= i < s.len() ==> is_dec_digit(#[trigger] s[i])
}

/// Numeric value of a digit character.
pub open spec fn digit_val(c: char) -> int {
    c as int - '0' as int
}

/// Numeric value of a digit string, most significant digit first.
pub open spec fn seq_val(s: Seq<char>) -> int
    decreases s.len(),
{
    if s.len() == 0 {
        0
    } else {
        10 * seq_val(s.drop_last()) + digit_val(s.last())
    }
}

pub proof fn lemma_seq_val_nonneg(s: Seq<char>)
    requires
        is_digit_seq(s),
    ensures
        seq_val(s) >= 0,
    decreases s.len(),
{
    if s.len() > 0 {
        assert(is_digit_seq(s.drop_last()));
        lemma_seq_val_nonneg(s.drop_last());
    }
}

/// Extending a digit string to the right never decreases its value.
pub proof fn lemma_seq_val_take_mono(s: Seq<char>, i: int, j: int)
    requires
        is_digit_seq(s),
        0 <= i <= j <= s.len(),
    ensures
        seq_val(s.take(i)) <= seq_val(s.take(j)),
    decreases j - i,
{
    if i < j {
        lemma_seq_val_take_mono(s, i, j - 1);
        let t = s.take(j);
        assert(t.drop_last() =~= s.take(j - 1));
        assert(is_digit_seq(t.drop_last()));
        lemma_seq_val_nonneg(t.drop_last());
        assert(seq_val(t) == 10 * seq_val(s.take(j - 1)) + digit_val(s[j - 1]));
        assert(digit_val(s[j - 1]) >= 0);
    }
}

/// The strings that `i64` parsing accepts: an optional sign, then at least
/// one digit, denoting a value within the range of `i64`.
pub open spec fn parses_as_i64(s: Seq<char>) -> bool {
    if s.len() == 0 {
        false
    } else if s[0] == '-' {
        s.len() >= 2 && is_digit_seq(s.skip(1)) && seq_val(s.skip(1)) <= 0x8000_0000_0000_0000
    } else if s[0] == '+' {
        s.len() >= 2 && is_digit_seq(s.skip(1)) && seq_val(s.skip(1)) <= i64::MAX as int
    } else {
        is_digit_seq(s) && seq_val(s) <= i64::MAX as int
    }
}

/// The value such a string denotes.
pub open spec fn i64_of_seq(s: Seq<char>) -> int {
    if s.len() > 0 && s[0] == '-' {
        -seq_val(s.skip(1))
    } else if s.len() > 0 && s[0] == '+' {
        seq_val(s.skip(1))
    } else {
        seq_val(s)
    }
}

/// Parse a string as a decimal `i64`, accepting exactly the strings that the
/// standard library's `i64` parsing accepts: an optional `+` or `-` sign
/// followed by one or more decimal digits, denoting a value in range.
pub fn parse_i64(s: &str) -> (r: Option<i64>)
    ensures
        match r {
            Some(v) => parses_as_i64(s@) && v as int == i64_of_seq(s@),
            None => !parses_as_i64(s@),
        },
{
    let n = s.unicode_len();
    if n == 0 {
        return None;
    }
    let first = s.get_char(0);
    let neg = first == '-';
    let start: usize = if first == '-' || first == '+' {
        1
    } else {
        0
    };
    if n == start {
        // a bare sign has no digits
        return None;
    }
    let ghost body = s@.skip(start as int);
    proof {
        if start == 0 {
            assert(body =~= s@);
        } else {
            assert(body =~= s@.skip(1));
        }
    }
    let mut acc: u128 = 0;
    let mut i: usize = start;
    while i < n
        invariant
            start <= i <= n,
            n == s@.len(),
            n >= 1,
            start == 0 || start == 1,
            body == s@.skip(start as int),
            start == 0 ==> body == s@,
            start == 1 ==> body == s@.skip(1),
            start == 0 ==> s@[0] != '-' && s@[0] != '+',
            start == 1 ==> s@[0] == '-' || s@[0] == '+',
            neg == (s@[0] == '-'),
            is_digit_seq(body.take(i - start)),
            acc == seq_val(body.take(i - start)),
            acc <= 0x8000_0000_0000_0000,
        decreases n - i,
    {
        let c = s.get_char(i);
        if !(c >= '0' && c <= '9') {
            assert(!is_dec_digit(body[i - start]));
            return None;
        }
        let d: u128 = (c as u32 - '0' as u32) as u128;
        proof {
            assert(body.take(i + 1 - start).drop_last() =~= body.take(i - start));
            assert(body.take(i + 1 - start).last() == body[i - start]);
        }
        acc = acc * 10 + d;
        if acc > 0x8000_0000_0000_0000u128 {
            proof {
                let k = i + 1 - start;
                assert(seq_val(body.take(k)) > 0x8000_0000_0000_0000);
                if is_digit_seq(body) {
                    lemma_seq_val_take_mono(body, k, body.len() as int);
                    assert(body.take(body.len() as int) =~= body);
                    assert(seq_val(body) > 0x8000_0000_0000_0000);
                }
            }
            return None;
        }
        i += 1;
    }
    proof {
        assert(body.take(n - start) =~= body);
    }
    if neg {
        proof {
            lemma_seq_val_nonneg(body);
        }
        if acc == 0x8000_0000_0000_0000u128 {
            Some(i64::MIN)
        } else {
            Some(-(acc as i64))
        }
    } else {
        if acc > i64::MAX as u128 {
            return None;
        }
        Some(acc as i64)
    }
}

/// Decimal representation of a non-negative integer, no leading zeros.
pub open spec fn nat_repr(n: int) -> Seq<char>
    decreases n,
{
    if n < 10 {
        seq![(('0' as u32) + (if n >= 0 { n } else { 0 }) as u32) as char]
    } else {
        nat_repr(n / 10) + seq![(('0' as u32) + (n % 10) as u32) as char]
    }
}

/// Decimal representation of an `i64`, with a leading minus sign when
/// negative.
pub open spec fn i64_repr(v: int) -> Seq<char> {
    if v < 0 {
        seq!['-'] + nat_repr(-v)
    } else {
        nat_repr(v)
    }
}

pub proof fn lemma_nat_repr_value(n: int)
    requires
        n >= 0,
    ensures
        is_digit_seq(nat_repr(n)),
        nat_repr(n).len() >= 1,
        seq_val(nat_repr(n)) == n,
    decreases n,
{
    if n < 10 {
        let c = (('0' as u32) + n as u32) as char;
        assert(digit_val(c) == n);
        assert(nat_repr(n) == seq![c]);
        assert(nat_repr(n).last() == c);
        assert(nat_repr(n).drop_last() =~= Seq::<char>::empty());
        assert(seq_val(nat_repr(n)) == 10 * seq_val(Seq::<char>::empty()) + digit_val(c));
        assert(seq_val(Seq::<char>::empty()) == 0);
    } else {
        lemma_nat_repr_value(n / 10);
        let c = (('0' as u32) + (n % 10) as u32) as char;
        assert(digit_val(c) == n % 10);
        assert(nat_repr(n).drop_last() =~= nat_repr(n / 10));
        assert(nat_repr(n).last() == c);
        assert(seq_val(nat_repr(n)) == 10 * seq_val(nat_repr(n / 10)) + digit_val(c));
        assert(n == 10 * (n / 10) + n % 10);
    }
}

/// Printing and parsing agree: the decimal form of any `i64` parses back to
/// the same value. In particular a stored conversation id is always
/// recoverable.
pub proof fn lemma_i64_repr_roundtrip(v: int)
    requires
        i64::MIN <= v <= i64::MAX,
    ensures
        parses_as_i64(i64_repr(v)),
        i64_of_seq(i64_repr(v)) == v,
{
    if v >= 0 {
        lemma_nat_repr_value(v);
        let s = i64_repr(v);
        assert(is_dec_digit(s[0]));
    } else {
        lemma_nat_repr_value(-v);
        let s = i64_repr(v);
        assert(s[0] == '-');
        assert(s.skip(1) =~= nat_repr(-v));
    }
}

/// One decimal digit as text.
fn digit_str(d: u64) -> (r: &'static str)
    requires
        d < 10,
    ensures
        r@ == seq![(('0' as u32) + d as u32) as char],
{
    proof {
        reveal_strlit("0");
        reveal_strlit("1");
        reveal_strlit("2");
        reveal_strlit("3");
        reveal_strlit("4");
        reveal_strlit("5");
        reveal_strlit("6");
        reveal_strlit("7");
        reveal_strlit("8");
        reveal_strlit("9");
    }
    if d == 0 {
        "0"
    } else if d == 1 {
        "1"
    } else if d == 2 {
        "2"
    } else if d == 3 {
        "3"
    } else if d == 4 {
        "4"
    } else if d == 5 {
        "5"
    } else if d == 6 {
        "6"
    } else if d == 7 {
        "7"
    } else if d == 8 {
        "8"
    } else {
        "9"
    }
}

/// The decimal digits of a number, most significant first.
fn u64_digits(n: u64) -> (r: String)
    ensures
        r@ == nat_repr(n as int),
    decreases n,
{
    if n < 10 {
        let r = String::from_str(digit_str(n));
        proof {
            assert(r@ =~= nat_repr(n as int));
        }
        r
    } else {
        let mut r = u64_digits(n / 10);
        r.append(digit_str(n % 10));
        proof {
            assert(r@ =~= nat_repr(n as int));
        }
        r
    }
}

/// Print an `i64` in decimal: the digits of its magnitude, preceded by `-`
/// when it is negative. The result is exactly `i64_repr` of the value, so by
/// the round-trip law it parses back to it.
pub(crate) fn i64_to_string(v: i64) -> (r: String)
    ensures
        r@ == i64_repr(v as int),
{
    if v >= 0 {
        u64_digits(v as u64)
    } else {
        let mag: u64 = if v == i64::MIN {
            9223372036854775808u64
        } else {
            (-v) as u64
        };
        proof {
            assert(mag as int == -(v as int));
        }
        let mut r = String::from_str("-");
        r.append(u64_digits(mag).as_str());
        proof {
            reveal_strlit("-");
            assert(r@ =~= seq!['-'] + nat_repr(-(v as int)));
        }
        r
    }
}

/// Decide whether a string is one or more decimal digits and nothing else.
pub fn is_digit_string(s: &str) -> (r: bool)
    ensures
        r == (is_digit_seq(s@) && s@.len() >= 1),
{
    let n = s.unicode_len();
    if n == 0 {
        return false;
    }
    let mut i: usize = 0;
    while i < n
        invariant
            0 <= i <= n,
            n == s@.len(),
            forall|j: int| 0 <= j < i ==> is_dec_digit(#[trigger] s@[j]),
        decreases n - i,
    {
        let c = s.get_char(i);
        if c < '0' || c > '9' {
            return false;
        }
        i += 1;
    }
    true
}

/// Decide whether a string holds any character other than `0`.
pub fn has_nonzero_char(s: &str) -> (r: bool)
    ensures
        r == exists|i: int| 0 <= i < s@.len() && s@[i] != '0',
{
    let n = s.unicode_len();
    let mut i: usize = 0;
    while i < n
        invariant
            0 <= i <= n,
            n == s@.len(),
            forall|j: int| 0 <= j < i ==> s@[j] == '0',
        decreases n - i,
    {
        let c = s.get_char(i);
        if c != '0' {
            return true;
        }
        i += 1;
    }
    false
}

/// Digit characters are ASCII.
pub proof fn lemma_digit_seq_ascii(s: Seq<char>)
    requires
        is_digit_seq(s),
    ensures
        vstd::utf8::is_ascii_chars(s),
{
    assert forall|i: int| 0 <= i < s.len() implies '\0' <= #[trigger] s[i] <= '\u{7f}' by {
        assert(is_dec_digit(s[i]));
    }
}

/// The sequence without its leading `0` characters.
pub open spec fn trim_leading_zeros(s: Seq<char>) -> Seq<char>
    decreases s.len(),
{
    if s.len() > 0 && s[0] == '0' {
        trim_leading_zeros(s.drop_first())
    } else {
        s
    }
}

/// The sequence without its trailing `0` characters.
pub open spec fn trim_trailing_zeros(s: Seq<char>) -> Seq<char>
    decreases s.len(),
{
    if s.len() > 0 && s.last() == '0' {
        trim_trailing_zeros(s.drop_last())
    } else {
        s
    }
}

/// `n` copies of the `0` character.
pub open spec fn zeros(n: int) -> Seq<char> {
    Seq::new(if n >= 0 { n as nat } else { 0 }, |i: int| '0')
}

/// The digit string with leading zeros removed, `0` itself for a zero value.
pub open spec fn canonical_int(s: Seq<char>) -> Seq<char> {
    let t = trim_leading_zeros(s);
    if t.len() == 0 {
        seq!['0']
    } else {
        t
    }
}

/// The exact decimal rendering of the integer digit string `s` divided by
/// ten to the power `d`: the canonical integer part, then a fractional part
/// with trailing zeros removed, joined by a point when the fraction is not
/// zero.
pub open spec fn rendered_amount(s: Seq<char>, d: int) -> Seq<char> {
    let t = canonical_int(s);
    if d <= 0 {
        t
    } else if t.len() > d {
        let ip = t.take(t.len() - d);
        let fp = trim_trailing_zeros(t.skip(t.len() - d));
        if fp.len() == 0 {
            ip
        } else {
            ip + seq!['.'] + fp
        }
    } else {
        let fp = trim_trailing_zeros(zeros(d - t.len()) + t);
        if fp.len() == 0 {
            seq!['0']
        } else {
            seq!['0', '.'] + fp
        }
    }
}

/// If the first `k` characters are `0` and the one after them (if any) is
/// not, trimming leading zeros drops exactly those `k`.
pub proof fn lemma_trim_leading_at(s: Seq<char>, k: int)
    requires
        0 <= k <= s.len(),
        forall|j: int| 0 <= j < k ==> s[j] == '0',
        k == s.len() || s[k] != '0',
    ensures
        trim_leading_zeros(s) == s.skip(k),
    decreases k,
{
    if k == 0 {
        assert(s.skip(0) =~= s);
    } else {
        assert(s[0] == '0');
        lemma_trim_leading_at(s.drop_first(), k - 1);
        assert(s.drop_first().skip(k - 1) =~= s.skip(k));
    }
}

/// If the characters from `k` on are all `0` and the one before them (if
/// any) is not, trimming trailing zeros keeps exactly the first `k`.
pub proof fn lemma_trim_trailing_at(s: Seq<char>, k: int)
    requires
        0 <= k <= s.len(),
        forall|j: int| k <= j < s.len() ==> s[j] == '0',
        k == 0 || s[k - 1] != '0',
    ensures
        trim_trailing_zeros(s) == s.take(k),
    decreases s.len(),
{
    if k == s.len() {
        assert(s.take(k) =~= s);
    } else {
        assert(s.last() == '0');
        lemma_trim_trailing_at(s.drop_last(), k);
        assert(s.drop_last().take(k) =~= s.take(k));
    }
}

/// Render the integer digit string `s` divided by ten to the power `d`,
/// exactly.
#[verifier::rlimit(50)]
pub fn render_amount(s: &str, d: usize) -> (r: String)
    requires
        is_digit_seq(s@),
        s@.len() >= 1,
    ensures
        r@ == rendered_amount(s@, d as int),
{
    proof {
        lemma_digit_seq_ascii(s@);
        reveal_strlit("0");
        reveal_strlit(".");
        reveal_strlit("0.");
    }
    let n = s.unicode_len();
    let mut lead: usize = 0;
    while lead < n && s.get_ascii(lead) == 48
        invariant
            0 <= lead <= n,
            n == s@.len(),
            is_digit_seq(s@),
            vstd::utf8::is_ascii_chars(s@),
            forall|j: int| 0 <= j < lead ==> s@[j] == '0',
        decreases n - lead,
    {
        lead += 1;
    }
    proof {
        lemma_trim_leading_at(s@, lead as int);
    }
    let ghost t = canonical_int(s@);
    if d == 0 {
        if lead == n {
            let r = String::from_str("0");
            proof {
                assert(r@ =~= t);
            }
            return r;
        }
        let r = String::from_str(s.substring_ascii(lead, n));
        proof {
            assert(s@.subrange(lead as int, n as int) =~= s@.skip(lead as int));
        }
        return r;
    }
    // last index followed only by zeros
    let mut k: usize = n;
    while k > lead && s.get_ascii(k - 1) == 48
        invariant
            lead <= k <= n,
            n == s@.len(),
            is_digit_seq(s@),
            vstd::utf8::is_ascii_chars(s@),
            forall|j: int| k <= j < n ==> s@[j] == '0',
        decreases k,
    {
        k -= 1;
    }
    if n - lead > d {
        // the digits cover the integer part and the whole fraction
        proof {
            assert(t == s@.skip(lead as int));
            assert(t.take(t.len() - d) =~= s@.subrange(lead as int, (n - d) as int));
            assert(t.skip(t.len() - d) =~= s@.subrange((n - d) as int, n as int));
        }
        let mut r = String::from_str(s.substring_ascii(lead, n - d));
        if k <= n - d {
            // the fractional digits are all zero
            proof {
                let region = s@.subrange((n - d) as int, n as int);
                lemma_trim_trailing_at(region, 0);
                assert(region.take(0) =~= Seq::<char>::empty());
            }
            return r;
        }
        proof {
            let region = s@.subrange((n - d) as int, n as int);
            lemma_trim_trailing_at(region, k - (n - d));
            assert(region.take(k - (n - d)) =~= s@.subrange((n - d) as int, k as int));
        }
        r.append(".");
        r.append(s.substring_ascii(n - d, k));
        proof {
            assert(r@ =~= rendered_amount(s@, d as int));
        }
        return r;
    }
    // the value is below one: a zero integer part and a padded fraction
    if lead == n {
        proof {
            let u = zeros(d - t.len()) + t;
            assert(forall|j: int| 0 <= j < u.len() ==> u[j] == '0');
            lemma_trim_trailing_at(u, 0);
            assert(u.take(0) =~= Seq::<char>::empty());
        }
        let r = String::from_str("0");
        proof {
            assert(r@ =~= seq!['0']);
        }
        return r;
    }
    proof {
        assert(t == s@.skip(lead as int));
        let u = zeros(d - t.len()) + t;
        let ku = d - t.len() + (k - lead);
        assert(k > lead);
        assert(u[ku - 1] == t[k - lead - 1]);
        assert(t[k - lead - 1] == s@[k - 1]);
        assert forall|j: int| ku <= j < u.len() implies u[j] == '0' by {
            assert(u[j] == t[j - (d - t.len())]);
            assert(t[j - (d - t.len())] == s@[lead + j - (d - t.len())]);
        }
        lemma_trim_trailing_at(u, ku);
        assert(u.take(ku) =~= zeros(d - t.len()) + s@.subrange(lead as int, k as int));
    }
    let mut r = String::from_str("0.");
    let pad = d - (n - lead);
    let mut p: usize = 0;
    while p < pad
        invariant
            0 <= p <= pad,
            r@ =~= seq!['0', '.'] + zeros(p as int),
        decreases pad - p,
    {
        r.append("0");
        proof {
            reveal_strlit("0");
            assert(r@ =~= seq!['0', '.'] + zeros(p + 1));
        }
        p += 1;
    }
    r.append(s.substring_ascii(lead, k));
    proof {
        assert(r@ =~= rendered_amount(s@, d as int));
    }
    r
}

} // verus!
