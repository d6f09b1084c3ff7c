//! Decimal digit strings and small character-sequence helpers used by the
//! result store's line grammar and the engine's number parsing.

use vstd::prelude::*;

verus! {

/// The character for a single decimal digit value in `[0, 9]`.
pub open spec fn digit_char(d: int) -> char {
    ((48 + d) as u8) as char
}

/// Decimal representation of `n`, most significant digit first, no leading
/// zeros.
pub open spec fn dec_chars(n: nat) -> Seq<char>
    decreases n,
{
    if n < 10 {
        seq![digit_char(n as int)]
    } else {
        dec_chars(n / 10).push(digit_char((n % 10) as int))
    }
}

pub open spec fn is_digit(c: char) -> bool {
    48 <= c as int <= 57
}

pub open spec fn digit_val(c: char) -> int {
    c as int - 48
}

/// Numeric value of a digit string, most significant digit first.
pub open spec fn digits_val(s: Seq<char>) -> int
    decreases s.len(),
{
    if s.len() == 0 {
        0
    } else {
        digits_val(s.drop_last()) * 10 + digit_val(s.last())
    }
}

pub open spec fn all_digits(s: Seq<char>) -> bool {
    forall|i: int| 0 <= i < s.len() ==> is_digit(#[trigger] s[i])
}

/// End of the maximal run of digit characters starting at `i`.
pub open spec fn digit_run_end(s: Seq<char>, i: int) -> int
    decreases s.len() - i
        when i <= s.len()
{
    if 0 <= i < s.len() && is_digit(s[i]) {
        digit_run_end(s, i + 1)
    } else {
        i
    }
}

pub proof fn lemma_digit_run_end(s: Seq<char>, i: int)
    requires
        0 <= i <= s.len(),
    ensures
        i <= digit_run_end(s, i) <= s.len(),
        forall|k: int| i <= k < digit_run_end(s, i) ==> is_digit(#[trigger] s[k]),
        digit_run_end(s, i) == s.len() || !is_digit(s[digit_run_end(s, i)]),
    decreases s.len() - i,
{
    if i < s.len() && is_digit(s[i]) {
        lemma_digit_run_end(s, i + 1);
    }
}

pub proof fn lemma_digit_char_val(d: int)
    requires
        0 <= d <= 9,
    ensures
        digit_val(digit_char(d)) == d,
        is_digit(digit_char(d)),
{
    assert(((48 + d) as u8) as char as int == 48 + d);
}

/// A digit run ends exactly where the digits end.
pub proof fn lemma_digit_run_stops(s: Seq<char>, i: int, j: int)
    requires
        0 <= i <= j <= s.len(),
        forall|k: int| i <= k < j ==> is_digit(#[trigger] s[k]),
        j == s.len() || !is_digit(s[j]),
    ensures
        digit_run_end(s, i) == j,
    decreases j - i,
{
    if i < j {
        lemma_digit_run_stops(s, i + 1, j);
    }
}

pub proof fn lemma_dec_chars_digits(n: nat)
    ensures
        dec_chars(n).len() >= 1,
        all_digits(dec_chars(n)),
    decreases n,
{
    if n >= 10 {
        lemma_dec_chars_digits(n / 10);
        assert forall|i: int| 0 <= i < dec_chars(n).len() implies is_digit(
            #[trigger] dec_chars(n)[i],
        ) by {
            if i < dec_chars(n / 10).len() {
                assert(dec_chars(n)[i] == dec_chars(n / 10)[i]);
            }
        }
    }
}

/// The decimal representation evaluates back to the number it was made from.
pub proof fn lemma_dec_chars_val(n: nat)
    ensures
        digits_val(dec_chars(n)) == n,
    decreases n,
{
    if n < 10 {
        lemma_digit_char_val(n as int);
        assert(dec_chars(n).drop_last() =~= Seq::<char>::empty());
        assert(dec_chars(n).last() == digit_char(n as int));
        assert(digits_val(Seq::<char>::empty()) == 0);
    } else {
        lemma_dec_chars_val(n / 10);
        lemma_digit_char_val((n % 10) as int);
        assert(dec_chars(n).drop_last() =~= dec_chars(n / 10));
        assert(dec_chars(n).last() == digit_char((n % 10) as int));
    }
}

pub proof fn lemma_digits_val_nonneg(s: Seq<char>)
    requires
        all_digits(s),
    ensures
        digits_val(s) >= 0,
    decreases s.len(),
{
    if s.len() > 0 {
        assert(all_digits(s.drop_last()));
        lemma_digits_val_nonneg(s.drop_last());
    }
}

/// Extending a digit string never lowers its value.
pub proof fn lemma_digits_val_mono(s: Seq<char>, i: int, j: int)
    requires
        all_digits(s),
        0 <= i <= j <= s.len(),
    ensures
        digits_val(s.subrange(0, i)) <= digits_val(s.subrange(0, j)),
    decreases j - i,
{
    if i < j {
        lemma_digits_val_mono(s, i + 1, j);
        let a = s.subrange(0, i);
        let b = s.subrange(0, i + 1);
        assert(b.drop_last() =~= a);
        assert(all_digits(a));
        lemma_digits_val_nonneg(a);
        assert(digits_val(b) == digits_val(a) * 10 + digit_val(b.last()));
    }
}

/// Relies on `str::chars` and `Iterator::collect`: yields exactly the
/// characters of `s`, in order.
#[verifier::external_body]
pub(crate) fn str_chars(s: &str) -> (r: Vec<char>)
    ensures
        r@ == s@,
{
    s.chars().collect()
}

/// Relies on `String`'s `FromIterator` impl: builds the string whose
/// characters are exactly `v`, in order.
#[verifier::external_body]
pub(crate) fn chars_to_string(v: &Vec<char>) -> (r: String)
    ensures
        r@ == v@,
{
    v.iter().collect()
}

/// Appends the characters of `s` to `v`.
pub fn append_str(v: &mut Vec<char>, s: &str)
    ensures
        final(v)@ == old(v)@ + s@,
{
    let mut p = str_chars(s);
    v.append(&mut p);
}

/// Appends the decimal digits of `n` to `v`.
pub fn push_dec_chars(v: &mut Vec<char>, n: u32)
    ensures
        final(v)@ == old(v)@ + dec_chars(n as nat),
    decreases n,
{
    if n < 10 {
        v.push(((48 + n) as u8) as char);
        assert(old(v)@.push(((48 + n) as u8) as char) =~= old(v)@ + dec_chars(n as nat));
    } else {
        push_dec_chars(v, n / 10);
        v.push(((48 + n % 10) as u8) as char);
        assert((old(v)@ + dec_chars((n / 10) as nat)).push(digit_char((n % 10) as int)) =~= old(
            v,
        )@ + dec_chars(n as nat));
    }
}

/// Parses `v[from..to]` as a decimal number.  `None` when some character in
/// the range is not a digit or the value does not fit in a `u32`.
pub fn parse_u32_range(v: &Vec<char>, from: usize, to: usize) -> (r: Option<u32>)
    requires
        from <= to <= v@.len(),
    ensures
        ({
            let s = v@.subrange(from as int, to as int);
            match r {
                Some(x) => all_digits(s) && digits_val(s) == x,
                None => !all_digits(s) || digits_val(s) > u32::MAX,
            }
        }),
{
    let ghost s = v@.subrange(from as int, to as int);
    let mut acc: u32 = 0;
    let mut i: usize = from;
    while i < to
        invariant
            from <= i <= to <= v@.len(),
            s == v@.subrange(from as int, to as int),
            all_digits(s.subrange(0, i - from)),
            acc == digits_val(s.subrange(0, i - from)),
        decreases to - i,
    {
        let c = v[i];
        proof {
            assert(s[i - from] == v@[i as int]);
        }
        if c < '0' || c > '9' {
            assert(!is_digit(s[i - from]));
            return None;
        }
        let d = (c as u32) - 48;
        proof {
            assert(c as u32 == c as int);
        }
        let ghost pre = s.subrange(0, i - from);
        let ghost ext = s.subrange(0, i - from + 1);
        proof {
            assert(ext.drop_last() =~= pre);
            assert(ext.last() == s[i - from]);
            assert(digits_val(ext) == digits_val(pre) * 10 + d);
        }
        if acc > (u32::MAX - d) / 10 {
            proof {
                assert(acc * 10 + d > u32::MAX) by {
                    assert(acc >= (u32::MAX - d) / 10 + 1);
                    assert(((u32::MAX - d) / 10 + 1) * 10 == ((u32::MAX - d) / 10) * 10 + 10);
                    assert(acc * 10 >= ((u32::MAX - d) / 10 + 1) * 10) by (nonlinear_arith)
                        requires
                            acc >= (u32::MAX - d) / 10 + 1,
                    ;
                }
                assert(digits_val(ext) > u32::MAX);
                assert(all_digits(s) ==> digits_val(s) > u32::MAX) by {
                    if all_digits(s) {
                        lemma_digits_val_mono(s, i - from + 1, s.len() as int);
                        assert(s.subrange(0, s.len() as int) =~= s);
                    }
                }
            }
            return None;
        }
        proof {
            assert(acc * 10 + d <= u32::MAX) by {
                assert(acc <= (u32::MAX - d) / 10);
                assert(((u32::MAX - d) / 10) * 10 <= u32::MAX - d);
                assert(acc * 10 <= ((u32::MAX - d) / 10) * 10) by (nonlinear_arith)
                    requires
                        acc <= (u32::MAX - d) / 10,
                ;
            }
        }
        acc = acc * 10 + d;
        i = i + 1;
    }
    assert(s.subrange(0, s.len() as int) =~= s);
    Some(acc)
}

/// Index just past the run of digits in `v` starting at `i`.
pub fn scan_digits(v: &Vec<char>, i: usize) -> (r: usize)
    requires
        i <= v@.len(),
    ensures
        r == digit_run_end(v@, i as int),
{
    let mut j = i;
    while j < v.len()
        invariant
            i <= j <= v@.len(),
            digit_run_end(v@, i as int) == digit_run_end(v@, j as int),
        decreases v@.len() - j,
    {
        let c = v[j];
        if c < '0' || c > '9' {
            assert(!is_digit(v@[j as int]));
            return j;
        }
        assert(is_digit(v@[j as int]));
        j = j + 1;
    }
    j
}

/// Whether the characters of `pat` occur in `v` starting at position `i`.
pub fn match_at(v: &Vec<char>, i: usize, pat: &str) -> (r: bool)
    requires
        i <= v@.len(),
    ensures
        r == (i + pat@.len() <= v@.len() && v@.subrange(
            i as int,
            i as int + pat@.len() as int,
        ) == pat@),
{
    let p = str_chars(pat);
    let vlen = v.len();
    if p.len() > vlen - i {
        return false;
    }
    let mut k: usize = 0;
    while k < p.len()
        invariant
            vlen == v@.len(),
            i + p@.len() <= v@.len(),
            0 <= k <= p@.len(),
            p@ == pat@,
            forall|m: int| 0 <= m < k ==> v@[i + m] == p@[m],
        decreases p@.len() - k,
    {
        assert(i + k < v@.len());
        if v[i + k] != p[k] {
            assert(v@.subrange(i as int, i as int + pat@.len() as int)[k as int] != pat@[k as int]);
            return false;
        }
        k = k + 1;
    }
    assert(v@.subrange(i as int, i as int + pat@.len() as int) =~= pat@);
    true
}

} // verus!
