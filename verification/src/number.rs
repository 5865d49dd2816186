//! The decimal texts the monitor accepts and the two-decimal rendering
//! applied to the memory percentage.
//!
//! A decimal text is an optional sign followed by digits with at most
//! one dot and at least one digit, the forms `25`, `12.5`, `5.`, `.5`,
//! `-0.75`, `+3`. Exponent notation (`1.25e-05`) and the non-finite
//! forms (`inf`, `NaN`) are deliberately not decimal texts: a
//! percentage probe reports a plain decimal, and an exponent of
//! arbitrary size or an infinity has no exact two-decimal rendering.
//! A memory text in one of those forms is rejected as non-numeric.
//! Rendering keeps the sign, normalizes the integer part, and rounds
//! the fraction to two digits, halves away from zero.

use vstd::prelude::*;

use crate::text::{digit_char, digit_val, digits_val, is_digit, is_digit_char};

verus! {

/// Whether the text starts with an explicit sign.
pub open spec fn has_sign(s: Seq<char>) -> bool {
    s.len() > 0 && (s[0] == '+' || s[0] == '-')
}

/// The text with its sign removed.
pub open spec fn body_of(s: Seq<char>) -> Seq<char> {
    if has_sign(s) {
        s.skip(1)
    } else {
        s
    }
}

/// Whether the denoted value carries a minus sign.
pub open spec fn is_negative(s: Seq<char>) -> bool {
    s.len() > 0 && s[0] == '-'
}

/// The index of the first dot, or the length if there is none.
pub open spec fn dot_pos(t: Seq<char>) -> int
    decreases t.len(),
{
    if t.len() == 0 {
        0
    } else if t[0] == '.' {
        0
    } else {
        1 + dot_pos(t.skip(1))
    }
}

proof fn lemma_dot_pos(t: Seq<char>)
    ensures
        0 <= dot_pos(t) <= t.len(),
        forall|j: int| 0 <= j < dot_pos(t) ==> t[j] != '.',
        dot_pos(t) < t.len() ==> t[dot_pos(t)] == '.',
    decreases t.len(),
{
    if t.len() > 0 && t[0] != '.' {
        lemma_dot_pos(t.skip(1));
        assert(forall|j: int| 1 <= j < dot_pos(t) ==> t[j] == t.skip(1)[j - 1]);
    }
}

/// The digits before the dot (all of them, when there is no dot).
pub open spec fn int_digits(t: Seq<char>) -> Seq<char> {
    t.take(dot_pos(t))
}

/// The digits after the dot (none, when there is no dot).
pub open spec fn frac_digits(t: Seq<char>) -> Seq<char> {
    if dot_pos(t) < t.len() {
        t.skip(dot_pos(t) + 1)
    } else {
        Seq::<char>::empty()
    }
}

/// A signless decimal text: digit-or-dot characters, at most one dot,
/// at least one digit.
pub open spec fn valid_decimal_body(t: Seq<char>) -> bool {
    &&& forall|j: int| 0 <= j < t.len() ==> is_digit(t[j]) || t[j] == '.'
    &&& forall|j: int| dot_pos(t) < j < t.len() ==> is_digit(t[j])
    &&& (dot_pos(t) > 0 || dot_pos(t) + 1 < t.len())
}

/// A decimal text: an optional sign, then a valid body. Exponent and
/// non-finite forms are not decimal texts.
pub open spec fn is_valid_decimal(s: Seq<char>) -> bool {
    valid_decimal_body(body_of(s))
}

/// The fraction rounded to two digits, as a number in `0..=100`:
/// `100` means the rounding carries into the integer part.
pub open spec fn frac_pair(fs: Seq<char>) -> nat {
    let f0 = if fs.len() >= 1 {
        digit_val(fs[0])
    } else {
        0
    };
    let f1 = if fs.len() >= 2 {
        digit_val(fs[1])
    } else {
        0
    };
    let up: nat = if fs.len() >= 3 && digit_val(fs[2]) >= 5 {
        1
    } else {
        0
    };
    f0 * 10 + f1 + up
}

/// A digit sequence incremented by one (a carry may lengthen it).
pub open spec fn inc_digits(ds: Seq<char>) -> Seq<char>
    decreases ds.len(),
{
    if ds.len() == 0 {
        seq!['1']
    } else if ds.last() == '9' {
        inc_digits(ds.drop_last()) + seq!['0']
    } else {
        ds.drop_last() + seq![digit_char(digit_val(ds.last()) + 1)]
    }
}

/// A digit sequence without its leading zeros.
pub open spec fn strip_zeros(ds: Seq<char>) -> Seq<char>
    decreases ds.len(),
{
    if ds.len() > 0 && ds[0] == '0' {
        strip_zeros(ds.skip(1))
    } else {
        ds
    }
}

/// The two-decimal rendering of a valid decimal text: sign kept,
/// integer part normalized, fraction rounded to exactly two digits.
pub open spec fn two_decimals(s: Seq<char>) -> Seq<char> {
    let t = body_of(s);
    let pair = frac_pair(frac_digits(t));
    let carried = if pair >= 100 {
        inc_digits(int_digits(t))
    } else {
        int_digits(t)
    };
    let stripped = strip_zeros(carried);
    let ip = if stripped.len() == 0 {
        seq!['0']
    } else {
        stripped
    };
    let fp = seq![digit_char((pair % 100) / 10), digit_char((pair % 100) % 10)];
    (if is_negative(s) {
        seq!['-']
    } else {
        Seq::<char>::empty()
    }) + ip + seq!['.'] + fp
}

proof fn lemma_digits_val_push(ds: Seq<char>, c: char)
    ensures
        digits_val(ds.push(c)) == digits_val(ds) * 10 + digit_val(c),
{
    assert(ds.push(c).drop_last() =~= ds);
    assert(ds.push(c).last() == c);
}

proof fn lemma_digit_val_char(n: nat)
    requires
        n < 10,
    ensures
        digit_val(digit_char(n)) == n,
        is_digit(digit_char(n)),
{
}

proof fn lemma_char_code_nine(c: char)
    requires
        c as u32 == 57,
    ensures
        c == '9',
{
}

proof fn lemma_digits_val_inc(ds: Seq<char>)
    requires
        forall|j: int| 0 <= j < ds.len() ==> is_digit(ds[j]),
    ensures
        digits_val(inc_digits(ds)) == digits_val(ds) + 1,
    decreases ds.len(),
{
    if ds.len() == 0 {
        assert(seq!['1'].drop_last() =~= Seq::<char>::empty());
        assert(seq!['1'].last() == '1');
        assert(digits_val(Seq::<char>::empty()) == 0);
        assert('1' as u32 == 49);
        assert(digits_val(inc_digits(ds)) == 1);
    } else if ds.last() == '9' {
        let dl = ds.drop_last();
        assert(forall|j: int| 0 <= j < dl.len() ==> is_digit(dl[j]));
        lemma_digits_val_inc(dl);
        assert(inc_digits(ds) == inc_digits(dl) + seq!['0']);
        assert(inc_digits(dl) + seq!['0'] =~= inc_digits(dl).push('0'));
        lemma_digits_val_push(inc_digits(dl), '0');
        assert(digits_val(ds) == digits_val(dl) * 10 + 9);
    } else {
        let dl = ds.drop_last();
        let c = digit_char(digit_val(ds.last()) + 1);
        if ds.last() as u32 == 57 {
            lemma_char_code_nine(ds.last());
        }
        assert(digit_val(ds.last()) < 9);
        lemma_digit_val_char(digit_val(ds.last()) + 1);
        assert(inc_digits(ds) == dl + seq![c]);
        assert(dl + seq![c] =~= dl.push(c));
        lemma_digits_val_push(dl, c);
        assert(digits_val(ds) == digits_val(dl) * 10 + digit_val(ds.last()));
    }
}

proof fn lemma_digits_val_strip(ds: Seq<char>)
    ensures
        digits_val(strip_zeros(ds)) == digits_val(ds),
    decreases ds.len(),
{
    if ds.len() > 0 && ds[0] == '0' {
        let t = ds.skip(1);
        lemma_digits_val_strip(t);
        lemma_digits_val_drop_zero(ds);
    }
}

proof fn lemma_digits_val_drop_zero(ds: Seq<char>)
    requires
        ds.len() > 0,
        ds[0] == '0',
    ensures
        digits_val(ds.skip(1)) == digits_val(ds),
    decreases ds.len(),
{
    if ds.len() == 1 {
        assert(ds.drop_last() =~= Seq::<char>::empty());
        assert(ds.skip(1) =~= Seq::<char>::empty());
        assert(digit_val('0') == 0);
    } else {
        let dl = ds.drop_last();
        lemma_digits_val_drop_zero(dl);
        assert(ds.skip(1).drop_last() =~= dl.skip(1));
        assert(ds.skip(1).last() == ds.last());
    }
}

/// The two-decimal rendering denotes the rounded value and nothing
/// else: the printed integer part, scaled by one hundred, plus the
/// printed fraction pair equals the exact integer part scaled by one
/// hundred plus the rounded fraction.
pub proof fn lemma_two_decimals_value(s: Seq<char>)
    requires
        is_valid_decimal(s),
    ensures
        ({
            let t = body_of(s);
            let pair = frac_pair(frac_digits(t));
            let carried = if pair >= 100 {
                inc_digits(int_digits(t))
            } else {
                int_digits(t)
            };
            let stripped = strip_zeros(carried);
            let ip = if stripped.len() == 0 {
                seq!['0']
            } else {
                stripped
            };
            digits_val(ip) * 100 + pair % 100 == digits_val(int_digits(t)) * 100 + pair
        }),
{
    let t = body_of(s);
    lemma_dot_pos(t);
    let dp = dot_pos(t);
    let pair = frac_pair(frac_digits(t));
    let ints = int_digits(t);
    assert(forall|j: int| 0 <= j < ints.len() ==> is_digit(ints[j]));
    let carried = if pair >= 100 {
        inc_digits(ints)
    } else {
        ints
    };
    let f = frac_digits(t);
    if f.len() >= 1 {
        assert(f[0] == t[dp + 1]);
        assert(is_digit(f[0]));
    }
    if f.len() >= 2 {
        assert(f[1] == t[dp + 2]);
        assert(is_digit(f[1]));
    }
    assert(pair <= 100);
    if pair >= 100 {
        lemma_digits_val_inc(ints);
    }
    lemma_digits_val_strip(carried);
    let stripped = strip_zeros(carried);
    if stripped.len() == 0 {
        assert(seq!['0'].drop_last() =~= Seq::<char>::empty());
        assert(seq!['0'].last() == '0');
        assert(digits_val(Seq::<char>::empty()) == 0);
        assert('0' as u32 == 48);
        assert(digits_val(seq!['0']) == 0);
    }
}

/// Append one decimal digit to the output text.
fn push_digit_val(out: &mut String, d: u32)
    requires
        d < 10,
    ensures
        final(out)@ == old(out)@ + seq![digit_char(d as nat)],
{
    if d == 0 {
        proof {
            reveal_strlit("0");
        }
        out.append("0");
    } else if d == 1 {
        proof {
            reveal_strlit("1");
        }
        out.append("1");
    } else if d == 2 {
        proof {
            reveal_strlit("2");
        }
        out.append("2");
    } else if d == 3 {
        proof {
            reveal_strlit("3");
        }
        out.append("3");
    } else if d == 4 {
        proof {
            reveal_strlit("4");
        }
        out.append("4");
    } else if d == 5 {
        proof {
            reveal_strlit("5");
        }
        out.append("5");
    } else if d == 6 {
        proof {
            reveal_strlit("6");
        }
        out.append("6");
    } else if d == 7 {
        proof {
            reveal_strlit("7");
        }
        out.append("7");
    } else if d == 8 {
        proof {
            reveal_strlit("8");
        }
        out.append("8");
    } else {
        proof {
            reveal_strlit("9");
        }
        out.append("9");
    }
    proof {
        assert(out@ =~= old(out)@ + seq![digit_char(d as nat)]);
    }
}

/// Increment a digit sequence by one, propagating the carry.
fn inc_digits_vec(ds: Vec<char>) -> (r: Vec<char>)
    requires
        forall|j: int| 0 <= j < ds@.len() ==> is_digit(ds@[j]),
    ensures
        r@ == inc_digits(ds@),
        forall|j: int| 0 <= j < r@.len() ==> is_digit(r@[j]),
    decreases ds@.len(),
{
    let mut v = ds;
    if v.len() == 0 {
        v.push('1');
        proof {
            assert(v@ =~= inc_digits(ds@));
        }
        v
    } else {
        let c = v[v.len() - 1];
        if c == '9' {
            v.pop();
            let mut r = inc_digits_vec(v);
            r.push('0');
            proof {
                assert(r@ =~= inc_digits(ds@));
            }
            r
        } else {
            let d = c as u32 - 48;
            v.pop();
            let next = match d {
                0 => '1',
                1 => '2',
                2 => '3',
                3 => '4',
                4 => '5',
                5 => '6',
                6 => '7',
                7 => '8',
                _ => '9',
            };
            proof {
                assert(next == digit_char(digit_val(c) + 1));
            }
            v.push(next);
            proof {
                assert(v@ =~= inc_digits(ds@));
            }
            v
        }
    }
}

proof fn lemma_strip_zeros_digits(ds: Seq<char>)
    requires
        forall|j: int| 0 <= j < ds.len() ==> is_digit(ds[j]),
    ensures
        forall|j: int| 0 <= j < strip_zeros(ds).len() ==> is_digit(strip_zeros(ds)[j]),
    decreases ds.len(),
{
    if ds.len() > 0 && ds[0] == '0' {
        let t = ds.skip(1);
        assert(forall|j: int| 0 <= j < t.len() ==> is_digit(t[j]));
        lemma_strip_zeros_digits(t);
        assert(strip_zeros(ds) == strip_zeros(t));
    }
}

proof fn lemma_strip_zeros_skip(ds: Seq<char>, k: int)
    requires
        0 <= k <= ds.len(),
        forall|j: int| 0 <= j < k ==> ds[j] == '0',
        k == ds.len() || ds[k] != '0',
    ensures
        strip_zeros(ds) == ds.skip(k),
    decreases k,
{
    if k == 0 {
        assert(ds.skip(0) =~= ds);
    } else {
        let t = ds.skip(1);
        assert(forall|j: int| 0 <= j < k - 1 ==> t[j] == '0');
        lemma_strip_zeros_skip(t, k - 1);
        assert(t.skip(k - 1) =~= ds.skip(k));
    }
}

/// Drop the leading zeros of a digit sequence.
fn strip_zeros_vec(ds: Vec<char>) -> (r: Vec<char>)
    ensures
        r@ == strip_zeros(ds@),
{
    let mut k: usize = 0;
    while k < ds.len() && ds[k] == '0'
        invariant
            0 <= k <= ds@.len(),
            forall|j: int| 0 <= j < k ==> ds@[j] == '0',
        decreases ds@.len() - k,
    {
        k += 1;
    }
    proof {
        lemma_strip_zeros_skip(ds@, k as int);
    }
    let mut r: Vec<char> = Vec::new();
    let mut q: usize = k;
    while q < ds.len()
        invariant
            k <= q <= ds@.len(),
            r@ == ds@.subrange(k as int, q as int),
        decreases ds@.len() - q,
    {
        r.push(ds[q]);
        proof {
            assert(r@ =~= ds@.subrange(k as int, q + 1));
        }
        q += 1;
    }
    proof {
        assert(r@ =~= ds@.skip(k as int));
    }
    r
}

/// Parse a decimal text and render it with exactly two fraction
/// digits, as the memory percentage is rendered; `None` when the text
/// is not a decimal text.
#[verifier::rlimit(60)]
pub fn format_two_decimals(s: &str) -> (r: Option<String>)
    ensures
        r matches Some(f) ==> is_valid_decimal(s@) && f@ == two_decimals(s@),
        r is None ==> !is_valid_decimal(s@),
{
    let n = s.unicode_len();
    let mut i: usize = 0;
    let mut neg = false;
    if n > 0 {
        let c0 = s.get_char(0);
        if c0 == '-' {
            neg = true;
            i = 1;
        } else if c0 == '+' {
            i = 1;
        }
    }
    let sign_len = i;
    let ghost t = s@.skip(sign_len as int);
    proof {
        assert(t =~= body_of(s@));
        assert(neg == is_negative(s@));
        lemma_dot_pos(t);
    }
    // Scan the integer digits, up to a dot or the end.
    let mut ints: Vec<char> = Vec::new();
    let mut dot_found = false;
    while i < n && !dot_found
        invariant
            sign_len <= i <= n,
            n == s@.len(),
            t == s@.skip(sign_len as int),
            t == body_of(s@),
            ints@ == t.take(i - sign_len),
            forall|j: int| 0 <= j < i - sign_len ==> is_digit(t[j]),
            dot_found ==> i < n && t[i - sign_len] == '.',
        decreases n - i + (if dot_found { 0int } else { 1int }),
    {
        let c = s.get_char(i);
        if c == '.' {
            dot_found = true;
        } else if is_digit_char(c) {
            ints.push(c);
            proof {
                assert(ints@ =~= t.take(i + 1 - sign_len));
            }
            i += 1;
        } else {
            proof {
                assert(!(is_digit(t[i - sign_len]) || t[i - sign_len] == '.'));
            }
            return None;
        }
    }
    let ghost dp = dot_pos(t);
    proof {
        // The scan fixes the position of the first dot.
        assert(forall|j: int| 0 <= j < i - sign_len ==> t[j] != '.');
        if dot_found {
            assert(dp == i - sign_len);
        } else {
            assert(dp == t.len());
        }
        assert(ints@ == int_digits(t));
    }
    // Scan the fraction digits.
    let mut fracs: Vec<char> = Vec::new();
    if dot_found {
        let mut k = i + 1;
        while k < n
            invariant
                i + 1 <= k <= n,
                n == s@.len(),
                t == s@.skip(sign_len as int),
                t == body_of(s@),
                sign_len <= i < n,
                dp == i - sign_len,
                dp == dot_pos(t),
                dp < t.len() && t[dp] == '.',
                fracs@ == t.subrange(dp + 1, k - sign_len),
                forall|j: int| dp + 1 <= j < k - sign_len ==> is_digit(t[j]),
            decreases n - k,
        {
            let c = s.get_char(k);
            if !is_digit_char(c) {
                proof {
                    assert(t[k - sign_len] == s@[k as int]);
                    assert(!is_digit(t[k - sign_len]) && dp < k - sign_len < t.len());
                }
                return None;
            }
            fracs.push(c);
            proof {
                assert(fracs@ =~= t.subrange(dp + 1, k + 1 - sign_len));
            }
            k += 1;
        }
        proof {
            assert(fracs@ =~= frac_digits(t));
        }
    } else {
        proof {
            assert(fracs@ =~= frac_digits(t));
        }
    }
    if ints.len() == 0 && fracs.len() == 0 {
        proof {
            assert(dp == 0 && dp + 1 >= t.len());
        }
        return None;
    }
    proof {
        assert(dp > 0 || dp + 1 < t.len());
        assert(forall|j: int| 0 <= j < t.len() ==> is_digit(t[j]) || t[j] == '.');
        assert(forall|j: int| dp < j < t.len() ==> is_digit(t[j]));
        assert(valid_decimal_body(t));
    }
    // Round the fraction to two digits.
    let f0: u32 = if fracs.len() >= 1 {
        fracs[0] as u32 - 48
    } else {
        0
    };
    let f1: u32 = if fracs.len() >= 2 {
        fracs[1] as u32 - 48
    } else {
        0
    };
    let up: u32 = if fracs.len() >= 3 && fracs[2] as u32 >= 53 {
        1
    } else {
        0
    };
    let pair: u32 = f0 * 10 + f1 + up;
    proof {
        assert(pair as nat == frac_pair(frac_digits(t)));
    }
    let carried = if pair >= 100 {
        inc_digits_vec(ints)
    } else {
        ints
    };
    proof {
        assert(forall|j: int| 0 <= j < carried@.len() ==> is_digit(carried@[j]));
        lemma_strip_zeros_digits(carried@);
    }
    let stripped = strip_zeros_vec(carried);
    let mut out = String::new();
    if neg {
        proof {
            reveal_strlit("-");
        }
        out.append("-");
    }
    if stripped.len() == 0 {
        proof {
            reveal_strlit("0");
        }
        out.append("0");
    } else {
        let ghost mid = out@;
        let mut q: usize = 0;
        while q < stripped.len()
            invariant
                0 <= q <= stripped@.len(),
                forall|j: int| 0 <= j < stripped@.len() ==> is_digit(stripped@[j]),
                out@ == mid + stripped@.take(q as int),
            decreases stripped@.len() - q,
        {
            let c = stripped[q];
            let d = c as u32 - 48;
            proof {
                crate::text::lemma_digit_char_of_val(c);
                assert(digit_char(d as nat) == stripped@[q as int]);
            }
            push_digit_val(&mut out, d);
            proof {
                assert(out@ =~= mid + stripped@.take(q + 1));
            }
            q += 1;
        }
        proof {
            assert(stripped@.take(stripped@.len() as int) =~= stripped@);
        }
    }
    proof {
        reveal_strlit(".");
    }
    out.append(".");
    push_digit_val(&mut out, (pair % 100) / 10);
    push_digit_val(&mut out, (pair % 100) % 10);
    proof {
        assert(out@ =~= two_decimals(s@));
    }
    Some(out)
}

} // verus!
