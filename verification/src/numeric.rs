//! Canonical base-10 strings for the wide numeric record fields.
//!
//! 128-bit and 64-bit record fields cross the application boundary as
//! decimal strings, since loosely typed hosts cannot carry them losslessly
//! as numbers.  Parsing accepts any all-digit string whose value fits the
//! target width; rendering always produces the canonical form: no sign, no
//! leading zeros.

use vstd::prelude::*;
use vstd::arithmetic::div_mod::lemma_fundamental_div_mod;
use vstd::arithmetic::div_mod::lemma_fundamental_div_mod_converse;
use vstd::string::StringExecFns;

verus! {

/// True when `c` is an ASCII decimal digit.
pub open spec fn is_dec_digit(c: char) -> bool {
    48 <= c as u32 && c as u32 <= 57
}

/// The numeric value of a decimal digit.
pub open spec fn digit_val(c: char) -> nat
    recommends
        is_dec_digit(c),
{
    (c as u32 - 48) as nat
}

/// True when every character of `s` is a decimal digit.
pub open spec fn all_dec_digits(s: Seq<char>) -> bool {
    forall|i: int| 0 <= i < s.len() ==> is_dec_digit(#[trigger] s[i])
}

/// The numeric value of a digit string, most significant digit first.
pub open spec fn dec_val(s: Seq<char>) -> nat
    decreases s.len(),
{
    if s.len() == 0 {
        0
    } else {
        dec_val(s.drop_last()) * 10 + digit_val(s.last())
    }
}

/// The digit character of a value below ten.
pub open spec fn digit_char(d: nat) -> char
    recommends
        d < 10,
{
    if d == 0 {
        '0'
    } else if d == 1 {
        '1'
    } else if d == 2 {
        '2'
    } else if d == 3 {
        '3'
    } else if d == 4 {
        '4'
    } else if d == 5 {
        '5'
    } else if d == 6 {
        '6'
    } else if d == 7 {
        '7'
    } else if d == 8 {
        '8'
    } else {
        '9'
    }
}

/// The canonical decimal rendering of `v`: no sign, no leading zeros.
pub open spec fn dec_str(v: nat) -> Seq<char>
    decreases v,
{
    if v < 10 {
        seq![digit_char(v)]
    } else {
        dec_str(v / 10).push(digit_char(v % 10))
    }
}

/// True when `s` is the canonical decimal form of some value.
pub open spec fn is_canonical_dec(s: Seq<char>) -> bool {
    &&& s.len() >= 1
    &&& all_dec_digits(s)
    &&& (s.len() > 1 ==> s[0] != '0')
}

/// Characters with equal scalar values are the same character.
proof fn lemma_char_eq_from_u32(a: char, b: char)
    requires
        a as u32 == b as u32,
    ensures
        a == b,
{
}

/// A digit character's value maps back to the character itself.
pub proof fn lemma_digit_char_of_val(c: char)
    requires
        is_dec_digit(c),
    ensures
        digit_val(c) < 10,
        digit_char(digit_val(c)) == c,
{
    assert(digit_char(digit_val(c)) as u32 == c as u32);
    lemma_char_eq_from_u32(digit_char(digit_val(c)), c);
}

/// A value below ten maps to a digit character of that value.
pub proof fn lemma_digit_val_of_char(d: nat)
    requires
        d < 10,
    ensures
        is_dec_digit(digit_char(d)),
        digit_val(digit_char(d)) == d,
{
}

/// The value of a digit string never shrinks when digits are appended.
pub proof fn lemma_dec_val_prefix_le(s: Seq<char>, i: int)
    requires
        0 <= i <= s.len(),
    ensures
        dec_val(s.subrange(0, i)) <= dec_val(s),
    decreases s.len() - i,
{
    if i == s.len() {
        assert(s.subrange(0, i) =~= s);
    } else {
        let a = s.subrange(0, i);
        let b = s.subrange(0, i + 1);
        assert(b.drop_last() =~= a);
        assert(dec_val(b) == dec_val(a) * 10 + digit_val(b.last()));
        assert(dec_val(a) <= dec_val(a) * 10);
        lemma_dec_val_prefix_le(s, i + 1);
    }
}

/// Rendering always yields the canonical digit string of the value.
pub proof fn lemma_dec_str_props(v: nat)
    ensures
        is_canonical_dec(dec_str(v)),
        dec_val(dec_str(v)) == v,
        v == 0 ==> dec_str(v) =~= seq!['0'],
        v >= 1 ==> dec_str(v)[0] != '0',
    decreases v,
{
    if v < 10 {
        let s = dec_str(v);
        assert(s =~= seq![digit_char(v)]);
        lemma_digit_val_of_char(v);
        assert(s.drop_last() =~= Seq::<char>::empty());
        assert(dec_val(Seq::<char>::empty()) == 0);
        assert(dec_val(s) == digit_val(digit_char(v)));
    } else {
        lemma_dec_str_props(v / 10);
        let f = dec_str(v / 10);
        let s = dec_str(v);
        let d = v % 10;
        assert(s == f.push(digit_char(d)));
        assert(s.drop_last() =~= f);
        assert(s.last() == digit_char(d));
        lemma_digit_val_of_char(d);
        lemma_fundamental_div_mod(v as int, 10);
        assert(dec_val(s) == dec_val(f) * 10 + d);
        assert(dec_val(s) == (v / 10) * 10 + v % 10);
        assert(s[0] == f[0]);
        assert(v / 10 >= 1);
        assert(forall|i: int|
            0 <= i < s.len() ==> is_dec_digit(#[trigger] s[i])) by {
            assert(forall|i: int| 0 <= i < f.len() ==> is_dec_digit(#[trigger] f[i]));
        }
    }
}

/// A nonzero-leading digit string has a nonzero value.
pub proof fn lemma_dec_val_pos(s: Seq<char>)
    requires
        s.len() >= 1,
        all_dec_digits(s),
        s[0] != '0',
    ensures
        dec_val(s) >= 1,
    decreases s.len(),
{
    if s.len() == 1 {
        assert(s.drop_last() =~= Seq::<char>::empty());
        assert(dec_val(Seq::<char>::empty()) == 0);
        assert(dec_val(s) == digit_val(s[0]));
        if s[0] as u32 == 48 {
            lemma_char_eq_from_u32(s[0], '0');
            assert(false);
        }
    } else {
        let f = s.drop_last();
        assert(f[0] == s[0]);
        lemma_dec_val_pos(f);
        assert(dec_val(s) == dec_val(f) * 10 + digit_val(s.last()));
        assert(dec_val(f) <= dec_val(f) * 10);
    }
}

/// Rendering the value of a canonical digit string gives the string back.
pub proof fn lemma_dec_str_of_dec_val(s: Seq<char>)
    requires
        is_canonical_dec(s),
    ensures
        dec_str(dec_val(s)) == s,
    decreases s.len(),
{
    if s.len() == 1 {
        lemma_digit_char_of_val(s[0]);
        assert(s.drop_last() =~= Seq::<char>::empty());
        assert(dec_val(Seq::<char>::empty()) == 0);
        assert(dec_val(s) == digit_val(s[0]));
        assert(dec_str(dec_val(s)) =~= seq![digit_char(digit_val(s[0]))]);
        assert(dec_str(dec_val(s)) =~= s);
    } else {
        let f = s.drop_last();
        let c = s.last();
        assert(f[0] == s[0]);
        assert(is_canonical_dec(f));
        lemma_dec_val_pos(f);
        lemma_dec_str_of_dec_val(f);
        lemma_digit_char_of_val(c);
        let v = dec_val(s);
        assert(v == dec_val(f) * 10 + digit_val(c));
        assert(10 <= dec_val(f) * 10) by {
            assert(1 * 10 <= dec_val(f) * 10) by (nonlinear_arith)
                requires 1 <= dec_val(f);
        }
        lemma_fundamental_div_mod_converse(v as int, 10, dec_val(f) as int, digit_val(c) as int);
        assert(v / 10 == dec_val(f));
        assert(v % 10 == digit_val(c));
        assert(dec_str(v) == dec_str(dec_val(f)).push(digit_char(digit_val(c))));
        assert(dec_str(v) =~= s);
    }
}

/// Parses an all-digit decimal string into a 128-bit value.
///
/// Returns `Some` exactly when the string is non-empty, holds only decimal
/// digits, and its value fits in 128 bits; leading zeros are accepted.
pub fn parse_u128(s: &str) -> (r: Option<u128>)
    ensures
        r is Some <==> s@.len() >= 1 && all_dec_digits(s@) && dec_val(s@) <= u128::MAX,
        r matches Some(v) ==> v == dec_val(s@),
{
    let n = s.unicode_len();
    if n == 0 {
        return None;
    }
    let mut i: usize = 0;
    let mut acc: u128 = 0;
    while i < n
        invariant
            i <= n,
            n == s@.len(),
            all_dec_digits(s@.subrange(0, i as int)),
            acc == dec_val(s@.subrange(0, i as int)),
        decreases n - i,
    {
        let c = s.get_char(i);
        let cv = c as u32;
        proof {
            assert(s@.subrange(0, i + 1).drop_last() =~= s@.subrange(0, i as int));
            assert(s@.subrange(0, i + 1).last() == s@[i as int]);
        }
        if cv < 48 || cv > 57 {
            assert(!is_dec_digit(s@[i as int]));
            return None;
        }
        let d = (cv - 48) as u8;
        assert(digit_val(s@[i as int]) == d);
        let ghost next_val = dec_val(s@.subrange(0, i + 1));
        assert(next_val == acc * 10 + d);
        match acc.checked_mul(10) {
            Some(m) => {
                match m.checked_add(d as u128) {
                    Some(a2) => {
                        acc = a2;
                    },
                    None => {
                        proof {
                            lemma_dec_val_prefix_le(s@, i + 1);
                        }
                        return None;
                    },
                }
            },
            None => {
                proof {
                    assert(acc * 10 <= acc * 10 + d);
                    lemma_dec_val_prefix_le(s@, i + 1);
                }
                return None;
            },
        }
        i = i + 1;
    }
    assert(s@.subrange(0, n as int) =~= s@);
    Some(acc)
}

/// Parses an all-digit decimal string into a 64-bit value.
pub fn parse_u64(s: &str) -> (r: Option<u64>)
    ensures
        r is Some <==> s@.len() >= 1 && all_dec_digits(s@) && dec_val(s@) <= u64::MAX,
        r matches Some(v) ==> v == dec_val(s@),
{
    match parse_u128(s) {
        Some(v) => {
            if v <= u64::MAX as u128 {
                Some(v as u64)
            } else {
                None
            }
        },
        None => None,
    }
}

/// Appends the digit character of `d` to `s`.
fn push_digit(s: &mut String, d: u8)
    requires
        d < 10,
    ensures
        final(s)@ == old(s)@.push(digit_char(d as nat)),
{
    if d == 0 {
        proof {
            reveal_strlit("0");
        }
        s.append("0");
    } else if d == 1 {
        proof {
            reveal_strlit("1");
        }
        s.append("1");
    } else if d == 2 {
        proof {
            reveal_strlit("2");
        }
        s.append("2");
    } else if d == 3 {
        proof {
            reveal_strlit("3");
        }
        s.append("3");
    } else if d == 4 {
        proof {
            reveal_strlit("4");
        }
        s.append("4");
    } else if d == 5 {
        proof {
            reveal_strlit("5");
        }
        s.append("5");
    } else if d == 6 {
        proof {
            reveal_strlit("6");
        }
        s.append("6");
    } else if d == 7 {
        proof {
            reveal_strlit("7");
        }
        s.append("7");
    } else if d == 8 {
        proof {
            reveal_strlit("8");
        }
        s.append("8");
    } else {
        proof {
            reveal_strlit("9");
        }
        s.append("9");
    }
    assert(final(s)@ =~= old(s)@.push(digit_char(d as nat)));
}

/// The digit characters of `ds`, least significant first, read in reverse.
spec fn rev_digit_chars(ds: Seq<u8>) -> Seq<char> {
    Seq::new(ds.len(), |k: int| digit_char(ds[ds.len() - 1 - k] as nat))
}

/// Renders `v` as its canonical decimal string.
pub fn render_u128(v: u128) -> (s: String)
    ensures
        s@ == dec_str(v as nat),
        is_canonical_dec(s@),
        dec_val(s@) == v,
{
    proof {
        lemma_dec_str_props(v as nat);
    }
    if v == 0 {
        proof {
            reveal_strlit("0");
        }
        let s = String::from_str("0");
        assert(s@ =~= dec_str(0));
        return s;
    }
    let mut digits: Vec<u8> = Vec::new();
    let mut x = v;
    while x > 0
        invariant
            forall|k: int| 0 <= k < digits@.len() ==> #[trigger] digits@[k] < 10,
            x > 0 ==> dec_str(v as nat) == dec_str(x as nat) + rev_digit_chars(digits@),
            x == 0 ==> dec_str(v as nat) == rev_digit_chars(digits@),
            v > 0,
        decreases x,
    {
        let d = (x % 10) as u8;
        let ghost pre = digits@;
        digits.push(d);
        proof {
            let post = digits@;
            assert(rev_digit_chars(post) =~= seq![digit_char(d as nat)] + rev_digit_chars(pre));
            if x >= 10 {
                assert(dec_str(x as nat) == dec_str(x as nat / 10).push(digit_char(x as nat % 10)));
                assert(dec_str(x as nat / 10).push(digit_char(d as nat)) + rev_digit_chars(pre)
                    =~= dec_str(x as nat / 10) + rev_digit_chars(post));
                assert(dec_str(v as nat) == dec_str(x as nat) + rev_digit_chars(pre));
                assert(dec_str(x as nat) + rev_digit_chars(pre)
                    =~= dec_str(x as nat / 10) + rev_digit_chars(post));
            } else {
                assert(dec_str(x as nat) =~= seq![digit_char(x as nat)]);
                assert(dec_str(x as nat) + rev_digit_chars(pre) =~= rev_digit_chars(post));
            }
        }
        x = x / 10;
    }
    let ghost target = rev_digit_chars(digits@);
    let mut out = String::new();
    let mut j = digits.len();
    while j > 0
        invariant
            j <= digits.len(),
            forall|k: int| 0 <= k < digits@.len() ==> #[trigger] digits@[k] < 10,
            target == rev_digit_chars(digits@),
            out@ == target.subrange(0, digits@.len() - j),
        decreases j,
    {
        j = j - 1;
        let d = digits[j];
        push_digit(&mut out, d);
        proof {
            let p = digits@.len() - j - 1;
            assert(target[p] == digit_char(digits@[j as int] as nat));
            assert(out@ =~= target.subrange(0, p + 1));
        }
    }
    assert(out@ =~= target);
    out
}

/// Renders `v` as its canonical decimal string.
pub fn render_u64(v: u64) -> (s: String)
    ensures
        s@ == dec_str(v as nat),
        is_canonical_dec(s@),
        dec_val(s@) == v,
{
    render_u128(v as u128)
}

} // verus!
