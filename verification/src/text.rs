//! Small string-building and number-formatting helpers that the path
//! derivation and timestamp normalization are built on.

use vstd::prelude::*;

verus! {

/// Relies on `String::push` from std: appends the given character to the
/// end of the string.
#[verifier::external_body]
pub(crate) fn push_char(s: &mut String, c: char)
    ensures
        final(s)@ == old(s)@.push(c),
{
    s.push(c);
}

/// The decimal digit character for a value below ten.
pub open spec fn digit_char(d: nat) -> char {
    (48 + d) as char
}

/// The canonical decimal representation of a natural number: no sign, no
/// leading zeros (a single `'0'` for zero).
pub open spec fn dec_spec(n: nat) -> Seq<char>
    decreases n,
{
    if n < 10 {
        seq![digit_char(n)]
    } else {
        dec_spec(n / 10).push(digit_char(n % 10))
    }
}

/// Writes `n` in canonical decimal notation.
pub fn dec_u64(n: u64) -> (r: String)
    ensures
        r@ == dec_spec(n as nat),
    decreases n,
{
    if n < 10 {
        let mut s = String::new();
        push_char(&mut s, (48 + n as u8) as char);
        proof {
            assert(s@ =~= dec_spec(n as nat));
        }
        s
    } else {
        let mut s = dec_u64(n / 10);
        push_char(&mut s, (48 + (n % 10) as u8) as char);
        proof {
            assert(s@ =~= dec_spec(n as nat));
        }
        s
    }
}

/// `n` in decimal, left-padded with zeros to at least four characters.
pub open spec fn zpad4_spec(n: nat) -> Seq<char> {
    if n < 10 {
        seq!['0', '0', '0'] + dec_spec(n)
    } else if n < 100 {
        seq!['0', '0'] + dec_spec(n)
    } else if n < 1000 {
        seq!['0'] + dec_spec(n)
    } else {
        dec_spec(n)
    }
}

/// Writes `n` in decimal, zero-padded to at least four characters.
pub fn zpad4_u64(n: u64) -> (r: String)
    ensures
        r@ == zpad4_spec(n as nat),
{
    let mut s = String::new();
    if n < 10 {
        push_char(&mut s, '0');
        push_char(&mut s, '0');
        push_char(&mut s, '0');
    } else if n < 100 {
        push_char(&mut s, '0');
        push_char(&mut s, '0');
    } else if n < 1000 {
        push_char(&mut s, '0');
    }
    let digits = dec_u64(n);
    s.append(digits.as_str());
    proof {
        assert(s@ =~= zpad4_spec(n as nat));
    }
    s
}

/// Whether `c` is a decimal digit.
pub open spec fn is_digit(c: char) -> bool {
    48 <= c as u32 <= 57
}

/// Whether the whole string consists of decimal digits.
pub open spec fn all_digits(s: Seq<char>) -> bool {
    forall|i: int| 0 <= i < s.len() ==> is_digit(#[trigger] s[i])
}

/// The numeric value of a digit string, read left to right.
pub open spec fn str_to_nat(s: Seq<char>) -> nat
    decreases s.len(),
{
    if s.len() == 0 {
        0
    } else {
        (str_to_nat(s.drop_last()) * 10 + (s.last() as u32 - 48)) as nat
    }
}

/// A longer digit prefix never denotes a smaller number.
proof fn lemma_str_to_nat_take_le(s: Seq<char>, i: int)
    requires
        0 <= i <= s.len(),
        all_digits(s),
    ensures
        str_to_nat(s.take(i)) <= str_to_nat(s),
    decreases s.len() - i,
{
    if i < s.len() {
        lemma_str_to_nat_take_le(s, i + 1);
        assert(s.take(i + 1).drop_last() =~= s.take(i));
        assert(str_to_nat(s.take(i + 1)) == str_to_nat(s.take(i)) * 10 + (s[i] as u32 - 48));
        assert(str_to_nat(s.take(i)) * 10 >= str_to_nat(s.take(i))) by (nonlinear_arith);
    } else {
        assert(s.take(i) =~= s);
    }
}

/// Reads a decimal digit string. Returns its value exactly when the string
/// is non-empty, consists of digits only, and the value fits in a `u64`.
pub fn parse_u64(s: &str) -> (r: Option<u64>)
    ensures
        r is Some <==> s@.len() > 0 && all_digits(s@) && str_to_nat(s@) <= u64::MAX,
        r is Some ==> r->0 == str_to_nat(s@),
{
    let n = s.unicode_len();
    if n == 0 {
        return None;
    }
    let mut v: u64 = 0;
    let mut i: usize = 0;
    while i < n
        invariant
            0 < n == s@.len(),
            0 <= i <= n,
            all_digits(s@.take(i as int)),
            v == str_to_nat(s@.take(i as int)),
        decreases n - i,
    {
        let c = s.get_char(i);
        let u = c as u32;
        if u < 48 || u > 57 {
            proof {
                assert(!is_digit(s@[i as int]));
            }
            return None;
        }
        let d: u64 = (u - 48) as u64;
        if v > (u64::MAX - d) / 10 {
            proof {
                let t = s@.take(i as int + 1);
                assert(t.drop_last() =~= s@.take(i as int));
                assert(t.last() == s@[i as int]);
                assert(str_to_nat(t) == v * 10 + d);
                assert(v * 10 + d > u64::MAX) by (nonlinear_arith)
                    requires
                        v > (u64::MAX - d) / 10,
                        d <= 9,
                ;
                if all_digits(s@) {
                    lemma_str_to_nat_take_le(s@, i as int + 1);
                }
            }
            return None;
        }
        proof {
            assert(v * 10 + d <= u64::MAX) by (nonlinear_arith)
                requires
                    v <= (u64::MAX - d) / 10,
                    d <= 9,
            ;
            let t = s@.take(i as int + 1);
            assert(t.drop_last() =~= s@.take(i as int));
            assert(t.last() == s@[i as int]);
        }
        v = v * 10 + d;
        i = i + 1;
    }
    proof {
        assert(s@.take(n as int) =~= s@);
    }
    Some(v)
}

/// Whether `c` survives slug normalization: an ASCII letter or digit.
pub open spec fn slug_keeps(c: char) -> bool {
    48 <= c as u32 <= 57 || 65 <= c as u32 <= 90 || 97 <= c as u32 <= 122
}

/// `c` with an ASCII upper-case letter mapped to lower case.
pub open spec fn lower_char(c: char) -> char {
    if 65 <= c as u32 <= 90 {
        (c as u32 + 32) as char
    } else {
        c
    }
}

/// One left-to-right pass of slug normalization. `started` records whether a
/// kept character has been emitted yet and `pending` whether a run of
/// dropped characters has been seen since then; a pending run turns into one
/// `'_'` only when another kept character follows it.
pub open spec fn slug_rec(s: Seq<char>, started: bool, pending: bool) -> Seq<char>
    decreases s.len(),
{
    if s.len() == 0 {
        Seq::empty()
    } else if slug_keeps(s[0]) {
        (if started && pending {
            seq!['_']
        } else {
            Seq::empty()
        }) + seq![lower_char(s[0])] + slug_rec(s.drop_first(), true, false)
    } else {
        slug_rec(s.drop_first(), started, true)
    }
}

/// The slug of a name: lower-cased, with every run of characters that are
/// not ASCII letters or digits collapsed into a single `'_'`, and no leading
/// or trailing `'_'`.
pub open spec fn slug_spec(s: Seq<char>) -> Seq<char> {
    slug_rec(s, false, false)
}

/// Computes the slug of a name.
pub fn slug(s: &str) -> (r: String)
    ensures
        r@ == slug_spec(s@),
{
    let n = s.unicode_len();
    let mut r = String::new();
    let mut started = false;
    let mut pending = false;
    let mut i: usize = 0;
    proof {
        assert(s@.skip(0) =~= s@);
        assert(r@ + slug_rec(s@, false, false) =~= slug_rec(s@, false, false));
    }
    while i < n
        invariant
            n == s@.len(),
            0 <= i <= n,
            slug_spec(s@) == r@ + slug_rec(s@.skip(i as int), started, pending),
        decreases n - i,
    {
        let c = s.get_char(i);
        let u = c as u32;
        proof {
            assert(s@.skip(i as int).drop_first() =~= s@.skip(i as int + 1));
            assert(s@.skip(i as int)[0] == s@[i as int]);
        }
        if (48 <= u && u <= 57) || (65 <= u && u <= 90) || (97 <= u && u <= 122) {
            if started && pending {
                push_char(&mut r, '_');
            }
            let kept = if 65 <= u && u <= 90 {
                ((u + 32) as u8) as char
            } else {
                c
            };
            proof {
                assert(kept == lower_char(s@[i as int]));
            }
            push_char(&mut r, kept);
            started = true;
            pending = false;
        } else {
            pending = true;
        }
        i = i + 1;
    }
    proof {
        assert(s@.skip(n as int) =~= Seq::<char>::empty());
        assert(r@ + Seq::<char>::empty() =~= r@);
    }
    r
}

} // verus!
