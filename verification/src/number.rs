//! Decimal numerals: digits, values, and the exact decimal form of a
//! number as a `Quantity`.

use crate::json::{Quantity, EXP10_BOUND, MANTISSA_BOUND};
use crate::text::{find_char, find_char_from, lemma_find_char};
use vstd::prelude::*;

verus! {

/// Whether `c` is an ASCII decimal digit.
pub open spec fn is_digit(c: char) -> bool {
    '0' as u32 <= c as u32 <= '9' as u32
}

/// The value of the digit `c`.
pub open spec fn digit_val(c: char) -> int {
    c as u32 - '0' as u32
}

/// Every character of `s` is a decimal digit.
pub open spec fn all_digits(s: Seq<char>) -> bool {
    forall|i: int| 0 <= i < s.len() ==> is_digit(#[trigger] s[i])
}

/// The value of the decimal numeral `s`.
pub open spec fn dec_val(s: Seq<char>) -> int
    decreases s.len(),
{
    if s.len() == 0 {
        0
    } else {
        dec_val(s.drop_last()) * 10 + digit_val(s.last())
    }
}

/// A numeral is worth no less than any of its prefixes.
pub proof fn lemma_dec_val_monotone(s: Seq<char>, k: int)
    requires
        all_digits(s),
        0 <= k <= s.len(),
    ensures
        0 <= dec_val(s.take(k)) <= dec_val(s),
    decreases s.len() - k,
{
    if k == s.len() {
        assert(s.take(k) =~= s);
        lemma_dec_val_nonneg(s);
    } else {
        lemma_dec_val_monotone(s, k + 1);
        let t = s.take(k + 1);
        assert(t.drop_last() =~= s.take(k));
        assert(t.last() == s[k]);
        lemma_dec_val_nonneg(s.take(k));
    }
}

/// A numeral of digits is non-negative.
pub proof fn lemma_dec_val_nonneg(s: Seq<char>)
    requires
        all_digits(s),
    ensures
        dec_val(s) >= 0,
    decreases s.len(),
{
    if s.len() > 0 {
        assert(all_digits(s.drop_last()));
        lemma_dec_val_nonneg(s.drop_last());
    }
}

/// Largest value the exponent numeral itself may carry.
pub const EXP_NUMERAL_BOUND: u128 = 1_000_000_000;

/// The exact decimal quantity a numeral in scientific form denotes: an
/// optional minus sign, an integer part, an optional fraction after a
/// point, and an optional exponent part after a lower-case `e` with its
/// own optional minus sign. The numeral is rejected when its mantissa
/// digits exceed the well-formed range, when the exponent numeral exceeds
/// `EXP_NUMERAL_BOUND`, or when the effective exponent leaves the
/// well-formed range.
pub open spec fn parse_quantity_spec(s: Seq<char>) -> Option<Quantity> {
    let neg = s.len() > 0 && s[0] == '-';
    let t = if neg {
        s.drop_first()
    } else {
        s
    };
    let me = find_char(t, 'e');
    let mant = t.take(me);
    let has_exp = me < t.len();
    let expt = if has_exp {
        t.skip(me + 1)
    } else {
        Seq::empty()
    };
    let md = find_char(mant, '.');
    let ip = mant.take(md);
    let has_frac = md < mant.len();
    let fp = if has_frac {
        mant.skip(md + 1)
    } else {
        Seq::empty()
    };
    let eneg = expt.len() > 0 && expt[0] == '-';
    let ed = if eneg {
        expt.drop_first()
    } else {
        expt
    };
    if ip.len() == 0 || !all_digits(ip) {
        None
    } else if has_frac && (fp.len() == 0 || !all_digits(fp)) {
        None
    } else if has_exp && (ed.len() == 0 || !all_digits(ed)) {
        None
    } else {
        let mantissa = dec_val(ip + fp);
        let mag = dec_val(ed);
        let e = (if eneg {
            -mag
        } else {
            mag
        }) - fp.len();
        if mantissa <= MANTISSA_BOUND && mag <= EXP_NUMERAL_BOUND && -EXP10_BOUND <= e
            <= EXP10_BOUND {
            Some(Quantity { neg, mantissa: mantissa as u128, exp10: e as i32 })
        } else {
            None
        }
    }
}

/// Extend the decimal value `acc` of the digits `prefix` by the window
/// `[lo, hi)` of `s`, rejecting a non-digit or a value beyond `cap`.
fn dec_extend(
    s: &str,
    lo: usize,
    hi: usize,
    acc: u128,
    Ghost(prefix): Ghost<Seq<char>>,
    cap: u128,
) -> (r: Option<u128>)
    requires
        lo <= hi <= s@.len(),
        cap <= 0xffff_ffff_ffff_ffff,
        all_digits(prefix),
        acc == dec_val(prefix),
        acc <= cap,
    ensures
        ({
            let w = prefix + s@.subrange(lo as int, hi as int);
            match r {
                Some(v) => all_digits(w) && v == dec_val(w) && v <= cap,
                None => !all_digits(w) || dec_val(w) > cap,
            }
        }),
{
    let ghost w = prefix + s@.subrange(lo as int, hi as int);
    let ghost plen = prefix.len();
    proof {
        assert(w.take(plen as int) =~= prefix);
    }
    let mut v = acc;
    let mut j = lo;
    while j < hi
        invariant
            lo <= j <= hi <= s@.len(),
            cap <= 0xffff_ffff_ffff_ffff,
            w == prefix + s@.subrange(lo as int, hi as int),
            plen == prefix.len(),
            w.len() == plen + hi - lo,
            v <= cap,
            all_digits(w.take(plen + j - lo)),
            v == dec_val(w.take(plen + j - lo)),
        decreases hi - j,
    {
        let c = s.get_char(j);
        let cu = c as u32;
        proof {
            assert(w[plen + j - lo] == c);
        }
        if cu < 48 || cu > 57 {
            proof {
                assert(!is_digit(w[plen + j - lo]));
                assert(!all_digits(w));
            }
            return None;
        }
        let d = (cu - 48) as u128;
        proof {
            assert(w.take(plen + j - lo + 1).drop_last() =~= w.take(plen + j - lo));
            assert(w.take(plen + j - lo + 1).last() == w[plen + j - lo]);
            assert(is_digit(w[plen + j - lo]));
        }
        v = v * 10 + d;
        j += 1;
        if v > cap {
            proof {
                if all_digits(w) {
                    lemma_dec_val_monotone(w, plen + j - lo);
                }
            }
            return None;
        }
    }
    proof {
        assert(w.take(plen + hi - lo) =~= w);
    }
    Some(v)
}

/// Parse a decimal numeral in scientific form into the exact quantity it
/// denotes.
#[verifier::rlimit(100)]
pub fn parse_quantity(text: &str) -> (r: Option<Quantity>)
    ensures
        r == parse_quantity_spec(text@),
{
    let n = text.unicode_len();
    let neg = n > 0 && text.get_char(0) == '-';
    let start: usize = if neg {
        1
    } else {
        0
    };
    let ghost t = text@.skip(start as int);
    proof {
        if neg {
            assert(t =~= text@.drop_first());
        } else {
            assert(t =~= text@);
        }
    }

    // The exponent marker.
    let me_abs = find_char_from(text, start, 'e');
    let has_exp = me_abs < n;
    proof {
        lemma_find_char(t, 'e');
        if has_exp {
            assert(t[me_abs - start] == 'e');
            assert(forall|j: int| 0 <= j < me_abs - start ==> t[j] != 'e');
            assert(find_char(t, 'e') == me_abs - start);
        } else {
            assert(forall|j: int| 0 <= j < t.len() ==> t[j] != 'e');
            assert(find_char(t, 'e') == t.len());
        }
    }
    let ghost mant = t.take(me_abs - start);
    proof {
        assert(mant =~= text@.subrange(start as int, me_abs as int));
    }

    // The decimal point, within the mantissa part.
    let md_abs0 = find_char_from(text, start, '.');
    let md_abs = if md_abs0 < me_abs {
        md_abs0
    } else {
        me_abs
    };
    let has_frac = md_abs < me_abs;
    proof {
        lemma_find_char(mant, '.');
        if has_frac {
            assert(mant[md_abs - start] == '.');
            assert(forall|j: int| 0 <= j < md_abs - start ==> mant[j] != '.');
            assert(find_char(mant, '.') == md_abs - start);
        } else {
            assert(forall|j: int| 0 <= j < mant.len() ==> mant[j] != '.');
            assert(find_char(mant, '.') == mant.len());
        }
    }
    let ghost ip = mant.take(find_char(mant, '.'));
    let ghost fp = if has_frac {
        mant.skip(find_char(mant, '.') + 1)
    } else {
        Seq::<char>::empty()
    };
    proof {
        assert(ip =~= text@.subrange(start as int, md_abs as int));
        if has_frac {
            assert(fp =~= text@.subrange(md_abs + 1, me_abs as int));
        }
    }

    // The integer digits.
    if md_abs == start {
        return None;
    }
    let m1 = match dec_extend(text, start, md_abs, 0, Ghost(Seq::<char>::empty()), MANTISSA_BOUND) {
        Some(v) => v,
        None => {
            proof {
                assert(Seq::<char>::empty() + ip =~= ip);
                if all_digits(ip) && all_digits(fp) {
                    assert(dec_val(ip) > MANTISSA_BOUND);
                    assert(all_digits(ip + fp));
                    lemma_dec_val_monotone(ip + fp, ip.len() as int);
                    assert((ip + fp).take(ip.len() as int) =~= ip);
                }
            }
            return None;
        },
    };
    proof {
        assert(Seq::<char>::empty() + ip =~= ip);
    }

    // The fraction digits.
    let (mantissa, frac_len): (u128, usize) = if has_frac {
        if md_abs + 1 == me_abs {
            return None;
        }
        match dec_extend(text, md_abs + 1, me_abs, m1, Ghost(ip), MANTISSA_BOUND) {
            Some(v) => (v, me_abs - (md_abs + 1)),
            None => {
                return None;
            },
        }
    } else {
        proof {
            assert(ip + fp =~= ip);
        }
        (m1, 0)
    };
    proof {
        assert(all_digits(ip + fp));
        assert(mantissa == dec_val(ip + fp));
        assert(frac_len == fp.len());
    }

    // The exponent digits.
    let ghost expt = if has_exp {
        t.skip(me_abs - start + 1)
    } else {
        Seq::<char>::empty()
    };
    proof {
        if has_exp {
            assert(expt =~= text@.subrange(me_abs + 1, n as int));
        }
    }
    let mut mag: u128 = 0;
    let mut eneg = false;
    if has_exp {
        let mut ei = me_abs + 1;
        if ei < n && text.get_char(ei) == '-' {
            eneg = true;
            ei += 1;
        }
        let ghost ed = if eneg {
            expt.drop_first()
        } else {
            expt
        };
        proof {
            assert(ed =~= text@.subrange(ei as int, n as int));
        }
        if ei == n {
            return None;
        }
        match dec_extend(text, ei, n, 0, Ghost(Seq::<char>::empty()), EXP_NUMERAL_BOUND) {
            Some(v) => {
                mag = v;
                proof {
                    assert(Seq::<char>::empty() + ed =~= ed);
                }
            },
            None => {
                proof {
                    assert(Seq::<char>::empty() + ed =~= ed);
                }
                return None;
            },
        }
    }

    // The effective exponent.
    let e: i128 = (if eneg {
        -(mag as i128)
    } else {
        mag as i128
    }) - (frac_len as i128);
    if e < -(EXP10_BOUND as i128) || e > EXP10_BOUND as i128 {
        return None;
    }
    proof {
        // Walk the specification's decomposition and match each piece.
        let sneg = text@.len() > 0 && text@[0] == '-';
        assert(sneg == neg);
        let st = if sneg {
            text@.drop_first()
        } else {
            text@
        };
        assert(st == t);
        let sme = find_char(st, 'e');
        let smant = st.take(sme);
        assert(smant == mant);
        let shas_exp = sme < st.len();
        assert(shas_exp == has_exp);
        let sexpt = if shas_exp {
            st.skip(sme + 1)
        } else {
            Seq::<char>::empty()
        };
        assert(sexpt == expt);
        let smd = find_char(smant, '.');
        let sip = smant.take(smd);
        assert(sip == ip);
        let shas_frac = smd < smant.len();
        assert(shas_frac == has_frac);
        let sfp = if shas_frac {
            smant.skip(smd + 1)
        } else {
            Seq::<char>::empty()
        };
        assert(sfp == fp);
        if has_exp && expt.len() > 0 {
            assert(expt[0] == text@[me_abs + 1]);
        }
        let seneg = sexpt.len() > 0 && sexpt[0] == '-';
        assert(seneg == eneg);
        let sed = if seneg {
            sexpt.drop_first()
        } else {
            sexpt
        };
        assert(all_digits(sed));
        assert(dec_val(sed) == mag);
        assert(dec_val(sip + sfp) == mantissa);
        assert forall|j: int| 0 <= j < sfp.len() implies is_digit(#[trigger] sfp[j]) by {
            assert((sip + sfp)[sip.len() + j] == sfp[j]);
        }
        assert(all_digits(sfp));
        if has_frac {
            assert(sfp.len() > 0);
        }
        if has_exp {
            assert(sed.len() > 0);
        }
        let se = (if seneg {
            -dec_val(sed)
        } else {
            dec_val(sed)
        }) - sfp.len();
        assert(se == e as int);
        assert(sip.len() > 0 && all_digits(sip));
        assert(dec_val(sip + sfp) <= MANTISSA_BOUND);
        assert(dec_val(sed) <= EXP_NUMERAL_BOUND);
        assert(-EXP10_BOUND <= se <= EXP10_BOUND);
        assert(parse_quantity_spec(text@) == Some(
            Quantity { neg, mantissa, exp10: e as i32 },
        ));
    }
    Some(Quantity { neg, mantissa, exp10: e as i32 })
}

} // verus!
