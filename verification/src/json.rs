//! Byte-level scanner for the JSON subset used on the wire: objects with
//! string keys whose values are strings, unsigned decimal numbers (an optional
//! fraction is read and dropped), arrays of strings, and the literal words
//! `true`, `false`, `null`.  Inside strings the escapes `\"`, `\\`, `\/`,
//! `\n`, `\t`, `\r` are understood; every other byte stands for itself.
//!
//! Each scanner exists twice: a specification function over `Seq<u8>` that
//! defines the grammar, and an executable twin proved equal to it.

use vstd::prelude::*;

verus! {

pub open spec fn is_ws(b: u8) -> bool {
    b == 32 || b == 9 || b == 10 || b == 13
}

pub open spec fn is_digit(b: u8) -> bool {
    48 <= b && b <= 57
}

fn is_ws_exec(b: u8) -> (r: bool)
    ensures
        r == is_ws(b),
{
    b == 32 || b == 9 || b == 10 || b == 13
}

fn is_digit_exec(b: u8) -> (r: bool)
    ensures
        r == is_digit(b),
{
    48 <= b && b <= 57
}

/// Index of the first byte at or after `i` that is not whitespace.
pub open spec fn skip_ws(s: Seq<u8>, i: int) -> int
    decreases s.len() - i,
{
    if 0 <= i && i < s.len() && is_ws(s[i]) {
        skip_ws(s, i + 1)
    } else {
        i
    }
}

pub fn skip_ws_exec(s: &Vec<u8>, i: usize) -> (r: usize)
    requires
        i <= s@.len(),
    ensures
        r as int == skip_ws(s@, i as int),
        i <= r && r <= s@.len(),
    decreases s@.len() - i,
{
    if i < s.len() && is_ws_exec(s[i]) {
        skip_ws_exec(s, i + 1)
    } else {
        i
    }
}

/// Scan a string body from `i` (just after the opening quote), collecting the
/// decoded bytes onto `acc`; yields the decoded content and the index just
/// after the closing quote.
pub open spec fn parse_str_body(s: Seq<u8>, i: int, acc: Seq<u8>) -> Option<(Seq<u8>, int)>
    decreases s.len() - i,
{
    if i < 0 || i >= s.len() {
        None
    } else if s[i] == 34 {
        Some((acc, i + 1))
    } else if s[i] == 92 {
        if i + 1 < s.len() {
            let e = s[i + 1];
            if e == 34 || e == 92 || e == 47 {
                parse_str_body(s, i + 2, acc.push(e))
            } else if e == 110 {
                parse_str_body(s, i + 2, acc.push(10))
            } else if e == 116 {
                parse_str_body(s, i + 2, acc.push(9))
            } else if e == 114 {
                parse_str_body(s, i + 2, acc.push(13))
            } else {
                None
            }
        } else {
            None
        }
    } else {
        parse_str_body(s, i + 1, acc.push(s[i]))
    }
}

/// Scan a quoted string beginning at `i`; yields the decoded content and the
/// index just after the closing quote.
pub open spec fn parse_string(s: Seq<u8>, i: int) -> Option<(Seq<u8>, int)> {
    if 0 <= i && i < s.len() && s[i] == 34 {
        parse_str_body(s, i + 1, Seq::empty())
    } else {
        None
    }
}

fn parse_str_body_exec(s: &Vec<u8>, i: usize, acc: Vec<u8>) -> (r: Option<(Vec<u8>, usize)>)
    requires
        i <= s@.len(),
    ensures
        (match r {
            Some(p) => parse_str_body(s@, i as int, acc@) == Some((p.0@, p.1 as int)) && i < p.1
                && p.1 <= s@.len(),
            None => parse_str_body(s@, i as int, acc@) is None,
        }),
    decreases s@.len() - i,
{
    if i >= s.len() {
        None
    } else {
        let b = s[i];
        if b == 34 {
            Some((acc, i + 1))
        } else if b == 92 {
            if i + 1 < s.len() {
                let e = s[i + 1];
                let mut acc2 = acc;
                if e == 34 || e == 92 || e == 47 {
                    acc2.push(e);
                    parse_str_body_exec(s, i + 2, acc2)
                } else if e == 110 {
                    acc2.push(10);
                    parse_str_body_exec(s, i + 2, acc2)
                } else if e == 116 {
                    acc2.push(9);
                    parse_str_body_exec(s, i + 2, acc2)
                } else if e == 114 {
                    acc2.push(13);
                    parse_str_body_exec(s, i + 2, acc2)
                } else {
                    None
                }
            } else {
                None
            }
        } else {
            let mut acc2 = acc;
            acc2.push(b);
            parse_str_body_exec(s, i + 1, acc2)
        }
    }
}

pub fn parse_string_exec(s: &Vec<u8>, i: usize) -> (r: Option<(Vec<u8>, usize)>)
    requires
        i <= s@.len(),
    ensures
        (match r {
            Some(p) => parse_string(s@, i as int) == Some((p.0@, p.1 as int)) && i < p.1 && p.1
                <= s@.len(),
            None => parse_string(s@, i as int) is None,
        }),
{
    if i < s.len() && s[i] == 34 {
        parse_str_body_exec(s, i + 1, Vec::new())
    } else {
        None
    }
}

/// Index of the first byte at or after `i` that is not a decimal digit.
pub open spec fn digit_run_end(s: Seq<u8>, i: int) -> int
    decreases s.len() - i,
{
    if 0 <= i && i < s.len() && is_digit(s[i]) {
        digit_run_end(s, i + 1)
    } else {
        i
    }
}

pub fn digit_run_end_exec(s: &Vec<u8>, i: usize) -> (r: usize)
    requires
        i <= s@.len(),
    ensures
        r as int == digit_run_end(s@, i as int),
        i <= r && r <= s@.len(),
    decreases s@.len() - i,
{
    if i < s.len() && is_digit_exec(s[i]) {
        digit_run_end_exec(s, i + 1)
    } else {
        i
    }
}

pub open spec fn all_digits(s: Seq<u8>) -> bool {
    forall|k: int| 0 <= k && k < s.len() ==> is_digit(#[trigger] s[k])
}

/// Value of a run of decimal digits, most significant first.
pub open spec fn digits_val(s: Seq<u8>) -> int
    decreases s.len(),
{
    if s.len() == 0 {
        0
    } else {
        digits_val(s.drop_last()) * 10 + (s.last() - 48)
    }
}

pub proof fn lemma_digit_run(s: Seq<u8>, i: int)
    requires
        0 <= i && i <= s.len(),
    ensures
        i <= digit_run_end(s, i) && digit_run_end(s, i) <= s.len(),
        forall|k: int| i <= k && k < digit_run_end(s, i) ==> is_digit(#[trigger] s[k]),
        digit_run_end(s, i) == s.len() || !is_digit(s[digit_run_end(s, i)]),
    decreases s.len() - i,
{
    if i < s.len() && is_digit(s[i]) {
        lemma_digit_run(s, i + 1);
    }
}

pub proof fn lemma_digits_val_nonneg(s: Seq<u8>)
    requires
        all_digits(s),
    ensures
        digits_val(s) >= 0,
    decreases s.len(),
{
    if s.len() > 0 {
        assert(all_digits(s.drop_last())) by {
            assert(forall|k: int|
                0 <= k && k < s.drop_last().len() ==> s.drop_last()[k] == s[k]);
        }
        lemma_digits_val_nonneg(s.drop_last());
    }
}

/// A prefix of a digit run never exceeds the whole run in value.
pub proof fn lemma_digits_prefix_le(s: Seq<u8>, a: int)
    requires
        all_digits(s),
        0 <= a && a <= s.len(),
    ensures
        digits_val(s.take(a)) <= digits_val(s),
    decreases s.len() - a,
{
    if a < s.len() {
        lemma_digits_prefix_le(s, a + 1);
        let t = s.take(a + 1);
        assert(t.drop_last() =~= s.take(a));
        assert(all_digits(t)) by {
            assert(forall|k: int| 0 <= k && k < t.len() ==> t[k] == s[k]);
        }
        lemma_digits_val_nonneg(s.take(a));
        assert(digits_val(t) == digits_val(s.take(a)) * 10 + (t.last() - 48));
        assert(t.last() == s[a]);
        assert(digits_val(s.take(a)) <= digits_val(t));
    } else {
        assert(s.take(a) =~= s);
    }
}

/// A number: a non-empty digit run whose value fits in a `u64`, followed by
/// an optional fraction that is read and discarded.
pub open spec fn parse_number(s: Seq<u8>, i: int) -> Option<(u64, int)> {
    let j = digit_run_end(s, i);
    if j == i {
        None
    } else {
        let v = digits_val(s.subrange(i, j));
        if v > u64::MAX {
            None
        } else {
            let k = if j < s.len() && s[j] == 46 {
                let f = digit_run_end(s, j + 1);
                if f == j + 1 {
                    j
                } else {
                    f
                }
            } else {
                j
            };
            Some((v as u64, k))
        }
    }
}

pub fn parse_number_exec(s: &Vec<u8>, i: usize) -> (r: Option<(u64, usize)>)
    requires
        i <= s@.len(),
    ensures
        (match r {
            Some(p) => parse_number(s@, i as int) == Some((p.0, p.1 as int)) && i < p.1 && p.1
                <= s@.len(),
            None => parse_number(s@, i as int) is None,
        }),
{
    let j = digit_run_end_exec(s, i);
    proof {
        lemma_digit_run(s@, i as int);
    }
    if j == i {
        return None;
    }
    let ghost run = s@.subrange(i as int, j as int);
    proof {
        assert(all_digits(run));
    }
    let mut acc: u64 = 0;
    let mut k: usize = i;
    while k < j
        invariant
            i <= k && k <= j && j <= s@.len(),
            run == s@.subrange(i as int, j as int),
            all_digits(run),
            j == digit_run_end(s@, i as int),
            acc as int == digits_val(run.take(k - i)),
        decreases j - k,
    {
        let d = s[k];
        proof {
            assert(run[k - i] == s@[k as int]);
            assert(is_digit(run[k - i]));
            let t = run.take(k - i + 1);
            assert(t.drop_last() =~= run.take(k - i));
            assert(t.last() == s@[k as int]);
            assert(digits_val(t) == digits_val(run.take(k - i)) * 10 + (s@[k as int] - 48));
        }
        if acc > (u64::MAX - (d - 48) as u64) / 10 {
            proof {
                assert(acc as int * 10 + (d - 48) > u64::MAX) by {
                    let m: int = u64::MAX as int;
                    let e: int = (d - 48) as int;
                    assert(acc as int > (m - e) / 10);
                    assert(acc as int >= (m - e) / 10 + 1);
                    assert(((m - e) / 10 + 1) * 10 + e > m) by (nonlinear_arith)
                        requires
                            0 <= e <= 9,
                            0 <= m,
                    ;
                    assert(acc as int * 10 >= ((m - e) / 10 + 1) * 10) by (nonlinear_arith)
                        requires
                            acc as int >= (m - e) / 10 + 1,
                    ;
                }
                assert(digits_val(run.take(k - i + 1)) > u64::MAX);
                lemma_digits_prefix_le(run, k - i + 1);
                assert(digits_val(run) > u64::MAX);
                assert(run.take(run.len() as int) =~= run);
            }
            return None;
        }
        acc = acc * 10 + (d - 48) as u64;
        k = k + 1;
    }
    proof {
        assert(run.take(j - i) =~= run);
    }
    let mut end: usize = j;
    if j < s.len() && s[j] == 46 {
        let f = digit_run_end_exec(s, j + 1);
        if f != j + 1 {
            end = f;
        }
    }
    Some((acc, end))
}

/// Does the word `w` stand at index `i` of `s`?
pub open spec fn lit_at(s: Seq<u8>, i: int, w: Seq<u8>) -> bool {
    0 <= i && i + w.len() <= s.len() && s.subrange(i, i + w.len()) == w
}

pub fn lit_at_exec(s: &Vec<u8>, i: usize, w: &Vec<u8>) -> (r: bool)
    requires
        i <= s@.len(),
    ensures
        r == lit_at(s@, i as int, w@),
{
    if s.len() - i < w.len() {
        proof {
            assert(!lit_at(s@, i as int, w@));
        }
        return false;
    }
    let n = s.len();
    let mut k: usize = 0;
    while k < w.len()
        invariant
            n == s@.len(),
            i + w@.len() <= n,
            k <= w@.len(),
            forall|m: int| 0 <= m && m < k ==> s@[i + m] == w@[m],
        decreases w@.len() - k,
    {
        if s[i + k] != w[k] {
            proof {
                assert(s@.subrange(i as int, i + w@.len())[k as int] != w@[k as int]);
            }
            return false;
        }
        k = k + 1;
    }
    proof {
        assert(s@.subrange(i as int, i + w@.len()) =~= w@);
    }
    true
}

/// Equality of two byte vectors.
pub fn bytes_eq(a: &Vec<u8>, b: &Vec<u8>) -> (r: bool)
    ensures
        r == (a@ == b@),
{
    if a.len() != b.len() {
        proof {
            assert(a@.len() != b@.len());
        }
        return false;
    }
    let mut k: usize = 0;
    while k < a.len()
        invariant
            a@.len() == b@.len(),
            k <= a@.len(),
            forall|m: int| 0 <= m && m < k ==> a@[m] == b@[m],
        decreases a@.len() - k,
    {
        if a[k] != b[k] {
            return false;
        }
        k = k + 1;
    }
    proof {
        assert(a@ =~= b@);
    }
    true
}

/// Append a copy of `v` to `out`.
pub fn push_all(out: &mut Vec<u8>, v: &Vec<u8>)
    ensures
        final(out)@ == old(out)@ + v@,
{
    let mut k: usize = 0;
    while k < v.len()
        invariant
            k <= v@.len(),
            out@ == old(out)@ + v@.take(k as int),
        decreases v@.len() - k,
    {
        out.push(v[k]);
        proof {
            assert(old(out)@ + v@.take(k + 1) =~= (old(out)@ + v@.take(k as int)).push(
                v@[k as int],
            ));
        }
        k = k + 1;
    }
    proof {
        assert(v@.take(v@.len() as int) =~= v@);
    }
}

/// The escaped form of a string body: `"` and `\` get a leading backslash,
/// every other byte stands for itself.
pub open spec fn esc(s: Seq<u8>) -> Seq<u8>
    decreases s.len(),
{
    if s.len() == 0 {
        Seq::empty()
    } else {
        let b = s.first();
        let head: Seq<u8> = if b == 34 || b == 92 {
            seq![92u8, b]
        } else {
            seq![b]
        };
        head + esc(s.drop_first())
    }
}

pub proof fn lemma_esc_concat(a: Seq<u8>, b: Seq<u8>)
    ensures
        esc(a + b) == esc(a) + esc(b),
    decreases a.len(),
{
    if a.len() == 0 {
        assert(a + b =~= b);
        assert(esc(a) + esc(b) =~= esc(b));
    } else {
        lemma_esc_concat(a.drop_first(), b);
        assert((a + b).first() == a.first());
        assert((a + b).drop_first() =~= a.drop_first() + b);
        assert(esc(a + b) =~= esc(a) + esc(b));
    }
}

pub fn esc_exec(v: &Vec<u8>) -> (r: Vec<u8>)
    ensures
        r@ == esc(v@),
{
    let mut out: Vec<u8> = Vec::new();
    let mut k: usize = 0;
    while k < v.len()
        invariant
            k <= v@.len(),
            out@ == esc(v@.take(k as int)),
        decreases v@.len() - k,
    {
        let b = v[k];
        proof {
            let unit = seq![v@[k as int]];
            assert(v@.take(k + 1) =~= v@.take(k as int) + unit);
            lemma_esc_concat(v@.take(k as int), unit);
            assert(unit.drop_first() =~= Seq::<u8>::empty());
            assert(esc(unit.drop_first()) =~= Seq::<u8>::empty());
            assert(unit.first() == b);
            assert(esc(unit) =~= (if b == 34 || b == 92 {
                seq![92u8, b]
            } else {
                seq![b]
            }));
        }
        if b == 34 || b == 92 {
            out.push(92);
            out.push(b);
        } else {
            out.push(b);
        }
        proof {
            assert(out@ =~= esc(v@.take(k + 1)));
        }
        k = k + 1;
    }
    proof {
        assert(v@.take(v@.len() as int) =~= v@);
    }
    out
}

/// Decimal digits of `n`, most significant first.
pub open spec fn dec_of(n: nat) -> Seq<u8>
    decreases n,
{
    if n < 10 {
        seq![(48 + n) as u8]
    } else {
        dec_of(n / 10).push((48 + n % 10) as u8)
    }
}

pub fn dec_exec(n: u64) -> (r: Vec<u8>)
    ensures
        r@ == dec_of(n as nat),
    decreases n,
{
    if n < 10 {
        let d: u8 = 48 + (n as u8);
        let out: Vec<u8> = vec![d];
        proof {
            assert(out@ =~= dec_of(n as nat));
        }
        out
    } else {
        let mut out = dec_exec(n / 10);
        out.push(48 + ((n % 10) as u8));
        out
    }
}

pub proof fn lemma_dec_digits(n: nat)
    ensures
        dec_of(n).len() >= 1,
        all_digits(dec_of(n)),
    decreases n,
{
    if n >= 10 {
        lemma_dec_digits(n / 10);
        assert(forall|k: int|
            0 <= k && k < dec_of(n / 10).len() ==> dec_of(n)[k] == dec_of(n / 10)[k]);
    }
}

pub proof fn lemma_digits_val_dec(n: nat)
    ensures
        digits_val(dec_of(n)) == n,
    decreases n,
{
    if n < 10 {
        assert(dec_of(n) =~= seq![(48 + n) as u8]);
        assert(dec_of(n).drop_last() =~= Seq::<u8>::empty());
        assert(digits_val(Seq::<u8>::empty()) == 0);
        assert(dec_of(n).last() == (48 + n) as u8);
        assert((48 + n) as u8 == 48 + n);
        assert(digits_val(dec_of(n)) == digits_val(dec_of(n).drop_last()) * 10 + (dec_of(n).last()
            - 48));
    } else {
        lemma_digits_val_dec(n / 10);
        assert(dec_of(n).drop_last() =~= dec_of(n / 10));
        assert(dec_of(n).last() == (48 + n % 10) as u8);
        assert((48 + n % 10) as u8 == 48 + n % 10);
        assert(n == (n / 10) * 10 + n % 10) by (nonlinear_arith);
    }
}

/// Where a run of digits demonstrably ends.
pub proof fn lemma_digit_run_end_is(s: Seq<u8>, i: int, j: int)
    requires
        0 <= i && i <= j && j <= s.len(),
        forall|k: int| i <= k && k < j ==> is_digit(#[trigger] s[k]),
        j == s.len() || !is_digit(s[j]),
    ensures
        digit_run_end(s, i) == j,
    decreases j - i,
{
    if i < j {
        lemma_digit_run_end_is(s, i + 1, j);
    }
}

/// Scanning a string body that spells a plain word (nothing to unescape)
/// with the closing quote right after it yields the word itself.
pub proof fn lemma_parse_plain_word(s: Seq<u8>, i: int, w: Seq<u8>, acc: Seq<u8>)
    requires
        0 <= i,
        i + w.len() + 1 <= s.len(),
        forall|k: int| 0 <= k && k < w.len() ==> s[i + k] == #[trigger] w[k],
        forall|k: int| 0 <= k && k < w.len() ==> #[trigger] w[k] != 34 && w[k] != 92,
        s[i + w.len()] == 34,
    ensures
        parse_str_body(s, i, acc) == Some((acc + w, i + w.len() + 1)),
    decreases w.len(),
{
    if w.len() == 0 {
        assert(s[i] == 34);
        assert(acc + w =~= acc);
    } else {
        assert(s[i] == w[0]);
        assert(w[0] != 34 && w[0] != 92);
        let w2 = w.drop_first();
        assert forall|k: int| 0 <= k && k < w2.len() implies s[(i + 1) + k] == #[trigger] w2[k] by {
            assert(w2[k] == w[k + 1]);
            assert(s[i + (k + 1)] == w[k + 1]);
        }
        assert forall|k: int| 0 <= k && k < w2.len() implies #[trigger] w2[k] != 34 && w2[k] != 92
            by {
            assert(w2[k] == w[k + 1]);
        }
        assert(s[(i + 1) + w2.len()] == 34);
        lemma_parse_plain_word(s, i + 1, w2, acc.push(w[0]));
        assert(acc.push(w[0]) + w2 =~= acc + w);
        assert(parse_str_body(s, i, acc) == parse_str_body(s, i + 1, acc.push(s[i])));
    }
}

/// Scanning a string body that spells the escaped form of `v`, with the
/// closing quote right after it, decodes back to `v` itself.
pub proof fn lemma_parse_escaped(s: Seq<u8>, i: int, v: Seq<u8>, acc: Seq<u8>)
    requires
        0 <= i,
        i + esc(v).len() + 1 <= s.len(),
        forall|k: int| 0 <= k && k < esc(v).len() ==> s[i + k] == #[trigger] esc(v)[k],
        s[i + esc(v).len()] == 34,
    ensures
        parse_str_body(s, i, acc) == Some((acc + v, i + esc(v).len() + 1)),
    decreases v.len(),
{
    if v.len() == 0 {
        assert(esc(v) =~= Seq::<u8>::empty());
        assert(s[i] == 34);
        assert(acc + v =~= acc);
    } else {
        let b = v.first();
        let v2 = v.drop_first();
        let head: Seq<u8> = if b == 34 || b == 92 {
            seq![92u8, b]
        } else {
            seq![b]
        };
        assert(esc(v) == head + esc(v2));
        let hl = head.len() as int;
        assert forall|k: int| 0 <= k && k < esc(v2).len() implies s[(i + hl) + k] == #[trigger] esc(
            v2,
        )[k] by {
            assert(esc(v)[hl + k] == esc(v2)[k]);
            assert(s[i + (hl + k)] == esc(v)[hl + k]);
        }
        assert(s[(i + hl) + esc(v2).len()] == 34);
        lemma_parse_escaped(s, i + hl, v2, acc.push(b));
        assert(acc.push(b) + v2 =~= acc + v);
        if b == 34 || b == 92 {
            assert(s[i] == esc(v)[0]);
            assert(esc(v)[0] == 92);
            assert(s[i + 1] == esc(v)[1]);
            assert(esc(v)[1] == b);
            assert(parse_str_body(s, i, acc) == parse_str_body(s, i + 2, acc.push(b)));
        } else {
            assert(s[i] == esc(v)[0]);
            assert(esc(v)[0] == b);
            assert(b != 34 && b != 92);
            assert(parse_str_body(s, i, acc) == parse_str_body(s, i + 1, acc.push(b)));
        }
    }
}

/// Scanning a number that spells the decimal digits of `n`, with no digit
/// and no dot right after, yields `n`.
pub proof fn lemma_parse_number_at(s: Seq<u8>, i: int, n: u64)
    requires
        0 <= i,
        i + dec_of(n as nat).len() <= s.len(),
        forall|k: int|
            0 <= k && k < dec_of(n as nat).len() ==> s[i + k] == #[trigger] dec_of(n as nat)[k],
        i + dec_of(n as nat).len() == s.len() || (!is_digit(s[i + dec_of(n as nat).len()]) && s[i
            + dec_of(n as nat).len()] != 46),
    ensures
        parse_number(s, i) == Some((n, i + dec_of(n as nat).len())),
{
    let d = dec_of(n as nat);
    lemma_dec_digits(n as nat);
    assert forall|k: int| i <= k && k < i + d.len() implies is_digit(#[trigger] s[k]) by {
        assert(s[k] == d[k - i]);
        assert(is_digit(d[k - i]));
    }
    lemma_digit_run_end_is(s, i, i + d.len());
    assert(s.subrange(i, i + d.len()) =~= d);
    lemma_digits_val_dec(n as nat);
}

/// Skip one value: a string, number, array of strings, `true`, `false` or
/// `null`; yields the index just after it.  Nested objects are not part of
/// this sub-format and are rejected.
pub open spec fn skip_value(s: Seq<u8>, i: int, fuel: nat) -> Option<int> {
    if i < 0 || i >= s.len() {
        None
    } else if s[i] == 34 {
        match parse_string(s, i) {
            Some(p) => Some(p.1),
            None => None,
        }
    } else if is_digit(s[i]) {
        match parse_number(s, i) {
            Some(p) => Some(p.1),
            None => None,
        }
    } else if s[i] == 91 {
        match parse_str_array(s, i + 1, Seq::empty(), fuel) {
            Some(p) => Some(p.1),
            None => None,
        }
    } else if s[i] == 116 {
        if lit_at(s, i, seq![116u8, 114u8, 117u8, 101u8]) {
            Some(i + 4)
        } else {
            None
        }
    } else if s[i] == 102 {
        if lit_at(s, i, seq![102u8, 97u8, 108u8, 115u8, 101u8]) {
            Some(i + 5)
        } else {
            None
        }
    } else if s[i] == 110 {
        if lit_at(s, i, seq![110u8, 117u8, 108u8, 108u8]) {
            Some(i + 4)
        } else {
            None
        }
    } else {
        None
    }
}

/// Elements of an array of strings, from `i` (just after the opening
/// bracket), collected onto `acc`; yields the elements and the index just
/// after the closing bracket.
pub open spec fn parse_str_array(s: Seq<u8>, i: int, acc: Seq<Seq<u8>>, fuel: nat) -> Option<
    (Seq<Seq<u8>>, int),
>
    decreases fuel,
{
    if fuel == 0 {
        None
    } else {
        let i1 = skip_ws(s, i);
        if i1 < s.len() && s[i1] == 93 {
            Some((acc, i1 + 1))
        } else {
            match parse_string(s, i1) {
                None => None,
                Some(p) => {
                    let i2 = skip_ws(s, p.1);
                    if i2 < s.len() && s[i2] == 44 {
                        parse_str_array(s, i2 + 1, acc.push(p.0), (fuel - 1) as nat)
                    } else if i2 < s.len() && s[i2] == 93 {
                        Some((acc.push(p.0), i2 + 1))
                    } else {
                        None
                    }
                },
            }
        }
    }
}

pub open spec fn seq_views(v: Seq<Vec<u8>>) -> Seq<Seq<u8>> {
    v.map_values(|x: Vec<u8>| x@)
}

fn parse_str_array_rec(s: &Vec<u8>, i: usize, acc: Vec<Vec<u8>>, fuel: usize) -> (r: Option<
    (Vec<Vec<u8>>, usize),
>)
    requires
        i <= s@.len(),
    ensures
        (match r {
            Some(p) => parse_str_array(s@, i as int, seq_views(acc@), fuel as nat) == Some(
                (seq_views(p.0@), p.1 as int),
            ) && p.1 <= s@.len(),
            None => parse_str_array(s@, i as int, seq_views(acc@), fuel as nat) is None,
        }),
    decreases fuel,
{
    if fuel == 0 {
        return None;
    }
    let i1 = skip_ws_exec(s, i);
    if i1 < s.len() && s[i1] == 93 {
        return Some((acc, i1 + 1));
    }
    match parse_string_exec(s, i1) {
        None => None,
        Some((v, j)) => {
            let i2 = skip_ws_exec(s, j);
            if i2 < s.len() && s[i2] == 44 {
                let mut acc2 = acc;
                acc2.push(v);
                proof {
                    assert(seq_views(acc2@) =~= seq_views(acc@).push(v@));
                }
                parse_str_array_rec(s, i2 + 1, acc2, fuel - 1)
            } else if i2 < s.len() && s[i2] == 93 {
                let mut acc2 = acc;
                acc2.push(v);
                proof {
                    assert(seq_views(acc2@) =~= seq_views(acc@).push(v@));
                }
                Some((acc2, i2 + 1))
            } else {
                None
            }
        },
    }
}

pub fn parse_str_array_exec(s: &Vec<u8>, i: usize, fuel: usize) -> (r: Option<
    (Vec<Vec<u8>>, usize),
>)
    requires
        i <= s@.len(),
    ensures
        (match r {
            Some(p) => parse_str_array(s@, i as int, Seq::empty(), fuel as nat) == Some(
                (seq_views(p.0@), p.1 as int),
            ) && p.1 <= s@.len(),
            None => parse_str_array(s@, i as int, Seq::empty(), fuel as nat) is None,
        }),
{
    let acc: Vec<Vec<u8>> = Vec::new();
    proof {
        assert(seq_views(acc@) =~= Seq::<Seq<u8>>::empty());
    }
    parse_str_array_rec(s, i, acc, fuel)
}

pub fn skip_value_exec(s: &Vec<u8>, i: usize, fuel: usize) -> (r: Option<usize>)
    requires
        i <= s@.len(),
    ensures
        (match r {
            Some(j) => skip_value(s@, i as int, fuel as nat) == Some(j as int) && j <= s@.len(),
            None => skip_value(s@, i as int, fuel as nat) is None,
        }),
{
    if i >= s.len() {
        return None;
    }
    let b = s[i];
    if b == 34 {
        match parse_string_exec(s, i) {
            Some((_, j)) => Some(j),
            None => None,
        }
    } else if is_digit_exec(b) {
        match parse_number_exec(s, i) {
            Some((_, j)) => Some(j),
            None => None,
        }
    } else if b == 91 {
        match parse_str_array_exec(s, i + 1, fuel) {
            Some((_, j)) => Some(j),
            None => None,
        }
    } else if b == 116 {
        let w: Vec<u8> = vec![116, 114, 117, 101];
        proof {
            assert(w@ =~= seq![116u8, 114u8, 117u8, 101u8]);
        }
        if lit_at_exec(s, i, &w) {
            Some(i + 4)
        } else {
            None
        }
    } else if b == 102 {
        let w: Vec<u8> = vec![102, 97, 108, 115, 101];
        proof {
            assert(w@ =~= seq![102u8, 97u8, 108u8, 115u8, 101u8]);
        }
        if lit_at_exec(s, i, &w) {
            Some(i + 5)
        } else {
            None
        }
    } else if b == 110 {
        let w: Vec<u8> = vec![110, 117, 108, 108];
        proof {
            assert(w@ =~= seq![110u8, 117u8, 108u8, 108u8]);
        }
        if lit_at_exec(s, i, &w) {
            Some(i + 4)
        } else {
            None
        }
    } else {
        None
    }
}

} // verus!
