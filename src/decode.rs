//! Reading canonical text back: literals, JSON strings and numbers, each
//! at a position in a sequence of characters.
use vstd::prelude::*;

use crate::bindings::push_char;
use crate::canonical::{amount_text, decimal, escape_char, escaped, hex_digit, quoted, signed_decimal};
use crate::transaction::{optional_text, text_option, transaction_text, Transaction, TransactionView};

verus! {

/// The value of a lowercase hexadecimal digit, or -1.
pub open spec fn hex_value(c: char) -> int {
    if c == '0' {
        0
    } else if c == '1' {
        1
    } else if c == '2' {
        2
    } else if c == '3' {
        3
    } else if c == '4' {
        4
    } else if c == '5' {
        5
    } else if c == '6' {
        6
    } else if c == '7' {
        7
    } else if c == '8' {
        8
    } else if c == '9' {
        9
    } else if c == 'a' {
        10
    } else if c == 'b' {
        11
    } else if c == 'c' {
        12
    } else if c == 'd' {
        13
    } else if c == 'e' {
        14
    } else if c == 'f' {
        15
    } else {
        -1
    }
}

/// `cs` holds `piece` from position `pos` on.
pub open spec fn holds_at(cs: Seq<char>, pos: int, piece: Seq<char>) -> bool {
    0 <= pos && pos + piece.len() <= cs.len() && cs.subrange(pos, pos + piece.len()) == piece
}

/// The character that a canonical escape unit starting at `p` stands for,
/// and the position after the unit.
pub open spec fn unit_at(cs: Seq<char>, p: int) -> Option<(char, int)> {
    if p < 0 || p >= cs.len() {
        None
    } else if cs[p] != '\\' {
        if escape_char(cs[p]) == seq![cs[p]] {
            Some((cs[p], p + 1))
        } else {
            None
        }
    } else if p + 1 >= cs.len() {
        None
    } else {
        let x = cs[p + 1];
        if x == '"' {
            Some(('"', p + 2))
        } else if x == '\\' {
            Some(('\\', p + 2))
        } else if x == 'b' {
            Some(('\u{8}', p + 2))
        } else if x == 'f' {
            Some(('\u{c}', p + 2))
        } else if x == 'n' {
            Some(('\n', p + 2))
        } else if x == 'r' {
            Some(('\r', p + 2))
        } else if x == 't' {
            Some(('\t', p + 2))
        } else if x == 'u' && cs.len() - p > 5 && cs[p + 2] == '0' && cs[p + 3] == '0' && 0
            <= hex_value(cs[p + 4]) <= 1 && 0 <= hex_value(cs[p + 5]) {
            let c = ((16 * hex_value(cs[p + 4]) + hex_value(cs[p + 5])) as u8) as char;
            if escape_char(c).len() == 6 {
                Some((c, p + 6))
            } else {
                None
            }
        } else {
            None
        }
    }
}

pub(crate) proof fn lemma_hex_value(d: int)
    requires
        0 <= d < 16,
    ensures
        hex_value(hex_digit(d)) == d,
{
}

/// A canonical escape unit decodes to the character it stands for.
proof fn lemma_unit_of_escape(cs: Seq<char>, p: int, c: char)
    requires
        holds_at(cs, p, escape_char(c)),
    ensures
        unit_at(cs, p) == Some((c, p + escape_char(c).len())),
{
    let e = escape_char(c);
    assert(cs[p] == e[0]);
    if e.len() >= 2 {
        assert(cs[p + 1] == e[1]);
    }
    if e.len() == 6 {
        let v = c as u32;
        assert(cs[p + 2] == e[2] && cs[p + 3] == e[3] && cs[p + 4] == e[4] && cs[p + 5] == e[5]);
        lemma_hex_value(v as int / 16);
        lemma_hex_value(v as int % 16);
        assert(((16 * (v as int / 16) + v as int % 16) as u8) as char == c);
    }
}

/// A canonical escape unit is the escape of the character it stands for.
proof fn lemma_escape_of_unit(cs: Seq<char>, p: int)
    requires
        unit_at(cs, p) is Some,
    ensures
        ({
            let (c, q) = unit_at(cs, p)->0;
            holds_at(cs, p, escape_char(c)) && q == p + escape_char(c).len()
        }),
{
    let (c, q) = unit_at(cs, p)->0;
    let e = escape_char(c);
    if cs[p] != '\\' {
        assert(cs.subrange(p, q) =~= e);
    } else if cs[p + 1] == 'u' {
        let hi = hex_value(cs[p + 4]);
        let lo = hex_value(cs[p + 5]);
        assert((c as u32) == 16 * hi + lo);
        assert(hex_digit(hi) == cs[p + 4]);
        assert(hex_digit(lo) == cs[p + 5]);
        assert(cs.subrange(p, q) =~= e);
    } else {
        assert(cs.subrange(p, q) =~= e);
    }
}

/// Escaping distributes over a split of the text.
proof fn lemma_escaped_split(s: Seq<char>, k: int)
    requires
        0 <= k <= s.len(),
    ensures
        escaped(s) == escaped(s.take(k)) + escaped(s.skip(k)),
    decreases s.len(),
{
    if k == s.len() {
        assert(s.take(k) =~= s);
        assert(s.skip(k) =~= Seq::<char>::empty());
        assert(escaped(s.skip(k)) =~= Seq::<char>::empty());
        assert(escaped(s) =~= escaped(s.take(k)) + escaped(s.skip(k)));
    } else {
        lemma_escaped_split(s.drop_last(), k);
        assert(s.drop_last().take(k) =~= s.take(k));
        assert(s.skip(k).drop_last() =~= s.drop_last().skip(k));
        assert(s.skip(k).last() == s.last());
        assert(escaped(s) =~= escaped(s.take(k)) + escaped(s.skip(k)));
    }
}

/// Where the canonical string literal of `s` starts at `pos` and the
/// escapes of `s.take(k)` have been read up to `p`, what follows is the
/// escape of `s[k]`, or the closing quote once `k` reaches the end.
proof fn lemma_next_unit(cs: Seq<char>, pos: int, s: Seq<char>, k: int, p: int)
    requires
        holds_at(cs, pos, quoted(s)),
        0 <= k <= s.len(),
        p == pos + 1 + escaped(s.take(k)).len(),
    ensures
        k < s.len() ==> holds_at(cs, p, escape_char(s[k])),
        k == s.len() ==> p < cs.len() && cs[p] == '"',
{
    let q = quoted(s);
    assert(cs.subrange(pos, pos + q.len()) == q);
    lemma_escaped_split(s, k);
    let rest = escaped(s.skip(k));
    assert(q =~= seq!['"'] + escaped(s.take(k)) + rest + seq!['"']);
    if k < s.len() {
        let tail = s.skip(k);
        lemma_escaped_split(tail, 1);
        let one = tail.take(1);
        assert(one =~= seq![s[k]]);
        assert(one.drop_last() =~= Seq::<char>::empty());
        assert(escaped(one.drop_last()) =~= Seq::<char>::empty());
        assert(escaped(one) =~= escape_char(s[k]));
        let e = escape_char(s[k]);
        assert forall|j: int| 0 <= j < e.len() implies cs[p + j] == e[j] by {
            assert(cs[p + j] == q[p + j - pos]);
            assert(q[p + j - pos] == rest[j]);
        }
        assert(cs.subrange(p, p + e.len()) =~= e);
    } else {
        assert(cs[p] == q[p - pos]);
    }
}

/// A decimal digit.
pub open spec fn is_digit(c: char) -> bool {
    0 <= hex_value(c) <= 9
}

/// The value of a run of decimal digits.
pub open spec fn digits_value(ds: Seq<char>) -> int
    decreases ds.len(),
{
    if ds.len() == 0 {
        0
    } else {
        digits_value(ds.drop_last()) * 10 + hex_value(ds.last())
    }
}

/// Ten to the power `k`.
pub open spec fn pow10(k: nat) -> nat
    decreases k,
{
    if k == 0 {
        1
    } else {
        10 * pow10((k - 1) as nat)
    }
}

/// Nothing but a non-digit (or the end) follows position `p`.
pub open spec fn digits_end_at(cs: Seq<char>, p: int) -> bool {
    p == cs.len() || (p < cs.len() && !is_digit(cs[p]))
}

/// `cs` holds the decimal digits of `n` at `pos`, and no further digit.
pub open spec fn decimal_at(cs: Seq<char>, pos: int, n: nat) -> bool {
    holds_at(cs, pos, decimal(n)) && digits_end_at(cs, pos + decimal(n).len())
}

/// The digits of `n` are decimal digits worth `n`.
pub proof fn lemma_decimal_digits(n: nat)
    ensures
        decimal(n).len() >= 1,
        forall|i: int| 0 <= i < decimal(n).len() ==> #[trigger] is_digit(decimal(n)[i]),
        digits_value(decimal(n)) == n,
    decreases n,
{
    if n < 10 {
        lemma_hex_value(n as int);
        assert(decimal(n).drop_last() =~= Seq::<char>::empty());
        assert(digits_value(decimal(n).drop_last()) == 0);
        assert(decimal(n).last() == hex_digit(n as int));
    } else {
        lemma_decimal_digits(n / 10);
        lemma_hex_value((n % 10) as int);
        let d = decimal(n);
        assert(d.drop_last() =~= decimal(n / 10));
        assert(d.last() == hex_digit((n % 10) as int));
        assert((n / 10) * 10 + n % 10 == n) by (nonlinear_arith);
        assert forall|i: int| 0 <= i < d.len() implies #[trigger] is_digit(d[i]) by {
            if i < d.len() - 1 {
                assert(d[i] == decimal(n / 10)[i]);
            }
        }
    }
}

/// A number below `10^k` has at most `k` digits.
pub proof fn lemma_decimal_len(n: nat, k: nat)
    requires
        k >= 1,
        n < pow10(k),
    ensures
        decimal(n).len() <= k,
    decreases k,
{
    if n >= 10 {
        assert(k >= 2) by {
            if k == 1 {
                assert(pow10(1) == 10) by {
                    assert(pow10(0) == 1);
                }
            }
        }
        assert(n / 10 < pow10((k - 1) as nat)) by {
            assert(pow10(k) == 10 * pow10((k - 1) as nat));
        }
        lemma_decimal_len(n / 10, (k - 1) as nat);
    }
}

proof fn lemma_pow10_19()
    ensures
        pow10(19) == 10_000_000_000_000_000_000nat,
{
    reveal_with_fuel(pow10, 20);
}

/// Two canonical string literals that start at the same position are the
/// same literal.
proof fn lemma_quoted_unique_from(cs: Seq<char>, pos: int, a: Seq<char>, b: Seq<char>, k: int)
    requires
        holds_at(cs, pos, quoted(a)),
        holds_at(cs, pos, quoted(b)),
        0 <= k <= a.len(),
        k <= b.len(),
        a.take(k) == b.take(k),
    ensures
        a == b,
    decreases a.len() - k,
{
    let p = pos + 1 + escaped(a.take(k)).len();
    lemma_next_unit(cs, pos, a, k, p);
    lemma_next_unit(cs, pos, b, k, p);
    if k == a.len() {
        if k < b.len() {
            assert(escape_char(b[k])[0] != '"');
        }
        assert(a.take(k) =~= a);
        assert(b.take(k) =~= b);
    } else {
        if k == b.len() {
            assert(escape_char(a[k])[0] != '"');
        } else {
            lemma_unit_of_escape(cs, p, a[k]);
            lemma_unit_of_escape(cs, p, b[k]);
            assert(a.take(k + 1) =~= a.take(k).push(a[k]));
            assert(b.take(k + 1) =~= b.take(k).push(b[k]));
            lemma_quoted_unique_from(cs, pos, a, b, k + 1);
        }
    }
}

pub proof fn lemma_quoted_unique(cs: Seq<char>, pos: int, a: Seq<char>, b: Seq<char>)
    requires
        holds_at(cs, pos, quoted(a)),
        holds_at(cs, pos, quoted(b)),
    ensures
        a == b,
{
    assert(a.take(0) =~= b.take(0));
    lemma_quoted_unique_from(cs, pos, a, b, 0);
}

/// Two runs of decimal digits that start at the same position are the same
/// number.
pub proof fn lemma_decimal_unique(cs: Seq<char>, pos: int, n: nat, m: nat)
    requires
        decimal_at(cs, pos, n),
        decimal_at(cs, pos, m),
    ensures
        n == m,
{
    lemma_decimal_digits(n);
    lemma_decimal_digits(m);
    let ln = decimal(n).len() as int;
    let lm = decimal(m).len() as int;
    if ln < lm {
        assert(cs[pos + ln] == decimal(m)[ln]) by {
            assert(cs.subrange(pos, pos + lm)[ln] == cs[pos + ln]);
        }
    } else if lm < ln {
        assert(cs[pos + lm] == decimal(n)[lm]) by {
            assert(cs.subrange(pos, pos + ln)[lm] == cs[pos + lm]);
        }
    }
    assert(decimal(n) == decimal(m));
}

/// The characters of `s`.
pub fn text_chars(s: &str) -> (r: Vec<char>)
    ensures
        r@ == s@,
{
    let n = s.unicode_len();
    let mut r: Vec<char> = Vec::new();
    let mut i: usize = 0;
    while i < n
        invariant
            n == s@.len(),
            i <= n,
            r@ == s@.take(i as int),
        decreases n - i,
    {
        r.push(s.get_char(i));
        i = i + 1;
        assert(r@ =~= s@.take(i as int));
    }
    assert(s@.take(n as int) =~= s@);
    r
}

/// Whether two character sequences are equal.
pub fn same_chars(a: &[char], b: &[char]) -> (r: bool)
    ensures
        r == (a@ == b@),
{
    if a.len() != b.len() {
        return false;
    }
    let mut i: usize = 0;
    while i < a.len()
        invariant
            a@.len() == b@.len(),
            i <= a@.len(),
            a@.take(i as int) == b@.take(i as int),
        decreases a@.len() - i,
    {
        if a[i] != b[i] {
            return false;
        }
        i = i + 1;
        assert(a@.take(i as int) =~= a@.take(i - 1).push(a@[i - 1]));
        assert(b@.take(i as int) =~= b@.take(i - 1).push(b@[i - 1]));
    }
    assert(a@.take(a@.len() as int) =~= a@);
    assert(b@.take(b@.len() as int) =~= b@);
    true
}

/// The position after `lit`, where `cs` holds `lit` at `pos`.
pub fn expect_literal(cs: &[char], pos: usize, lit: &str) -> (r: Option<usize>)
    ensures
        holds_at(cs@, pos as int, lit@) ==> (r matches Some(e) && e == pos + lit@.len()),
        !holds_at(cs@, pos as int, lit@) ==> r is None,
{
    let n = lit.unicode_len();
    if pos > cs.len() || n > cs.len() - pos {
        return None;
    }
    let mut j: usize = 0;
    while j < n
        invariant
            n == lit@.len(),
            pos + n <= cs.len(),
            j <= n,
            cs@.subrange(pos as int, pos + j) == lit@.take(j as int),
        decreases n - j,
    {
        if cs[pos + j] != lit.get_char(j) {
            assert(cs@.subrange(pos as int, pos + n)[j as int] != lit@[j as int]);
            return None;
        }
        j = j + 1;
        assert(cs@.subrange(pos as int, pos + j) =~= lit@.take(j as int));
    }
    assert(lit@.take(n as int) =~= lit@);
    Some(pos + n)
}

fn hex_value_of(c: char) -> (r: u32)
    ensures
        hex_value(c) < 0 ==> r == 16,
        0 <= hex_value(c) ==> r == hex_value(c),
{
    if c == '0' {
        0
    } else if c == '1' {
        1
    } else if c == '2' {
        2
    } else if c == '3' {
        3
    } else if c == '4' {
        4
    } else if c == '5' {
        5
    } else if c == '6' {
        6
    } else if c == '7' {
        7
    } else if c == '8' {
        8
    } else if c == '9' {
        9
    } else if c == 'a' {
        10
    } else if c == 'b' {
        11
    } else if c == 'c' {
        12
    } else if c == 'd' {
        13
    } else if c == 'e' {
        14
    } else if c == 'f' {
        15
    } else {
        16
    }
}

fn is_plain(c: char) -> (r: bool)
    ensures
        r == (escape_char(c) == seq![c]),
{
    if c == '"' || c == '\\' || (c as u32) < 0x20 {
        assert(escape_char(c).len() != 1 || escape_char(c)[0] != c);
        false
    } else {
        true
    }
}

/// Reads one canonical escape unit at `p`.
fn read_unit(cs: &[char], p: usize) -> (r: Option<(char, usize)>)
    ensures
        match r {
            Some((c, q)) => unit_at(cs@, p as int) == Some((c, q as int)),
            None => unit_at(cs@, p as int) is None,
        },
{
    if p >= cs.len() {
        return None;
    }
    let c = cs[p];
    if c != '\\' {
        if is_plain(c) {
            return Some((c, p + 1));
        } else {
            return None;
        }
    }
    if p + 1 >= cs.len() {
        return None;
    }
    let x = cs[p + 1];
    if x == '"' {
        Some(('"', p + 2))
    } else if x == '\\' {
        Some(('\\', p + 2))
    } else if x == 'b' {
        Some(('\u{8}', p + 2))
    } else if x == 'f' {
        Some(('\u{c}', p + 2))
    } else if x == 'n' {
        Some(('\n', p + 2))
    } else if x == 'r' {
        Some(('\r', p + 2))
    } else if x == 't' {
        Some(('\t', p + 2))
    } else if x == 'u' && cs.len() - p > 5 && cs[p + 2] == '0' && cs[p + 3] == '0' {
        let hi = hex_value_of(cs[p + 4]);
        let lo = hex_value_of(cs[p + 5]);
        if hi <= 1 && lo < 16 {
            let c = ((16 * hi + lo) as u8) as char;
            if c != '\u{8}' && c != '\u{c}' && c != '\n' && c != '\r' && c != '\t' {
                Some((c, p + 6))
            } else {
                None
            }
        } else {
            None
        }
    } else {
        None
    }
}

fn is_digit_char(c: char) -> (r: bool)
    ensures
        r == is_digit(c),
{
    hex_value_of(c) <= 9
}

/// Reads the run of at most nineteen decimal digits at `pos`: its value and
/// the position after it.
pub fn parse_digits(cs: &[char], pos: usize) -> (r: Option<(u64, usize)>)
    ensures
        r matches Some((v, e)) ==> pos < e <= cs@.len() && v == digits_value(
            cs@.subrange(pos as int, e as int),
        ),
        forall|n: nat| #[trigger]
            decimal_at(cs@, pos as int, n) && decimal(n).len() <= 19 ==> (r matches Some((v, e))
                && v == n && e == pos + decimal(n).len()),
{
    let len = cs.len();
    if pos > len {
        proof {
            assert forall|n: nat| #[trigger] decimal_at(cs@, pos as int, n) && decimal(n).len() <= 19 implies false by {
                lemma_decimal_digits(n);
            }
        }
        return None;
    }
    let mut p: usize = pos;
    let mut acc: u64 = 0;
    proof {
        lemma_pow10_19();
        assert(cs@.subrange(pos as int, pos as int) =~= Seq::<char>::empty());
    }
    while p < len && is_digit_char(cs[p])
        invariant
            len == cs@.len(),
            pos <= p <= len,
            p - pos <= 19,
            pow10(19) == 10_000_000_000_000_000_000nat,
            acc == digits_value(cs@.subrange(pos as int, p as int)),
            acc < pow10((p - pos) as nat),
            forall|n: nat| #[trigger]
                decimal_at(cs@, pos as int, n) && decimal(n).len() <= 19 ==> p <= pos + decimal(
                    n,
                ).len(),
        decreases len - p,
    {
        proof {
            assert forall|n: nat| #[trigger] decimal_at(cs@, pos as int, n) && decimal(n).len() <= 19 implies p < pos + decimal(n).len() by {
                if p == pos + decimal(n).len() {
                    assert(!is_digit(cs@[p as int]));
                }
            }
        }
        if p - pos == 19 {
            return None;
        }
        let d = hex_value_of(cs[p]) as u64;
        proof {
            let k = (p - pos) as nat;
            assert(pow10(k + 1) == 10 * pow10(k));
            assert(pow10(k + 1) <= pow10(19)) by {
                let mut j = k + 1;
                assert(k + 1 <= 19);
                lemma_pow10_mono((k + 1) as nat, 19);
            }
            assert(acc * 10 + d < 10 * pow10(k)) by (nonlinear_arith)
                requires
                    acc < pow10(k),
                    d <= 9,
            ;
            let ds = cs@.subrange(pos as int, p + 1);
            assert(ds.drop_last() =~= cs@.subrange(pos as int, p as int));
        }
        acc = acc * 10 + d;
        p = p + 1;
    }
    if p == pos {
        proof {
            assert forall|n: nat| #[trigger] decimal_at(cs@, pos as int, n) && decimal(n).len() <= 19 implies false by {
                lemma_decimal_digits(n);
                assert(cs@[pos as int] == decimal(n)[0]);
            }
        }
        return None;
    }
    proof {
        assert forall|n: nat| #[trigger] decimal_at(cs@, pos as int, n) && decimal(n).len() <= 19 implies p == pos + decimal(n).len() && acc == n by {
            lemma_decimal_digits(n);
            let l = decimal(n).len() as int;
            if p < pos + l {
                assert(cs@[p as int] == decimal(n)[p - pos]);
            }
            assert(cs@.subrange(pos as int, p as int) =~= decimal(n));
        }
    }
    Some((acc, p))
}

/// `cs` holds `piece` at `pos`, and no digit follows it.
pub open spec fn number_at(cs: Seq<char>, pos: int, piece: Seq<char>) -> bool {
    holds_at(cs, pos, piece) && digits_end_at(cs, pos + piece.len())
}

pub(crate) proof fn lemma_holds_split(cs: Seq<char>, pos: int, a: Seq<char>, b: Seq<char>)
    requires
        holds_at(cs, pos, a + b),
    ensures
        holds_at(cs, pos, a),
        holds_at(cs, pos + a.len(), b),
{
    let whole = cs.subrange(pos, pos + a.len() + b.len());
    assert(whole == a + b);
    assert(cs.subrange(pos, pos + a.len()) =~= whole.subrange(0, a.len() as int));
    assert((a + b).subrange(0, a.len() as int) =~= a);
    assert(cs.subrange(pos + a.len(), pos + a.len() + b.len()) =~= whole.subrange(
        a.len() as int,
        (a.len() + b.len()) as int,
    ));
    assert((a + b).subrange(a.len() as int, (a.len() + b.len()) as int) =~= b);
}

proof fn lemma_amount_layout(cs: Seq<char>, pos: int, h: u64)
    requires
        number_at(cs, pos, amount_text(h as nat)),
    ensures
        ({
            let units = (h / 100) as nat;
            let frac = (h % 100) as int;
            let l = decimal(units).len() as int;
            &&& decimal_at(cs, pos, units)
            &&& decimal(units).len() <= 19
            &&& cs[pos + l] == '.'
            &&& pos + l + 1 < cs.len()
            &&& cs[pos + l + 1] == hex_digit(frac / 10)
            &&& is_digit(cs[pos + l + 1])
            &&& hex_value(cs[pos + l + 1]) == frac / 10
            &&& frac % 10 != 0 ==> pos + l + 2 < cs.len() && cs[pos + l + 2] == hex_digit(frac % 10)
                && is_digit(cs[pos + l + 2]) && hex_value(cs[pos + l + 2]) == frac % 10
                && amount_text(h as nat).len() == l + 3
            &&& frac % 10 == 0 ==> digits_end_at(cs, pos + l + 2) && amount_text(h as nat).len() == l
                + 2
            &&& h == units * 100 + (frac / 10) * 10 + frac % 10
        }),
{
    let units = (h / 100) as nat;
    let frac = (h % 100) as int;
    let tail = if frac % 10 == 0 {
        seq![hex_digit(frac / 10)]
    } else {
        seq![hex_digit(frac / 10), hex_digit(frac % 10)]
    };
    let t = amount_text(h as nat);
    assert(t == decimal(units) + seq!['.'] + tail);
    lemma_holds_split(cs, pos, decimal(units) + seq!['.'], tail);
    lemma_holds_split(cs, pos, decimal(units), seq!['.']);
    let l = decimal(units).len() as int;
    assert(cs[pos + l] == '.') by {
        assert(cs.subrange(pos + l, pos + l + 1)[0] == cs[pos + l]);
    }
    assert(units < pow10(18)) by {
        reveal_with_fuel(pow10, 19);
    }
    lemma_decimal_len(units, 18);
    assert(cs[pos + l + 1] == hex_digit(frac / 10)) by {
        assert(cs.subrange(pos + l + 1, pos + l + 1 + tail.len())[0] == cs[pos + l + 1]);
    }
    if frac % 10 != 0 {
        assert(cs[pos + l + 2] == hex_digit(frac % 10)) by {
            assert(cs.subrange(pos + l + 1, pos + l + 1 + tail.len())[1] == cs[pos + l + 2]);
        }
    }
    lemma_hex_value(frac / 10);
    lemma_hex_value(frac % 10);
    assert((h / 100) * 100 + h % 100 == h) by (nonlinear_arith);
    assert(frac == (frac / 10) * 10 + frac % 10) by (nonlinear_arith);
}

pub(crate) proof fn lemma_holds_join(cs: Seq<char>, pos: int, a: Seq<char>, b: Seq<char>)
    requires
        holds_at(cs, pos, a),
        holds_at(cs, pos + a.len(), b),
    ensures
        holds_at(cs, pos, a + b),
{
    assert forall|j: int| 0 <= j < a.len() + b.len() implies cs.subrange(pos, pos + a.len() + b.len())[j]
        == (a + b)[j] by {
        if j < a.len() {
            assert(cs.subrange(pos, pos + a.len())[j] == a[j]);
        } else {
            assert(cs.subrange(pos + a.len(), pos + a.len() + b.len())[j - a.len()] == b[j - a.len()]);
        }
    }
    assert(cs.subrange(pos, pos + a.len() + b.len()) =~= a + b);
}

/// Reads an amount in hundredths written as by [`amount_text`].
pub fn parse_amount(cs: &[char], pos: usize) -> (r: Option<(u64, usize)>)
    ensures
        forall|h: u64| #[trigger]
            number_at(cs@, pos as int, amount_text(h as nat)) ==> (r matches Some((v, e)) && v
                == h && e == pos + amount_text(h as nat).len()),
{
    let len = cs.len();
    let found = parse_digits(cs, pos);
    let mut r: Option<(u64, usize)> = None;
    if let Some((units_read, p)) = found {
        if p < len && cs[p] == '.' && p + 1 < len && is_digit_char(cs[p + 1]) {
            let tens = hex_value_of(cs[p + 1]) as u128;
            let (ones, end) = if p + 2 < len && is_digit_char(cs[p + 2]) {
                (hex_value_of(cs[p + 2]) as u128, p + 3)
            } else {
                (0u128, p + 2)
            };
            let total: u128 = (units_read as u128) * 100 + tens * 10 + ones;
            if total <= u64::MAX as u128 {
                r = Some((total as u64, end));
            }
        }
    }
    proof {
        assert forall|h: u64| #[trigger] number_at(cs@, pos as int, amount_text(h as nat)) implies (r matches Some((v, e)) && v == h && e == pos + amount_text(h as nat).len()) by {
            lemma_amount_layout(cs@, pos as int, h);
            let units = (h / 100) as nat;
            assert(decimal_at(cs@, pos as int, units));
        }
    }
    r
}

proof fn lemma_signed_layout(cs: Seq<char>, pos: int, i: i64)
    requires
        number_at(cs, pos, signed_decimal(i as int)),
    ensures
        ({
            let m: nat = if i < 0 { (-i) as nat } else { i as nat };
            &&& decimal(m).len() <= 19
            &&& i < 0 ==> cs[pos] == '-' && decimal_at(cs, pos + 1, m) && signed_decimal(i as int).len()
                == 1 + decimal(m).len()
            &&& i >= 0 ==> cs[pos] != '-' && decimal_at(cs, pos, m) && signed_decimal(i as int).len()
                == decimal(m).len()
        }),
{
    let m: nat = if i < 0 { (-i) as nat } else { i as nat };
    lemma_decimal_digits(m);
    assert(m < pow10(19)) by {
        lemma_pow10_19();
    }
    lemma_decimal_len(m, 19);
    if i < 0 {
        lemma_holds_split(cs, pos, seq!['-'], decimal(m));
        assert(cs[pos] == '-') by {
            assert(cs.subrange(pos, pos + 1)[0] == cs[pos]);
        }
    } else {
        assert(cs[pos] == decimal(m)[0]) by {
            assert(cs.subrange(pos, pos + decimal(m).len())[0] == cs[pos]);
        }
        assert(is_digit(decimal(m)[0]));
    }
}

/// Reads an integer written as by [`signed_decimal`].
pub fn parse_signed(cs: &[char], pos: usize) -> (r: Option<(i64, usize)>)
    ensures
        forall|i: i64| #[trigger]
            number_at(cs@, pos as int, signed_decimal(i as int)) ==> (r matches Some((v, e)) && v
                == i && e == pos + signed_decimal(i as int).len()),
{
    let mut r: Option<(i64, usize)> = None;
    if pos < cs.len() && cs[pos] == '-' {
        let found = parse_digits(cs, pos + 1);
        if let Some((magnitude, end)) = found {
            if magnitude == 0x8000_0000_0000_0000u64 {
                r = Some((i64::MIN, end));
            } else if magnitude < 0x8000_0000_0000_0000u64 {
                r = Some((-(magnitude as i64), end));
            }
        }
        proof {
            assert forall|i: i64| #[trigger] number_at(cs@, pos as int, signed_decimal(i as int)) implies (r matches Some((v, e)) && v == i && e == pos + signed_decimal(i as int).len()) by {
                lemma_signed_layout(cs@, pos as int, i);
                if i < 0 {
                    let m = (-i) as nat;
                    assert(decimal_at(cs@, pos + 1, m));
                }
            }
        }
    } else {
        let found = parse_digits(cs, pos);
        if let Some((magnitude, end)) = found {
            if magnitude <= i64::MAX as u64 {
                r = Some((magnitude as i64, end));
            }
        }
        proof {
            assert forall|i: i64| #[trigger] number_at(cs@, pos as int, signed_decimal(i as int)) implies (r matches Some((v, e)) && v == i && e == pos + signed_decimal(i as int).len()) by {
                lemma_signed_layout(cs@, pos as int, i);
                if i >= 0 {
                    assert(decimal_at(cs@, pos as int, i as nat));
                }
            }
        }
    }
    r
}

/// Reads `null` or a canonical JSON string literal.
pub fn parse_optional(cs: &[char], pos: usize) -> (r: Option<(Option<String>, usize)>)
    ensures
        forall|o: Option<Seq<char>>| #[trigger]
            holds_at(cs@, pos as int, optional_text(o)) ==> (r matches Some((v, e)) && text_option(v)
                == o && e == pos + optional_text(o).len()),
{
    proof {
        reveal_strlit("null");
    }
    if pos < cs.len() && cs[pos] == '"' {
        let r = match parse_quoted(cs, pos) {
            Some((v, e)) => Some((Some(v), e)),
            None => None,
        };
        proof {
            assert forall|o: Option<Seq<char>>| #[trigger] holds_at(cs@, pos as int, optional_text(o)) implies (r matches Some((v, e)) && text_option(v) == o && e == pos + optional_text(o).len()) by {
                if o is None {
                    assert(cs@[pos as int] == "null"@[0]) by {
                        assert(cs@.subrange(pos as int, pos + 4)[0] == cs@[pos as int]);
                    }
                } else {
                    assert(holds_at(cs@, pos as int, quoted(o->0)));
                }
            }
        }
        r
    } else {
        let r = match expect_literal(cs, pos, "null") {
            Some(e) => Some((None, e)),
            None => None,
        };
        proof {
            assert forall|o: Option<Seq<char>>| #[trigger] holds_at(cs@, pos as int, optional_text(o)) implies (r matches Some((v, e)) && text_option(v) == o && e == pos + optional_text(o).len()) by {
                if o is Some {
                    let q = quoted(o->0);
                    assert(cs@[pos as int] == q[0]) by {
                        assert(cs@.subrange(pos as int, pos + q.len())[0] == cs@[pos as int]);
                    }
                }
            }
        }
        r
    }
}

/// The pieces `ps` written one after another.
pub open spec fn concat_all(ps: Seq<Seq<char>>) -> Seq<char>
    decreases ps.len(),
{
    if ps.len() == 0 {
        seq![]
    } else {
        concat_all(ps.drop_last()) + ps.last()
    }
}

/// Where piece `k` starts when the pieces are written one after another.
pub open spec fn piece_offset(ps: Seq<Seq<char>>, k: int) -> int {
    concat_all(ps.take(k)).len() as int
}

/// Where `cs` holds the pieces one after another from `pos` on, each piece
/// stands at its offset.
proof fn lemma_pieces_hold(cs: Seq<char>, pos: int, ps: Seq<Seq<char>>)
    requires
        holds_at(cs, pos, concat_all(ps)),
    ensures
        forall|k: int|
            #![trigger ps[k]]
            0 <= k < ps.len() ==> holds_at(cs, pos + piece_offset(ps, k), ps[k]) && piece_offset(
                ps,
                k + 1,
            ) == piece_offset(ps, k) + ps[k].len(),
        concat_all(ps.take(ps.len() as int)).len() == concat_all(ps).len(),
    decreases ps.len(),
{
    assert(ps.take(ps.len() as int) =~= ps);
    if ps.len() > 0 {
        let init = ps.drop_last();
        lemma_holds_split(cs, pos, concat_all(init), ps.last());
        lemma_pieces_hold(cs, pos, init);
        assert forall|k: int| 0 <= k < ps.len() implies #[trigger] holds_at(
            cs,
            pos + piece_offset(ps, k),
            ps[k],
        ) by {
            if k < init.len() {
                assert(init[k] == ps[k]);
                assert(ps.take(k) =~= init.take(k));
                assert(init[k] == ps[k]);
            } else {
                assert(ps.take(k) =~= init);
            }
        }
        assert forall|k: int| 0 <= k < ps.len() implies #[trigger] piece_offset(ps, k + 1)
            == piece_offset(ps, k) + ps[k].len() by {
            assert(ps.take(k + 1).drop_last() =~= ps.take(k));
            assert(ps.take(k + 1).last() == ps[k]);
        }
    }
}

/// The canonical text of a transaction as its seventeen pieces.
pub open spec fn transaction_pieces(t: TransactionView) -> Seq<Seq<char>> {
    seq![
        "{\"id\":"@,
        quoted(t.id),
        ",\"sender_id\":"@,
        quoted(t.sender_id),
        ",\"recipient_id\":"@,
        quoted(t.recipient_id),
        ",\"amount\":"@,
        amount_text(t.amount as nat),
        ",\"timestamp\":"@,
        signed_decimal(t.timestamp as int),
        ",\"signature\":"@,
        optional_text(t.signature),
        ",\"prev_hash\":"@,
        optional_text(t.prev_hash),
        ",\"current_hash\":"@,
        optional_text(t.current_hash),
        "}"@,
    ]
}

proof fn lemma_text_is_pieces(t: TransactionView)
    ensures
        transaction_text(t) == concat_all(transaction_pieces(t)),
{
    let ps = transaction_pieces(t);
    reveal_with_fuel(concat_all, 18);
    assert(concat_all(ps) =~= transaction_text(t));
}

/// Where piece `k` of the canonical text of `t` starts.
pub open spec fn tx_offset(t: TransactionView, k: int) -> int {
    piece_offset(transaction_pieces(t), k)
}

proof fn lemma_first_char(cs: Seq<char>, pos: int, piece: Seq<char>)
    requires
        holds_at(cs, pos, piece),
        piece.len() > 0,
    ensures
        cs[pos] == piece[0],
{
    assert(cs.subrange(pos, pos + piece.len())[0] == cs[pos]);
}

/// Where the canonical text of `t` is `cs`, each piece stands at its offset.
#[verifier::rlimit(40)]
proof fn lemma_transaction_layout(cs: Seq<char>, t: TransactionView)
    requires
        transaction_text(t) == cs,
    ensures
        tx_offset(t, 0) == 0,
        holds_at(cs, tx_offset(t, 0), "{\"id\":"@),
        tx_offset(t, 1) == tx_offset(t, 0) + "{\"id\":"@.len(),
        holds_at(cs, tx_offset(t, 1), quoted(t.id)),
        tx_offset(t, 2) == tx_offset(t, 1) + quoted(t.id).len(),
        holds_at(cs, tx_offset(t, 2), ",\"sender_id\":"@),
        tx_offset(t, 3) == tx_offset(t, 2) + ",\"sender_id\":"@.len(),
        holds_at(cs, tx_offset(t, 3), quoted(t.sender_id)),
        tx_offset(t, 4) == tx_offset(t, 3) + quoted(t.sender_id).len(),
        holds_at(cs, tx_offset(t, 4), ",\"recipient_id\":"@),
        tx_offset(t, 5) == tx_offset(t, 4) + ",\"recipient_id\":"@.len(),
        holds_at(cs, tx_offset(t, 5), quoted(t.recipient_id)),
        tx_offset(t, 6) == tx_offset(t, 5) + quoted(t.recipient_id).len(),
        holds_at(cs, tx_offset(t, 6), ",\"amount\":"@),
        tx_offset(t, 7) == tx_offset(t, 6) + ",\"amount\":"@.len(),
        number_at(cs, tx_offset(t, 7), amount_text(t.amount as nat)),
        tx_offset(t, 8) == tx_offset(t, 7) + amount_text(t.amount as nat).len(),
        holds_at(cs, tx_offset(t, 8), ",\"timestamp\":"@),
        tx_offset(t, 9) == tx_offset(t, 8) + ",\"timestamp\":"@.len(),
        number_at(cs, tx_offset(t, 9), signed_decimal(t.timestamp as int)),
        tx_offset(t, 10) == tx_offset(t, 9) + signed_decimal(t.timestamp as int).len(),
        holds_at(cs, tx_offset(t, 10), ",\"signature\":"@),
        tx_offset(t, 11) == tx_offset(t, 10) + ",\"signature\":"@.len(),
        holds_at(cs, tx_offset(t, 11), optional_text(t.signature)),
        tx_offset(t, 12) == tx_offset(t, 11) + optional_text(t.signature).len(),
        holds_at(cs, tx_offset(t, 12), ",\"prev_hash\":"@),
        tx_offset(t, 13) == tx_offset(t, 12) + ",\"prev_hash\":"@.len(),
        holds_at(cs, tx_offset(t, 13), optional_text(t.prev_hash)),
        tx_offset(t, 14) == tx_offset(t, 13) + optional_text(t.prev_hash).len(),
        holds_at(cs, tx_offset(t, 14), ",\"current_hash\":"@),
        tx_offset(t, 15) == tx_offset(t, 14) + ",\"current_hash\":"@.len(),
        holds_at(cs, tx_offset(t, 15), optional_text(t.current_hash)),
        tx_offset(t, 16) == tx_offset(t, 15) + optional_text(t.current_hash).len(),
        holds_at(cs, tx_offset(t, 16), "}"@),
        tx_offset(t, 17) == tx_offset(t, 16) + "}"@.len(),
        tx_offset(t, 17) == cs.len(),
{
    let ps = transaction_pieces(t);
    lemma_text_is_pieces(t);
    assert(cs.subrange(0, cs.len() as int) =~= cs);
    lemma_pieces_hold(cs, 0, ps);
    assert(ps.take(0) =~= Seq::<Seq<char>>::empty());
    assert(ps[0] == ps[0] && ps[1] == ps[1] && ps[2] == ps[2] && ps[3] == ps[3] && ps[4] == ps[4]);
    assert(ps[5] == ps[5] && ps[6] == ps[6] && ps[7] == ps[7] && ps[8] == ps[8] && ps[9] == ps[9]);
    assert(ps[10] == ps[10] && ps[11] == ps[11] && ps[12] == ps[12] && ps[13] == ps[13]);
    assert(ps[14] == ps[14] && ps[15] == ps[15] && ps[16] == ps[16]);
    reveal_strlit(",\"timestamp\":");
    reveal_strlit(",\"signature\":");
    lemma_first_char(cs, tx_offset(t, 8), ps[8]);
    lemma_first_char(cs, tx_offset(t, 10), ps[10]);
}

proof fn lemma_amount_unique(cs: Seq<char>, pos: int, h1: u64, h2: u64)
    requires
        number_at(cs, pos, amount_text(h1 as nat)),
        number_at(cs, pos, amount_text(h2 as nat)),
    ensures
        h1 == h2,
{
    lemma_amount_layout(cs, pos, h1);
    lemma_amount_layout(cs, pos, h2);
    lemma_decimal_unique(cs, pos, (h1 / 100) as nat, (h2 / 100) as nat);
}

proof fn lemma_signed_unique(cs: Seq<char>, pos: int, i1: i64, i2: i64)
    requires
        number_at(cs, pos, signed_decimal(i1 as int)),
        number_at(cs, pos, signed_decimal(i2 as int)),
    ensures
        i1 == i2,
{
    lemma_signed_layout(cs, pos, i1);
    lemma_signed_layout(cs, pos, i2);
    if i1 < 0 {
        lemma_decimal_unique(cs, pos + 1, (-i1) as nat, (-i2) as nat);
    } else {
        lemma_decimal_unique(cs, pos, i1 as nat, i2 as nat);
    }
}

proof fn lemma_optional_unique(cs: Seq<char>, pos: int, o1: Option<Seq<char>>, o2: Option<Seq<char>>)
    requires
        holds_at(cs, pos, optional_text(o1)),
        holds_at(cs, pos, optional_text(o2)),
    ensures
        o1 == o2,
{
    reveal_strlit("null");
    if o1 is Some && o2 is Some {
        lemma_quoted_unique(cs, pos, o1->0, o2->0);
    } else if o1 is Some || o2 is Some {
        lemma_first_char(cs, pos, optional_text(o1));
        lemma_first_char(cs, pos, optional_text(o2));
    }
}

/// Different transactions have different canonical texts.
pub proof fn lemma_transaction_text_injective(a: TransactionView, b: TransactionView)
    requires
        transaction_text(a) == transaction_text(b),
    ensures
        a == b,
{
    let cs = transaction_text(a);
    lemma_transaction_layout(cs, a);
    lemma_transaction_layout(cs, b);
    lemma_quoted_unique(cs, tx_offset(a, 1), a.id, b.id);
    lemma_quoted_unique(cs, tx_offset(a, 3), a.sender_id, b.sender_id);
    lemma_quoted_unique(cs, tx_offset(a, 5), a.recipient_id, b.recipient_id);
    lemma_amount_unique(cs, tx_offset(a, 7), a.amount, b.amount);
    lemma_signed_unique(cs, tx_offset(a, 9), a.timestamp, b.timestamp);
    lemma_optional_unique(cs, tx_offset(a, 11), a.signature, b.signature);
    lemma_optional_unique(cs, tx_offset(a, 13), a.prev_hash, b.prev_hash);
    lemma_optional_unique(cs, tx_offset(a, 15), a.current_hash, b.current_hash);
}

/// Reads a transaction from its canonical text. Every canonical text of a
/// transaction is read back to a transaction with that text.
#[verifier::rlimit(100)]
#[verifier::spinoff_prover]
pub fn parse_transaction(cs: &[char]) -> (r: Option<Transaction>)
    ensures
        (exists|t: TransactionView| transaction_text(t) == cs@) ==> (r matches Some(x)
            && transaction_text(x@) == cs@),
{
    let ghost canonical = exists|t: TransactionView| transaction_text(t) == cs@;
    let ghost t = choose|t: TransactionView| transaction_text(t) == cs@;
    proof {
        if canonical {
            lemma_transaction_layout(cs@, t);
        }
    }
    let p = expect_literal(cs, 0, "{\"id\":")?;
    proof {
        if canonical {
            assert(p == tx_offset(t, 1));
        }
    }
    let (id, p) = parse_quoted(cs, p)?;
    proof {
        if canonical {
            assert(id@ == t.id && p == tx_offset(t, 2));
        }
    }
    let p = expect_literal(cs, p, ",\"sender_id\":")?;
    proof {
        if canonical {
            assert(p == tx_offset(t, 3));
        }
    }
    let (sender_id, p) = parse_quoted(cs, p)?;
    proof {
        if canonical {
            assert(sender_id@ == t.sender_id && p == tx_offset(t, 4));
        }
    }
    let p = expect_literal(cs, p, ",\"recipient_id\":")?;
    proof {
        if canonical {
            assert(p == tx_offset(t, 5));
        }
    }
    let (recipient_id, p) = parse_quoted(cs, p)?;
    proof {
        if canonical {
            assert(recipient_id@ == t.recipient_id && p == tx_offset(t, 6));
        }
    }
    let p = expect_literal(cs, p, ",\"amount\":")?;
    proof {
        if canonical {
            assert(p == tx_offset(t, 7));
        }
    }
    let (amount, p) = parse_amount(cs, p)?;
    proof {
        if canonical {
            assert(amount == t.amount && p == tx_offset(t, 8));
        }
    }
    let p = expect_literal(cs, p, ",\"timestamp\":")?;
    proof {
        if canonical {
            assert(p == tx_offset(t, 9));
        }
    }
    let (timestamp, p) = parse_signed(cs, p)?;
    proof {
        if canonical {
            assert(timestamp == t.timestamp && p == tx_offset(t, 10));
        }
    }
    let p = expect_literal(cs, p, ",\"signature\":")?;
    proof {
        if canonical {
            assert(p == tx_offset(t, 11));
        }
    }
    let (signature, p) = parse_optional(cs, p)?;
    proof {
        if canonical {
            assert(text_option(signature) == t.signature && p == tx_offset(t, 12));
        }
    }
    let p = expect_literal(cs, p, ",\"prev_hash\":")?;
    proof {
        if canonical {
            assert(p == tx_offset(t, 13));
        }
    }
    let (prev_hash, p) = parse_optional(cs, p)?;
    proof {
        if canonical {
            assert(text_option(prev_hash) == t.prev_hash && p == tx_offset(t, 14));
        }
    }
    let p = expect_literal(cs, p, ",\"current_hash\":")?;
    proof {
        if canonical {
            assert(p == tx_offset(t, 15));
        }
    }
    let (current_hash, p) = parse_optional(cs, p)?;
    proof {
        if canonical {
            assert(text_option(current_hash) == t.current_hash && p == tx_offset(t, 16));
        }
    }
    let p = expect_literal(cs, p, "}")?;
    if p != cs.len() {
        return None;
    }
    let x = Transaction {
        id,
        sender_id,
        recipient_id,
        amount,
        timestamp,
        signature,
        prev_hash,
        current_hash,
    };
    proof {
        if canonical {
            assert(x@ == t);
        }
    }
    Some(x)
}

proof fn lemma_pow10_mono(a: nat, b: nat)
    requires
        a <= b,
    ensures
        pow10(a) <= pow10(b),
    decreases b,
{
    if a < b {
        lemma_pow10_mono(a, (b - 1) as nat);
    }
}

/// Reads the canonical JSON string literal at `pos`: its text and the
/// position after its closing quote.
pub fn parse_quoted(cs: &[char], pos: usize) -> (r: Option<(String, usize)>)
    ensures
        r matches Some((v, e)) ==> holds_at(cs@, pos as int, quoted(v@)) && e == pos
            + quoted(v@).len(),
        forall|s: Seq<char>| #[trigger]
            holds_at(cs@, pos as int, quoted(s)) ==> (r matches Some((v, e)) && v@ == s),
{
    if pos >= cs.len() || cs[pos] != '"' {
        proof {
            assert forall|s: Seq<char>| #[trigger] holds_at(cs@, pos as int, quoted(s)) implies false by {
                assert(cs@[pos as int] == quoted(s)[0]);
            }
        }
        return None;
    }
    let mut out = String::new();
    let mut p: usize = pos + 1;
    let n = cs.len();
    while p < n
        invariant
            n == cs@.len(),
            pos < p <= n,
            cs@[pos as int] == '"',
            cs@.subrange(pos + 1, p as int) == escaped(out@),
            forall|s: Seq<char>| #[trigger]
                holds_at(cs@, pos as int, quoted(s)) ==> out@.len() <= s.len() && out@ == s.take(
                    out@.len() as int,
                ),
        decreases n - p,
    {
        if cs[p] == '"' {
            proof {
                assert(cs@.subrange(pos as int, p + 1) =~= seq!['"'] + escaped(out@) + seq!['"']);
                assert forall|s: Seq<char>| #[trigger] holds_at(cs@, pos as int, quoted(s)) implies out@ == s by {
                    let k = out@.len() as int;
                    lemma_next_unit(cs@, pos as int, s, k, p as int);
                    if k < s.len() {
                        let e = escape_char(s[k]);
                        assert(cs@[p as int] == e[0]);
                    } else {
                        assert(s.take(k) =~= s);
                    }
                }
            }
            return Some((out, p + 1));
        }
        match read_unit(cs, p) {
            None => {
                proof {
                    assert forall|s: Seq<char>| #[trigger] holds_at(cs@, pos as int, quoted(s)) implies false by {
                        let k = out@.len() as int;
                        lemma_next_unit(cs@, pos as int, s, k, p as int);
                        if k < s.len() {
                            lemma_unit_of_escape(cs@, p as int, s[k]);
                        }
                    }
                }
                return None;
            },
            Some((c, q)) => {
                proof {
                    lemma_escape_of_unit(cs@, p as int);
                    assert(cs@.subrange(pos + 1, q as int) =~= escaped(out@) + escape_char(c));
                    assert forall|s: Seq<char>| #[trigger] holds_at(cs@, pos as int, quoted(s)) implies out@.len() + 1 <= s.len() && out@.push(c) == s.take(out@.len() + 1int) by {
                        let k = out@.len() as int;
                        lemma_next_unit(cs@, pos as int, s, k, p as int);
                        if k < s.len() {
                            lemma_unit_of_escape(cs@, p as int, s[k]);
                            assert(s.take(k + 1) =~= s.take(k).push(s[k]));
                        }
                    }
                }
                let ghost before = out@;
                push_char(&mut out, c);
                proof {
                    assert(out@.drop_last() =~= before);
                }
                p = q;
            },
        }
    }
    proof {
        assert forall|s: Seq<char>| #[trigger] holds_at(cs@, pos as int, quoted(s)) implies false by {
            let k = out@.len() as int;
            lemma_next_unit(cs@, pos as int, s, k, p as int);
            if k < s.len() {
                lemma_unit_of_escape(cs@, p as int, s[k]);
            }
        }
    }
    None
}

} // verus!
