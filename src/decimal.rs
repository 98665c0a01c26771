//! Decimal text of integers: reading and writing.
use vstd::prelude::*;

verus! {

pub open spec fn is_digit(c: char) -> bool {
    '0' <= c && c <= '9'
}

pub open spec fn digit_value(c: char) -> int {
    (c as u32) as int - ('0' as u32) as int
}

pub open spec fn all_digits(s: Seq<char>) -> bool {
    forall|i: int| 0 <= i < s.len() ==> is_digit(#[trigger] s[i])
}

/// The number that a sequence of decimal digits denotes.
pub open spec fn digits_value(s: Seq<char>) -> int
    decreases s.len(),
{
    if s.len() == 0 {
        0
    } else {
        digits_value(s.drop_last()) * 10 + digit_value(s.last())
    }
}

/// The integer written by `s`: an optional sign (`-` or `+`) followed by
/// at least one digit.
pub open spec fn decimal_value(s: Seq<char>) -> Option<int> {
    if s.len() > 1 && s[0] == '-' && all_digits(s.drop_first()) {
        Some(-digits_value(s.drop_first()))
    } else if s.len() > 1 && s[0] == '+' && all_digits(s.drop_first()) {
        Some(digits_value(s.drop_first()))
    } else if s.len() > 0 && all_digits(s) {
        Some(digits_value(s))
    } else {
        None
    }
}

/// `decimal_value(s)` when it is an `i64`.
pub open spec fn decimal_i64(s: Seq<char>) -> Option<i64> {
    match decimal_value(s) {
        Some(v) => if i64::MIN <= v <= i64::MAX {
            Some(v as i64)
        } else {
            None
        },
        None => None,
    }
}

pub open spec fn digit_char(d: int) -> char {
    if d == 0 {
        '0'
    } else if d == 1 {
        '1'
    } else if d == 2 {
        '2'
    } else if d == 3 {
        '3'
    } else if d == 4 {
        '4'
    } else if d == 5 {
        '5'
    } else if d == 6 {
        '6'
    } else if d == 7 {
        '7'
    } else if d == 8 {
        '8'
    } else {
        '9'
    }
}

/// The decimal digits of a natural number, without leading zeros.
pub open spec fn digits_of(m: nat) -> Seq<char>
    decreases m,
{
    if m < 10 {
        seq![digit_char(m as int)]
    } else {
        digits_of(m / 10).push(digit_char((m % 10) as int))
    }
}

/// The decimal text of an integer.
pub open spec fn decimal_of(n: int) -> Seq<char> {
    if n < 0 {
        seq!['-'] + digits_of((-n) as nat)
    } else {
        digits_of(n as nat)
    }
}

proof fn lemma_digits_prefix_le(s: Seq<char>, k: int)
    requires
        all_digits(s),
        0 <= k <= s.len(),
    ensures
        0 <= digits_value(s.take(k)) <= digits_value(s),
    decreases s.len() - k,
{
    if k < s.len() {
        lemma_digits_prefix_le(s, k + 1);
        assert(s.take(k + 1).drop_last() =~= s.take(k));
        assert(is_digit(s[k]));
    } else {
        assert(s.take(k) =~= s);
        lemma_digits_nonneg(s);
    }
}

proof fn lemma_digits_nonneg(s: Seq<char>)
    requires
        all_digits(s),
    ensures
        digits_value(s) >= 0,
    decreases s.len(),
{
    if s.len() > 0 {
        assert(all_digits(s.drop_last())) by {
            assert forall|i: int| 0 <= i < s.drop_last().len() implies is_digit(
                #[trigger] s.drop_last()[i],
            ) by {
                assert(is_digit(s[i]));
            }
        }
        lemma_digits_nonneg(s.drop_last());
        assert(is_digit(s[s.len() - 1]));
    }
}

proof fn lemma_digit_char(d: int)
    requires
        0 <= d < 10,
    ensures
        is_digit(digit_char(d)),
        digit_value(digit_char(d)) == d,
{
}

/// Reading back the digits of a natural number gives the number.
pub proof fn lemma_digits_round_trip(m: nat)
    ensures
        all_digits(digits_of(m)),
        digits_of(m).len() > 0,
        digits_value(digits_of(m)) == m,
    decreases m,
{
    if m < 10 {
        lemma_digit_char(m as int);
        assert(digits_of(m).drop_last() =~= Seq::<char>::empty());
        assert(digits_value(Seq::<char>::empty()) == 0);
        assert(digits_value(digits_of(m)) == digits_value(digits_of(m).drop_last()) * 10
            + digit_value(digits_of(m).last()));
    } else {
        lemma_digits_round_trip(m / 10);
        lemma_digit_char((m % 10) as int);
        assert(digits_of(m).drop_last() =~= digits_of(m / 10));
        assert(digits_of(m).last() == digit_char((m % 10) as int));
        assert((m / 10) * 10 + m % 10 == m);
        assert(digits_value(digits_of(m)) == digits_value(digits_of(m).drop_last()) * 10
            + digit_value(digits_of(m).last()));
        assert forall|i: int| 0 <= i < digits_of(m).len() implies is_digit(
            #[trigger] digits_of(m)[i],
        ) by {
            if i < digits_of(m / 10).len() {
                assert(digits_of(m)[i] == digits_of(m / 10)[i]);
            }
        }
    }
}

/// Reading back the decimal text of an integer gives the integer.
pub proof fn lemma_decimal_round_trip(n: i64)
    ensures
        decimal_i64(decimal_of(n as int)) == Some(n),
{
    if n < 0 {
        let m = (-(n as int)) as nat;
        lemma_digits_round_trip(m);
        let s = decimal_of(n as int);
        assert(s.drop_first() =~= digits_of(m));
    } else {
        lemma_digits_round_trip(n as nat);
        let s = decimal_of(n as int);
        assert(s[0] != '-' && s[0] != '+') by {
            assert(is_digit(s[0]));
        }
    }
}

fn digit_of_char(c: char) -> (r: Option<u32>)
    ensures
        is_digit(c) ==> r == Some(digit_value(c) as u32),
        !is_digit(c) ==> r is None,
{
    if '0' <= c && c <= '9' {
        Some((c as u32) - ('0' as u32))
    } else {
        None
    }
}

/// Reads the integer written in decimal by `s` (an optional sign and digits);
/// `None` when `s` is not such a text or its value does not fit in an `i64`.
pub fn parse_i64(s: &str) -> (r: Option<i64>)
    ensures
        r == decimal_i64(s@),
{
    let n = s.unicode_len();
    if n == 0 {
        return None;
    }
    let c0 = s.get_char(0);
    let negative = c0 == '-';
    let signed = negative || c0 == '+';
    let start: usize = if signed { 1 } else { 0 };
    if signed && n == 1 {
        return None;
    }
    let ghost body = s@.subrange(start as int, n as int);
    let limit: i128 = 0x8000_0000_0000_0000;
    let mut acc: i128 = 0;
    let mut i: usize = start;
    while i < n
        invariant
            n == s@.len(),
            start <= i <= n,
            limit == 0x8000_0000_0000_0000,
            negative == (s@[0] == '-'),
            signed ==> start == 1 && (s@[0] == '-' || s@[0] == '+'),
            !signed ==> start == 0 && s@[0] != '-' && s@[0] != '+',
            n > start,
            body == s@.subrange(start as int, n as int),
            all_digits(s@.subrange(start as int, i as int)),
            0 <= acc <= limit,
            acc == digits_value(s@.subrange(start as int, i as int)),
        decreases n - i,
    {
        let c = s.get_char(i);
        let d = match digit_of_char(c) {
            Some(d) => d,
            None => {
                assert(!all_digits(body)) by {
                    assert(body[i - start] == c);
                }
                assert(decimal_value(s@) is None) by {
                    if signed {
                        assert(s@.drop_first() =~= body);
                    } else {
                        assert(s@ =~= body);
                    }
                }
                return None;
            },
        };
        proof {
            let p = s@.subrange(start as int, i as int + 1);
            assert(p.drop_last() =~= s@.subrange(start as int, i as int));
            assert(all_digits(p)) by {
                assert forall|j: int| 0 <= j < p.len() implies is_digit(#[trigger] p[j]) by {
                    if j < p.len() - 1 {
                        assert(p[j] == s@.subrange(start as int, i as int)[j]);
                    }
                }
            }
        }
        let next = acc * 10 + d as i128;
        if next > limit {
            proof {
                let p = s@.subrange(start as int, i as int + 1);
                assert(p =~= body.take(i - start + 1));
                if all_digits(body) {
                    lemma_digits_prefix_le(body, i - start + 1);
                }
                if signed {
                    assert(s@.drop_first() =~= body);
                } else {
                    assert(s@ =~= body);
                }
            }
            return None;
        }
        acc = next;
        i = i + 1;
    }
    let ghost digits = s@.subrange(start as int, n as int);
    if negative {
        assert(s@.drop_first() =~= digits);
        Some((-acc) as i64)
    } else {
        if signed {
            assert(s@.drop_first() =~= digits);
        } else {
            assert(s@ =~= digits);
        }
        if acc > 0x7fff_ffff_ffff_ffff {
            None
        } else {
            Some(acc as i64)
        }
    }
}

fn digit_text(d: u64) -> (r: &'static str)
    requires
        d < 10,
    ensures
        r@ == seq![digit_char(d as int)],
{
    proof {
        reveal_strlit("0");
        reveal_strlit("1");
        reveal_strlit("2");
        reveal_strlit("3");
        reveal_strlit("4");
        reveal_strlit("5");
        reveal_strlit("6");
        reveal_strlit("7");
        reveal_strlit("8");
        reveal_strlit("9");
    }
    let r = match d {
        0 => "0",
        1 => "1",
        2 => "2",
        3 => "3",
        4 => "4",
        5 => "5",
        6 => "6",
        7 => "7",
        8 => "8",
        _ => "9",
    };
    assert(r@ =~= seq![digit_char(d as int)]);
    r
}

/// The decimal text of `n`.
pub fn format_i64(n: i64) -> (r: String)
    ensures
        r@ == decimal_of(n as int),
{
    let m: u64 = if n < 0 {
        (-(n as i128)) as u64
    } else {
        n as u64
    };
    let mut cur: u64 = m;
    let mut low: Vec<u64> = Vec::new();
    let ghost tail: Seq<char> = Seq::empty();
    while cur >= 10
        invariant
            digits_of(m as nat) == digits_of(cur as nat) + tail,
            tail.len() == low@.len(),
            forall|j: int|
                0 <= j < low@.len() ==> #[trigger] low@[j] < 10 && tail[j] == digit_char(
                    low@[j] as int,
                ),
        decreases cur,
    {
        let ghost old_cur = cur;
        let ghost old_low = low@;
        low.insert(0, cur % 10);
        proof {
            let d = digit_char((old_cur % 10) as int);
            assert(digits_of(old_cur as nat) == digits_of((old_cur / 10) as nat).push(d));
            assert(digits_of((old_cur / 10) as nat).push(d) + tail =~= digits_of(
                (old_cur / 10) as nat,
            ) + (seq![d] + tail));
            let old_tail = tail;
            tail = seq![d] + tail;
            assert forall|j: int| 0 <= j < low@.len() implies #[trigger] low@[j] < 10 && tail[j]
                == digit_char(low@[j] as int) by {
                if j > 0 {
                    assert(low@[j] == old_low[j - 1]);
                    assert(tail[j] == old_tail[j - 1]);
                }
            }
        }
        cur = cur / 10;
    }
    let ghost old_low = low@;
    low.insert(0, cur);
    proof {
        let old_tail = tail;
        tail = seq![digit_char(cur as int)] + tail;
        assert forall|j: int| 0 <= j < low@.len() implies #[trigger] low@[j] < 10 && tail[j]
            == digit_char(low@[j] as int) by {
            if j > 0 {
                assert(low@[j] == old_low[j - 1]);
                assert(tail[j] == old_tail[j - 1]);
            }
        }
        assert(digits_of(m as nat) =~= tail);
    }
    let mut r = if n < 0 {
        proof {
            reveal_strlit("-");
        }
        String::from_str("-")
    } else {
        String::new()
    };
    let ghost prefix = r@;
    let mut i: usize = 0;
    while i < low.len()
        invariant
            tail.len() == low@.len(),
            forall|j: int|
                0 <= j < low@.len() ==> #[trigger] low@[j] < 10 && tail[j] == digit_char(
                    low@[j] as int,
                ),
            i <= low@.len(),
            r@ == prefix + tail.take(i as int),
        decreases low.len() - i,
    {
        r.append(digit_text(low[i]));
        assert(tail.take(i as int + 1) =~= tail.take(i as int).push(tail[i as int]));
        i = i + 1;
    }
    assert(tail.take(low@.len() as int) =~= tail);
    proof {
        if n < 0 {
            assert(prefix =~= seq!['-']);
            assert(m as int == -(n as int));
        } else {
            assert(prefix =~= Seq::<char>::empty());
        }
    }
    r
}

} // verus!
