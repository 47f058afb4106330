use vstd::prelude::*;
use vstd::string::StrSliceExecFns;

verus! {

/// True of an ASCII decimal digit.
pub open spec fn is_digit(c: char) -> bool {
    '0' <= c && c <= '9'
}

/// The value of a decimal digit.
pub open spec fn digit_val(c: char) -> nat {
    ((c as u32) - 48) as nat
}

/// True where every character is a decimal digit.
pub open spec fn all_digits(s: Seq<char>) -> bool {
    forall|i: int| 0 <= i < s.len() ==> #[trigger] is_digit(s[i])
}

/// The number that a string of digits writes in base ten.
pub open spec fn digits_value(s: Seq<char>) -> nat
    decreases s.len(),
{
    if s.len() == 0 {
        0
    } else {
        digits_value(s.drop_last()) * 10 + digit_val(s.last())
    }
}

/// The value of a decimal numeral of one or more digits, with no sign, that
/// fits in a `u64`.
pub open spec fn digits_u64_of(s: Seq<char>) -> Option<u64> {
    if s.len() > 0 && all_digits(s) && digits_value(s) <= u64::MAX {
        Some(digits_value(s) as u64)
    } else {
        None
    }
}

/// The value of a decimal numeral with an optional leading `+` that fits in
/// a `u64`.
pub open spec fn u64_of(s: Seq<char>) -> Option<u64> {
    if s.len() > 0 && s[0] == '+' {
        digits_u64_of(s.drop_first())
    } else {
        digits_u64_of(s)
    }
}

/// The value of a decimal numeral with an optional leading `-` or `+` that
/// fits in an `i64`.
pub open spec fn i64_of(s: Seq<char>) -> Option<i64> {
    if s.len() > 0 && s[0] == '-' {
        let t = s.drop_first();
        if t.len() > 0 && all_digits(t) && digits_value(t) <= 0x8000_0000_0000_0000 {
            Some((0 - digits_value(t)) as i64)
        } else {
            None
        }
    } else if s.len() > 0 && s[0] == '+' {
        let t = s.drop_first();
        if t.len() > 0 && all_digits(t) && digits_value(t) <= i64::MAX {
            Some(digits_value(t) as i64)
        } else {
            None
        }
    } else if s.len() > 0 && all_digits(s) && digits_value(s) <= i64::MAX {
        Some(digits_value(s) as i64)
    } else {
        None
    }
}

/// Reads a decimal numeral with an optional leading `+`.
pub fn parse_u64(s: &str) -> (r: Option<u64>)
    ensures
        r == u64_of(s@),
{
    let n = s.unicode_len();
    if n > 0 && s.get_char(0) == '+' {
        let t = s.substring_char(1, n);
        assert(t@ =~= s@.drop_first());
        parse_digits(t)
    } else {
        parse_digits(s)
    }
}

/// Reads a decimal numeral made of digits alone.
pub fn parse_digits(s: &str) -> (r: Option<u64>)
    ensures
        r == digits_u64_of(s@),
{
    let n = s.unicode_len();
    if n == 0 {
        return None;
    }
    let mut acc: u64 = 0;
    let mut over = false;
    let mut i: usize = 0;
    while i < n
        invariant
            n as nat == s@.len(),
            i <= n,
            all_digits(s@.subrange(0, i as int)),
            !over ==> acc as nat == digits_value(s@.subrange(0, i as int)),
            over ==> digits_value(s@.subrange(0, i as int)) > u64::MAX,
        decreases n - i,
    {
        let c = s.get_char(i);
        if c < '0' || c > '9' {
            assert(!is_digit(s@[i as int]));
            return None;
        }
        let ghost pre = s@.subrange(0, i as int);
        let ghost next = s@.subrange(0, i + 1);
        assert(next.drop_last() =~= pre);
        assert(next.last() == c);
        let d = (c as u32 - 48) as u64;
        if !over {
            let v: u128 = acc as u128 * 10 + d as u128;
            if v > u64::MAX as u128 {
                over = true;
            } else {
                acc = v as u64;
            }
        }
        assert forall|j: int| 0 <= j < next.len() implies #[trigger] is_digit(next[j]) by {
            if j < i {
                assert(next[j] == pre[j]);
            }
        }
        i = i + 1;
    }
    assert(s@.subrange(0, n as int) =~= s@);
    if over {
        None
    } else {
        Some(acc)
    }
}

/// Reads a decimal numeral with an optional leading minus sign.
pub fn parse_i64(s: &str) -> (r: Option<i64>)
    ensures
        r == i64_of(s@),
{
    let n = s.unicode_len();
    if n == 0 {
        return None;
    }
    let first = s.get_char(0);
    let negative = first == '-';
    let start: usize = if negative || first == '+' { 1 } else { 0 };
    if start == n {
        return None;
    }
    let mut acc: u64 = 0;
    let mut over = false;
    let mut i: usize = start;
    let ghost body = s@.subrange(start as int, s@.len() as int);
    while i < n
        invariant
            n as nat == s@.len(),
            start <= i <= n,
            0 < n,
            negative == (s@[0] == '-'),
            start == (if s@[0] == '-' || s@[0] == '+' { 1usize } else { 0usize }),
            body == s@.subrange(start as int, n as int),
            all_digits(s@.subrange(start as int, i as int)),
            !over ==> acc as nat == digits_value(s@.subrange(start as int, i as int)),
            over ==> digits_value(s@.subrange(start as int, i as int)) > u64::MAX,
        decreases n - i,
    {
        let c = s.get_char(i);
        if c < '0' || c > '9' {
            assert(!is_digit(body[i - start]));
            proof {
                if start == 1 {
                    assert(body =~= s@.drop_first());
                } else {
                    assert(body =~= s@);
                }
            }
            return None;
        }
        let ghost pre = s@.subrange(start as int, i as int);
        let ghost next = s@.subrange(start as int, i + 1);
        assert(next.drop_last() =~= pre);
        assert(next.last() == c);
        let d = (c as u32 - 48) as u64;
        if !over {
            let v: u128 = acc as u128 * 10 + d as u128;
            if v > u64::MAX as u128 {
                over = true;
            } else {
                acc = v as u64;
            }
        }
        assert forall|j: int| 0 <= j < next.len() implies #[trigger] is_digit(next[j]) by {
            if j < i - start {
                assert(next[j] == pre[j]);
            }
        }
        i = i + 1;
    }
    if negative {
        assert(body =~= s@.drop_first());
        if over || acc > 0x8000_0000_0000_0000 {
            None
        } else if acc == 0x8000_0000_0000_0000 {
            Some(i64::MIN)
        } else {
            Some(0 - (acc as i64))
        }
    } else {
        if start == 1 {
            assert(body =~= s@.drop_first());
        } else {
            assert(body =~= s@);
        }
        if over || acc > i64::MAX as u64 {
            None
        } else {
            Some(acc as i64)
        }
    }
}

/// True where `i` is the position of the first point in `s`.
pub open spec fn first_point_at(s: Seq<char>, i: int) -> bool {
    0 <= i < s.len() && s[i] == '.' && forall|j: int| 0 <= j < i ==> #[trigger] s[j] != '.'
}

/// The position of the first point in `s`, or its length where it has none.
pub open spec fn point_index(s: Seq<char>) -> int {
    if exists|i: int| first_point_at(s, i) {
        choose|i: int| first_point_at(s, i)
    } else {
        s.len() as int
    }
}

/// The milliseconds in one unit of the last digit of a fraction of `n` digits.
pub open spec fn fraction_scale(n: nat) -> nat {
    if n == 1 {
        100
    } else if n == 2 {
        10
    } else {
        1
    }
}

/// The milliseconds that a duration written in seconds denotes: whole
/// seconds, optionally followed by a point and one to three digits of
/// fraction; `None` where it is malformed or does not fit in a `u64`.
pub open spec fn seconds_ms_of(s: Seq<char>) -> Option<u64> {
    let p = point_index(s);
    match digits_u64_of(s.take(p)) {
        None => None,
        Some(w) => if p == s.len() {
            if w * 1000 <= u64::MAX {
                Some((w * 1000) as u64)
            } else {
                None
            }
        } else {
            let f = s.skip(p + 1);
            match digits_u64_of(f) {
                None => None,
                Some(fv) => if f.len() > 3 || w * 1000 + fv * fraction_scale(f.len()) > u64::MAX {
                    None
                } else {
                    Some((w * 1000 + fv * fraction_scale(f.len())) as u64)
                },
            }
        },
    }
}

/// Numerals of at most three digits are under a thousand.
proof fn lemma_short_digits(s: Seq<char>)
    requires
        all_digits(s),
        s.len() <= 3,
    ensures
        s.len() <= 1 ==> digits_value(s) < 10,
        s.len() <= 2 ==> digits_value(s) < 100,
        digits_value(s) < 1000,
    decreases s.len(),
{
    if s.len() > 0 {
        let t = s.drop_last();
        assert forall|i: int| 0 <= i < t.len() implies #[trigger] is_digit(t[i]) by {
            assert(t[i] == s[i]);
        }
        assert(is_digit(s[s.len() - 1]));
        lemma_short_digits(t);
    }
}

/// Reads a duration in seconds, with up to three digits of fraction, as
/// milliseconds.
pub fn parse_seconds_ms(s: &str) -> (r: Option<u64>)
    ensures
        r == seconds_ms_of(s@),
{
    let n = s.unicode_len();
    let mut p: usize = 0;
    while p < n
        invariant
            n as nat == s@.len(),
            p <= n,
            forall|j: int| 0 <= j < p ==> #[trigger] s@[j] != '.',
        ensures
            p <= n,
            p < n ==> s@[p as int] == '.',
            forall|j: int| 0 <= j < p ==> #[trigger] s@[j] != '.',
        decreases n - p,
    {
        if s.get_char(p) == '.' {
            break;
        }
        p = p + 1;
    }
    proof {
        if p < n {
            assert(first_point_at(s@, p as int));
            let c = choose|i: int| first_point_at(s@, i);
            if c < p {
                assert(s@[c] != '.');
            }
            if c > p {
                assert(s@[p as int] != '.');
            }
        } else {
            assert(!exists|i: int| first_point_at(s@, i));
        }
    }
    let whole = match parse_digits(s.substring_char(0, p)) {
        Some(w) => w,
        None => return None,
    };
    assert(s@.subrange(0, p as int) =~= s@.take(p as int));
    if whole > u64::MAX / 1000 {
        return None;
    }
    let whole_ms = whole * 1000;
    if p == n {
        return Some(whole_ms);
    }
    let frac_len = n - (p + 1);
    let frac = match parse_digits(s.substring_char(p + 1, n)) {
        Some(f) => f,
        None => return None,
    };
    assert(s@.subrange(p + 1, n as int) =~= s@.skip(p + 1));
    if frac_len > 3 {
        return None;
    }
    let scale: u64 = if frac_len == 1 {
        100
    } else if frac_len == 2 {
        10
    } else {
        1
    };
    proof {
        lemma_short_digits(s@.skip(p + 1));
    }
    let frac_ms = frac * scale;
    if whole_ms > u64::MAX - frac_ms {
        None
    } else {
        Some(whole_ms + frac_ms)
    }
}

} // verus!
