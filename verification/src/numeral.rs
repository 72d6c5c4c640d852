//! Numbers in decimal digits.
use vstd::prelude::*;

verus! {

/// The value of decimal digits.
pub open spec fn decimal(digits: Seq<char>) -> nat
    decreases digits.len(),
{
    if digits.len() == 0 {
        0
    } else {
        decimal(digits.drop_last()) * 10 + digit_of(digits.last())
    }
}

pub open spec fn digit_of(c: char) -> nat {
    if '0' <= c && c <= '9' {
        (c as u32 - '0' as u32) as nat
    } else {
        0
    }
}

pub open spec fn all_digits(s: Seq<char>) -> bool {
    forall|i: int| 0 <= i < s.len() ==> '0' <= #[trigger] s[i] && s[i] <= '9'
}

/// The number that a text stands for: digits, perhaps behind a plus sign, below 2^32.
pub open spec fn number_in(s: Seq<char>) -> Option<u32> {
    let digits = if s.len() > 0 && s[0] == '+' {
        s.skip(1)
    } else {
        s
    };
    if digits.len() > 0 && all_digits(digits) && decimal(digits) <= u32::MAX {
        Some(decimal(digits) as u32)
    } else {
        None
    }
}

proof fn lemma_decimal_grows(s: Seq<char>, n: int)
    requires
        0 <= n <= s.len(),
    ensures
        decimal(s.take(n)) <= decimal(s),
    decreases s.len(),
{
    if n < s.len() {
        assert(s.drop_last().take(n) =~= s.take(n));
        lemma_decimal_grows(s.drop_last(), n);
    } else {
        assert(s.take(n) =~= s);
    }
}

/// The number that the characters from `from` on stand for.
pub fn parse_number(chars: &Vec<char>, from: usize) -> (n: Option<u32>)
    requires
        from <= chars@.len(),
    ensures
        n == number_in(chars@.skip(from as int)),
{
    let ghost s = chars@.skip(from as int);
    let mut i: usize = from;
    if i < chars.len() && chars[i] == '+' {
        assert(s[0] == '+');
        i = i + 1;
    }
    let start: usize = i;
    let ghost digits = chars@.skip(start as int);
    proof {
        if s.len() > 0 && s[0] == '+' {
            assert(s.skip(1) =~= digits);
        } else {
            assert(s =~= digits);
        }
    }
    if i == chars.len() {
        return None;
    }
    let mut value: u64 = 0;
    assert(digits.take(0) =~= Seq::empty());
    while i < chars.len()
        invariant
            start <= i <= chars@.len(),
            digits == chars@.skip(start as int),
            number_in(s) == (if digits.len() > 0 && all_digits(digits) && decimal(digits)
                <= u32::MAX {
                Some(decimal(digits) as u32)
            } else {
                None::<u32>
            }),
            s == chars@.skip(from as int),
            all_digits(digits.take(i - start)),
            value == decimal(digits.take(i - start)),
            value <= u32::MAX,
        decreases chars.len() - i,
    {
        let c = chars[i];
        assert(digits[i - start] == c);
        if c < '0' || c > '9' {
            return None;
        }
        let d: u64 = (c as u32 - '0' as u32) as u64;
        assert(digits.take(i - start + 1).drop_last() =~= digits.take(i - start));
        value = value * 10 + d;
        i = i + 1;
        assert(value == decimal(digits.take(i - start)));
        if value > u32::MAX as u64 {
            proof {
                lemma_decimal_grows(digits, i - start);
            }
            return None;
        }
    }
    assert(digits.take(i - start) =~= digits);
    Some(value as u32)
}

/// The digit with a value below ten.
pub open spec fn digit_char(d: nat) -> char {
    if d == 0 {
        '0'
    } else if d == 1 {
        '1'
    } else if d == 2 {
        '2'
    } else if d == 3 {
        '3'
    } else if d == 4 {
        '4'
    } else if d == 5 {
        '5'
    } else if d == 6 {
        '6'
    } else if d == 7 {
        '7'
    } else if d == 8 {
        '8'
    } else {
        '9'
    }
}

fn digit(d: u32) -> (c: char)
    requires
        d < 10,
    ensures
        c == digit_char(d as nat),
{
    if d == 0 {
        '0'
    } else if d == 1 {
        '1'
    } else if d == 2 {
        '2'
    } else if d == 3 {
        '3'
    } else if d == 4 {
        '4'
    } else if d == 5 {
        '5'
    } else if d == 6 {
        '6'
    } else if d == 7 {
        '7'
    } else if d == 8 {
        '8'
    } else {
        '9'
    }
}

/// A number in decimal digits, without zeros in front.
pub open spec fn digits_of(n: nat) -> Seq<char>
    decreases n,
{
    if n < 10 {
        seq![digit_char(n)]
    } else {
        digits_of(n / 10).push(digit_char(n % 10))
    }
}

/// A number in decimal digits.
pub fn decimal_chars(n: u32) -> (chars: Vec<char>)
    ensures
        chars@ == digits_of(n as nat),
    decreases n,
{
    if n < 10 {
        let mut chars: Vec<char> = Vec::new();
        chars.push(digit(n));
        assert(chars@ =~= digits_of(n as nat));
        chars
    } else {
        let mut chars = decimal_chars(n / 10);
        chars.push(digit(n % 10));
        chars
    }
}

/// A number written in digits is read back.
pub proof fn law_number_is_read_back(n: u32)
    ensures
        number_in(digits_of(n as nat)) == Some(n),
{
    lemma_digits(n as nat);
}

proof fn lemma_digits(n: nat)
    ensures
        digits_of(n).len() > 0,
        all_digits(digits_of(n)),
        digits_of(n)[0] != '+',
        decimal(digits_of(n)) == n,
    decreases n,
{
    let s = digits_of(n);
    if n < 10 {
        assert(s.drop_last() =~= Seq::empty());
        assert(decimal(s.drop_last()) == 0);
        assert(digit_of(digit_char(n)) == n);
    } else {
        lemma_digits(n / 10);
        assert(s.drop_last() =~= digits_of(n / 10));
        assert(digit_of(digit_char(n % 10)) == n % 10);
        assert forall|i: int| 0 <= i < s.len() implies '0' <= #[trigger] s[i] && s[i] <= '9' by {
            if i < s.len() - 1 {
                assert(s[i] == digits_of(n / 10)[i]);
            }
        }
    }
}

/// The descriptor that a text stands for: digits, perhaps behind a sign, below 2^31. There is
/// none below zero.
pub open spec fn fd_in(s: Seq<char>) -> Option<u32> {
    if s.len() > 0 && s[0] == '-' {
        let digits = s.skip(1);
        if digits.len() > 0 && all_digits(digits) && decimal(digits) == 0 {
            Some(0)
        } else {
            None
        }
    } else {
        match number_in(s) {
            Some(n) => if n <= i32::MAX {
                Some(n)
            } else {
                None
            },
            None => None,
        }
    }
}

/// The descriptor that characters stand for.
pub fn parse_fd(chars: &Vec<char>) -> (fd: Option<u32>)
    ensures
        fd == fd_in(chars@),
{
    assert(chars@.skip(0) =~= chars@);
    if chars.len() > 0 && chars[0] == '-' {
        let ghost digits = chars@.skip(1);
        if chars.len() > 1 && chars[1] == '+' {
            assert(digits[0] == '+');
            return None;
        }
        return match parse_number(chars, 1) {
            Some(n) => {
                if n == 0 {
                    Some(0)
                } else {
                    None
                }
            },
            None => None,
        };
    }
    match parse_number(chars, 0) {
        Some(n) => {
            if n <= i32::MAX as u32 {
                Some(n)
            } else {
                None
            }
        },
        None => None,
    }
}

} // verus!
