use vstd::prelude::*;

verus! {

/// The pieces of `s` between occurrences of `sep`, in order: `n` separators
/// give `n + 1` pieces, empty ones included (so the empty text gives one
/// empty piece).
pub open spec fn split_on(s: Seq<char>, sep: char) -> Seq<Seq<char>>
    decreases s.len(),
{
    if s.len() == 0 {
        seq![Seq::<char>::empty()]
    } else {
        let prev = split_on(s.drop_last(), sep);
        if s.last() == sep {
            prev.push(Seq::<char>::empty())
        } else {
            prev.update(prev.len() - 1, prev.last().push(s.last()))
        }
    }
}

/// Splitting always gives at least one piece.
pub proof fn lemma_split_nonempty(s: Seq<char>, sep: char)
    ensures
        split_on(s, sep).len() >= 1,
    decreases s.len(),
{
    if s.len() > 0 {
        lemma_split_nonempty(s.drop_last(), sep);
    }
}

/// The characters of a string, one by one.
pub fn chars_of(s: &str) -> (v: Vec<char>)
    ensures
        v@ == s@,
{
    let mut v: Vec<char> = Vec::new();
    for c in it: s.chars()
        invariant
            it.seq() == s@,
            v@ == it.seq().take(it.index() as int),
    {
        v.push(c);
    }
    v
}

/// The bounds of the pieces of `chars[from..to]` between occurrences of `sep`.
pub fn split_ranges(chars: &Vec<char>, from: usize, to: usize, sep: char) -> (r: Vec<(usize, usize)>)
    requires
        from <= to <= chars.len(),
    ensures
        r.len() == split_on(chars@.subrange(from as int, to as int), sep).len(),
        forall|k: int|
            0 <= k < r.len() ==> {
                &&& from <= (#[trigger] r[k]).0 <= r[k].1 <= to
                &&& chars@.subrange(r[k].0 as int, r[k].1 as int) == split_on(
                    chars@.subrange(from as int, to as int),
                    sep,
                )[k]
            },
{
    let mut r: Vec<(usize, usize)> = Vec::new();
    let mut start: usize = from;
    let mut i: usize = from;
    while i < to
        invariant
            from <= start <= i <= to <= chars.len(),
            split_on(chars@.subrange(from as int, i as int), sep).len() == r.len() + 1,
            forall|k: int|
                0 <= k < r.len() ==> {
                    &&& from <= (#[trigger] r[k]).0 <= r[k].1 <= start
                    &&& chars@.subrange(r[k].0 as int, r[k].1 as int) == split_on(
                        chars@.subrange(from as int, i as int),
                        sep,
                    )[k]
                },
            split_on(chars@.subrange(from as int, i as int), sep).last() == chars@.subrange(
                start as int,
                i as int,
            ),
        decreases to - i,
    {
        let ghost before = chars@.subrange(from as int, i as int);
        let ghost after = chars@.subrange(from as int, i + 1);
        assert(after.drop_last() == before);
        assert(after.last() == chars@[i as int]);
        assert(chars@.subrange(start as int, i + 1) == chars@.subrange(start as int, i as int).push(
            chars@[i as int],
        ));
        if chars[i] == sep {
            r.push((start, i));
            start = i + 1;
            assert(chars@.subrange(start as int, i + 1) =~= Seq::<char>::empty());
        }
        i = i + 1;
    }
    r.push((start, to));
    r
}


/// Whether `c` is one of the ASCII decimal digits.
pub open spec fn is_digit(c: char) -> bool {
    '0' <= c && c <= '9'
}

/// Whether every character of `s` is a decimal digit.
pub open spec fn all_digits(s: Seq<char>) -> bool {
    forall|i: int| 0 <= i < s.len() ==> is_digit(#[trigger] s[i])
}

/// The number that the decimal digits `s` write, most significant first.
pub open spec fn digits_value(s: Seq<char>) -> nat
    decreases s.len(),
{
    if s.len() == 0 {
        0
    } else {
        digits_value(s.drop_last()) * 10 + (s.last() as nat - '0' as nat) as nat
    }
}

/// A number written in decimal: an optional `+` and then at least one digit,
/// whose value is at most `max`.
pub open spec fn unsigned_decimal(s: Seq<char>, max: nat) -> Option<nat> {
    let d = if s.len() > 0 && s[0] == '+' { s.drop_first() } else { s };
    if d.len() > 0 && all_digits(d) && digits_value(d) <= max {
        Some(digits_value(d))
    } else {
        None
    }
}

/// What parsing `s` as a `u16` gives: an optional `+`, then at least one
/// decimal digit, and a value that fits.
pub open spec fn spec_parse_u16(s: Seq<char>) -> Option<u16> {
    match unsigned_decimal(s, u16::MAX as nat) {
        Some(v) => Some(v as u16),
        None => None,
    }
}

/// What parsing `s` as an `isize` gives: an optional sign, then at least one
/// decimal digit, and a value in the range of `isize`.
pub open spec fn spec_parse_isize(s: Seq<char>) -> Option<isize> {
    if s.len() > 0 && s[0] == '-' {
        let d = s.drop_first();
        if d.len() > 0 && all_digits(d) && digits_value(d) <= -(isize::MIN as int) {
            Some((-(digits_value(d) as int)) as isize)
        } else {
            None
        }
    } else {
        match unsigned_decimal(s, isize::MAX as nat) {
            Some(v) => Some(v as isize),
            None => None,
        }
    }
}

/// Appending digits never makes a number smaller.
pub proof fn lemma_digits_value_prefix(s: Seq<char>, i: int)
    requires
        0 <= i <= s.len(),
        all_digits(s),
    ensures
        digits_value(s.take(i)) <= digits_value(s),
    decreases s.len() - i,
{
    if i < s.len() {
        lemma_digits_value_prefix(s, i + 1);
        assert(s.take(i + 1).drop_last() == s.take(i));
        assert(is_digit(s[i]));
    } else {
        assert(s.take(i) == s);
    }
}

/// The value of the decimal digits `chars[from..to]`, or `None` where one of
/// them is not a digit, there are none, or the value exceeds `max`.
fn digits_in(chars: &Vec<char>, from: usize, to: usize, max: u64) -> (r: Option<u64>)
    requires
        from <= to <= chars.len(),
    ensures
        ({
            let d = chars@.subrange(from as int, to as int);
            r == if d.len() > 0 && all_digits(d) && digits_value(d) <= max {
                Some(digits_value(d) as u64)
            } else {
                None::<u64>
            }
        }),
{
    let ghost d = chars@.subrange(from as int, to as int);
    if from == to {
        return None;
    }
    let mut value: u128 = 0;
    let mut i: usize = from;
    while i < to
        invariant
            from <= i <= to <= chars.len(),
            d == chars@.subrange(from as int, to as int),
            all_digits(d.take(i - from)),
            value == digits_value(d.take(i - from)),
            value <= max,
        decreases to - i,
    {
        let c = chars[i];
        assert(d.take(i + 1 - from).drop_last() == d.take(i - from));
        assert(d.take(i + 1 - from).last() == c);
        if !('0' <= c && c <= '9') {
            assert(!is_digit(d[i - from]));
            return None;
        }
        let digit = (c as u32 - '0' as u32) as u128;
        value = value * 10 + digit;
        assert(all_digits(d.take(i + 1 - from))) by {
            assert forall|k: int| 0 <= k < i + 1 - from implies is_digit(
                #[trigger] d.take(i + 1 - from)[k],
            ) by {
                if k < i - from {
                    assert(d.take(i + 1 - from)[k] == d.take(i - from)[k]);
                }
            }
        }
        if value > max as u128 {
            proof {
                if all_digits(d) {
                    lemma_digits_value_prefix(d, i + 1 - from);
                }
            }
            return None;
        }
        i = i + 1;
    }
    assert(d.take(to - from) == d);
    Some(value as u64)
}

/// Parses `chars[from..to]` as a `u16` written in decimal.
pub fn parse_u16_in(chars: &Vec<char>, from: usize, to: usize) -> (r: Option<u16>)
    requires
        from <= to <= chars.len(),
    ensures
        r == spec_parse_u16(chars@.subrange(from as int, to as int)),
{
    let ghost s = chars@.subrange(from as int, to as int);
    let start = if from < to && chars[from] == '+' {
        assert(s.drop_first() == chars@.subrange(from + 1, to as int));
        from + 1
    } else {
        from
    };
    match digits_in(chars, start, to, 65535) {
        Some(v) => Some(v as u16),
        None => None,
    }
}

/// Parses `chars[from..to]` as an `isize` written in decimal.
pub fn parse_isize_in(chars: &Vec<char>, from: usize, to: usize) -> (r: Option<isize>)
    requires
        from <= to <= chars.len(),
    ensures
        r == spec_parse_isize(chars@.subrange(from as int, to as int)),
{
    let ghost s = chars@.subrange(from as int, to as int);
    if from < to && chars[from] == '-' {
        assert(s.drop_first() == chars@.subrange(from + 1, to as int));
        let bound: u64 = (isize::MAX as u64) + 1;
        match digits_in(chars, from + 1, to, bound) {
            Some(v) => {
                let r: i128 = -(v as i128);
                Some(r as isize)
            },
            None => None,
        }
    } else {
        let start = if from < to && chars[from] == '+' {
            assert(s.drop_first() == chars@.subrange(from + 1, to as int));
            from + 1
        } else {
            from
        };
        match digits_in(chars, start, to, isize::MAX as u64) {
            Some(v) => Some(v as isize),
            None => None,
        }
    }
}

/// Parses a port number: an optional `+` and decimal digits whose value fits
/// in a `u16`.
pub fn parse_port(s: &str) -> (r: Option<u16>)
    ensures
        r == spec_parse_u16(s@),
{
    let chars = chars_of(s);
    assert(chars@.subrange(0, chars@.len() as int) == s@);
    parse_u16_in(&chars, 0, chars.len())
}

/// Parses a signed decimal number that fits in an `isize`.
pub fn parse_signed(s: &str) -> (r: Option<isize>)
    ensures
        r == spec_parse_isize(s@),
{
    let chars = chars_of(s);
    assert(chars@.subrange(0, chars@.len() as int) == s@);
    parse_isize_in(&chars, 0, chars.len())
}

} // verus!
