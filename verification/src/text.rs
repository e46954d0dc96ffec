//! Text primitives: decimal numbers, trimming, number fields and joined lists.
use vstd::prelude::*;

verus! {

/// The character of one decimal digit.
pub open spec fn digit_char(d: nat) -> char {
    ('0' as u32 + d) as char
}

/// The decimal numeral of `n`, without leading zeros.
pub open spec fn decimal(n: nat) -> Seq<char>
    decreases n,
{
    if n < 10 {
        seq![digit_char(n)]
    } else {
        decimal(n / 10).push(digit_char(n % 10))
    }
}

/// The numeral of a single digit.
fn digit_text(d: usize) -> (r: &'static str)
    requires
        d < 10,
    ensures
        r@ == seq![digit_char(d as nat)],
{
    proof {
        reveal_strlit("0");
        reveal_strlit("1");
        reveal_strlit("2");
        reveal_strlit("3");
        reveal_strlit("4");
        reveal_strlit("5");
        reveal_strlit("6");
        reveal_strlit("7");
        reveal_strlit("8");
        reveal_strlit("9");
    }
    let r = match d {
        0 => "0",
        1 => "1",
        2 => "2",
        3 => "3",
        4 => "4",
        5 => "5",
        6 => "6",
        7 => "7",
        8 => "8",
        _ => "9",
    };
    assert(r@ =~= seq![digit_char(d as nat)]);
    r
}

/// Appends the decimal numeral of `n` to `out`.
pub fn push_decimal(out: &mut String, n: usize)
    ensures
        final(out)@ == old(out)@ + decimal(n as nat),
    decreases n,
{
    if n >= 10 {
        push_decimal(out, n / 10);
        out.append(digit_text(n % 10));
        assert(out@ =~= old(out)@ + decimal(n as nat));
    } else {
        out.append(digit_text(n));
    }
}

/// Whether `c` has the Unicode property White_Space.
pub open spec fn white(c: char) -> bool {
    let u = c as u32;
    ||| 0x09 <= u <= 0x0d
    ||| u == 0x20
    ||| u == 0x85
    ||| u == 0xa0
    ||| u == 0x1680
    ||| 0x2000 <= u <= 0x200a
    ||| u == 0x2028
    ||| u == 0x2029
    ||| u == 0x202f
    ||| u == 0x205f
    ||| u == 0x3000
}

/// Decides whether `c` is white space.
pub fn is_white(c: char) -> (r: bool)
    ensures
        r == white(c),
{
    let u: u32 = c as u32;
    (0x09 <= u && u <= 0x0d) || u == 0x20 || u == 0x85 || u == 0xa0 || u == 0x1680 || (0x2000 <= u
        && u <= 0x200a) || u == 0x2028 || u == 0x2029 || u == 0x202f || u == 0x205f || u == 0x3000
}

/// `s` without the white space it begins with.
pub open spec fn without_leading_white(s: Seq<char>) -> Seq<char>
    decreases s.len(),
{
    if s.len() > 0 && white(s[0]) {
        without_leading_white(s.drop_first())
    } else {
        s
    }
}

/// `s` without the white space it ends with.
pub open spec fn without_trailing_white(s: Seq<char>) -> Seq<char>
    decreases s.len(),
{
    if s.len() > 0 && white(s.last()) {
        without_trailing_white(s.drop_last())
    } else {
        s
    }
}

/// `s` without the white space around it.
pub open spec fn trimmed(s: Seq<char>) -> Seq<char> {
    without_trailing_white(without_leading_white(s))
}

/// The characters of `s`, one element each.
pub fn chars_of(s: &str) -> (r: Vec<char>)
    ensures
        r@ == s@,
{
    let mut r: Vec<char> = Vec::new();
    for c in it: s.chars()
        invariant
            it.seq() == s@,
            r@ == s@.take(it.index()),
    {
        r.push(c);
        assert(r@ =~= s@.take(it.index() + 1));
    }
    assert(r@ =~= s@);
    r
}

/// `s` without the white space around it, as a string of its own.
pub fn trim(s: &str) -> (r: String)
    ensures
        r@ == trimmed(s@),
{
    let cs = chars_of(s);
    let mut from: usize = 0;
    assert(cs@.skip(0) =~= cs@);
    while from < cs.len() && is_white(cs[from])
        invariant
            0 <= from <= cs@.len(),
            without_leading_white(cs@) == without_leading_white(cs@.skip(from as int)),
        decreases cs@.len() - from,
    {
        assert(cs@.skip(from as int).drop_first() =~= cs@.skip(from + 1));
        from = from + 1;
    }
    let ghost lead = cs@.skip(from as int);
    assert(without_leading_white(cs@) == lead);
    let mut to: usize = cs.len();
    assert(cs@.subrange(from as int, to as int) =~= lead);
    while to > from && is_white(cs[to - 1])
        invariant
            0 <= from <= to <= cs@.len(),
            without_trailing_white(lead) == without_trailing_white(
                cs@.subrange(from as int, to as int),
            ),
        decreases to,
    {
        assert(cs@.subrange(from as int, to as int).drop_last() =~= cs@.subrange(
            from as int,
            to - 1,
        ));
        to = to - 1;
    }
    s.substring_char(from, to).to_owned()
}

/// Whether every character of `s` is a decimal digit.
pub open spec fn all_digits(s: Seq<char>) -> bool {
    forall|i: int| 0 <= i < s.len() ==> '0' <= #[trigger] s[i] <= '9'
}

/// The number that a run of decimal digits denotes.
pub open spec fn digits_value(s: Seq<char>) -> nat
    recommends
        all_digits(s),
    decreases s.len(),
{
    if s.len() == 0 {
        0
    } else {
        (digits_value(s.drop_last()) * 10 + (s.last() as u32 - '0' as u32)) as nat
    }
}

/// The number that `s` denotes as a run of at least one decimal digit.
pub open spec fn natural(s: Seq<char>) -> Option<nat> {
    if s.len() > 0 && all_digits(s) {
        Some(digits_value(s))
    } else {
        None
    }
}

/// The number that `s` denotes when a sign may precede the digits.
pub open spec fn signed_number(s: Seq<char>) -> Option<int> {
    if s.len() > 0 && s[0] == '-' {
        match natural(s.drop_first()) {
            Some(n) => Some(-(n as int)),
            None => None,
        }
    } else {
        match unsigned_number(s) {
            Some(n) => Some(n as int),
            None => None,
        }
    }
}

/// The number that `s` denotes when a plus sign may precede the digits.
pub open spec fn unsigned_number(s: Seq<char>) -> Option<nat> {
    if s.len() > 0 && s[0] == '+' {
        natural(s.drop_first())
    } else {
        natural(s)
    }
}

/// What a run of characters reads as.
enum Digits {
    /// Not a run of digits.
    Malformed,
    /// A number that does not fit the widest field.
    TooLarge,
    /// A number.
    Value(u64),
}

/// Reads the characters from index `from` on as decimal digits.
fn read_digits(cs: &Vec<char>, from: usize) -> (r: Digits)
    requires
        from <= cs@.len(),
    ensures
        match r {
            Digits::Malformed => natural(cs@.skip(from as int)) is None,
            Digits::TooLarge => natural(cs@.skip(from as int)) matches Some(n) && n > u64::MAX,
            Digits::Value(v) => natural(cs@.skip(from as int)) == Some(v as nat),
        },
{
    let ghost run = cs@.skip(from as int);
    if from == cs.len() {
        return Digits::Malformed;
    }
    let mut at: usize = from;
    let mut value: u64 = 0;
    let mut too_large: bool = false;
    assert(run.take(0) =~= Seq::<char>::empty());
    while at < cs.len()
        invariant
            from <= at <= cs@.len(),
            from < cs@.len(),
            run == cs@.skip(from as int),
            all_digits(run.take(at - from)),
            too_large ==> digits_value(run.take(at - from)) > u64::MAX,
            !too_large ==> digits_value(run.take(at - from)) == value,
        decreases cs@.len() - at,
    {
        let c = cs[at];
        assert(run[at - from] == c);
        if c < '0' || '9' < c {
            return Digits::Malformed;
        }
        let ghost longer = run.take(at - from + 1);
        assert(longer.drop_last() =~= run.take(at - from));
        assert(longer.last() == c);
        assert forall|i: int| 0 <= i < longer.len() implies '0' <= #[trigger] longer[i] <= '9' by {
            if i < at - from {
                assert(longer[i] == run.take(at - from)[i]);
            }
        }
        let digit: u64 = (c as u32 - '0' as u32) as u64;
        if !too_large {
            if value > (u64::MAX - digit) / 10 {
                too_large = true;
            } else {
                value = value * 10 + digit;
            }
        }
        at = at + 1;
    }
    assert(run.take(at - from) =~= run);
    if too_large {
        Digits::TooLarge
    } else {
        Digits::Value(value)
    }
}

/// Reads a signed number; anything but a number in range gives `None`.
pub fn parse_i64(s: &str) -> (r: Option<i64>)
    ensures
        r == (match signed_number(s@) {
            Some(n) => if i64::MIN <= n <= i64::MAX {
                Some(n as i64)
            } else {
                None
            },
            None => None,
        }),
{
    let cs = chars_of(s);
    if cs.len() == 0 {
        return None;
    }
    let negative: bool = cs[0] == '-';
    let from: usize = if cs[0] == '-' || cs[0] == '+' {
        1
    } else {
        0
    };
    assert(cs@.skip(0) =~= cs@);
    assert(cs@.skip(1) =~= cs@.drop_first());
    match read_digits(&cs, from) {
        Digits::Malformed => None,
        Digits::TooLarge => None,
        Digits::Value(v) => {
            if negative {
                if v <= 0x7fff_ffff_ffff_ffff {
                    Some(-(v as i64))
                } else if v == 0x8000_0000_0000_0000 {
                    Some(i64::MIN)
                } else {
                    None
                }
            } else if v <= 0x7fff_ffff_ffff_ffff {
                Some(v as i64)
            } else {
                None
            }
        },
    }
}

/// Reads an unsigned number; anything but a number in range gives `None`.
pub fn parse_usize(s: &str) -> (r: Option<usize>)
    ensures
        r == (match unsigned_number(s@) {
            Some(n) => if n <= usize::MAX {
                Some(n as usize)
            } else {
                None
            },
            None => None,
        }),
{
    let cs = chars_of(s);
    if cs.len() == 0 {
        return None;
    }
    let from: usize = if cs[0] == '+' {
        1
    } else {
        0
    };
    assert(cs@.skip(0) =~= cs@);
    assert(cs@.skip(1) =~= cs@.drop_first());
    match read_digits(&cs, from) {
        Digits::Malformed => None,
        Digits::TooLarge => None,
        Digits::Value(v) => {
            if v <= usize::MAX as u64 {
                Some(v as usize)
            } else {
                None
            }
        },
    }
}

/// The elements of `parts` one after another, with `sep` between neighbours.
pub open spec fn joined(parts: Seq<Seq<char>>, sep: Seq<char>) -> Seq<char>
    decreases parts.len(),
{
    if parts.len() == 0 {
        Seq::empty()
    } else if parts.len() == 1 {
        parts[0]
    } else {
        joined(parts.drop_last(), sep) + sep + parts.last()
    }
}

/// What a list of strings holds.
pub open spec fn texts(parts: Seq<String>) -> Seq<Seq<char>> {
    parts.map_values(|s: String| s@)
}

/// Joins `parts` with `sep` between neighbours.
pub fn join(parts: &Vec<String>, sep: &str) -> (r: String)
    ensures
        r@ == joined(texts(parts@), sep@),
{
    let mut r = String::new();
    let mut i: usize = 0;
    while i < parts.len()
        invariant
            0 <= i <= parts@.len(),
            r@ == joined(texts(parts@.take(i as int)), sep@),
        decreases parts@.len() - i,
    {
        let ghost before = texts(parts@.take(i as int));
        let ghost after = texts(parts@.take(i + 1));
        assert(after.drop_last() =~= before);
        assert(after.last() == parts@[i as int]@);
        if i > 0 {
            r.append(sep);
        }
        r.append(parts[i].as_str());
        assert(r@ =~= joined(after, sep@));
        i = i + 1;
    }
    assert(parts@.take(i as int) =~= parts@);
    r
}

/// Reading a numeral gives back the number that was written.
pub proof fn numeral_reads_back(n: nat)
    ensures
        natural(decimal(n)) == Some(n),
        unsigned_number(decimal(n)) == Some(n),
        signed_number(decimal(n)) == Some(n as int),
    decreases n,
{
    let s = decimal(n);
    if n < 10 {
        assert(s.drop_last() =~= Seq::<char>::empty());
        assert(digits_value(s.drop_last()) == 0);
    } else {
        numeral_reads_back(n / 10);
        assert(s.drop_last() =~= decimal(n / 10));
        assert forall|i: int| 0 <= i < s.len() implies '0' <= #[trigger] s[i] <= '9' by {
            if i < s.len() - 1 {
                assert(s[i] == decimal(n / 10)[i]);
            }
        }
    }
    assert('0' <= s[0] <= '9');
}

/// Trimmed text stays as it is when it is trimmed again.
pub proof fn trimming_twice(s: Seq<char>)
    ensures
        trimmed(trimmed(s)) == trimmed(s),
{
    let lead = without_leading_white(s);
    leading_white_gone(s);
    trailing_white_gone(lead);
}

/// What is left has no white space in front.
proof fn leading_white_gone(s: Seq<char>)
    ensures
        without_leading_white(s).len() > 0 ==> !white(without_leading_white(s)[0]),
    decreases s.len(),
{
    if s.len() > 0 && white(s[0]) {
        leading_white_gone(s.drop_first());
    }
}

/// What is left ends in no white space and begins as before.
proof fn trailing_white_gone(s: Seq<char>)
    ensures
        without_trailing_white(s).len() > 0 ==> !white(without_trailing_white(s).last())
            && without_trailing_white(s)[0] == s[0],
    decreases s.len(),
{
    if s.len() > 0 && white(s.last()) {
        trailing_white_gone(s.drop_last());
    }
}

/// White space around digits is trimmed away, and nothing else.
pub proof fn padding_is_trimmed(before: Seq<char>, digits: Seq<char>, after: Seq<char>)
    requires
        forall|i: int| 0 <= i < before.len() ==> white(#[trigger] before[i]),
        forall|i: int| 0 <= i < after.len() ==> white(#[trigger] after[i]),
        natural(digits) is Some,
    ensures
        trimmed(before + digits + after) == digits,
    decreases before.len() + after.len(),
{
    let s = before + digits + after;
    if before.len() > 0 {
        let fewer = before.drop_first();
        padding_is_trimmed(fewer, digits, after);
        assert(s.drop_first() =~= fewer + digits + after);
        assert(s[0] == before[0]);
    } else {
        assert(s =~= digits + after);
        assert(s[0] == digits[0]);
        assert(!white(s[0]));
        if after.len() > 0 {
            let fewer = after.drop_last();
            padding_is_trimmed(before, digits, fewer);
            let shorter = before + digits + fewer;
            assert(shorter =~= digits + fewer);
            assert(shorter[0] == digits[0]);
            assert(s.drop_last() =~= shorter);
            assert(s.last() == after.last());
            assert(white(after[after.len() - 1]));
        } else {
            assert(s =~= digits);
            assert(digits[digits.len() - 1] == digits.last());
        }
    }
}

/// White space in front of text that begins with something else is taken away, and nothing more.
proof fn lead_is_taken(before: Seq<char>, rest: Seq<char>)
    requires
        forall|i: int| 0 <= i < before.len() ==> white(#[trigger] before[i]),
        rest.len() > 0 ==> !white(rest[0]),
    ensures
        without_leading_white(before + rest) == rest,
    decreases before.len(),
{
    if before.len() == 0 {
        assert(before + rest =~= rest);
    } else {
        assert((before + rest).drop_first() =~= before.drop_first() + rest);
        assert((before + rest)[0] == before[0]);
        lead_is_taken(before.drop_first(), rest);
    }
}

/// White space behind text that ends with something else is taken away, and nothing more.
proof fn tail_is_taken(rest: Seq<char>, after: Seq<char>)
    requires
        forall|i: int| 0 <= i < after.len() ==> white(#[trigger] after[i]),
        rest.len() > 0 ==> !white(rest.last()),
    ensures
        without_trailing_white(rest + after) == rest,
    decreases after.len(),
{
    if after.len() == 0 {
        assert(rest + after =~= rest);
    } else {
        assert((rest + after).drop_last() =~= rest + after.drop_last());
        assert((rest + after).last() == after[after.len() - 1]);
        tail_is_taken(rest, after.drop_last());
    }
}

/// Trimming takes away the white space around a text and nothing of the text: what lies between the
/// first and the last other character stays as it is.
pub proof fn white_around_is_trimmed(before: Seq<char>, core: Seq<char>, after: Seq<char>)
    requires
        forall|i: int| 0 <= i < before.len() ==> white(#[trigger] before[i]),
        forall|i: int| 0 <= i < after.len() ==> white(#[trigger] after[i]),
        core.len() > 0 ==> !white(core[0]) && !white(core.last()),
    ensures
        trimmed(before + core + after) == core,
{
    if core.len() == 0 {
        let all = before + after;
        assert(before + core + after =~= all + core);
        assert forall|i: int| 0 <= i < all.len() implies white(#[trigger] all[i]) by {
            if i < before.len() {
                assert(all[i] == before[i]);
            } else {
                assert(all[i] == after[i - before.len()]);
            }
        }
        lead_is_taken(all, core);
    } else {
        assert(before + core + after =~= before + (core + after));
        lead_is_taken(before, core + after);
        tail_is_taken(core, after);
    }
}

/// Every text is its trimmed form with white space around it; gives that white space.
pub proof fn trimming_takes_white_only(s: Seq<char>) -> (around: (Seq<char>, Seq<char>))
    ensures
        s == around.0 + trimmed(s) + around.1,
        forall|i: int| 0 <= i < around.0.len() ==> white(#[trigger] around.0[i]),
        forall|i: int| 0 <= i < around.1.len() ==> white(#[trigger] around.1[i]),
        trimmed(s).len() > 0 ==> !white(trimmed(s)[0]) && !white(trimmed(s).last()),
    decreases s.len(),
{
    if s.len() > 0 && white(s[0]) {
        let (a, b) = trimming_takes_white_only(s.drop_first());
        let more = seq![s[0]] + a;
        let kept = trimmed(s);
        assert(s =~= seq![s[0]] + s.drop_first());
        assert(seq![s[0]] + (a + kept + b) =~= more + kept + b);
        assert forall|i: int| 0 <= i < more.len() implies white(#[trigger] more[i]) by {
            if i > 0 {
                assert(more[i] == a[i - 1]);
            }
        }
        (more, b)
    } else {
        let b = trailing_part(s);
        trailing_white_gone(s);
        assert(s =~= Seq::<char>::empty() + trimmed(s) + b);
        (Seq::empty(), b)
    }
}

/// The white space at the end of `s`.
proof fn trailing_part(s: Seq<char>) -> (b: Seq<char>)
    ensures
        s == without_trailing_white(s) + b,
        forall|i: int| 0 <= i < b.len() ==> white(#[trigger] b[i]),
    decreases s.len(),
{
    if s.len() > 0 && white(s.last()) {
        let b = trailing_part(s.drop_last());
        let more = b.push(s.last());
        let kept = without_trailing_white(s);
        assert(s =~= s.drop_last().push(s.last()));
        assert((kept + b).push(s.last()) =~= kept + more);
        assert forall|i: int| 0 <= i < more.len() implies white(#[trigger] more[i]) by {
            if i < b.len() {
                assert(more[i] == b[i]);
            }
        }
        more
    } else {
        assert(s =~= s + Seq::<char>::empty());
        Seq::empty()
    }
}

/// A minus sign turns the number round, a plus sign changes nothing, and each further digit counts
/// ten times less than the one before it.
pub proof fn numbers_are_read_by_sign_and_place(digits: Seq<char>, next: char)
    requires
        natural(digits) is Some,
        '0' <= next <= '9',
    ensures
        unsigned_number(digits) == natural(digits),
        unsigned_number(seq!['+'] + digits) == natural(digits),
        signed_number(seq!['+'] + digits) == Some(natural(digits)->0 as int),
        signed_number(digits) == Some(natural(digits)->0 as int),
        signed_number(seq!['-'] + digits) == Some(-(natural(digits)->0 as int)),
        natural(seq![next]) == Some((next as u32 - '0' as u32) as nat),
        natural(digits.push(next)) == Some(
            (10 * natural(digits)->0 + (next as u32 - '0' as u32)) as nat,
        ),
{
    assert((seq!['+'] + digits).drop_first() =~= digits);
    assert((seq!['-'] + digits).drop_first() =~= digits);
    assert('0' <= digits[0] <= '9');
    assert(digits.push(next).drop_last() =~= digits);
    assert forall|i: int| 0 <= i < digits.push(next).len() implies '0' <= #[trigger] digits.push(
        next,
    )[i] <= '9' by {
        if i < digits.len() {
            assert(digits.push(next)[i] == digits[i]);
        }
    }
    assert(seq![next].drop_last() =~= Seq::<char>::empty());
    assert(digits_value(seq![next].drop_last()) == 0);
}

/// No number is read from empty text, from a sign alone, or from text with anything but digits
/// behind its first character; nor is one read from text that begins with neither sign nor digit.
pub proof fn other_text_is_no_number(s: Seq<char>, at: int)
    requires
        ({
            ||| s.len() == 0
            ||| s == seq!['+'] || s == seq!['-']
            ||| 0 < at < s.len() && !('0' <= s[at] <= '9')
            ||| s.len() > 0 && s[0] != '+' && s[0] != '-' && !('0' <= s[0] <= '9')
        }),
    ensures
        signed_number(s) is None,
        unsigned_number(s) is None,
{
    if s.len() > 0 {
        let rest = s.drop_first();
        if 0 < at < s.len() && !('0' <= s[at] <= '9') {
            assert(rest[at - 1] == s[at]);
            assert(!all_digits(rest));
        }
        if s.len() == 1 {
            assert(rest.len() == 0);
        }
        if s == seq!['-'] {
            assert(!('0' <= s[0] <= '9'));
        }
    }
}

/// A list with nothing in it joins to nothing, one with a single text joins to that text, and two
/// lists one behind the other join to what each of them joins to, with the separator between.
pub proof fn joining_piecewise(a: Seq<Seq<char>>, b: Seq<Seq<char>>, part: Seq<char>, sep: Seq<char>)
    ensures
        joined(Seq::empty(), sep) == Seq::<char>::empty(),
        joined(seq![part], sep) == part,
        a.len() > 0 && b.len() > 0 ==> joined(a + b, sep) == joined(a, sep) + sep + joined(b, sep),
    decreases b.len(),
{
    if a.len() > 0 && b.len() > 0 {
        let all = a + b;
        assert(all.last() == b.last());
        assert(all.drop_last() =~= a + b.drop_last());
        if b.len() == 1 {
            assert(a + b.drop_last() =~= a);
            assert(joined(all, sep) =~= joined(a, sep) + sep + joined(b, sep));
        } else {
            joining_piecewise(a, b.drop_last(), part, sep);
            assert(joined(all, sep) =~= joined(a, sep) + sep + joined(b, sep));
        }
    }
}

/// A numeral consists of digits, begins with no zero unless it is the zero, and its last digit is
/// the rest of dividing by ten.
pub proof fn numerals_are_decimal(n: nat)
    ensures
        decimal(n).len() > 0,
        all_digits(decimal(n)),
        decimal(n)[0] == '0' ==> n == 0,
        decimal(n).last() as u32 == '0' as u32 + n % 10,
        n >= 10 ==> decimal(n).drop_last() == decimal(n / 10),
    decreases n,
{
    numeral_reads_back(n);
    if n >= 10 {
        numerals_are_decimal(n / 10);
        assert(decimal(n).drop_last() =~= decimal(n / 10));
        assert(decimal(n)[0] == decimal(n / 10)[0]);
    }
}

} // verus!
