//! Character sequences: whitespace, words, trimming and searching.
//!
//! Every function here works on the characters of a string, so positions are
//! character positions, never byte offsets.
use vstd::prelude::*;
use vstd::string::*;

verus! {

/// The classes of characters that the scanners tell apart.
#[derive(Clone, Copy, PartialEq, Eq, Structural)]
pub enum Class {
    /// Whitespace.
    Blank,
    /// Anything but whitespace: what words are made of.
    Solid,
    /// Anything but whitespace and quotation marks: what a bare link is made of.
    Link,
    /// Quotation marks and commas: what may surround a link.
    Wrapping,
}

/// The characters with the Unicode `White_Space` property.
pub open spec fn white_space(c: char) -> bool {
    let n = c as u32;
    ||| 0x9 <= n <= 0xd
    ||| n == 0x20
    ||| n == 0x85
    ||| n == 0xa0
    ||| n == 0x1680
    ||| 0x2000 <= n <= 0x200a
    ||| n == 0x2028
    ||| n == 0x2029
    ||| n == 0x202f
    ||| n == 0x205f
    ||| n == 0x3000
}

/// `c` is a single or a double quotation mark.
pub open spec fn quotation_mark(c: char) -> bool {
    c == '"' || c == '\''
}

/// `c` belongs to `class`.
pub open spec fn in_class(c: char, class: Class) -> bool {
    match class {
        Class::Blank => white_space(c),
        Class::Solid => !white_space(c),
        Class::Link => !white_space(c) && !quotation_mark(c),
        Class::Wrapping => quotation_mark(c) || c == ',',
    }
}

/// Every character of `s` belongs to `class`.
pub open spec fn all_in(s: Seq<char>, class: Class) -> bool {
    forall|i: int| 0 <= i < s.len() ==> in_class(#[trigger] s[i], class)
}

/// How many characters at the front of `s` belong to `class`, up to the first that does not.
pub open spec fn run_len(s: Seq<char>, class: Class) -> nat
    decreases s.len(),
{
    if s.len() == 0 || !in_class(s[0], class) {
        0
    } else {
        1 + run_len(s.drop_first(), class)
    }
}

/// The maximal runs of `s` without whitespace, from left to right.
pub open spec fn words(s: Seq<char>) -> Seq<Seq<char>>
    decreases s.len(),
{
    let t = s.skip(run_len(s, Class::Blank) as int);
    let n = run_len(t, Class::Solid) as int;
    if t.len() == 0 {
        Seq::empty()
    } else {
        proof {
            lemma_run_len(s, Class::Blank);
            lemma_run_len(t, Class::Solid);
        }
        seq![t.take(n)] + words(t.skip(n))
    }
}

/// `s` without the characters of `class` at either end.
pub open spec fn trimmed(s: Seq<char>, class: Class) -> Seq<char>
    decreases s.len(),
{
    if s.len() == 0 {
        s
    } else if in_class(s[0], class) {
        trimmed(s.drop_first(), class)
    } else if in_class(s.last(), class) {
        trimmed(s.drop_last(), class)
    } else {
        s
    }
}

/// `pat` stands in `s` at position `i`.
pub open spec fn occurs_at(s: Seq<char>, pat: Seq<char>, i: int) -> bool {
    &&& 0 <= i
    &&& i + pat.len() <= s.len()
    &&& s.subrange(i, i + pat.len()) == pat
}

/// `pat` stands somewhere in `s`.
pub open spec fn occurs(s: Seq<char>, pat: Seq<char>) -> bool {
    exists|i: int| occurs_at(s, pat, i)
}

/// The first position at which `pat` stands in `s`, if it stands there at all.
pub open spec fn position(s: Seq<char>, pat: Seq<char>) -> Option<nat>
    decreases s.len(),
{
    if occurs_at(s, pat, 0) {
        Some(0)
    } else if s.len() == 0 {
        None
    } else {
        match position(s.drop_first(), pat) {
            Some(i) => Some(i + 1),
            None => None,
        }
    }
}

/// A run is never longer than its sequence, holds only characters of its class, and ends at
/// the first character of another.
pub proof fn lemma_run_len(s: Seq<char>, class: Class)
    ensures
        run_len(s, class) <= s.len(),
        forall|i: int| 0 <= i < run_len(s, class) ==> in_class(#[trigger] s[i], class),
        run_len(s, class) < s.len() ==> !in_class(s[run_len(s, class) as int], class),
    decreases s.len(),
{
    if s.len() > 0 && in_class(s[0], class) {
        lemma_run_len(s.drop_first(), class);
        assert forall|i: int| 0 <= i < run_len(s, class) implies in_class(#[trigger] s[i], class) by {
            if i > 0 {
                assert(s[i] == s.drop_first()[i - 1]);
            }
        }
    }
}

/// The length of a run is fixed by where it ends.
pub proof fn lemma_run_len_is(s: Seq<char>, class: Class, n: nat)
    requires
        n <= s.len(),
        forall|i: int| 0 <= i < n ==> in_class(#[trigger] s[i], class),
        n < s.len() ==> !in_class(s[n as int], class),
    ensures
        run_len(s, class) == n,
{
    lemma_run_len(s, class);
    if run_len(s, class) < n {
        assert(in_class(s[run_len(s, class) as int], class));
    }
}

/// `trimmed` keeps a piece of `s`; what it cuts off belongs to the class, and what it keeps
/// neither starts nor ends with a character of the class.
pub proof fn lemma_trimmed(s: Seq<char>, class: Class) -> (cut: (int, int))
    ensures
        0 <= cut.0 <= cut.1 <= s.len(),
        trimmed(s, class) == s.subrange(cut.0, cut.1),
        forall|i: int| 0 <= i < cut.0 ==> in_class(#[trigger] s[i], class),
        forall|i: int| cut.1 <= i < s.len() ==> in_class(#[trigger] s[i], class),
        cut.0 < cut.1 ==> !in_class(s[cut.0], class) && !in_class(s[cut.1 - 1], class),
    decreases s.len(),
{
    if s.len() == 0 {
        assert(s.subrange(0, 0) == s);
        (0, 0)
    } else if in_class(s[0], class) {
        let t = s.drop_first();
        let (a, b) = lemma_trimmed(t, class);
        assert(t.subrange(a, b) == s.subrange(a + 1, b + 1));
        assert forall|i: int| 0 <= i < a + 1 implies in_class(#[trigger] s[i], class) by {
            if i > 0 {
                assert(s[i] == t[i - 1]);
            }
        }
        assert forall|i: int| b + 1 <= i < s.len() implies in_class(#[trigger] s[i], class) by {
            assert(s[i] == t[i - 1]);
        }
        (a + 1, b + 1)
    } else if in_class(s.last(), class) {
        let t = s.drop_last();
        let (a, b) = lemma_trimmed(t, class);
        assert(t.subrange(a, b) == s.subrange(a, b));
        assert forall|i: int| 0 <= i < a implies in_class(#[trigger] s[i], class) by {
            assert(s[i] == t[i]);
        }
        assert forall|i: int| b <= i < s.len() implies in_class(#[trigger] s[i], class) by {
            if i < t.len() {
                assert(s[i] == t[i]);
            }
        }
        (a, b)
    } else {
        assert(s.subrange(0, s.len() as int) == s);
        (0, s.len() as int)
    }
}

/// The piece that `trimmed` keeps is fixed by what stands at its two ends.
pub proof fn lemma_trimmed_is(s: Seq<char>, class: Class, a: int, b: int)
    requires
        0 <= a <= b <= s.len(),
        forall|i: int| 0 <= i < a ==> in_class(#[trigger] s[i], class),
        forall|i: int| b <= i < s.len() ==> in_class(#[trigger] s[i], class),
        a < b ==> !in_class(s[a], class) && !in_class(s[b - 1], class),
    ensures
        trimmed(s, class) == s.subrange(a, b),
{
    let (x, y) = lemma_trimmed(s, class);
    if a < b {
        assert(x <= a) by {
            if x > a {
                assert(in_class(s[a], class));
            }
        }
        assert(y >= b) by {
            if y < b {
                assert(in_class(s[b - 1], class));
            }
        }
        assert(x == a) by {
            if x < a {
                assert(in_class(s[x], class));
            }
        }
        assert(y == b) by {
            if y > b {
                assert(in_class(s[y - 1], class));
            }
        }
    } else {
        assert(x == y) by {
            if x < y {
                assert(in_class(s[x], class));
            }
        }
        assert(s.subrange(a, b) == s.subrange(x, y));
    }
}

/// `position` finds the first occurrence, and misses none.
pub proof fn lemma_position(s: Seq<char>, pat: Seq<char>)
    ensures
        match position(s, pat) {
            Some(i) => occurs_at(s, pat, i as int) && forall|j: int|
                0 <= j < i ==> !occurs_at(s, pat, j),
            None => !occurs(s, pat),
        },
    decreases s.len(),
{
    if !occurs_at(s, pat, 0) && s.len() > 0 {
        let t = s.drop_first();
        lemma_position(t, pat);
        assert forall|j: int| 1 <= j implies occurs_at(s, pat, j) == occurs_at(t, pat, j - 1) by {
            if j + pat.len() <= s.len() {
                assert(s.subrange(j, j + pat.len()) == t.subrange(j - 1, j - 1 + pat.len()));
            }
        }
        match position(t, pat) {
            Some(i) => {
                assert forall|j: int| 0 <= j < i + 1 implies !occurs_at(s, pat, j) by {
                    if j > 0 {
                        assert(!occurs_at(t, pat, j - 1));
                    }
                }
            },
            None => {
                assert forall|j: int| !occurs_at(s, pat, j) by {
                    if j > 0 {
                        assert(!occurs_at(t, pat, j - 1));
                    }
                }
            },
        }
    }
}

/// The position is fixed by being the first.
pub proof fn lemma_position_is(s: Seq<char>, pat: Seq<char>, i: nat)
    requires
        occurs_at(s, pat, i as int),
        forall|j: int| 0 <= j < i ==> !occurs_at(s, pat, j),
    ensures
        position(s, pat) == Some(i),
{
    lemma_position(s, pat);
    assert(occurs(s, pat));
}

/// What stands in a piece of `s` stands in `s`.
pub proof fn lemma_occurs_in_piece(s: Seq<char>, a: int, b: int, pat: Seq<char>)
    requires
        0 <= a <= b <= s.len(),
        occurs(s.subrange(a, b), pat),
    ensures
        occurs(s, pat),
{
    let i = choose|i: int| occurs_at(s.subrange(a, b), pat, i);
    assert(s.subrange(a, b).subrange(i, i + pat.len()) == s.subrange(a + i, a + i + pat.len()));
    assert(occurs_at(s, pat, a + i));
}

/// Whether `c` is whitespace.
pub fn is_whitespace(c: char) -> (res: bool)
    ensures
        res == white_space(c),
{
    let n: u32 = c as u32;
    (0x9 <= n && n <= 0xd) || n == 0x20 || n == 0x85 || n == 0xa0 || n == 0x1680 || (0x2000 <= n
        && n <= 0x200a) || n == 0x2028 || n == 0x2029 || n == 0x202f || n == 0x205f || n == 0x3000
}

/// Whether `c` belongs to `class`.
pub fn is_in_class(c: char, class: Class) -> (res: bool)
    ensures
        res == in_class(c, class),
{
    match class {
        Class::Blank => is_whitespace(c),
        Class::Solid => !is_whitespace(c),
        Class::Link => !is_whitespace(c) && c != '"' && c != '\'',
        Class::Wrapping => c == '"' || c == '\'' || c == ',',
    }
}

/// The characters of `s`.
pub fn chars_of(s: &str) -> (res: Vec<char>)
    ensures
        res@ == s@,
{
    let mut res: Vec<char> = Vec::new();
    for c in it: s.chars()
        invariant
            it.seq() == s@,
            res@ == s@.take(it.index() as int),
    {
        assert(s@.take(it.index() as int).push(c) == s@.take(it.index() + 1));
        res.push(c);
    }
    assert(s@.take(s@.len() as int) == s@);
    res
}

/// The position after the run of `class` that starts at `from`.
pub fn end_of_run(chars: &Vec<char>, from: usize, class: Class) -> (end: usize)
    requires
        from <= chars@.len(),
    ensures
        from <= end <= chars@.len(),
        end - from == run_len(chars@.skip(from as int), class),
{
    let mut end: usize = from;
    let ghost s = chars@.skip(from as int);
    while end < chars.len() && is_in_class(chars[end], class)
        invariant
            s == chars@.skip(from as int),
            from <= end <= chars@.len(),
            forall|i: int| 0 <= i < end - from ==> in_class(#[trigger] s[i], class),
        decreases chars.len() - end,
    {
        assert(s[end - from] == chars@[end as int]);
        end += 1;
    }
    proof {
        if end < chars@.len() {
            assert(s[end - from] == chars@[end as int]);
        }
        lemma_run_len_is(s, class, (end - from) as nat);
    }
    end
}

/// The two ends of what is left of `chars[from..to]` without the characters of `class` at
/// either end.
pub fn trim(chars: &Vec<char>, from: usize, to: usize, class: Class) -> (res: (usize, usize))
    requires
        from <= to <= chars@.len(),
    ensures
        from <= res.0 <= res.1 <= to,
        chars@.subrange(res.0 as int, res.1 as int) == trimmed(
            chars@.subrange(from as int, to as int),
            class,
        ),
{
    let ghost s = chars@.subrange(from as int, to as int);
    let mut a: usize = from;
    while a < to && is_in_class(chars[a], class)
        invariant
            from <= a <= to <= chars@.len(),
            s == chars@.subrange(from as int, to as int),
            forall|i: int| 0 <= i < a - from ==> in_class(#[trigger] s[i], class),
        decreases to - a,
    {
        assert(s[a - from] == chars@[a as int]);
        a += 1;
    }
    let mut b: usize = to;
    while a < b && is_in_class(chars[b - 1], class)
        invariant
            from <= a <= b <= to <= chars@.len(),
            s == chars@.subrange(from as int, to as int),
            forall|i: int| b - from <= i < s.len() ==> in_class(#[trigger] s[i], class),
        decreases b - a,
    {
        assert(s[b - 1 - from] == chars@[b - 1]);
        b -= 1;
    }
    proof {
        if a < b {
            assert(s[a - from] == chars@[a as int]);
            assert(s[b - 1 - from] == chars@[b - 1]);
        }
        lemma_trimmed_is(s, class, a - from, b - from);
        assert(chars@.subrange(a as int, b as int) == s.subrange(a - from, b - from));
    }
    (a, b)
}

/// Whether `pat` stands in `chars[from..to]` at its front.
pub fn starts_with(chars: &Vec<char>, from: usize, to: usize, pat: &Vec<char>) -> (res: bool)
    requires
        from <= to <= chars@.len(),
    ensures
        res == occurs_at(chars@.subrange(from as int, to as int), pat@, 0),
{
    let ghost s = chars@.subrange(from as int, to as int);
    if to - from < pat.len() {
        return false;
    }
    let mut k: usize = 0;
    while k < pat.len()
        invariant
            from <= to <= chars@.len(),
            s == chars@.subrange(from as int, to as int),
            k <= pat@.len() <= to - from,
            forall|i: int| 0 <= i < k ==> s[i] == #[trigger] pat@[i],
        decreases pat.len() - k,
    {
        assert(s[k as int] == chars@[from + k]);
        if chars[from + k] != pat[k] {
            assert(s.subrange(0, pat@.len() as int)[k as int] != pat@[k as int]);
            return false;
        }
        k += 1;
    }
    assert(s.subrange(0, pat@.len() as int) =~= pat@);
    true
}

/// The first position, counted from `from`, at which `pat` stands in `chars[from..to]`.
pub fn find(chars: &Vec<char>, from: usize, to: usize, pat: &Vec<char>) -> (res: Option<usize>)
    requires
        from <= to <= chars@.len(),
    ensures
        match res {
            Some(i) => position(chars@.subrange(from as int, to as int), pat@) == Some(i as nat),
            None => position(chars@.subrange(from as int, to as int), pat@) is None,
        },
{
    let ghost s = chars@.subrange(from as int, to as int);
    let mut i: usize = from;
    loop
        invariant
            from <= i <= to <= chars@.len(),
            s == chars@.subrange(from as int, to as int),
            forall|j: int| 0 <= j < i - from ==> !occurs_at(s, pat@, j),
        decreases to - i,
    {
        let here = starts_with(chars, i, to, pat);
        proof {
            let rest = chars@.subrange(i as int, to as int);
            if (i - from) + pat@.len() <= s.len() {
                assert(rest.subrange(0, pat@.len() as int) == s.subrange(
                    i - from,
                    i - from + pat@.len(),
                ));
            }
            assert(here == occurs_at(s, pat@, i - from));
        }
        if here {
            proof {
                lemma_position_is(s, pat@, (i - from) as nat);
            }
            return Some(i - from);
        }
        if i == to {
            proof {
                lemma_position(s, pat@);
                if position(s, pat@) is Some {
                    let j = position(s, pat@)->0 as int;
                    assert(!occurs_at(s, pat@, j));
                }
            }
            return None;
        }
        i += 1;
    }
}

/// The character of a decimal digit.
pub open spec fn digit(d: nat) -> char {
    ('0' as u32 + d) as char
}

/// `n` in decimal, without leading zeros.
pub open spec fn decimal(n: nat) -> Seq<char>
    decreases n,
{
    if n < 10 {
        seq![digit(n)]
    } else {
        decimal(n / 10).push(digit(n % 10))
    }
}

/// A decimal digit as text.
fn digit_text(d: u16) -> (res: &'static str)
    requires
        d < 10,
    ensures
        res@ == seq![digit(d as nat)],
{
    proof {
        reveal_strlit("0");
        reveal_strlit("1");
        reveal_strlit("2");
        reveal_strlit("3");
        reveal_strlit("4");
        reveal_strlit("5");
        reveal_strlit("6");
        reveal_strlit("7");
        reveal_strlit("8");
        reveal_strlit("9");
    }
    let res: &'static str = match d {
        0 => "0",
        1 => "1",
        2 => "2",
        3 => "3",
        4 => "4",
        5 => "5",
        6 => "6",
        7 => "7",
        8 => "8",
        _ => "9",
    };
    assert(res@ =~= seq![digit(d as nat)]);
    res
}

/// `n` in decimal, without leading zeros.
pub fn decimal_text(n: u16) -> (res: String)
    ensures
        res@ == decimal(n as nat),
    decreases n,
{
    if n < 10 {
        digit_text(n).to_owned()
    } else {
        let mut res: String = decimal_text(n / 10);
        let ghost front = res@;
        res.append(digit_text(n % 10));
        assert(res@ =~= front.push(digit((n % 10) as nat)));
        res
    }
}

/// The number that `digits` write in decimal.
pub open spec fn decimal_value(digits: Seq<char>) -> int
    decreases digits.len(),
{
    if digits.len() == 0 {
        0
    } else {
        decimal_value(digits.drop_last()) * 10 + (digits.last() as u32 - '0' as u32)
    }
}

/// A number in decimal reads as that number: it has only digits, at least one, no leading zero
/// unless it is zero, and their value is the number.
pub proof fn law_decimal_reads_back(n: nat)
    ensures
        decimal(n).len() > 0,
        forall|i: int| 0 <= i < decimal(n).len() ==> '0' <= (#[trigger] decimal(n)[i]) <= '9',
        decimal(n).len() > 1 ==> decimal(n)[0] != '0',
        decimal_value(decimal(n)) == n,
    decreases n,
{
    let text = decimal(n);
    if n < 10 {
        assert(text.drop_last() =~= Seq::<char>::empty());
        assert(decimal_value(text.drop_last()) == 0);
    } else {
        law_decimal_reads_back(n / 10);
        let front = decimal(n / 10);
        assert(text.drop_last() =~= front);
        assert forall|i: int| 0 <= i < text.len() implies '0' <= (#[trigger] text[i]) <= '9' by {
            if i < front.len() {
                assert(text[i] == front[i]);
            }
        }
        assert(text[0] == front[0]);
        if front.len() == 1 {
            assert(decimal_value(front.drop_last()) == 0) by {
                assert(front.drop_last() =~= Seq::<char>::empty());
            }
        }
    }
}

/// Decimal goes digit by digit: a number below ten is the one character that many places after
/// `0`, and any other is the number without its last digit, followed by that digit; read back,
/// a further digit adds its own worth to ten times what stands before it.
pub proof fn law_decimal_digit_by_digit(n: nat, front: Seq<char>, c: char)
    ensures
        n < 10 ==> decimal(n).len() == 1 && decimal(n)[0] as u32 == '0' as u32 + n,
        n >= 10 ==> {
            let last = decimal(n).len() - 1;
            &&& last == decimal(n / 10).len()
            &&& forall|i: int| 0 <= i < last ==> #[trigger] decimal(n)[i] == decimal(n / 10)[i]
            &&& decimal(n)[last] as u32 == '0' as u32 + n % 10
        },
        decimal_value(Seq::empty()) == 0,
        decimal_value(front.push(c)) == 10 * decimal_value(front) + (c as u32 - '0' as u32),
{
    assert(front.push(c).drop_last() =~= front);
}

} // verus!
