//! Text as sequences of characters: the lexicographic order used for every
//! sorted listing, decimal rendering of counts and patch ids, and the reading
//! of integers from text.

use vstd::prelude::*;

verus! {

/// `a` and `b` have the same first `k` characters.
pub open spec fn same_prefix(a: Seq<char>, b: Seq<char>, k: int) -> bool {
    &&& 0 <= k <= a.len()
    &&& k <= b.len()
    &&& forall|j: int| 0 <= j < k ==> a[j] == b[j]
}

/// `k` is the position that decides `a` before `b`: both agree up to `k`, and
/// there either `a` ends while `b` goes on, or `a` holds the smaller character.
pub open spec fn decided_at(a: Seq<char>, b: Seq<char>, k: int) -> bool {
    &&& same_prefix(a, b, k)
    &&& k < b.len()
    &&& k < a.len() ==> (a[k] as int) < (b[k] as int)
}

/// Strict lexicographic order on text, character by character.
pub open spec fn text_before(a: Seq<char>, b: Seq<char>) -> bool {
    exists|k: int| decided_at(a, b, k)
}

/// A sequence of texts in strictly ascending lexicographic order.
pub open spec fn ascending(names: Seq<Seq<char>>) -> bool {
    forall|i: int, j: int| 0 <= i < j < names.len() ==> text_before(names[i], names[j])
}

/// No text comes before itself.
pub proof fn lemma_before_irreflexive(a: Seq<char>)
    ensures
        !text_before(a, a),
{
}

/// The order never holds in both directions.
pub proof fn lemma_before_asymmetric(a: Seq<char>, b: Seq<char>)
    requires
        text_before(a, b),
    ensures
        !text_before(b, a),
{
}

/// The order is transitive.
pub proof fn lemma_before_transitive(a: Seq<char>, b: Seq<char>, c: Seq<char>)
    requires
        text_before(a, b),
        text_before(b, c),
    ensures
        text_before(a, c),
{
    let k = choose|k: int| decided_at(a, b, k);
    let m = choose|m: int| decided_at(b, c, m);
    let n = if k <= m { k } else { m };
    assert(decided_at(a, c, n));
}

/// Two texts that agree on their first `k` characters are equal or ordered.
proof fn lemma_total_from(a: Seq<char>, b: Seq<char>, k: int)
    requires
        same_prefix(a, b, k),
    ensures
        a == b || text_before(a, b) || text_before(b, a),
    decreases a.len() - k,
{
    if k == a.len() {
        if k == b.len() {
            assert(a =~= b);
        } else {
            assert(decided_at(a, b, k));
        }
    } else if k == b.len() {
        assert(decided_at(b, a, k));
    } else if a[k] == b[k] {
        lemma_total_from(a, b, k + 1);
    } else if (a[k] as int) < (b[k] as int) {
        assert(decided_at(a, b, k));
    } else {
        assert(decided_at(b, a, k));
    }
}

/// Any two different texts are ordered one way or the other.
pub proof fn lemma_before_total(a: Seq<char>, b: Seq<char>)
    ensures
        a == b || text_before(a, b) || text_before(b, a),
{
    lemma_total_from(a, b, 0);
}

/// The code point of `c` as a machine integer.
fn char_code(c: char) -> (u: u32)
    ensures
        u as int == c as int,
{
    c as u32
}

/// The characters of `s`, in order.
pub fn chars_of(s: &str) -> (out: Vec<char>)
    ensures
        out@ == s@,
{
    let mut out: Vec<char> = Vec::new();
    for c in it: s.chars()
        invariant
            out@ == it.seq().take(it.index() as int),
            it.seq() == s@,
    {
        out.push(c);
    }
    out
}

/// Decides the lexicographic order of two character vectors.
pub fn chars_before(a: &Vec<char>, b: &Vec<char>) -> (r: bool)
    ensures
        r == text_before(a@, b@),
{
    let mut i: usize = 0;
    while i < a.len() && i < b.len()
        invariant
            same_prefix(a@, b@, i as int),
        decreases a.len() - i,
    {
        let x: char = a[i];
        let y: char = b[i];
        if x != y {
            let r = char_code(x) < char_code(y);
            proof {
                if r {
                    assert(decided_at(a@, b@, i as int));
                } else {
                    assert(decided_at(b@, a@, i as int));
                }
            }
            return r;
        }
        i += 1;
    }
    proof {
        if i < b.len() {
            assert(decided_at(a@, b@, i as int));
        }
    }
    i < b.len()
}

/// Decides whether `a` comes before `b` in lexicographic order.
pub fn precedes(a: &str, b: &str) -> (r: bool)
    ensures
        r == text_before(a@, b@),
{
    let x = chars_of(a);
    let y = chars_of(b);
    chars_before(&x, &y)
}

/// The character that writes the decimal digit `d`.
pub open spec fn digit_char(d: int) -> char {
    if d == 0 {
        '0'
    } else if d == 1 {
        '1'
    } else if d == 2 {
        '2'
    } else if d == 3 {
        '3'
    } else if d == 4 {
        '4'
    } else if d == 5 {
        '5'
    } else if d == 6 {
        '6'
    } else if d == 7 {
        '7'
    } else if d == 8 {
        '8'
    } else {
        '9'
    }
}

/// The decimal text of `n`: most significant digit first, no sign, no leading
/// zero except for zero itself.
pub open spec fn decimal(n: nat) -> Seq<char>
    decreases n,
{
    if n < 10 {
        seq![digit_char(n as int)]
    } else {
        decimal(n / 10).push(digit_char((n % 10) as int))
    }
}

/// The one-character text of a single decimal digit.
fn digit_text(d: u64) -> (s: &'static str)
    requires
        d < 10,
    ensures
        s@ == seq![digit_char(d as int)],
{
    proof {
        reveal_strlit("0");
        reveal_strlit("1");
        reveal_strlit("2");
        reveal_strlit("3");
        reveal_strlit("4");
        reveal_strlit("5");
        reveal_strlit("6");
        reveal_strlit("7");
        reveal_strlit("8");
        reveal_strlit("9");
    }
    let s = if d == 0 {
        "0"
    } else if d == 1 {
        "1"
    } else if d == 2 {
        "2"
    } else if d == 3 {
        "3"
    } else if d == 4 {
        "4"
    } else if d == 5 {
        "5"
    } else if d == 6 {
        "6"
    } else if d == 7 {
        "7"
    } else if d == 8 {
        "8"
    } else {
        "9"
    };
    s
}

/// Writes `n` in decimal.
pub fn decimal_text(n: u64) -> (s: String)
    ensures
        s@ == decimal(n as nat),
    decreases n,
{
    if n < 10 {
        String::from_str(digit_text(n))
    } else {
        let mut s = decimal_text(n / 10);
        s.append(digit_text(n % 10));
        s
    }
}

/// `c` is one of the ten ASCII decimal digits.
pub open spec fn is_digit(c: char) -> bool {
    48 <= c as int <= 57
}

/// Every character of `s` is a decimal digit.
pub open spec fn all_digits(s: Seq<char>) -> bool {
    forall|i: int| 0 <= i < s.len() ==> is_digit(#[trigger] s[i])
}

/// The number that a run of decimal digits writes; leading zeros count for
/// nothing and the empty run is zero.
pub open spec fn digits_value(s: Seq<char>) -> int
    decreases s.len(),
{
    if s.len() == 0 {
        0
    } else {
        digits_value(s.drop_last()) * 10 + (s.last() as int - 48)
    }
}

/// The number written by `body` when it is a non-empty run of digits.
pub open spec fn digits_number(body: Seq<char>) -> Option<int> {
    if body.len() > 0 && all_digits(body) {
        Some(digits_value(body))
    } else {
        None
    }
}

/// The integer that `s` writes: an optional `+`, or for a signed reading an
/// optional `-`, followed by one or more decimal digits and nothing else.
pub open spec fn number_of_text(s: Seq<char>, signed: bool) -> Option<int> {
    if s.len() > 0 && s[0] == '+' {
        digits_number(s.skip(1))
    } else if signed && s.len() > 0 && s[0] == '-' {
        match digits_number(s.skip(1)) {
            Some(v) => Some(-v),
            None => None,
        }
    } else {
        digits_number(s)
    }
}

/// A longer run of digits never writes a smaller number than its prefix.
proof fn lemma_digits_value_grows(s: Seq<char>, k: int)
    requires
        all_digits(s),
        0 <= k <= s.len(),
    ensures
        0 <= digits_value(s.take(k)) <= digits_value(s),
    decreases s.len() - k,
{
    if k == s.len() {
        assert(s.take(k) =~= s);
        lemma_digits_value_nonnegative(s);
    } else {
        lemma_digits_value_grows(s, k + 1);
        let t = s.take(k + 1);
        assert(t.drop_last() =~= s.take(k));
    }
}

proof fn lemma_digits_value_nonnegative(s: Seq<char>)
    requires
        all_digits(s),
    ensures
        0 <= digits_value(s),
    decreases s.len(),
{
    if s.len() > 0 {
        lemma_digits_value_nonnegative(s.drop_last());
    }
}

/// Reads the digits of `chars` from position `from` to the end, as far as the
/// number stays within `limit`.
fn read_digits(chars: &Vec<char>, from: usize, limit: u128) -> (r: Option<u128>)
    requires
        from <= chars.len(),
        limit <= 0x1_0000_0000_0000_0000,
    ensures
        match r {
            Some(x) => x <= limit && digits_number(chars@.skip(from as int)) == Some(x as int),
            None => match digits_number(chars@.skip(from as int)) {
                Some(v) => v > limit,
                None => true,
            },
        },
{
    let ghost body = chars@.skip(from as int);
    if from == chars.len() {
        return None;
    }
    let mut acc: u128 = 0;
    let mut i: usize = from;
    while i < chars.len()
        invariant
            from <= i <= chars.len(),
            body == chars@.skip(from as int),
            all_digits(body.take(i - from)),
            acc == digits_value(body.take(i - from)),
            acc <= limit,
            limit <= 0x1_0000_0000_0000_0000,
        decreases chars.len() - i,
    {
        let c: char = chars[i];
        let code = char_code(c);
        if code < 48 || code > 57 {
            assert(!is_digit(body[i - from]));
            return None;
        }
        let next: u128 = acc * 10 + ((code - 48) as u128);
        proof {
            let t = body.take(i - from + 1);
            assert(t.drop_last() =~= body.take(i - from));
            if next > limit && all_digits(body) {
                lemma_digits_value_grows(body, i - from + 1);
            }
        }
        if next > limit {
            return None;
        }
        acc = next;
        i += 1;
    }
    assert(body.take(i - from) =~= body);
    Some(acc)
}

/// The exit code recorded when the stored text is not an integer.
pub const UNREADABLE_EXIT_CODE: i64 = 404;

/// The patch id that a directory name stands for: its number when the name
/// writes an unsigned integer of at most 255, and 0 otherwise.
pub open spec fn patch_of_text(s: Seq<char>) -> u8 {
    match number_of_text(s, false) {
        Some(v) => if v <= 255 {
            v as u8
        } else {
            0
        },
        None => 0,
    }
}

/// The exit code that a stored text stands for: its number when the text
/// writes a signed 64-bit integer, and the sentinel 404 otherwise.
pub open spec fn exit_code_of_text(s: Seq<char>) -> i64 {
    match number_of_text(s, true) {
        Some(v) => if -0x8000_0000_0000_0000 <= v <= 0x7fff_ffff_ffff_ffff {
            v as i64
        } else {
            UNREADABLE_EXIT_CODE
        },
        None => UNREADABLE_EXIT_CODE,
    }
}

/// Reads a patch id from the name of a directory.
pub fn parse_patch(name: &str) -> (p: u8)
    ensures
        p == patch_of_text(name@),
{
    let chars = chars_of(name);
    let from: usize = if chars.len() > 0 && chars[0] == '+' {
        1
    } else {
        0
    };
    assert(chars@.skip(0) =~= chars@);
    match read_digits(&chars, from, 255) {
        Some(v) => v as u8,
        None => 0,
    }
}

/// Reads an exit code from the text stored for a test run.
pub fn parse_exit_code(text: &str) -> (c: i64)
    ensures
        c == exit_code_of_text(text@),
{
    let chars = chars_of(text);
    assert(chars@.skip(0) =~= chars@);
    if chars.len() > 0 && chars[0] == '-' {
        match read_digits(&chars, 1, 0x8000_0000_0000_0000) {
            Some(v) => if v == 0x8000_0000_0000_0000 {
                i64::MIN
            } else {
                -(v as i64)
            },
            None => UNREADABLE_EXIT_CODE,
        }
    } else {
        let from: usize = if chars.len() > 0 && chars[0] == '+' {
            1
        } else {
            0
        };
        match read_digits(&chars, from, 0x7fff_ffff_ffff_ffff) {
            Some(v) => v as i64,
            None => UNREADABLE_EXIT_CODE,
        }
    }
}

/// The decimal text of a signed number: a minus sign before the digits of a
/// negative one.
pub open spec fn signed_decimal(v: int) -> Seq<char> {
    if v < 0 {
        seq!['-'] + decimal((-v) as nat)
    } else {
        decimal(v as nat)
    }
}

/// Writes `v` in decimal.
pub fn signed_decimal_text(v: i64) -> (s: String)
    ensures
        s@ == signed_decimal(v as int),
{
    if v < 0 {
        let magnitude: u64 = if v == i64::MIN {
            0x8000_0000_0000_0000
        } else {
            (-v) as u64
        };
        proof {
            reveal_strlit("-");
        }
        let mut s = String::from_str("-");
        let digits = decimal_text(magnitude);
        s.append(digits.as_str());
        s
    } else {
        decimal_text(v as u64)
    }
}

/// How often the character `c` occurs in `s`.
pub open spec fn occurrences(s: Seq<char>, c: char) -> nat
    decreases s.len(),
{
    if s.len() == 0 {
        0
    } else {
        occurrences(s.drop_last(), c) + if s.last() == c {
            1nat
        } else {
            0nat
        }
    }
}

/// The number of lines of a text: each line feed ends a line, and what
/// follows the last line feed is a line if it is not empty.
pub open spec fn line_count(s: Seq<char>) -> nat {
    occurrences(s, '\n') + if s.len() > 0 && s.last() != '\n' {
        1nat
    } else {
        0nat
    }
}

/// `c` occurs at most once at each position.
proof fn lemma_occurrences_bound(s: Seq<char>, c: char)
    ensures
        occurrences(s, c) <= s.len(),
        s.len() > 0 && s.last() != c ==> occurrences(s, c) < s.len(),
    decreases s.len(),
{
    if s.len() > 0 {
        lemma_occurrences_bound(s.drop_last(), c);
    }
}

/// Counts the lines of `text`.
pub fn count_lines(text: &str) -> (n: usize)
    ensures
        n == line_count(text@),
{
    let chars = chars_of(text);
    let mut n: usize = 0;
    let mut i: usize = 0;
    while i < chars.len()
        invariant
            i <= chars.len(),
            n == occurrences(chars@.take(i as int), '\n'),
            n <= i,
        decreases chars.len() - i,
    {
        proof {
            let next = chars@.take(i + 1);
            assert(next.drop_last() =~= chars@.take(i as int));
        }
        if chars[i] == '\n' {
            n += 1;
        }
        i += 1;
    }
    proof {
        assert(chars@.take(i as int) =~= chars@);
        lemma_occurrences_bound(chars@, '\n');
    }
    if chars.len() > 0 && chars[chars.len() - 1] != '\n' {
        n + 1
    } else {
        n
    }
}

/// Decides whether two texts are the same.
pub fn same_text(a: &str, b: &str) -> (r: bool)
    ensures
        r == (a@ == b@),
{
    let x = chars_of(a);
    let y = chars_of(b);
    if x.len() != y.len() {
        return false;
    }
    let mut i: usize = 0;
    while i < x.len()
        invariant
            i <= x.len(),
            x.len() == y.len(),
            x@ == a@,
            y@ == b@,
            forall|j: int| 0 <= j < i ==> x[j] == y[j],
        decreases x.len() - i,
    {
        if x[i] != y[i] {
            return false;
        }
        i += 1;
    }
    assert(x@ =~= y@);
    true
}

} // verus!
