//! Character-level text helpers shared by the whole translator: the
//! boundary between `String` and `Vec<char>`, decimal rendering and
//! parsing, and the parenthesis-normalising helpers.

use vstd::prelude::*;

verus! {

/// True for the ASCII decimal digits.
pub open spec fn spec_is_digit(c: char) -> bool {
    '0' <= c && c <= '9'
}

/// True for the characters that may start an identifier.
pub open spec fn spec_is_letter(c: char) -> bool {
    ('a' <= c && c <= 'z') || ('A' <= c && c <= 'Z') || c == '_' || c == '$'
}

#[verifier::when_used_as_spec(spec_is_digit)]
pub fn is_digit(c: char) -> (r: bool)
    ensures
        r == spec_is_digit(c),
{
    '0' <= c && c <= '9'
}

#[verifier::when_used_as_spec(spec_is_letter)]
pub fn is_letter(c: char) -> (r: bool)
    ensures
        r == spec_is_letter(c),
{
    ('a' <= c && c <= 'z') || ('A' <= c && c <= 'Z') || c == '_' || c == '$'
}

/// Letters, digits, `_` and `$`: what may continue an identifier.
pub open spec fn spec_is_word_char(c: char) -> bool {
    spec_is_letter(c) || spec_is_digit(c)
}

#[verifier::when_used_as_spec(spec_is_word_char)]
pub fn is_word_char(c: char) -> (r: bool)
    ensures
        r == spec_is_word_char(c),
{
    is_letter(c) || is_digit(c)
}

/// ASCII letters and digits; a converted operand is parenthesised when it
/// holds anything else.
pub open spec fn spec_is_alnum(c: char) -> bool {
    ('a' <= c && c <= 'z') || ('A' <= c && c <= 'Z') || spec_is_digit(c)
}

#[verifier::when_used_as_spec(spec_is_alnum)]
pub fn is_alnum(c: char) -> (r: bool)
    ensures
        r == spec_is_alnum(c),
{
    ('a' <= c && c <= 'z') || ('A' <= c && c <= 'Z') || is_digit(c)
}

/// Relies on `str::chars` (with an iterator collect) to hand the text over
/// as its characters, in order.
#[verifier::external_body]
pub fn str_to_chars(s: &str) -> (r: Vec<char>)
    ensures
        r@ == s@,
{
    s.chars().collect()
}

/// Relies on `String`'s `FromIterator<char>` (through an iterator collect)
/// to assemble the characters, in order, into a string.
#[verifier::external_body]
pub fn chars_to_str(v: &Vec<char>) -> (r: String)
    ensures
        r@ == v@,
{
    v.iter().collect()
}

/// The decimal digit character for a value below ten.
pub open spec fn spec_digit_char(d: int) -> char {
    if d == 0 {
        '0'
    } else if d == 1 {
        '1'
    } else if d == 2 {
        '2'
    } else if d == 3 {
        '3'
    } else if d == 4 {
        '4'
    } else if d == 5 {
        '5'
    } else if d == 6 {
        '6'
    } else if d == 7 {
        '7'
    } else if d == 8 {
        '8'
    } else {
        '9'
    }
}

/// The usual decimal rendering of a natural number, no leading zeros.
pub open spec fn dec_rep(n: nat) -> Seq<char>
    decreases n,
{
    if n < 10 {
        seq![spec_digit_char(n as int)]
    } else {
        dec_rep(n / 10) + seq![spec_digit_char((n % 10) as int)]
    }
}

fn digit_char(d: u64) -> (r: char)
    requires
        d < 10,
    ensures
        r == spec_digit_char(d as int),
{
    if d == 0 {
        '0'
    } else if d == 1 {
        '1'
    } else if d == 2 {
        '2'
    } else if d == 3 {
        '3'
    } else if d == 4 {
        '4'
    } else if d == 5 {
        '5'
    } else if d == 6 {
        '6'
    } else if d == 7 {
        '7'
    } else if d == 8 {
        '8'
    } else {
        '9'
    }
}

/// Decimal rendering of an unsigned value.
pub fn u64_dec(n: u64) -> (r: Vec<char>)
    ensures
        r@ == dec_rep(n as nat),
    decreases n,
{
    if n < 10 {
        let mut r: Vec<char> = Vec::new();
        r.push(digit_char(n));
        assert(r@ =~= dec_rep(n as nat));
        r
    } else {
        let mut r = u64_dec(n / 10);
        r.push(digit_char(n % 10));
        assert(r@ =~= dec_rep(n as nat));
        r
    }
}

/// The decimal rendering of a signed value: a minus sign before the
/// rendering of its magnitude.
pub open spec fn dec_rep_signed(n: int) -> Seq<char> {
    if n < 0 {
        seq!['-'] + dec_rep((-n) as nat)
    } else {
        dec_rep(n as nat)
    }
}

/// Decimal rendering of a signed value.
pub fn i64_dec(n: i64) -> (r: Vec<char>)
    ensures
        r@ == dec_rep_signed(n as int),
{
    if n < 0 {
        let mag: u64 = if n == i64::MIN {
            9223372036854775808u64
        } else {
            (-n) as u64
        };
        assert(mag as int == -(n as int));
        let mut r: Vec<char> = Vec::new();
        r.push('-');
        let mut digits = u64_dec(mag);
        r.append(&mut digits);
        assert(r@ =~= dec_rep_signed(n as int));
        r
    } else {
        let r = u64_dec(n as u64);
        assert(r@ =~= dec_rep_signed(n as int));
        r
    }
}

/// Two-digit zero-padded rendering of a value below one hundred.
pub open spec fn pad2_rep(n: nat) -> Seq<char> {
    if n < 10 {
        seq!['0'] + dec_rep(n)
    } else {
        dec_rep(n)
    }
}

/// Zero-padded rendering used by clock and date macro values.
pub fn u64_pad2(n: u64) -> (r: Vec<char>)
    requires
        n < 100,
    ensures
        r@ == pad2_rep(n as nat),
{
    if n < 10 {
        let mut r: Vec<char> = Vec::new();
        r.push('0');
        let mut digits = u64_dec(n);
        r.append(&mut digits);
        assert(r@ =~= pad2_rep(n as nat));
        r
    } else {
        let r = u64_dec(n);
        assert(r@ =~= pad2_rep(n as nat));
        r
    }
}

/// The value of a digit character.
pub open spec fn spec_digit_val(c: char) -> int {
    c as int - '0' as int
}

/// The number a digit sequence denotes, most significant first.
pub open spec fn dec_val(s: Seq<char>) -> nat
    decreases s.len(),
{
    if s.len() == 0 {
        0
    } else {
        dec_val(s.drop_last()) * 10 + spec_digit_val(s.last()) as nat
    }
}

/// All characters are decimal digits.
pub open spec fn all_digits(s: Seq<char>) -> bool {
    forall|i: int| 0 <= i < s.len() ==> spec_is_digit(#[trigger] s[i])
}

proof fn lemma_dec_val_monotone(s: Seq<char>, i: int)
    requires
        0 <= i <= s.len(),
        all_digits(s),
    ensures
        dec_val(s.take(i)) <= dec_val(s),
    decreases s.len() - i,
{
    if i < s.len() {
        assert(s.take(i + 1).drop_last() =~= s.take(i));
        assert(s.take(i + 1).last() == s[i]);
        assert(spec_is_digit(s[i]));
        assert(dec_val(s.take(i)) <= dec_val(s.take(i + 1)));
        lemma_dec_val_monotone(s, i + 1);
    } else {
        assert(s.take(i) =~= s);
    }
}

/// Reads a decimal number; `None` when the text is not all digits, is
/// empty, or denotes a value too large for the result type.
pub fn parse_u64(s: &Vec<char>) -> (r: Option<u64>)
    ensures
        match r {
            Some(v) => s@.len() > 0 && all_digits(s@) && v as nat == dec_val(s@),
            None => s@.len() == 0 || !all_digits(s@) || dec_val(s@) > u64::MAX,
        },
{
    if s.len() == 0 {
        return None;
    }
    let mut acc: u64 = 0;
    let mut i: usize = 0;
    while i < s.len()
        invariant
            0 <= i <= s@.len(),
            all_digits(s@.take(i as int)),
            acc as nat == dec_val(s@.take(i as int)),
        decreases s@.len() - i,
    {
        let c = s[i];
        if !is_digit(c) {
            assert(!spec_is_digit(s@[i as int]));
            return None;
        }
        let d: u64 = (c as u32 as u64) - ('0' as u32 as u64);
        assert(d as int == spec_digit_val(s@[i as int]));
        assert(d < 10);
        if acc > (u64::MAX - d) / 10 {
            proof {
                assert(s@.take(i as int + 1).drop_last() =~= s@.take(i as int));
                assert(s@.take(i as int + 1).last() == s@[i as int]);
                assert(dec_val(s@.take(i as int + 1)) > u64::MAX);
                if all_digits(s@) {
                    lemma_dec_val_monotone(s@, i as int + 1);
                }
            }
            return None;
        }
        proof {
            assert(s@.take(i as int + 1).drop_last() =~= s@.take(i as int));
            assert(s@.take(i as int + 1).last() == s@[i as int]);
        }
        acc = acc * 10 + d;
        i = i + 1;
    }
    assert(s@.take(i as int) =~= s@);
    Some(acc)
}

/// One step of the parenthesis-balance scan: `stack` holds, for each open
/// parenthesis not yet closed, whether it stood at the very start; `flag`
/// says whether the character just passed closed a parenthesis opened at
/// the start.
pub open spec fn wrap_scan(s: Seq<char>, i: int, stack: Seq<bool>, flag: bool) -> bool
    decreases s.len() - i,
{
    if i < 0 || i >= s.len() {
        flag
    } else if s[i] == '(' {
        wrap_scan(s, i + 1, stack.push(i == 0), false)
    } else if s[i] == ')' {
        if stack.len() > 0 {
            wrap_scan(s, i + 1, stack.drop_last(), stack.last())
        } else {
            wrap_scan(s, i + 1, stack, false)
        }
    } else {
        wrap_scan(s, i + 1, stack, false)
    }
}

/// The whole text is one parenthesised group: its last character closes a
/// parenthesis opened by its first.
pub open spec fn spec_is_wrapped(s: Seq<char>) -> bool {
    wrap_scan(s, 0, Seq::empty(), false)
}

/// Whether the text forms a single outermost parenthesised group.
pub fn is_surrounded_with_parents(s: &Vec<char>) -> (r: bool)
    ensures
        r == spec_is_wrapped(s@),
{
    let mut stack: Vec<bool> = Vec::new();
    let mut flag = false;
    let mut i: usize = 0;
    while i < s.len()
        invariant
            0 <= i <= s@.len(),
            wrap_scan(s@, 0, Seq::empty(), false) == wrap_scan(s@, i as int, stack@, flag),
        decreases s@.len() - i,
    {
        let c = s[i];
        if c == '(' {
            stack.push(i == 0);
            flag = false;
        } else if c == ')' {
            if stack.len() > 0 {
                let top = stack.pop().unwrap();
                flag = top;
            } else {
                flag = false;
            }
        } else {
            flag = false;
        }
        i = i + 1;
    }
    flag
}

/// What `deparentify` returns: the text with one outermost parenthesis
/// pair removed, when it has one.
pub open spec fn spec_deparentify(s: Seq<char>) -> Seq<char> {
    if spec_is_wrapped(s) {
        s.subrange(1, s.len() - 1)
    } else {
        s
    }
}

/// Strips a single outermost parenthesis pair, if the text is one group.
pub fn deparentify(s: &Vec<char>) -> (r: Vec<char>)
    ensures
        r@ == spec_deparentify(s@),
{
    if is_surrounded_with_parents(s) {
        proof {
            if s@.len() == 0 {
                assert(!spec_is_wrapped(s@));
            }
            if s@.len() == 1 {
                if s@[0] == '(' {
                    assert(wrap_scan(s@, 0, Seq::empty(), false) == wrap_scan(
                        s@,
                        1,
                        Seq::<bool>::empty().push(true),
                        false,
                    ));
                    assert(!wrap_scan(s@, 1, Seq::<bool>::empty().push(true), false));
                } else if s@[0] == ')' {
                    assert(wrap_scan(s@, 0, Seq::empty(), false) == wrap_scan(
                        s@,
                        1,
                        Seq::<bool>::empty(),
                        false,
                    ));
                } else {
                    assert(wrap_scan(s@, 0, Seq::empty(), false) == wrap_scan(
                        s@,
                        1,
                        Seq::<bool>::empty(),
                        false,
                    ));
                }
                assert(!spec_is_wrapped(s@));
            }
        }
        assert(s@.len() >= 2);
        let mut r: Vec<char> = Vec::new();
        let mut i: usize = 1;
        while i < s.len() - 1
            invariant
                s@.len() >= 2,
                1 <= i <= s@.len() - 1,
                r@ =~= s@.subrange(1, i as int),
            decreases s@.len() - i,
        {
            r.push(s[i]);
            i = i + 1;
        }
        assert(r@ =~= s@.subrange(1, s@.len() - 1));
        r
    } else {
        let r = s.clone();
        r
    }
}

/// What `parentify` returns: the text wrapped in one parenthesis pair,
/// unless it already is one group.
pub open spec fn spec_parentify(s: Seq<char>) -> Seq<char> {
    if spec_is_wrapped(s) {
        s
    } else {
        seq!['('] + s + seq![')']
    }
}

/// Wraps the text in parentheses, unless it already is one group.
pub fn parentify(s: &Vec<char>) -> (r: Vec<char>)
    ensures
        r@ == spec_parentify(s@),
{
    if is_surrounded_with_parents(s) {
        s.clone()
    } else {
        let mut r: Vec<char> = Vec::new();
        r.push('(');
        let mut mid = s.clone();
        r.append(&mut mid);
        r.push(')');
        assert(r@ =~= seq!['('] + s@ + seq![')']);
        r
    }
}

/// Appends every character of `src` to `dst`.
pub fn push_all(dst: &mut Vec<char>, src: &Vec<char>)
    ensures
        final(dst)@ == old(dst)@ + src@,
{
    let mut i: usize = 0;
    while i < src.len()
        invariant
            0 <= i <= src@.len(),
            dst@ =~= old(dst)@ + src@.take(i as int),
        decreases src@.len() - i,
    {
        dst.push(src[i]);
        i = i + 1;
    }
    assert(dst@ =~= old(dst)@ + src@);
}

/// Appends every character of a string literal to `dst`.
pub fn push_str_chars(dst: &mut Vec<char>, src: &str)
    ensures
        final(dst)@ == old(dst)@ + src@,
{
    let v = str_to_chars(src);
    push_all(dst, &v);
}

/// Whether two character sequences are equal.
pub fn chars_eq(a: &Vec<char>, b: &Vec<char>) -> (r: bool)
    ensures
        r == (a@ =~= b@),
{
    if a.len() != b.len() {
        return false;
    }
    let mut i: usize = 0;
    while i < a.len()
        invariant
            0 <= i <= a@.len(),
            a@.len() == b@.len(),
            forall|j: int| 0 <= j < i ==> a@[j] == b@[j],
        decreases a@.len() - i,
    {
        if a[i] != b[i] {
            return false;
        }
        i = i + 1;
    }
    true
}

/// Whether a scanned word is exactly the given text.
pub fn word_is(w: &Vec<char>, s: &str) -> (r: bool)
    ensures
        r == (w@ == s@),
{
    let t = str_to_chars(s);
    chars_eq(w, &t)
}

/// Whether the characters starting at `pos` are exactly `pat`.
pub open spec fn matches_at(s: Seq<char>, pos: int, pat: Seq<char>) -> bool {
    &&& 0 <= pos
    &&& pos + pat.len() <= s.len()
    &&& s.subrange(pos, pos + pat.len()) =~= pat
}

/// Checks whether `pat` occurs in `s` at position `pos`.
pub fn starts_with_at(s: &Vec<char>, pos: usize, pat: &Vec<char>) -> (r: bool)
    ensures
        r == matches_at(s@, pos as int, pat@),
{
    if pos > s.len() || pat.len() > s.len() - pos {
        return false;
    }
    let n = s.len();
    let mut i: usize = 0;
    while i < pat.len()
        invariant
            0 <= i <= pat@.len(),
            n == s@.len(),
            pos + pat@.len() <= n,
            forall|j: int| 0 <= j < i ==> s@[pos + j] == pat@[j],
        decreases pat@.len() - i,
    {
        if s[pos + i] != pat[i] {
            assert(s@.subrange(pos as int, pos as int + pat@.len())[i as int] != pat@[i as int]);
            return false;
        }
        i = i + 1;
    }
    assert(s@.subrange(pos as int, pos as int + pat@.len()) =~= pat@);
    true
}

} // verus!
